use vstd::prelude::*;

use crate::cli::str_eq;
use crate::page::{chapter_jobs, jobs_match, ChapterJob, LabelRule};
use crate::pattern::{capture, find_all, is_match, regex_all, regex_group, regex_matches};
use crate::text::{
    chars_of, drop_bytes, drop_bytes_chars, lowercase, split_chars, split_on, string_of, texts,
    to_lowercase, views,
};
use crate::chapmanganato::skip_first;

verus! {

/// What a URL given to the downloader turns out to be.
pub enum SiteCheck {
    /// The URL has fewer than three `/`-parts, so no site.
    NoSite,
    /// The site, the `/`-part number 2, and whether the URL is that of a
    /// mangakakalot manga (`None` when the site pattern cannot be compiled).
    Checked { site: String, valid: Option<bool> },
}

/// The pattern that a mangakakalot manga URL matches.
pub open spec fn site_pattern() -> Seq<char> {
    "https://(mangakakalot).com/[a-zA-Z0-9_-]+"@
}

/// Checks a URL: its site is its `/`-part number 2, and it must match the site pattern.
pub fn check_url(url: &str) -> (r: SiteCheck)
    ensures
        if split_on(url@, '/').len() <= 2 {
            r is NoSite
        } else {
            r matches SiteCheck::Checked { site, valid } && site@ == split_on(url@, '/')[2] && valid
                == regex_matches(site_pattern(), url@)
        },
{
    let parts = split_chars(&chars_of(url), '/');
    if parts.len() <= 2 {
        return SiteCheck::NoSite;
    }
    assert(views(parts@)[2] == parts@[2]@);
    let site = string_of(&parts[2]);
    let valid = is_match("https://(mangakakalot).com/[a-zA-Z0-9_-]+", url);
    SiteCheck::Checked { site, valid }
}

/// Why a mangakakalot page cannot be downloaded.
pub enum MangakakalotError {
    /// A pattern cannot be compiled.
    BadPattern,
    /// The page has no `<h1>` title.
    NoTitle,
    /// The URL has too few `/`-parts to build the chapter pattern.
    ShortUrl,
    /// A chapter link found cannot be cut out of its quotes.
    BadMatch,
    /// The chapter page has no image container.
    NoImages,
}

/// The chapters of a mangakakalot manga to download: the title, the chapters
/// after the first `skipped` of `total`, and whether they stop early at one
/// whose number cannot be read.
pub struct MangakakalotPlan {
    pub title: String,
    pub jobs: Vec<ChapterJob>,
    pub skipped: usize,
    pub total: usize,
    pub broken: bool,
}

/// The pattern of the title of a page.
pub open spec fn title_pattern() -> Seq<char> {
    "<h1>(.*)</h1>"@
}

/// The chapter-link pattern of a manga whose chapters sit under `key` on `site`.
pub open spec fn link_pattern(site: Seq<char>, key: Seq<char>) -> Seq<char> {
    "\"https://"@ + site + "/chapter/"@ + key + "/chapter_[0-9]*\\.?[0-9]?\""@
}

/// A quoted link without its quotes, as `&m[1..m.len() - 1]` cuts it; `None`
/// where that slice panics.
pub open spec fn strip_ends(m: Seq<char>) -> Option<Seq<char>> {
    if m.len() > 0 && (m.last() as u32) < 0x80 {
        drop_bytes(m.drop_last(), 1)
    } else {
        None
    }
}

/// Whether every match can be cut out of its quotes.
pub open spec fn all_strip(ms: Seq<Seq<char>>) -> bool {
    forall|i: int| 0 <= i < ms.len() ==> #[trigger] strip_ends(ms[i]) is Some
}

/// The matches cut out of their quotes.
pub open spec fn stripped(ms: Seq<Seq<char>>) -> Seq<Seq<char>> {
    Seq::new(ms.len(), |i: int| strip_ends(ms[i])->0)
}

/// The key under which the chapters of a manga sit: the `/`-part number 4
/// of its URL when part number 3 is `manga`, else the title in lower case.
pub open spec fn chapter_key(url: Seq<char>, title: Seq<char>) -> Option<Seq<char>> {
    let parts = split_on(url, '/');
    if parts.len() <= 3 {
        None
    } else if parts[3] == "manga"@ {
        if parts.len() <= 4 {
            None
        } else {
            Some(parts[4])
        }
    } else {
        Some(lowercase(title))
    }
}

/// The chapter URLs of a mangakakalot page, last first: the quoted links
/// that the chapter-link pattern finds, without their quotes.
pub open spec fn chapter_links(url: Seq<char>, title: Seq<char>, html: Seq<char>) -> Result<
    Seq<Seq<char>>,
    MangakakalotError,
> {
    match chapter_key(url, title) {
        None => Err(MangakakalotError::ShortUrl),
        Some(key) => match regex_all(link_pattern(split_on(url, '/')[2], key), html) {
            None => Err(MangakakalotError::BadPattern),
            Some(ms) => if all_strip(ms) {
                Ok(stripped(ms).reverse())
            } else {
                Err(MangakakalotError::BadMatch)
            },
        },
    }
}

/// The chapter pattern of mangakakalot URLs.
pub open spec fn chapter_pattern() -> Seq<char> {
    "_([0-9]+\\.?[0-9]?)"@
}

/// Whether `r` is the plan for the mangakakalot page `html` at `url`.
pub open spec fn plan_fits(
    r: Result<MangakakalotPlan, MangakakalotError>,
    url: Seq<char>,
    html: Seq<char>,
    skip: nat,
    output_dir: Seq<char>,
) -> bool {
    match regex_group(title_pattern(), html, 1) {
        None => r matches Err(MangakakalotError::BadPattern),
        Some(None) => r matches Err(MangakakalotError::NoTitle),
        Some(Some(t)) => match chapter_links(url, t, html) {
            Err(e) => r matches Err(e2) && e2 == e,
            Ok(us) => r matches Ok(p) && p.title@ == t && p.total == us.len() && p.skipped == (
            if skip <= us.len() {
                skip
            } else {
                us.len()
            }) && jobs_match(
                p.jobs@,
                chapter_pattern(),
                LabelRule::DropFirst,
                skip_first(us, skip),
                output_dir + "/chapter"@,
                false,
            ) && p.broken == (p.jobs@.len() < skip_first(us, skip).len()),
        },
    }
}

/// Cuts every match out of its quotes.
fn strip_all(ms: &Vec<String>) -> (r: Option<Vec<String>>)
    ensures
        match r {
            Some(v) => all_strip(ms.deep_view()) && v.deep_view() == stripped(ms.deep_view()),
            None => !all_strip(ms.deep_view()),
        },
{
    let mut out: Vec<String> = Vec::new();
    let mut i: usize = 0;
    while i < ms.len()
        invariant
            i <= ms@.len(),
            forall|j: int| 0 <= j < i ==> #[trigger] strip_ends(ms.deep_view()[j]) is Some,
            out.deep_view() =~= stripped(ms.deep_view()).take(i as int),
        decreases ms@.len() - i,
    {
        let m = chars_of(ms[i].as_str());
        assert(ms.deep_view()[i as int] == m@);
        if m.len() == 0 || (m[m.len() - 1] as u32) >= 0x80 {
            assert(strip_ends(ms.deep_view()[i as int]) is None);
            return None;
        }
        let mut inner = m.clone();
        inner.pop();
        assert(inner@ =~= m@.drop_last());
        match drop_bytes_chars(&inner, 1) {
            Some(w) => {
                let s = string_of(&w);
                let ghost before = out.deep_view();
                out.push(s);
                assert(out.deep_view() =~= before.push(s@));
            },
            None => {
                assert(strip_ends(ms.deep_view()[i as int]) is None);
                return None;
            },
        }
        assert(out.deep_view() =~= stripped(ms.deep_view()).take(i as int + 1));
        i = i + 1;
    }
    assert(stripped(ms.deep_view()).take(i as int) =~= stripped(ms.deep_view()));
    Some(out)
}

/// Reads the chapter URLs of a mangakakalot page titled `title`.
pub fn read_chapter_links(url: &str, title: &str, html: &str) -> (r: Result<Vec<String>, MangakakalotError>)
    ensures
        match r {
            Ok(v) => chapter_links(url@, title@, html@) == Ok::<Seq<Seq<char>>, MangakakalotError>(v.deep_view()),
            Err(e) => chapter_links(url@, title@, html@) == Err::<Seq<Seq<char>>, MangakakalotError>(e),
        },
{
    let parts = split_chars(&chars_of(url), '/');
    if parts.len() <= 3 {
        return Err(MangakakalotError::ShortUrl);
    }
    assert(views(parts@)[3] == parts@[3]@);
    assert(views(parts@)[2] == parts@[2]@);
    let third = string_of(&parts[3]);
    let key = if str_eq(third.as_str(), "manga") {
        if parts.len() <= 4 {
            return Err(MangakakalotError::ShortUrl);
        }
        assert(views(parts@)[4] == parts@[4]@);
        string_of(&parts[4])
    } else {
        to_lowercase(title)
    };
    let site = string_of(&parts[2]);
    let mut pattern = "\"https://".to_owned();
    pattern.append(site.as_str());
    pattern.append("/chapter/");
    pattern.append(key.as_str());
    pattern.append("/chapter_[0-9]*\\.?[0-9]?\"");
    let ms = match find_all(pattern.as_str(), html) {
        Some(ms) => ms,
        None => {
            return Err(MangakakalotError::BadPattern);
        },
    };
    let links = match strip_all(&ms) {
        Some(v) => v,
        None => {
            return Err(MangakakalotError::BadMatch);
        },
    };
    let mut rev: Vec<String> = Vec::new();
    let mut k: usize = links.len();
    while k > 0
        invariant
            k <= links@.len(),
            rev.deep_view() =~= links.deep_view().reverse().take((links@.len() - k) as int),
        decreases k,
    {
        let c = links[k - 1].clone();
        let ghost before = rev.deep_view();
        rev.push(c);
        assert(rev.deep_view() =~= before.push(c@));
        assert(links.deep_view()[k - 1] == c@);
        assert(rev.deep_view() =~= links.deep_view().reverse().take((links@.len() - k + 1) as int));
        k = k - 1;
    }
    assert(links.deep_view().reverse().take(links@.len() as int) =~= links.deep_view().reverse());
    Ok(rev)
}

/// Plans the download of the mangakakalot page `html` found at `url`: read
/// its title and chapter links, leave out the first `skip` chapters, and lay
/// out where each goes under `output_dir`.
pub fn downloader(url: &str, html: &str, skip: u32, output_dir: &str) -> (r: Result<MangakakalotPlan, MangakakalotError>)
    ensures
        plan_fits(r, url@, html@, skip as nat, output_dir@),
{
    let title = match capture("<h1>(.*)</h1>", html, 1) {
        None => {
            return Err(MangakakalotError::BadPattern);
        },
        Some(None) => {
            return Err(MangakakalotError::NoTitle);
        },
        Some(Some(t)) => t,
    };
    let urls = match read_chapter_links(url, title.as_str(), html) {
        Ok(v) => v,
        Err(e) => {
            return Err(e);
        },
    };
    let strs = crate::text::as_strs(&urls);
    let total = strs.len();
    let skipped: usize = if (skip as usize) <= total {
        skip as usize
    } else {
        total
    };
    let rest = crate::downloaders::handlers::copy_range(&strs, skipped, total);
    assert(texts(rest@) =~= skip_first(urls.deep_view(), skip as nat));
    let mut base = output_dir.to_owned();
    base.append("/chapter");
    let jobs = chapter_jobs("_([0-9]+\\.?[0-9]?)", LabelRule::DropFirst, &rest, base.as_str(), false);
    let broken = jobs.len() < rest.len();
    Ok(MangakakalotPlan { title, jobs, skipped, total, broken })
}

/// The images of a mangakakalot chapter page: the part of the page inside
/// the reader container, and in it each `<img src="…` match without its
/// first ten bytes.
pub open spec fn image_urls_spec(html: Seq<char>) -> Result<Seq<Seq<char>>, MangakakalotError> {
    match regex_group(
        "<div class=\"container-chapter-reader\">((.|\\n)*)<div style=\"text-align:center;\">"@,
        html,
        1,
    ) {
        None => Err(MangakakalotError::BadPattern),
        Some(None) => Err(MangakakalotError::NoImages),
        Some(Some(section)) => match regex_all("<img src=\"([^\"]*)"@, section) {
            None => Err(MangakakalotError::BadPattern),
            Some(ms) => if forall|i: int| 0 <= i < ms.len() ==> #[trigger] drop_bytes(ms[i], 10) is Some {
                Ok(Seq::new(ms.len(), |i: int| drop_bytes(ms[i], 10)->0))
            } else {
                Err(MangakakalotError::BadMatch)
            },
        },
    }
}

/// Reads the image URLs of a mangakakalot chapter page.
pub fn mangakakalot_get_imgs(html: &str) -> (r: Result<Vec<String>, MangakakalotError>)
    ensures
        match r {
            Ok(v) => image_urls_spec(html@) == Ok::<Seq<Seq<char>>, MangakakalotError>(v.deep_view()),
            Err(e) => image_urls_spec(html@) == Err::<Seq<Seq<char>>, MangakakalotError>(e),
        },
{
    let section = match capture(
        "<div class=\"container-chapter-reader\">((.|\\n)*)<div style=\"text-align:center;\">",
        html,
        1,
    ) {
        None => {
            return Err(MangakakalotError::BadPattern);
        },
        Some(None) => {
            return Err(MangakakalotError::NoImages);
        },
        Some(Some(s)) => s,
    };
    let ms = match find_all("<img src=\"([^\"]*)", section.as_str()) {
        Some(ms) => ms,
        None => {
            return Err(MangakakalotError::BadPattern);
        },
    };
    let ghost msv = ms.deep_view();
    let mut out: Vec<String> = Vec::new();
    let mut i: usize = 0;
    while i < ms.len()
        invariant
            i <= ms@.len(),
            msv == ms.deep_view(),
            regex_group(
                "<div class=\"container-chapter-reader\">((.|\\n)*)<div style=\"text-align:center;\">"@,
                html@,
                1,
            ) == Some(Some(section@)),
            regex_all("<img src=\"([^\"]*)"@, section@) == Some(msv),
            forall|j: int| 0 <= j < i ==> #[trigger] drop_bytes(msv[j], 10) is Some,
            out.deep_view() =~= Seq::new(msv.len(), |j: int| drop_bytes(msv[j], 10)->0).take(
                i as int,
            ),
        decreases ms@.len() - i,
    {
        let m = chars_of(ms[i].as_str());
        assert(msv[i as int] == m@);
        match drop_bytes_chars(&m, 10) {
            Some(w) => {
                let s = string_of(&w);
                let ghost before = out.deep_view();
                out.push(s);
                assert(out.deep_view() =~= before.push(s@));
            },
            None => {
                assert(drop_bytes(msv[i as int], 10) is None);
                return Err(MangakakalotError::BadMatch);
            },
        }
        assert(out.deep_view() =~= Seq::new(msv.len(), |j: int| drop_bytes(msv[j], 10)->0).take(
            i as int + 1,
        ));
        i = i + 1;
    }
    assert(Seq::new(msv.len(), |j: int| drop_bytes(msv[j], 10)->0).take(i as int) =~= Seq::new(
        msv.len(),
        |j: int| drop_bytes(msv[j], 10)->0,
    ));
    Ok(out)
}

} // verus!

verus! {

/// The chapters planned are the chapter links after the first `skip`, in
/// order: job number `i` is for link number `skipped + i`, where `skipped` is
/// `skip`, or every link when there are fewer.
pub proof fn lemma_skip_leaves_out_first(
    r: Result<MangakakalotPlan, MangakakalotError>,
    url: Seq<char>,
    html: Seq<char>,
    skip: nat,
    output_dir: Seq<char>,
)
    requires
        plan_fits(r, url, html, skip, output_dir),
    ensures
        r matches Ok(p) ==> chapter_links(url, p.title@, html) matches Ok(us) && p.total == us.len()
            && p.skipped == (if skip <= us.len() {
            skip
        } else {
            us.len()
        }) && p.skipped + p.jobs@.len() <= us.len() && forall|i: int|
            0 <= i < p.jobs@.len() ==> (#[trigger] p.jobs@[i]).url@ == us[p.skipped + i],
{
    match r {
        Ok(p) => {
            let t = regex_group(title_pattern(), html, 1)->0->0;
            let us = chapter_links(url, t, html)->Ok_0;
            assert forall|i: int| 0 <= i < p.jobs@.len() implies (#[trigger] p.jobs@[i]).url@ == us[p.skipped
                + i] by {
                assert(crate::page::job_fits(
                    p.jobs@[i],
                    chapter_pattern(),
                    LabelRule::DropFirst,
                    skip_first(us, skip)[i],
                    output_dir + "/chapter"@,
                    false,
                ));
            }
        },
        _ => {},
    }
}

} // verus!
