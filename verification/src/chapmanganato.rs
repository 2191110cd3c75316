use vstd::prelude::*;

use crate::address::{parse_url, url_parts};
use crate::cli::{has_flag, is_flag};
use crate::downloaders::downloader::PlanError;
use crate::handlers::flags::{flags_fit, flags_selected, select_by_flags};
use crate::page::{chapter_jobs, chapter_page, jobs_match, read_chapter_page, ChapterJob, LabelRule};
use crate::pattern::{is_match, regex_matches};
use crate::text::{as_strs, split_chars, split_on, texts};

verus! {

/// What a URL given to the downloader turns out to be.
pub enum UrlCheck {
    /// The text is no URL.
    NotAUrl,
    /// The URL has no host.
    NoHost,
    /// The site pattern cannot be compiled.
    BadPattern,
    /// The URL is not that of a chapmanganato manga.
    Invalid,
    /// The URL of a chapmanganato manga, as `url` writes it, and its host.
    Supported { url: String, host: String },
}

/// The pattern that a chapmanganato manga URL matches.
pub open spec fn site_pattern() -> Seq<char> {
    "https://(chapmanganato).com/[a-zA-Z0-9_-]+"@
}

/// Checks a URL: it must be one, have a host, and match the site pattern.
pub fn check_url(url: &str) -> (r: UrlCheck)
    ensures
        match url_parts(url@) {
            None => r is NotAUrl,
            Some((_, None)) => r is NoHost,
            Some((s, Some(h))) => match regex_matches(site_pattern(), s) {
                None => r is BadPattern,
                Some(false) => r is Invalid,
                Some(true) => r matches UrlCheck::Supported { url, host } && url@ == s && host@ == h,
            },
        },
{
    match parse_url(url) {
        None => UrlCheck::NotAUrl,
        Some((s, None)) => UrlCheck::NoHost,
        Some((s, Some(h))) => match is_match("https://(chapmanganato).com/[a-zA-Z0-9_-]+", s.as_str()) {
            None => UrlCheck::BadPattern,
            Some(false) => UrlCheck::Invalid,
            Some(true) => UrlCheck::Supported { url: s, host: h },
        },
    }
}

/// What to do with a chapmanganato manga page.
pub enum LegacyPlan {
    /// List its chapters, measured by their `/`-part number `name_index`.
    List { urls: Vec<String>, name_index: usize },
    /// Download these chapters of the manga `title`, the first `skipped` of
    /// the `total` selected being left out; `broken` when they stop before the
    /// end, at a chapter whose number cannot be read.
    Download { title: String, jobs: Vec<ChapterJob>, skipped: usize, total: usize, broken: bool },
}

/// Whether `args` ask for the listing.
pub open spec fn wants_list(args: Seq<String>) -> bool {
    exists|i: int| 0 <= i < args.len() && is_flag(#[trigger] args[i]@, "-l"@, "--list"@)
}

/// The chapter pattern of chapmanganato URLs.
pub open spec fn chapter_pattern() -> Seq<char> {
    "-([0-9]+\\.?[0-9]?)"@
}

/// The chapters left once the first `skip` are left out.
pub open spec fn skip_first(ts: Seq<Seq<char>>, skip: nat) -> Seq<Seq<char>> {
    if skip <= ts.len() {
        ts.skip(skip as int)
    } else {
        Seq::empty()
    }
}

/// Whether `r` is the plan for the chapmanganato manga page `html` at `url`.
pub open spec fn legacy_plan_fits(
    r: Result<LegacyPlan, PlanError>,
    url: Seq<char>,
    html: Seq<char>,
    args: Seq<String>,
    skip: nat,
    output_dir: Seq<char>,
) -> bool {
    match chapter_page(html, "row-content-chapter"@) {
        Err(e) => r matches Err(PlanError::Page(e2)) && e2 == e,
        Ok((t, us)) => if wants_list(args) {
            r matches Ok(LegacyPlan::List { urls, name_index }) && urls.deep_view() == us
                && name_index == split_on(url, '/').len()
        } else if !flags_fit(us, args) {
            r matches Err(PlanError::Selection)
        } else {
            let sel = flags_selected(us, args);
            r matches Ok(LegacyPlan::Download { title, jobs, skipped, total, broken }) && title@ == t
                && total == sel.len() && skipped == (if skip <= sel.len() {
                skip
            } else {
                sel.len()
            }) && jobs_match(
                jobs@,
                chapter_pattern(),
                LabelRule::DropFirst,
                skip_first(sel, skip),
                output_dir + "/"@ + t + "/chapter"@,
                false,
            ) && broken == (jobs@.len() < skip_first(sel, skip).len())
        },
    }
}

/// Plans the download of the chapmanganato manga page `html` found at `url`:
/// list its chapters when `-l`/`--list` is given, else select chapters by
/// `-c`, `-r` and `-n`, leave out the first `skip`, and lay out where each goes.
pub fn downloader(url: &str, html: &str, args: &Vec<String>, skip: u32, output_dir: &str) -> (r: Result<
    LegacyPlan,
    PlanError,
>)
    ensures
        legacy_plan_fits(r, url@, html@, args@, skip as nat, output_dir@),
{
    let (title, urls) = match read_chapter_page(html, "row-content-chapter") {
        Ok(p) => p,
        Err(e) => {
            return Err(PlanError::Page(e));
        },
    };
    if has_flag(args, "-l", "--list") {
        let name_index = split_chars(&crate::text::chars_of(url), '/').len();
        return Ok(LegacyPlan::List { urls, name_index });
    }
    let strs = as_strs(&urls);
    let chosen = match select_by_flags(strs, args) {
        Some(c) => c,
        None => {
            return Err(PlanError::Selection);
        },
    };
    let total = chosen.len();
    let skipped: usize = if (skip as usize) <= total {
        skip as usize
    } else {
        total
    };
    let rest = crate::downloaders::handlers::copy_range(&chosen, skipped, total);
    assert(texts(rest@) =~= skip_first(texts(chosen@), skip as nat));
    let mut base = output_dir.to_owned();
    base.append("/");
    base.append(title.as_str());
    base.append("/chapter");
    let jobs = chapter_jobs("-([0-9]+\\.?[0-9]?)", LabelRule::DropFirst, &rest, base.as_str(), false);
    let broken = jobs.len() < rest.len();
    Ok(LegacyPlan::Download { title, jobs, skipped, total, broken })
}

} // verus!

verus! {

/// `--list` or `-l` anywhere on the command line asks for the listing: on a
/// readable page the plan lists the page's chapters, last link first, measured
/// by the `/`-part after the manga URL, and downloads nothing.
pub proof fn lemma_list_flag_lists(
    r: Result<LegacyPlan, PlanError>,
    url: Seq<char>,
    html: Seq<char>,
    args: Seq<String>,
    skip: nat,
    output_dir: Seq<char>,
    i: int,
)
    requires
        legacy_plan_fits(r, url, html, args, skip, output_dir),
        chapter_page(html, "row-content-chapter"@) is Ok,
        0 <= i < args.len(),
        args[i]@ == "--list"@ || args[i]@ == "-l"@,
    ensures
        r matches Ok(LegacyPlan::List { urls, name_index }) && urls.deep_view() == chapter_page(
            html,
            "row-content-chapter"@,
        )->Ok_0.1 && name_index == split_on(url, '/').len(),
{
    assert(is_flag(args[i]@, "-l"@, "--list"@));
    assert(wants_list(args));
}

/// The chapters downloaded are the selected ones after the first `skip`, in
/// order: download number `i` is the selected chapter number `skipped + i`.
pub proof fn lemma_legacy_skip_leaves_out_first(
    r: Result<LegacyPlan, PlanError>,
    url: Seq<char>,
    html: Seq<char>,
    args: Seq<String>,
    skip: nat,
    output_dir: Seq<char>,
)
    requires
        legacy_plan_fits(r, url, html, args, skip, output_dir),
    ensures
        r matches Ok(LegacyPlan::Download { jobs, skipped, total, .. }) ==> {
            let sel = flags_selected(chapter_page(html, "row-content-chapter"@)->Ok_0.1, args);
            &&& total == sel.len()
            &&& skipped == (if skip <= sel.len() { skip } else { sel.len() })
            &&& skipped + jobs@.len() <= total
            &&& forall|k: int| 0 <= k < jobs@.len() ==> (#[trigger] jobs@[k]).url@ == sel[skipped + k]
        },
{
    match r {
        Ok(LegacyPlan::Download { title, jobs, skipped, total, broken }) => {
            let (t, us) = chapter_page(html, "row-content-chapter"@)->Ok_0;
            let sel = flags_selected(us, args);
            assert forall|k: int| 0 <= k < jobs@.len() implies (#[trigger] jobs@[k]).url@ == sel[skipped
                + k] by {
                assert(crate::page::job_fits(
                    jobs@[k],
                    chapter_pattern(),
                    LabelRule::DropFirst,
                    skip_first(sel, skip)[k],
                    output_dir + "/"@ + t + "/chapter"@,
                    false,
                ));
            }
        },
        _ => {},
    }
}

} // verus!
