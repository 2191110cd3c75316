use vstd::prelude::*;

use crate::html::{class_attrs, first_text, html_class_attrs, html_first_text};
use crate::pattern::{find, regex_first};
use crate::text::{
    append_chars, chars_of, decimal, decimal_chars, pad_left, pad_left_chars, string_of, texts,
};

verus! {

/// Why a manga page could not be read.
#[derive(Debug, PartialEq, Eq, Structural)]
pub enum PageError {
    /// The page has no `h1` title.
    NoTitle,
    /// The page has no element of the chapter-list class.
    NoChapterList,
    /// A chapter link has no `href`.
    MissingLink,
}

/// The attribute values of the first element of class `class`, if any.
pub open spec fn first_class_attrs(html: Seq<char>, class: Seq<char>, tag: Seq<char>, attr: Seq<char>) -> Option<
    Seq<Option<Seq<char>>>,
> {
    let nodes = html_class_attrs(html, class, tag, attr);
    if nodes.len() > 0 {
        Some(nodes[0])
    } else {
        None
    }
}

/// Whether every value is present.
pub open spec fn all_present(vs: Seq<Option<Seq<char>>>) -> bool {
    forall|i: int| 0 <= i < vs.len() ==> #[trigger] vs[i] is Some
}

/// The present values.
pub open spec fn present(vs: Seq<Option<Seq<char>>>) -> Seq<Seq<char>> {
    Seq::new(
        vs.len(),
        |i: int|
            match vs[i] {
                Some(s) => s,
                None => Seq::empty(),
            },
    )
}

/// What a manga page gives: its `h1` title and the `href` of every link in its
/// first element of class `class`, last link first.
pub open spec fn chapter_page(html: Seq<char>, class: Seq<char>) -> Result<(Seq<char>, Seq<Seq<char>>), PageError> {
    match html_first_text(html, "h1"@) {
        None => Err(PageError::NoTitle),
        Some(t) => match first_class_attrs(html, class, "a"@, "href"@) {
            None => Err(PageError::NoChapterList),
            Some(links) => if all_present(links) {
                Ok((t, present(links).reverse()))
            } else {
                Err(PageError::MissingLink)
            },
        },
    }
}

/// Takes the present values, or `None` when one is absent.
fn unwrap_all(vs: &Vec<Option<String>>) -> (r: Option<Vec<String>>)
    ensures
        match r {
            Some(v) => all_present(vs.deep_view()) && v.deep_view() == present(vs.deep_view()),
            None => !all_present(vs.deep_view()),
        },
{
    let mut out: Vec<String> = Vec::new();
    let mut i: usize = 0;
    while i < vs.len()
        invariant
            i <= vs@.len(),
            forall|j: int| 0 <= j < i ==> #[trigger] vs.deep_view()[j] is Some,
            out.deep_view() =~= present(vs.deep_view()).take(i as int),
        decreases vs@.len() - i,
    {
        match &vs[i] {
            Some(s) => {
                let c = s.clone();
                let ghost before = out.deep_view();
                out.push(c);
                assert(out.deep_view() =~= before.push(c@));
                assert(vs.deep_view()[i as int] == Some(s@));
            },
            None => {
                assert(vs.deep_view()[i as int] is None);
                return None;
            },
        }
        assert(out.deep_view() =~= present(vs.deep_view()).take(i as int + 1));
        i = i + 1;
    }
    assert(present(vs.deep_view()).take(i as int) =~= present(vs.deep_view()));
    Some(out)
}

/// Reads a manga page: its title and its chapter links, last link first.
pub fn read_chapter_page(html: &str, class: &str) -> (r: Result<(String, Vec<String>), PageError>)
    ensures
        match r {
            Ok((t, us)) => chapter_page(html@, class@) == Ok::<(Seq<char>, Seq<Seq<char>>), PageError>((t@, us.deep_view())),
            Err(e) => chapter_page(html@, class@) == Err::<(Seq<char>, Seq<Seq<char>>), PageError>(e),
        },
{
    let title = match first_text(html, "h1") {
        Some(t) => t,
        None => {
            return Err(PageError::NoTitle);
        },
    };
    let nodes = class_attrs(html, class, "a", "href");
    if nodes.len() == 0 {
        return Err(PageError::NoChapterList);
    }
    assert(nodes.deep_view()[0] == nodes@[0].deep_view());
    let links = match unwrap_all(&nodes[0]) {
        Some(v) => v,
        None => {
            return Err(PageError::MissingLink);
        },
    };
    let mut rev: Vec<String> = Vec::new();
    let mut k: usize = links.len();
    while k > 0
        invariant
            k <= links@.len(),
            rev.deep_view() =~= links.deep_view().reverse().take((links@.len() - k) as int),
        decreases k,
    {
        let c = links[k - 1].clone();
        let ghost before = rev.deep_view();
        rev.push(c);
        assert(rev.deep_view() =~= before.push(c@));
        assert(links.deep_view()[k - 1] == c@);
        assert(rev.deep_view() =~= links.deep_view().reverse().take((links@.len() - k + 1) as int));
        k = k - 1;
    }
    assert(links.deep_view().reverse().take(links@.len() as int) =~= links.deep_view().reverse());
    Ok((title, rev))
}

/// The image sources of a chapter page: for each element of class `class`,
/// the `src` of each of its images; `None` when an image has no `src`.
pub open spec fn image_sources_spec(html: Seq<char>, class: Seq<char>) -> Option<Seq<Seq<Seq<char>>>> {
    let nodes = html_class_attrs(html, class, "img"@, "src"@);
    if forall|i: int| 0 <= i < nodes.len() ==> all_present(#[trigger] nodes[i]) {
        Some(Seq::new(nodes.len(), |i: int| present(nodes[i])))
    } else {
        None
    }
}

/// Reads the image sources of a chapter page.
pub fn image_sources(html: &str, class: &str) -> (r: Option<Vec<Vec<String>>>)
    ensures
        match r {
            Some(v) => image_sources_spec(html@, class@) == Some(v.deep_view()),
            None => image_sources_spec(html@, class@) is None,
        },
{
    let nodes = class_attrs(html, class, "img", "src");
    let ghost ns = html_class_attrs(html@, class@, "img"@, "src"@);
    let mut out: Vec<Vec<String>> = Vec::new();
    let mut i: usize = 0;
    while i < nodes.len()
        invariant
            i <= nodes@.len(),
            nodes.deep_view() == ns,
            ns == html_class_attrs(html@, class@, "img"@, "src"@),
            forall|j: int| 0 <= j < i ==> all_present(#[trigger] ns[j]),
            out.deep_view() =~= Seq::new(ns.len(), |j: int| present(ns[j])).take(i as int),
        decreases nodes@.len() - i,
    {
        assert(ns[i as int] == nodes@[i as int].deep_view());
        match unwrap_all(&nodes[i]) {
            Some(v) => {
                let ghost before = out.deep_view();
                let ghost vv = v.deep_view();
                out.push(v);
                assert(out.deep_view() =~= before.push(vv));
            },
            None => {
                assert(!all_present(ns[i as int]));
                return None;
            },
        }
        assert(out.deep_view() =~= Seq::new(ns.len(), |j: int| present(ns[j])).take(i as int + 1));
        i = i + 1;
    }
    assert(Seq::new(ns.len(), |j: int| present(ns[j])).take(i as int) =~= Seq::new(
        ns.len(),
        |j: int| present(ns[j]),
    ));
    Some(out)
}

/// The file that image number `index` of a chapter is saved to: its number
/// zero-padded to three digits, with `.jpg`, in the directory `dir`.
pub open spec fn image_file_spec(dir: Seq<char>, index: nat) -> Seq<char> {
    dir + "/"@ + pad_left(decimal(index), '0', 3) + ".jpg"@
}

/// The number under which image `index` of a chapter is saved and reported:
/// zero-padded to three digits, as `{:0>3}` writes it.
pub fn image_number(index: usize) -> (r: String)
    ensures
        r@ == pad_left(decimal(index as nat), '0', 3),
{
    string_of(&pad_left_chars(&decimal_chars(index as u64), '0', 3))
}

/// The file that image number `index` of a chapter is saved to.
pub fn image_file(dir: &str, index: usize) -> (r: String)
    ensures
        r@ == image_file_spec(dir@, index as nat),
{
    let label = image_number(index);
    let mut r = dir.to_owned();
    r.append("/");
    r.append(label.as_str());
    r.append(".jpg");
    r
}

} // verus!

verus! {

/// How the chapter label is read off the text that the chapter pattern matched.
pub enum LabelRule {
    /// The match without its first character (`&m[1..]`).
    DropFirst,
    /// The match without any `-` (`m.replace("-", "")`).
    RemoveDashes,
}

/// `s` without any occurrence of `c`.
pub open spec fn remove_char(s: Seq<char>, c: char) -> Seq<char>
    decreases s.len(),
{
    if s.len() == 0 {
        s
    } else if s.last() == c {
        remove_char(s.drop_last(), c)
    } else {
        remove_char(s.drop_last(), c).push(s.last())
    }
}

/// `m` without its first character; `None` where slicing from byte 1 fails
/// (an empty text, or a first character of more than one byte).
pub open spec fn drop_first_label(m: Seq<char>) -> Option<Seq<char>> {
    if m.len() > 0 && (m[0] as u32) < 0x80 {
        Some(m.drop_first())
    } else {
        None
    }
}

/// The label that a rule reads off a match.
pub open spec fn label_of(rule: LabelRule, m: Seq<char>) -> Option<Seq<char>> {
    match rule {
        LabelRule::DropFirst => drop_first_label(m),
        LabelRule::RemoveDashes => Some(remove_char(m, '-')),
    }
}

/// What the chapter pattern finds in a chapter URL: the matched text and its
/// label; `None` when the pattern is invalid, does not match, or the label
/// cannot be read.
pub open spec fn chapter_match(pattern: Seq<char>, rule: LabelRule, url: Seq<char>) -> Option<
    (Seq<char>, Seq<char>),
> {
    match regex_first(pattern, url) {
        Some(Some(m)) => match label_of(rule, m) {
            Some(l) => Some((m, l)),
            None => None,
        },
        _ => None,
    }
}

/// A chapter URL with the text its chapter pattern matched and its label.
pub struct ChapterMatch {
    pub url: String,
    pub matched: String,
    pub label: String,
}

/// Whether `r` holds the chapter matches of the URLs, in order, up to the first
/// URL whose chapter cannot be read.
pub open spec fn matches_prefix(r: Seq<ChapterMatch>, pattern: Seq<char>, rule: LabelRule, urls: Seq<Seq<char>>) -> bool {
    &&& r.len() <= urls.len()
    &&& forall|i: int|
        0 <= i < r.len() ==> #[trigger] chapter_match(pattern, rule, urls[i]) == Some(
            (r[i].matched@, r[i].label@),
        ) && r[i].url@ == urls[i]
    &&& r.len() < urls.len() ==> chapter_match(pattern, rule, urls[r.len() as int]) is None
}

/// `m` without any `-`.
fn remove_dashes(m: &Vec<char>) -> (r: Vec<char>)
    ensures
        r@ == remove_char(m@, '-'),
{
    let mut r: Vec<char> = Vec::new();
    let mut i: usize = 0;
    assert(m@.take(0) =~= Seq::<char>::empty());
    while i < m.len()
        invariant
            i <= m@.len(),
            r@ == remove_char(m@.take(i as int), '-'),
        decreases m@.len() - i,
    {
        assert(m@.take(i as int + 1).drop_last() =~= m@.take(i as int));
        if m[i] != '-' {
            r.push(m[i]);
        }
        i = i + 1;
    }
    assert(m@.take(i as int) =~= m@);
    r
}

/// Reads the label of a match.
fn read_label(rule: &LabelRule, m: &Vec<char>) -> (r: Option<Vec<char>>)
    ensures
        match r {
            Some(l) => label_of(*rule, m@) == Some(l@),
            None => label_of(*rule, m@) is None,
        },
{
    match rule {
        LabelRule::DropFirst => {
            if m.len() > 0 && (m[0] as u32) < 0x80 {
                let mut l: Vec<char> = Vec::new();
                let mut i: usize = 1;
                while i < m.len()
                    invariant
                        1 <= i <= m@.len(),
                        l@ == m@.subrange(1, i as int),
                    decreases m@.len() - i,
                {
                    l.push(m[i]);
                    assert(l@ =~= m@.subrange(1, i as int + 1));
                    i = i + 1;
                }
                assert(l@ =~= m@.drop_first());
                Some(l)
            } else {
                None
            }
        },
        LabelRule::RemoveDashes => Some(remove_dashes(m)),
    }
}

/// Reads the chapter of each URL with the chapter pattern, in order, stopping
/// at the first URL whose chapter cannot be read.
pub fn chapter_matches(pattern: &str, rule: LabelRule, urls: &Vec<&str>) -> (r: Vec<ChapterMatch>)
    ensures
        matches_prefix(r@, pattern@, rule, texts(urls@)),
{
    let mut r: Vec<ChapterMatch> = Vec::new();
    let mut i: usize = 0;
    while i < urls.len()
        invariant
            i <= urls@.len(),
            r@.len() == i,
            forall|j: int|
                0 <= j < i ==> #[trigger] chapter_match(pattern@, rule, texts(urls@)[j]) == Some(
                    (r@[j].matched@, r@[j].label@),
                ) && r@[j].url@ == texts(urls@)[j],
        decreases urls@.len() - i,
    {
        assert(texts(urls@)[i as int] == urls@[i as int]@);
        let m = match find(pattern, urls[i]) {
            Some(Some(m)) => m,
            _ => {
                return r;
            },
        };
        let mv = chars_of(m.as_str());
        let label = match read_label(&rule, &mv) {
            Some(l) => l,
            None => {
                return r;
            },
        };
        let entry = ChapterMatch { url: urls[i].to_owned(), matched: m, label: string_of(&label) };
        r.push(entry);
        i = i + 1;
    }
    r
}

} // verus!

verus! {

/// One chapter to download: its URL, the label shown for it, and the
/// directory its images go to.
pub struct ChapterJob {
    pub url: String,
    pub label: String,
    pub path: String,
}

/// Whether `job` is the download of `url`: its chapter reads as `(m, l)`,
/// its label is `l`, and its directory is `base` followed by `l` (`use_label`)
/// or by `m`.
pub open spec fn job_fits(
    job: ChapterJob,
    pattern: Seq<char>,
    rule: LabelRule,
    url: Seq<char>,
    base: Seq<char>,
    use_label: bool,
) -> bool {
    match chapter_match(pattern, rule, url) {
        Some((m, l)) => job.url@ == url && job.label@ == l && job.path@ == base + (if use_label {
            l
        } else {
            m
        }),
        None => false,
    }
}

/// Whether `jobs` are the downloads of the URLs, in order, up to the first URL
/// whose chapter cannot be read: each directory is `base` followed by the
/// label (`use_label`) or by the whole matched text.
pub open spec fn jobs_match(
    jobs: Seq<ChapterJob>,
    pattern: Seq<char>,
    rule: LabelRule,
    urls: Seq<Seq<char>>,
    base: Seq<char>,
    use_label: bool,
) -> bool {
    &&& jobs.len() <= urls.len()
    &&& forall|i: int|
        0 <= i < jobs.len() ==> job_fits(#[trigger] jobs[i], pattern, rule, urls[i], base, use_label)
    &&& jobs.len() < urls.len() ==> chapter_match(pattern, rule, urls[jobs.len() as int]) is None
}

/// Reads the chapters of the URLs with the chapter pattern and lays out their
/// downloads under `base`, stopping at the first URL whose chapter cannot be read.
pub fn chapter_jobs(pattern: &str, rule: LabelRule, urls: &Vec<&str>, base: &str, use_label: bool) -> (r:
    Vec<ChapterJob>)
    ensures
        jobs_match(r@, pattern@, rule, texts(urls@), base@, use_label),
{
    let ghost rl = rule;
    let ms = chapter_matches(pattern, rule, urls);
    let mut r: Vec<ChapterJob> = Vec::new();
    let mut i: usize = 0;
    while i < ms.len()
        invariant
            i <= ms@.len(),
            r@.len() == i,
            matches_prefix(ms@, pattern@, rl, texts(urls@)),
            forall|j: int|
                0 <= j < i ==> job_fits(#[trigger] r@[j], pattern@, rl, texts(urls@)[j], base@, use_label),
        decreases ms@.len() - i,
    {
        let mut path = base.to_owned();
        if use_label {
            path.append(ms[i].label.as_str());
        } else {
            path.append(ms[i].matched.as_str());
        }
        assert(chapter_match(pattern@, rl, texts(urls@)[i as int]) == Some(
            (ms@[i as int].matched@, ms@[i as int].label@),
        ));
        r.push(ChapterJob { url: ms[i].url.clone(), label: ms[i].label.clone(), path });
        i = i + 1;
    }
    r
}

} // verus!

verus! {

/// Every chapter of a plan goes to a directory under `base`.
pub proof fn lemma_jobs_under_base(
    jobs: Seq<ChapterJob>,
    pattern: Seq<char>,
    rule: LabelRule,
    urls: Seq<Seq<char>>,
    base: Seq<char>,
    use_label: bool,
)
    requires
        jobs_match(jobs, pattern, rule, urls, base, use_label),
    ensures
        forall|i: int|
            0 <= i < jobs.len() ==> (#[trigger] jobs[i]).path@.len() >= base.len() && jobs[i].path@.take(
                base.len() as int,
            ) == base,
{
    assert forall|i: int| 0 <= i < jobs.len() implies (#[trigger] jobs[i]).path@.len() >= base.len()
        && jobs[i].path@.take(base.len() as int) == base by {
        assert(job_fits(jobs[i], pattern, rule, urls[i], base, use_label));
        let p = jobs[i].path@;
        match chapter_match(pattern, rule, urls[i]) {
            Some((m, l)) => {
                let tail = if use_label {
                    l
                } else {
                    m
                };
                assert(p == base + tail);
                assert(p.take(base.len() as int) =~= base);
            },
            None => {},
        }
    }
}

} // verus!

verus! {

/// Every image of a chapter goes to a file of its own: distinct image
/// numbers give distinct files in the same directory.
pub proof fn lemma_image_files_distinct(dir: Seq<char>, i: nat, j: nat)
    requires
        i != j,
    ensures
        image_file_spec(dir, i) != image_file_spec(dir, j),
{
    let a = pad_left(decimal(i), '0', 3);
    let b = pad_left(decimal(j), '0', 3);
    let m: nat = if i <= j {
        j
    } else {
        i
    };
    crate::text::lemma_padded_reads_back(i, 3, m);
    crate::text::lemma_padded_reads_back(j, 3, m);
    reveal_strlit("/");
    reveal_strlit(".jpg");
    let fa = image_file_spec(dir, i);
    let fb = image_file_spec(dir, j);
    let k = dir.len() + 1;
    assert(fa.len() == k + a.len() + 4);
    assert(fb.len() == k + b.len() + 4);
    if fa == fb {
        assert(fa.subrange(k as int, (k + a.len()) as int) =~= a);
        assert(fb.subrange(k as int, (k + b.len()) as int) =~= b);
        assert(a == b);
        assert(false);
    }
}

} // verus!
