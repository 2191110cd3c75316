use vstd::prelude::*;

use crate::text::{chars_eq, chars_of, last_segment, last_segment_chars, texts, trim, trim_chars};

verus! {

/// The options of one download: the page of a manga and how to pick its chapters.
pub struct Args {
    pub url: String,
    pub skip: Option<u32>,
    pub chapter: Option<u32>,
    pub range: Option<String>,
    pub verbose: bool,
    pub list: bool,
    pub name: Option<String>,
}

impl Args {
    /// A copy of these options, field by field.
    pub fn duplicate(&self) -> (r: Args)
        ensures
            r == *self,
    {
        Args {
            url: self.url.clone(),
            skip: self.skip,
            chapter: self.chapter,
            range: match &self.range {
                Some(s) => Some(s.clone()),
                None => None,
            },
            verbose: self.verbose,
            list: self.list,
            name: match &self.name {
                Some(s) => Some(s.clone()),
                None => None,
            },
        }
    }
}

/// Whether a chapter URL carries the chapter name `name`: its last `/`-part,
/// trimmed, equals `name` trimmed.
pub open spec fn chapter_named(url: Seq<char>, name: Seq<char>) -> bool {
    trim(last_segment(url, '/')) == trim(name)
}

/// `i` is the first position of `texts` whose chapter is named `name`.
pub open spec fn is_first_named_text(texts: Seq<Seq<char>>, name: Seq<char>, i: int) -> bool {
    &&& 0 <= i < texts.len()
    &&& chapter_named(texts[i], name)
    &&& forall|j: int| 0 <= j < i ==> !chapter_named(#[trigger] texts[j], name)
}

/// `i` is the first position of `urls` whose chapter is named `name`.
pub open spec fn is_first_named(urls: Seq<&str>, name: Seq<char>, i: int) -> bool {
    is_first_named_text(texts(urls), name, i)
}

/// The chapter of `texts` named `name`: the first whose name matches, or none.
pub open spec fn pick_named_text(texts: Seq<Seq<char>>, name: Seq<char>) -> Seq<Seq<char>> {
    if exists|i: int| is_first_named_text(texts, name, i) {
        seq![texts[choose|i: int| is_first_named_text(texts, name, i)]]
    } else {
        Seq::empty()
    }
}

/// The chapter of `urls` named `name`: the first URL whose name matches, or none.
pub open spec fn pick_named(urls: Seq<&str>, name: Seq<char>) -> Seq<&str> {
    if exists|i: int| is_first_named_text(texts(urls), name, i) {
        seq![urls[choose|i: int| is_first_named_text(texts(urls), name, i)]]
    } else {
        Seq::empty()
    }
}

/// Picking by name commutes with taking the texts of the URLs.
pub proof fn lemma_pick_named_texts(urls: Seq<&str>, name: Seq<char>)
    ensures
        texts(pick_named(urls, name)) == pick_named_text(texts(urls), name),
{
    if exists|i: int| is_first_named_text(texts(urls), name, i) {
        let i = choose|i: int| is_first_named_text(texts(urls), name, i);
        assert(texts(pick_named(urls, name)) =~= pick_named_text(texts(urls), name));
    } else {
        assert(texts(pick_named(urls, name)) =~= pick_named_text(texts(urls), name));
    }
}

/// There is at most one first match.
pub proof fn lemma_first_named_unique(urls: Seq<&str>, name: Seq<char>, i: int, k: int)
    requires
        is_first_named(urls, name, i),
        is_first_named(urls, name, k),
    ensures
        i == k,
{
    if i < k {
        assert(!chapter_named(texts(urls)[i], name));
    } else if k < i {
        assert(!chapter_named(texts(urls)[k], name));
    }
}

/// Whether `url` names the chapter `name` (trimmed).
pub fn url_has_name(url: &str, trimmed_name: &Vec<char>) -> (r: bool)
    ensures
        r == (trim(last_segment(url@, '/')) == trimmed_name@),
{
    let v = chars_of(url);
    let last = last_segment_chars(&v, '/');
    let t = trim_chars(&last);
    chars_eq(&t, trimmed_name)
}

/// The position of the first chapter of `urls` named `name`.
pub fn find_named(urls: &Vec<&str>, name: &str) -> (r: Option<usize>)
    ensures
        match r {
            Some(i) => is_first_named(urls@, name@, i as int),
            None => forall|i: int| 0 <= i < urls@.len() ==> !chapter_named(#[trigger] texts(urls@)[i], name@),
        },
{
    let nv = chars_of(name);
    let tn = trim_chars(&nv);
    let mut i: usize = 0;
    while i < urls.len()
        invariant
            i <= urls@.len(),
            tn@ == trim(name@),
            forall|j: int| 0 <= j < i ==> !chapter_named(#[trigger] texts(urls@)[j], name@),
        decreases urls@.len() - i,
    {
        assert(texts(urls@)[i as int] == urls@[i as int]@);
        if url_has_name(urls[i], &tn) {
            return Some(i);
        }
        i = i + 1;
    }
    None
}

/// Keeps only the chapter named `name`: the first URL whose last `/`-part,
/// trimmed, equals `name` trimmed; nothing when no URL has that name.
pub fn name<'a>(urls: Vec<&'a str>, chapter_name: String) -> (r: Vec<&'a str>)
    ensures
        r@ == pick_named(urls@, chapter_name@),
{
    let ghost name = chapter_name;
    match find_named(&urls, chapter_name.as_str()) {
        Some(i) => {
            proof {
                assert(is_first_named(urls@, name@, i as int));
                let k = choose|k: int| is_first_named_text(texts(urls@), name@, k);
                lemma_first_named_unique(urls@, name@, i as int, k);
            }
            let r = vec![urls[i]];
            assert(r@ =~= pick_named(urls@, name@));
            r
        },
        None => {
            let r: Vec<&'a str> = Vec::new();
            assert(r@ =~= pick_named(urls@, name@));
            r
        },
    }
}

} // verus!

verus! {

/// When some chapter carries the name, a first one does.
proof fn lemma_first_named_exists(ts: Seq<Seq<char>>, name: Seq<char>, i: int)
    requires
        0 <= i < ts.len(),
        chapter_named(ts[i], name),
    ensures
        exists|k: int| is_first_named_text(ts, name, k),
    decreases i,
{
    if forall|j: int| 0 <= j < i ==> !chapter_named(#[trigger] ts[j], name) {
        assert(is_first_named_text(ts, name, i));
    } else {
        let j = choose|j: int| 0 <= j < i && chapter_named(#[trigger] ts[j], name);
        lemma_first_named_exists(ts, name, j);
    }
}

/// Picking a chapter by name keeps at most one chapter, one of the given
/// URLs that carries the name, and keeps none exactly when no URL carries it.
pub proof fn lemma_pick_named_keeps_named(urls: Seq<&str>, name: Seq<char>)
    ensures
        pick_named(urls, name).len() <= 1,
        pick_named(urls, name).len() == 1 ==> exists|i: int|
            0 <= i < urls.len() && pick_named(urls, name)[0] == urls[i] && chapter_named(
                #[trigger] urls[i]@,
                name,
            ),
        pick_named(urls, name).len() == 0 <==> forall|i: int|
            0 <= i < urls.len() ==> !chapter_named(#[trigger] urls[i]@, name),
{
    let ts = texts(urls);
    if exists|i: int| is_first_named_text(ts, name, i) {
        let i = choose|i: int| is_first_named_text(ts, name, i);
        assert(ts[i] == urls[i]@);
        assert(pick_named(urls, name)[0] == urls[i]);
    } else {
        assert forall|i: int| 0 <= i < urls.len() implies !chapter_named(#[trigger] urls[i]@, name) by {
            assert(ts[i] == urls[i]@);
            if chapter_named(urls[i]@, name) {
                lemma_first_named_exists(ts, name, i);
            }
        }
    }
}

} // verus!

verus! {

/// A name that the chapter listing shows selects that chapter: the listing
/// prints the last `/`-part of chapter `k` as its name, and when no chapter
/// before it carries the same name once trimmed, choosing by that name keeps
/// chapter `k`.
pub proof fn lemma_shown_name_selects_chapter(
    r: Seq<crate::listing::ListEntry>,
    urls: Seq<&str>,
    width: nat,
    k: int,
)
    requires
        crate::listing::listing_matches(r, urls, crate::listing::last_part_measures(urls), 3, width),
        0 <= k < urls.len(),
        forall|j: int|
            0 <= j < k ==> trim(last_segment(#[trigger] urls[j]@, '/')) != trim(
                last_segment(urls[k]@, '/'),
            ),
    ensures
        r[k].name@ == crate::text::pad_right(
            last_segment(urls[k]@, '/'),
            crate::listing::column_width(crate::listing::last_part_measures(urls)),
        ),
        pick_named(urls, last_segment(urls[k]@, '/')) == seq![urls[k]],
{
    let ts = texts(urls);
    let v = last_segment(urls[k]@, '/');
    assert forall|j: int| 0 <= j < k implies !chapter_named(#[trigger] ts[j], v) by {
        assert(ts[j] == urls[j]@);
    }
    assert(ts[k] == urls[k]@);
    assert(is_first_named_text(ts, v, k));
    let i = choose|i: int| is_first_named_text(ts, v, i);
    lemma_first_named_unique(urls, v, i, k);
}

} // verus!
