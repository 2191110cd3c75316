use vstd::prelude::*;

use super::downloaders::{is_first_named_text, pick_named, pick_named_text, Args};
use crate::text::{chars_of, parse_unsigned, parse_usize, split_chars, split_on, texts};

verus! {

/// The URLs of `urls` from position `start` up to, not including, `end`.
pub fn copy_range<'a>(urls: &Vec<&'a str>, start: usize, end: usize) -> (r: Vec<&'a str>)
    requires
        start <= end <= urls@.len(),
    ensures
        r@ == urls@.subrange(start as int, end as int),
{
    let mut r: Vec<&'a str> = Vec::new();
    let mut k: usize = start;
    while k < end
        invariant
            start <= k <= end <= urls@.len(),
            r@ == urls@.subrange(start as int, k as int),
        decreases end - k,
    {
        r.push(urls[k]);
        assert(r@ =~= urls@.subrange(start as int, k as int + 1));
        k = k + 1;
    }
    r
}

/// The bounds that a range option `"start-end"` names: the first two `-`-parts,
/// each read as a `usize`; `None` where the text has no such two numbers.
pub open spec fn range_bounds(s: Seq<char>) -> Option<(nat, nat)> {
    let parts = split_on(s, '-');
    if parts.len() >= 2 {
        match (parse_unsigned(parts[0], usize::MAX as nat), parse_unsigned(
            parts[1],
            usize::MAX as nat,
        )) {
            (Some(a), Some(b)) => Some((a, b)),
            _ => None,
        }
    } else {
        None
    }
}

/// Reads a range option `"start-end"`.
pub fn parse_range(s: &str) -> (r: Option<(usize, usize)>)
    ensures
        match range_bounds(s@) {
            Some((a, b)) => r == Some((a as usize, b as usize)),
            None => r is None,
        },
{
    let v = chars_of(s);
    let parts = split_chars(&v, '-');
    if parts.len() < 2 {
        return None;
    }
    let a = crate::text::string_of(&parts[0]);
    let b = crate::text::string_of(&parts[1]);
    assert(a@ == split_on(s@, '-')[0]);
    assert(b@ == split_on(s@, '-')[1]);
    match (parse_usize(a.as_str()), parse_usize(b.as_str())) {
        (Some(x), Some(y)) => Some((x, y)),
        _ => None,
    }
}

/// Drops the first `skip` chapters when `skip` is set.
pub fn skip<'a>(chapter_urls: Vec<&'a str>, args: Args) -> (r: Vec<&'a str>)
    requires
        args.skip matches Some(n) ==> n <= chapter_urls@.len(),
    ensures
        r@ == match args.skip {
            Some(n) => chapter_urls@.skip(n as int),
            None => chapter_urls@,
        },
{
    match args.skip {
        Some(n) => {
            let r = copy_range(&chapter_urls, n as usize, chapter_urls.len());
            assert(r@ =~= chapter_urls@.skip(n as int));
            r
        },
        None => chapter_urls,
    }
}

/// Keeps only chapter number `chapter` (counted from 0) when it is set.
pub fn chapter_handler<'a>(chapter_urls: Vec<&'a str>, args: Args) -> (r: Vec<&'a str>)
    requires
        args.chapter matches Some(n) ==> n < chapter_urls@.len(),
    ensures
        r@ == match args.chapter {
            Some(n) => seq![chapter_urls@[n as int]],
            None => chapter_urls@,
        },
{
    match args.chapter {
        Some(n) => {
            let r = vec![chapter_urls[n as usize]];
            assert(r@ =~= seq![chapter_urls@[n as int]]);
            r
        },
        None => chapter_urls,
    }
}

/// Keeps the chapters from `start` up to, not including, `end` when the
/// range option `"start-end"` is set.
pub fn range<'a>(chapter_urls: Vec<&'a str>, args: Args) -> (r: Vec<&'a str>)
    requires
        args.range matches Some(s) ==> (range_bounds(s@) matches Some((a, b)) && a <= b
            <= chapter_urls@.len()),
    ensures
        r@ == match args.range {
            Some(s) => match range_bounds(s@) {
                Some((a, b)) => chapter_urls@.subrange(a as int, b as int),
                None => chapter_urls@,
            },
            None => chapter_urls@,
        },
{
    match &args.range {
        Some(s) => {
            match parse_range(s.as_str()) {
                Some((a, b)) => copy_range(&chapter_urls, a, b),
                None => chapter_urls,
            }
        },
        None => chapter_urls,
    }
}

/// Keeps only the chapter named `name` when it is set: the first URL whose
/// last `/`-part, trimmed, equals the name trimmed, or nothing when none does.
pub fn name<'a>(chapter_urls: Vec<&'a str>, args: Args) -> (r: Vec<&'a str>)
    ensures
        r@ == match args.name {
            Some(n) => pick_named(chapter_urls@, n@),
            None => chapter_urls@,
        },
{
    match &args.name {
        Some(n) => super::downloaders::name(chapter_urls, n.clone()),
        None => chapter_urls,
    }
}

} // verus!

verus! {

/// The chapters left after `skip`.
pub open spec fn after_skip<A>(urls: Seq<A>, args: Args) -> Seq<A> {
    match args.skip {
        Some(n) => urls.skip(n as int),
        None => urls,
    }
}

/// The chapters left after `chapter`.
pub open spec fn after_chapter<A>(urls: Seq<A>, args: Args) -> Seq<A> {
    match args.chapter {
        Some(n) => seq![urls[n as int]],
        None => urls,
    }
}

/// The chapters left after `range`.
pub open spec fn after_range<A>(urls: Seq<A>, args: Args) -> Seq<A> {
    match args.range {
        Some(s) => match range_bounds(s@) {
            Some((a, b)) => urls.subrange(a as int, b as int),
            None => urls,
        },
        None => urls,
    }
}

/// The chapters left after `name`.
pub open spec fn after_name<'a>(urls: Seq<&'a str>, args: Args) -> Seq<&'a str> {
    match args.name {
        Some(n) => pick_named(urls, n@),
        None => urls,
    }
}

/// The chapter texts left after `name`.
pub open spec fn after_name_text(texts: Seq<Seq<char>>, args: Args) -> Seq<Seq<char>> {
    match args.name {
        Some(n) => pick_named_text(texts, n@),
        None => texts,
    }
}

/// The chapter texts that the options select.
pub open spec fn selected_text(ts: Seq<Seq<char>>, args: Args) -> Seq<Seq<char>> {
    after_name_text(after_range(after_chapter(after_skip(ts, args), args), args), args)
}

/// Selecting commutes with taking the texts of the URLs.
pub proof fn lemma_selected_texts<'a>(urls: Seq<&'a str>, args: Args)
    requires
        selection_fits(urls.len(), args),
    ensures
        texts(selected(urls, args)) == selected_text(texts(urls), args),
{
    let u1 = after_skip(urls, args);
    assert(texts(u1) =~= after_skip(texts(urls), args));
    let u2 = after_chapter(u1, args);
    assert(texts(u2) =~= after_chapter(texts(u1), args));
    let u3 = after_range(u2, args);
    assert(texts(u3) =~= after_range(texts(u2), args));
    match args.name {
        Some(n) => {
            super::downloaders::lemma_pick_named_texts(u3, n@);
        },
        None => {},
    }
}

/// The chapters that the options select, the handlers applied in turn:
/// skip, chapter, range, name.
pub open spec fn selected<'a>(urls: Seq<&'a str>, args: Args) -> Seq<&'a str> {
    after_name(after_range(after_chapter(after_skip(urls, args), args), args), args)
}

/// Whether the options can be applied to `len` chapters without indexing
/// out of bounds: the skip is at most `len`, the chapter lies within what is
/// left, and the range reads as two bounds within what is left then.
pub open spec fn selection_fits(len: nat, args: Args) -> bool {
    let l1: nat = match args.skip {
        Some(n) => (len - n) as nat,
        None => len,
    };
    let l2: nat = match args.chapter {
        Some(_) => 1,
        None => l1,
    };
    &&& (args.skip matches Some(n) ==> n <= len)
    &&& (args.chapter matches Some(c) ==> c < l1)
    &&& (args.range matches Some(s) ==> (range_bounds(s@) matches Some((a, b)) && a <= b <= l2))
}

/// Whether the options can be applied to `len` chapters.
pub fn selection_check(len: usize, args: &Args) -> (r: bool)
    ensures
        r == selection_fits(len as nat, *args),
{
    let l1: usize = match args.skip {
        Some(n) => {
            if n as usize > len {
                return false;
            }
            len - n as usize
        },
        None => len,
    };
    let l2: usize = match args.chapter {
        Some(c) => {
            if c as usize >= l1 {
                return false;
            }
            1
        },
        None => l1,
    };
    match &args.range {
        Some(s) => match parse_range(s.as_str()) {
            Some((a, b)) => a <= b && b <= l2,
            None => false,
        },
        None => true,
    }
}

/// Applies the handlers in turn: skip, chapter, range, name.
pub fn select_chapters<'a>(urls: Vec<&'a str>, args: &Args) -> (r: Vec<&'a str>)
    requires
        selection_fits(urls@.len(), *args),
    ensures
        r@ == selected(urls@, *args),
{
    let u1 = skip(urls, args.duplicate());
    let u2 = chapter_handler(u1, args.duplicate());
    let u3 = range(u2, args.duplicate());
    name(u3, args.duplicate())
}

/// The chapters that the options select form one run of consecutive
/// chapters of the page, in page order: the handlers only ever cut chapters
/// away from the ends of the list, never reorder it or add to it.
pub proof fn lemma_selection_is_a_run<'a>(urls: Seq<&'a str>, args: Args)
    requires
        selection_fits(urls.len(), args),
    ensures
        exists|a: int, b: int|
            0 <= a <= b <= urls.len() && #[trigger] selected(urls, args) == urls.subrange(a, b),
{
    let s1 = match args.skip {
        Some(n) => n as int,
        None => 0,
    };
    let u1 = after_skip(urls, args);
    assert(u1 =~= urls.subrange(s1, urls.len() as int));
    let (a2, b2): (int, int) = match args.chapter {
        Some(c) => (s1 + c, s1 + c + 1),
        None => (s1, urls.len() as int),
    };
    let u2 = after_chapter(u1, args);
    assert(u2 =~= urls.subrange(a2, b2));
    let (a3, b3): (int, int) = match args.range {
        Some(s) => match range_bounds(s@) {
            Some((x, y)) => (a2 + x, a2 + y),
            None => (a2, b2),
        },
        None => (a2, b2),
    };
    let u3 = after_range(u2, args);
    assert(u3 =~= urls.subrange(a3, b3));
    match args.name {
        Some(n) => {
            if exists|i: int| is_first_named_text(texts(u3), n@, i) {
                let i = choose|i: int| is_first_named_text(texts(u3), n@, i);
                assert(selected(urls, args) =~= urls.subrange(a3 + i, a3 + i + 1));
            } else {
                assert(selected(urls, args) =~= urls.subrange(a3, a3));
            }
        },
        None => {
            assert(selected(urls, args) == urls.subrange(a3, b3));
        },
    }
}

/// Without options, every chapter is selected.
pub proof fn lemma_no_options_selects_all<'a>(urls: Seq<&'a str>, args: Args)
    requires
        args.skip is None,
        args.chapter is None,
        args.range is None,
        args.name is None,
    ensures
        selected(urls, args) == urls,
{
}

} // verus!
