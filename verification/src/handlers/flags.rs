use vstd::prelude::*;

use crate::cli::{
    FlagError, check_values_usize, collect_flag_values, find_last_value, flag_values, last_number,
    last_value, values_parse, words,
};
use crate::downloaders::handlers::copy_range;
use crate::text::{chars_eq, chars_of, last_segment, last_segment_chars, parse_usize, texts};

verus! {

/// The values given to `-c`/`--chapter`.
pub open spec fn chapter_values(args: Seq<String>) -> Seq<Seq<Seq<char>>> {
    flag_values(words(args), "-c"@, "--chapter"@, 1)
}

/// The chapter number that the command line selects.
pub open spec fn chapter_choice(args: Seq<String>) -> Option<nat> {
    last_number(chapter_values(args), 0, usize::MAX as nat)
}

/// Whether `-c`/`--chapter` can be applied to `len` chapters: every value it
/// was given is a number, and the last one is the position of a chapter.
pub open spec fn chapter_flag_ok(args: Seq<String>, len: nat) -> bool {
    &&& values_parse(chapter_values(args), 0, usize::MAX as nat)
    &&& (chapter_choice(args) matches Some(n) ==> n < len)
}

/// Reads `-c`/`--chapter`: the last value given, or an error when any value
/// given is not a number.
pub fn chapter_number(args: &Vec<String>) -> (r: Result<Option<usize>, FlagError>)
    ensures
        r matches Err(_) <==> !values_parse(chapter_values(args@), 0, usize::MAX as nat),
        r matches Ok(c) ==> match chapter_choice(args@) {
            Some(n) => c == Some(n as usize),
            None => c is None,
        },
{
    let occ = collect_flag_values(args, "-c", "--chapter", 1);
    if !check_values_usize(&occ, 0) {
        return Err(FlagError::NotANumber);
    }
    match find_last_value(&occ, 0) {
        Some(v) => Ok(parse_usize(v.as_str())),
        None => Ok(None),
    }
}

/// Keeps only the chapter that `-c`/`--chapter` selects, when given.
pub fn chapter<'a>(urls: Vec<&'a str>, args: &Vec<String>) -> (r: Vec<&'a str>)
    requires
        chapter_flag_ok(args@, urls@.len()),
    ensures
        r@ == match chapter_choice(args@) {
            Some(n) => seq![urls@[n as int]],
            None => urls@,
        },
{
    match chapter_number(args) {
        Ok(Some(n)) => {
            let r = vec![urls[n]];
            assert(r@ =~= seq![urls@[n as int]]);
            r
        },
        _ => urls,
    }
}

/// The values given to `-r`/`--range`, two per occurrence.
pub open spec fn range_values(args: Seq<String>) -> Seq<Seq<Seq<char>>> {
    flag_values(words(args), "-r"@, "--range"@, 2)
}

/// The first and last bounds that `-r`/`--range` sets.
pub open spec fn range_choice(args: Seq<String>) -> (Option<nat>, Option<nat>) {
    (
        last_number(range_values(args), 0, usize::MAX as nat),
        last_number(range_values(args), 1, usize::MAX as nat),
    )
}

/// Whether `-r`/`--range` can be applied to `len` chapters: every value it
/// was given is a number, and the bounds lie within the chapters.
pub open spec fn range_flag_ok(args: Seq<String>, len: nat) -> bool {
    &&& values_parse(range_values(args), 0, usize::MAX as nat)
    &&& values_parse(range_values(args), 1, usize::MAX as nat)
    &&& match range_choice(args) {
        (Some(a), Some(b)) => a <= b <= len,
        (Some(a), None) => a <= len,
        _ => true,
    }
}

/// Reads `-r`/`--range`: the bounds it sets, or an error when any value
/// given is not a number.
pub fn range_numbers(args: &Vec<String>) -> (r: Result<(Option<usize>, Option<usize>), FlagError>)
    ensures
        r matches Err(_) <==> !(values_parse(range_values(args@), 0, usize::MAX as nat)
            && values_parse(range_values(args@), 1, usize::MAX as nat)),
        r matches Ok((s, e)) ==> (match range_choice(args@).0 {
            Some(n) => s == Some(n as usize),
            None => s is None,
        }) && (match range_choice(args@).1 {
            Some(n) => e == Some(n as usize),
            None => e is None,
        }),
{
    let occ = collect_flag_values(args, "-r", "--range", 2);
    if !check_values_usize(&occ, 0) || !check_values_usize(&occ, 1) {
        return Err(FlagError::NotANumber);
    }
    let s = match find_last_value(&occ, 0) {
        Some(v) => parse_usize(v.as_str()),
        None => None,
    };
    let e = match find_last_value(&occ, 1) {
        Some(v) => parse_usize(v.as_str()),
        None => None,
    };
    Ok((s, e))
}

/// Keeps the chapters that `-r`/`--range` selects, when given: from the
/// first bound up to, not including, the second, or to the end when only
/// one bound was given.
pub fn range<'a>(urls: Vec<&'a str>, args: &Vec<String>) -> (r: Vec<&'a str>)
    requires
        range_flag_ok(args@, urls@.len()),
    ensures
        r@ == match range_choice(args@) {
            (Some(a), Some(b)) => urls@.subrange(a as int, b as int),
            (Some(a), None) => urls@.skip(a as int),
            _ => urls@,
        },
{
    match range_numbers(args) {
        Ok((Some(a), Some(b))) => copy_range(&urls, a, b),
        Ok((Some(a), None)) => {
            let r = copy_range(&urls, a, urls.len());
            assert(r@ =~= urls@.skip(a as int));
            r
        },
        _ => urls,
    }
}

/// The values given to `-n`/`--name`.
pub open spec fn name_values(args: Seq<String>) -> Seq<Seq<Seq<char>>> {
    flag_values(words(args), "-n"@, "--name"@, 1)
}

/// `i` is the first position whose text shows the name `value`: its last
/// `/`-part, the name that the listing prints for it, equals `value`.
pub open spec fn is_first_with_name(ts: Seq<Seq<char>>, value: Seq<char>, i: int) -> bool {
    &&& 0 <= i < ts.len()
    &&& last_segment(ts[i], '/') == value
    &&& forall|j: int| 0 <= j < i ==> last_segment(#[trigger] ts[j], '/') != value
}

/// Whether `-n`/`--name` can be applied to chapters with these texts: when
/// given, some chapter shows the name as its last `/`-part.
pub open spec fn name_flag_ok(args: Seq<String>, ts: Seq<Seq<char>>) -> bool {
    match last_value(name_values(args), 0) {
        Some(v) => exists|i: int| 0 <= i < ts.len() && last_segment(#[trigger] ts[i], '/') == v,
        None => true,
    }
}

/// The position that `-n`/`--name` picks among chapters with these texts:
/// the first whose last `/`-part is the name.
pub open spec fn name_pick(args: Seq<String>, ts: Seq<Seq<char>>) -> int {
    choose|i: int| is_first_with_name(ts, last_value(name_values(args), 0)->0, i)
}

proof fn lemma_first_with_name_unique(ts: Seq<Seq<char>>, v: Seq<char>, i: int, k: int)
    requires
        is_first_with_name(ts, v, i),
        is_first_with_name(ts, v, k),
    ensures
        i == k,
{
    if i < k {
        assert(last_segment(ts[i], '/') != v);
    } else if k < i {
        assert(last_segment(ts[k], '/') != v);
    }
}

/// When some chapter shows the name, a first one does.
proof fn lemma_first_with_name_exists(ts: Seq<Seq<char>>, v: Seq<char>, i: int)
    requires
        0 <= i < ts.len(),
        last_segment(ts[i], '/') == v,
    ensures
        is_first_with_name(ts, v, choose|k: int| is_first_with_name(ts, v, k)),
    decreases i,
{
    if forall|j: int| 0 <= j < i ==> last_segment(#[trigger] ts[j], '/') != v {
        assert(is_first_with_name(ts, v, i));
    } else {
        let j = choose|j: int| 0 <= j < i && last_segment(#[trigger] ts[j], '/') == v;
        lemma_first_with_name_exists(ts, v, j);
    }
}

/// The position that `-n`/`--name` picks is the first chapter showing the name.
proof fn lemma_name_pick(args: Seq<String>, ts: Seq<Seq<char>>)
    requires
        name_flag_ok(args, ts),
        last_value(name_values(args), 0) is Some,
    ensures
        is_first_with_name(ts, last_value(name_values(args), 0)->0, name_pick(args, ts)),
{
    let v = last_value(name_values(args), 0)->0;
    let i = choose|i: int| 0 <= i < ts.len() && last_segment(#[trigger] ts[i], '/') == v;
    lemma_first_with_name_exists(ts, v, i);
}

/// The first position whose URL shows the name `value` as its last `/`-part.
pub fn find_with_name(urls: &Vec<&str>, value: &Vec<char>) -> (r: Option<usize>)
    ensures
        match r {
            Some(i) => is_first_with_name(texts(urls@), value@, i as int),
            None => forall|i: int|
                0 <= i < urls@.len() ==> last_segment(#[trigger] texts(urls@)[i], '/') != value@,
        },
{
    let ghost ts = texts(urls@);
    let mut i: usize = 0;
    while i < urls.len()
        invariant
            i <= urls@.len(),
            ts == texts(urls@),
            forall|j: int| 0 <= j < i ==> last_segment(#[trigger] ts[j], '/') != value@,
        decreases urls@.len() - i,
    {
        assert(ts[i as int] == urls@[i as int]@);
        let last = last_segment_chars(&chars_of(urls[i]), '/');
        if chars_eq(&last, value) {
            return Some(i);
        }
        i = i + 1;
    }
    None
}

/// Keeps only the chapter that `-n`/`--name` names, when given: the first
/// URL whose last `/`-part, the name that the listing shows, equals the name.
pub fn name<'a>(urls: Vec<&'a str>, args: &Vec<String>) -> (r: Vec<&'a str>)
    requires
        name_flag_ok(args@, texts(urls@)),
    ensures
        r@ == match last_value(name_values(args@), 0) {
            Some(v) => seq![urls@[name_pick(args@, texts(urls@))]],
            None => urls@,
        },
        last_value(name_values(args@), 0) matches Some(v) ==> is_first_with_name(
            texts(urls@),
            v,
            name_pick(args@, texts(urls@)),
        ),
{
    let occ = collect_flag_values(args, "-n", "--name", 1);
    let value = match find_last_value(&occ, 0) {
        Some(v) => chars_of(v.as_str()),
        None => {
            return urls;
        },
    };
    assert(occ.deep_view() == name_values(args@));
    proof {
        lemma_name_pick(args@, texts(urls@));
    }
    match find_with_name(&urls, &value) {
        Some(i) => {
            proof {
                let k = name_pick(args@, texts(urls@));
                lemma_first_with_name_unique(texts(urls@), value@, i as int, k);
            }
            let r = vec![urls[i]];
            assert(r@ =~= seq![urls@[i as int]]);
            r
        },
        None => {
            assert(false);
            urls
        },
    }
}

/// A name that some chapter shows makes `-n`/`--name` applicable.
proof fn lemma_name_flag_ok_by_witness(args: Seq<String>, ts: Seq<Seq<char>>, v: Seq<char>, k: int)
    requires
        last_value(name_values(args), 0) == Some(v),
        is_first_with_name(ts, v, k),
    ensures
        name_flag_ok(args, ts),
{
    assert(last_segment(ts[k], '/') == v);
    let lv = last_value(name_values(args), 0);
    assert(lv is Some);
    assert(lv->0 == v);
}

/// The chapters that `-c`, `-r` and `-n` select, applied in turn.
pub open spec fn flags_selected(ts: Seq<Seq<char>>, args: Seq<String>) -> Seq<Seq<char>> {
    let t1 = match chapter_choice(args) {
        Some(n) => seq![ts[n as int]],
        None => ts,
    };
    let t2 = match range_choice(args) {
        (Some(a), Some(b)) => t1.subrange(a as int, b as int),
        (Some(a), None) => t1.skip(a as int),
        _ => t1,
    };
    match last_value(name_values(args), 0) {
        Some(v) => seq![t2[name_pick(args, t2)]],
        None => t2,
    }
}

/// Whether `-c`, `-r` and `-n` can be applied in turn to chapters with these texts.
pub open spec fn flags_fit(ts: Seq<Seq<char>>, args: Seq<String>) -> bool {
    let t1 = match chapter_choice(args) {
        Some(n) => seq![ts[n as int]],
        None => ts,
    };
    let t2 = match range_choice(args) {
        (Some(a), Some(b)) => t1.subrange(a as int, b as int),
        (Some(a), None) => t1.skip(a as int),
        _ => t1,
    };
    &&& chapter_flag_ok(args, ts.len())
    &&& range_flag_ok(args, t1.len())
    &&& name_flag_ok(args, t2)
}

/// Applies `-c`, `-r` and `-n` in turn when they fit the chapters; `None`
/// when one of them does not (a value that is no number, a position outside
/// the chapters, or a name that no chapter has).
pub fn select_by_flags<'a>(urls: Vec<&'a str>, args: &Vec<String>) -> (r: Option<Vec<&'a str>>)
    ensures
        match r {
            Some(v) => flags_fit(texts(urls@), args@) && texts(v@) == flags_selected(texts(urls@), args@),
            None => !flags_fit(texts(urls@), args@),
        },
{
    let ghost ts = texts(urls@);
    match chapter_number(args) {
        Err(_) => {
            return None;
        },
        Ok(Some(n)) => {
            if n >= urls.len() {
                return None;
            }
        },
        Ok(None) => {},
    }
    let u1 = chapter(urls, args);
    assert(texts(u1@) =~= match chapter_choice(args@) {
        Some(n) => seq![ts[n as int]],
        None => ts,
    });
    match range_numbers(args) {
        Err(_) => {
            return None;
        },
        Ok((Some(a), Some(b))) => {
            if !(a <= b && b <= u1.len()) {
                return None;
            }
        },
        Ok((Some(a), None)) => {
            if a > u1.len() {
                return None;
            }
        },
        Ok(_) => {},
    }
    let ghost t1 = texts(u1@);
    let u2 = range(u1, args);
    assert(texts(u2@) =~= match range_choice(args@) {
        (Some(a), Some(b)) => t1.subrange(a as int, b as int),
        (Some(a), None) => t1.skip(a as int),
        _ => t1,
    });
    let occ = collect_flag_values(args, "-n", "--name", 1);
    assert(occ.deep_view() == name_values(args@));
    match find_last_value(&occ, 0) {
        Some(v) => {
            let value = chars_of(v.as_str());
            match find_with_name(&u2, &value) {
                None => {
                    return None;
                },
                Some(i) => {
                    assert(is_first_with_name(texts(u2@), value@, i as int));
                    assert(last_value(name_values(args@), 0) == Some(value@));
                    proof {
                        lemma_name_flag_ok_by_witness(args@, texts(u2@), value@, i as int);
                    }
                },
            }
        },
        None => {},
    }
    assert(name_flag_ok(args@, texts(u2@)));
    let ghost t2 = texts(u2@);
    let u3 = name(u2, args);
    assert(texts(u3@) =~= match last_value(name_values(args@), 0) {
        Some(v) => seq![t2[name_pick(args@, t2)]],
        None => t2,
    });
    Some(u3)
}

} // verus!

verus! {

/// The chapters that `-c`, `-r` and `-n` select form one run of consecutive
/// chapters of the page, in page order: each option only cuts chapters away.
pub proof fn lemma_flags_select_a_run(ts: Seq<Seq<char>>, args: Seq<String>)
    requires
        flags_fit(ts, args),
    ensures
        exists|a: int, b: int|
            0 <= a <= b <= ts.len() && #[trigger] flags_selected(ts, args) == ts.subrange(a, b),
{
    let (a1, b1): (int, int) = match chapter_choice(args) {
        Some(n) => (n as int, n as int + 1),
        None => (0, ts.len() as int),
    };
    let t1 = match chapter_choice(args) {
        Some(n) => seq![ts[n as int]],
        None => ts,
    };
    assert(t1 =~= ts.subrange(a1, b1));
    let (a2, b2): (int, int) = match range_choice(args) {
        (Some(a), Some(b)) => (a1 + a, a1 + b),
        (Some(a), None) => (a1 + a, b1),
        _ => (a1, b1),
    };
    let t2 = match range_choice(args) {
        (Some(a), Some(b)) => t1.subrange(a as int, b as int),
        (Some(a), None) => t1.skip(a as int),
        _ => t1,
    };
    assert(t2 =~= ts.subrange(a2, b2));
    match last_value(name_values(args), 0) {
        Some(v) => {
            let p = name_pick(args, t2);
            lemma_name_pick(args, t2);
            assert(is_first_with_name(t2, v, p));
            assert(flags_selected(ts, args) =~= ts.subrange(a2 + p, a2 + p + 1));
        },
        None => {
            assert(flags_selected(ts, args) =~= ts.subrange(a2, b2));
        },
    }
}

/// Without `-c`, `-r` or `-n`, every chapter is selected.
pub proof fn lemma_no_flags_selects_all(ts: Seq<Seq<char>>, args: Seq<String>)
    requires
        chapter_values(args).len() == 0,
        range_values(args).len() == 0,
        name_values(args).len() == 0,
    ensures
        flags_fit(ts, args),
        flags_selected(ts, args) == ts,
{
}

} // verus!

verus! {

/// A name that the chapter listing shows picks that chapter: the listing
/// prints the last `/`-part of chapter `k` as its name, and when no chapter
/// before it shows the same name, `-n` with that name keeps chapter `k`.
pub proof fn lemma_shown_name_picks_chapter(
    r: Seq<crate::listing::ListEntry>,
    urls: Seq<&str>,
    ms: Seq<usize>,
    extra: nat,
    width: nat,
    args: Seq<String>,
    k: int,
)
    requires
        crate::listing::listing_matches(r, urls, ms, extra, width),
        0 <= k < urls.len(),
        last_value(name_values(args), 0) == Some(last_segment(urls[k]@, '/')),
        forall|j: int|
            0 <= j < k ==> last_segment(#[trigger] urls[j]@, '/') != last_segment(urls[k]@, '/'),
    ensures
        r[k].name@ == crate::text::pad_right(
            last_segment(urls[k]@, '/'),
            crate::listing::column_width(ms),
        ),
        name_flag_ok(args, texts(urls)),
        name_pick(args, texts(urls)) == k,
{
    let ts = texts(urls);
    let v = last_segment(urls[k]@, '/');
    assert forall|j: int| 0 <= j < k implies last_segment(#[trigger] ts[j], '/') != v by {
        assert(ts[j] == urls[j]@);
    }
    assert(ts[k] == urls[k]@);
    assert(is_first_with_name(ts, v, k));
    lemma_name_flag_ok_by_witness(args, ts, v, k);
    lemma_name_pick(args, ts);
    lemma_first_with_name_unique(ts, v, name_pick(args, ts), k);
}

} // verus!

verus! {

/// `-n v` or `--name v`, given as the only chapter flag of a command line,
/// applies exactly when some chapter shows the name `v` (its last `/`-part),
/// and then selects the first chapter showing it.
pub proof fn lemma_long_name_flag_selects(ts: Seq<Seq<char>>, args: Seq<String>, i: int)
    requires
        0 <= i,
        i + 1 < args.len(),
        args[i]@ == "-n"@ || args[i]@ == "--name"@,
        forall|j: int|
            0 <= j < args.len() && j != i ==> !crate::cli::is_flag(#[trigger] args[j]@, "-n"@, "--name"@)
                && !crate::cli::is_flag(args[j]@, "-c"@, "--chapter"@) && !crate::cli::is_flag(
                args[j]@,
                "-r"@,
                "--range"@,
            ),
    ensures
        flags_fit(ts, args) <==> exists|k: int| 0 <= k < ts.len() && last_segment(#[trigger] ts[k], '/') == args[i + 1]@,
        flags_fit(ts, args) ==> exists|k: int|
            0 <= k < ts.len() && last_segment(ts[k], '/') == args[i + 1]@ && (forall|j: int|
                0 <= j < k ==> last_segment(#[trigger] ts[j], '/') != args[i + 1]@) && #[trigger] flags_selected(ts, args)
                == seq![ts[k]],
{
    reveal_strlit("--name");
    reveal_strlit("-n");
    reveal_strlit("-c");
    reveal_strlit("--chapter");
    reveal_strlit("-r");
    reveal_strlit("--range");
    let w = words(args);
    assert forall|j: int| 0 <= j < w.len() implies w[j] == args[j]@ by {}
    assert forall|j: int| 0 <= j < w.len() implies !crate::cli::is_flag(#[trigger] w[j], "-c"@, "--chapter"@) by {
        if j == i {
            assert(w[j][1] != "-c"@[1]);
            assert(w[j].len() != "--chapter"@.len());
        }
    }
    assert forall|j: int| 0 <= j < w.len() implies !crate::cli::is_flag(#[trigger] w[j], "-r"@, "--range"@) by {
        if j == i {
            assert(w[j][1] != "-r"@[1]);
            assert(w[j].len() != "--range"@.len());
        }
    }
    crate::cli::lemma_absent_flag_no_values(w, "-c"@, "--chapter"@, 1);
    crate::cli::lemma_absent_flag_no_values(w, "-r"@, "--range"@, 2);
    assert(crate::cli::is_flag(w[i], "-n"@, "--name"@));
    crate::cli::lemma_single_flag_value(w, "-n"@, "--name"@, i);
    let v = args[i + 1]@;
    assert(name_values(args) == seq![seq![v]]);
    assert(last_value(name_values(args), 0) == Some(v));
    assert(chapter_choice(args) is None);
    assert(range_choice(args) == (None::<nat>, None::<nat>));
    if flags_fit(ts, args) {
        lemma_name_pick(args, ts);
        let k = name_pick(args, ts);
        assert(flags_selected(ts, args) == seq![ts[k]]);
    }
}

} // verus!

verus! {

/// `-c n` or `--chapter n`, given as the only chapter flag of a command line
/// with `n` written in decimal, applies exactly when there is a chapter at
/// position `n`, and then selects that chapter alone.
pub proof fn lemma_chapter_flag_selects(ts: Seq<Seq<char>>, args: Seq<String>, i: int, n: nat)
    requires
        0 <= i,
        i + 1 < args.len(),
        args[i]@ == "-c"@ || args[i]@ == "--chapter"@,
        args[i + 1]@ == crate::text::decimal(n),
        n <= usize::MAX,
        forall|j: int|
            0 <= j < args.len() && j != i ==> !crate::cli::is_flag(#[trigger] args[j]@, "-c"@, "--chapter"@)
                && !crate::cli::is_flag(args[j]@, "-r"@, "--range"@) && !crate::cli::is_flag(
                args[j]@,
                "-n"@,
                "--name"@,
            ),
    ensures
        flags_fit(ts, args) <==> n < ts.len(),
        flags_fit(ts, args) ==> flags_selected(ts, args) == seq![ts[n as int]],
{
    reveal_strlit("--name");
    reveal_strlit("-n");
    reveal_strlit("-c");
    reveal_strlit("--chapter");
    reveal_strlit("-r");
    reveal_strlit("--range");
    let w = words(args);
    assert forall|j: int| 0 <= j < w.len() implies w[j] == args[j]@ by {}
    assert forall|j: int| 0 <= j < w.len() implies !crate::cli::is_flag(#[trigger] w[j], "-n"@, "--name"@) by {
        if j == i {
            assert(w[j][1] != "-n"@[1]);
            assert(w[j].len() != "--name"@.len());
        }
    }
    assert forall|j: int| 0 <= j < w.len() implies !crate::cli::is_flag(#[trigger] w[j], "-r"@, "--range"@) by {
        if j == i {
            assert(w[j][1] != "-r"@[1]);
            assert(w[j].len() != "--range"@.len());
        }
    }
    crate::cli::lemma_absent_flag_no_values(w, "-n"@, "--name"@, 1);
    crate::cli::lemma_absent_flag_no_values(w, "-r"@, "--range"@, 2);
    assert(crate::cli::is_flag(w[i], "-c"@, "--chapter"@));
    crate::cli::lemma_single_flag_value(w, "-c"@, "--chapter"@, i);
    assert(chapter_values(args) == seq![seq![w[i + 1]]]);
    assert(last_value(chapter_values(args), 0) == Some(crate::text::decimal(n)));
    crate::text::lemma_parse_reads_back_decimal(n, usize::MAX as nat);
    assert(chapter_choice(args) == Some(n));
    assert(values_parse(chapter_values(args), 0, usize::MAX as nat)) by {
        assert(chapter_values(args)[0][0] == crate::text::decimal(n));
    }
    assert(range_choice(args) == (None::<nat>, None::<nat>));
    assert(last_value(name_values(args), 0) is None);
}

/// `-r a b` or `--range a b`, given as the only chapter flag of a command
/// line with `a` and `b` written in decimal, applies exactly when
/// `a <= b <= ` the number of chapters, and then selects the chapters from
/// position `a` up to, not including, `b`.
pub proof fn lemma_range_flag_selects(ts: Seq<Seq<char>>, args: Seq<String>, i: int, a: nat, b: nat)
    requires
        0 <= i,
        i + 2 < args.len(),
        args[i]@ == "-r"@ || args[i]@ == "--range"@,
        args[i + 1]@ == crate::text::decimal(a),
        args[i + 2]@ == crate::text::decimal(b),
        a <= usize::MAX,
        b <= usize::MAX,
        forall|j: int|
            0 <= j < args.len() && j != i ==> !crate::cli::is_flag(#[trigger] args[j]@, "-c"@, "--chapter"@)
                && !crate::cli::is_flag(args[j]@, "-r"@, "--range"@) && !crate::cli::is_flag(
                args[j]@,
                "-n"@,
                "--name"@,
            ),
    ensures
        flags_fit(ts, args) <==> a <= b <= ts.len(),
        flags_fit(ts, args) ==> flags_selected(ts, args) == ts.subrange(a as int, b as int),
{
    reveal_strlit("--name");
    reveal_strlit("-n");
    reveal_strlit("-c");
    reveal_strlit("--chapter");
    reveal_strlit("-r");
    reveal_strlit("--range");
    let w = words(args);
    assert forall|j: int| 0 <= j < w.len() implies w[j] == args[j]@ by {}
    assert forall|j: int| 0 <= j < w.len() implies !crate::cli::is_flag(#[trigger] w[j], "-n"@, "--name"@) by {
        if j == i {
            assert(w[j][1] != "-n"@[1]);
            assert(w[j].len() != "--name"@.len());
        }
    }
    assert forall|j: int| 0 <= j < w.len() implies !crate::cli::is_flag(#[trigger] w[j], "-c"@, "--chapter"@) by {
        if j == i {
            assert(w[j][1] != "-c"@[1]);
            assert(w[j].len() != "--chapter"@.len());
        }
    }
    crate::cli::lemma_absent_flag_no_values(w, "-n"@, "--name"@, 1);
    crate::cli::lemma_absent_flag_no_values(w, "-c"@, "--chapter"@, 1);
    assert(crate::cli::is_flag(w[i], "-r"@, "--range"@));
    crate::cli::lemma_single_flag_values(w, "-r"@, "--range"@, 2, i);
    let vals = w.subrange(i + 1, i + 3);
    assert(range_values(args) == seq![vals]);
    assert(vals[0] == crate::text::decimal(a));
    assert(vals[1] == crate::text::decimal(b));
    crate::text::lemma_parse_reads_back_decimal(a, usize::MAX as nat);
    crate::text::lemma_parse_reads_back_decimal(b, usize::MAX as nat);
    assert(last_value(range_values(args), 0) == Some(crate::text::decimal(a)));
    assert(last_value(range_values(args), 1) == Some(crate::text::decimal(b)));
    assert(range_choice(args) == (Some(a), Some(b)));
    assert(values_parse(range_values(args), 0, usize::MAX as nat)) by {
        assert(range_values(args)[0][0] == crate::text::decimal(a));
    }
    assert(values_parse(range_values(args), 1, usize::MAX as nat)) by {
        assert(range_values(args)[0][1] == crate::text::decimal(b));
    }
    assert(chapter_choice(args) is None);
    assert(last_value(name_values(args), 0) is None);
}

} // verus!
