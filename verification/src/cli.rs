use vstd::prelude::*;

use crate::text::{chars_eq, chars_of, parse_unsigned, parse_usize, parse_u32};

verus! {

/// Whether two strings hold the same characters.
pub fn str_eq(a: &str, b: &str) -> (r: bool)
    ensures
        r == (a@ == b@),
{
    let va = chars_of(a);
    let vb = chars_of(b);
    chars_eq(&va, &vb)
}

/// Whether a command-line word is the flag in its short or long form.
pub open spec fn is_flag(arg: Seq<char>, short: Seq<char>, long: Seq<char>) -> bool {
    arg == short || arg == long
}

/// Whether the word `arg` is the flag `short` or `long`.
pub fn is_flag_arg(arg: &str, short: &str, long: &str) -> (r: bool)
    ensures
        r == is_flag(arg@, short@, long@),
{
    str_eq(arg, short) || str_eq(arg, long)
}

/// Whether the flag occurs among the words.
pub fn has_flag(args: &Vec<String>, short: &str, long: &str) -> (r: bool)
    ensures
        r == exists|i: int| 0 <= i < args@.len() && is_flag(#[trigger] args@[i]@, short@, long@),
{
    let mut i: usize = 0;
    while i < args.len()
        invariant
            i <= args@.len(),
            forall|j: int| 0 <= j < i ==> !is_flag(#[trigger] args@[j]@, short@, long@),
        decreases args@.len() - i,
    {
        if is_flag_arg(args[i].as_str(), short, long) {
            return true;
        }
        i = i + 1;
    }
    false
}

/// The position of the first occurrence of the flag among the words.
pub fn first_flag(args: &Vec<String>, short: &str, long: &str) -> (r: Option<usize>)
    ensures
        match r {
            Some(i) => i < args@.len() && is_flag(args@[i as int]@, short@, long@) && forall|j: int|
                0 <= j < i ==> !is_flag(#[trigger] args@[j]@, short@, long@),
            None => forall|j: int|
                0 <= j < args@.len() ==> !is_flag(#[trigger] args@[j]@, short@, long@),
        },
{
    let mut i: usize = 0;
    while i < args.len()
        invariant
            i <= args@.len(),
            forall|j: int| 0 <= j < i ==> !is_flag(#[trigger] args@[j]@, short@, long@),
        decreases args@.len() - i,
    {
        if is_flag_arg(args[i].as_str(), short, long) {
            return Some(i);
        }
        i = i + 1;
    }
    None
}

/// The values that each occurrence of a flag takes, as a reader that walks the
/// words once takes them: after the flag, the next `arity` words (fewer at the
/// end of the words) are its values and are not read as flags themselves.
pub open spec fn flag_values(args: Seq<Seq<char>>, short: Seq<char>, long: Seq<char>, arity: nat) -> Seq<Seq<Seq<char>>>
    decreases args.len(),
{
    if args.len() == 0 {
        Seq::empty()
    } else if is_flag(args[0], short, long) {
        let k: int = if arity <= args.len() - 1 {
            arity as int
        } else {
            args.len() - 1
        };
        seq![args.subrange(1, 1 + k)] + flag_values(args.skip(1 + k), short, long, arity)
    } else {
        flag_values(args.skip(1), short, long, arity)
    }
}

/// The `k`-th value of the last occurrence that has one.
pub open spec fn last_value(occ: Seq<Seq<Seq<char>>>, k: int) -> Option<Seq<char>>
    decreases occ.len(),
{
    if occ.len() == 0 {
        None
    } else if occ.last().len() > k {
        Some(occ.last()[k])
    } else {
        last_value(occ.drop_last(), k)
    }
}

/// Whether every `k`-th value of every occurrence reads as a number no larger than `max`.
pub open spec fn values_parse(occ: Seq<Seq<Seq<char>>>, k: int, max: nat) -> bool {
    forall|i: int|
        0 <= i < occ.len() && #[trigger] occ[i].len() > k ==> parse_unsigned(occ[i][k], max) is Some
}

/// The number that the last `k`-th value of a flag gives.
pub open spec fn last_number(occ: Seq<Seq<Seq<char>>>, k: int, max: nat) -> Option<nat> {
    match last_value(occ, k) {
        Some(v) => parse_unsigned(v, max),
        None => None,
    }
}

/// The words of a command line as character sequences.
pub open spec fn words(args: Seq<String>) -> Seq<Seq<char>> {
    args.map_values(|a: String| a@)
}

/// Collects the values of every occurrence of a flag.
pub fn collect_flag_values(args: &Vec<String>, short: &str, long: &str, arity: usize) -> (r: Vec<
    Vec<String>,
>)
    ensures
        r.deep_view() == flag_values(words(args@), short@, long@, arity as nat),
{
    let ghost w = words(args@);
    let mut r: Vec<Vec<String>> = Vec::new();
    let mut i: usize = 0;
    let n = args.len();
    assert(w.skip(0) =~= w);
    while i < n
        invariant
            i <= n,
            n == args@.len(),
            w == words(args@),
            w.len() == n,
            flag_values(w, short@, long@, arity as nat) == r.deep_view() + flag_values(
                w.skip(i as int),
                short@,
                long@,
                arity as nat,
            ),
        decreases n - i,
    {
        let ghost rest = w.skip(i as int);
        if is_flag_arg(args[i].as_str(), short, long) {
            let k: usize = if arity <= n - 1 - i {
                arity
            } else {
                n - 1 - i
            };
            let mut vals: Vec<String> = Vec::new();
            let mut j: usize = 0;
            while j < k
                invariant
                    j <= k,
                    i + 1 + k <= n,
                    n == args@.len(),
                    w == words(args@),
                    vals.deep_view() == w.subrange(i + 1, i + 1 + j),
                decreases k - j,
            {
                let a = args[i + 1 + j].clone();
                assert(w[i + 1 + j] == args@[i + 1 + j]@);
                let ghost before = vals.deep_view();
                vals.push(a);
                assert(vals.deep_view() =~= before.push(a@));
                assert(vals.deep_view() =~= w.subrange(i + 1, i + 1 + j + 1));
                j = j + 1;
            }
            let ghost before = r.deep_view();
            r.push(vals);
            assert(rest.subrange(1, 1 + k as int) =~= w.subrange(i + 1, i + 1 + k));
            assert(rest.skip(1 + k as int) =~= w.skip(i + 1 + k));
            assert(r.deep_view() =~= before + seq![w.subrange(i + 1, i + 1 + k)]);
            i = i + 1 + k;
        } else {
            assert(rest.skip(1) =~= w.skip(i + 1));
            i = i + 1;
        }
    }
    assert(w.skip(n as int) =~= Seq::<Seq<char>>::empty());
    assert(r.deep_view() + Seq::<Seq<Seq<char>>>::empty() =~= r.deep_view());
    r
}

/// The `k`-th value of the last occurrence that has one.
pub fn find_last_value(occ: &Vec<Vec<String>>, k: usize) -> (r: Option<&String>)
    ensures
        match r {
            Some(s) => last_value(occ.deep_view(), k as int) == Some(s@),
            None => last_value(occ.deep_view(), k as int) is None,
        },
{
    let mut i: usize = occ.len();
    assert(occ.deep_view().take(i as int) =~= occ.deep_view());
    while i > 0
        invariant
            i <= occ@.len(),
            last_value(occ.deep_view(), k as int) == last_value(
                occ.deep_view().take(i as int),
                k as int,
            ),
        decreases i,
    {
        let ghost t = occ.deep_view().take(i as int);
        assert(t.last() == occ.deep_view()[i - 1]);
        if occ[i - 1].len() > k {
            return Some(&occ[i - 1][k]);
        }
        assert(t.drop_last() =~= occ.deep_view().take(i - 1));
        i = i - 1;
    }
    None
}

/// Reads every `k`-th value of every occurrence as a `usize`; `None` when one
/// of them is no such number.
pub fn check_values_usize(occ: &Vec<Vec<String>>, k: usize) -> (r: bool)
    ensures
        r == values_parse(occ.deep_view(), k as int, usize::MAX as nat),
{
    let mut i: usize = 0;
    while i < occ.len()
        invariant
            i <= occ@.len(),
            forall|j: int|
                0 <= j < i && #[trigger] occ.deep_view()[j].len() > k ==> parse_unsigned(
                    occ.deep_view()[j][k as int],
                    usize::MAX as nat,
                ) is Some,
        decreases occ@.len() - i,
    {
        assert(occ.deep_view()[i as int] == occ@[i as int].deep_view());
        if occ[i].len() > k {
            if parse_usize(occ[i][k].as_str()).is_none() {
                assert(occ.deep_view()[i as int][k as int] == occ@[i as int]@[k as int]@);
                return false;
            }
        }
        i = i + 1;
    }
    true
}

} // verus!

verus! {

/// A command-line value that should have been a number is not one.
#[derive(Debug, PartialEq, Eq, Structural)]
pub enum FlagError {
    NotANumber,
}

/// Reads every `k`-th value of every occurrence as a `u32`.
fn check_values_u32(occ: &Vec<Vec<String>>) -> (r: bool)
    ensures
        r == values_parse(occ.deep_view(), 0, u32::MAX as nat),
{
    let mut i: usize = 0;
    while i < occ.len()
        invariant
            i <= occ@.len(),
            forall|j: int|
                0 <= j < i && #[trigger] occ.deep_view()[j].len() > 0 ==> parse_unsigned(
                    occ.deep_view()[j][0],
                    u32::MAX as nat,
                ) is Some,
        decreases occ@.len() - i,
    {
        assert(occ.deep_view()[i as int] == occ@[i as int].deep_view());
        if occ[i].len() > 0 {
            if parse_u32(occ[i][0].as_str()).is_none() {
                assert(occ.deep_view()[i as int][0] == occ@[i as int]@[0]@);
                return false;
            }
        }
        i = i + 1;
    }
    true
}

/// The skip count that a flag sets: the last value given to it, 0 when none
/// is; an error when any value given is not a `u32`.
pub open spec fn skip_setting(args: Seq<String>, short: Seq<char>, long: Seq<char>) -> Result<u32, FlagError> {
    let occ = flag_values(words(args), short, long, 1);
    if !values_parse(occ, 0, u32::MAX as nat) {
        Err(FlagError::NotANumber)
    } else {
        match last_number(occ, 0, u32::MAX as nat) {
            Some(n) => Ok(n as u32),
            None => Ok(0),
        }
    }
}

/// Reads the skip count of the command line from the flag `short`/`long`.
pub fn skip_from_args(args: &Vec<String>, short: &str, long: &str) -> (r: Result<u32, FlagError>)
    ensures
        r == skip_setting(args@, short@, long@),
{
    let occ = collect_flag_values(args, short, long, 1);
    if !check_values_u32(&occ) {
        return Err(FlagError::NotANumber);
    }
    match find_last_value(&occ, 0) {
        Some(v) => match parse_u32(v.as_str()) {
            Some(n) => Ok(n),
            None => Ok(0),
        },
        None => Ok(0),
    }
}

/// Whether any of four words occurs on the command line.
pub fn has_any(args: &Vec<String>, a: &str, b: &str, c: &str, d: &str) -> (r: bool)
    ensures
        r == exists|i: int|
            0 <= i < args@.len() && (is_flag(#[trigger] args@[i]@, a@, b@) || is_flag(
                args@[i]@,
                c@,
                d@,
            )),
{
    let mut i: usize = 0;
    while i < args.len()
        invariant
            i <= args@.len(),
            forall|j: int|
                0 <= j < i ==> !(is_flag(#[trigger] args@[j]@, a@, b@) || is_flag(
                    args@[j]@,
                    c@,
                    d@,
                )),
        decreases args@.len() - i,
    {
        if is_flag_arg(args[i].as_str(), a, b) || is_flag_arg(args[i].as_str(), c, d) {
            return true;
        }
        i = i + 1;
    }
    false
}

} // verus!

verus! {

/// A command line on which a flag does not occur gives it no values.
pub proof fn lemma_absent_flag_no_values(w: Seq<Seq<char>>, short: Seq<char>, long: Seq<char>, arity: nat)
    requires
        forall|j: int| 0 <= j < w.len() ==> !is_flag(#[trigger] w[j], short, long),
    ensures
        flag_values(w, short, long, arity) == Seq::<Seq<Seq<char>>>::empty(),
    decreases w.len(),
{
    if w.len() > 0 {
        assert(!is_flag(w[0], short, long));
        let rest = w.skip(1);
        assert forall|j: int| 0 <= j < rest.len() implies !is_flag(#[trigger] rest[j], short, long) by {
            assert(rest[j] == w[j + 1]);
        }
        lemma_absent_flag_no_values(rest, short, long, arity);
    }
}

/// A one-value flag that occurs once, in either form, with a word after it,
/// takes that word as its only value.
pub proof fn lemma_single_flag_value(w: Seq<Seq<char>>, short: Seq<char>, long: Seq<char>, i: int)
    requires
        0 <= i,
        i + 1 < w.len(),
        is_flag(w[i], short, long),
        forall|j: int| 0 <= j < w.len() && j != i ==> !is_flag(#[trigger] w[j], short, long),
    ensures
        flag_values(w, short, long, 1) == seq![seq![w[i + 1]]],
    decreases w.len(),
{
    if i == 0 {
        let rest = w.skip(2);
        assert forall|j: int| 0 <= j < rest.len() implies !is_flag(#[trigger] rest[j], short, long) by {
            assert(rest[j] == w[j + 2]);
        }
        lemma_absent_flag_no_values(rest, short, long, 1);
        assert(w.subrange(1, 2) =~= seq![w[1]]);
        assert(flag_values(w, short, long, 1) =~= seq![w.subrange(1, 2)] + flag_values(rest, short, long, 1));
    } else {
        assert(!is_flag(w[0], short, long));
        let rest = w.skip(1);
        assert(rest[i - 1] == w[i]);
        assert(rest[i] == w[i + 1]);
        assert forall|j: int| 0 <= j < rest.len() && j != i - 1 implies !is_flag(
            #[trigger] rest[j],
            short,
            long,
        ) by {
            assert(rest[j] == w[j + 1]);
        }
        lemma_single_flag_value(rest, short, long, i - 1);
    }
}

} // verus!

verus! {

/// A flag that occurs once, in either form, with at least `arity` words
/// after it, takes those words as its only values.
pub proof fn lemma_single_flag_values(
    w: Seq<Seq<char>>,
    short: Seq<char>,
    long: Seq<char>,
    arity: nat,
    i: int,
)
    requires
        0 <= i,
        i + arity < w.len(),
        is_flag(w[i], short, long),
        forall|j: int| 0 <= j < w.len() && j != i ==> !is_flag(#[trigger] w[j], short, long),
    ensures
        flag_values(w, short, long, arity) == seq![w.subrange(i + 1, i + 1 + arity)],
    decreases w.len(),
{
    if i == 0 {
        let rest = w.skip(1 + arity as int);
        assert forall|j: int| 0 <= j < rest.len() implies !is_flag(#[trigger] rest[j], short, long) by {
            assert(rest[j] == w[j + 1 + arity]);
        }
        lemma_absent_flag_no_values(rest, short, long, arity);
        assert(flag_values(w, short, long, arity) =~= seq![w.subrange(1, 1 + arity as int)] + flag_values(
            rest,
            short,
            long,
            arity,
        ));
    } else {
        assert(!is_flag(w[0], short, long));
        let rest = w.skip(1);
        assert(rest[i - 1] == w[i]);
        assert forall|j: int| 0 <= j < rest.len() && j != i - 1 implies !is_flag(
            #[trigger] rest[j],
            short,
            long,
        ) by {
            assert(rest[j] == w[j + 1]);
        }
        lemma_single_flag_values(rest, short, long, arity, i - 1);
        assert(rest.subrange(i, i + arity) =~= w.subrange(i + 1, i + 1 + arity));
    }
}

} // verus!
