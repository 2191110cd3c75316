use vstd::prelude::*;

use crate::cli::str_eq;
use crate::text::{
    texts,
    chars_of, decimal, decimal_chars, last_segment, last_segment_chars, pad_left, pad_left_chars,
    pad_right, pad_right_chars, string_of,
};

verus! {

/// One chapter of a listing: whether a line break comes before it, its index
/// label, and its name padded to the column width.
pub struct ListEntry {
    pub line_break: bool,
    pub label: String,
    pub name: String,
}

/// The sum of `ms[i] + extra` over all entries.
pub open spec fn sum_with(ms: Seq<usize>, extra: nat) -> nat
    decreases ms.len(),
{
    if ms.len() == 0 {
        0
    } else {
        sum_with(ms.drop_last(), extra) + ms.last() as nat + extra
    }
}

/// How many leading entries fit in `width` when each takes its measure plus
/// `extra` columns: the longest prefix whose total stays within `width`.
pub open spec fn fit_count(ms: Seq<usize>, extra: nat, width: nat) -> nat
    decreases ms.len(),
{
    if ms.len() == 0 {
        0
    } else if sum_with(ms, extra) <= width {
        ms.len()
    } else {
        fit_count(ms.drop_last(), extra, width)
    }
}

/// Whether the listing breaks the line before entry `k` when `per_line`
/// entries go on a line: before every `per_line`-th entry after the first,
/// or, when `per_line` is 0, once before the first entry.
pub open spec fn breaks_before(k: int, per_line: nat) -> bool {
    if per_line == 0 {
        k == 0
    } else {
        k > 0 && k % (per_line as int) == 0
    }
}

/// The position of the first entry equal to `u` (the length when there is none).
pub open spec fn first_pos(texts: Seq<Seq<char>>, u: Seq<char>) -> nat
    decreases texts.len(),
{
    if texts.len() == 0 {
        0
    } else if texts[0] == u {
        0
    } else {
        1 + first_pos(texts.drop_first(), u)
    }
}

/// The column width of a listing: the average measure plus 5.
pub open spec fn column_width(ms: Seq<usize>) -> nat {
    sum_with(ms, 0) / ms.len() + 5
}

/// The entries that a listing of `urls` shows, given the measure of each URL,
/// the columns each takes beyond its measure, and the width of the terminal.
pub open spec fn listing_matches(
    r: Seq<ListEntry>,
    urls: Seq<&str>,
    ms: Seq<usize>,
    extra: nat,
    width: nat,
) -> bool {
    &&& r.len() == urls.len()
    &&& forall|k: int|
        0 <= k < r.len() ==> #[trigger] r[k].line_break == breaks_before(
            k,
            fit_count(ms, extra, width) / 2,
        )
    &&& forall|k: int|
        0 <= k < r.len() ==> #[trigger] r[k].label@ == pad_left(
            decimal(first_pos(texts(urls), urls[k]@)),
            '0',
            3,
        )
    &&& forall|k: int|
        0 <= k < r.len() ==> #[trigger] r[k].name@ == pad_right(
            last_segment(urls[k]@, '/'),
            column_width(ms),
        )
}

proof fn lemma_sum_take_step(ms: Seq<usize>, extra: nat, k: int)
    requires
        0 <= k < ms.len(),
    ensures
        sum_with(ms.take(k + 1), extra) == sum_with(ms.take(k), extra) + ms[k] + extra,
{
    assert(ms.take(k + 1).drop_last() =~= ms.take(k));
}

/// Sums grow with the prefix.
proof fn lemma_sum_take_mono(ms: Seq<usize>, extra: nat, i: int, j: int)
    requires
        0 <= i <= j <= ms.len(),
    ensures
        sum_with(ms.take(i), extra) <= sum_with(ms.take(j), extra),
    decreases j - i,
{
    if i < j {
        lemma_sum_take_step(ms, extra, j - 1);
        lemma_sum_take_mono(ms, extra, i, j - 1);
    }
}

/// Sums without the extra columns are no larger.
proof fn lemma_sum_extra(ms: Seq<usize>, extra: nat)
    ensures
        sum_with(ms, 0) <= sum_with(ms, extra),
    decreases ms.len(),
{
    if ms.len() > 0 {
        lemma_sum_extra(ms.drop_last(), extra);
    }
}

/// `k` is the fit count when the first `k` entries fit and the first `k + 1` do not.
proof fn lemma_fit_count_is(ms: Seq<usize>, extra: nat, width: nat, k: int)
    requires
        0 <= k <= ms.len(),
        sum_with(ms.take(k), extra) <= width,
        k == ms.len() || sum_with(ms.take(k + 1), extra) > width,
    ensures
        fit_count(ms, extra, width) == k,
    decreases ms.len(),
{
    if ms.len() == k {
        assert(ms.take(k) =~= ms);
        if k > 0 {
        }
    } else {
        lemma_sum_take_mono(ms, extra, k + 1, ms.len() as int);
        assert(ms.take(ms.len() as int) =~= ms);
        let d = ms.drop_last();
        assert(d.take(k) =~= ms.take(k));
        if k + 1 <= d.len() {
            assert(d.take(k + 1) =~= ms.take(k + 1));
        }
        lemma_fit_count_is(d, extra, width, k);
    }
}

/// The remainder of `k` given that of `k - 1`.
proof fn lemma_mod_step(k: int, p: int)
    requires
        k >= 1,
        p >= 1,
    ensures
        k % p == if (k - 1) % p == p - 1 {
            0
        } else {
            (k - 1) % p + 1
        },
{
    let q = (k - 1) / p;
    let r = (k - 1) % p;
    vstd::arithmetic::div_mod::lemma_fundamental_div_mod(k - 1, p);
    vstd::arithmetic::div_mod::lemma_mod_pos_bound(k - 1, p);
    assert(p * q == q * p) by (nonlinear_arith);
    if r == p - 1 {
        assert(k == (q + 1) * p + 0) by (nonlinear_arith)
            requires
                k - 1 == q * p + r,
                r == p - 1,
        ;
        vstd::arithmetic::div_mod::lemma_fundamental_div_mod_converse(k, p, q + 1, 0);
    } else {
        vstd::arithmetic::div_mod::lemma_fundamental_div_mod_converse(k, p, q, r + 1);
    }
}

/// The line counter of a listing before entry `k`.
spec fn counter(k: int, per_line: nat) -> int {
    if k == 0 {
        0
    } else if per_line == 0 {
        k
    } else {
        (k - 1) % (per_line as int) + 1
    }
}

proof fn lemma_counter_step(k: int, per_line: nat)
    requires
        k >= 0,
    ensures
        (counter(k, per_line) == per_line) == breaks_before(k, per_line),
        counter(k + 1, per_line) == (if counter(k, per_line) == per_line {
            0
        } else {
            counter(k, per_line)
        }) + 1,
{
    if per_line > 0 {
        let p = per_line as int;
        if k > 0 {
            lemma_mod_step(k, p);
            vstd::arithmetic::div_mod::lemma_mod_pos_bound(k - 1, p);
            vstd::arithmetic::div_mod::lemma_mod_pos_bound(k, p);
        } else {
            vstd::arithmetic::div_mod::lemma_small_mod(0, p as nat);
        }
        assert(k + 1 - 1 == k);
    }
}

/// The first position of the text `urls[k]` among `urls`.
fn first_position(urls: &Vec<&str>, k: usize) -> (r: usize)
    requires
        k < urls@.len(),
    ensures
        r == first_pos(texts(urls@), urls@[k as int]@),
        r <= k,
{
    let ghost t = texts(urls@);
    let ghost u = urls@[k as int]@;
    let mut j: usize = 0;
    assert(t.skip(0) =~= t);
    while j < k
        invariant
            j <= k < urls@.len(),
            t == texts(urls@),
            u == urls@[k as int]@,
            first_pos(t, u) == j + first_pos(t.skip(j as int), u),
        decreases k - j,
    {
        if str_eq(urls[j], urls[k]) {
            assert(t.skip(j as int)[0] == urls@[j as int]@);
            return j;
        }
        assert(t.skip(j as int)[0] == urls@[j as int]@);
        assert(t.skip(j as int).drop_first() =~= t.skip(j as int + 1));
        j = j + 1;
    }
    assert(t.skip(j as int)[0] == urls@[j as int]@);
    j
}

/// Lays out a listing of `urls`: `ms` holds the measure of each URL, each
/// URL takes its measure plus `extra` columns when counting how many fit on a
/// line of `width` columns, and half of those go on each line.
pub fn layout(urls: &Vec<&str>, ms: &Vec<usize>, extra: usize, width: usize) -> (r: Vec<ListEntry>)
    requires
        urls@.len() > 0,
        ms@.len() == urls@.len(),
        sum_with(ms@, extra as nat) + 5 <= usize::MAX,
    ensures
        listing_matches(r@, urls@, ms@, extra as nat, width as nat),
{
    let n = ms.len();
    let mut total: usize = 0;
    let mut i: usize = 0;
    assert(ms@.take(0) =~= Seq::<usize>::empty());
    while i < n
        invariant
            i <= n,
            n == ms@.len(),
            total == sum_with(ms@.take(i as int), 0),
            sum_with(ms@, extra as nat) + 5 <= usize::MAX,
        decreases n - i,
    {
        proof {
            lemma_sum_take_step(ms@, 0, i as int);
            lemma_sum_take_mono(ms@, 0, i as int + 1, n as int);
            assert(ms@.take(n as int) =~= ms@);
            lemma_sum_extra(ms@, extra as nat);
        }
        total = total + ms[i];
        i = i + 1;
    }
    assert(ms@.take(n as int) =~= ms@);
    proof {
        lemma_sum_extra(ms@, extra as nat);
        assert(total / n <= total) by (nonlinear_arith)
            requires
                n >= 1,
        ;
    }
    let col = total / n + 5;
    let mut num: usize = 0;
    let mut tmp: usize = 0;
    while num < n
        invariant
            num <= n,
            n == ms@.len(),
            tmp == sum_with(ms@.take(num as int), extra as nat),
            tmp <= width,
            sum_with(ms@, extra as nat) + 5 <= usize::MAX,
        ensures
            tmp == sum_with(ms@.take(num as int), extra as nat),
            tmp <= width,
            num == n || sum_with(ms@.take(num as int + 1), extra as nat) > width,
        decreases n - num,
    {
        proof {
            lemma_sum_take_step(ms@, extra as nat, num as int);
            lemma_sum_take_mono(ms@, extra as nat, num as int + 1, n as int);
            assert(ms@.take(n as int) =~= ms@);
        }
        let next = tmp + ms[num] + extra;
        if next > width {
            break;
        }
        tmp = next;
        num = num + 1;
    }
    proof {
        lemma_fit_count_is(ms@, extra as nat, width as nat, num as int);
    }
    let per_line = num / 2;
    let mut r: Vec<ListEntry> = Vec::new();
    let mut counter_now: usize = 0;
    let mut k: usize = 0;
    while k < n
        invariant
            k <= n,
            n == ms@.len(),
            n == urls@.len(),
            col == column_width(ms@),
            per_line == fit_count(ms@, extra as nat, width as nat) / 2,
            counter_now as int == counter(k as int, per_line as nat),
            counter_now <= k,
            r@.len() == k,
            forall|j: int|
                0 <= j < k ==> #[trigger] r@[j].line_break == breaks_before(
                    j,
                    per_line as nat,
                ),
            forall|j: int|
                0 <= j < k ==> #[trigger] r@[j].label@ == pad_left(
                    decimal(first_pos(texts(urls@), urls@[j]@)),
                    '0',
                    3,
                ),
            forall|j: int|
                0 <= j < k ==> #[trigger] r@[j].name@ == pad_right(
                    last_segment(urls@[j]@, '/'),
                    column_width(ms@),
                ),
        decreases n - k,
    {
        proof {
            lemma_counter_step(k as int, per_line as nat);
        }
        let line_break = counter_now == per_line;
        if line_break {
            counter_now = 0;
        }
        let pos = first_position(urls, k);
        let digits = decimal_chars(pos as u64);
        let label = string_of(&pad_left_chars(&digits, '0', 3));
        let text = chars_of(urls[k]);
        let last = last_segment_chars(&text, '/');
        let name = string_of(&pad_right_chars(&last, col));
        r.push(ListEntry { line_break, label, name });
        counter_now = counter_now + 1;
        k = k + 1;
    }
    r
}

} // verus!

verus! {

/// The bytes of the last `/`-part of a URL.
pub open spec fn last_part_bytes(u: Seq<char>) -> nat {
    vstd::utf8::encode_utf8(last_segment(u, '/')).len()
}

/// The bytes of the `/`-part number `index` of a URL.
pub open spec fn part_bytes(u: Seq<char>, index: int) -> nat {
    vstd::utf8::encode_utf8(crate::text::split_on(u, '/')[index]).len()
}

/// The measure of each URL by the bytes of its last `/`-part.
pub open spec fn last_part_measures(urls: Seq<&str>) -> Seq<usize> {
    Seq::new(urls.len(), |i: int| last_part_bytes(urls[i]@) as usize)
}

/// The measure of each URL by the bytes of its `/`-part number `index`.
pub open spec fn part_measures(urls: Seq<&str>, index: int) -> Seq<usize> {
    Seq::new(urls.len(), |i: int| part_bytes(urls[i]@, index) as usize)
}

/// Whether a listing by last parts stays within `usize` arithmetic.
pub open spec fn last_parts_fit(urls: Seq<&str>, extra: nat) -> bool {
    &&& forall|i: int| 0 <= i < urls.len() ==> last_part_bytes(#[trigger] urls[i]@) <= usize::MAX
    &&& sum_with(last_part_measures(urls), extra) + 5 <= usize::MAX
}

/// Whether a listing by parts number `index` is possible: every URL has such a
/// part, and the arithmetic stays within `usize`.
pub open spec fn parts_fit(urls: Seq<&str>, index: int, extra: nat) -> bool {
    &&& forall|i: int|
        0 <= i < urls.len() ==> crate::text::split_on(#[trigger] urls[i]@, '/').len() > index
    &&& forall|i: int| 0 <= i < urls.len() ==> part_bytes(#[trigger] urls[i]@, index) <= usize::MAX
    &&& sum_with(part_measures(urls, index), extra) + 5 <= usize::MAX
}

/// The measures of the URLs by the bytes of their last `/`-parts.
pub fn last_part_lengths(urls: &Vec<&str>) -> (r: Vec<usize>)
    requires
        forall|i: int| 0 <= i < urls@.len() ==> last_part_bytes(#[trigger] urls@[i]@) <= usize::MAX,
    ensures
        r@ == last_part_measures(urls@),
{
    let mut r: Vec<usize> = Vec::new();
    let mut i: usize = 0;
    while i < urls.len()
        invariant
            i <= urls@.len(),
            forall|j: int| 0 <= j < urls@.len() ==> last_part_bytes(#[trigger] urls@[j]@) <= usize::MAX,
            r@ =~= last_part_measures(urls@).take(i as int),
        decreases urls@.len() - i,
    {
        let text = chars_of(urls[i]);
        let last = last_segment_chars(&text, '/');
        assert(last_part_bytes(urls@[i as int]@) <= usize::MAX);
        let m = crate::text::utf8_len(&last);
        r.push(m);
        assert(r@ =~= last_part_measures(urls@).take(i as int + 1));
        i = i + 1;
    }
    assert(last_part_measures(urls@).take(i as int) =~= last_part_measures(urls@));
    r
}

/// The measures of the URLs by the bytes of their `/`-parts number `index`.
pub fn part_lengths(urls: &Vec<&str>, index: usize) -> (r: Vec<usize>)
    requires
        forall|i: int|
            0 <= i < urls@.len() ==> crate::text::split_on(#[trigger] urls@[i]@, '/').len() > index,
        forall|i: int| 0 <= i < urls@.len() ==> part_bytes(#[trigger] urls@[i]@, index as int) <= usize::MAX,
    ensures
        r@ == part_measures(urls@, index as int),
{
    let mut r: Vec<usize> = Vec::new();
    let mut i: usize = 0;
    while i < urls.len()
        invariant
            i <= urls@.len(),
            forall|j: int|
                0 <= j < urls@.len() ==> crate::text::split_on(#[trigger] urls@[j]@, '/').len()
                    > index,
            forall|j: int|
                0 <= j < urls@.len() ==> part_bytes(#[trigger] urls@[j]@, index as int) <= usize::MAX,
            r@ =~= part_measures(urls@, index as int).take(i as int),
        decreases urls@.len() - i,
    {
        let text = chars_of(urls[i]);
        let parts = crate::text::split_chars(&text, '/');
        assert(crate::text::split_on(urls@[i as int]@, '/').len() > index);
        assert(parts@[index as int]@ == crate::text::split_on(urls@[i as int]@, '/')[index as int]);
        assert(part_bytes(urls@[i as int]@, index as int) <= usize::MAX);
        let m = crate::text::utf8_len(&parts[index]);
        r.push(m);
        assert(r@ =~= part_measures(urls@, index as int).take(i as int + 1));
        i = i + 1;
    }
    assert(part_measures(urls@, index as int).take(i as int) =~= part_measures(
        urls@,
        index as int,
    ));
    r
}

} // verus!

verus! {

/// The label of each entry names the first position of a chapter with the
/// same URL, which is never after the entry itself.
pub proof fn lemma_label_points_back(urls: Seq<&str>, k: int)
    requires
        0 <= k < urls.len(),
    ensures
        first_pos(texts(urls), urls[k]@) <= k,
        texts(urls)[first_pos(texts(urls), urls[k]@) as int] == urls[k]@,
{
    lemma_first_pos(texts(urls), urls[k]@, k);
}

proof fn lemma_first_pos(ts: Seq<Seq<char>>, u: Seq<char>, k: int)
    requires
        0 <= k < ts.len(),
        ts[k] == u,
    ensures
        first_pos(ts, u) <= k,
        ts[first_pos(ts, u) as int] == u,
    decreases k,
{
    if ts[0] != u {
        lemma_first_pos(ts.drop_first(), u, k - 1);
    }
}

} // verus!

verus! {

/// The number that a listing shows for a chapter reads back as a position
/// holding the same URL, never after the chapter: asking for that number
/// (`-c`) gets the chapter shown.
pub proof fn lemma_label_reads_back(
    r: Seq<ListEntry>,
    urls: Seq<&str>,
    ms: Seq<usize>,
    extra: nat,
    width: nat,
    k: int,
)
    requires
        listing_matches(r, urls, ms, extra, width),
        urls.len() <= usize::MAX,
        0 <= k < urls.len(),
    ensures
        crate::text::parse_unsigned(r[k].label@, usize::MAX as nat) matches Some(p) && p <= k
            && urls[p as int]@ == urls[k]@,
{
    lemma_label_points_back(urls, k);
    let p = first_pos(texts(urls), urls[k]@);
    crate::text::lemma_padded_reads_back(p, 3, usize::MAX as nat);
    assert(r[k].label@ == pad_left(decimal(p), '0', 3));
    assert(texts(urls)[p as int] == urls[p as int]@);
}

} // verus!
