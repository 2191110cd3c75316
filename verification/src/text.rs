use vstd::prelude::*;

verus! {

broadcast use vstd::string::group_string_axioms;

/// Appends one character to a string (`String::push`).
#[verifier::external_body]
fn push_char(s: &mut String, c: char)
    ensures
        final(s)@ == old(s)@.push(c),
{
    s.push(c);
}

/// The texts of a sequence of string slices.
pub open spec fn texts(urls: Seq<&str>) -> Seq<Seq<char>> {
    urls.map_values(|u: &str| u@)
}

/// The characters of `s`, in order.
pub fn chars_of(s: &str) -> (v: Vec<char>)
    ensures
        v@ == s@,
{
    let mut v: Vec<char> = Vec::new();
    let mut it = s.chars();
    loop
        invariant
            v@.len() <= s@.len(),
            vstd::std_specs::iter::IteratorSpec::remaining(&it) == s@.skip(v@.len() as int),
            v@ == s@.take(v@.len() as int),
        ensures
            v@ == s@,
        decreases s@.len() - v@.len(),
    {
        match it.next() {
            Some(c) => {
                v.push(c);
            },
            None => {
                assert(s@.take(v@.len() as int) =~= s@);
                break;
            },
        }
    }
    v
}

/// A string holding the characters of `v`, in order.
pub fn string_of(v: &Vec<char>) -> (s: String)
    ensures
        s@ == v@,
{
    let mut s = String::new();
    let mut i: usize = 0;
    while i < v.len()
        invariant
            i <= v@.len(),
            s@ == v@.take(i as int),
        decreases v@.len() - i,
    {
        push_char(&mut s, v[i]);
        assert(v@.take(i as int).push(v@[i as int]) =~= v@.take(i as int + 1));
        i = i + 1;
    }
    assert(v@.take(i as int) =~= v@);
    s
}

} // verus!

verus! {

/// Splits `s` at every occurrence of `sep`, as `str::split` does with a
/// one-character pattern: `k` separators give `k + 1` parts, empty parts kept.
pub open spec fn split_on(s: Seq<char>, sep: char) -> Seq<Seq<char>>
    decreases s.len(),
{
    if s.len() == 0 {
        seq![Seq::empty()]
    } else {
        let prev = split_on(s.drop_last(), sep);
        if s.last() == sep {
            prev.push(Seq::empty())
        } else {
            prev.update(prev.len() - 1, prev.last().push(s.last()))
        }
    }
}

/// The part of `s` after the last `sep` (all of `s` when there is none).
pub open spec fn last_segment(s: Seq<char>, sep: char) -> Seq<char> {
    split_on(s, sep).last()
}

/// Splitting always yields at least one part.
pub proof fn lemma_split_nonempty(s: Seq<char>, sep: char)
    ensures
        split_on(s, sep).len() >= 1,
    decreases s.len(),
{
    if s.len() > 0 {
        lemma_split_nonempty(s.drop_last(), sep);
    }
}

/// No part of a split holds the separator.
pub proof fn lemma_split_parts_lack_sep(s: Seq<char>, sep: char)
    ensures
        forall|i: int, j: int|
            0 <= i < split_on(s, sep).len() && 0 <= j < split_on(s, sep)[i].len()
                ==> split_on(s, sep)[i][j] != sep,
    decreases s.len(),
{
    if s.len() > 0 {
        lemma_split_parts_lack_sep(s.drop_last(), sep);
        lemma_split_nonempty(s.drop_last(), sep);
        let prev = split_on(s.drop_last(), sep);
        if s.last() != sep {
            assert forall|i: int, j: int|
                0 <= i < split_on(s, sep).len() && 0 <= j < split_on(s, sep)[i].len()
                    implies split_on(s, sep)[i][j] != sep by {
                if i == prev.len() - 1 {
                    if j < prev.last().len() {
                        assert(split_on(s, sep)[i][j] == prev[i][j]);
                    }
                }
            }
        }
    }
}

/// The parts of the split of `s` extended by one character.
proof fn lemma_split_push(s: Seq<char>, c: char, sep: char)
    ensures
        s.push(c).drop_last() == s,
        s.push(c).last() == c,
{
    assert(s.push(c).drop_last() =~= s);
}

/// The last part of `v@` split at `sep`, computed in one forward pass.
pub fn last_segment_chars(v: &Vec<char>, sep: char) -> (r: Vec<char>)
    ensures
        r@ == last_segment(v@, sep),
{
    let mut cur: Vec<char> = Vec::new();
    let mut i: usize = 0;
    proof {
        assert(v@.take(0) =~= Seq::<char>::empty());
    }
    while i < v.len()
        invariant
            i <= v@.len(),
            cur@ == last_segment(v@.take(i as int), sep),
        decreases v@.len() - i,
    {
        let c = v[i];
        proof {
            lemma_split_push(v@.take(i as int), c, sep);
            lemma_split_nonempty(v@.take(i as int), sep);
            assert(v@.take(i as int + 1) =~= v@.take(i as int).push(c));
        }
        if c == sep {
            cur = Vec::new();
            assert(cur@ =~= Seq::<char>::empty());
        } else {
            cur.push(c);
        }
        i = i + 1;
    }
    assert(v@.take(i as int) =~= v@);
    cur
}

/// The character sequences held by a vector of character vectors.
pub open spec fn views(vs: Seq<Vec<char>>) -> Seq<Seq<char>> {
    vs.map_values(|p: Vec<char>| p@)
}

/// All parts of `v@` split at `sep`.
pub fn split_chars(v: &Vec<char>, sep: char) -> (r: Vec<Vec<char>>)
    ensures
        views(r@) == split_on(v@, sep),
{
    let mut parts: Vec<Vec<char>> = Vec::new();
    let mut cur: Vec<char> = Vec::new();
    let mut i: usize = 0;
    proof {
        assert(v@.take(0) =~= Seq::<char>::empty());
        assert(views(parts@).push(cur@) =~= seq![Seq::<char>::empty()]);
    }
    while i < v.len()
        invariant
            i <= v@.len(),
            split_on(v@.take(i as int), sep) == views(parts@).push(cur@),
        decreases v@.len() - i,
    {
        let c = v[i];
        let ghost before = views(parts@);
        proof {
            lemma_split_push(v@.take(i as int), c, sep);
            assert(v@.take(i as int + 1) =~= v@.take(i as int).push(c));
        }
        if c == sep {
            let ghost cur_before = cur@;
            parts.push(cur);
            cur = Vec::new();
            assert(views(parts@) =~= before.push(cur_before));
            assert(split_on(v@.take(i as int + 1), sep) =~= views(parts@).push(cur@));
        } else {
            cur.push(c);
            assert(views(parts@) =~= before);
            assert(split_on(v@.take(i as int + 1), sep) =~= views(parts@).push(cur@));
        }
        i = i + 1;
    }
    assert(v@.take(i as int) =~= v@);
    let ghost before = views(parts@);
    let ghost cur_before = cur@;
    parts.push(cur);
    assert(views(parts@) =~= before.push(cur_before));
    parts
}

/// Whether two character sequences are equal.
pub fn chars_eq(a: &Vec<char>, b: &Vec<char>) -> (r: bool)
    ensures
        r == (a@ == b@),
{
    if a.len() != b.len() {
        return false;
    }
    let mut i: usize = 0;
    while i < a.len()
        invariant
            i <= a@.len(),
            a@.len() == b@.len(),
            forall|j: int| 0 <= j < i ==> a@[j] == b@[j],
        decreases a@.len() - i,
    {
        if a[i] != b[i] {
            return false;
        }
        i = i + 1;
    }
    assert(a@ =~= b@);
    true
}

} // verus!

verus! {

/// Unicode `White_Space`, the set that `char::is_whitespace` tests.
pub open spec fn is_white_space(c: char) -> bool {
    ||| ('\u{9}' <= c && c <= '\u{d}')
    ||| c == ' '
    ||| c == '\u{85}'
    ||| c == '\u{a0}'
    ||| c == '\u{1680}'
    ||| ('\u{2000}' <= c && c <= '\u{200a}')
    ||| c == '\u{2028}'
    ||| c == '\u{2029}'
    ||| c == '\u{202f}'
    ||| c == '\u{205f}'
    ||| c == '\u{3000}'
}

/// `s` without its leading white space.
pub open spec fn trim_start(s: Seq<char>) -> Seq<char>
    decreases s.len(),
{
    if s.len() > 0 && is_white_space(s[0]) {
        trim_start(s.drop_first())
    } else {
        s
    }
}

/// `s` without its trailing white space.
pub open spec fn trim_end(s: Seq<char>) -> Seq<char>
    decreases s.len(),
{
    if s.len() > 0 && is_white_space(s.last()) {
        trim_end(s.drop_last())
    } else {
        s
    }
}

/// `s` without leading and trailing white space, as `str::trim` gives it.
pub open spec fn trim(s: Seq<char>) -> Seq<char> {
    trim_end(trim_start(s))
}

/// Whether `c` is white space.
pub fn is_white_space_char(c: char) -> (r: bool)
    ensures
        r == is_white_space(c),
{
    ('\u{9}' <= c && c <= '\u{d}') || c == ' ' || c == '\u{85}' || c == '\u{a0}' || c
        == '\u{1680}' || ('\u{2000}' <= c && c <= '\u{200a}') || c == '\u{2028}' || c
        == '\u{2029}' || c == '\u{202f}' || c == '\u{205f}' || c == '\u{3000}'
}

/// `v@` without leading and trailing white space.
pub fn trim_chars(v: &Vec<char>) -> (r: Vec<char>)
    ensures
        r@ == trim(v@),
{
    let n = v.len();
    let mut start: usize = 0;
    assert(v@.skip(0) =~= v@);
    while start < n && is_white_space_char(v[start])
        invariant
            start <= n,
            n == v@.len(),
            trim_start(v@) == trim_start(v@.skip(start as int)),
        decreases n - start,
    {
        assert(v@.skip(start as int).drop_first() =~= v@.skip(start as int + 1));
        start = start + 1;
    }
    let ghost t = v@.skip(start as int);
    assert(trim_start(v@) == t);
    let mut end: usize = n;
    assert(v@.subrange(start as int, n as int) =~= t);
    while end > start && is_white_space_char(v[end - 1])
        invariant
            start <= end <= n,
            n == v@.len(),
            trim_end(t) == trim_end(v@.subrange(start as int, end as int)),
        decreases end - start,
    {
        assert(v@.subrange(start as int, end as int).drop_last() =~= v@.subrange(
            start as int,
            end as int - 1,
        ));
        end = end - 1;
    }
    let mut r: Vec<char> = Vec::new();
    let mut k: usize = start;
    while k < end
        invariant
            start <= k <= end <= n,
            n == v@.len(),
            r@ == v@.subrange(start as int, k as int),
        decreases end - k,
    {
        r.push(v[k]);
        assert(r@ =~= v@.subrange(start as int, k as int + 1));
        k = k + 1;
    }
    r
}

/// Whether `c` is an ASCII decimal digit.
pub open spec fn is_digit(c: char) -> bool {
    '0' <= c && c <= '9'
}

/// The value of the decimal digit `c`.
pub open spec fn digit_value(c: char) -> nat {
    (c as int - '0' as int) as nat
}

/// The value of a sequence of decimal digits, most significant first.
pub open spec fn digits_value(d: Seq<char>) -> nat
    decreases d.len(),
{
    if d.len() == 0 {
        0
    } else {
        digits_value(d.drop_last()) * 10 + digit_value(d.last())
    }
}

/// The digits of an unsigned number in text: an optional leading `+` is dropped.
pub open spec fn unsigned_digits(s: Seq<char>) -> Seq<char> {
    if s.len() > 0 && s[0] == '+' {
        s.drop_first()
    } else {
        s
    }
}

/// Whether `str::parse` accepts `s` as an unsigned integer no larger than `max`:
/// an optional `+`, then one or more decimal digits.
pub open spec fn parses_unsigned(s: Seq<char>, max: nat) -> bool {
    let d = unsigned_digits(s);
    &&& d.len() > 0
    &&& forall|i: int| 0 <= i < d.len() ==> is_digit(#[trigger] d[i])
    &&& digits_value(d) <= max
}

/// The value that `str::parse` gives for an unsigned integer `s`.
pub open spec fn unsigned_value(s: Seq<char>) -> nat {
    digits_value(unsigned_digits(s))
}

/// The result of `str::parse` for an unsigned integer type with largest value `max`.
pub open spec fn parse_unsigned(s: Seq<char>, max: nat) -> Option<nat> {
    if parses_unsigned(s, max) {
        Some(unsigned_value(s))
    } else {
        None
    }
}

/// A digit sequence is worth at least as much as any of its prefixes.
pub proof fn lemma_digits_value_prefix(d: Seq<char>, k: int)
    requires
        0 <= k <= d.len(),
    ensures
        digits_value(d.take(k)) <= digits_value(d),
    decreases d.len(),
{
    if k < d.len() {
        lemma_digits_value_prefix(d.drop_last(), k);
        assert(d.drop_last().take(k) =~= d.take(k));
    } else {
        assert(d.take(k) =~= d);
    }
}

/// Parses `v@` as an unsigned integer no larger than `max`.
pub fn parse_unsigned_chars(v: &Vec<char>, max: u64) -> (r: Option<u64>)
    ensures
        match parse_unsigned(v@, max as nat) {
            Some(n) => r == Some(n as u64),
            None => r is None,
        },
{
    let n = v.len();
    if n == 0 {
        return None;
    }
    let mut i: usize = 0;
    if v[0] == '+' {
        i = 1;
    }
    let start = i;
    let ghost d = unsigned_digits(v@);
    assert(d =~= v@.skip(start as int));
    if start == n {
        return None;
    }
    let mut val: u64 = 0;
    assert(d.take(0) =~= Seq::<char>::empty());
    while i < n
        invariant
            start <= i <= n,
            n == v@.len(),
            d == v@.skip(start as int),
            d == unsigned_digits(v@),
            forall|j: int| 0 <= j < i - start ==> is_digit(#[trigger] d[j]),
            val as nat == digits_value(d.take(i - start)),
            val <= max,
        decreases n - i,
    {
        let c = v[i];
        if !('0' <= c && c <= '9') {
            assert(!is_digit(d[i - start]));
            assert(0 <= i - start < d.len());
            assert(!parses_unsigned(v@, max as nat));
            return None;
        }
        let dg: u64 = ((c as u32) - ('0' as u32)) as u64;
        assert(d.take(i - start + 1).drop_last() =~= d.take(i - start));
        assert(d.take(i - start + 1).last() == c);
        if (val as u128) * 10 + (dg as u128) > (max as u128) {
            proof {
                if forall|j: int| 0 <= j < d.len() ==> is_digit(#[trigger] d[j]) {
                    lemma_digits_value_prefix(d, i - start + 1);
                }
            }
            return None;
        }
        val = val * 10 + dg;
        i = i + 1;
    }
    assert(d.take(i - start) =~= d);
    Some(val)
}

} // verus!

verus! {

/// `s.parse::<usize>()`, with `None` for every error.
pub fn parse_usize(s: &str) -> (r: Option<usize>)
    ensures
        match parse_unsigned(s@, usize::MAX as nat) {
            Some(n) => r == Some(n as usize),
            None => r is None,
        },
{
    let v = chars_of(s);
    match parse_unsigned_chars(&v, usize::MAX as u64) {
        Some(n) => Some(n as usize),
        None => None,
    }
}

/// `s.parse::<u32>()`, with `None` for every error.
pub fn parse_u32(s: &str) -> (r: Option<u32>)
    ensures
        match parse_unsigned(s@, u32::MAX as nat) {
            Some(n) => r == Some(n as u32),
            None => r is None,
        },
{
    let v = chars_of(s);
    match parse_unsigned_chars(&v, u32::MAX as u64) {
        Some(n) => Some(n as u32),
        None => None,
    }
}

/// `s.parse::<u64>()`, with `None` for every error.
pub fn parse_u64(s: &str) -> (r: Option<u64>)
    ensures
        match parse_unsigned(s@, u64::MAX as nat) {
            Some(n) => r == Some(n as u64),
            None => r is None,
        },
{
    let v = chars_of(s);
    parse_unsigned_chars(&v, u64::MAX)
}

/// The result of `str::parse::<bool>`: only `true` and `false` are accepted.
pub open spec fn parse_bool_spec(s: Seq<char>) -> Option<bool> {
    if s == seq!['t', 'r', 'u', 'e'] {
        Some(true)
    } else if s == seq!['f', 'a', 'l', 's', 'e'] {
        Some(false)
    } else {
        None
    }
}

/// `s.parse::<bool>()`, with `None` for the error.
pub fn parse_bool(s: &str) -> (r: Option<bool>)
    ensures
        r == parse_bool_spec(s@),
{
    let v = chars_of(s);
    let t: Vec<char> = vec!['t', 'r', 'u', 'e'];
    let f: Vec<char> = vec!['f', 'a', 'l', 's', 'e'];
    assert(t@ =~= seq!['t', 'r', 'u', 'e']);
    assert(f@ =~= seq!['f', 'a', 'l', 's', 'e']);
    if chars_eq(&v, &t) {
        Some(true)
    } else if chars_eq(&v, &f) {
        Some(false)
    } else {
        None
    }
}

/// The character of the decimal digit `d`.
pub open spec fn digit_char(d: nat) -> char {
    ('0' as int + d) as char
}

/// The decimal text of `n`, without leading zeros, as `to_string` writes it.
pub open spec fn decimal(n: nat) -> Seq<char>
    decreases n,
{
    if n < 10 {
        seq![digit_char(n)]
    } else {
        decimal(n / 10).push(digit_char(n % 10))
    }
}

/// The decimal text of `n`.
pub fn decimal_chars(n: u64) -> (r: Vec<char>)
    ensures
        r@ == decimal(n as nat),
    decreases n,
{
    let d: u8 = (n % 10) as u8;
    let c: char = (('0' as u8) + d) as char;
    assert(c == digit_char((n % 10) as nat));
    if n < 10 {
        let r: Vec<char> = vec![c];
        assert(r@ =~= seq![c]);
        r
    } else {
        let mut r = decimal_chars(n / 10);
        r.push(c);
        r
    }
}

/// The decimal text of a number is made of digits, starts with no `+`,
/// and is worth the number: `str::parse` reads back what `to_string` wrote.
pub proof fn lemma_decimal_digits(n: nat)
    ensures
        decimal(n).len() > 0,
        forall|i: int| 0 <= i < decimal(n).len() ==> is_digit(#[trigger] decimal(n)[i]),
        decimal(n)[0] != '+',
        digits_value(decimal(n)) == n,
    decreases n,
{
    assert(digit_value(digit_char(n % 10)) == n % 10);
    if n < 10 {
        assert(decimal(n).drop_last() =~= Seq::<char>::empty());
        assert(n % 10 == n);
        assert(decimal(n).last() == digit_char(n));
        assert(digits_value(decimal(n)) == digits_value(decimal(n).drop_last()) * 10
            + digit_value(decimal(n).last()));
    } else {
        lemma_decimal_digits(n / 10);
        let p = decimal(n / 10);
        assert(decimal(n).drop_last() =~= p);
        assert((n / 10) * 10 + n % 10 == n);
        assert(decimal(n).last() == digit_char(n % 10));
        assert(digits_value(decimal(n)) == digits_value(decimal(n).drop_last()) * 10
            + digit_value(decimal(n).last()));
        assert forall|i: int| 0 <= i < decimal(n).len() implies is_digit(
            #[trigger] decimal(n)[i],
        ) by {
            if i < p.len() {
                assert(decimal(n)[i] == p[i]);
            }
        }
    }
}

/// `s` left-padded with `fill` to at least `width` characters, as the
/// format spec `{:0>3}` pads (with `fill` `'0'` and `width` 3).
pub open spec fn pad_left(s: Seq<char>, fill: char, width: nat) -> Seq<char> {
    if s.len() < width {
        Seq::new((width - s.len()) as nat, |i: int| fill) + s
    } else {
        s
    }
}

/// `s` right-padded with spaces to at least `width` characters, as `{:width$}`
/// pads a string.
pub open spec fn pad_right(s: Seq<char>, width: nat) -> Seq<char> {
    if s.len() < width {
        s + Seq::new((width - s.len()) as nat, |i: int| ' ')
    } else {
        s
    }
}

/// `pad_left` on character vectors.
pub fn pad_left_chars(v: &Vec<char>, fill: char, width: usize) -> (r: Vec<char>)
    ensures
        r@ == pad_left(v@, fill, width as nat),
{
    let mut r: Vec<char> = Vec::new();
    let mut k: usize = v.len();
    while k < width
        invariant
            v@.len() <= k <= width || (k == v@.len() && k >= width),
            k >= v@.len(),
            r@ == Seq::new((k - v@.len()) as nat, |i: int| fill),
        decreases width - k,
    {
        r.push(fill);
        assert(r@ =~= Seq::new((k + 1 - v@.len()) as nat, |i: int| fill));
        k = k + 1;
    }
    let ghost pre = r@;
    let mut j: usize = 0;
    while j < v.len()
        invariant
            j <= v@.len(),
            r@ == pre + v@.take(j as int),
        decreases v@.len() - j,
    {
        r.push(v[j]);
        assert(r@ =~= pre + v@.take(j as int + 1));
        j = j + 1;
    }
    assert(v@.take(j as int) =~= v@);
    assert(r@ =~= pad_left(v@, fill, width as nat));
    r
}

/// `pad_right` on character vectors.
pub fn pad_right_chars(v: &Vec<char>, width: usize) -> (r: Vec<char>)
    ensures
        r@ == pad_right(v@, width as nat),
{
    let mut r: Vec<char> = v.clone();
    let mut k: usize = v.len();
    assert(r@ =~= v@ + Seq::new(0, |i: int| ' '));
    while k < width
        invariant
            k >= v@.len(),
            k <= width || k == v@.len(),
            r@ == v@ + Seq::new((k - v@.len()) as nat, |i: int| ' '),
        decreases width - k,
    {
        r.push(' ');
        assert(r@ =~= v@ + Seq::new((k + 1 - v@.len()) as nat, |i: int| ' '));
        k = k + 1;
    }
    assert(r@ =~= pad_right(v@, width as nat));
    r
}

/// Appends the characters of `w` to `v`.
pub fn append_chars(v: &mut Vec<char>, w: &Vec<char>)
    ensures
        final(v)@ == old(v)@ + w@,
{
    let mut j: usize = 0;
    while j < w.len()
        invariant
            j <= w@.len(),
            v@ == old(v)@ + w@.take(j as int),
        decreases w@.len() - j,
    {
        v.push(w[j]);
        assert(v@ =~= old(v)@ + w@.take(j as int + 1));
        j = j + 1;
    }
    assert(w@.take(j as int) =~= w@);
}

} // verus!

verus! {

/// The number of bytes that `c` takes in UTF-8.
pub fn utf8_width(c: char) -> (r: usize)
    ensures
        r == vstd::utf8::encode_scalar(c as u32).len(),
        1 <= r <= 4,
{
    proof {
        vstd::utf8::char_is_scalar(c);
    }
    let u = c as u32;
    if u <= 0x7f {
        1
    } else if u <= 0x7ff {
        2
    } else if u <= 0xffff {
        3
    } else {
        4
    }
}

/// The UTF-8 length of a sequence is at least that of each of its suffixes.
proof fn lemma_utf8_len_suffix(s: Seq<char>, i: int)
    requires
        0 <= i <= s.len(),
    ensures
        vstd::utf8::encode_utf8(s.skip(i)).len() <= vstd::utf8::encode_utf8(s).len(),
    decreases i,
{
    if i > 0 {
        lemma_utf8_len_suffix(s, i - 1);
        assert(s.skip(i - 1).drop_first() =~= s.skip(i));
        assert(vstd::utf8::encode_utf8(s.skip(i - 1)) == vstd::utf8::encode_scalar(
            s.skip(i - 1)[0] as u32,
        ) + vstd::utf8::encode_utf8(s.skip(i - 1).drop_first()));
    } else {
        assert(s.skip(0) =~= s);
    }
}

/// The number of bytes of `v@` in UTF-8, which `str::len` gives for the same text.
pub fn utf8_len(v: &Vec<char>) -> (r: usize)
    requires
        vstd::utf8::encode_utf8(v@).len() <= usize::MAX,
    ensures
        r == vstd::utf8::encode_utf8(v@).len(),
{
    let mut acc: usize = 0;
    let mut i: usize = v.len();
    assert(v@.skip(i as int) =~= Seq::<char>::empty());
    while i > 0
        invariant
            i <= v@.len(),
            acc == vstd::utf8::encode_utf8(v@.skip(i as int)).len(),
            vstd::utf8::encode_utf8(v@).len() <= usize::MAX,
        decreases i,
    {
        let w = utf8_width(v[i - 1]);
        proof {
            assert(v@.skip(i - 1).drop_first() =~= v@.skip(i as int));
            assert(v@.skip(i - 1)[0] == v@[i - 1]);
            lemma_utf8_len_suffix(v@, i - 1);
        }
        acc = acc + w;
        i = i - 1;
    }
    assert(v@.skip(0) =~= v@);
    acc
}

} // verus!

verus! {

/// Borrows each string of `v` as a slice.
pub fn as_strs(v: &Vec<String>) -> (r: Vec<&str>)
    ensures
        texts(r@) == v.deep_view(),
{
    let mut r: Vec<&str> = Vec::new();
    let mut i: usize = 0;
    while i < v.len()
        invariant
            i <= v@.len(),
            texts(r@) =~= v.deep_view().take(i as int),
        decreases v@.len() - i,
    {
        let s = v[i].as_str();
        let ghost before = texts(r@);
        r.push(s);
        assert(texts(r@) =~= before.push(s@));
        assert(v.deep_view()[i as int] == v@[i as int]@);
        assert(texts(r@) =~= v.deep_view().take(i as int + 1));
        i = i + 1;
    }
    assert(v.deep_view().take(i as int) =~= v.deep_view());
    r
}

} // verus!

verus! {

/// The `/`-part (or `sep`-part) number `n` of `s`, when `s` has that many parts.
pub fn nth_part(s: &str, sep: char, n: usize) -> (r: Option<String>)
    ensures
        match r {
            Some(p) => n < split_on(s@, sep).len() && p@ == split_on(s@, sep)[n as int],
            None => n >= split_on(s@, sep).len(),
        },
{
    let parts = split_chars(&chars_of(s), sep);
    if n < parts.len() {
        assert(views(parts@)[n as int] == parts@[n as int]@);
        Some(string_of(&parts[n]))
    } else {
        None
    }
}

/// The last `sep`-part of `s`.
pub fn last_part(s: &str, sep: char) -> (r: String)
    ensures
        r@ == last_segment(s@, sep),
{
    string_of(&last_segment_chars(&chars_of(s), sep))
}

} // verus!

verus! {

/// The characters left after the first `n` bytes of the UTF-8 encoding of `s`;
/// `None` when `s` has fewer bytes or byte `n` falls inside a character, the
/// cases in which slicing a `str` from byte `n` panics.
pub open spec fn drop_bytes(s: Seq<char>, n: nat) -> Option<Seq<char>>
    decreases n,
{
    if n == 0 {
        Some(s)
    } else if s.len() == 0 {
        None
    } else {
        let w = vstd::utf8::encode_scalar(s[0] as u32).len();
        if w > n {
            None
        } else {
            drop_bytes(s.drop_first(), (n - w) as nat)
        }
    }
}

/// The characters left after the first `n` bytes of `v@`.
pub fn drop_bytes_chars(v: &Vec<char>, n: usize) -> (r: Option<Vec<char>>)
    ensures
        match r {
            Some(w) => drop_bytes(v@, n as nat) == Some(w@),
            None => drop_bytes(v@, n as nat) is None,
        },
{
    let mut i: usize = 0;
    let mut left: usize = n;
    assert(v@.skip(0) =~= v@);
    while left > 0
        invariant
            i <= v@.len(),
            drop_bytes(v@, n as nat) == drop_bytes(v@.skip(i as int), left as nat),
        decreases left,
    {
        if i == v.len() {
            return None;
        }
        let w = utf8_width(v[i]);
        assert(v@.skip(i as int)[0] == v@[i as int]);
        if w > left {
            return None;
        }
        assert(v@.skip(i as int).drop_first() =~= v@.skip(i as int + 1));
        left = left - w;
        i = i + 1;
    }
    let mut out: Vec<char> = Vec::new();
    let start = i;
    while i < v.len()
        invariant
            start <= i <= v@.len(),
            out@ == v@.subrange(start as int, i as int),
        decreases v@.len() - i,
    {
        out.push(v[i]);
        assert(out@ =~= v@.subrange(start as int, i as int + 1));
        i = i + 1;
    }
    assert(out@ =~= v@.skip(start as int));
    Some(out)
}

/// What `str::to_lowercase` makes of a text.
pub uninterp spec fn lowercase(s: Seq<char>) -> Seq<char>;

/// Calls `str::to_lowercase`. The claim: the result is a function of the
/// text alone, named `lowercase`.
#[verifier::external_body]
pub(crate) fn to_lowercase(s: &str) -> (r: String)
    ensures
        r@ == lowercase(s@),
{
    s.to_lowercase()
}

} // verus!

verus! {

/// `s` with every non-overlapping occurrence of `from`, taken from the left,
/// replaced by `to`, as `str::replace` does for a non-empty pattern.
pub open spec fn replace_all(s: Seq<char>, from: Seq<char>, to: Seq<char>) -> Seq<char>
    decreases s.len(),
{
    if from.len() == 0 || s.len() < from.len() {
        s
    } else if s.take(from.len() as int) == from {
        to + replace_all(s.skip(from.len() as int), from, to)
    } else {
        seq![s[0]] + replace_all(s.drop_first(), from, to)
    }
}

/// Whether `from` occurs in `v@` at position `i`.
fn occurs_at(v: &Vec<char>, from: &Vec<char>, i: usize) -> (r: bool)
    requires
        i + from@.len() <= v@.len(),
    ensures
        r == (v@.skip(i as int).take(from@.len() as int) == from@),
{
    let mut k: usize = 0;
    let n = v.len();
    while k < from.len()
        invariant
            k <= from@.len(),
            n == v@.len(),
            i + from@.len() <= v@.len(),
            forall|j: int| 0 <= j < k ==> v@[i + j] == from@[j],
        decreases from@.len() - k,
    {
        if v[i + k] != from[k] {
            assert(v@.skip(i as int).take(from@.len() as int)[k as int] != from@[k as int]);
            return false;
        }
        k = k + 1;
    }
    assert(v@.skip(i as int).take(from@.len() as int) =~= from@);
    true
}

/// `str::replace` with a non-empty pattern.
pub fn replace_str(s: &str, from: &str, to: &str) -> (r: String)
    requires
        from@.len() > 0,
    ensures
        r@ == replace_all(s@, from@, to@),
{
    let v = chars_of(s);
    let f = chars_of(from);
    let t = chars_of(to);
    let mut out: Vec<char> = Vec::new();
    let mut i: usize = 0;
    assert(v@.skip(0) =~= v@);
    while i < v.len()
        invariant
            i <= v@.len(),
            f@ == from@,
            f@.len() > 0,
            t@ == to@,
            replace_all(v@, f@, t@) == out@ + replace_all(v@.skip(i as int), f@, t@),
        decreases v@.len() - i,
    {
        let ghost rest = v@.skip(i as int);
        if f.len() <= v.len() - i && occurs_at(&v, &f, i) {
            assert(rest.take(f@.len() as int) == f@);
            assert(rest.skip(f@.len() as int) =~= v@.skip(i + f@.len()));
            append_chars(&mut out, &t);
            assert(replace_all(v@, f@, t@) == out@ + replace_all(v@.skip(i + f@.len()), f@, t@));
            i = i + f.len();
        } else {
            assert(rest.len() >= f@.len() ==> rest.take(f@.len() as int) != f@);
            assert(rest.drop_first() =~= v@.skip(i + 1));
            assert(rest[0] == v@[i as int]);
            out.push(v[i]);
            assert(replace_all(v@, f@, t@) == out@ + replace_all(v@.skip(i + 1), f@, t@));
            i = i + 1;
        }
    }
    assert(v@.skip(i as int) =~= Seq::<char>::empty());
    assert(out@ + Seq::<char>::empty() =~= out@);
    string_of(&out)
}

} // verus!

verus! {

/// `str::parse` reads back the decimal text of any number that fits:
/// `n.to_string().parse()` gives `n`.
pub proof fn lemma_parse_reads_back_decimal(n: nat, max: nat)
    requires
        n <= max,
    ensures
        parse_unsigned(decimal(n), max) == Some(n),
{
    lemma_decimal_digits(n);
    assert(unsigned_digits(decimal(n)) == decimal(n));
}

/// Leading zeros do not change the value of a digit sequence.
proof fn lemma_zeros_prefix_value(z: nat, d: Seq<char>)
    ensures
        digits_value(Seq::new(z, |i: int| '0') + d) == digits_value(d),
    decreases d.len(),
{
    let zs = Seq::new(z, |i: int| '0');
    if d.len() == 0 {
        assert(zs + d =~= zs);
        lemma_zeros_value(z);
    } else {
        lemma_zeros_prefix_value(z, d.drop_last());
        assert((zs + d).drop_last() =~= zs + d.drop_last());
        assert((zs + d).last() == d.last());
    }
}

/// A run of zeros is worth nothing.
proof fn lemma_zeros_value(z: nat)
    ensures
        digits_value(Seq::new(z, |i: int| '0')) == 0,
    decreases z,
{
    if z > 0 {
        lemma_zeros_value((z - 1) as nat);
        assert(Seq::new(z, |i: int| '0').drop_last() =~= Seq::new((z - 1) as nat, |i: int| '0'));
    }
}

/// A number written with leading zeros, as `{:0>3}` writes it, reads back
/// as the number: image files numbered this way name their index.
pub proof fn lemma_padded_reads_back(n: nat, width: nat, max: nat)
    requires
        n <= max,
    ensures
        parse_unsigned(pad_left(decimal(n), '0', width), max) == Some(n),
        pad_left(decimal(n), '0', width).len() >= width,
{
    lemma_decimal_digits(n);
    let d = decimal(n);
    let p = pad_left(d, '0', width);
    if d.len() < width {
        let z = (width - d.len()) as nat;
        lemma_zeros_prefix_value(z, d);
        assert(p == Seq::new(z, |i: int| '0') + d);
        assert(p[0] == '0');
        assert forall|i: int| 0 <= i < p.len() implies is_digit(#[trigger] p[i]) by {
            if i >= z {
                assert(p[i] == d[i - z]);
            }
        }
        assert(unsigned_digits(p) == p);
    } else {
        assert(unsigned_digits(p) == p);
    }
}

/// A text without leading white space keeps that property when trailing
/// white space goes.
proof fn lemma_trim_end_keeps_start(s: Seq<char>)
    requires
        s.len() > 0 ==> !is_white_space(s[0]),
    ensures
        trim_end(s).len() > 0 ==> !is_white_space(trim_end(s)[0]),
        trim_end(s).len() <= s.len(),
        forall|i: int| 0 <= i < trim_end(s).len() ==> trim_end(s)[i] == s[i],
    decreases s.len(),
{
    if s.len() > 0 && is_white_space(s.last()) {
        lemma_trim_end_keeps_start(s.drop_last());
        assert forall|i: int| 0 <= i < trim_end(s).len() implies trim_end(s)[i] == s[i] by {
            assert(s.drop_last()[i] == s[i]);
        }
    }
}

/// Trailing white space goes in one step.
proof fn lemma_trim_end_idempotent(s: Seq<char>)
    ensures
        trim_end(trim_end(s)) == trim_end(s),
    decreases s.len(),
{
    if s.len() > 0 && is_white_space(s.last()) {
        lemma_trim_end_idempotent(s.drop_last());
    }
}

/// Leading white space goes in one step.
proof fn lemma_trim_start_result(s: Seq<char>)
    ensures
        trim_start(s).len() > 0 ==> !is_white_space(trim_start(s)[0]),
    decreases s.len(),
{
    if s.len() > 0 && is_white_space(s[0]) {
        lemma_trim_start_result(s.drop_first());
    }
}

/// Trimming twice trims no more than once: names compared trimmed compare
/// the same however often they were trimmed before.
pub proof fn lemma_trim_idempotent(s: Seq<char>)
    ensures
        trim(trim(s)) == trim(s),
{
    let a = trim_start(s);
    lemma_trim_start_result(s);
    let b = trim_end(a);
    lemma_trim_end_keeps_start(a);
    assert(trim_start(b) == b);
    lemma_trim_end_idempotent(a);
}

} // verus!
