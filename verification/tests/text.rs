use rust_mangakakalot::text::{
    append_chars, as_strs, chars_eq, chars_of, decimal_chars, drop_bytes_chars, is_white_space_char,
    last_part, last_segment_chars, nth_part, pad_left_chars, pad_right_chars, parse_bool,
    parse_u32, parse_u64, parse_unsigned_chars, parse_usize, replace_str, split_chars, string_of,
    trim_chars, utf8_len, utf8_width,
};

fn chars(s: &str) -> Vec<char> {
    s.chars().collect()
}

#[test]
fn chars_round_trip() {
    let v = chars_of("héllo");
    assert_eq!(v, vec!['h', 'é', 'l', 'l', 'o']);
    assert_eq!(string_of(&v), "héllo");
}

#[test]
fn split_keeps_empty_parts() {
    let parts = split_chars(&chars("https://a/b"), '/');
    let back: Vec<String> = parts.iter().map(|p| p.iter().collect()).collect();
    assert_eq!(back, vec!["https:", "", "a", "b"]);
    let parts = split_chars(&chars(""), '/');
    assert_eq!(parts.len(), 1);
    assert!(parts[0].is_empty());
}

#[test]
fn last_segment_after_last_separator() {
    assert_eq!(last_segment_chars(&chars("a/b/chapter-3"), '/'), chars("chapter-3"));
    assert_eq!(last_segment_chars(&chars("nosep"), '/'), chars("nosep"));
    assert_eq!(last_segment_chars(&chars("ends/"), '/'), chars(""));
    assert_eq!(last_part("https://x.com/manga/ch-7", '/'), "ch-7");
}

#[test]
fn nth_part_counts_from_zero() {
    assert_eq!(nth_part("https://chapmanganato.com/manga-x", '/', 2), Some("chapmanganato.com".to_string()));
    assert_eq!(nth_part("https://chapmanganato.com/manga-x", '/', 1), Some(String::new()));
    assert_eq!(nth_part("https://chapmanganato.com/manga-x", '/', 4), None);
}

#[test]
fn chars_eq_compares_whole_sequences() {
    assert!(chars_eq(&chars("abc"), &chars("abc")));
    assert!(!chars_eq(&chars("abc"), &chars("abd")));
    assert!(!chars_eq(&chars("abc"), &chars("ab")));
}

#[test]
fn trim_removes_white_space_at_both_ends() {
    assert_eq!(trim_chars(&chars("  chapter 1\t\n")), chars("chapter 1"));
    assert_eq!(trim_chars(&chars("   ")), chars(""));
    assert_eq!(trim_chars(&chars("x")), chars("x"));
    assert!(is_white_space_char('\u{3000}'));
    assert!(!is_white_space_char('a'));
}

#[test]
fn trim_twice_is_trim_once() {
    let once = trim_chars(&chars(" \t a b \n"));
    assert_eq!(trim_chars(&once), once);
}

#[test]
fn parse_unsigned_accepts_digits_and_plus() {
    assert_eq!(parse_usize("42"), Some(42));
    assert_eq!(parse_usize("+7"), Some(7));
    assert_eq!(parse_usize(""), None);
    assert_eq!(parse_usize("+"), None);
    assert_eq!(parse_usize("-1"), None);
    assert_eq!(parse_usize(" 1"), None);
    assert_eq!(parse_usize("1a"), None);
    assert_eq!(parse_u32("4294967295"), Some(u32::MAX));
    assert_eq!(parse_u32("4294967296"), None);
    assert_eq!(parse_u64("18446744073709551615"), Some(u64::MAX));
    assert_eq!(parse_u64("18446744073709551616"), None);
    assert_eq!(parse_unsigned_chars(&chars("0099"), 100), Some(99));
    assert_eq!(parse_unsigned_chars(&chars("101"), 100), None);
}

#[test]
fn parse_bool_accepts_only_true_and_false() {
    assert_eq!(parse_bool("true"), Some(true));
    assert_eq!(parse_bool("false"), Some(false));
    assert_eq!(parse_bool("True"), None);
    assert_eq!(parse_bool(""), None);
}

#[test]
fn decimal_writes_like_to_string() {
    assert_eq!(decimal_chars(0), chars("0"));
    assert_eq!(decimal_chars(7), chars("7"));
    assert_eq!(decimal_chars(1200), chars("1200"));
    assert_eq!(decimal_chars(u64::MAX), chars(&u64::MAX.to_string()));
}

#[test]
fn decimal_reads_back() {
    for n in [0u64, 9, 10, 12345, u64::MAX] {
        assert_eq!(parse_unsigned_chars(&decimal_chars(n), u64::MAX), Some(n));
    }
}

#[test]
fn padding_fills_to_width() {
    assert_eq!(pad_left_chars(&chars("7"), '0', 3), chars("007"));
    assert_eq!(pad_left_chars(&chars("1234"), '0', 3), chars("1234"));
    assert_eq!(pad_right_chars(&chars("ab"), 4), chars("ab  "));
    assert_eq!(pad_right_chars(&chars("abcde"), 4), chars("abcde"));
    assert_eq!(format!("{:0>3}", 7), "007");
}

#[test]
fn padded_number_reads_back() {
    let padded = pad_left_chars(&decimal_chars(42), '0', 5);
    assert_eq!(padded, chars("00042"));
    assert_eq!(parse_unsigned_chars(&padded, u64::MAX), Some(42));
}

#[test]
fn append_adds_at_the_end() {
    let mut v = chars("ab");
    append_chars(&mut v, &chars("cd"));
    assert_eq!(v, chars("abcd"));
}

#[test]
fn utf8_lengths_match_std() {
    for c in ['a', 'é', '€', '😀'] {
        assert_eq!(utf8_width(c), c.len_utf8());
    }
    assert_eq!(utf8_len(&chars("a€😀")), "a€😀".len());
}

#[test]
fn drop_bytes_follows_str_slicing() {
    assert_eq!(drop_bytes_chars(&chars("abc"), 1), Some(chars("bc")));
    assert_eq!(drop_bytes_chars(&chars("é!"), 2), Some(chars("!")));
    assert_eq!(drop_bytes_chars(&chars("é!"), 1), None);
    assert_eq!(drop_bytes_chars(&chars("ab"), 3), None);
    assert_eq!(drop_bytes_chars(&chars("ab"), 2), Some(chars("")));
}

#[test]
fn replace_matches_str_replace() {
    for (s, from, to) in [("a-b-c", "-", ""), ("aaa", "aa", "b"), ("x", "y", "z"), ("chapter-1", "chapter", "ch")] {
        assert_eq!(replace_str(s, from, to), s.replace(from, to));
    }
}

#[test]
fn as_strs_borrows_each_string() {
    let v = vec!["a".to_string(), "bc".to_string()];
    assert_eq!(as_strs(&v), vec!["a", "bc"]);
}
