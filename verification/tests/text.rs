use blend_render::decimal::{i64_text, parse_i64, parse_usize, u64_text};
use blend_render::text::{
    comes_before, contains_text, forward_slashes, has_ending, has_prefix, has_suffix, lines,
    same_ignoring_case, same_text, words,
};

#[test]
fn numbers_are_written() {
    assert_eq!(i64_text(0), "0");
    assert_eq!(i64_text(-10), "-10");
    assert_eq!(i64_text(i64::MIN), "-9223372036854775808");
    assert_eq!(i64_text(i64::MAX), "9223372036854775807");
    assert_eq!(u64_text(u64::MAX), "18446744073709551615");
}

#[test]
fn numbers_are_read_as_std_reads_them() {
    for s in [
        "", "+", "-", "0", "-0", "+0", "007", "12", "-12", "+12", "--1", "+-1", "1 ", " 1", "1_0",
        "0x1", "9223372036854775807", "9223372036854775808", "-9223372036854775808",
        "-9223372036854775809", "18446744073709551615", "18446744073709551616",
        "00000000000000000000000000000000000000000001", "\u{0661}",
    ] {
        assert_eq!(parse_i64(s), s.parse::<i64>().ok());
        assert_eq!(parse_usize(s), s.parse::<usize>().ok());
    }
}

#[test]
fn written_numbers_are_read_back() {
    for n in [0, 1, -1, 9, 10, 99, -100, i64::MIN, i64::MAX] {
        assert_eq!(parse_i64(&i64_text(n)), Some(n));
    }
}

#[test]
fn words_are_what_std_splits() {
    for s in [
        "", " ", "a", " a  b\tc\n", "\u{2003}x\u{3000}y\u{85}z\u{1680}", "a\u{200b}b", "\u{b}\u{c}q",
    ] {
        let expected: Vec<&str> = s.split_whitespace().collect();
        assert_eq!(words(s), expected);
    }
}

#[test]
fn lines_are_what_std_splits() {
    for s in ["", "\n", "a", "a\n", "a\nb", "a\r\nb\r\n", "a\r", "\r\n\r\n", "a\rb\n\nc", "\r\r\n"] {
        let expected: Vec<&str> = s.lines().collect();
        assert_eq!(lines(s), expected);
    }
}

#[test]
fn joined_queries_keep_their_words() {
    let joined = words("-f 1  -E  CYCLES");
    let mut apart = words("-f 1 ");
    apart.extend(words(" -E  CYCLES"));
    assert_eq!(joined, apart);
}

#[test]
fn order_is_that_of_std() {
    let all = ["", "A", "a", "a/b", "a.blend", "aa", "b", "\u{e9}", "\u{ffff}", "\u{10000}"];
    for a in all {
        for b in all {
            assert_eq!(comes_before(a, b), a < b);
            assert_eq!(same_text(a, b), a == b);
            assert_eq!(has_prefix(a, b), a.starts_with(b));
            assert_eq!(has_suffix(a, b), a.ends_with(b));
        }
    }
}

#[test]
fn small_text_operations() {
    assert_eq!(forward_slashes("a\\b/c\\"), "a/b/c/");
    assert!(same_ignoring_case("BleNd", "blend"));
    assert!(!same_ignoring_case("blen", "blend"));
    assert!(!same_ignoring_case("\u{e9}", "\u{c9}"));
    assert!(has_ending("x.BLEND", ".blend"));
    assert!(!has_ending("blend", ".blend"));
    assert!(contains_text(&vec!["a".to_string(), "b".to_string()], "b"));
    assert!(!contains_text(&vec!["a".to_string()], "b"));
}
