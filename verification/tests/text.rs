use vimmail::number::{format_i64, format_u64, parse_i32, parse_i64, parse_index};
use vimmail::text::{
    cat, cat3, char_is_space, chars_of, ends_with, eq_ignore_ascii_case, find_any_in, find_in,
    joined, replaced, split_lines, split_pieces, starts_with, str_eq, string_of, to_ascii_lower,
    to_lowercase, trimmed, trimmed_end_char,
};

fn c(s: &str) -> Vec<char> {
    s.chars().collect()
}

fn t(v: &[char]) -> String {
    v.iter().collect()
}

#[test]
fn strings_and_characters_convert_both_ways() {
    for s in ["", "plain", "mixed é 日本 \u{1F600}"] {
        assert_eq!(chars_of(s), c(s));
        assert_eq!(string_of(&c(s)), s);
    }
    assert!(str_eq("é", "é"));
    assert!(!str_eq("e", "é"));
    assert!(!str_eq("a", "ab"));
    assert_eq!(cat("a", "b"), "ab");
    assert_eq!(cat3("a", "", "c"), "ac");
}

#[test]
fn lowercase_matches_the_standard_library() {
    for s in ["", "Hello World", "ÄÖÜ ß İ Σ ΌΣΟΣ", "K\u{212A}", "ABC-xyz_09"] {
        assert_eq!(t(&to_lowercase(&c(s))), s.to_lowercase());
        assert_eq!(t(&to_ascii_lower(&c(s))), s.to_ascii_lowercase());
    }
    assert!(eq_ignore_ascii_case(&c("Text/Plain"), &c("text/PLAIN")));
    assert!(!eq_ignore_ascii_case(&c("ä"), &c("Ä")));
    assert!(!eq_ignore_ascii_case(&c("k"), &c("\u{212A}")));
}

#[test]
fn white_space_matches_the_standard_library() {
    for code in 0..=0x3100u32 {
        if let Some(ch) = char::from_u32(code) {
            assert_eq!(char_is_space(ch), ch.is_whitespace(), "U+{:04X}", code);
        }
    }
    for s in ["", "  a b \t\r\n", "\u{a0}x\u{3000}", "\u{200b}x", " \u{2003} "] {
        assert_eq!(t(trimmed(&c(s))), s.trim());
    }
    assert_eq!(t(trimmed_end_char(&c("abc\r\r"), '\r')), "abc");
    assert_eq!(t(trimmed_end_char(&c("\r"), '\r')), "");
}

#[test]
fn searching() {
    assert_eq!(find_in(&c("abcabc"), &c("bc"), 0), Some(1));
    assert_eq!(find_in(&c("abcabc"), &c("bc"), 2), Some(4));
    assert_eq!(find_in(&c("abcabc"), &c("bc"), 5), None);
    assert_eq!(find_in(&c("abc"), &c(""), 0), Some(0));
    assert_eq!(find_in(&c("abc"), &c(""), 3), Some(3));
    assert_eq!(find_in(&c("abc"), &c(""), 4), None);
    assert_eq!(find_in(&c(""), &c("a"), 0), None);
    assert_eq!(find_in(&c("aaa"), &c("aaaa"), 0), None);
    assert_eq!(find_any_in(&c("a;b,c"), &[',', ';'], 0), Some(1));
    assert_eq!(find_any_in(&c("a;b,c"), &[',', ';'], 2), Some(3));
    assert_eq!(find_any_in(&c("abc"), &[',', ';'], 0), None);
    assert_eq!(find_any_in(&c("abc"), &[], 0), None);
    assert!(starts_with(&c("abc"), &c("")));
    assert!(starts_with(&c("abc"), &c("ab")));
    assert!(!starts_with(&c("ab"), &c("abc")));
    assert!(ends_with(&c("abc"), &c("bc")));
    assert!(ends_with(&c("abc"), &c("")));
    assert!(!ends_with(&c("bc"), &c("abc")));
}

#[test]
fn replacing_goes_from_left_to_right() {
    for (s, from, to) in [
        ("aaaa", "aa", "b"),
        ("aaa", "aa", "b"),
        ("abc", "", "x"),
        ("a.b.c", ".", "-"),
        ("{x}{x}", "{x}", "{x}{x}"),
        ("", "a", "b"),
        ("abab", "ab", ""),
    ] {
        if from.is_empty() {
            assert_eq!(t(&replaced(&c(s), &c(from), &c(to))), s);
        } else {
            assert_eq!(t(&replaced(&c(s), &c(from), &c(to))), s.replace(from, to));
        }
    }
}

#[test]
fn lines_and_pieces() {
    let texts = |v: Vec<Vec<char>>| v.iter().map(|l| t(l)).collect::<Vec<_>>();
    for s in ["", "a", "a\n", "a\nb", "a\r\nb\r\n", "\n", "\n\n", "a\r\r\nb\r", "a\n\nb"] {
        let expected: Vec<String> = s.lines().map(|l| l.trim_end_matches('\r').to_string()).collect();
        assert_eq!(texts(split_lines(&c(s))), expected, "{:?}", s);
        let expected: Vec<String> = s.split('\n').map(String::from).collect();
        assert_eq!(texts(split_pieces(&c(s), '\n')), expected, "{:?}", s);
        assert_eq!(t(&joined(&split_pieces(&c(s), '\n'), &['\n'])), s);
    }
    assert_eq!(t(&joined(&vec![c("a"), c(""), c("b")], &c(", "))), "a, , b");
    assert_eq!(t(&joined(&vec![], &c(", "))), "");
}

#[test]
fn decimal_notation() {
    for n in [0i64, 7, 10, -1, 1234567890, i64::MIN, i64::MAX] {
        assert_eq!(t(&format_i64(n)), n.to_string());
        assert_eq!(parse_i64(&c(&n.to_string())), Some(n));
    }
    assert_eq!(t(&format_u64(u64::MAX)), u64::MAX.to_string());
    for s in ["", "+", "-", "1 ", " 1", "1_000", "0x10", "+-1", "--1", "1.0", "９", "9223372036854775808"] {
        assert_eq!(parse_i64(&c(s)), s.parse::<i64>().ok(), "{:?}", s);
    }
    for s in ["+7", "-0", "007", "-9223372036854775808", "2147483647", "2147483648", "-2147483648", "-2147483649"] {
        assert_eq!(parse_i64(&c(s)), s.parse::<i64>().ok(), "{:?}", s);
        assert_eq!(parse_i32(&c(s)), s.parse::<i32>().ok(), "{:?}", s);
    }
    for s in ["0", "15", "16", "+3", "-0", "-1", "", "015", "99999999999999999999"] {
        let expected = s.parse::<usize>().ok().filter(|n| *n < 16).map(|n| n as u64);
        assert_eq!(parse_index(&c(s), 16), expected, "{:?}", s);
    }
}
