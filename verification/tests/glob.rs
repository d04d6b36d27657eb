use vimmail::glob::{glob_match, glob_match_bytes};

#[test]
fn star_matches_anything() {
    assert!(glob_match("*", "anything at all"));
}

#[test]
fn question_mark_matches_single_char() {
    assert!(glob_match("a?c", "abc"));
    assert!(!glob_match("a?c", "abbc"));
}

#[test]
fn star_at_domain_matches() {
    assert!(glob_match("*@example.com", "user@example.com"));
}

#[test]
fn star_at_domain_does_not_match_other() {
    assert!(!glob_match("*@example.com", "user@other.com"));
}

#[test]
fn prefix_star_matches() {
    assert!(glob_match("noreply@*", "noreply@anything.com"));
}

#[test]
fn exact_match() {
    assert!(glob_match("foo@bar.com", "foo@bar.com"));
}

#[test]
fn case_insensitive() {
    assert!(glob_match("*@Example.COM", "USER@example.com"));
}

#[test]
fn empty_pattern_matches_empty_string() {
    assert!(glob_match("", ""));
}

#[test]
fn empty_pattern_does_not_match_nonempty() {
    assert!(!glob_match("", "something"));
}

#[test]
fn nested_star_wildcard() {
    assert!(glob_match("*@*.google.com", "cal@mail.google.com"));
}

#[test]
fn no_match() {
    assert!(!glob_match("specific@email.com", "other@email.com"));
}

#[test]
fn star_is_a_wildcard_even_before_a_literal_star() {
    assert!(glob_match("*", "*abc"));
    assert!(glob_match("*c", "*abc"));
    assert!(!glob_match("*d", "*abc"));
}

#[test]
fn backtracking_retries_after_a_partial_match() {
    assert!(glob_match("*ab*abc", "ababxabc"));
    assert!(glob_match("a*b*c", "a--b--b--c"));
    assert!(!glob_match("a*b*c", "a--b--b--"));
    assert!(glob_match("a**", "a"));
    assert!(!glob_match("a?", "a"));
}

#[test]
fn case_is_ignored_in_pattern_and_text_alike() {
    for (p, t) in [("*@Example.COM", "USER@example.com"), ("A?c", "aBC"), ("x", "Y")] {
        assert_eq!(
            glob_match(p, t),
            glob_match(&p.to_lowercase(), &t.to_lowercase())
        );
    }
}

#[test]
fn non_ascii_text_is_lowercased_by_unicode_rules() {
    assert!(glob_match("*@bücher.de", "Info@BÜCHER.de"));
    assert!(!glob_match("?", "é"));
    assert!(glob_match("??", "é"));
}

#[test]
fn bytes_are_matched_as_they_are() {
    assert!(glob_match_bytes(b"a*", b"aXYZ"));
    assert!(!glob_match_bytes(b"a", b"A"));
}
