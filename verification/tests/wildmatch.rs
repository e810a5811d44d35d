use git_glob::wildmatch::wildmatch;

#[test]
fn star_matches_zero_or_more_bytes() {
    assert!(wildmatch(b"*", b"", false, false));
    assert!(wildmatch(b"*", b"anything", false, false));
    assert!(wildmatch(b"a*c", b"abbbc", false, false));
    assert!(wildmatch(b"a*c", b"ac", false, false));
    assert!(!wildmatch(b"a*c", b"ab", false, false));
}

#[test]
fn star_respects_slash_literal() {
    assert!(wildmatch(b"a*c", b"a/c", false, false));
    assert!(!wildmatch(b"a*c", b"a/c", true, false));
    assert!(!wildmatch(b"*", b"a/b", true, false));
    assert!(wildmatch(b"a/*", b"a/b", true, false));
}

#[test]
fn question_mark_matches_exactly_one_byte() {
    assert!(wildmatch(b"a?c", b"abc", false, false));
    assert!(!wildmatch(b"a?c", b"ac", false, false));
    assert!(!wildmatch(b"a?c", b"abbc", false, false));
    assert!(!wildmatch(b"a?c", b"a/c", true, false));
    assert!(wildmatch(b"a?c", b"a/c", false, false));
}

#[test]
fn bracket_sets_match_one_byte_from_the_set() {
    assert!(wildmatch(b"[abc]", b"b", false, false));
    assert!(!wildmatch(b"[abc]", b"d", false, false));
    assert!(!wildmatch(b"[abc]", b"ab", false, false));
    assert!(wildmatch(b"x[0-9]y", b"x5y", false, false));
    assert!(!wildmatch(b"x[0-9]y", b"xay", false, false));
}

#[test]
fn negated_bracket_sets_and_literal_close() {
    assert!(wildmatch(b"[!abc]", b"d", false, false));
    assert!(!wildmatch(b"[!abc]", b"a", false, false));
    assert!(wildmatch(b"[^0-9]", b"x", false, false));
    // a `]` standing first in the set is a member
    assert!(wildmatch(b"[]]", b"]", false, false));
    assert!(wildmatch(b"[!]]", b"x", false, false));
    assert!(!wildmatch(b"[!]]", b"]", false, false));
}

#[test]
fn unclosed_bracket_is_a_literal() {
    assert!(wildmatch(b"[abc", b"[abc", false, false));
    assert!(!wildmatch(b"[abc", b"a", false, false));
}

#[test]
fn backslash_escapes_the_next_pattern_byte() {
    assert!(wildmatch(b"\\*", b"*", false, false));
    assert!(!wildmatch(b"\\*", b"x", false, false));
    assert!(wildmatch(b"a\\?b", b"a?b", false, false));
    assert!(!wildmatch(b"a\\?b", b"axb", false, false));
    // a trailing backslash can match nothing
    assert!(!wildmatch(b"a\\", b"a", false, false));
}

#[test]
fn case_folding_is_ascii_only() {
    assert!(wildmatch(b"HELLO", b"hello", false, true));
    assert!(!wildmatch(b"HELLO", b"hello", false, false));
    assert!(wildmatch(b"[a-z]", b"B", false, true));
    assert!(!wildmatch(b"[a-z]", b"B", false, false));
    assert!(wildmatch(b"a?Z", b"Axz", false, true));
}

#[test]
fn empty_pattern_matches_only_the_empty_value() {
    assert!(wildmatch(b"", b"", false, false));
    assert!(!wildmatch(b"", b"a", false, false));
}
