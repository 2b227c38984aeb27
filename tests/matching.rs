use regexp::{Regexp, RegexpParsingError};

fn compiled(pattern: &str) -> Regexp {
    Regexp::new(pattern).unwrap()
}

#[test]
fn test() {
    let expr0 = Regexp::new("ab.?c").unwrap();
    let expr1 = Regexp::new("a+b*\\.").unwrap();
    let expr2 = Regexp::new("a.*b").unwrap();

    assert!(expr0.matches("abc"));
    assert!(expr0.matches("abdc"));
    assert!(!expr0.matches("abcde"));

    assert!(expr1.matches("abbb."));
    assert!(expr1.matches("aaaa."));
    assert!(!expr1.matches("b."));
    assert!(!expr1.matches("ab!"));

    assert!(expr2.matches("asadf.b"));
    assert!(expr2.matches("ab"));
}

#[test]
fn literal_equality() {
    let r = compiled("abc");
    assert!(r.matches("abc"));
    assert!(!r.matches("ab"));
    assert!(!r.matches("abcd"));
    assert!(!r.matches("abx"));
}

#[test]
fn wildcard_takes_one_character() {
    let r = compiled("a.c");
    assert!(r.matches("abc"));
    assert!(r.matches("azc"));
    assert!(!r.matches("ac"));
    assert!(!r.matches("abbc"));
}

#[test]
fn optional_takes_zero_or_one() {
    let r = compiled("ab.?c");
    assert!(r.matches("abc"));
    assert!(r.matches("abdc"));
    assert!(!r.matches("abcde"));
}

#[test]
fn plus_takes_one_or_more() {
    let r = compiled("a+b*\\.");
    assert!(r.matches("abbb."));
    assert!(r.matches("aaaa."));
    assert!(!r.matches("b."));
    assert!(!r.matches("ab!"));
}

#[test]
fn star_spans_arbitrary_content() {
    let r = compiled("a.*b");
    assert!(r.matches("ab"));
    assert!(r.matches("asadf.b"));
    assert!(!r.matches("a"));
}

#[test]
fn escaped_dot_is_literal() {
    let r = compiled("a\\.b");
    assert!(r.matches("a.b"));
    assert!(!r.matches("axb"));
}

#[test]
fn escaped_quantifier_is_literal() {
    let r = compiled("a\\*");
    assert!(r.matches("a*"));
    assert!(!r.matches("a"));
    assert!(!r.matches("aa"));
}

#[test]
fn unclosed_group_fails_at_its_index() {
    let e = Regexp::new("(abc").unwrap_err();
    assert_eq!(e.index, 0);
    assert_eq!(e.message, "unclosed parenthesis at index 0");
    assert_eq!(e.to_string(), "unclosed parenthesis at index 0");
}

#[test]
fn unclosed_group_index_has_several_digits() {
    let e = Regexp::new("abcdefghij(x").unwrap_err();
    assert_eq!(e.index, 10);
    assert_eq!(e.message, "unclosed parenthesis at index 10");
}

#[test]
fn nested_unclosed_group_reports_index_in_whole_pattern() {
    let e = Regexp::new("a((b)").unwrap_err();
    assert_eq!(e.index, 2);
    assert_eq!(e.message, "unclosed parenthesis at index 2");
}

#[test]
fn escaped_closing_paren_does_not_close() {
    let e: RegexpParsingError = Regexp::new("(a\\)").unwrap_err();
    assert_eq!(e.index, 0);
}

#[test]
fn empty_pattern_matches_only_empty_string() {
    let r = compiled("");
    assert!(r.matches(""));
    assert!(!r.matches("a"));
    assert!(!r.matches("abc"));
}

#[test]
fn leading_quantifier_is_literal() {
    let star = compiled("*");
    assert!(star.matches("*"));
    assert!(!star.matches(""));
    assert!(compiled("+a").matches("+a"));
    assert!(compiled("?").matches("?"));
    assert!(!compiled("?").matches(""));
}

#[test]
fn quantifier_after_quantified_token_is_literal() {
    let r = compiled("a**");
    assert!(r.matches("aa*"));
    assert!(r.matches("*"));
    assert!(!r.matches("aa"));
}

#[test]
fn group_matches_whole_input() {
    assert!(compiled("(ab)").matches("ab"));
    assert!(!compiled("(ab)").matches("abc"));
}

#[test]
fn group_is_matched_where_it_stands() {
    // A group is tried at the position reached, not at the start of the input.
    let r = compiled("x(ab)");
    assert!(r.matches("xab"));
    assert!(!r.matches("xxab"));
    assert!(compiled("(ab)c").matches("abc"));
}

#[test]
fn star_after_group_starts_where_group_ended() {
    // The repetitions of a star start at the characters consumed so far.
    let r = compiled("(ab)c*");
    assert!(r.matches("abccc"));
    assert!(r.matches("abc"));
    assert!(!r.matches("abcd"));
}

#[test]
fn group_counts_partial_progress() {
    // A group that stops early still counts the characters it consumed.
    assert!(compiled("(ab)x").matches("ax"));
}

#[test]
fn star_not_last_at_end_of_input_fails() {
    let r = compiled("a*b*");
    assert!(!r.matches(""));
    assert!(r.matches("a"));
    assert!(r.matches("aabb"));
}

#[test]
fn clone_matches_like_original() {
    let r = compiled("a+(bc)?d");
    let c = r.clone();
    assert_eq!(r, c);
    assert_eq!(r.matches("aad"), c.matches("aad"));
    assert_eq!(r.matches("abcd"), c.matches("abcd"));
}

#[test]
fn non_ascii_characters() {
    let r = compiled("é.ö");
    assert!(r.matches("éxö"));
    assert!(!r.matches("exo"));
}
