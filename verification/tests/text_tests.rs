use score_table::text::{coerce_quota, coerce_score, first_token, strip_marker, Coerced};

#[test]
fn quota_reads_plain_digits() {
    assert_eq!(coerce_quota("40"), Coerced { value: 40, defaulted: false });
    assert_eq!(coerce_quota("0"), Coerced { value: 0, defaulted: false });
    assert_eq!(coerce_quota("007"), Coerced { value: 7, defaulted: false });
}

#[test]
fn quota_reads_signs() {
    assert_eq!(coerce_quota("+12"), Coerced { value: 12, defaulted: false });
    assert_eq!(coerce_quota("-12"), Coerced { value: -12, defaulted: false });
    assert_eq!(coerce_quota("-0"), Coerced { value: 0, defaulted: false });
}

#[test]
fn quota_defaults_on_placeholder() {
    assert_eq!(coerce_quota("-"), Coerced { value: 0, defaulted: true });
    assert_eq!(coerce_quota("+"), Coerced { value: 0, defaulted: true });
    assert_eq!(coerce_quota(""), Coerced { value: 0, defaulted: true });
    assert_eq!(coerce_quota("n/a"), Coerced { value: 0, defaulted: true });
}

#[test]
fn quota_defaults_on_surrounding_text() {
    assert_eq!(coerce_quota(" 40"), Coerced { value: 0, defaulted: true });
    assert_eq!(coerce_quota("40 "), Coerced { value: 0, defaulted: true });
    assert_eq!(coerce_quota("4 0"), Coerced { value: 0, defaulted: true });
    assert_eq!(coerce_quota("40.0"), Coerced { value: 0, defaulted: true });
    assert_eq!(coerce_quota("--4"), Coerced { value: 0, defaulted: true });
    assert_eq!(coerce_quota("+-4"), Coerced { value: 0, defaulted: true });
    assert_eq!(coerce_quota("\u{0664}"), Coerced { value: 0, defaulted: true });
}

#[test]
fn quota_keeps_to_the_range_of_i16() {
    assert_eq!(coerce_quota("32767"), Coerced { value: 32767, defaulted: false });
    assert_eq!(coerce_quota("-32768"), Coerced { value: -32768, defaulted: false });
    assert_eq!(coerce_quota("32768"), Coerced { value: 0, defaulted: true });
    assert_eq!(coerce_quota("-32769"), Coerced { value: 0, defaulted: true });
    assert_eq!(coerce_quota("000000000000000000000032767"), Coerced { value: 32767, defaulted: false });
}

#[test]
fn score_keeps_to_the_range_of_i8() {
    assert_eq!(coerce_score("25"), Coerced { value: 25, defaulted: false });
    assert_eq!(coerce_score("127"), Coerced { value: 127, defaulted: false });
    assert_eq!(coerce_score("-128"), Coerced { value: -128, defaulted: false });
    assert_eq!(coerce_score("128"), Coerced { value: 0, defaulted: true });
    assert_eq!(coerce_score("-129"), Coerced { value: 0, defaulted: true });
    assert_eq!(coerce_score("-5"), Coerced { value: -5, defaulted: false });
    assert_eq!(coerce_score("-"), Coerced { value: 0, defaulted: true });
}

#[test]
fn marker_is_removed_wherever_it_stands() {
    assert_eq!(strip_marker("Computer Science*"), "Computer Science");
    assert_eq!(strip_marker("*a**b*"), "ab");
    assert_eq!(strip_marker("***"), "");
    assert_eq!(strip_marker(""), "");
    assert_eq!(strip_marker("Plain"), "Plain");
}

#[test]
fn marker_removal_keeps_other_characters() {
    assert_eq!(strip_marker("วิศวกรรม* โยธา"), "วิศวกรรม โยธา");
    assert_eq!(strip_marker("a+b/c"), "a+b/c");
}

#[test]
fn stripped_name_never_holds_a_marker() {
    for name in ["*", "a*", "*a", "a*b*c", "**", "x"] {
        assert!(!strip_marker(name).contains('*'));
    }
}

#[test]
fn first_token_drops_the_suffix() {
    assert_eq!(first_token("Mathematics (O-NET)"), Some("Mathematics".to_string()));
    assert_eq!(first_token("Math 1"), Some("Math".to_string()));
    assert_eq!(first_token("Eng"), Some("Eng".to_string()));
}

#[test]
fn first_token_skips_leading_whitespace() {
    assert_eq!(first_token("  \t\n Thai 3"), Some("Thai".to_string()));
    assert_eq!(first_token("\u{a0}Sci\u{3000}x"), Some("Sci".to_string()));
}

#[test]
fn first_token_is_missing_for_a_blank_label() {
    assert_eq!(first_token(""), None);
    assert_eq!(first_token("   "), None);
    assert_eq!(first_token("\t\n"), None);
}
