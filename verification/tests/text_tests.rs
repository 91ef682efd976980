use jp_bulk_anki::text::chars_vec;
use jp_bulk_anki::text::contains_chars;
use jp_bulk_anki::text::normalize_for_match;
use jp_bulk_anki::text::trim;

#[test]
fn normalize_strips_spaces_and_zero_width_spaces() {
    assert_eq!(normalize_for_match("か う\u{200b}"), "かう");
}

#[test]
fn normalize_strips_middle_dots() {
    assert_eq!(normalize_for_match("カ\u{b7}ウ\u{b7}ボ"), "カウボ");
}

#[test]
fn normalize_truncates_at_first_slash() {
    assert_eq!(normalize_for_match("かう\u{200b} /こう"), "かう");
}

#[test]
fn normalize_keeps_plain_text() {
    assert_eq!(normalize_for_match("たべる"), "たべる");
}

#[test]
fn normalize_of_empty_is_empty() {
    assert_eq!(normalize_for_match(""), "");
}

#[test]
fn normalize_is_idempotent_on_samples() {
    let samples = ["かう\u{200b} /こう", "か う", "a\u{b7}b/c/d", "", "  /  "];
    for s in samples {
        let once = normalize_for_match(s);
        let twice = normalize_for_match(&once);
        assert_eq!(twice, once);
    }
}

#[test]
fn trim_removes_leading_and_trailing_whitespace() {
    assert_eq!(trim("  かう\n"), "かう");
    assert_eq!(trim("\u{3000}語\u{3000}"), "語");
    assert_eq!(trim("   "), "");
    assert_eq!(trim(""), "");
    assert_eq!(trim("a b"), "a b");
}

#[test]
fn contains_chars_finds_substrings() {
    let hay = chars_vec("買う【かう】");
    assert!(contains_chars(&hay, &chars_vec("かう")));
    assert!(contains_chars(&hay, &chars_vec("")));
    assert!(!contains_chars(&hay, &chars_vec("こう")));
    assert!(!contains_chars(&chars_vec("か"), &chars_vec("かう")));
}
