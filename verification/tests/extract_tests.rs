use jp_bulk_anki::error::Error;
use jp_bulk_anki::extract::extract_writing;

#[test]
fn extracts_writing_before_bracketed_furigana() {
    assert_eq!(extract_writing("買う 【かう】"), Ok("買う".to_owned()));
}

#[test]
fn fails_on_leading_digits_with_no_qualifying_run() {
    assert_eq!(extract_writing("10個 "), Err(Error::ExtractionError));
}

#[test]
fn fails_on_empty_block() {
    assert_eq!(extract_writing(""), Err(Error::ExtractionError));
}

#[test]
fn extracts_run_at_end_of_block() {
    assert_eq!(extract_writing("食べる"), Ok("食べる".to_owned()));
}

#[test]
fn skips_runs_without_a_terminator() {
    assert_eq!(extract_writing("あ い"), Ok("い".to_owned()));
}

#[test]
fn skips_digit_annotations_between_runs() {
    assert_eq!(extract_writing("1. 買う 【かう】"), Ok("買う".to_owned()));
}

#[test]
fn agrees_with_the_original_pattern_on_samples() {
    let pattern = regex::Regex::new(r"([^0-9【】\s.]+?)(\s【|$)").unwrap();
    let samples = ["買う 【かう】", "10個 ", "", "食べる", "あ い", "飲む 【のむ】"];
    for s in samples {
        let expected = pattern
            .captures(s)
            .map(|c| c.get(1).unwrap().as_str().to_owned());
        assert_eq!(extract_writing(s).ok(), expected, "on {:?}", s);
    }
}
