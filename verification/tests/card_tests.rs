use jp_bulk_anki::card::CardParser;
use jp_bulk_anki::error::Error;

const URL: &str = "https://ichi.moe/cl/qr/?q=test&r=kana";

fn page(rows: &[&str]) -> String {
    let mut body = String::new();
    for row in rows {
        body.push_str("<div class=\"gloss-row\"><ul><li><div>");
        body.push_str(row);
        body.push_str("</div></li></ul></div>");
    }
    format!("<html><body>{}</body></html>", body)
}

fn row(reading: &str, candidates: &[&str]) -> String {
    let mut dts = String::new();
    for c in candidates {
        dts.push_str(&format!("<dt>{}</dt>", c));
    }
    format!(
        "<span class=\"info-link\"> {} </span><dl class=\"alternatives\">{}</dl>",
        reading, dts
    )
}

#[test]
fn parses_one_row_into_a_card() {
    let doc = page(&[&row("かう", &["買う 【かう】"])]);
    let parser = CardParser::new();
    let cards = parser.parse(&doc, URL).unwrap();
    assert_eq!(cards.len(), 1);
    assert_eq!(cards[0].reading, "かう");
    assert_eq!(cards[0].writing, "買う");
    assert!(cards[0].html.contains("買う 【かう】"));
}

#[test]
fn parsing_twice_yields_identical_cards() {
    let doc = page(&[
        &row("かう", &["買う 【かう】"]),
        &row("のむ", &["飲む 【のむ】"]),
    ]);
    let parser = CardParser::new();
    let first = parser.parse(&doc, URL).unwrap();
    let second = parser.parse(&doc, URL).unwrap();
    assert_eq!(first.len(), 2);
    assert_eq!(first.len(), second.len());
    for (a, b) in first.iter().zip(second.iter()) {
        assert_eq!(a.html, b.html);
        assert_eq!(a.reading, b.reading);
        assert_eq!(a.writing, b.writing);
    }
}

#[test]
fn first_matching_candidate_wins() {
    let doc = page(&[&row("かう", &["買う 【かう】", "購う 【かう】"])]);
    let parser = CardParser::new();
    let cards = parser.parse(&doc, URL).unwrap();
    assert_eq!(cards.len(), 1);
    assert_eq!(cards[0].writing, "買う");
}

#[test]
fn non_matching_candidates_are_skipped() {
    let doc = page(&[&row("かう", &["売る 【うる】", "買う 【かう】"])]);
    let parser = CardParser::new();
    let cards = parser.parse(&doc, URL).unwrap();
    assert_eq!(cards[0].writing, "買う");
}

#[test]
fn hidden_rows_are_excluded() {
    let doc = format!(
        "<html><body><div class=\"gloss-row hidden\"><ul><li><div>{}</div></li></ul></div>{}</body></html>",
        row("うる", &["売る 【うる】"]),
        format!(
            "<div class=\"gloss-row\"><ul><li><div>{}</div></li></ul></div>",
            row("かう", &["買う 【かう】"])
        ),
    );
    let parser = CardParser::new();
    let cards = parser.parse(&doc, URL).unwrap();
    assert_eq!(cards.len(), 1);
    assert_eq!(cards[0].writing, "買う");
}

#[test]
fn missing_reading_fails_with_page_error() {
    let doc = page(&[
        "<dl class=\"alternatives\"><dt>買う 【かう】</dt></dl>",
    ]);
    let parser = CardParser::new();
    let result = parser.parse(&doc, URL);
    assert_eq!(
        result.err().map(|e| match e {
            Error::PageError(a, b) => (a, b),
            other => panic!("unexpected error {:?}", other),
        }),
        Some(("failed to find reading".to_owned(), URL.to_owned()))
    );
}

#[test]
fn no_matching_writing_fails_with_page_error() {
    let doc = page(&[&row("かう", &["売る 【うる】"])]);
    let parser = CardParser::new();
    match parser.parse(&doc, URL) {
        Err(Error::PageError(a, b)) => {
            assert_eq!(a, URL);
            assert_eq!(b, "found no writings that matched the reading");
        }
        other => panic!("unexpected result {:?}", other.map(|c| c.len())),
    }
}

#[test]
fn unextractable_matching_candidate_fails_with_page_error() {
    let doc = page(&[&row("10", &["10 "])]);
    let parser = CardParser::new();
    match parser.parse(&doc, URL) {
        Err(Error::PageError(a, b)) => {
            assert_eq!(a, "found no matches to writing regex");
            assert_eq!(b, URL);
        }
        other => panic!("unexpected result {:?}", other.map(|c| c.len())),
    }
}

#[test]
fn one_bad_row_aborts_the_whole_parse() {
    let doc = page(&[
        &row("かう", &["買う 【かう】"]),
        "<dl class=\"alternatives\"><dt>飲む 【のむ】</dt></dl>",
    ]);
    let parser = CardParser::new();
    assert!(parser.parse(&doc, URL).is_err());
}

#[test]
fn reading_matches_despite_separators() {
    let doc = page(&[&row("か\u{b7}う /こう", &["買う\u{200b} 【か う】"])]);
    let parser = CardParser::new();
    let cards = parser.parse(&doc, URL).unwrap();
    assert_eq!(cards[0].reading, "か\u{b7}う /こう");
    assert_eq!(cards[0].writing, "買う");
}
