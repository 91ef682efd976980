use jp_bulk_anki::card::Card;
use jp_bulk_anki::cli::Options;
use jp_bulk_anki::cli::RomanizationMethod;
use jp_bulk_anki::deck::DeckBuilder;

fn options(writing: bool) -> Options {
    Options {
        romanization_method: RomanizationMethod::Kana,
        convert_katakana_to_hiragana: false,
        deck_name: "deck".to_owned(),
        deck_description: "description".to_owned(),
        output: "deck.apkg".to_owned(),
        input: None,
        writing,
    }
}

fn builder(writing: bool) -> DeckBuilder {
    DeckBuilder::new(
        "deck".to_owned(),
        "description".to_owned(),
        ".gloss {}".to_owned(),
        options(writing),
    )
}

fn card(html: &str, reading: &str, writing: &str) -> Card {
    Card {
        html: html.to_owned(),
        reading: reading.to_owned(),
        writing: writing.to_owned(),
    }
}

#[test]
fn reading_makes_the_front_by_default() {
    let mut b = builder(false);
    b.add(card("<b>x</b>", "かう", "買う"));
    assert_eq!(b.len(), 1);
    assert_eq!(b.notes[0].front, "かう");
    assert_eq!(b.notes[0].back, "<b>x</b>");
}

#[test]
fn writing_makes_the_front_when_requested() {
    let mut b = builder(true);
    b.add(card("<b>x</b>", "かう", "買う"));
    assert_eq!(b.notes[0].front, "買う");
}

#[test]
fn duplicate_writings_leave_one_note_and_the_first_arrival_wins() {
    let mut b = builder(false);
    b.add(card("<b>first</b>", "かう", "買う"));
    b.add(card("<b>second</b>", "こう", "買う"));
    assert_eq!(b.len(), 1);
    assert_eq!(b.notes.len(), 1);
    assert_eq!(b.notes[0].front, "かう");
    assert_eq!(b.notes[0].back, "<b>first</b>");

    let mut other = builder(false);
    other.add(card("<b>second</b>", "こう", "買う"));
    other.add(card("<b>first</b>", "かう", "買う"));
    assert_eq!(other.len(), 1);
    assert_eq!(other.notes[0].front, "こう");
    assert_eq!(other.notes[0].back, "<b>second</b>");
}

#[test]
fn distinct_writings_all_stay() {
    let mut b = builder(false);
    b.add(card("a", "かう", "買う"));
    b.add(card("b", "のむ", "飲む"));
    b.add(card("c", "かう", "買う"));
    assert_eq!(b.len(), 2);
    assert_eq!(b.notes[0].front, "かう");
    assert_eq!(b.notes[1].front, "のむ");
}

#[test]
fn stylesheet_is_prefixed_with_the_color_reset_rule() {
    let b = builder(false);
    assert_eq!(b.css, "<style>* { color: black }</style>.gloss {}");
}
