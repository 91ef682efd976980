use jp_bulk_anki::cli::build_lookup_url;
use jp_bulk_anki::cli::force_apkg_extension;
use jp_bulk_anki::cli::is_blank_line;
use jp_bulk_anki::cli::plan_lookups;
use jp_bulk_anki::cli::romanization_code;
use jp_bulk_anki::cli::RomanizationMethod;

#[test]
fn lookup_url_percent_encodes_the_phrase() {
    let url = build_lookup_url("食べる", &RomanizationMethod::Kana, false);
    assert_eq!(
        url,
        "https://ichi.moe/cl/qr/?q=%E9%A3%9F%E3%81%B9%E3%82%8B&r=kana"
    );
}

#[test]
fn lookup_url_carries_the_katakana_flag_when_requested() {
    let url = build_lookup_url("ペン", &RomanizationMethod::HepburnBasic, true);
    assert!(url.ends_with("&r=hb&hira=on"));
    let bare = build_lookup_url("ペン", &RomanizationMethod::HepburnBasic, false);
    assert!(bare.ends_with("&r=hb"));
}

#[test]
fn romanization_codes_match_the_query_template() {
    assert_eq!(romanization_code(&RomanizationMethod::Kana), "kana");
    assert_eq!(romanization_code(&RomanizationMethod::HepburnBasic), "hb");
    assert_eq!(
        romanization_code(&RomanizationMethod::HepburnTraditional),
        "ht"
    );
    assert_eq!(romanization_code(&RomanizationMethod::HepburnModified), "hm");
    assert_eq!(romanization_code(&RomanizationMethod::Kunreisiki), "ks");
}

#[test]
fn blank_lines_are_recognized() {
    assert!(is_blank_line(""));
    assert!(is_blank_line("   "));
    assert!(is_blank_line("\u{3000}\t"));
    assert!(!is_blank_line(" 食べる "));
}

#[test]
fn planning_skips_blank_lines_and_keeps_order() {
    let lines = vec!["食べる".to_owned(), "".to_owned(), "飲む".to_owned()];
    let urls = plan_lookups(&lines, &RomanizationMethod::Kana, false);
    assert_eq!(urls.len(), 2);
    assert_eq!(
        urls[0],
        format!(
            "https://ichi.moe/cl/qr/?q={}&r=kana",
            urlencoding::encode("食べる")
        )
    );
    assert_eq!(
        urls[1],
        format!(
            "https://ichi.moe/cl/qr/?q={}&r=kana",
            urlencoding::encode("飲む")
        )
    );
}

#[test]
fn output_extension_is_forced_to_apkg() {
    assert_eq!(force_apkg_extension("deck"), "deck.apkg");
    assert_eq!(force_apkg_extension("deck.txt"), "deck.txt.apkg");
    assert_eq!(force_apkg_extension("deck.apkg"), "deck.apkg");
    assert_eq!(force_apkg_extension(".apkg"), ".apkg.apkg");
    assert_eq!(force_apkg_extension("out/file.apkg"), "out/file.apkg");
    assert_eq!(force_apkg_extension("out/.apkg"), "out/.apkg.apkg");
    assert_eq!(force_apkg_extension(""), ".apkg");
}
