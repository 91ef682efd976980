//! The card parser: takes one fetched analysis page and turns every visible
//! glossary row into a card.
//!
//! Each row carries a phonetic reading and a list of candidate writings, only
//! one of which is textually consistent with the reading. The parser
//! normalizes the reading, scans the candidates in document order, and on the
//! first candidate whose normalized text contains the normalized reading it
//! extracts the canonical writing. Any malformed row aborts the whole parse
//! for that page.

use vstd::prelude::*;
use crate::error::Error;
use crate::error::ErrorSpec;
use crate::extract::extract_spec;
use crate::extract::extract_writing;
use crate::text::chars_vec;
use crate::text::contains_chars;
use crate::text::contains_seq;
use crate::text::filter_separators;
use crate::text::filter_zwsp;
use crate::text::lemma_least_index;
use crate::text::normalize_for_match;
use crate::text::normalize_spec;
use crate::text::string_from_chars;
use crate::text::strip_separators_spec;
use crate::text::strip_zwsp_spec;
use crate::text::trim;
use crate::text::trim_spec;

verus! {

/// One finished flashcard, produced from one glossary row.
///
/// `html` is the row's raw markup, used verbatim as the back of the card;
/// `reading` the trimmed phonetic annotation; `writing` the canonical written
/// form selected among the row's alternatives, used as the deduplication key.
pub struct Card {
    pub html: String,
    pub reading: String,
    pub writing: String,
}

/// The mathematical shape of a [`Card`].
pub ghost struct CardView {
    pub html: Seq<char>,
    pub reading: Seq<char>,
    pub writing: Seq<char>,
}

impl View for Card {
    type V = CardView;

    open spec fn view(&self) -> CardView {
        CardView { html: self.html@, reading: self.reading@, writing: self.writing@ }
    }
}

impl DeepView for Card {
    type V = CardView;

    open spec fn deep_view(&self) -> CardView {
        self.view()
    }
}

/// The selector for the visible glossary rows: rows of the alternate,
/// hidden analysis set are excluded.
pub open spec fn card_selector_spec() -> Seq<char> {
    "div.gloss-row:not(.hidden)>ul>li>div"@
}

/// The selector for a row's reading annotation element.
pub open spec fn reading_selector_spec() -> Seq<char> {
    ".info-link"@
}

/// The selector for a row's alternative-writing candidate elements.
pub open spec fn writing_selector_spec() -> Seq<char> {
    ".alternatives>dt"@
}

/// The inner markup of the elements that `selector` matches in `document`,
/// parsed as a full document, in document order.
pub uninterp spec fn doc_selected(document: Seq<char>, selector: Seq<char>) -> Seq<Seq<char>>;

/// The inner markup of the elements that `selector` matches in `fragment`,
/// parsed as a markup fragment, in document order.
pub uninterp spec fn fragment_selected(fragment: Seq<char>, selector: Seq<char>) -> Seq<Seq<char>>;

/// Relies on scraper's `Html::parse_document`, `Selector::parse`,
/// `Html::select` and `ElementRef::inner_html`: parsing and selection are
/// pure functions of the two strings, `select` walks the matching elements in
/// document order, and `inner_html` serializes each element's contents. A
/// selector string that does not parse matches nothing.
#[verifier::external_body]
fn select_in_document(document: &str, selector: &str) -> (r: Vec<String>)
    ensures
        r.deep_view() == doc_selected(document@, selector@),
{
    let mut out = Vec::new();
    if let Ok(sel) = scraper::Selector::parse(selector) {
        for element in scraper::Html::parse_document(document).select(&sel) {
            out.push(element.inner_html());
        }
    }
    out
}

/// Relies on scraper's `Html::parse_fragment`, `Selector::parse`,
/// `Html::select` and `ElementRef::inner_html`, as [`select_in_document`]
/// does, but for a markup fragment.
#[verifier::external_body]
fn select_in_fragment(fragment: &str, selector: &str) -> (r: Vec<String>)
    ensures
        r.deep_view() == fragment_selected(fragment@, selector@),
{
    let mut out = Vec::new();
    if let Ok(sel) = scraper::Selector::parse(selector) {
        for element in scraper::Html::parse_fragment(fragment).select(&sel) {
            out.push(element.inner_html());
        }
    }
    out
}

/// A candidate block matches when its separator-stripped text contains the
/// normalized reading.
pub open spec fn cand_matches(cand: Seq<char>, norm_reading: Seq<char>) -> bool {
    contains_seq(strip_separators_spec(cand), norm_reading)
}

/// Some candidate matches the normalized reading.
pub open spec fn some_match(cands: Seq<Seq<char>>, norm_reading: Seq<char>) -> bool {
    exists|k: int| 0 <= k < cands.len() && #[trigger] cand_matches(cands[k], norm_reading)
}

/// `k` is the first matching candidate, in document order.
pub open spec fn is_first_match(cands: Seq<Seq<char>>, norm_reading: Seq<char>, k: int) -> bool {
    &&& 0 <= k < cands.len()
    &&& cand_matches(cands[k], norm_reading)
    &&& forall|j: int| 0 <= j < k ==> !cand_matches(cands[j], norm_reading)
}

/// The position of the first matching candidate; meaningful only when one
/// matches.
pub open spec fn first_match_index(cands: Seq<Seq<char>>, norm_reading: Seq<char>) -> int {
    choose|k: int| is_first_match(cands, norm_reading, k)
}

/// When some candidate matches, the first matching one is well defined.
pub proof fn lemma_first_match(cands: Seq<Seq<char>>, norm_reading: Seq<char>)
    requires
        some_match(cands, norm_reading),
    ensures
        is_first_match(cands, norm_reading, first_match_index(cands, norm_reading)),
{
    let w = choose|k: int| 0 <= k < cands.len() && #[trigger] cand_matches(cands[k], norm_reading);
    let pred = |c: Seq<char>| cand_matches(c, norm_reading);
    lemma_least_index(cands, pred, w);
    let m = choose|m: int|
        0 <= m <= w && pred(cands[m]) && (forall|j: int| 0 <= j < m ==> !pred(cands[j]));
    assert(is_first_match(cands, norm_reading, m));
}

/// What parsing one glossary row yields: the card, or the failure that
/// aborts the page. The reading is the trimmed text of the row's first
/// reading element; the writing is extracted from the first candidate whose
/// normalized text contains the normalized reading.
pub open spec fn row_card_spec(row: Seq<char>, url: Seq<char>) -> Result<CardView, ErrorSpec> {
    let readings = fragment_selected(row, reading_selector_spec());
    if readings.len() == 0 {
        Err(ErrorSpec::PageError("failed to find reading"@, url))
    } else {
        let reading = trim_spec(readings[0]);
        let cands = fragment_selected(row, writing_selector_spec());
        let norm = normalize_spec(reading);
        if some_match(cands, norm) {
            match extract_spec(strip_zwsp_spec(cands[first_match_index(cands, norm)])) {
                Some(w) => Ok(CardView { html: row, reading: reading, writing: w }),
                None => Err(ErrorSpec::PageError("found no matches to writing regex"@, url)),
            }
        } else {
            Err(ErrorSpec::PageError(url, "found no writings that matched the reading"@))
        }
    }
}

/// The row fails to parse.
pub open spec fn row_fails(row: Seq<char>, url: Seq<char>) -> bool {
    row_card_spec(row, url) is Err
}

/// `k` is the first failing row.
pub open spec fn is_first_failure(rows: Seq<Seq<char>>, url: Seq<char>, k: int) -> bool {
    &&& 0 <= k < rows.len()
    &&& row_fails(rows[k], url)
    &&& forall|j: int| 0 <= j < k ==> !row_fails(rows[j], url)
}

/// What parsing a sequence of rows yields: every row's card in order, or the
/// error of the first failing row, which aborts the whole parse.
pub open spec fn parse_rows_spec(rows: Seq<Seq<char>>, url: Seq<char>) -> Result<
    Seq<CardView>,
    ErrorSpec,
> {
    if exists|k: int| 0 <= k < rows.len() && #[trigger] row_fails(rows[k], url) {
        let k = choose|k: int| is_first_failure(rows, url, k);
        Err(row_card_spec(rows[k], url)->Err_0)
    } else {
        Ok(Seq::new(rows.len(), |k: int| row_card_spec(rows[k], url)->Ok_0))
    }
}

/// What parsing a whole fetched document yields: its visible glossary rows,
/// each parsed into a card.
pub open spec fn parse_doc_spec(doc: Seq<char>, url: Seq<char>) -> Result<
    Seq<CardView>,
    ErrorSpec,
> {
    parse_rows_spec(doc_selected(doc, card_selector_spec()), url)
}

/// Parses fetched analysis pages into cards, using fixed selectors for the
/// glossary rows, the reading annotation and the candidate writings.
pub struct CardParser {
    pub card_selector: String,
    pub reading_selector: String,
    pub writing_selector: String,
}

impl CardParser {
    /// The parser holds exactly the fixed selectors.
    pub open spec fn wf(self) -> bool {
        &&& self.card_selector@ == card_selector_spec()
        &&& self.reading_selector@ == reading_selector_spec()
        &&& self.writing_selector@ == writing_selector_spec()
    }

    pub fn new() -> (r: CardParser)
        ensures
            r.wf(),
    {
        CardParser {
            card_selector: "div.gloss-row:not(.hidden)>ul>li>div".to_owned(),
            reading_selector: ".info-link".to_owned(),
            writing_selector: ".alternatives>dt".to_owned(),
        }
    }

    /// Parses one glossary row into a card, or reports why the page is
    /// malformed.
    fn parse_row(&self, row: &String, url: &str) -> (r: Result<Card, Error>)
        requires
            self.wf(),
        ensures
            match r {
                Ok(c) => row_card_spec(row@, url@) is Ok && c@ == row_card_spec(
                    row@,
                    url@,
                )->Ok_0,
                Err(e) => row_card_spec(row@, url@) is Err && e@ == row_card_spec(
                    row@,
                    url@,
                )->Err_0,
            },
    {
        let readings = select_in_fragment(row.as_str(), self.reading_selector.as_str());
        if readings.len() == 0 {
            return Err(
                Error::PageError("failed to find reading".to_owned(), url.to_owned()),
            );
        }
        let reading = trim(readings[0].as_str());
        assert(reading@ == trim_spec(readings.deep_view()[0]));
        let cands = select_in_fragment(row.as_str(), self.writing_selector.as_str());
        let norm = normalize_for_match(reading.as_str());
        let norm_chars = chars_vec(norm.as_str());
        let ghost cands_v = cands.deep_view();
        let ghost norm_v = normalize_spec(trim_spec(readings.deep_view()[0]));
        assert(norm_chars@ == norm_v);
        let mut k: usize = 0;
        while k < cands.len()
            invariant
                self.wf(),
                readings.deep_view() == fragment_selected(row@, reading_selector_spec()),
                readings.deep_view().len() > 0,
                cands_v == cands.deep_view(),
                cands_v == fragment_selected(row@, writing_selector_spec()),
                reading@ == trim_spec(readings.deep_view()[0]),
                norm_v == normalize_spec(trim_spec(readings.deep_view()[0])),
                norm_chars@ == norm_v,
                k <= cands_v.len(),
                forall|j: int| 0 <= j < k ==> !#[trigger] cand_matches(cands_v[j], norm_v),
            decreases cands_v.len() - k,
        {
            let cand_chars = chars_vec(cands[k].as_str());
            let test = filter_separators(&cand_chars);
            if contains_chars(&test, &norm_chars) {
                proof {
                    assert(cand_matches(cands_v[k as int], norm_v));
                    assert(is_first_match(cands_v, norm_v, k as int));
                    lemma_first_match(cands_v, norm_v);
                    assert(first_match_index(cands_v, norm_v) == k as int);
                }
                let block_chars = filter_zwsp(&cand_chars);
                let block = string_from_chars(&block_chars);
                assert(block@ == strip_zwsp_spec(cands_v[k as int]));
                match extract_writing(block.as_str()) {
                    Ok(w) => {
                        proof {
                            assert(extract_spec(
                                strip_zwsp_spec(cands_v[first_match_index(cands_v, norm_v)]),
                            ) == Some(w@));
                            assert(row_card_spec(row@, url@) == Ok::<CardView, ErrorSpec>(
                                CardView {
                                    html: row@,
                                    reading: trim_spec(readings.deep_view()[0]),
                                    writing: w@,
                                },
                            ));
                        }
                        return Ok(Card { html: row.clone(), reading: reading, writing: w });
                    },
                    Err(_) => {
                        proof {
                            assert(extract_spec(
                                strip_zwsp_spec(cands_v[first_match_index(cands_v, norm_v)]),
                            ) is None);
                            assert(row_card_spec(row@, url@) == Err::<CardView, ErrorSpec>(
                                ErrorSpec::PageError("found no matches to writing regex"@, url@),
                            ));
                        }
                        return Err(
                            Error::PageError(
                                "found no matches to writing regex".to_owned(),
                                url.to_owned(),
                            ),
                        );
                    },
                }
            }
            k = k + 1;
        }
        proof {
            if some_match(cands_v, norm_v) {
                let w = choose|j: int|
                    0 <= j < cands_v.len() && #[trigger] cand_matches(cands_v[j], norm_v);
                assert(!cand_matches(cands_v[w], norm_v));
            }
        }
        Err(
            Error::PageError(
                url.to_owned(),
                "found no writings that matched the reading".to_owned(),
            ),
        )
    }

    /// Parses one fetched document: every visible glossary row becomes a
    /// card, in document order, and the first malformed row aborts the whole
    /// parse with its error.
    pub fn parse(&self, document: &str, url: &str) -> (r: Result<Vec<Card>, Error>)
        requires
            self.wf(),
        ensures
            match r {
                Ok(cards) => parse_doc_spec(document@, url@) is Ok && cards.deep_view()
                    == parse_doc_spec(document@, url@)->Ok_0,
                Err(e) => parse_doc_spec(document@, url@) is Err && e@ == parse_doc_spec(
                    document@,
                    url@,
                )->Err_0,
            },
    {
        let rows = select_in_document(document, self.card_selector.as_str());
        let ghost rows_v = rows.deep_view();
        let mut cards: Vec<Card> = Vec::new();
        let mut i: usize = 0;
        while i < rows.len()
            invariant
                self.wf(),
                rows_v == rows.deep_view(),
                rows_v == doc_selected(document@, card_selector_spec()),
                i <= rows_v.len(),
                cards.deep_view().len() == i,
                forall|j: int| 0 <= j < i ==> !#[trigger] row_fails(rows_v[j], url@),
                forall|j: int|
                    0 <= j < i ==> #[trigger] cards.deep_view()[j] == row_card_spec(
                        rows_v[j],
                        url@,
                    )->Ok_0,
            decreases rows_v.len() - i,
        {
            match self.parse_row(&rows[i], url) {
                Ok(c) => {
                    let ghost prev = cards.deep_view();
                    cards.push(c);
                    proof {
                        assert(cards.deep_view() =~= prev.push(c@));
                    }
                },
                Err(e) => {
                    proof {
                        assert(row_fails(rows_v[i as int], url@));
                        let pred = |row: Seq<char>| row_fails(row, url@);
                        lemma_least_index(rows_v, pred, i as int);
                        let m = choose|m: int|
                            0 <= m <= i && pred(rows_v[m]) && (forall|j: int|
                                0 <= j < m ==> !pred(rows_v[j]));
                        assert(m == i as int);
                        assert(is_first_failure(rows_v, url@, i as int));
                        let c = choose|k: int| is_first_failure(rows_v, url@, k);
                        assert(c == i as int);
                    }
                    return Err(e);
                },
            }
            i = i + 1;
        }
        proof {
            if exists|k: int| 0 <= k < rows_v.len() && #[trigger] row_fails(rows_v[k], url@) {
                let w = choose|k: int|
                    0 <= k < rows_v.len() && #[trigger] row_fails(rows_v[k], url@);
                assert(!row_fails(rows_v[w], url@));
            }
            assert(cards.deep_view() =~= Seq::new(
                rows_v.len(),
                |k: int| row_card_spec(rows_v[k], url@)->Ok_0,
            ));
        }
        Ok(cards)
    }
}

/// Parsing is deterministic: one document and URL determine the cards, so two
/// parses of the same fetched page yield identical card sequences in the same
/// order.
pub proof fn lemma_parse_deterministic(
    doc: Seq<char>,
    url: Seq<char>,
    r1: Result<Seq<CardView>, ErrorSpec>,
    r2: Result<Seq<CardView>, ErrorSpec>,
)
    requires
        r1 == parse_doc_spec(doc, url),
        r2 == parse_doc_spec(doc, url),
    ensures
        r1 == r2,
{
}

/// The first-match policy: when two candidates both contain the normalized
/// reading, the earlier one in document order is the one whose extraction
/// becomes the card's writing — never the later one, even if it would match
/// more precisely.
pub proof fn lemma_first_match_wins(
    cands: Seq<Seq<char>>,
    norm_reading: Seq<char>,
    i: int,
    j: int,
)
    requires
        0 <= i < j < cands.len(),
        cand_matches(cands[i], norm_reading),
        cand_matches(cands[j], norm_reading),
    ensures
        first_match_index(cands, norm_reading) <= i < j,
        is_first_match(cands, norm_reading, first_match_index(cands, norm_reading)),
{
    assert(some_match(cands, norm_reading));
    lemma_first_match(cands, norm_reading);
    let m = first_match_index(cands, norm_reading);
    if m > i {
        assert(!cand_matches(cands[i], norm_reading));
    }
}

} // verus!
