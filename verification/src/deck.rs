//! The deck builder: accumulates cards, silently dropping every card whose
//! writing was already accepted, and keeps the surviving (front, back) note
//! pairs for the outside deck-writer sink to serialize.
//!
//! The front of a note is the card's writing when the writing-front flag of
//! the options is set, its reading otherwise; the back is always the row's
//! raw markup.

use vstd::prelude::*;
use vstd::string::StringExecFns;
use crate::card::Card;
use crate::card::CardView;
use crate::cli::Options;

verus! {

/// One note handed to the deck-writer sink: a front text and a back text.
pub struct Note {
    pub front: String,
    pub back: String,
}

/// The mathematical shape of a [`Note`].
pub ghost struct NoteView {
    pub front: Seq<char>,
    pub back: Seq<char>,
}

impl View for Note {
    type V = NoteView;

    open spec fn view(&self) -> NoteView {
        NoteView { front: self.front@, back: self.back@ }
    }
}

impl DeepView for Note {
    type V = NoteView;

    open spec fn deep_view(&self) -> NoteView {
        self.view()
    }
}

/// The accumulated state of a deck: the notes in acceptance order, and the
/// writings accepted so far.
pub ghost struct DeckState {
    pub notes: Seq<NoteView>,
    pub used: Seq<Seq<char>>,
}

/// The deck state before any card was added.
pub open spec fn empty_deck() -> DeckState {
    DeckState { notes: Seq::empty(), used: Seq::empty() }
}

/// The note a card turns into: writing or reading on the front, the row's
/// raw markup on the back.
pub open spec fn note_for(c: CardView, writing_front: bool) -> NoteView {
    NoteView { front: if writing_front { c.writing } else { c.reading }, back: c.html }
}

/// Adding a card to a deck state: a card whose writing was already accepted
/// is dropped silently, any other card appends its note and its writing.
pub open spec fn deck_add(s: DeckState, c: CardView, writing_front: bool) -> DeckState {
    if s.used.contains(c.writing) {
        s
    } else {
        DeckState { notes: s.notes.push(note_for(c, writing_front)), used: s.used.push(c.writing) }
    }
}

/// `s` occurs in `v`.
fn contains_string(v: &Vec<String>, s: &String) -> (r: bool)
    ensures
        r == v.deep_view().contains(s@),
{
    let mut i: usize = 0;
    while i < v.len()
        invariant
            i <= v@.len(),
            forall|j: int| 0 <= j < i ==> v.deep_view()[j] != s@,
        decreases v@.len() - i,
    {
        if v[i] == *s {
            assert(v.deep_view()[i as int] == s@);
            return true;
        }
        i = i + 1;
    }
    proof {
        if v.deep_view().contains(s@) {
            let w = choose|j: int| 0 <= j < v.deep_view().len() && v.deep_view()[j] == s@;
            assert(v.deep_view()[w] != s@);
        }
    }
    false
}

/// Accumulates unique cards as notes; the underlying deck, model and package
/// serialization belong to the outside deck-writer sink, which receives the
/// notes, the name, the description and the stylesheet when the run saves.
pub struct DeckBuilder {
    pub used: Vec<String>,
    pub notes: Vec<Note>,
    pub name: String,
    pub description: String,
    pub css: String,
    pub options: Options,
}

impl DeckBuilder {
    /// The builder's accumulated deck state.
    pub open spec fn state(self) -> DeckState {
        DeckState { notes: self.notes.deep_view(), used: self.used.deep_view() }
    }

    /// No two accepted cards share a writing, and each accepted card left one
    /// note.
    pub open spec fn wf(self) -> bool {
        &&& forall|i: int, j: int|
            0 <= i < j < self.used.deep_view().len() ==> self.used.deep_view()[i]
                != self.used.deep_view()[j]
        &&& self.notes@.len() == self.used@.len()
    }

    /// Builds an empty deck. The stylesheet handed in (fetched once by the
    /// caller) is stored prefixed with a fixed color-reset rule.
    pub fn new(name: String, description: String, css: String, options: Options) -> (r:
        DeckBuilder)
        ensures
            r.wf(),
            r.state() == empty_deck(),
            r.name@ == name@,
            r.description@ == description@,
            r.css@ == "<style>* { color: black }</style>"@ + css@,
            r.options == options,
    {
        let mut full_css = "<style>* { color: black }</style>".to_owned();
        full_css.append(css.as_str());
        let r = DeckBuilder {
            used: Vec::new(),
            notes: Vec::new(),
            name,
            description,
            css: full_css,
            options,
        };
        proof {
            assert(r.used.deep_view() =~= Seq::<Seq<char>>::empty());
            assert(r.notes.deep_view() =~= Seq::<NoteView>::empty());
        }
        r
    }

    /// Adds one card: a duplicate writing is dropped silently, anything else
    /// becomes a note whose front is the writing or the reading, per the
    /// options, and whose back is the card's raw markup.
    pub fn add(&mut self, card: Card)
        requires
            old(self).wf(),
        ensures
            final(self).wf(),
            final(self).state() == deck_add(old(self).state(), card@, old(self).options.writing),
            final(self).name == old(self).name,
            final(self).description == old(self).description,
            final(self).css == old(self).css,
            final(self).options == old(self).options,
    {
        if !contains_string(&self.used, &card.writing) {
            let ghost prev = self.state();
            let front = if self.options.writing {
                card.writing.clone()
            } else {
                card.reading.clone()
            };
            let note = Note { front, back: card.html };
            assert(note@ == note_for(card@, self.options.writing));
            self.notes.push(note);
            self.used.push(card.writing);
            proof {
                assert(self.notes.deep_view() =~= prev.notes.push(
                    note_for(card@, self.options.writing),
                ));
                assert(self.used.deep_view() =~= prev.used.push(card@.writing));
            }
        }
    }

    /// The number of distinct writings accepted so far, which is also the
    /// number of notes.
    pub fn len(&self) -> (r: usize)
        ensures
            r == self.state().used.len(),
    {
        self.used.len()
    }
}

/// Deduplication: two cards with the same writing leave exactly one note in a
/// fresh deck, whichever order they arrive in; the order only decides whose
/// fields the surviving note carries — the first arrival wins.
pub proof fn lemma_deck_dedup(writing_front: bool, c1: CardView, c2: CardView)
    requires
        c1.writing == c2.writing,
    ensures
        ({
            let once = deck_add(deck_add(empty_deck(), c1, writing_front), c2, writing_front);
            let other = deck_add(deck_add(empty_deck(), c2, writing_front), c1, writing_front);
            &&& once.notes.len() == 1
            &&& other.notes.len() == 1
            &&& once.used.len() == 1
            &&& other.used.len() == 1
            &&& once.notes[0] == note_for(c1, writing_front)
            &&& other.notes[0] == note_for(c2, writing_front)
        }),
{
    assert(!empty_deck().used.contains(c1.writing));
    assert(!empty_deck().used.contains(c2.writing));
    let s1 = deck_add(empty_deck(), c1, writing_front);
    assert(s1.used.contains(c2.writing)) by {
        assert(s1.used[0] == c2.writing);
    }
    let s2 = deck_add(empty_deck(), c2, writing_front);
    assert(s2.used.contains(c1.writing)) by {
        assert(s2.used[0] == c1.writing);
    }
}

} // verus!
