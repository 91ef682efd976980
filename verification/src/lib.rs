//! Turns lists of Japanese words into flashcards: each word is looked up on a
//! morphological-analysis web page, the glossary rows of the fetched document
//! are parsed into cards by pairing each row's reading with the one candidate
//! writing that textually matches it, and the unique cards are assembled into
//! a deck whose notes an outside sink serializes to a package file.
//!
//! The parsing, normalization, extraction and deduplication logic lives here
//! and is verified; fetching, argument handling and package serialization are
//! left to the surrounding program.

pub mod card;
pub mod cli;
pub mod deck;
pub mod error;
pub mod extract;
pub mod text;
