//! The failure taxonomy of the whole run: every component reports its failure
//! as one of these variants, and no component recovers locally.

use vstd::prelude::*;

verus! {

/// Everything that can go wrong during a run, with enough context (the
/// offending URL and a human-readable reason) to report it and abort.
#[derive(Debug, PartialEq, Eq)]
pub enum Error {
    /// Reading the input source failed; the payload is the reported reason.
    InputError(String),
    /// The remote service could not be reached; the payload is the reported
    /// reason.
    FetchError(String),
    /// A fetched page did not have the expected structure. The two payloads
    /// are a reason and the offending URL, in the order each failure site
    /// chooses.
    PageError(String, String),
    /// The writing extractor found no run of characters to extract.
    ExtractionError,
    /// The deck-writer sink failed to produce the package file; the payload is
    /// the reported reason.
    DeckWriteError(String),
    /// The configured output path is not representable as text; the payload is
    /// its lossy rendering.
    InvalidOutputPath(String),
}

/// The mathematical shape of an [`Error`]: the same variants over character
/// sequences.
pub ghost enum ErrorSpec {
    InputError(Seq<char>),
    FetchError(Seq<char>),
    PageError(Seq<char>, Seq<char>),
    ExtractionError,
    DeckWriteError(Seq<char>),
    InvalidOutputPath(Seq<char>),
}

impl View for Error {
    type V = ErrorSpec;

    open spec fn view(&self) -> ErrorSpec {
        match self {
            Error::InputError(m) => ErrorSpec::InputError(m@),
            Error::FetchError(m) => ErrorSpec::FetchError(m@),
            Error::PageError(a, b) => ErrorSpec::PageError(a@, b@),
            Error::ExtractionError => ErrorSpec::ExtractionError,
            Error::DeckWriteError(m) => ErrorSpec::DeckWriteError(m@),
            Error::InvalidOutputPath(p) => ErrorSpec::InvalidOutputPath(p@),
        }
    }
}

} // verus!
