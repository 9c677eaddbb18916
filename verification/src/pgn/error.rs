//! Errors of PGN tokenization and parsing.
use vstd::prelude::*;

verus! {

/// Errors that can occur while reading PGN text.
#[derive(Clone, Debug, PartialEq)]
pub enum PgnError {
    /// Move syntax did not match the SAN format.
    InvalidMove(String),
    /// A tag pair was malformed (e.g. missing brackets).
    InvalidTag(String),
    /// A comment was malformed (unclosed brace).
    InvalidComment(String),
    /// A move number was not a valid number or had a wrong suffix.
    InvalidMoveNumber(String),
    /// A castling move did not match the O-O or O-O-O pattern.
    InvalidCastlingMove(String),
    /// Unexpected characters in the input.
    InvalidToken(String),
    /// A move number out of sequence (e.g. "1. e4 1... e5").
    IncorrectMoveNumber(String),
    /// The move is illegal in the current position.
    IllegalMove(String),
    /// The move matches several legal moves.
    AmbiguousMove(String),
    /// A token in the wrong place (e.g. a tag where a move is expected).
    UnexpectedToken(String),
    /// The input ended before a required token.
    UnexpectedEndOfInput(String),
}

impl Default for PgnError {
    fn default() -> (e: Self)
        ensures
            e matches PgnError::InvalidToken(s) && s@ == Seq::<char>::empty(),
    {
        PgnError::InvalidToken(String::new())
    }
}

} // verus!
