//! The section of a PGN game the parser is in.
use vstd::prelude::*;

verus! {

/// Current section of the PGN text being parsed.
#[derive(Clone, Copy, Debug, PartialEq, Eq, Structural)]
pub enum PgnParsingState {
    /// Tag pairs at the beginning (e.g. `[Event "..."]`).
    Tags,
    /// Move text and variations.
    Moves {
        /// Whether the previous token was a move number.
        move_number_just_seen: bool,
    },
    /// The game result token (1-0, 0-1, 1/2-1/2, *) has been read.
    ResultFound,
}

} // verus!
