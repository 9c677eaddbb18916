//! Piece kinds, with `Null` for an empty square.
use vstd::prelude::*;

verus! {

/// A kind of piece without color. `Null` (value 0) marks an empty square; `Pawn` .. `King`
/// have values 1 .. 6.
#[derive(Clone, Copy, PartialEq, Eq, Debug, Hash, Structural)]
pub enum Piece {
    /// Empty square placeholder (value 0).
    Null,
    /// Pawn (value 1).
    Pawn,
    /// Knight (value 2).
    Knight,
    /// Bishop (value 3).
    Bishop,
    /// Rook (value 4).
    Rook,
    /// Queen (value 5).
    Queen,
    /// King (value 6).
    King,
}

impl Piece {
    /// One past the greatest piece value.
    pub const LIMIT: u8 = 7;

    /// Selects the mask of all pieces when used as a mask index.
    pub const ALL_PIECES: Piece = Piece::Null;

    /// Every piece kind, `Null` included.
    pub const ALL: [Piece; 7] = [
        Piece::Null,
        Piece::Pawn,
        Piece::Knight,
        Piece::Bishop,
        Piece::Rook,
        Piece::Queen,
        Piece::King,
    ];

    /// Every actual piece kind (no `Null`).
    pub const PIECES: [Piece; 6] = [
        Piece::Pawn,
        Piece::Knight,
        Piece::Bishop,
        Piece::Rook,
        Piece::Queen,
        Piece::King,
    ];

    /// Every piece kind but the king.
    pub const NON_KING_PIECES: [Piece; 5] = [
        Piece::Pawn,
        Piece::Knight,
        Piece::Bishop,
        Piece::Rook,
        Piece::Queen,
    ];

    /// The pieces a pawn may promote to.
    pub const PROMOTION_PIECES: [Piece; 4] = [Piece::Knight, Piece::Bishop, Piece::Rook, Piece::Queen];

    /// The sliding pieces.
    pub const SLIDING_PIECES: [Piece; 3] = [Piece::Bishop, Piece::Rook, Piece::Queen];

    /// The value of the piece, 0 (`Null`) .. 6 (`King`).
    pub open spec fn idx(self) -> int {
        self as int
    }

    /// The piece is a bishop, rook or queen.
    pub open spec fn sliding(self) -> bool {
        self == Piece::Bishop || self == Piece::Rook || self == Piece::Queen
    }

    /// A pawn may promote to this piece.
    pub open spec fn is_promotion_target(self) -> bool {
        self == Piece::Knight || self == Piece::Bishop || self == Piece::Rook || self
            == Piece::Queen
    }

    /// The value of the piece.
    pub fn index(self) -> (r: u8)
        ensures
            r as int == self.idx(),
            r < 7,
    {
        self as u8
    }

    /// The piece with value `piece_int`.
    pub fn from(piece_int: u8) -> (p: Piece)
        requires
            piece_int < Piece::LIMIT,
        ensures
            p.idx() == piece_int,
    {
        match piece_int {
            0 => Piece::Null,
            1 => Piece::Pawn,
            2 => Piece::Knight,
            3 => Piece::Bishop,
            4 => Piece::Rook,
            5 => Piece::Queen,
            _ => Piece::King,
        }
    }

    /// Whether this is a bishop, rook or queen.
    pub fn is_sliding_piece(&self) -> (r: bool)
        ensures
            r == self.sliding(),
    {
        match *self {
            Piece::Bishop | Piece::Rook | Piece::Queen => true,
            _ => false,
        }
    }

    /// The piece named by an uppercase letter (PNBRQK); any other character gives `Null`.
    pub fn from_uppercase_char(piece_char: char) -> (p: Piece)
        ensures
            p == piece_from_upper(piece_char),
    {
        match piece_char {
            'P' => Piece::Pawn,
            'N' => Piece::Knight,
            'B' => Piece::Bishop,
            'R' => Piece::Rook,
            'Q' => Piece::Queen,
            'K' => Piece::King,
            _ => Piece::Null,
        }
    }

    /// The piece named by a lowercase letter (pnbrqk); any other character gives `Null`.
    pub fn from_lowercase_char(piece_char: char) -> (p: Piece)
        ensures
            p == piece_from_lower(piece_char),
    {
        match piece_char {
            'p' => Piece::Pawn,
            'n' => Piece::Knight,
            'b' => Piece::Bishop,
            'r' => Piece::Rook,
            'q' => Piece::Queen,
            'k' => Piece::King,
            _ => Piece::Null,
        }
    }

    /// The uppercase letter of the piece; a space for `Null`.
    pub fn uppercase_ascii(&self) -> (c: char)
        ensures
            c == piece_upper(*self),
    {
        match self {
            Piece::Null => ' ',
            Piece::Pawn => 'P',
            Piece::Knight => 'N',
            Piece::Bishop => 'B',
            Piece::Rook => 'R',
            Piece::Queen => 'Q',
            Piece::King => 'K',
        }
    }

    /// The lowercase letter of the piece; a space for `Null`.
    pub fn lowercase_ascii(&self) -> (c: char)
        ensures
            c == piece_lower(*self),
    {
        match self {
            Piece::Null => ' ',
            Piece::Pawn => 'p',
            Piece::Knight => 'n',
            Piece::Bishop => 'b',
            Piece::Rook => 'r',
            Piece::Queen => 'q',
            Piece::King => 'k',
        }
    }

    /// The outlined (white) chess symbol of the piece; a space for `Null`.
    pub fn unfilled_unicode(&self) -> (c: char)
        ensures
            c == piece_unfilled(*self),
    {
        match self {
            Piece::Null => ' ',
            Piece::Pawn => '\u{2659}',
            Piece::Knight => '\u{2658}',
            Piece::Bishop => '\u{2657}',
            Piece::Rook => '\u{2656}',
            Piece::Queen => '\u{2655}',
            Piece::King => '\u{2654}',
        }
    }

    /// The filled (black) chess symbol of the piece; a space for `Null`.
    pub fn filled_unicode(&self) -> (c: char)
        ensures
            c == piece_filled(*self),
    {
        match self {
            Piece::Null => ' ',
            Piece::Pawn => '\u{265F}',
            Piece::Knight => '\u{265E}',
            Piece::Bishop => '\u{265D}',
            Piece::Rook => '\u{265C}',
            Piece::Queen => '\u{265B}',
            Piece::King => '\u{265A}',
        }
    }
}

/// The piece named by an uppercase letter, `Null` for any other character.
pub open spec fn piece_from_upper(c: char) -> Piece {
    if c == 'P' {
        Piece::Pawn
    } else if c == 'N' {
        Piece::Knight
    } else if c == 'B' {
        Piece::Bishop
    } else if c == 'R' {
        Piece::Rook
    } else if c == 'Q' {
        Piece::Queen
    } else if c == 'K' {
        Piece::King
    } else {
        Piece::Null
    }
}

/// The piece named by a lowercase letter, `Null` for any other character.
pub open spec fn piece_from_lower(c: char) -> Piece {
    if c == 'p' {
        Piece::Pawn
    } else if c == 'n' {
        Piece::Knight
    } else if c == 'b' {
        Piece::Bishop
    } else if c == 'r' {
        Piece::Rook
    } else if c == 'q' {
        Piece::Queen
    } else if c == 'k' {
        Piece::King
    } else {
        Piece::Null
    }
}

/// The uppercase letter of a piece.
pub open spec fn piece_upper(p: Piece) -> char {
    match p {
        Piece::Null => ' ',
        Piece::Pawn => 'P',
        Piece::Knight => 'N',
        Piece::Bishop => 'B',
        Piece::Rook => 'R',
        Piece::Queen => 'Q',
        Piece::King => 'K',
    }
}

/// The lowercase letter of a piece.
pub open spec fn piece_lower(p: Piece) -> char {
    match p {
        Piece::Null => ' ',
        Piece::Pawn => 'p',
        Piece::Knight => 'n',
        Piece::Bishop => 'b',
        Piece::Rook => 'r',
        Piece::Queen => 'q',
        Piece::King => 'k',
    }
}

/// The outlined chess symbol of a piece.
pub open spec fn piece_unfilled(p: Piece) -> char {
    match p {
        Piece::Null => ' ',
        Piece::Pawn => '\u{2659}',
        Piece::Knight => '\u{2658}',
        Piece::Bishop => '\u{2657}',
        Piece::Rook => '\u{2656}',
        Piece::Queen => '\u{2655}',
        Piece::King => '\u{2654}',
    }
}

/// The filled chess symbol of a piece.
pub open spec fn piece_filled(p: Piece) -> char {
    match p {
        Piece::Null => ' ',
        Piece::Pawn => '\u{265F}',
        Piece::Knight => '\u{265E}',
        Piece::Bishop => '\u{265D}',
        Piece::Rook => '\u{265C}',
        Piece::Queen => '\u{265B}',
        Piece::King => '\u{265A}',
    }
}

} // verus!
