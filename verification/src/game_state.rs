//! Game state tracking: a game still in progress, or a finished one with the reason it ended.
use vstd::prelude::*;
use crate::bitboard::{bb_has, group_has, pop, lemma_squares_ext};
use crate::board_checks::insufficient;
use crate::types::{Color, Move, MoveList, Piece};
use crate::position::state::{Position, ZobristPolicy};
use crate::position::pins::{kings_of, pins_checks_ok};
use crate::position::make_move::{make_post, move_ok, after_piece, after_color};
use crate::position::move_generation::{gen_ok, emitted_ok, safety_grounded, is_legal};

verus! {

broadcast use group_has;

/// Reasons why a chess game can end (win, loss, or draw).
#[derive(Clone, Copy, Debug, PartialEq, Eq, Structural)]
pub enum TerminalReason {
    /// The side to move has no legal move and is in check.
    Checkmate,
    /// The side to move has no legal move and is not in check.
    Stalemate,
    /// Neither side has enough material to checkmate.
    InsufficientMaterial,
    /// 100 half-moves without a capture or a pawn move.
    FiftyMoveRule,
    /// The same position occurred three times.
    ThreefoldRepetition,
    /// Another draw, by agreement or by rule.
    OtherDraw,
    /// A win for another reason (resignation, time).
    Win,
    /// A loss for another reason (resignation, time).
    OtherLoss,
    /// An unclassified end.
    Unknown,
}

/// A position where the game is still in progress.
#[derive(Clone, Debug, PartialEq, Eq)]
pub struct Ongoing<P>(P);

/// A position where the game has ended, with the reason it ended.
#[derive(Clone, Debug, PartialEq, Eq)]
pub struct Terminal<P> {
    position: P,
    reason: TerminalReason,
}

/// Either a game in progress or a finished one.
#[derive(Clone, Debug, PartialEq, Eq)]
pub enum GameState<P> {
    /// The game continues from the wrapped position.
    Ongoing(Ongoing<P>),
    /// The game has ended at the wrapped position.
    Terminal(Terminal<P>),
}

impl<P> Ongoing<P> {
    /// The wrapped position.
    pub closed spec fn held(self) -> P {
        self.0
    }

    /// Wraps a position as a game in progress.
    pub fn new(position: P) -> (r: Self)
        ensures
            r.held() == position,
    {
        Ongoing(position)
    }

    /// Consumes the wrapper and returns the position.
    pub fn into_position(self) -> (p: P)
        ensures
            p == self.held(),
    {
        self.0
    }

    /// Borrows the position.
    pub fn position(&self) -> (p: &P)
        ensures
            *p == self.held(),
    {
        &self.0
    }
}

impl<P> Terminal<P> {
    /// The final position.
    pub closed spec fn held(self) -> P {
        self.position
    }

    /// The reason the game ended.
    pub closed spec fn held_reason(self) -> TerminalReason {
        self.reason
    }

    /// Wraps a final position together with the reason the game ended.
    pub fn new(position: P, reason: TerminalReason) -> (r: Self)
        ensures
            r.held() == position,
            r.held_reason() == reason,
    {
        Terminal { position, reason }
    }

    /// The reason the game ended.
    pub fn reason(&self) -> (r: TerminalReason)
        ensures
            r == self.held_reason(),
    {
        self.reason
    }

    /// Borrows the final position.
    pub fn position(&self) -> (p: &P)
        ensures
            *p == self.held(),
    {
        &self.position
    }

    /// Consumes the wrapper and returns the position and the reason.
    pub fn into_parts(self) -> (r: (P, TerminalReason))
        ensures
            r == (self.held(), self.held_reason()),
    {
        (self.position, self.reason)
    }
}

impl<P> GameState<P> {
    /// The wrapped position, whichever the variant.
    pub open spec fn held(self) -> P {
        match self {
            GameState::Ongoing(o) => o.held(),
            GameState::Terminal(t) => t.held(),
        }
    }

    /// A game in progress at `position`.
    pub fn from_ongoing(position: P) -> (r: Self)
        ensures
            r is Ongoing,
            r.held() == position,
    {
        GameState::Ongoing(Ongoing::new(position))
    }

    /// A game that ended at `position` for `reason`.
    pub fn from_terminal(position: P, reason: TerminalReason) -> (r: Self)
        ensures
            r matches GameState::Terminal(t) && t.held_reason() == reason,
            r.held() == position,
    {
        GameState::Terminal(Terminal::new(position, reason))
    }

    /// Consumes the state and returns the position.
    pub fn into_position(self) -> (p: P)
        ensures
            p == self.held(),
    {
        match self {
            GameState::Ongoing(ongoing) => ongoing.into_position(),
            GameState::Terminal(terminal) => terminal.into_parts().0,
        }
    }

    /// Borrows the position, whichever the variant.
    pub fn position(&self) -> (p: &P)
        ensures
            *p == self.held(),
    {
        match self {
            GameState::Ongoing(ongoing) => ongoing.position(),
            GameState::Terminal(terminal) => terminal.position(),
        }
    }
}

/// What the classification of `q` may answer: the fifty-move rule first, then insufficient
/// material (FIDE rules), then, when the side to move has no legal move, checkmate or stalemate
/// according to whether it is in check, and "still in progress" only when it has a move the
/// generator produces (a legal one when `safety_grounded` holds).
pub open spec fn verdict_ok<Z: ZobristPolicy>(q: Position<Z>, v: Option<TerminalReason>) -> bool {
    if q.ctx().halfmove_clock >= 100 {
        v == Some(TerminalReason::FiftyMoveRule)
    } else if insufficient(q.board, false) {
        v == Some(TerminalReason::InsufficientMaterial)
    } else {
        match v {
            None => exists|m: Move| #[trigger] emitted_ok(q, m),
            Some(TerminalReason::Checkmate) => q.ctx().checkers != 0 && forall|m: Move| !#[trigger] is_legal(q, m),
            Some(TerminalReason::Stalemate) => q.ctx().checkers == 0 && forall|m: Move| !#[trigger] is_legal(q, m),
            _ => false,
        }
    }
}

/// The position can be searched for legal moves: it is consistent, the side to move has one
/// king, and the recorded pins and checks are those of the board.
pub open spec fn classifiable<Z: ZobristPolicy>(q: Position<Z>) -> bool {
    &&& q.wf()
    &&& pop(kings_of(q.board, q.stm())) == 1
    &&& pins_checks_ok(q.board, q.stm(), q.ctx().pinned, q.ctx().checkers)
}

/// Decides whether the game has ended at `position`, and why.
fn classify_terminal<Z: ZobristPolicy>(position: &Position<Z>) -> (r: Option<TerminalReason>)
    requires
        classifiable(*position),
    ensures
        verdict_ok(*position, r),
{
    if position.context().halfmove_clock >= 100 {
        return Some(TerminalReason::FiftyMoveRule);
    }
    if position.board.are_both_sides_insufficient_material(false) {
        return Some(TerminalReason::InsufficientMaterial);
    }
    let mut replies = MoveList::new();
    position.generate_moves(&mut replies);
    if replies.len() == 0 {
        if position.is_current_side_in_check() {
            Some(TerminalReason::Checkmate)
        } else {
            Some(TerminalReason::Stalemate)
        }
    } else {
        proof {
            assert(emitted_ok(*position, replies@[0]));
        }
        None
    }
}

/// The squares of `c`'s kings on a consistent board are the squares holding a king of `c`.
pub proof fn lemma_kings_of(b: crate::board::Board, c: Color, s: int)
    requires
        b.wf(),
        0 <= s < 64,
    ensures
        bb_has(kings_of(b, c), s) == (b.piece(s) == Piece::King && b.color(s) == c),
{
    assert(b.square_ok(s));
    assert(bb_has(b.pm(6), s) == (b.piece(s).idx() == 6));
}

/// A move that does not land on a king leaves the opposing kings where they were.
pub proof fn lemma_opposing_kings_kept<Z: ZobristPolicy>(p: Position<Z>, m: Move, q: Position<Z>)
    requires
        p.wf(),
        move_ok(p.board, p.stm(), m),
        p.board.piece(m.to_spec().idx()) != Piece::King,
        make_post(p, m, q),
    ensures
        kings_of(q.board, q.stm()) == kings_of(p.board, p.stm().opp()),
{
    let c = p.stm().opp();
    assert forall|s: int| 0 <= s < 64 implies #[trigger] bb_has(kings_of(q.board, c), s) == bb_has(
        kings_of(p.board, c),
        s,
    ) by {
        lemma_kings_of(q.board, c, s);
        lemma_kings_of(p.board, c, s);
        assert(q.board.piece(s) == after_piece(p.board, p.stm(), m, s));
        if after_piece(p.board, p.stm(), m, s) != Piece::Null {
            assert(q.board.color(s) == after_color(p.board, p.stm(), m, s));
        }
    }
    lemma_squares_ext(kings_of(q.board, c), kings_of(p.board, c));
}

impl<Z: ZobristPolicy> Ongoing<Position<Z>> {
    /// Appends the legal moves of the side to move to `moves`.
    pub fn legal_moves(&self, moves: &mut MoveList)
        requires
            classifiable(self.held()),
        ensures
            final(moves)@.len() >= old(moves)@.len(),
            final(moves)@.subrange(0, old(moves)@.len() as int) == old(moves)@,
            forall|i: int|
                old(moves)@.len() <= i < final(moves)@.len() ==> gen_ok(
                    self.held(),
                    #[trigger] final(moves)@[i],
                ),
            safety_grounded(self.held()) ==> forall|i: int|
                old(moves)@.len() <= i < final(moves)@.len() ==> is_legal(
                    self.held(),
                    #[trigger] final(moves)@[i],
                ),
            forall|m: Move| #[trigger] is_legal(self.held(), m) ==> exists|i: int|
                old(moves)@.len() <= i < final(moves)@.len() && final(moves)@[i] == m,
    {
        self.0.generate_moves(moves);
    }

    /// Plays `move_` and returns the next state, without asking whether the game ended.
    pub fn play_unchecked(self, move_: Move) -> (r: Ongoing<Position<Z>>)
        requires
            self.held().wf(),
            move_ok(self.held().board, self.held().stm(), move_),
            self.held().ctx().halfmove_clock < 255,
            self.held().halfmove < u16::MAX,
        ensures
            make_post(self.held(), move_, r.held()),
    {
        let mut position = self.0;
        position.make_move(move_);
        Ongoing(position)
    }

    /// Plays `move_`, then classifies whether the game has ended in the resulting position.
    pub fn play_and_classify(self, move_: Move) -> (r: GameState<Position<Z>>)
        requires
            self.held().wf(),
            move_ok(self.held().board, self.held().stm(), move_),
            self.held().ctx().halfmove_clock < 255,
            self.held().halfmove < u16::MAX,
            pop(kings_of(self.held().board, self.held().stm().opp())) == 1,
            self.held().board.piece(move_.to_spec().idx()) != Piece::King,
        ensures
            make_post(self.held(), move_, r.held()),
            match r {
                GameState::Ongoing(o) => verdict_ok(o.held(), None),
                GameState::Terminal(t) => verdict_ok(t.held(), Some(t.held_reason())),
            },
    {
        let ghost p = self.held();
        let next = self.play_unchecked(move_).into_position();
        proof {
            lemma_opposing_kings_kept(p, move_, next);
        }
        match classify_terminal(&next) {
            Some(reason) => GameState::from_terminal(next, reason),
            None => GameState::from_ongoing(next),
        }
    }
}

} // verus!
