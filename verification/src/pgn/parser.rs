//! Reading PGN text into the tags and the move tree of a game.
use vstd::prelude::*;
use vstd::string::StringExecFns;
use crate::bitboard::{count_squares, pop};
use crate::types::{Color, Move, MoveList, Piece};
use crate::position::state::Position;
use crate::position::pins::kings_of;
use crate::position::perft::{searchable, same_state, lemma_searchable_same, lemma_initial_grounded, lemma_initial_searchable};
use crate::position::move_generation::{gen_ok, is_legal, ep_consistent, lemma_legal_move_keeps_grounded, sound_position};
use crate::position::make_move::make_post;
use crate::fen::str_chars;
use crate::text::{push_char, push_str};
use crate::pgn::error::PgnError;
use crate::pgn::parsing_state::PgnParsingState;
use crate::pgn::object::{PgnObject, tag_entries};
use crate::pgn::tree::PgnMoveData;
use crate::pgn::moves::PgnMove;
use crate::pgn::metadata::{PgnTag, PgnMoveNumber};
use crate::pgn::lexer::{PgnToken, next_token, token_end, token_result_ok};
use crate::pgn::metadata::skip;
use crate::pgn::move_info::ws_class;

verus! {

/// Where the parser stands: the node reached, the position after its move, and the node and
/// position before that move (forgotten at the start of a variation).
pub struct PgnCursor {
    /// The node reached.
    pub node: usize,
    /// The position at that node.
    pub position: Position,
    /// The node and position one move earlier.
    pub previous: Option<(usize, Position)>,
}

/// The cursor points into a tree of `nodes` nodes, at sound positions that can be searched.
pub open spec fn cursor_ok(c: PgnCursor, nodes: int) -> bool {
    &&& c.node < nodes
    &&& searchable(c.position, 0)
    &&& sound_position(c.position)
    &&& (c.previous matches Some((n, p)) ==> n < nodes && searchable(p, 0) && sound_position(p))
}

/// Positions in the same state are equally sound.
proof fn lemma_sound_same(p: Position, q: Position)
    requires
        same_state(p, q),
        searchable(p, 0),
        sound_position(p),
    ensures
        sound_position(q),
{
    lemma_searchable_same(p, q, 0);
    assert(q.ctx() == p.ctx());
    assert(ep_consistent(q) == ep_consistent(p));
}

/// A copy of a position that can be searched.
fn copy_position(p: &Position) -> (q: Position)
    requires
        searchable(*p, 0),
    ensures
        searchable(q, 0),
        same_state(*p, q),
        sound_position(*p) ==> sound_position(q),
{
    let q = p.duplicate();
    proof {
        lemma_searchable_same(*p, q, 0);
        if sound_position(*p) {
            lemma_sound_same(*p, q);
        }
    }
    q
}

/// `prefix` followed by the characters of `text`.
fn message(prefix: &str, text: &Vec<char>) -> (s: String)
    ensures
        s@ == prefix@ + text@,
{
    let mut s = String::from_str(prefix);
    let ghost p = s@;
    let mut i: usize = 0;
    while i < text.len()
        invariant
            i <= text.len(),
            p == prefix@,
            s@ == p + text@.subrange(0, i as int),
        decreases text.len() - i,
    {
        push_char(&mut s, text[i]);
        proof {
            assert(text@.subrange(0, i + 1) == text@.subrange(0, i as int).push(text@[i as int]));
            assert(s@ =~= p + text@.subrange(0, i + 1));
        }
        i = i + 1;
    }
    proof {
        assert(text@.subrange(0, text@.len() as int) =~= text@);
    }
    s
}

/// `m` is a legal move of `p` that the PGN move writes.
pub open spec fn writes<M: PgnMove>(pgn_move: M, p: Position, m: Move) -> bool {
    is_legal(p, m) && pgn_move.denotes(m, p.board)
}

/// How many legal moves of `p` the PGN move writes, counted up to two.
pub open spec fn moves_written<M: PgnMove>(pgn_move: M, p: Position) -> int {
    if exists|a: Move, b: Move| a != b && #[trigger] writes(pgn_move, p, a) && #[trigger] writes(pgn_move, p, b) {
        2
    } else if exists|a: Move| #[trigger] writes(pgn_move, p, a) {
        1
    } else {
        0
    }
}

/// The PGN move writes exactly one legal move of `p`.
pub open spec fn single_move_written<M: PgnMove>(pgn_move: M, p: Position) -> bool {
    moves_written(pgn_move, p) == 1
}

/// The legal move of `p` the PGN move writes, when there is one.
pub open spec fn written_move<M: PgnMove>(pgn_move: M, p: Position) -> Move {
    choose|m: Move| #[trigger] writes(pgn_move, p, m)
}

/// Two different written moves make the PGN move ambiguous.
proof fn lemma_two_written<M: PgnMove>(pgn_move: M, p: Position, a: Move, b: Move)
    requires
        a != b,
        writes(pgn_move, p, a),
        writes(pgn_move, p, b),
    ensures
        moves_written(pgn_move, p) == 2,
{
}

/// A count of at least one has a written move.
proof fn lemma_some_written<M: PgnMove>(pgn_move: M, p: Position)
    requires
        moves_written(pgn_move, p) >= 1,
    ensures
        exists|m: Move| #[trigger] writes(pgn_move, p, m),
{
}

/// A move written, with no other, is the single written move.
proof fn lemma_single_written<M: PgnMove>(pgn_move: M, p: Position, m: Move)
    requires
        writes(pgn_move, p, m),
        forall|x: Move| #[trigger] writes(pgn_move, p, x) ==> x == m,
    ensures
        single_move_written(pgn_move, p),
        written_move(pgn_move, p) == m,
{
    assert(!exists|a: Move, b: Move| a != b && #[trigger] writes(pgn_move, p, a) && #[trigger] writes(pgn_move, p, b));
}

/// The parser of one PGN game.
pub struct PgnParser {
    /// The characters of the text.
    pub chars: Vec<char>,
    /// Where reading resumes.
    pub pos: usize,
    /// The section of the game being read.
    pub parse_state: PgnParsingState,
    /// The game read so far.
    pub constructed_object: PgnObject,
    /// Where the parser stands.
    pub current: PgnCursor,
    /// The cursors to return to when the open variations end, innermost last.
    pub stack: Vec<PgnCursor>,
}

impl PgnParser {
    /// The tree is consistent, and the current cursor and those of the open variations point
    /// into it at searchable positions.
    pub open spec fn wf(&self) -> bool {
        let n = self.constructed_object.tree_root.nodes@.len() as int;
        &&& self.constructed_object.tree_root.wf()
        &&& self.pos <= self.chars.len()
        &&& cursor_ok(self.current, n)
        &&& forall|i: int| 0 <= i < self.stack@.len() ==> cursor_ok(#[trigger] self.stack@[i], n)
    }

    /// The section of the game being read.
    pub open spec fn state_spec(&self) -> PgnParsingState {
        self.parse_state
    }

    /// The game read so far.
    pub open spec fn object_spec(&self) -> PgnObject {
        self.constructed_object
    }

    /// The number of variations opened and not yet closed.
    pub open spec fn open_variations(&self) -> nat {
        self.stack@.len()
    }

    /// `other` is this parser with possibly another section being read and another reading
    /// position.
    pub open spec fn same_but_state(self, other: PgnParser) -> bool {
        &&& other.constructed_object == self.constructed_object
        &&& other.current == self.current
        &&& other.stack == self.stack
    }

    /// The side to move may make a move now: after a move number, or with Black to move.
    pub open spec fn in_turn(self) -> bool {
        match self.parse_state {
            PgnParsingState::Moves { move_number_just_seen } => move_number_just_seen || self.current.position.stm()
                == Color::Black,
            _ => false,
        }
    }

    /// The move `m` can be played now: it is in turn, writes exactly one legal move, and the
    /// game and the tree have room for one more move.
    pub open spec fn move_ok<M: PgnMove>(self, m: M) -> bool {
        let p = self.current.position;
        &&& self.in_turn()
        &&& single_move_written(m, p)
        &&& p.ctx().halfmove_clock < 255
        &&& p.halfmove < u16::MAX
        &&& self.constructed_object.tree_root.nodes@.len() < usize::MAX
    }

    /// `b` is this parser after playing the move `m` written by the PGN move: a new node under
    /// the current one holds it, and the cursor moves there, remembering where it was.
    pub open spec fn move_step<M: PgnMove>(self, pgn_move: M, b: PgnParser) -> bool {
        let p = self.current.position;
        let m = written_move(pgn_move, p);
        let t0 = self.constructed_object.tree_root.nodes@;
        let t1 = b.constructed_object.tree_root.nodes@;
        let parent = self.current.node as int;
        &&& t1.len() == t0.len() + 1
        &&& t1.last().move_data matches Some(d) && d.move_ == m && d.nag == pgn_move.info().nag
            && d.annotation == pgn_move.info().annotation
        &&& t1[parent].continuations@ == t0[parent].continuations@.push(t0.len() as usize)
        &&& forall|i: int| 0 <= i < t0.len() && i != parent ==> #[trigger] t1[i] == t0[i]
        &&& b.current.node == t0.len()
        &&& make_post(p, m, b.current.position)
        &&& b.current.previous matches Some((n, q)) && n == self.current.node && same_state(p, q)
        &&& b.stack == self.stack
        &&& b.parse_state == (PgnParsingState::Moves { move_number_just_seen: false })
        &&& b.constructed_object.tags == self.constructed_object.tags
    }

    /// Where the next token starts.
    pub open spec fn token_start(self) -> int {
        skip(self.chars@, self.pos as int, ws_class())
    }

    /// Only whitespace is left to read.
    pub open spec fn at_end(self) -> bool {
        self.token_start() >= self.chars@.len()
    }

    /// Where the next token ends.
    pub open spec fn token_stop(self) -> int {
        token_end(self.chars@, self.token_start())
    }

    /// The next token reads as `tok`.
    pub open spec fn reads(self, tok: Result<PgnToken, PgnError>) -> bool {
        &&& !self.at_end()
        &&& token_result_ok(self.chars@.subrange(self.token_start(), self.token_stop()), tok)
    }

    /// The game may end here: no variation is open and no move number waits for its move.
    pub open spec fn end_ok(self) -> bool {
        &&& self.stack@.len() == 0
        &&& self.parse_state != (PgnParsingState::Moves { move_number_just_seen: true })
    }

    /// The token `tok` is accepted in this parser's state.
    pub open spec fn step_ok(self, tok: PgnToken) -> bool {
        let after_move = self.parse_state == (PgnParsingState::Moves { move_number_just_seen: false });
        match tok {
            PgnToken::Tag(_) => self.parse_state == PgnParsingState::Tags,
            PgnToken::MoveNumber(n) => (self.parse_state == PgnParsingState::Tags || after_move)
                && n.fullmove_number == self.current_fullmove(),
            PgnToken::NonCastlingMove(m) => self.move_ok(m),
            PgnToken::CastlingMove(m) => self.move_ok(m),
            PgnToken::StartVariation => after_move && self.current.previous is Some,
            PgnToken::EndVariation => after_move && self.stack@.len() > 0,
            PgnToken::Comment(_) => true,
            PgnToken::Result(_) => after_move,
            PgnToken::Incomplete => after_move,
        }
    }

    /// `b` is this parser after accepting the token `tok`.
    pub open spec fn step_post(self, tok: PgnToken, b: PgnParser) -> bool {
        match tok {
            PgnToken::Tag(tag) => {
                let e0 = tag_entries(self.constructed_object.tags);
                let e1 = tag_entries(b.constructed_object.tags);
                &&& b.parse_state == self.parse_state
                &&& b.current == self.current
                &&& b.stack == self.stack
                &&& b.constructed_object.tree_root == self.constructed_object.tree_root
                &&& forall|i: int|
                    0 <= i < e0.len() && #[trigger] e0[i].0 == tag.name@ ==> e1 == e0.update(i, (tag.name@, tag.value@))
                &&& (forall|i: int| 0 <= i < e0.len() ==> #[trigger] e0[i].0 != tag.name@) ==> e1 == e0.push(
                    (tag.name@, tag.value@),
                )
            },
            PgnToken::MoveNumber(_) => self.same_but_state(b) && b.parse_state == (PgnParsingState::Moves {
                move_number_just_seen: true,
            }),
            PgnToken::NonCastlingMove(m) => self.move_step(m, b),
            PgnToken::CastlingMove(m) => self.move_step(m, b),
            PgnToken::StartVariation => {
                let (n, p) = self.current.previous->0;
                &&& b.stack@ == self.stack@.push(self.current)
                &&& b.current.node == n
                &&& same_state(p, b.current.position)
                &&& b.current.previous is None
                &&& b.parse_state == self.parse_state
                &&& b.constructed_object == self.constructed_object
            },
            PgnToken::EndVariation => {
                &&& b.current == self.stack@.last()
                &&& b.stack@ == self.stack@.drop_last()
                &&& b.parse_state == self.parse_state
                &&& b.constructed_object == self.constructed_object
            },
            PgnToken::Comment(_) => self.same_but_state(b) && b.parse_state == self.parse_state,
            PgnToken::Result(_) => self.same_but_state(b) && b.parse_state == PgnParsingState::ResultFound,
            PgnToken::Incomplete => self.same_but_state(b) && b.parse_state == PgnParsingState::ResultFound,
        }
    }

    /// Reading the next token `tok` and accepting it takes this parser to `b`.
    pub open spec fn step(self, tok: PgnToken, b: PgnParser) -> bool {
        &&& self.reads(Ok(tok))
        &&& self.step_ok(tok)
        &&& b.wf()
        &&& b.chars@ == self.chars@
        &&& b.pos == self.token_stop()
        &&& self.step_post(tok, b)
    }

    /// `trace` starts at this parser and goes through one state per token of `toks`, each
    /// reached from the one before by reading and accepting the token.
    pub open spec fn runs(self, trace: Seq<PgnParser>, toks: Seq<PgnToken>) -> bool {
        &&& trace.len() == toks.len() + 1
        &&& trace[0] == self
        &&& forall|k: int| #![trigger toks[k]] 0 <= k < toks.len() ==> trace[k].step(toks[k], trace[k + 1])
    }

    /// The error processing the token `tok` gives in this parser's state when it is not
    /// accepted.
    pub open spec fn step_error(self, tok: PgnToken, e: PgnError) -> bool {
        let tags_or_after_move = self.parse_state == PgnParsingState::Tags || self.parse_state == (PgnParsingState::Moves {
            move_number_just_seen: false,
        });
        match tok {
            PgnToken::MoveNumber(_) => if tags_or_after_move {
                e is IncorrectMoveNumber
            } else {
                e is UnexpectedToken
            },
            PgnToken::NonCastlingMove(m) => self.move_error(m, e),
            PgnToken::CastlingMove(m) => self.move_error(m, e),
            _ => e is UnexpectedToken,
        }
    }

    /// The error a move that cannot be played now gives.
    pub open spec fn move_error<M: PgnMove>(self, m: M, e: PgnError) -> bool {
        if !self.in_turn() {
            e is UnexpectedToken
        } else if moves_written(m, self.current.position) >= 2 {
            e is AmbiguousMove
        } else {
            e is IllegalMove
        }
    }

    /// The section being read after the token `tok` is refused: a move number refused while
    /// reading the tags has already started the moves.
    pub open spec fn state_after_refusal(self, tok: PgnToken) -> PgnParsingState {
        if tok is MoveNumber && self.parse_state == PgnParsingState::Tags {
            PgnParsingState::Moves { move_number_just_seen: false }
        } else {
            self.parse_state
        }
    }

    /// How reading stops at this parser with the result `r`, leaving the parser `fin`: with
    /// `Ok` exactly when only whitespace is left and the game may end, the parser as it is;
    /// otherwise with `UnexpectedEndOfInput` at the end of a game that may not end there, or
    /// with the error of the next token, which does not read or is not accepted, the parser
    /// then past that token and otherwise as it was (but for a refused move number that started
    /// the moves).
    pub open spec fn stops(self, r: Result<(), PgnError>, fin: PgnParser) -> bool {
        &&& (r is Ok) == (self.at_end() && self.end_ok())
        &&& r is Ok ==> fin == self
        &&& r matches Err(e) ==> {
            ||| self.at_end() && !self.end_ok() && e is UnexpectedEndOfInput && fin == self
            ||| self.reads(Err(e)) && self.same_but_state(fin) && fin.parse_state == self.parse_state
                && fin.pos == self.token_stop() && fin.chars@ == self.chars@
            ||| exists|tok: PgnToken|
                #[trigger] self.reads(Ok(tok)) && !self.step_ok(tok) && self.step_error(tok, e) && self.same_but_state(fin)
                    && fin.parse_state == self.state_after_refusal(tok) && fin.pos == self.token_stop() && fin.chars@
                    == self.chars@
        }
    }

    /// The game read so far.
    pub fn game(&self) -> (r: &PgnObject)
        requires
            self.wf(),
        ensures
            *r == self.object_spec(),
            r.tree_root.wf(),
    {
        &self.constructed_object
    }

    /// A parser at the start of `pgn`, with an empty game at the initial position.
    pub fn new(pgn: &str) -> (p: PgnParser)
        ensures
            p.wf(),
            p.state_spec() == PgnParsingState::Tags,
            p.open_variations() == 0,
            p.object_spec().tree_root.nodes@.len() == 1,
            tag_entries(p.object_spec().tags) == Seq::<(Seq<char>, Seq<char>)>::empty(),
    {
        let position = Position::initial();
        proof {
            lemma_initial_grounded(position);
            lemma_initial_searchable(position);
        }
        PgnParser {
            chars: str_chars(pgn),
            pos: 0,
            parse_state: PgnParsingState::Tags,
            constructed_object: PgnObject::new(),
            current: PgnCursor { node: 0, position, previous: None },
            stack: Vec::new(),
        }
    }

    /// Reads the whole text, token by token, each accepted in turn; stops at the first token
    /// that does not read or is not accepted. On success the game is complete: no variation is
    /// left open and the text does not end just after a move number.
    pub fn parse(&mut self) -> (r: Result<(), PgnError>)
        requires
            old(self).wf(),
        ensures
            final(self).wf(),
            exists|trace: Seq<PgnParser>, toks: Seq<PgnToken>| #[trigger] old(self).runs(trace, toks) && trace.last().stops(
                r,
                *final(self),
            ),
            r is Ok ==> final(self).open_variations() == 0 && final(self).state_spec()
                != (PgnParsingState::Moves { move_number_just_seen: true }),
    {
        let ghost mut trace: Seq<PgnParser> = seq![*self];
        let ghost mut toks: Seq<PgnToken> = Seq::empty();
        loop
            invariant
                self.wf(),
                old(self).runs(trace, toks),
                trace.last() == *self,
            ensures
                self.wf(),
                old(self).runs(trace, toks),
                trace.last() == *self,
                self.at_end(),
            decreases self.chars.len() - self.pos,
        {
            let ghost last = *self;
            let next = next_token(&self.chars, self.pos);
            match next {
                None => {
                    break ;
                },
                Some((token, end, text)) => {
                    assert(text@ == last.chars@.subrange(last.token_start(), last.token_stop()));
                    self.pos = end;
                    let token = match token {
                        Ok(t) => t,
                        Err(e) => {
                            proof {
                                assert(last.reads(Err(e)));
                                assert(last.stops(Err(e), *self));
                                assert(old(self).runs(trace, toks));
                            }
                            return Err(e);
                        },
                    };
                    proof {
                        assert(last.reads(Ok(token)));
                    }
                    let ghost tok = token;
                    let step = match token {
                        PgnToken::Tag(tag) => self.process_tag(tag, &text),
                        PgnToken::MoveNumber(move_number) => self.process_move_number(move_number, &text),
                        PgnToken::NonCastlingMove(m) => self.process_move(m, &text),
                        PgnToken::CastlingMove(m) => self.process_move(m, &text),
                        PgnToken::StartVariation => self.process_start_variation(),
                        PgnToken::EndVariation => self.process_end_variation(),
                        PgnToken::Comment(_) => Ok(()),
                        PgnToken::Result(_) => self.process_result(),
                        PgnToken::Incomplete => self.process_incomplete(),
                    };
                    match step {
                        Ok(()) => {
                            proof {
                                assert(last.step_ok(tok));
                                assert(last.step(tok, *self));
                                let t2 = trace.push(*self);
                                let k2 = toks.push(tok);
                                assert forall|k: int| #![trigger k2[k]] 0 <= k < k2.len() implies t2[k].step(k2[k], t2[k + 1]) by {
                                    if k < toks.len() {
                                        assert(toks[k] == k2[k]);
                                        assert(t2[k] == trace[k]);
                                        assert(t2[k + 1] == trace[k + 1]);
                                    }
                                }
                                trace = t2;
                                toks = k2;
                            }
                        },
                        Err(e) => {
                            proof {
                                assert(!last.step_ok(tok));
                                assert(last.stops(Err(e), *self));
                                assert(old(self).runs(trace, toks));
                            }
                            return Err(e);
                        },
                    }
                },
            }
        }
        proof {
            assert(self.at_end());
        }
        if self.stack.len() > 0 {
            let r = Err(PgnError::UnexpectedEndOfInput(String::from_str("Unclosed variation")));
            proof {
                assert(trace.last().stops(r, *self));
                assert(old(self).runs(trace, toks));
            }
            r
        } else if self.parse_state == (PgnParsingState::Moves { move_number_just_seen: true }) {
            let r = Err(PgnError::UnexpectedEndOfInput(String::from_str("End of input after move number")));
            proof {
                assert(trace.last().stops(r, *self));
                assert(old(self).runs(trace, toks));
            }
            r
        } else {
            proof {
                assert(trace.last().stops(Ok(()), *self));
                assert(old(self).runs(trace, toks));
            }
            Ok(())
        }
    }

    /// A tag pair: accepted only before the moves.
    fn process_tag(&mut self, tag: PgnTag, text: &Vec<char>) -> (r: Result<(), PgnError>)
        requires
            old(self).wf(),
        ensures
            final(self).wf(),
            final(self).pos == old(self).pos,
            final(self).chars@ == old(self).chars@,
            (r is Ok) == (old(self).parse_state == PgnParsingState::Tags),
            r matches Err(e) ==> e is UnexpectedToken && *final(self) == *old(self),
            r is Ok ==> {
                let e0 = tag_entries(old(self).constructed_object.tags);
                let e1 = tag_entries(final(self).constructed_object.tags);
                &&& final(self).parse_state == old(self).parse_state
                &&& final(self).current == old(self).current
                &&& final(self).stack == old(self).stack
                &&& final(self).constructed_object.tree_root == old(self).constructed_object.tree_root
                &&& forall|i: int|
                    0 <= i < e0.len() && #[trigger] e0[i].0 == tag.name@ ==> e1 == e0.update(i, (tag.name@, tag.value@))
                &&& (forall|i: int| 0 <= i < e0.len() ==> #[trigger] e0[i].0 != tag.name@) ==> e1 == e0.push(
                    (tag.name@, tag.value@),
                )
            },
    {
        if self.parse_state != PgnParsingState::Tags {
            return Err(PgnError::UnexpectedToken(message("Unexpected tag token: ", text)));
        }
        self.constructed_object.add_tag(tag.name, tag.value);
        Ok(())
    }

    /// A move number: it starts the moves, must not follow another move number, and must be
    /// the fullmove number of the current position.
    fn process_move_number(&mut self, pgn_move_number: PgnMoveNumber, text: &Vec<char>) -> (r: Result<(), PgnError>)
        requires
            old(self).wf(),
        ensures
            final(self).wf(),
            final(self).pos == old(self).pos,
            final(self).chars@ == old(self).chars@,
            old(self).same_but_state(*final(self)),
            (r is Ok) == ((old(self).parse_state == PgnParsingState::Tags || old(self).parse_state
                == (PgnParsingState::Moves { move_number_just_seen: false }))
                && pgn_move_number.fullmove_number == old(self).current_fullmove()),
            final(self).parse_state == if r is Ok {
                PgnParsingState::Moves { move_number_just_seen: true }
            } else if old(self).parse_state == PgnParsingState::Tags {
                PgnParsingState::Moves { move_number_just_seen: false }
            } else {
                old(self).parse_state
            },
            r matches Err(e) ==> if old(self).parse_state == PgnParsingState::Tags || old(self).parse_state
                == (PgnParsingState::Moves { move_number_just_seen: false }) {
                e is IncorrectMoveNumber
            } else {
                e is UnexpectedToken
            },
    {
        if self.parse_state == PgnParsingState::Tags {
            self.parse_state = PgnParsingState::Moves { move_number_just_seen: false };
        }
        match self.parse_state {
            PgnParsingState::Moves { move_number_just_seen } => {
                if move_number_just_seen {
                    Err(PgnError::UnexpectedToken(message("Unexpected move number token: ", text)))
                } else {
                    let expected_fullmove = self.current.position.get_fullmove();
                    if pgn_move_number.fullmove_number == expected_fullmove {
                        self.parse_state = PgnParsingState::Moves { move_number_just_seen: true };
                        Ok(())
                    } else {
                        Err(PgnError::IncorrectMoveNumber(message("", text)))
                    }
                }
            },
            _ => Err(PgnError::UnexpectedToken(message("Unexpected move number token: ", text))),
        }
    }

    /// The fullmove number of the current position.
    pub open spec fn current_fullmove(&self) -> int {
        self.current.position.halfmove / 2 + 1
    }

    /// A move: White's move must follow a move number; the move must match exactly one of the
    /// moves generated for the current position, which is then played in a new node under the
    /// current one.
    fn process_move<M: PgnMove>(&mut self, pgn_move: M, text: &Vec<char>) -> (r: Result<(), PgnError>)
        requires
            old(self).wf(),
        ensures
            final(self).wf(),
            final(self).pos == old(self).pos,
            final(self).chars@ == old(self).chars@,
            (r is Ok) == old(self).move_ok(pgn_move),
            r matches Err(e) ==> *final(self) == *old(self) && if !old(self).in_turn() {
                e is UnexpectedToken
            } else if moves_written(pgn_move, old(self).current.position) >= 2 {
                e is AmbiguousMove
            } else {
                e is IllegalMove
            },
            r is Ok ==> old(self).move_step(pgn_move, *final(self)),
    {
        let ghost s0 = *self;
        let ghost p = self.current.position;
        let move_number_just_seen = match self.parse_state {
            PgnParsingState::Moves { move_number_just_seen } => move_number_just_seen,
            _ => {
                return Err(PgnError::UnexpectedToken(message("Unexpected move token: ", text)));
            },
        };
        let side_to_move = self.current.position.side_to_move();
        if !move_number_just_seen && side_to_move == Color::White {
            return Err(PgnError::UnexpectedToken(message("Unexpected move token: ", text)));
        }
        let kings = self.current.position.board.piece_mask_at(Piece::King)
            & self.current.position.board.color_mask_at(side_to_move);
        if count_squares(kings) != 1 {
            return Err(PgnError::IllegalMove(message("Illegal move: ", text)));
        }
        let mut possible_moves = MoveList::new();
        self.current.position.generate_moves(&mut possible_moves);
        let ghost list = possible_moves@;
        proof {
            assert forall|m: Move| is_legal(p, m) implies #[trigger] list.contains(m) by {
                let i = choose|i: int| 0 <= i < list.len() && list[i] == m;
            }
            assert forall|i: int| 0 <= i < list.len() implies is_legal(p, #[trigger] list[i]) by {}
        }
        let mut matched: Option<Move> = None;
        let ghost mut at: int = 0;
        let mut i: usize = 0;
        while i < possible_moves.len()
            invariant
                i <= possible_moves@.len(),
                possible_moves@ == list,
                *self == s0,
                s0 == *old(self),
                self.current.position == p,
                s0.parse_state == (PgnParsingState::Moves { move_number_just_seen }),
                move_number_just_seen || p.stm() == Color::Black,
                self.wf(),
                forall|j: int| 0 <= j < list.len() ==> gen_ok(p, #[trigger] list[j]) && is_legal(p, list[j]),
                forall|j: int, k: int| 0 <= j < k < list.len() ==> #[trigger] list[j] != #[trigger] list[k],
                matched is None ==> forall|j: int| 0 <= j < i ==> !pgn_move.denotes(#[trigger] list[j], p.board),
                matched matches Some(m) ==> 0 <= at < i && list[at] == m && pgn_move.denotes(m, p.board) && forall|j: int|
                    0 <= j < i && j != at ==> !pgn_move.denotes(#[trigger] list[j], p.board),
            decreases possible_moves@.len() - i,
        {
            let possible_move = possible_moves.get(i);
            if pgn_move.matches_move(possible_move, &self.current.position.board) {
                if matched.is_some() {
                    proof {
                        assert(list[at] != list[i as int]);
                        assert(writes(pgn_move, p, list[at]));
                        assert(writes(pgn_move, p, list[i as int]));
                        lemma_two_written(pgn_move, p, list[at], list[i as int]);
                        assert(moves_written(pgn_move, p) == 2);
                        assert(!single_move_written(pgn_move, p));
                    }
                    return Err(PgnError::AmbiguousMove(message("Ambiguous move: ", text)));
                }
                matched = Some(possible_move);
                proof {
                    at = i as int;
                }
            }
            i = i + 1;
        }
        let matched_move = match matched {
            Some(m) => m,
            None => {
                proof {
                    if moves_written(pgn_move, p) >= 1 {
                        lemma_some_written(pgn_move, p);
                        let m = choose|m: Move| #[trigger] writes(pgn_move, p, m);
                        assert(list.contains(m));
                    }
                }
                return Err(PgnError::IllegalMove(message("Illegal move: ", text)));
            },
        };
        proof {
            assert forall|m: Move| #[trigger] writes(pgn_move, p, m) implies m == matched_move by {
                assert(list.contains(m));
                let j = choose|j: int| 0 <= j < list.len() && list[j] == m;
            }
            lemma_single_written(pgn_move, p, matched_move);
        }
        if self.current.position.context().halfmove_clock >= 255 || self.current.position.halfmove
            == u16::MAX || self.constructed_object.tree_root.nodes.len() == usize::MAX {
            return Err(PgnError::IllegalMove(message("Game too long at move: ", text)));
        }
        let info = pgn_move.get_common_move_info();
        let annotation = match &info.annotation {
            Some(a) => Some(a.clone()),
            None => None,
        };
        let move_data = PgnMoveData { move_: matched_move, annotation, nag: info.nag };
        let next = self.current.position.after_move(matched_move);
        proof {
            lemma_legal_move_keeps_grounded(p, matched_move, next);
        }
        let node = self.constructed_object.tree_root.append_child(self.current.node, move_data);
        let previous = (self.current.node, copy_position(&self.current.position));
        self.current = PgnCursor { node, position: next, previous: Some(previous) };
        self.parse_state = PgnParsingState::Moves { move_number_just_seen: false };
        Ok(())
    }

    /// `(`: a variation replacing the last move starts from the position before it.
    fn process_start_variation(&mut self) -> (r: Result<(), PgnError>)
        requires
            old(self).wf(),
        ensures
            final(self).wf(),
            final(self).pos == old(self).pos,
            final(self).chars@ == old(self).chars@,
            (r is Ok) == (old(self).parse_state == (PgnParsingState::Moves { move_number_just_seen: false })
                && old(self).current.previous is Some),
            r matches Err(e) ==> e is UnexpectedToken && *final(self) == *old(self),
            r is Ok ==> {
                let (n, p) = old(self).current.previous->0;
                &&& final(self).stack@ == old(self).stack@.push(old(self).current)
                &&& final(self).current.node == n
                &&& same_state(p, final(self).current.position)
                &&& final(self).current.previous is None
                &&& final(self).parse_state == old(self).parse_state
                &&& final(self).constructed_object == old(self).constructed_object
            },
    {
        if self.parse_state != (PgnParsingState::Moves { move_number_just_seen: false }) {
            return Err(PgnError::UnexpectedToken(String::from_str("Unexpected start variation token")));
        }
        let branch = match &self.current.previous {
            Some((node, position)) => PgnCursor { node: *node, position: copy_position(position), previous: None },
            None => {
                return Err(PgnError::UnexpectedToken(String::from_str("Unexpected start variation token")));
            },
        };
        let mut saved = branch;
        std::mem::swap(&mut self.current, &mut saved);
        self.stack.push(saved);
        Ok(())
    }

    /// `)`: the innermost variation ends and the line it branched from resumes.
    fn process_end_variation(&mut self) -> (r: Result<(), PgnError>)
        requires
            old(self).wf(),
        ensures
            final(self).wf(),
            final(self).pos == old(self).pos,
            final(self).chars@ == old(self).chars@,
            (r is Ok) == (old(self).parse_state == (PgnParsingState::Moves { move_number_just_seen: false })
                && old(self).stack@.len() > 0),
            r matches Err(e) ==> e is UnexpectedToken && *final(self) == *old(self),
            r is Ok ==> {
                &&& final(self).current == old(self).stack@.last()
                &&& final(self).stack@ == old(self).stack@.drop_last()
                &&& final(self).parse_state == old(self).parse_state
                &&& final(self).constructed_object == old(self).constructed_object
            },
    {
        if self.parse_state != (PgnParsingState::Moves { move_number_just_seen: false }) {
            return Err(PgnError::UnexpectedToken(String::from_str("Unexpected end variation token")));
        }
        if self.stack.len() == 0 {
            return Err(PgnError::UnexpectedToken(String::from_str("Unexpected end variation token")));
        }
        match self.stack.pop() {
            Some(saved) => {
                self.current = saved;
                Ok(())
            },
            None => Err(PgnError::UnexpectedToken(String::from_str("Unexpected end variation token"))),
        }
    }

    /// A game result: accepted after a move.
    fn process_result(&mut self) -> (r: Result<(), PgnError>)
        requires
            old(self).wf(),
        ensures
            final(self).wf(),
            final(self).pos == old(self).pos,
            final(self).chars@ == old(self).chars@,
            r is Ok == (old(self).parse_state == (PgnParsingState::Moves { move_number_just_seen: false })),
            r is Ok ==> final(self).parse_state == PgnParsingState::ResultFound,
            r matches Err(e) ==> e is UnexpectedToken && final(self).parse_state == old(self).parse_state,
            old(self).same_but_state(*final(self)),
    {
        if self.parse_state == (PgnParsingState::Moves { move_number_just_seen: false }) {
            self.parse_state = PgnParsingState::ResultFound;
            Ok(())
        } else {
            Err(PgnError::UnexpectedToken(String::from_str("Unexpected result token")))
        }
    }

    /// `*`: accepted after a move.
    fn process_incomplete(&mut self) -> (r: Result<(), PgnError>)
        requires
            old(self).wf(),
        ensures
            final(self).wf(),
            final(self).pos == old(self).pos,
            final(self).chars@ == old(self).chars@,
            r is Ok == (old(self).parse_state == (PgnParsingState::Moves { move_number_just_seen: false })),
            r is Ok ==> final(self).parse_state == PgnParsingState::ResultFound,
            r matches Err(e) ==> e is UnexpectedToken && final(self).parse_state == old(self).parse_state,
            old(self).same_but_state(*final(self)),
    {
        if self.parse_state == (PgnParsingState::Moves { move_number_just_seen: false }) {
            self.parse_state = PgnParsingState::ResultFound;
            Ok(())
        } else {
            Err(PgnError::UnexpectedToken(String::from_str("Unexpected incomplete token")))
        }
    }
}

} // verus!
