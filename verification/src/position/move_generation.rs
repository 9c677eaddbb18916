//! Legal move generation.
use vstd::prelude::*;
use crate::bitboard::{bb_has, sq_bit, pop, group_has, next_square, count_squares, lemma_pop_zero};
use crate::types::{Color, Move, MoveFlag, MoveList, Piece, Square, SquareDelta};
use crate::types::square::{edge_to_edge_ray, line_spec};
use crate::types::knight_move_direction::knight_jump;
use crate::board::Board;
use crate::attacks::precomputed::{single_knight_attacks, single_king_attacks};
use crate::attacks::manual::{
    manual_sliding_piece_attacks, slider_attack, king_step, multi_pawn_moves, multi_pawn_attacks,
    multi_pawn_attacks_left, multi_pawn_attacks_right, pawn_step, pawns_step, pawn_attack_left,
    pawn_attack_right, pawns_attack_left, pawns_attack_right, pawn_attack, lemma_delta, fwd,
};
use crate::types::{Rank, SquareDeltaUtils};
use crate::types::square_delta::{DOWN, UP_LEFT, UP_RIGHT};
use crate::types::square::{sq_rank, sq_file, same_file, same_rank, same_diag, same_anti_diag};
use crate::board_attacks::{attacked_by, steps_onto, slides_onto};
use crate::position::make_move::{move_ok, ep_square, make_post, after_piece, after_color, double_push_ok};
use crate::types::double_pawn_push_file::dpf_after_step;
use crate::position::state::{Position, ZobristPolicy};
use crate::position::castling::{castling_allowed, castling_consistent, has_rights};
use crate::position::pins::{kings_of, pins_checks_ok, is_checker, is_pinned, pin_line, sole_blocker};
use crate::types::square::{between, between_spec};
use crate::position::make_move::{castle_flank, rook_from_sq, rook_to_sq};
use crate::types::flank::{rook_src_file, rook_dst_file};
use crate::types::{ConstDoublePawnPushFile, DoublePawnPushFile, Flank};
use crate::types::double_pawn_push_file::{ep_pawn_rank, ep_target_rank};
use crate::types::square::sq_at;
use crate::types::flank::{home_base, king_dst_file};
use crate::position::legality::{
    piece_move_fits, king_move_fits, ep_move_fits, king_safe_after, kings_apart, ep_unshielded, resolves_checks,
    lemma_knight_no_between, lemma_slider_path_clear, lemma_neighbors_adjacent, lemma_double_step_between,
    lemma_piece_move_safe, lemma_king_move_safe, lemma_ep_move_safe, lemma_castling_safe, lemma_checker_survives,
    lemma_pinner_survives, lemma_double_check_unsafe, lemma_king_move_unsafe, lemma_ep_probe_unsafe,
    lemma_castling_allowed_no_check, lemma_knight_off_line, lemma_file_move_line,
};

verus! {

broadcast use group_has;

/// Receives generated moves: keeps them when `collect`, and counts them either way.
pub struct MoveSink {
    /// The moves kept (only when `collect`).
    pub moves: MoveList,
    /// How many moves were received.
    pub count: u32,
    /// Whether moves are kept or only counted.
    pub collect: bool,
    /// Every move received, in order.
    pub seen: Ghost<Seq<Move>>,
}

impl MoveSink {
    /// `new` is `self` after receiving `n` more moves, each satisfying `ok`; when moves are kept,
    /// they are appended to the kept ones.
    pub open spec fn grows(self, new: Self, ok: spec_fn(Move) -> bool, n: int) -> bool {
        &&& new.collect == self.collect
        &&& new.count == self.count + n
        &&& new.seen@.len() == self.seen@.len() + n
        &&& new.seen@.subrange(0, self.seen@.len() as int) == self.seen@
        &&& forall|i: int| self.seen@.len() <= i < new.seen@.len() ==> #[trigger] ok(new.seen@[i])
        &&& self.collect ==> new.moves@ == self.moves@ + new.seen@.subrange(
            self.seen@.len() as int,
            new.seen@.len() as int,
        )
        &&& !self.collect ==> new.moves@ == self.moves@
    }

    /// `m` is among the moves `new` received beyond those `self` had.
    pub open spec fn got(self, new: Self, m: Move) -> bool {
        exists|i: int| self.seen@.len() <= i < new.seen@.len() && #[trigger] new.seen@[i] == m
    }

    /// The moves `new` received beyond those `self` had are pairwise distinct.
    pub open spec fn distinct_since(self, new: Self) -> bool {
        forall|i: int, j: int|
            self.seen@.len() <= i < j < new.seen@.len() ==> #[trigger] new.seen@[i] != #[trigger] new.seen@[j]
    }

    /// `new` received the moves of `self` first.
    pub open spec fn extends(self, new: Self) -> bool {
        &&& new.collect == self.collect
        &&& new.seen@.len() >= self.seen@.len()
        &&& new.seen@.subrange(0, self.seen@.len() as int) == self.seen@
    }

    /// Receives one move.
    fn emit(&mut self, m: Move)
        requires
            old(self).count < u32::MAX,
        ensures
            old(self).grows(*final(self), |x: Move| x == m, 1),
            old(self).got(*final(self), m),
            old(self).distinct_since(*final(self)),
    {
        let ghost before = *self;
        if self.collect {
            self.moves.push(m);
        }
        self.count = self.count + 1;
        proof {
            self.seen = Ghost(self.seen@.push(m));
            assert(self.seen@.subrange(0, before.seen@.len() as int) =~= before.seen@);
            assert(self.seen@[before.seen@.len() as int] == m);
            assert(self.seen@.subrange(before.seen@.len() as int, self.seen@.len() as int) =~= seq![m]);
            if before.collect {
                assert(self.moves@ =~= before.moves@ + seq![m]);
            }
        }
    }
}

/// Receiving moves that satisfy a stronger predicate also counts for a weaker one.
pub proof fn lemma_grows_weaken(a: MoveSink, b: MoveSink, p: spec_fn(Move) -> bool, q: spec_fn(Move) -> bool, n: int)
    requires
        a.grows(b, p, n),
        forall|m: Move| #[trigger] p(m) ==> q(m),
    ensures
        a.grows(b, q, n),
{
    assert forall|i: int| a.seen@.len() <= i < b.seen@.len() implies #[trigger] q(b.seen@[i]) by {
        assert(p(b.seen@[i]));
    }
}

/// Receiving `n` moves and then `k` more, all satisfying `ok`, is receiving `n + k` of them.
pub proof fn lemma_grows_trans(a: MoveSink, b: MoveSink, c: MoveSink, ok: spec_fn(Move) -> bool, n: int, k: int)
    requires
        a.grows(b, ok, n),
        b.grows(c, ok, k),
        n >= 0,
        k >= 0,
    ensures
        a.grows(c, ok, n + k),
{
    let la = a.seen@.len() as int;
    let lb = b.seen@.len() as int;
    let lc = c.seen@.len() as int;
    assert forall|i: int| la <= i < lc implies #[trigger] ok(c.seen@[i]) by {
        if i < lb {
            assert(c.seen@.subrange(0, lb)[i] == c.seen@[i]);
            assert(b.seen@[i] == c.seen@[i]);
        }
    }
    assert(c.seen@.subrange(0, la) =~= b.seen@.subrange(0, la)) by {
        assert forall|i: int| 0 <= i < la implies c.seen@.subrange(0, la)[i] == b.seen@.subrange(0, la)[i] by {
            assert(c.seen@.subrange(0, lb)[i] == c.seen@[i]);
        }
    }
    if a.collect {
        let x = b.seen@.subrange(la, lb);
        let y = c.seen@.subrange(lb, lc);
        assert(c.seen@.subrange(la, lc) =~= x + y) by {
            assert forall|i: int| 0 <= i < lc - la implies c.seen@.subrange(la, lc)[i] == (x + y)[i] by {
                if i < lb - la {
                    assert(c.seen@.subrange(0, lb)[la + i] == c.seen@[la + i]);
                }
            }
        }
        assert(c.moves@ =~= a.moves@ + (x + y));
    }
}

/// Receiving moves keeps the earlier ones.
pub proof fn lemma_grows_extends(a: MoveSink, b: MoveSink, ok: spec_fn(Move) -> bool, n: int)
    requires
        a.grows(b, ok, n),
        n >= 0,
    ensures
        a.extends(b),
{
}

/// A move received in either of two consecutive stretches is received in the whole.
pub proof fn lemma_got_joined(a: MoveSink, b: MoveSink, c: MoveSink, m: Move)
    requires
        a.extends(b),
        b.extends(c),
        a.got(b, m) || b.got(c, m),
    ensures
        a.got(c, m),
        a.extends(c),
{
    assert(c.seen@.subrange(0, a.seen@.len() as int) =~= b.seen@.subrange(0, a.seen@.len() as int));
    if a.got(b, m) {
        let i = choose|i: int| a.seen@.len() <= i < b.seen@.len() && #[trigger] b.seen@[i] == m;
        assert(c.seen@.subrange(0, b.seen@.len() as int)[i] == c.seen@[i]);
    } else {
        let i = choose|i: int| b.seen@.len() <= i < c.seen@.len() && #[trigger] c.seen@[i] == m;
    }
}

/// Two stretches of distinct moves, the first satisfying `p` and the second `q`, which no
/// move satisfies together, make one stretch of distinct moves.
pub proof fn lemma_distinct_join(a: MoveSink, b: MoveSink, c: MoveSink, p: spec_fn(Move) -> bool, q: spec_fn(Move) -> bool)
    requires
        a.extends(b),
        b.extends(c),
        a.distinct_since(b),
        b.distinct_since(c),
        forall|i: int| a.seen@.len() <= i < b.seen@.len() ==> #[trigger] p(b.seen@[i]),
        forall|j: int| b.seen@.len() <= j < c.seen@.len() ==> #[trigger] q(c.seen@[j]),
        forall|m: Move| #[trigger] p(m) ==> !q(m),
    ensures
        a.distinct_since(c),
{
    let lb = b.seen@.len() as int;
    assert forall|i: int, j: int| a.seen@.len() <= i < j < c.seen@.len() implies #[trigger] c.seen@[i] != #[trigger] c.seen@[j] by {
        if j < lb {
            assert(c.seen@.subrange(0, lb)[i] == c.seen@[i]);
            assert(c.seen@.subrange(0, lb)[j] == c.seen@[j]);
            assert(b.seen@[i] != b.seen@[j]);
        } else if i < lb {
            assert(c.seen@.subrange(0, lb)[i] == c.seen@[i]);
            assert(p(b.seen@[i]));
            assert(q(c.seen@[j]));
        }
    }
}

/// Moves received from the square `src`, just taken out of `rest0` (leaving `rest`), after
/// distinct moves whose origins are off `rest0`, keep the stretch distinct with origins off
/// `rest`.
pub proof fn lemma_origins_step(
    s0: MoveSink,
    s1: MoveSink,
    s2: MoveSink,
    rest0: u64,
    rest: u64,
    src: int,
    q: spec_fn(Move) -> bool,
)
    requires
        s0.extends(s1),
        s1.extends(s2),
        s0.distinct_since(s1),
        s1.distinct_since(s2),
        forall|x: int| s0.seen@.len() <= x < s1.seen@.len() ==> !bb_has(rest0, (#[trigger] s1.seen@[x]).from_spec().idx()),
        forall|x: int| s1.seen@.len() <= x < s2.seen@.len() ==> #[trigger] q(s2.seen@[x]),
        forall|m: Move| #[trigger] q(m) ==> m.from_spec().idx() == src,
        0 <= src < 64,
        bb_has(rest0, src),
        forall|t: int| 0 <= t < 64 ==> #[trigger] bb_has(rest, t) == (bb_has(rest0, t) && t != src),
    ensures
        s0.distinct_since(s2),
        forall|x: int| s0.seen@.len() <= x < s2.seen@.len() ==> !bb_has(rest, (#[trigger] s2.seen@[x]).from_spec().idx()),
{
    lemma_distinct_join(s0, s1, s2, |m: Move| !bb_has(rest0, m.from_spec().idx()), q);
    assert forall|x: int| s0.seen@.len() <= x < s2.seen@.len() implies !bb_has(rest, (#[trigger] s2.seen@[x]).from_spec().idx()) by {
        if x < s1.seen@.len() {
            assert(s2.seen@.subrange(0, s1.seen@.len() as int)[x] == s2.seen@[x]);
            assert(!bb_has(rest0, s1.seen@[x].from_spec().idx()));
        } else {
            assert(q(s2.seen@[x]));
        }
    }
}

/// Moves received onto the square `dst`, just taken out of `rest0` (leaving `rest`), after
/// distinct moves whose targets are off `rest0`, keep the stretch distinct with targets off
/// `rest`.
pub proof fn lemma_targets_step(
    s0: MoveSink,
    s1: MoveSink,
    s2: MoveSink,
    rest0: u64,
    rest: u64,
    dst: int,
    q: spec_fn(Move) -> bool,
)
    requires
        s0.extends(s1),
        s1.extends(s2),
        s0.distinct_since(s1),
        s1.distinct_since(s2),
        forall|x: int| s0.seen@.len() <= x < s1.seen@.len() ==> !bb_has(rest0, (#[trigger] s1.seen@[x]).to_spec().idx()),
        forall|x: int| s1.seen@.len() <= x < s2.seen@.len() ==> #[trigger] q(s2.seen@[x]),
        forall|m: Move| #[trigger] q(m) ==> m.to_spec().idx() == dst,
        0 <= dst < 64,
        bb_has(rest0, dst),
        forall|t: int| 0 <= t < 64 ==> #[trigger] bb_has(rest, t) == (bb_has(rest0, t) && t != dst),
    ensures
        s0.distinct_since(s2),
        forall|x: int| s0.seen@.len() <= x < s2.seen@.len() ==> !bb_has(rest, (#[trigger] s2.seen@[x]).to_spec().idx()),
{
    lemma_distinct_join(s0, s1, s2, |m: Move| !bb_has(rest0, m.to_spec().idx()), q);
    assert forall|x: int| s0.seen@.len() <= x < s2.seen@.len() implies !bb_has(rest, (#[trigger] s2.seen@[x]).to_spec().idx()) by {
        if x < s1.seen@.len() {
            assert(s2.seen@.subrange(0, s1.seen@.len() as int)[x] == s2.seen@[x]);
            assert(!bb_has(rest0, s1.seen@[x].to_spec().idx()));
        } else {
            assert(q(s2.seen@[x]));
        }
    }
}

/// Receiving earlier moves first is transitive.
pub proof fn lemma_extends_trans(a: MoveSink, b: MoveSink, c: MoveSink)
    requires
        a.extends(b),
        b.extends(c),
    ensures
        a.extends(c),
{
    assert(c.seen@.subrange(0, a.seen@.len() as int) =~= b.seen@.subrange(0, a.seen@.len() as int));
}

/// Receiving nothing.
pub proof fn lemma_grows_refl(a: MoveSink, ok: spec_fn(Move) -> bool)
    ensures
        a.grows(a, ok, 0),
{
    assert(a.seen@.subrange(0, a.seen@.len() as int) =~= a.seen@);
    assert(a.seen@.subrange(a.seen@.len() as int, a.seen@.len() as int) =~= Seq::<Move>::empty());
    assert(a.moves@ + Seq::<Move>::empty() =~= a.moves@);
}

/// `m` moves from `from` to `to` with kind `flag`, promoting nothing.
pub open spec fn exact_move(m: Move, from: Square, to: Square, flag: MoveFlag) -> bool {
    m.from_spec() == from && m.to_spec() == to && m.flag_spec() == flag && m.promotion_spec() == Piece::Null
}

/// A normal move (no promotion) from `from` to a square of `mask`.
pub open spec fn normal_into(m: Move, from: Square, mask: u64) -> bool {
    &&& m.from_spec() == from
    &&& m.flag_spec() == MoveFlag::NormalMove
    &&& m.promotion_spec() == Piece::Null
    &&& bb_has(mask, m.to_spec().idx())
}

/// A promotion from `from` to a square of `mask`.
pub open spec fn promotion_into(m: Move, from: Square, mask: u64) -> bool {
    &&& m.from_spec() == from
    &&& m.flag_spec() == MoveFlag::Promotion
    &&& m.promotion_spec().is_promotion_target()
    &&& bb_has(mask, m.to_spec().idx())
}

/// The place of a promotion piece in the order the promotions are produced: knight, bishop,
/// rook, queen.
pub open spec fn promo_order(p: Piece) -> int {
    if p == Piece::Knight {
        0
    } else if p == Piece::Bishop {
        1
    } else if p == Piece::Rook {
        2
    } else {
        3
    }
}

/// The four promotions of a pawn moving from `src_square` to `dst_square`: to a knight, a
/// bishop, a rook and a queen.
pub fn generate_pawn_promotions(src_square: Square, dst_square: Square) -> (r: [Move; 4])
    ensures
        forall|i: int|
            0 <= i < 4 ==> (#[trigger] r[i]).from_spec() == src_square && r[i].to_spec()
                == dst_square && r[i].flag_spec() == MoveFlag::Promotion,
        r[0].promotion_spec() == Piece::Knight,
        r[1].promotion_spec() == Piece::Bishop,
        r[2].promotion_spec() == Piece::Rook,
        r[3].promotion_spec() == Piece::Queen,
{
    [
        Move::new_promotion(src_square, dst_square, Piece::Knight),
        Move::new_promotion(src_square, dst_square, Piece::Bishop),
        Move::new_promotion(src_square, dst_square, Piece::Rook),
        Move::new_promotion(src_square, dst_square, Piece::Queen),
    ]
}

impl MoveSink {
    /// Receives the normal move `from` -> `to`.
    fn normal(&mut self, from: Square, to: Square)
        requires
            old(self).count < u32::MAX,
        ensures
            old(self).grows(*final(self), |m: Move| normal_into(m, from, sq_bit(to.idx())), 1),
            forall|m: Move| #[trigger] normal_into(m, from, sq_bit(to.idx())) ==> old(self).got(*final(self), m),
            old(self).distinct_since(*final(self)),
    {
        let m = Move::new_non_promotion(from, to, MoveFlag::NormalMove);
        let ghost before = *self;
        self.emit(m);
        proof {
            lemma_grows_weaken(before, *self, |x: Move| x == m, |m: Move| normal_into(m, from, sq_bit(to.idx())), 1);
            assert forall|m2: Move| #[trigger] normal_into(m2, from, sq_bit(to.idx())) implies m2 == m by {
                Square::lemma_idx_injective(m2.to_spec(), to);
                Move::lemma_ext(m2, m);
            }
        }
    }

    /// Receives the four promotions `from` -> `to`.
    fn promotions(&mut self, from: Square, to: Square)
        requires
            old(self).count + 4 <= u32::MAX,
        ensures
            old(self).grows(*final(self), |m: Move| promotion_into(m, from, sq_bit(to.idx())), 4),
            forall|m: Move| #[trigger] promotion_into(m, from, sq_bit(to.idx())) ==> old(self).got(*final(self), m),
            old(self).distinct_since(*final(self)),
    {
        let ghost ok = |m: Move| promotion_into(m, from, sq_bit(to.idx()));
        let ms = generate_pawn_promotions(from, to);
        let ghost s0 = *self;
        let mut i: usize = 0;
        proof {
            lemma_grows_refl(s0, ok);
        }
        while i < 4
            invariant
                i <= 4,
                s0.grows(*self, ok, i as int),
                s0.count + 4 <= u32::MAX,
                ok == (|m: Move| promotion_into(m, from, sq_bit(to.idx()))),
                forall|j: int|
                    0 <= j < 4 ==> (#[trigger] ms[j]).from_spec() == from && ms[j].to_spec()
                        == to && ms[j].flag_spec() == MoveFlag::Promotion,
                ms[0].promotion_spec() == Piece::Knight,
                ms[1].promotion_spec() == Piece::Bishop,
                ms[2].promotion_spec() == Piece::Rook,
                ms[3].promotion_spec() == Piece::Queen,
                forall|j: int| 0 <= j < i ==> s0.got(*self, #[trigger] ms[j]),
                s0.distinct_since(*self),
                forall|x: int| s0.seen@.len() <= x < self.seen@.len() ==> promo_order(#[trigger] self.seen@[x].promotion_spec()) < i,
            decreases 4 - i,
        {
            let ghost s1 = *self;
            let m = ms[i];
            self.emit(m);
            proof {
                assert(m.promotion_spec().is_promotion_target());
                lemma_grows_weaken(s1, *self, |x: Move| x == m, ok, 1);
                lemma_grows_trans(s0, s1, *self, ok, i as int, 1);
                lemma_grows_extends(s0, s1, ok, i as int);
                lemma_grows_extends(s1, *self, |x: Move| x == m, 1);
                assert forall|j: int| 0 <= j < i + 1 implies s0.got(*self, #[trigger] ms[j]) by {
                    lemma_got_joined(s0, s1, *self, ms[j]);
                }
                let ii = i as int;
                lemma_distinct_join(s0, s1, *self, |x: Move| promo_order(x.promotion_spec()) < ii, |x: Move| x == m);
                assert forall|x: int| s0.seen@.len() <= x < self.seen@.len() implies promo_order(#[trigger] self.seen@[x].promotion_spec()) < i + 1 by {
                    if x < s1.seen@.len() {
                        assert(self.seen@.subrange(0, s1.seen@.len() as int)[x] == self.seen@[x]);
                    }
                }
            }
            i = i + 1;
        }
        proof {
            {
                assert forall|m: Move| #[trigger] promotion_into(m, from, sq_bit(to.idx())) implies s0.got(*self, m) by {
                    Square::lemma_idx_injective(m.to_spec(), to);
                    let j: int = if m.promotion_spec() == Piece::Knight {
                        0
                    } else if m.promotion_spec() == Piece::Bishop {
                        1
                    } else if m.promotion_spec() == Piece::Rook {
                        2
                    } else {
                        3
                    };
                    Move::lemma_ext(m, ms[j]);
                    assert(s0.got(*self, ms[j]));
                }
            }
        }
    }

    /// Receives the en-passant capture `from` -> `to`.
    fn en_passant(&mut self, from: Square, to: Square)
        requires
            old(self).count < u32::MAX,
        ensures
            old(self).grows(
                *final(self),
                |m: Move| exact_move(m, from, to, MoveFlag::EnPassant),
                1,
            ),
            forall|m: Move|
                #[trigger] exact_move(m, from, to, MoveFlag::EnPassant) && m.promotion_spec() == Piece::Null ==> old(self).got(*final(self), m),
            old(self).distinct_since(*final(self)),
    {
        let m = Move::new_non_promotion(from, to, MoveFlag::EnPassant);
        let ghost before = *self;
        self.emit(m);
        proof {
            lemma_grows_weaken(before, *self, |x: Move| x == m, |m: Move| exact_move(m, from, to, MoveFlag::EnPassant), 1);
            assert forall|m2: Move| #[trigger] exact_move(m2, from, to, MoveFlag::EnPassant) && m2.promotion_spec() == Piece::Null implies m2 == m by {
                Move::lemma_ext(m2, m);
            }
        }
    }

    /// Receives the castling move `from` -> `to` (the king's squares).
    fn castling(&mut self, from: Square, to: Square)
        requires
            old(self).count < u32::MAX,
        ensures
            old(self).grows(
                *final(self),
                |m: Move| exact_move(m, from, to, MoveFlag::Castling),
                1,
            ),
            forall|m: Move|
                #[trigger] exact_move(m, from, to, MoveFlag::Castling) && m.promotion_spec() == Piece::Null ==> old(self).got(*final(self), m),
            old(self).distinct_since(*final(self)),
    {
        let m = Move::new_non_promotion(from, to, MoveFlag::Castling);
        let ghost before = *self;
        self.emit(m);
        proof {
            lemma_grows_weaken(before, *self, |x: Move| x == m, |m: Move| exact_move(m, from, to, MoveFlag::Castling), 1);
            assert forall|m2: Move| #[trigger] exact_move(m2, from, to, MoveFlag::Castling) && m2.promotion_spec() == Piece::Null implies m2 == m by {
                Move::lemma_ext(m2, m);
            }
        }
    }

    /// Receives a normal move from `from` to every square of `to_mask`.
    fn normal_mask(&mut self, from: Square, to_mask: u64)
        requires
            old(self).count + pop(to_mask) <= u32::MAX,
        ensures
            old(self).grows(*final(self), |m: Move| normal_into(m, from, to_mask), pop(to_mask) as int),
            forall|m: Move| #[trigger] normal_into(m, from, to_mask) ==> old(self).got(*final(self), m),
            old(self).distinct_since(*final(self)),
    {
        let ghost ok = |m: Move| normal_into(m, from, to_mask);
        let ghost s0 = *self;
        proof {
            lemma_grows_refl(s0, ok);
            lemma_pop_zero(to_mask);
        }
        let mut rest = to_mask;
        while rest != 0
            invariant
                forall|t: int| 0 <= t < 64 && #[trigger] bb_has(rest, t) ==> bb_has(to_mask, t),
                s0.grows(*self, ok, pop(to_mask) - pop(rest)),
                pop(rest) <= pop(to_mask),
                s0.count + pop(to_mask) <= u32::MAX,
                ok == (|m: Move| normal_into(m, from, to_mask)),
                forall|m: Move| #[trigger] normal_into(m, from, to_mask) && !bb_has(rest, m.to_spec().idx()) ==> s0.got(*self, m),
                s0.distinct_since(*self),
                forall|x: int| s0.seen@.len() <= x < self.seen@.len() ==> !bb_has(rest, #[trigger] self.seen@[x].to_spec().idx()),
            decreases pop(rest),
        {
            let ghost s1 = *self;
            let ghost rest0 = rest;
            let to = next_square(&mut rest);
            let tsq = Square::from_u8(to);
            self.normal(from, tsq);
            proof {
                lemma_grows_weaken(s1, *self, |m: Move| normal_into(m, from, sq_bit(tsq.idx())), ok, 1);
                lemma_grows_trans(s0, s1, *self, ok, pop(to_mask) - pop(rest0), 1);
                {
                    lemma_grows_extends(s0, s1, ok, pop(to_mask) - pop(rest0));
                    lemma_grows_extends(s1, *self, |m: Move| normal_into(m, from, sq_bit(tsq.idx())), 1);
                    assert forall|m: Move| #[trigger] normal_into(m, from, to_mask) && !bb_has(rest, m.to_spec().idx()) implies s0.got(*self, m) by {
                        if m.to_spec().idx() == to {
                            assert(normal_into(m, from, sq_bit(tsq.idx())));
                        }
                        lemma_got_joined(s0, s1, *self, m);
                    }
                    let q = |x: Move| normal_into(x, from, sq_bit(tsq.idx()));
                    lemma_distinct_join(s0, s1, *self, |x: Move| !bb_has(rest0, x.to_spec().idx()), q);
                    assert forall|x: int| s0.seen@.len() <= x < self.seen@.len() implies !bb_has(rest, #[trigger] self.seen@[x].to_spec().idx()) by {
                        if x < s1.seen@.len() {
                            assert(self.seen@.subrange(0, s1.seen@.len() as int)[x] == self.seen@[x]);
                        } else {
                            assert(q(self.seen@[x]));
                        }
                    }
                }
            }
        }
        proof {
            lemma_pop_zero(rest);
        }
    }

    /// Receives the four promotions from `from` to every square of `to_mask`.
    fn promotions_mask(&mut self, from: Square, to_mask: u64)
        requires
            old(self).count + 4 * pop(to_mask) <= u32::MAX,
        ensures
            old(self).grows(*final(self), |m: Move| promotion_into(m, from, to_mask), 4 * pop(to_mask) as int),
            forall|m: Move| #[trigger] promotion_into(m, from, to_mask) ==> old(self).got(*final(self), m),
            old(self).distinct_since(*final(self)),
    {
        let ghost ok = |m: Move| promotion_into(m, from, to_mask);
        let ghost s0 = *self;
        proof {
            lemma_grows_refl(s0, ok);
            lemma_pop_zero(to_mask);
        }
        let mut rest = to_mask;
        while rest != 0
            invariant
                forall|t: int| 0 <= t < 64 && #[trigger] bb_has(rest, t) ==> bb_has(to_mask, t),
                s0.grows(*self, ok, 4 * (pop(to_mask) - pop(rest))),
                pop(rest) <= pop(to_mask),
                s0.count + 4 * pop(to_mask) <= u32::MAX,
                ok == (|m: Move| promotion_into(m, from, to_mask)),
                forall|m: Move| #[trigger] promotion_into(m, from, to_mask) && !bb_has(rest, m.to_spec().idx()) ==> s0.got(*self, m),
                s0.distinct_since(*self),
                forall|x: int| s0.seen@.len() <= x < self.seen@.len() ==> !bb_has(rest, #[trigger] self.seen@[x].to_spec().idx()),
            decreases pop(rest),
        {
            let ghost s1 = *self;
            let ghost rest0 = rest;
            let to = next_square(&mut rest);
            let tsq = Square::from_u8(to);
            self.promotions(from, tsq);
            proof {
                lemma_grows_weaken(s1, *self, |m: Move| promotion_into(m, from, sq_bit(tsq.idx())), ok, 4);
                lemma_grows_trans(s0, s1, *self, ok, 4 * (pop(to_mask) - pop(rest0)), 4);
                {
                    lemma_grows_extends(s0, s1, ok, 4 * (pop(to_mask) - pop(rest0)));
                    lemma_grows_extends(s1, *self, |m: Move| promotion_into(m, from, sq_bit(tsq.idx())), 4);
                    assert forall|m: Move| #[trigger] promotion_into(m, from, to_mask) && !bb_has(rest, m.to_spec().idx()) implies s0.got(*self, m) by {
                        if m.to_spec().idx() == to {
                            assert(promotion_into(m, from, sq_bit(tsq.idx())));
                        }
                        lemma_got_joined(s0, s1, *self, m);
                    }
                    let q = |x: Move| promotion_into(x, from, sq_bit(tsq.idx()));
                    lemma_distinct_join(s0, s1, *self, |x: Move| !bb_has(rest0, x.to_spec().idx()), q);
                    assert forall|x: int| s0.seen@.len() <= x < self.seen@.len() implies !bb_has(rest, #[trigger] self.seen@[x].to_spec().idx()) by {
                        if x < s1.seen@.len() {
                            assert(self.seen@.subrange(0, s1.seen@.len() as int)[x] == self.seen@[x]);
                        } else {
                            assert(q(self.seen@[x]));
                        }
                    }
                }
            }
        }
        proof {
            lemma_pop_zero(rest);
        }
    }

    /// Receives the pawn moves onto the squares of `to_mask`, each from the square `sd` index
    /// steps away from its target: promotions on `promo_rank`, normal moves elsewhere.
    fn pawn_dsts_from_sd(&mut self, sd: SquareDelta, to_mask: u64, promo_rank: u64)
        requires
            forall|t: int| 0 <= t < 64 && #[trigger] bb_has(to_mask, t) ==> 0 <= t + sd < 64,
            old(self).count + 4 * pop(to_mask) <= u32::MAX,
        ensures
            old(self).grows(
                *final(self),
                |m: Move| pawn_dst(m, sd, to_mask, promo_rank),
                (pop(to_mask & !promo_rank) + 4 * pop(to_mask & promo_rank)) as int,
            ),
            pop(to_mask & !promo_rank) + 4 * pop(to_mask & promo_rank) <= 4 * pop(to_mask),
            forall|m: Move| #[trigger] pawn_dst(m, sd, to_mask, promo_rank) ==> old(self).got(*final(self), m),
            old(self).distinct_since(*final(self)),
    {
        let ghost ok = |m: Move| pawn_dst(m, sd, to_mask, promo_rank);
        let (normal, promotions) = split_promotions(to_mask, promo_rank);
        proof {
            lemma_pop_split(to_mask, promo_rank);
        }
        let ghost s0 = *self;
        proof {
            lemma_grows_refl(s0, ok);
            lemma_pop_zero(normal);
            lemma_pop_zero(promotions);
        }
        let mut rest = normal;
        while rest != 0
            invariant
                forall|t: int| 0 <= t < 64 && #[trigger] bb_has(rest, t) ==> bb_has(normal, t),
                forall|t: int| 0 <= t < 64 ==> #[trigger] bb_has(normal, t) == (bb_has(to_mask, t) && !bb_has(promo_rank, t)),
                forall|t: int| 0 <= t < 64 && #[trigger] bb_has(to_mask, t) ==> 0 <= t + sd < 64,
                s0.grows(*self, ok, pop(normal) - pop(rest)),
                pop(rest) <= pop(normal),
                s0.count + pop(normal) + 4 * pop(promotions) <= u32::MAX,
                ok == (|m: Move| pawn_dst(m, sd, to_mask, promo_rank)),
                forall|m: Move|
                    #[trigger] pawn_dst(m, sd, to_mask, promo_rank) && !bb_has(promo_rank, m.to_spec().idx()) && !bb_has(rest, m.to_spec().idx()) ==> s0.got(*self, m),
                s0.distinct_since(*self),
                forall|x: int| s0.seen@.len() <= x < self.seen@.len() ==> !bb_has(rest, (#[trigger] self.seen@[x]).to_spec().idx())
                    && self.seen@[x].flag_spec() == MoveFlag::NormalMove,
            decreases pop(rest),
        {
            let ghost s1 = *self;
            let ghost rest0 = rest;
            let to = next_square(&mut rest);
            let tsq = Square::from_u8(to);
            let from = match tsq.relative(sd) {
                Some(f) => f,
                None => tsq,
            };
            self.normal(from, tsq);
            proof {
                lemma_grows_weaken(s1, *self, |m: Move| normal_into(m, from, sq_bit(tsq.idx())), ok, 1);
                lemma_grows_trans(s0, s1, *self, ok, pop(normal) - pop(rest0), 1);
                {
                    lemma_grows_extends(s0, s1, ok, pop(normal) - pop(rest0));
                    lemma_grows_extends(s1, *self, |m: Move| normal_into(m, from, sq_bit(tsq.idx())), 1);
                    assert forall|m: Move|
                        #[trigger] pawn_dst(m, sd, to_mask, promo_rank) && !bb_has(promo_rank, m.to_spec().idx()) && !bb_has(rest, m.to_spec().idx()) implies s0.got(*self, m) by {
                        if m.to_spec().idx() == to {
                            Square::lemma_idx_injective(m.from_spec(), from);
                            assert(normal_into(m, from, sq_bit(tsq.idx())));
                        }
                        lemma_got_joined(s0, s1, *self, m);
                    }
                    let q = |x: Move| normal_into(x, from, sq_bit(tsq.idx()));
                    lemma_distinct_join(s0, s1, *self, |x: Move| !bb_has(rest0, x.to_spec().idx()), q);
                    assert forall|x: int| s0.seen@.len() <= x < self.seen@.len() implies !bb_has(rest, (#[trigger] self.seen@[x]).to_spec().idx())
                        && self.seen@[x].flag_spec() == MoveFlag::NormalMove by {
                        if x < s1.seen@.len() {
                            assert(self.seen@.subrange(0, s1.seen@.len() as int)[x] == self.seen@[x]);
                        } else {
                            assert(q(self.seen@[x]));
                        }
                    }
                }
            }
        }
        let ghost s2 = *self;
        proof {
            lemma_pop_zero(rest);
            lemma_grows_refl(s2, ok);
        }
        let mut rest = promotions;
        while rest != 0
            invariant
                forall|t: int| 0 <= t < 64 && #[trigger] bb_has(rest, t) ==> bb_has(promotions, t),
                forall|t: int| 0 <= t < 64 ==> #[trigger] bb_has(promotions, t) == (bb_has(to_mask, t) && bb_has(promo_rank, t)),
                forall|t: int| 0 <= t < 64 && #[trigger] bb_has(to_mask, t) ==> 0 <= t + sd < 64,
                s2.grows(*self, ok, 4 * (pop(promotions) - pop(rest))),
                pop(rest) <= pop(promotions),
                s2.count + 4 * pop(promotions) <= u32::MAX,
                ok == (|m: Move| pawn_dst(m, sd, to_mask, promo_rank)),
                forall|m: Move|
                    #[trigger] pawn_dst(m, sd, to_mask, promo_rank) && bb_has(promo_rank, m.to_spec().idx()) && !bb_has(rest, m.to_spec().idx()) ==> s2.got(*self, m),
                s2.distinct_since(*self),
                forall|x: int| s2.seen@.len() <= x < self.seen@.len() ==> !bb_has(rest, (#[trigger] self.seen@[x]).to_spec().idx())
                    && self.seen@[x].flag_spec() == MoveFlag::Promotion,
            decreases pop(rest),
        {
            let ghost s1 = *self;
            let ghost rest0 = rest;
            let to = next_square(&mut rest);
            let tsq = Square::from_u8(to);
            let from = match tsq.relative(sd) {
                Some(f) => f,
                None => tsq,
            };
            self.promotions(from, tsq);
            proof {
                lemma_grows_weaken(s1, *self, |m: Move| promotion_into(m, from, sq_bit(tsq.idx())), ok, 4);
                lemma_grows_trans(s2, s1, *self, ok, 4 * (pop(promotions) - pop(rest0)), 4);
                {
                    lemma_grows_extends(s2, s1, ok, 4 * (pop(promotions) - pop(rest0)));
                    lemma_grows_extends(s1, *self, |m: Move| promotion_into(m, from, sq_bit(tsq.idx())), 4);
                    assert forall|m: Move|
                        #[trigger] pawn_dst(m, sd, to_mask, promo_rank) && bb_has(promo_rank, m.to_spec().idx()) && !bb_has(rest, m.to_spec().idx()) implies s2.got(*self, m) by {
                        if m.to_spec().idx() == to {
                            Square::lemma_idx_injective(m.from_spec(), from);
                            assert(promotion_into(m, from, sq_bit(tsq.idx())));
                        }
                        lemma_got_joined(s2, s1, *self, m);
                    }
                    let q = |x: Move| promotion_into(x, from, sq_bit(tsq.idx()));
                    lemma_distinct_join(s2, s1, *self, |x: Move| !bb_has(rest0, x.to_spec().idx()), q);
                    assert forall|x: int| s2.seen@.len() <= x < self.seen@.len() implies !bb_has(rest, (#[trigger] self.seen@[x]).to_spec().idx())
                        && self.seen@[x].flag_spec() == MoveFlag::Promotion by {
                        if x < s1.seen@.len() {
                            assert(self.seen@.subrange(0, s1.seen@.len() as int)[x] == self.seen@[x]);
                            assert(!bb_has(rest0, self.seen@[x].to_spec().idx()));
                        } else {
                            assert(q(self.seen@[x]));
                            assert(self.seen@[x].to_spec().idx() == to);
                        }
                    }
                }
            }
        }
        proof {
            lemma_pop_zero(rest);
            lemma_grows_trans(s0, s2, *self, ok, pop(normal) as int, 4 * pop(promotions) as int);
            lemma_grows_extends(s0, s2, ok, pop(normal) as int);
            lemma_grows_extends(s2, *self, ok, 4 * pop(promotions) as int);
            lemma_distinct_join(
                s0,
                s2,
                *self,
                |x: Move| x.flag_spec() == MoveFlag::NormalMove,
                |x: Move| x.flag_spec() == MoveFlag::Promotion,
            );
            {
                lemma_grows_extends(s0, s2, ok, pop(normal) as int);
                lemma_grows_extends(s2, *self, ok, 4 * pop(promotions) as int);
                assert forall|m: Move| #[trigger] pawn_dst(m, sd, to_mask, promo_rank) implies s0.got(*self, m) by {
                    lemma_got_joined(s0, s2, *self, m);
                }
            }
        }
    }
}

/// A pawn move onto a square `t` of `mask` from the square `t + sd`: a promotion when `t` is on
/// `promo_rank`, a normal move otherwise.
pub open spec fn pawn_dst(m: Move, sd: SquareDelta, mask: u64, promo_rank: u64) -> bool {
    let t = m.to_spec().idx();
    &&& bb_has(mask, t)
    &&& m.from_spec().idx() == t + sd
    &&& if bb_has(promo_rank, t) {
        m.flag_spec() == MoveFlag::Promotion && m.promotion_spec().is_promotion_target()
    } else {
        m.flag_spec() == MoveFlag::NormalMove && m.promotion_spec() == Piece::Null
    }
}

/// Splits `to_mask` into the squares off `promo_rank` and those on it.
pub fn split_promotions(to_mask: u64, promo_rank: u64) -> (r: (u64, u64))
    ensures
        r.0 == to_mask & !promo_rank,
        r.1 == to_mask & promo_rank,
        forall|t: int| 0 <= t < 64 ==> #[trigger] bb_has(r.0, t) == (bb_has(to_mask, t) && !bb_has(promo_rank, t)),
        forall|t: int| 0 <= t < 64 ==> #[trigger] bb_has(r.1, t) == (bb_has(to_mask, t) && bb_has(promo_rank, t)),
{
    let promotions = to_mask & promo_rank;
    let normal = to_mask & !promotions;
    proof {
        assert(to_mask & !(to_mask & promo_rank) == to_mask & !promo_rank) by (bit_vector);
    }
    (normal, promotions)
}

/// The squares of `m` split by `p` have counts adding up to the count of `m`.
pub proof fn lemma_pop_split(m: u64, p: u64)
    ensures
        pop(m & !p) + pop(m & p) == pop(m),
{
    lemma_pop_split_upto(m, p, 64);
}

proof fn lemma_pop_split_upto(m: u64, p: u64, n: nat)
    requires
        n <= 64,
    ensures
        crate::bitboard::pop_upto(m & !p, n) + crate::bitboard::pop_upto(m & p, n) == crate::bitboard::pop_upto(m, n),
    decreases n,
{
    broadcast use crate::bitboard::group_bits;
    if n > 0 {
        lemma_pop_split_upto(m, p, (n - 1) as nat);
        let i = n - 1;
        assert(crate::bitboard::bit(m & !p, i) == (crate::bitboard::bit(m, i) && !crate::bitboard::bit(p, i)));
        assert(crate::bitboard::bit(m & p, i) == (crate::bitboard::bit(m, i) && crate::bitboard::bit(p, i)));
    }
}

/// `m` is a piece move of `stm` on `b` that fits the pins of the king on `k`, lands on
/// `dst_mask` and moves the piece as it moves.
pub open spec fn fits_on(b: Board, stm: Color, k: int, pinned: u64, dst_mask: u64) -> spec_fn(Move) -> bool {
    |m: Move| piece_move_fits(b, stm, k, pinned, dst_mask, m) && moves_by_rule(b, stm, m)
}

/// `new` is `old` after receiving at most `bound` moves, each satisfying `ok`.
pub open spec fn grows_upto(old: MoveSink, new: MoveSink, ok: spec_fn(Move) -> bool, bound: int) -> bool {
    &&& old.count <= new.count <= old.count + bound
    &&& old.grows(new, ok, new.count - old.count)
}

/// The squares of `to_mask` a piece on `from` may move to given the pins: all of them when it
/// is not pinned, only those on the line through it and its king when it is.
pub fn pin_restrict(from: Square, to_mask: u64, king: Square, pinned_mask: u64) -> (r: u64)
    ensures
        forall|t: int| 0 <= t < 64 ==> #[trigger] bb_has(r, t) == (bb_has(to_mask, t) && (bb_has(pinned_mask, from.idx()) ==> line_spec(from.idx(), king.idx(), t))),
{
    let fm = from.mask() & pinned_mask;
    proof {
        crate::board_attacks::lemma_empty_iff(fm);
        if fm == 0 {
            assert(!bb_has(fm, from.idx()));
        }
    }
    let pin_mask = if fm != 0 {
        edge_to_edge_ray(from, king)
    } else {
        !0u64
    };
    to_mask & pin_mask
}

/// A normal move of a piece of `stm` onto a square without a piece of `stm` can be played.
pub proof fn lemma_normal_ok(b: Board, stm: Color, m: Move)
    requires
        b.wf(),
        m.flag_spec() == MoveFlag::NormalMove,
        b.piece(m.from_spec().idx()) == Piece::Pawn ==> m.to_spec().idx() != m.from_spec().idx() + 16
            && m.to_spec().idx() != m.from_spec().idx() - 16,
        b.piece(m.from_spec().idx()) != Piece::Null,
        b.color(m.from_spec().idx()) == stm,
        !bb_has(b.cm(stm.idx()), m.to_spec().idx()),
    ensures
        move_ok(b, stm, m),
{
    b.lemma_square(m.from_spec().idx());
    b.lemma_square(m.to_spec().idx());
}

/// The squares of `src` hold pieces of `stm` other than pawns and kings, and `dst` holds no piece of
/// `stm`.
pub open spec fn own_and_free(b: Board, stm: Color, src: u64, dst: u64) -> bool {
    &&& forall|s: int|
        0 <= s < 64 && #[trigger] bb_has(src, s) ==> b.piece(s) != Piece::Null && b.piece(s) != Piece::Pawn && b.piece(s) != Piece::King && b.color(s) == stm
    &&& forall|t: int| 0 <= t < 64 && #[trigger] bb_has(dst, t) ==> !bb_has(b.cm(stm.idx()), t)
}

/// A normal move of a knight of `knights` by a jump onto a square of `dst_mask`.
pub open spec fn knight_cand(knights: u64, dst_mask: u64, m: Move) -> bool {
    let f = m.from_spec().idx();
    let t = m.to_spec().idx();
    &&& bb_has(knights, f)
    &&& m.flag_spec() == MoveFlag::NormalMove
    &&& m.promotion_spec() == Piece::Null
    &&& knight_jump(f, t)
    &&& bb_has(dst_mask, t)
}

/// Receives the moves of the unpinned knights `knights` onto the squares of `dst_mask`.
fn emit_knight_moves(
    knights: u64,
    dst_mask: u64,
    sink: &mut MoveSink,
    Ghost(b): Ghost<Board>,
    Ghost(stm): Ghost<Color>,
    Ghost(k): Ghost<int>,
    Ghost(pinned): Ghost<u64>,
)
    requires
        b.wf(),
        own_and_free(b, stm, knights, dst_mask),
        forall|s: int| 0 <= s < 64 && #[trigger] bb_has(knights, s) ==> b.piece(s) == Piece::Knight && !bb_has(pinned, s),
        old(sink).count + 4096 <= u32::MAX,
    ensures
        grows_upto(
            *old(sink),
            *final(sink),
            |m: Move| fits_on(b, stm, k, pinned, dst_mask)(m) && move_stage(b, stm, m) == 4,
            4096,
        ),
        forall|m: Move| #[trigger] knight_cand(knights, dst_mask, m) ==> old(sink).got(*final(sink), m),
        old(sink).distinct_since(*final(sink)),
{
    let ghost ok = |m: Move| fits_on(b, stm, k, pinned, dst_mask)(m) && move_stage(b, stm, m) == 4;
    let ghost s0 = *sink;
    proof {
        lemma_grows_refl(s0, ok);
        lemma_pop_zero(knights);
    }
    let mut rest = knights;
    while rest != 0
        invariant
            b.wf(),
            own_and_free(b, stm, knights, dst_mask),
            forall|s: int| 0 <= s < 64 && #[trigger] bb_has(knights, s) ==> b.piece(s) == Piece::Knight && !bb_has(pinned, s),
            forall|t: int| 0 <= t < 64 && #[trigger] bb_has(rest, t) ==> bb_has(knights, t),
            pop(rest) <= pop(knights) <= 64,
            s0.count <= sink.count <= s0.count + 64 * (pop(knights) - pop(rest)),
            s0.grows(*sink, ok, sink.count - s0.count),
            s0.count + 4096 <= u32::MAX,
            ok == (|m: Move| fits_on(b, stm, k, pinned, dst_mask)(m) && move_stage(b, stm, m) == 4),
            forall|m: Move| #[trigger] knight_cand(knights, dst_mask, m) && !bb_has(rest, m.from_spec().idx()) ==> s0.got(*sink, m),
            s0.distinct_since(*sink),
            forall|x: int| s0.seen@.len() <= x < sink.seen@.len() ==> !bb_has(rest, (#[trigger] sink.seen@[x]).from_spec().idx()),
        decreases pop(rest),
    {
        let ghost s1 = *sink;
        let ghost rest0 = rest;
        let src = next_square(&mut rest);
        let src_square = Square::from_u8(src);
        let to_mask = single_knight_attacks(src_square) & dst_mask;
        proof {
            lemma_pop_zero(to_mask);
        }
        sink.normal_mask(src_square, to_mask);
        proof {
            assert forall|m: Move| #[trigger] normal_into(m, src_square, to_mask) implies ok(m) by {
                lemma_normal_ok(b, stm, m);
                assert forall|u: int| 0 <= u < 64 && #[trigger] between_spec(m.from_spec().idx(), m.to_spec().idx(), u) implies b.piece(u) == Piece::Null by {
                    lemma_knight_no_between(m.from_spec().idx(), m.to_spec().idx(), u);
                }
            }
            lemma_grows_weaken(s1, *sink, |m: Move| normal_into(m, src_square, to_mask), ok, pop(to_mask) as int);
            lemma_grows_trans(s0, s1, *sink, ok, s1.count - s0.count, pop(to_mask) as int);
            {
                lemma_grows_extends(s0, s1, ok, s1.count - s0.count);
                lemma_grows_extends(s1, *sink, |m: Move| normal_into(m, src_square, to_mask), pop(to_mask) as int);
                assert forall|m: Move| #[trigger] knight_cand(knights, dst_mask, m) && !bb_has(rest, m.from_spec().idx()) implies s0.got(*sink, m) by {
                    if m.from_spec().idx() == src {
                        Square::lemma_idx_injective(m.from_spec(), src_square);
                        assert(normal_into(m, src_square, to_mask));
                    }
                    lemma_got_joined(s0, s1, *sink, m);
                }
                lemma_origins_step(s0, s1, *sink, rest0, rest, src as int, |m: Move| normal_into(m, src_square, to_mask));
            }
        }
    }
    proof {
        lemma_pop_zero(rest);
    }
}

/// A normal move of a piece of kind `piece` in `pieces` along its lines (with the occupied
/// squares `occ`) onto a square of `dst_mask`, staying on the line through it and the king on
/// `k` when it is pinned.
pub open spec fn slider_cand(piece: Piece, occ: u64, pieces: u64, k: int, dst_mask: u64, pinned: u64, m: Move) -> bool {
    let f = m.from_spec().idx();
    let t = m.to_spec().idx();
    &&& bb_has(pieces, f)
    &&& m.flag_spec() == MoveFlag::NormalMove
    &&& m.promotion_spec() == Piece::Null
    &&& slider_attack(piece, f, t, occ)
    &&& bb_has(dst_mask, t)
    &&& (bb_has(pinned, f) ==> line_spec(f, k, t))
}

/// Receives the moves of the sliding pieces `pieces` of kind `piece` onto the squares of
/// `dst_mask`, pinned ones only along their pin line.
fn emit_sliding_moves(
    piece: Piece,
    occupancy: u64,
    pieces: u64,
    king_sq: Square,
    dst_mask: u64,
    pinned: u64,
    sink: &mut MoveSink,
    Ghost(b): Ghost<Board>,
    Ghost(stm): Ghost<Color>,
)
    requires
        piece == Piece::Bishop || piece == Piece::Rook || piece == Piece::Queen,
        b.wf(),
        occupancy == b.occ(),
        own_and_free(b, stm, pieces, dst_mask),
        forall|s: int| 0 <= s < 64 && #[trigger] bb_has(pieces, s) ==> b.piece(s) == piece,
        old(sink).count + 4096 <= u32::MAX,
    ensures
        grows_upto(
            *old(sink),
            *final(sink),
            |m: Move| fits_on(b, stm, king_sq.idx(), pinned, dst_mask)(m) && move_stage(b, stm, m) == slider_stage(piece),
            4096,
        ),
        forall|m: Move|
            #[trigger] slider_cand(piece, occupancy, pieces, king_sq.idx(), dst_mask, pinned, m) ==> old(sink).got(*final(sink), m),
        old(sink).distinct_since(*final(sink)),
{
    let ghost ok = |m: Move| fits_on(b, stm, king_sq.idx(), pinned, dst_mask)(m) && move_stage(b, stm, m) == slider_stage(piece);
    let ghost s0 = *sink;
    proof {
        lemma_grows_refl(s0, ok);
        lemma_pop_zero(pieces);
    }
    let mut rest = pieces;
    while rest != 0
        invariant
            piece == Piece::Bishop || piece == Piece::Rook || piece == Piece::Queen,
            b.wf(),
            occupancy == b.occ(),
            own_and_free(b, stm, pieces, dst_mask),
            forall|s: int| 0 <= s < 64 && #[trigger] bb_has(pieces, s) ==> b.piece(s) == piece,
            forall|t: int| 0 <= t < 64 && #[trigger] bb_has(rest, t) ==> bb_has(pieces, t),
            pop(rest) <= pop(pieces) <= 64,
            s0.count <= sink.count <= s0.count + 64 * (pop(pieces) - pop(rest)),
            s0.grows(*sink, ok, sink.count - s0.count),
            s0.count + 4096 <= u32::MAX,
            ok == (|m: Move| fits_on(b, stm, king_sq.idx(), pinned, dst_mask)(m) && move_stage(b, stm, m) == slider_stage(piece)),
            forall|m: Move|
                #[trigger] slider_cand(piece, occupancy, pieces, king_sq.idx(), dst_mask, pinned, m) && !bb_has(rest, m.from_spec().idx()) ==> s0.got(*sink, m),
            s0.distinct_since(*sink),
            forall|x: int| s0.seen@.len() <= x < sink.seen@.len() ==> !bb_has(rest, (#[trigger] sink.seen@[x]).from_spec().idx()),
        decreases pop(rest),
    {
        let ghost s1 = *sink;
        let ghost rest0 = rest;
        let src = next_square(&mut rest);
        let from = Square::from_u8(src);
        let to_mask = manual_sliding_piece_attacks(piece, from, occupancy) & dst_mask;
        let allowed = pin_restrict(from, to_mask, king_sq, pinned);
        proof {
            lemma_pop_zero(allowed);
        }
        sink.normal_mask(from, allowed);
        proof {
            assert forall|m: Move| #[trigger] normal_into(m, from, allowed) implies ok(m) by {
                lemma_normal_ok(b, stm, m);
                assert forall|u: int| 0 <= u < 64 && #[trigger] between_spec(m.from_spec().idx(), m.to_spec().idx(), u) implies b.piece(u) == Piece::Null by {
                    lemma_slider_path_clear(piece, from.idx(), m.to_spec().idx(), occupancy, u);
                    b.lemma_square(u);
                }
            }
            lemma_grows_weaken(s1, *sink, |m: Move| normal_into(m, from, allowed), ok, pop(allowed) as int);
            lemma_grows_trans(s0, s1, *sink, ok, s1.count - s0.count, pop(allowed) as int);
            {
                lemma_grows_extends(s0, s1, ok, s1.count - s0.count);
                lemma_grows_extends(s1, *sink, |m: Move| normal_into(m, from, allowed), pop(allowed) as int);
                assert forall|m: Move|
                    #[trigger] slider_cand(piece, occupancy, pieces, king_sq.idx(), dst_mask, pinned, m) && !bb_has(rest, m.from_spec().idx()) implies s0.got(*sink, m) by {
                    if m.from_spec().idx() == src {
                        Square::lemma_idx_injective(m.from_spec(), from);
                        assert(normal_into(m, from, allowed));
                    }
                    lemma_got_joined(s0, s1, *sink, m);
                }
                lemma_origins_step(s0, s1, *sink, rest0, rest, src as int, |m: Move| normal_into(m, from, allowed));
            }
        }
    }
    proof {
        lemma_pop_zero(rest);
    }
}

/// A normal step of the king of `stm` from `k` onto a square without a piece of `stm` that no
/// opposing piece attacks once the king has left `k` and any piece on the target is taken.
pub open spec fn king_cand(b: Board, stm: Color, k: int, m: Move) -> bool {
    let t = m.to_spec().idx();
    let mask = sq_bit(k) | sq_bit(t);
    &&& m.from_spec().idx() == k
    &&& m.flag_spec() == MoveFlag::NormalMove
    &&& m.promotion_spec() == Piece::Null
    &&& king_step(k, t)
    &&& !bb_has(b.cm(stm.idx()), t)
    &&& !attacked_by(b, stm.opp(), t, b.cm(stm.opp().idx()) & !mask, b.occ() ^ mask)
}

/// Receives the king's moves to squares without a piece of its own that are not attacked once
/// the king has left its square.
fn emit_king_moves(
    board: &Board,
    stm: Color,
    king_sq: Square,
    stm_occupancy: u64,
    king_mask: u64,
    sink: &mut MoveSink,
)
    requires
        board.wf(),
        board.holds(king_sq.idx(), Piece::King, stm),
        king_mask == sq_bit(king_sq.idx()),
        forall|t: int| 0 <= t < 64 ==> #[trigger] bb_has(stm_occupancy, t) == bb_has(board.cm(stm.idx()), t),
        old(sink).count + 64 <= u32::MAX,
    ensures
        grows_upto(
            *old(sink),
            *final(sink),
            |m: Move| king_move_fits(*board, stm, king_sq.idx(), m) && move_stage(*board, stm, m) == 0,
            64,
        ),
        forall|m: Move| #[trigger] king_cand(*board, stm, king_sq.idx(), m) ==> old(sink).got(*final(sink), m),
        old(sink).distinct_since(*final(sink)),
{
    let ghost b = *board;
    let ghost ok = |m: Move| king_move_fits(b, stm, king_sq.idx(), m) && move_stage(b, stm, m) == 0;
    let ghost s0 = *sink;
    let king_moves = single_king_attacks(king_sq) & !stm_occupancy;
    proof {
        lemma_grows_refl(s0, ok);
        lemma_pop_zero(king_moves);
    }
    let mut rest = king_moves;
    while rest != 0
        invariant
            b == *board,
            b.wf(),
            b.holds(king_sq.idx(), Piece::King, stm),
            king_mask == sq_bit(king_sq.idx()),
            forall|t: int| 0 <= t < 64 ==> #[trigger] bb_has(stm_occupancy, t) == bb_has(b.cm(stm.idx()), t),
            forall|t: int| 0 <= t < 64 && #[trigger] bb_has(rest, t) ==> bb_has(king_moves, t),
            forall|t: int| 0 <= t < 64 ==> #[trigger] bb_has(king_moves, t) == (king_step(king_sq.idx(), t) && !bb_has(stm_occupancy, t)),
            pop(rest) <= pop(king_moves) <= 64,
            s0.count <= sink.count <= s0.count + (pop(king_moves) - pop(rest)),
            s0.grows(*sink, ok, sink.count - s0.count),
            s0.count + 64 <= u32::MAX,
            ok == (|m: Move| king_move_fits(b, stm, king_sq.idx(), m) && move_stage(b, stm, m) == 0),
            forall|m: Move| #[trigger] king_cand(b, stm, king_sq.idx(), m) && !bb_has(rest, m.to_spec().idx()) ==> s0.got(*sink, m),
            s0.distinct_since(*sink),
            forall|x: int| s0.seen@.len() <= x < sink.seen@.len() ==> !bb_has(rest, (#[trigger] sink.seen@[x]).to_spec().idx()),
        decreases pop(rest),
    {
        let ghost s1 = *sink;
        let ghost rest0 = rest;
        let dst = next_square(&mut rest);
        let dst_square = Square::from_u8(dst);
        let dst_mask = dst_square.mask();
        if !board.is_square_attacked_after_move(dst_square, stm.other(), king_mask | dst_mask) {
            sink.normal(king_sq, dst_square);
            proof {
                assert forall|m: Move| #[trigger] normal_into(m, king_sq, sq_bit(dst_square.idx())) implies ok(m) by {
                    lemma_normal_ok(b, stm, m);
                    assert(m.to_spec().idx() == dst_square.idx());
                }
                lemma_grows_weaken(s1, *sink, |m: Move| normal_into(m, king_sq, sq_bit(dst_square.idx())), ok, 1);
                lemma_grows_trans(s0, s1, *sink, ok, s1.count - s0.count, 1);
                {
                    lemma_grows_extends(s0, s1, ok, s1.count - s0.count);
                    lemma_grows_extends(s1, *sink, |m: Move| normal_into(m, king_sq, sq_bit(dst_square.idx())), 1);
                    assert forall|m: Move| #[trigger] king_cand(b, stm, king_sq.idx(), m) && !bb_has(rest, m.to_spec().idx()) implies s0.got(*sink, m) by {
                        if m.to_spec().idx() == dst {
                            Square::lemma_idx_injective(m.from_spec(), king_sq);
                            assert(normal_into(m, king_sq, sq_bit(dst_square.idx())));
                        }
                        lemma_got_joined(s0, s1, *sink, m);
                    }
                    lemma_targets_step(s0, s1, *sink, rest0, rest, dst as int, |m: Move| normal_into(m, king_sq, sq_bit(dst_square.idx())));
                }
            }
        } else {
            proof {
                let mask = sq_bit(king_sq.idx()) | sq_bit(dst as int);
                assert(attacked_by(b, stm.opp(), dst as int, b.cm(stm.opp().idx()) & !mask, b.occ() ^ mask));
                {
                    assert forall|m: Move| #[trigger] king_cand(b, stm, king_sq.idx(), m) && !bb_has(rest, m.to_spec().idx()) implies s0.got(*sink, m) by {
                        if m.to_spec().idx() == dst {
                            assert(sq_bit(king_sq.idx()) | sq_bit(m.to_spec().idx()) == mask);
                        } else {
                            assert(!bb_has(rest0, m.to_spec().idx()));
                        }
                    }
                    assert forall|x: int| s0.seen@.len() <= x < sink.seen@.len() implies !bb_has(rest, (#[trigger] sink.seen@[x]).to_spec().idx()) by {
                        assert(!bb_has(rest0, sink.seen@[x].to_spec().idx()));
                    }
                }
            }
        }
    }
    proof {
        lemma_pop_zero(rest);
    }
}

/// The squares of `stm`'s pawns in `pawns` all hold pawns of `stm`.
pub open spec fn own_pawns(b: Board, stm: Color, pawns: u64) -> bool {
    forall|s: int| 0 <= s < 64 && #[trigger] bb_has(pawns, s) ==> b.piece(s) == Piece::Pawn && b.color(s) == stm
}

/// The rank (0-based) pawns of `stm` promote on.
pub open spec fn promo_rank_of(stm: Color) -> int {
    if stm == Color::White {
        7
    } else {
        0
    }
}

/// A pawn move onto a square where no piece of `stm` stands, from a pawn of `stm`, is playable
/// when its kind matches the target rank as `pawn_dst` describes.
proof fn lemma_pawn_dst_ok(b: Board, stm: Color, m: Move, sd: SquareDelta, mask: u64, promo: u64)
    requires
        b.wf(),
        pawn_dst(m, sd, mask, promo),
        sd != 0,
        sd == 16 || sd == -16 ==> crate::position::make_move::double_push_ok(b, stm, m),
        b.piece(m.from_spec().idx()) == Piece::Pawn,
        b.color(m.from_spec().idx()) == stm,
        !bb_has(b.cm(stm.idx()), m.to_spec().idx()),
    ensures
        move_ok(b, stm, m),
{
    b.lemma_square(m.from_spec().idx());
    b.lemma_square(m.to_spec().idx());
}

/// The kind `m` must have as a pawn move of `stm`: a promotion to a knight, bishop, rook or
/// queen on the last rank, a normal move elsewhere.
pub open spec fn pawn_kind_ok(stm: Color, m: Move) -> bool {
    if sq_rank(m.to_spec().idx()) == promo_rank_of(stm) {
        m.flag_spec() == MoveFlag::Promotion && m.promotion_spec().is_promotion_target()
    } else {
        m.flag_spec() == MoveFlag::NormalMove && m.promotion_spec() == Piece::Null
    }
}

/// A push of a pawn of `pawns` onto an empty square of `dst_mask`: one square ahead, or two
/// from its starting rank over an empty square; a pinned pawn only when on its king's file.
pub open spec fn push_cand(stm: Color, occ: u64, pawns: u64, k: int, dst_mask: u64, pinned: u64, m: Move) -> bool {
    let f = m.from_spec().idx();
    let t = m.to_spec().idx();
    &&& bb_has(pawns, f)
    &&& (bb_has(pinned, f) ==> sq_file(f) == sq_file(k))
    &&& bb_has(dst_mask, t)
    &&& !bb_has(occ, t)
    &&& (pawn_step(stm, f, t) || (sq_rank(f) == (if stm == Color::White {
        1int
    } else {
        6int
    }) && t == f - 16 * fwd(stm) && !bb_has(occ, f - 8 * fwd(stm))))
    &&& pawn_kind_ok(stm, m)
}

/// Receives the pushes of `pawns_stm` by one square, and by two from their starting rank, onto
/// empty squares of `dst_mask`; pawns pinned off their king's file do not move.
#[verifier::spinoff_prover]
#[verifier::rlimit(60)]
fn emit_pawn_pushes(
    stm: Color,
    occupied: u64,
    pawns_stm: u64,
    king_sq: Square,
    dst_mask: u64,
    pinned: u64,
    sink: &mut MoveSink,
    Ghost(b): Ghost<Board>,
)
    requires
        b.wf(),
        occupied == b.occ(),
        own_pawns(b, stm, pawns_stm),
        forall|t: int| 0 <= t < 64 && #[trigger] bb_has(dst_mask, t) ==> !bb_has(b.cm(stm.idx()), t),
        old(sink).count + 512 <= u32::MAX,
    ensures
        grows_upto(
            *old(sink),
            *final(sink),
            |m: Move| fits_on(b, stm, king_sq.idx(), pinned, dst_mask)(m) && move_stage(b, stm, m) == 3,
            512,
        ),
        forall|m: Move|
            #[trigger] push_cand(stm, occupied, pawns_stm, king_sq.idx(), dst_mask, pinned, m) ==> old(sink).got(*final(sink), m),
        old(sink).distinct_since(*final(sink)),
{
    let ghost k = king_sq.idx();
    let ghost ok = |m: Move| fits_on(b, stm, k, pinned, dst_mask)(m) && move_stage(b, stm, m) == 3;
    let king_file_mask = king_sq.file().mask();
    let movable_pawns = pawns_stm & !(pinned & !king_file_mask);
    let promo_rank = Rank::Eight.from_perspective(stm).mask();
    let push_again_mask = Rank::Three.from_perspective(stm).mask();
    let down = DOWN.for_perspective(stm);
    let single_push_dsts = multi_pawn_moves(movable_pawns, stm) & !occupied;
    let single = single_push_dsts & dst_mask;
    proof {
        assert forall|t: int| 0 <= t < 64 && #[trigger] bb_has(single_push_dsts, t) implies 0 <= t + down < 64 && bb_has(movable_pawns, t + down)
            && pawn_step(stm, t + down, t) by {
            let s = choose|s: int| 0 <= s < 64 && bb_has(movable_pawns, s) && #[trigger] pawn_step(stm, s, t);
            lemma_delta(s, t);
        }
        assert forall|f: int| 0 <= f < 64 && #[trigger] bb_has(movable_pawns, f) && bb_has(pinned, f) implies sq_file(f) == sq_file(k) by {
            assert(bb_has(king_file_mask, f));
        }
        lemma_pop_zero(single);
    }
    let ghost s0 = *sink;
    sink.pawn_dsts_from_sd(down, single, promo_rank);
    proof {
        assert forall|m: Move| #[trigger] pawn_dst(m, down, single, promo_rank) implies ok(m) by {
            let f = m.from_spec().idx();
            let t = m.to_spec().idx();
            lemma_pawn_dst_ok(b, stm, m, down, single, promo_rank);
            assert(bb_has(single_push_dsts, t));
            lemma_delta(f, t);
            lemma_delta(k, t);
            b.lemma_square(t);
            assert(pawn_step(stm, f, t));
            assert(bb_has(promo_rank, t) == (sq_rank(t) == promo_rank_of(stm)));
            assert(!pawn_attack(stm, f, t));
            assert forall|u: int| 0 <= u < 64 && #[trigger] between_spec(f, t, u) implies b.piece(u) == Piece::Null by {
                lemma_neighbors_adjacent(f, t, u);
            }
        }
        lemma_grows_weaken(s0, *sink, |m: Move| pawn_dst(m, down, single, promo_rank), ok, sink.count - s0.count);
    }
    let ghost s1 = *sink;
    let double_push_dsts = multi_pawn_moves(single_push_dsts & push_again_mask, stm) & !occupied & dst_mask;
    let down2 = down * 2;
    proof {
        assert forall|t: int| 0 <= t < 64 && #[trigger] bb_has(double_push_dsts, t) implies 0 <= t + down2 < 64 && bb_has(movable_pawns, t + down2)
            && t + down < 64 && t + down >= 0 && !bb_has(occupied, t + down) && !bb_has(occupied, t)
            && sq_rank(t + down2) == (if stm == Color::White { 1int } else { 6int })
            && same_file(t + down2, t) && bb_has(dst_mask, t) by {
            let s = choose|s: int| 0 <= s < 64 && bb_has(single_push_dsts & push_again_mask, s) && #[trigger] pawn_step(stm, s, t);
            lemma_delta(s, t);
            assert(bb_has(single_push_dsts, s));
            let s2 = choose|s2: int| 0 <= s2 < 64 && bb_has(movable_pawns, s2) && #[trigger] pawn_step(stm, s2, s);
            lemma_delta(s2, s);
        }
        lemma_pop_zero(double_push_dsts);
    }
    sink.pawn_dsts_from_sd(down2, double_push_dsts, 0);
    proof {
        assert forall|m: Move| #[trigger] pawn_dst(m, down2, double_push_dsts, 0) implies ok(m) by {
            let f = m.from_spec().idx();
            let t = m.to_spec().idx();
            b.lemma_square(t);
            b.lemma_square(t + down);
            lemma_pawn_dst_ok(b, stm, m, down2, double_push_dsts, 0);
            lemma_delta(k, t);
            lemma_delta(f, t);
            assert(double_push_ok(b, stm, m));
            assert(!pawn_attack(stm, f, t));
            assert forall|u: int| 0 <= u < 64 && #[trigger] between_spec(f, t, u) implies b.piece(u) == Piece::Null by {
                lemma_double_step_between(f, t, u);
            }
        }
        lemma_grows_weaken(s1, *sink, |m: Move| pawn_dst(m, down2, double_push_dsts, 0), ok, sink.count - s1.count);
        lemma_grows_trans(s0, s1, *sink, ok, s1.count - s0.count, sink.count - s1.count);
        lemma_grows_extends(s0, s1, ok, s1.count - s0.count);
        lemma_grows_extends(s1, *sink, ok, sink.count - s1.count);
        let d1 = down as int;
        let d2 = down2 as int;
        assert(d1 != d2);
        let p1 = |m: Move| pawn_dst(m, down, single, promo_rank);
        let p2 = |m: Move| pawn_dst(m, down2, double_push_dsts, 0);
        assert forall|j: int| s0.seen@.len() <= j < s1.seen@.len() implies (#[trigger] s1.seen@[j]).from_spec().idx() == s1.seen@[j].to_spec().idx() + d1 by {
            assert(p1(s1.seen@[j]));
        }
        assert forall|j: int| s1.seen@.len() <= j < sink.seen@.len() implies (#[trigger] sink.seen@[j]).from_spec().idx() == sink.seen@[j].to_spec().idx() + d2 by {
            assert(p2(sink.seen@[j]));
        }
        lemma_distinct_join(
            s0,
            s1,
            *sink,
            |m: Move| m.from_spec().idx() == m.to_spec().idx() + d1,
            |m: Move| m.from_spec().idx() == m.to_spec().idx() + d2,
        );
        {
            lemma_grows_extends(s0, s1, ok, s1.count - s0.count);
            lemma_grows_extends(s1, *sink, ok, sink.count - s1.count);
            assert forall|m: Move| #[trigger] push_cand(stm, occupied, pawns_stm, k, dst_mask, pinned, m) implies s0.got(*sink, m) by {
                let f = m.from_spec().idx();
                let t = m.to_spec().idx();
                lemma_delta(f, t);
                assert(bb_has(movable_pawns, f));
                if pawn_step(stm, f, t) {
                    assert(bb_has(single_push_dsts, t));
                    assert(pawn_dst(m, down, single, promo_rank));
                } else {
                    let mid = f - 8 * fwd(stm);
                    lemma_delta(f, mid);
                    lemma_delta(mid, t);
                    assert(pawn_step(stm, f, mid));
                    assert(bb_has(single_push_dsts, mid));
                    assert(pawn_step(stm, mid, t));
                    assert(bb_has(double_push_dsts, t));
                    assert(pawn_dst(m, down2, double_push_dsts, 0));
                }
                lemma_got_joined(s0, s1, *sink, m);
            }
        }
    }
}

/// A capture (not en passant) by a pawn of `pawns` of a piece in `opposite` on a square of
/// `dst_mask`; a pinned pawn only along the line through it and its king on `k`.
pub open spec fn capture_cand(stm: Color, pawns: u64, opposite: u64, k: int, dst_mask: u64, pinned: u64, m: Move) -> bool {
    let f = m.from_spec().idx();
    let t = m.to_spec().idx();
    &&& bb_has(pawns, f)
    &&& pawn_attack(stm, f, t)
    &&& bb_has(opposite, t)
    &&& bb_has(dst_mask, t)
    &&& (bb_has(pinned, f) ==> line_spec(f, k, t))
    &&& pawn_kind_ok(stm, m)
}

/// Receives the pawn captures (not en passant) of `stm_pawns` onto opposing pieces in
/// `dst_mask`; pinned pawns capture only along their pin line.
#[verifier::spinoff_prover]
#[verifier::rlimit(60)]
fn emit_non_ep_pawn_captures(
    stm: Color,
    stm_pawns: u64,
    opposite_pieces: u64,
    king_sq: Square,
    dst_mask: u64,
    pinned: u64,
    sink: &mut MoveSink,
    Ghost(b): Ghost<Board>,
)
    requires
        b.wf(),
        own_pawns(b, stm, stm_pawns),
        forall|t: int| 0 <= t < 64 && #[trigger] bb_has(dst_mask, t) ==> !bb_has(b.cm(stm.idx()), t),
        forall|t: int| 0 <= t < 64 && #[trigger] bb_has(opposite_pieces, t) ==> b.piece(t) != Piece::Null,
        old(sink).count + 20000 <= u32::MAX,
    ensures
        grows_upto(
            *old(sink),
            *final(sink),
            |m: Move| fits_on(b, stm, king_sq.idx(), pinned, dst_mask)(m) && move_stage(b, stm, m) == 1,
            20000,
        ),
        forall|m: Move|
            #[trigger] capture_cand(stm, stm_pawns, opposite_pieces, king_sq.idx(), dst_mask, pinned, m) ==> old(sink).got(*final(sink), m),
        old(sink).distinct_since(*final(sink)),
{
    let ghost k = king_sq.idx();
    let ghost ok = |m: Move| fits_on(b, stm, k, pinned, dst_mask)(m) && move_stage(b, stm, m) == 1;
    let up_left = UP_LEFT.for_perspective(stm);
    let up_right = UP_RIGHT.for_perspective(stm);
    let down_right = -up_left;
    let down_left = -up_right;
    let promo_rank = Rank::Eight.from_perspective(stm).mask();
    let free = stm_pawns & !pinned;
    let left = multi_pawn_attacks_left(free, stm) & opposite_pieces & dst_mask;
    let right = multi_pawn_attacks_right(free, stm) & opposite_pieces & dst_mask;
    proof {
        assert forall|t: int| 0 <= t < 64 && #[trigger] bb_has(left, t) implies 0 <= t + down_right < 64 && bb_has(free, t + down_right)
            && pawn_attack_left(stm, t + down_right, t) by {
            let s = choose|s: int| 0 <= s < 64 && bb_has(free, s) && #[trigger] pawn_attack_left(stm, s, t);
            lemma_delta(s, t);
        }
        assert forall|t: int| 0 <= t < 64 && #[trigger] bb_has(right, t) implies 0 <= t + down_left < 64 && bb_has(free, t + down_left)
            && pawn_attack_right(stm, t + down_left, t) by {
            let s = choose|s: int| 0 <= s < 64 && bb_has(free, s) && #[trigger] pawn_attack_right(stm, s, t);
            lemma_delta(s, t);
        }
        lemma_pop_zero(left);
        lemma_pop_zero(right);
    }
    let ghost s0 = *sink;
    sink.pawn_dsts_from_sd(down_right, left, promo_rank);
    proof {
        assert forall|m: Move| #[trigger] pawn_dst(m, down_right, left, promo_rank) implies ok(m) by {
            let f = m.from_spec().idx();
            let t = m.to_spec().idx();
            lemma_pawn_dst_ok(b, stm, m, down_right, left, promo_rank);
            lemma_delta(f, t);
            assert(pawn_attack_left(stm, f, t));
            assert(bb_has(promo_rank, t) == (sq_rank(t) == promo_rank_of(stm)));
            assert forall|u: int| 0 <= u < 64 && #[trigger] between_spec(f, t, u) implies b.piece(u) == Piece::Null by {
                lemma_neighbors_adjacent(f, t, u);
            }
        }
        lemma_grows_weaken(s0, *sink, |m: Move| pawn_dst(m, down_right, left, promo_rank), ok, sink.count - s0.count);
    }
    let ghost s1 = *sink;
    sink.pawn_dsts_from_sd(down_left, right, promo_rank);
    proof {
        assert forall|m: Move| #[trigger] pawn_dst(m, down_left, right, promo_rank) implies ok(m) by {
            let f = m.from_spec().idx();
            let t = m.to_spec().idx();
            lemma_pawn_dst_ok(b, stm, m, down_left, right, promo_rank);
            lemma_delta(f, t);
            assert(pawn_attack_right(stm, f, t));
            assert(bb_has(promo_rank, t) == (sq_rank(t) == promo_rank_of(stm)));
            assert forall|u: int| 0 <= u < 64 && #[trigger] between_spec(f, t, u) implies b.piece(u) == Piece::Null by {
                lemma_neighbors_adjacent(f, t, u);
            }
        }
        lemma_grows_weaken(s1, *sink, |m: Move| pawn_dst(m, down_left, right, promo_rank), ok, sink.count - s1.count);
        lemma_grows_trans(s0, s1, *sink, ok, s1.count - s0.count, sink.count - s1.count);
        lemma_grows_extends(s0, s1, ok, s1.count - s0.count);
        lemma_grows_extends(s1, *sink, ok, sink.count - s1.count);
        let dr = down_right as int;
        let dl = down_left as int;
        let pl = |m: Move| pawn_dst(m, down_right, left, promo_rank);
        let pr = |m: Move| pawn_dst(m, down_left, right, promo_rank);
        assert forall|j: int| s0.seen@.len() <= j < s1.seen@.len() implies (#[trigger] s1.seen@[j]).from_spec().idx() == s1.seen@[j].to_spec().idx() + dr
            && !bb_has(pinned, s1.seen@[j].from_spec().idx()) by {
            assert(pl(s1.seen@[j]));
        }
        assert forall|j: int| s1.seen@.len() <= j < sink.seen@.len() implies (#[trigger] sink.seen@[j]).from_spec().idx() == sink.seen@[j].to_spec().idx() + dl
            && !bb_has(pinned, sink.seen@[j].from_spec().idx()) by {
            assert(pr(sink.seen@[j]));
        }
        lemma_distinct_join(
            s0,
            s1,
            *sink,
            |m: Move| m.from_spec().idx() == m.to_spec().idx() + dr,
            |m: Move| m.from_spec().idx() == m.to_spec().idx() + dl,
        );
        assert forall|j: int| s0.seen@.len() <= j < sink.seen@.len() implies !bb_has(pinned, (#[trigger] sink.seen@[j]).from_spec().idx()) by {
            if j < s1.seen@.len() {
                assert(sink.seen@.subrange(0, s1.seen@.len() as int)[j] == sink.seen@[j]);
                assert(!bb_has(pinned, s1.seen@[j].from_spec().idx()));
            }
        }
    }
    let ghost s2 = *sink;
    let pinned_pawns = stm_pawns & pinned;
    proof {
        lemma_pop_zero(pinned_pawns);
        lemma_grows_refl(s2, ok);
    }
    let mut rest = pinned_pawns;
    while rest != 0
        invariant
            b.wf(),
            own_pawns(b, stm, stm_pawns),
            forall|t: int| 0 <= t < 64 && #[trigger] bb_has(dst_mask, t) ==> !bb_has(b.cm(stm.idx()), t),
            forall|t: int| 0 <= t < 64 && #[trigger] bb_has(opposite_pieces, t) ==> b.piece(t) != Piece::Null,
            forall|t: int| 0 <= t < 64 && #[trigger] bb_has(rest, t) ==> bb_has(stm_pawns, t),
            pop(rest) <= 64,
            s0.count <= sink.count <= s2.count + 256 * (64 - pop(rest)),
            s2.count <= s0.count + 512,
            s0.grows(*sink, ok, sink.count - s0.count),
            s0.count + 20000 <= u32::MAX,
            ok == (|m: Move| fits_on(b, stm, k, pinned, dst_mask)(m) && move_stage(b, stm, m) == 1),
            k == king_sq.idx(),
            s2.distinct_since(*sink),
            forall|x: int| s2.seen@.len() <= x < sink.seen@.len() ==> !bb_has(rest, (#[trigger] sink.seen@[x]).from_spec().idx())
                && bb_has(pinned, sink.seen@[x].from_spec().idx()),
            forall|t: int| 0 <= t < 64 && #[trigger] bb_has(rest, t) ==> bb_has(pinned, t),
            s0.grows(s2, ok, s2.count - s0.count),
            s2.count >= s0.count,
            s2.grows(*sink, ok, sink.count - s2.count),
            sink.count >= s2.count,
            forall|m: Move|
                #[trigger] capture_cand(stm, stm_pawns, opposite_pieces, k, dst_mask, pinned, m) && bb_has(pinned, m.from_spec().idx())
                    && !bb_has(rest, m.from_spec().idx()) ==> s2.got(*sink, m),
            forall|s: int| 0 <= s < 64 ==> #[trigger] bb_has(promo_rank, s) == (sq_rank(s) == promo_rank_of(stm)),
        decreases pop(rest),
    {
        let ghost s3 = *sink;
        let ghost rest0 = rest;
        let src = next_square(&mut rest);
        let from = Square::from_u8(src);
        let from_mask = from.mask();
        let attacks = multi_pawn_attacks(from_mask, stm) & opposite_pieces & dst_mask & edge_to_edge_ray(from, king_sq);
        let (normal, promotions) = split_promotions(attacks, promo_rank);
        proof {
            lemma_pop_split(attacks, promo_rank);
            lemma_pop_zero(attacks);
            assert forall|t: int| 0 <= t < 64 && #[trigger] bb_has(attacks, t) implies pawn_attack(stm, from.idx(), t) by {
                if pawns_attack_left(from_mask, stm, t) {
                    let s = choose|s: int| 0 <= s < 64 && bb_has(from_mask, s) && #[trigger] pawn_attack_left(stm, s, t);
                    assert(bb_has(sq_bit(from.idx()), s));
                } else {
                    let s = choose|s: int| 0 <= s < 64 && bb_has(from_mask, s) && #[trigger] pawn_attack_right(stm, s, t);
                    assert(bb_has(sq_bit(from.idx()), s));
                }
            }
        }
        sink.normal_mask(from, normal);
        proof {
            assert forall|m: Move| #[trigger] normal_into(m, from, normal) implies ok(m) by {
                let t = m.to_spec().idx();
                lemma_normal_ok(b, stm, m);
                lemma_delta(from.idx(), t);
                assert(bb_has(attacks, t));
                assert(pawn_attack(stm, from.idx(), t));
                assert forall|u: int| 0 <= u < 64 && #[trigger] between_spec(from.idx(), t, u) implies b.piece(u) == Piece::Null by {
                    lemma_neighbors_adjacent(from.idx(), t, u);
                }
            }
            lemma_grows_weaken(s3, *sink, |m: Move| normal_into(m, from, normal), ok, pop(normal) as int);
            lemma_grows_trans(s0, s3, *sink, ok, s3.count - s0.count, pop(normal) as int);
        }
        let ghost s4 = *sink;
        sink.promotions_mask(from, promotions);
        proof {
            assert forall|m: Move| #[trigger] promotion_into(m, from, promotions) implies ok(m) by {
                let t = m.to_spec().idx();
                b.lemma_square(m.from_spec().idx());
                b.lemma_square(t);
                lemma_delta(from.idx(), t);
                assert(bb_has(attacks, t));
                assert(pawn_attack(stm, from.idx(), t));
                assert forall|u: int| 0 <= u < 64 && #[trigger] between_spec(from.idx(), t, u) implies b.piece(u) == Piece::Null by {
                    lemma_neighbors_adjacent(from.idx(), t, u);
                }
            }
            lemma_grows_weaken(s4, *sink, |m: Move| promotion_into(m, from, promotions), ok, 4 * pop(promotions) as int);
            lemma_grows_trans(s0, s4, *sink, ok, s4.count - s0.count, 4 * pop(promotions) as int);
            lemma_grows_trans(s2, s3, s4, ok, s3.count - s2.count, pop(normal) as int);
            lemma_grows_trans(s2, s4, *sink, ok, s4.count - s2.count, 4 * pop(promotions) as int);
            {
                lemma_grows_extends(s2, s3, ok, s3.count - s2.count);
                lemma_grows_extends(s3, s4, |m: Move| normal_into(m, from, normal), pop(normal) as int);
                lemma_grows_extends(s4, *sink, |m: Move| promotion_into(m, from, promotions), 4 * pop(promotions) as int);
                assert forall|m: Move|
                    #[trigger] capture_cand(stm, stm_pawns, opposite_pieces, k, dst_mask, pinned, m) && bb_has(pinned, m.from_spec().idx())
                        && !bb_has(rest, m.from_spec().idx()) implies s2.got(*sink, m) by {
                    let t = m.to_spec().idx();
                    if m.from_spec().idx() == src {
                        Square::lemma_idx_injective(m.from_spec(), from);
                        lemma_delta(from.idx(), t);
                        assert(pawns_attack_left(from_mask, stm, t) || pawns_attack_right(from_mask, stm, t));
                        assert(bb_has(attacks, t));
                        assert(bb_has(from_mask, from.idx()));
                        assert(bb_has(promo_rank, t) == (sq_rank(t) == promo_rank_of(stm)));
                        assert(m.from_spec() == from);
                        if sq_rank(t) == promo_rank_of(stm) {
                            assert(bb_has(promotions, t));
                            assert(promotion_into(m, from, promotions));
                        } else {
                            assert(normal_into(m, from, normal));
                        }
                        lemma_got_joined(s3, s4, *sink, m);
                        lemma_got_joined(s2, s3, *sink, m);
                    } else {
                        assert(!bb_has(rest0, m.from_spec().idx()));
                        lemma_extends_trans(s3, s4, *sink);
                        lemma_got_joined(s2, s3, *sink, m);
                    }
                }
                let qn = |m: Move| normal_into(m, from, normal);
                let qp = |m: Move| promotion_into(m, from, promotions);
                assert forall|j: int| s3.seen@.len() <= j < s4.seen@.len() implies (#[trigger] s4.seen@[j]).flag_spec() == MoveFlag::NormalMove by {
                    assert(qn(s4.seen@[j]));
                }
                assert forall|j: int| s4.seen@.len() <= j < sink.seen@.len() implies (#[trigger] sink.seen@[j]).flag_spec() == MoveFlag::Promotion by {
                    assert(qp(sink.seen@[j]));
                }
                lemma_distinct_join(
                    s3,
                    s4,
                    *sink,
                    |m: Move| m.flag_spec() == MoveFlag::NormalMove,
                    |m: Move| m.flag_spec() == MoveFlag::Promotion,
                );
                lemma_extends_trans(s3, s4, *sink);
                assert forall|j: int| s3.seen@.len() <= j < sink.seen@.len() implies (#[trigger] sink.seen@[j]).from_spec().idx() == src by {
                    if j < s4.seen@.len() {
                        assert(sink.seen@.subrange(0, s4.seen@.len() as int)[j] == sink.seen@[j]);
                        assert(qn(s4.seen@[j]));
                    } else {
                        assert(qp(sink.seen@[j]));
                    }
                }
                let ss = src as int;
                lemma_origins_step(s2, s3, *sink, rest0, rest, ss, |m: Move| m.from_spec().idx() == ss);
                assert forall|x: int| s2.seen@.len() <= x < sink.seen@.len() implies !bb_has(rest, (#[trigger] sink.seen@[x]).from_spec().idx())
                    && bb_has(pinned, sink.seen@[x].from_spec().idx()) by {
                    if x < s3.seen@.len() {
                        assert(sink.seen@.subrange(0, s3.seen@.len() as int)[x] == sink.seen@[x]);
                        assert(bb_has(pinned, s3.seen@[x].from_spec().idx()));
                    } else {
                        assert(sink.seen@[x].from_spec().idx() == src);
                    }
                }
            }
        }
    }
    proof {
        lemma_pop_zero(rest);
        {
            lemma_grows_extends(s0, s1, ok, s1.count - s0.count);
            lemma_grows_extends(s1, s2, ok, s2.count - s1.count);
            lemma_grows_extends(s2, *sink, ok, sink.count - s2.count);
            lemma_extends_trans(s0, s1, s2);
            lemma_distinct_join(
                s0,
                s2,
                *sink,
                |m: Move| !bb_has(pinned, m.from_spec().idx()),
                |m: Move| bb_has(pinned, m.from_spec().idx()),
            );
            assert forall|m: Move|
                #[trigger] capture_cand(stm, stm_pawns, opposite_pieces, k, dst_mask, pinned, m) implies s0.got(*sink, m) by {
                let f = m.from_spec().idx();
                let t = m.to_spec().idx();
                if bb_has(pinned, f) {
                    lemma_got_joined(s0, s2, *sink, m);
                } else {
                    assert(bb_has(free, f));
                    lemma_delta(f, t);
                    if pawn_attack_left(stm, f, t) {
                        assert(bb_has(left, t));
                        lemma_delta(t + down_right, t);
                        assert(pawn_dst(m, down_right, left, promo_rank));
                        lemma_got_joined(s0, s1, s2, m);
                    } else {
                        assert(bb_has(right, t));
                        lemma_delta(t + down_left, t);
                        assert(pawn_dst(m, down_left, right, promo_rank));
                        lemma_got_joined(s0, s1, s2, m);
                    }
                    lemma_got_joined(s0, s2, *sink, m);
                }
            }
        }
    }
}

/// An en-passant capture by a pawn of `stm` on the rank of the pawn that just advanced, to
/// the square behind that pawn on file `f`.
pub open spec fn ep_capture_move(b: Board, stm: Color, f: int, m: Move) -> bool {
    &&& 0 <= f < 8
    &&& m.flag_spec() == MoveFlag::EnPassant
    &&& m.to_spec().idx() == sq_at(ep_target_rank(stm), f)
    &&& b.piece(m.from_spec().idx()) == Piece::Pawn
    &&& b.color(m.from_spec().idx()) == stm
    &&& sq_rank(m.from_spec().idx()) == ep_pawn_rank(stm)
}

/// An en-passant capture as the generator emits it: by a pawn of `stm` diagonally behind the
/// target on file `dpf`; a pinned pawn stays on its pin line; and when in check, or when the
/// king on `k` shares the capturing pawn's rank, no opposing piece attacks the king once the
/// capturing pawn, its target and the captured pawn's square have changed.
pub open spec fn ep_emitted(b: Board, stm: Color, dpf: int, k: int, pinned: u64, checkers: u64, m: Move) -> bool {
    let f = m.from_spec().idx();
    let t = m.to_spec().idx();
    let cap = sq_at(ep_pawn_rank(stm), dpf);
    let mask = sq_bit(f) | sq_bit(t) | sq_bit(cap);
    &&& ep_capture_move(b, stm, dpf, m)
    &&& m.promotion_spec() == Piece::Null
    &&& (sq_file(f) == dpf - 1 || sq_file(f) == dpf + 1)
    &&& (bb_has(pinned, f) ==> line_spec(f, k, t))
    &&& (checkers != 0 || same_rank(k, f) ==> !attacked_by(
        b,
        stm.opp(),
        k,
        b.cm(stm.opp().idx()) & !mask,
        b.occ() ^ mask,
    ))
}

/// An en-passant capture onto the square behind the pawn that advanced on file `dpf` by a
/// pawn of `pawns` beside it, when not in double check; a pinned pawn only along its pin line;
/// and, when in check or when the king on `k` shares the capturing pawn's rank, only when no
/// opposing piece attacks the king once the three squares have changed.
pub open spec fn ep_cand(b: Board, stm: Color, dpf: int, checkers: u64, pawns: u64, k: int, pinned: u64, m: Move) -> bool {
    let f = m.from_spec().idx();
    let t = m.to_spec().idx();
    let cap = sq_at(ep_pawn_rank(stm), dpf);
    let mask = sq_bit(f) | sq_bit(t) | sq_bit(cap);
    &&& 0 <= dpf < 8
    &&& m.flag_spec() == MoveFlag::EnPassant
    &&& m.promotion_spec() == Piece::Null
    &&& t == sq_at(ep_target_rank(stm), dpf)
    &&& bb_has(pawns, f)
    &&& sq_rank(f) == ep_pawn_rank(stm)
    &&& (sq_file(f) == dpf - 1 || sq_file(f) == dpf + 1)
    &&& pop(checkers) <= 1
    &&& (bb_has(pinned, f) ==> line_spec(f, k, t))
    &&& !((checkers != 0 || same_rank(k, f)) && attacked_by(
        b,
        stm.opp(),
        k,
        b.cm(stm.opp().idx()) & !mask,
        b.occ() ^ mask,
    ))
}

/// Receives the en-passant captures available against the pawn on file `dpf`, unless in double
/// check; pinned pawns and captures that would expose the king are left out.
fn emit_en_passants(
    board: &Board,
    stm: Color,
    dpf: DoublePawnPushFile,
    checkers: u64,
    stm_pawns: u64,
    king_sq: Square,
    pinned: u64,
    sink: &mut MoveSink,
)
    requires
        board.wf(),
        own_pawns(*board, stm, stm_pawns),
        old(sink).count + 64 <= u32::MAX,
    ensures
        grows_upto(
            *old(sink),
            *final(sink),
            |m: Move| ep_emitted(*board, stm, dpf as int, king_sq.idx(), pinned, checkers, m),
            64,
        ),
        forall|m: Move|
            #[trigger] ep_cand(*board, stm, dpf as int, checkers, stm_pawns, king_sq.idx(), pinned, m) ==> old(sink).got(*final(sink), m),
        old(sink).distinct_since(*final(sink)),
{
    let ghost ok = |m: Move| ep_emitted(*board, stm, dpf as int, king_sq.idx(), pinned, checkers, m);
    let ghost s0 = *sink;
    proof {
        lemma_grows_refl(s0, ok);
    }
    if !dpf.has_file() || count_squares(checkers) > 1 {
        return;
    }
    proof {
        assert(0 <= dpf < 8);
    }
    let capture_square = dpf.ep_capture_square(stm);
    let to = dpf.ep_dst_square(stm);
    let to_mask = to.mask();
    let sources = dpf.ep_possible_src_mask(stm) & stm_pawns;
    proof {
        lemma_pop_zero(sources);
    }
    let mut rest = sources;
    while rest != 0
        invariant
            board.wf(),
            own_pawns(*board, stm, stm_pawns),
            forall|t: int| 0 <= t < 64 && #[trigger] bb_has(rest, t) ==> bb_has(sources, t),
            forall|t: int| 0 <= t < 64 && #[trigger] bb_has(sources, t) ==> bb_has(stm_pawns, t) && sq_rank(t) == ep_pawn_rank(stm)
                && (sq_file(t) == dpf as int - 1 || sq_file(t) == dpf as int + 1),
            to.idx() == sq_at(ep_target_rank(stm), dpf as int),
            capture_square.idx() == sq_at(ep_pawn_rank(stm), dpf as int),
            to_mask == sq_bit(to.idx()),
            0 <= dpf < 8,
            pop(rest) <= pop(sources) <= 64,
            s0.count <= sink.count <= s0.count + (pop(sources) - pop(rest)),
            s0.grows(*sink, ok, sink.count - s0.count),
            s0.count + 64 <= u32::MAX,
            ok == (|m: Move| ep_emitted(*board, stm, dpf as int, king_sq.idx(), pinned, checkers, m)),
            forall|m: Move|
                #[trigger] ep_cand(*board, stm, dpf as int, checkers, stm_pawns, king_sq.idx(), pinned, m) && !bb_has(rest, m.from_spec().idx()) ==> s0.got(*sink, m),
            s0.distinct_since(*sink),
            forall|x: int| s0.seen@.len() <= x < sink.seen@.len() ==> !bb_has(rest, (#[trigger] sink.seen@[x]).from_spec().idx()),
        decreases pop(rest),
    {
        let ghost s1 = *sink;
        let ghost rest0 = rest;
        let src = next_square(&mut rest);
        let from = Square::from_u8(src);
        let allowed = pin_restrict(from, to_mask, king_sq, pinned);
        if allowed != 0 {
            let needs_probe = checkers != 0 || king_sq.rank().index() == from.rank().index();
            if !(needs_probe && board.is_square_attacked_after_move(
                king_sq,
                stm.other(),
                from.mask() | to.mask() | capture_square.mask(),
            )) {
                proof {
                    crate::board_attacks::lemma_empty_iff(allowed);
                    let t = choose|t: int| 0 <= t < 64 && #[trigger] bb_has(allowed, t);
                    assert(t == to.idx());
                }
                sink.en_passant(from, to);
                proof {
                    assert forall|m: Move| #[trigger] exact_move(m, from, to, MoveFlag::EnPassant) implies ok(m) by {}
                    lemma_grows_weaken(s1, *sink, |m: Move| exact_move(m, from, to, MoveFlag::EnPassant), ok, 1);
                    lemma_grows_trans(s0, s1, *sink, ok, s1.count - s0.count, 1);
                    {
                        lemma_grows_extends(s0, s1, ok, s1.count - s0.count);
                        lemma_grows_extends(s1, *sink, |m: Move| exact_move(m, from, to, MoveFlag::EnPassant), 1);
                        assert forall|m: Move|
                            #[trigger] ep_cand(*board, stm, dpf as int, checkers, stm_pawns, king_sq.idx(), pinned, m) && !bb_has(rest, m.from_spec().idx()) implies s0.got(*sink, m) by {
                            if m.from_spec().idx() == src {
                                Square::lemma_idx_injective(m.from_spec(), from);
                                Square::lemma_idx_injective(m.to_spec(), to);
                                assert(exact_move(m, from, to, MoveFlag::EnPassant));
                            }
                            lemma_got_joined(s0, s1, *sink, m);
                        }
                        lemma_origins_step(s0, s1, *sink, rest0, rest, src as int, |m: Move| exact_move(m, from, to, MoveFlag::EnPassant));
                    }
                }
            } else {
                proof {
                    let mask = sq_bit(from.idx()) | sq_bit(to.idx()) | sq_bit(capture_square.idx());
                    assert(needs_probe == (checkers != 0 || same_rank(king_sq.idx(), from.idx())));
                    {
                        assert forall|m: Move|
                            #[trigger] ep_cand(*board, stm, dpf as int, checkers, stm_pawns, king_sq.idx(), pinned, m) && !bb_has(rest, m.from_spec().idx()) implies s0.got(*sink, m) by {
                            if m.from_spec().idx() == src {
                                assert(sq_bit(m.from_spec().idx()) | sq_bit(m.to_spec().idx()) | sq_bit(sq_at(ep_pawn_rank(stm), dpf as int)) == mask);
                            } else {
                                assert(!bb_has(rest0, m.from_spec().idx()));
                            }
                        }
                        assert forall|x: int| s0.seen@.len() <= x < sink.seen@.len() implies !bb_has(rest, (#[trigger] sink.seen@[x]).from_spec().idx()) by {
                            assert(!bb_has(rest0, sink.seen@[x].from_spec().idx()));
                        }
                    }
                }
            }
        } else {
            proof {
                {
                    assert forall|m: Move|
                        #[trigger] ep_cand(*board, stm, dpf as int, checkers, stm_pawns, king_sq.idx(), pinned, m) && !bb_has(rest, m.from_spec().idx()) implies s0.got(*sink, m) by {
                        if m.from_spec().idx() == src {
                            assert(bb_has(to_mask, to.idx()));
                            assert(bb_has(allowed, to.idx()));
                        } else {
                            assert(!bb_has(rest0, m.from_spec().idx()));
                        }
                    }
                    assert forall|x: int| s0.seen@.len() <= x < sink.seen@.len() implies !bb_has(rest, (#[trigger] sink.seen@[x]).from_spec().idx()) by {
                        assert(!bb_has(rest0, sink.seen@[x].from_spec().idx()));
                    }
                }
            }
        }
    }
    proof {
        lemma_pop_zero(rest);
    }
}

/// A castling move of the side to move of `p`, from the king's initial square to its castling
/// square on a flank where castling is allowed.
pub open spec fn castling_move<Z: ZobristPolicy>(p: Position<Z>, m: Move) -> bool {
    &&& m.flag_spec() == MoveFlag::Castling
    &&& m.from_spec().idx() == home_base(p.stm()) + 4
    &&& exists|fl: Flank|
        m.to_spec().idx() == home_base(p.stm()) + king_dst_file(fl) && #[trigger] castling_allowed(p, fl)
}

impl<Z: ZobristPolicy> Position<Z> {
    /// Receives the castling moves the side to move may make.
    fn emit_castling_moves(&self, sink: &mut MoveSink)
        requires
            self.ctxs().len() >= 1,
            old(sink).count + 2 <= u32::MAX,
        ensures
            grows_upto(*old(sink), *final(sink), |m: Move| castling_move(*self, m) && m.promotion_spec() == Piece::Null, 2),
            forall|m: Move|
                #[trigger] castling_move(*self, m) && m.promotion_spec() == Piece::Null ==> old(sink).got(*final(sink), m),
            old(sink).distinct_since(*final(sink)),
    {
        let ghost ok = |m: Move| castling_move(*self, m) && m.promotion_spec() == Piece::Null;
        let ghost s0 = *sink;
        proof {
            lemma_grows_refl(s0, ok);
        }
        let stm = self.side_to_move;
        let king_src_square = stm.king_initial_square();
        let flanks = [Flank::Kingside, Flank::Queenside];
        let mut i: usize = 0;
        while i < 2
            invariant
                i <= 2,
                self.ctxs().len() >= 1,
                stm == self.stm(),
                king_src_square.idx() == home_base(stm) + 4,
                flanks[0] == Flank::Kingside,
                flanks[1] == Flank::Queenside,
                s0.count <= sink.count <= s0.count + i,
                s0.grows(*sink, ok, sink.count - s0.count),
                s0.count + 2 <= u32::MAX,
                ok == (|m: Move| castling_move(*self, m) && m.promotion_spec() == Piece::Null),
                forall|m: Move|
                    #[trigger] castling_move(*self, m) && m.promotion_spec() == Piece::Null && (if m.to_spec().idx() == home_base(stm) + 6 {
                        0int
                    } else {
                        1int
                    }) < i ==> s0.got(*sink, m),
                s0.distinct_since(*sink),
                i == 0 ==> sink.seen@.len() == s0.seen@.len(),
                i <= 1 ==> forall|x: int|
                    s0.seen@.len() <= x < sink.seen@.len() ==> (#[trigger] sink.seen@[x]).to_spec().idx() == home_base(stm) + 6,
            decreases 2 - i,
        {
            let flank = flanks[i];
            let ghost s1 = *sink;
            if self.can_legally_castle(flank) {
                let dst = flank.king_castled_square(stm);
                sink.castling(king_src_square, dst);
                proof {
                    assert forall|m: Move| #[trigger] exact_move(m, king_src_square, dst, MoveFlag::Castling) implies ok(m) by {
                        assert(castling_allowed(*self, flank));
                    }
                    lemma_grows_weaken(s1, *sink, |m: Move| exact_move(m, king_src_square, dst, MoveFlag::Castling), ok, 1);
                    lemma_grows_trans(s0, s1, *sink, ok, s1.count - s0.count, 1);
                    {
                        lemma_grows_extends(s0, s1, ok, s1.count - s0.count);
                        lemma_grows_extends(s1, *sink, |m: Move| exact_move(m, king_src_square, dst, MoveFlag::Castling), 1);
                        assert forall|m: Move|
                            #[trigger] castling_move(*self, m) && m.promotion_spec() == Piece::Null && (if m.to_spec().idx() == home_base(stm) + 6 {
                                0int
                            } else {
                                1int
                            }) < i + 1 implies s0.got(*sink, m) by {
                            let fl = choose|fl: Flank| m.to_spec().idx() == home_base(stm) + king_dst_file(fl) && #[trigger] castling_allowed(*self, fl);
                            if fl == flank {
                                Square::lemma_idx_injective(m.from_spec(), king_src_square);
                                Square::lemma_idx_injective(m.to_spec(), dst);
                                assert(exact_move(m, king_src_square, dst, MoveFlag::Castling));
                            }
                            lemma_got_joined(s0, s1, *sink, m);
                        }
                        let q = |m: Move| exact_move(m, king_src_square, dst, MoveFlag::Castling);
                        if i == 0 {
                            lemma_distinct_join(s0, s1, *sink, |m: Move| false, q);
                            assert forall|x: int|
                                s0.seen@.len() <= x < sink.seen@.len() implies (#[trigger] sink.seen@[x]).to_spec().idx() == home_base(stm) + 6 by {
                                assert(q(sink.seen@[x]));
                            }
                        } else {
                            lemma_distinct_join(s0, s1, *sink, |m: Move| m.to_spec().idx() == home_base(stm) + 6, q);
                        }
                    }
                }
            } else {
                proof {
                    {
                        assert forall|m: Move|
                            #[trigger] castling_move(*self, m) && m.promotion_spec() == Piece::Null && (if m.to_spec().idx() == home_base(stm) + 6 {
                                0int
                            } else {
                                1int
                            }) < i + 1 implies s0.got(*sink, m) by {
                            let fl = choose|fl: Flank| m.to_spec().idx() == home_base(stm) + king_dst_file(fl) && #[trigger] castling_allowed(*self, fl);
                            assert(fl != flank);
                        }
                    }
                }
            }
            i = i + 1;
        }
    }
}

/// The squares a non-king piece of the side to move may move to given the checkers: anything
/// without a piece of its own when not in check; when in check by `checker_sq`, the checker
/// itself, and for a sliding checker also the squares between it and the king.
pub fn resolve_mask_for_checker(checker_sq: Square, king_sq: Square, stm_pieces: u64, checker_is_sliding: bool) -> (r: u64)
    ensures
        forall|t: int| 0 <= t < 64 ==> #[trigger] bb_has(r, t) == if checker_is_sliding {
            !bb_has(stm_pieces, t) && (t == checker_sq.idx() || between_spec(checker_sq.idx(), king_sq.idx(), t))
        } else {
            t == checker_sq.idx()
        },
{
    if checker_is_sliding {
        !stm_pieces & (checker_sq.mask() | between(checker_sq, king_sq))
    } else {
        checker_sq.mask()
    }
}

/// The destination squares allowed to non-king pieces and whether castling is possible: with
/// no checker every square without a piece of the side to move, and castling; with one checker
/// the squares that capture or block it, and no castling.
fn resolve_dst_mask_and_castling(board: &Board, checkers: u64, stm_pieces: u64, king_sq: Square) -> (r: (u64, bool))
    ensures
        (forall|c: int| 0 <= c < 64 ==> checkers != #[trigger] sq_bit(c)) ==> r.1 && forall|t: int| 0 <= t < 64 ==> #[trigger] bb_has(r.0, t) == !bb_has(stm_pieces, t),
        forall|c: int| 0 <= c < 64 && checkers == sq_bit(c) ==> !r.1,
        forall|c: int| 0 <= c < 64 && checkers == sq_bit(c) ==> forall|t: int| 0 <= t < 64 ==> #[trigger] bb_has(r.0, t) == if board.piece(c).sliding() {
            !bb_has(stm_pieces, t) && (t == c || between_spec(c, king_sq.idx(), t))
        } else {
            t == c
        },
{
    match Square::from_bitboard(checkers) {
        None => {
            (!stm_pieces, true)
        },
        Some(checker_sq) => {
            proof {
                assert(bb_has(sq_bit(checker_sq.idx()), checker_sq.idx()));
                assert forall|c: int| 0 <= c < 64 && checkers == sq_bit(c) implies c == checker_sq.idx() by {
                    assert(bb_has(sq_bit(c), c));
                }
            }
            let sliding = board.piece_at(checker_sq).is_sliding_piece();
            (resolve_mask_for_checker(checker_sq, king_sq, stm_pieces, sliding), false)
        },
    }
}

/// When there is at most one checker, the destinations `resolve_dst_mask_and_castling` allows
/// capture or block it.
proof fn lemma_resolves_checks(b: Board, checkers: u64, k: int, dst_mask: u64, stm_pieces: u64)
    requires
        pop(checkers) <= 1,
        forall|c: int| 0 <= c < 64 && checkers == sq_bit(c) ==> forall|t: int| 0 <= t < 64 ==> #[trigger] bb_has(dst_mask, t) == if b.piece(c).sliding() {
            !bb_has(stm_pieces, t) && (t == c || between_spec(c, k, t))
        } else {
            t == c
        },
    ensures
        resolves_checks(b, checkers, k, dst_mask),
{
    assert forall|c: int, t: int|
        0 <= c < 64 && 0 <= t < 64 && #[trigger] bb_has(checkers, c) && #[trigger] bb_has(dst_mask, t) implies t == c || (
        b.piece(c).sliding() && between_spec(c, k, t)) by {
        lemma_pop_zero(checkers);
        crate::bitboard::lemma_pop_single(checkers);
        let s = choose|s: int|
            0 <= s < 64 && bb_has(checkers, s) && forall|u: int| 0 <= u < 64 && #[trigger] bb_has(checkers, u) ==> u == s;
        assert(s == c);
        assert forall|u: int| 0 <= u < 64 implies #[trigger] bb_has(checkers, u) == bb_has(sq_bit(c), u) by {}
        crate::bitboard::lemma_squares_ext(checkers, sq_bit(c));
    }
}

/// A move the generator may produce for `p`: one that can be played, or an en-passant capture
/// or castling move as the context's double-push file and castling rights announce them.
pub open spec fn gen_ok<Z: ZobristPolicy>(p: Position<Z>, m: Move) -> bool {
    ||| move_ok(p.board, p.stm(), m)
    ||| ep_capture_move(p.board, p.stm(), p.ctx().double_pawn_push_file as int, m)
    ||| castling_move(p, m)
}

/// The double-push file of the current context is backed by the board: the square behind the
/// pawn that advanced is empty and the pawn is there.
pub open spec fn ep_consistent<Z: ZobristPolicy>(p: Position<Z>) -> bool {
    let f = p.ctx().double_pawn_push_file as int;
    0 <= f < 8 ==> p.board.piece(sq_at(ep_target_rank(p.stm()), f)) == Piece::Null && p.board.holds(
        sq_at(ep_pawn_rank(p.stm()), f),
        Piece::Pawn,
        p.stm().opp(),
    )
}

/// When the context's double-push file and castling rights are backed by the board, every move
/// the generator may produce can be played.
pub proof fn lemma_gen_ok_playable<Z: ZobristPolicy>(p: Position<Z>, m: Move)
    requires
        p.wf(),
        gen_ok(p, m),
        ep_consistent(p),
        castling_consistent(p),
    ensures
        move_ok(p.board, p.stm(), m),
{
    let b = p.board;
    let stm = p.stm();
    if ep_capture_move(b, stm, p.ctx().double_pawn_push_file as int, m) {
        let f = p.ctx().double_pawn_push_file as int;
        let t = m.to_spec().idx();
        b.lemma_square(m.from_spec().idx());
        assert(sq_rank(t) == ep_target_rank(stm));
        assert(ep_square(stm, t) == sq_at(ep_pawn_rank(stm), f));
        assert(m.from_spec().idx() != t);
    } else if castling_move(p, m) && !move_ok(b, stm, m) {
        let fl = choose|fl: Flank| m.to_spec().idx() == home_base(stm) + king_dst_file(fl) && #[trigger] castling_allowed(p, fl);
        assert(has_rights(p, fl, stm));
        let t = m.to_spec().idx();
        assert(crate::types::flank::gap_square(fl, stm, t));
        assert(crate::types::flank::gap_square(fl, stm, rook_to_sq(fl, stm)));
        b.lemma_square(t);
        b.lemma_square(rook_to_sq(fl, stm));
        assert(castle_flank(t) == fl);
    }
}

/// No opposing piece attacks the king of the side to move of `p` after it plays `m`.
pub open spec fn keeps_king_safe<Z: ZobristPolicy>(p: Position<Z>, m: Move) -> bool {
    forall|k: int|
        0 <= k < 64 && #[trigger] kings_of(p.board, p.stm()) == sq_bit(k) ==> king_safe_after(
            p.board,
            p.stm(),
            m,
            k,
        )
}

/// What the king safety of the generated moves rests on besides the pins and checks of the
/// context: the double-push file and the castling rights are backed by the board, no king of
/// the opponent stands next to the king of the side to move, and, out of check, the pawn that
/// may be taken en passant does not stand alone between that king and an opposing bishop or
/// queen on a diagonal.
pub open spec fn safety_grounded<Z: ZobristPolicy>(p: Position<Z>) -> bool {
    let dpf = p.ctx().double_pawn_push_file as int;
    &&& ep_consistent(p)
    &&& castling_consistent(p)
    &&& forall|k: int|
        0 <= k < 64 && #[trigger] kings_of(p.board, p.stm()) == sq_bit(k) ==> kings_apart(p.board, p.stm(), k) && (
        p.ctx().checkers == 0 && 0 <= dpf < 8 ==> ep_unshielded(
            p.board,
            p.stm(),
            k,
            sq_at(ep_pawn_rank(p.stm()), dpf),
        ))
}

/// King safety at the king's square is king safety for the side to move.
proof fn lemma_safe_at_king<Z: ZobristPolicy>(p: Position<Z>, m: Move, k: int)
    requires
        0 <= k < 64,
        kings_of(p.board, p.stm()) == sq_bit(k),
        king_safe_after(p.board, p.stm(), m, k),
    ensures
        keeps_king_safe(p, m),
{
    assert forall|k2: int| 0 <= k2 < 64 && #[trigger] kings_of(p.board, p.stm()) == sq_bit(k2) implies king_safe_after(
        p.board,
        p.stm(),
        m,
        k2,
    ) by {
        assert(bb_has(sq_bit(k2), k2));
    }
}

/// A move the generator may produce for `p` and, when the generator's king safety is grounded,
/// a legal one.
pub open spec fn emitted_ok<Z: ZobristPolicy>(p: Position<Z>, m: Move) -> bool {
    &&& gen_ok(p, m)
    &&& (safety_grounded(p) ==> is_legal(p, m))
}

/// `m`, a normal move or a promotion, moves the piece of `stm` on its origin as that piece
/// moves: a pawn one square ahead onto an empty square, two from its starting rank over an
/// empty square, or diagonally onto a piece, promoting exactly when it reaches the last rank; a
/// knight by a jump; a king by a step; a bishop, rook or queen along its lines through empty
/// squares.
pub open spec fn moves_by_rule(b: Board, stm: Color, m: Move) -> bool {
    let f = m.from_spec().idx();
    let t = m.to_spec().idx();
    let kind = b.piece(f);
    if kind == Piece::Pawn {
        &&& pawn_kind_ok(stm, m)
        &&& ((pawn_step(stm, f, t) && b.piece(t) == Piece::Null) || double_push_ok(b, stm, m) || (pawn_attack(
            stm,
            f,
            t,
        ) && b.piece(t) != Piece::Null))
    } else {
        &&& m.flag_spec() == MoveFlag::NormalMove
        &&& m.promotion_spec() == Piece::Null
        &&& (kind == Piece::Knight ==> knight_jump(f, t))
        &&& (kind == Piece::King ==> king_step(f, t))
        &&& (kind.sliding() ==> slider_attack(kind, f, t, b.occ()))
    }
}

/// `m` follows the movement rules for the side to move of `p`, king safety aside: castling as
/// the castling rules allow it; an en-passant capture onto the square behind the pawn that just
/// advanced two squares; a pawn stepping ahead onto an empty square, advancing two squares from
/// its starting rank, or capturing diagonally, promoting exactly when it reaches the last rank; a
/// knight jumping, a king stepping, and a bishop, rook or queen sliding along its lines through
/// empty squares, onto a square without a piece of its own.
pub open spec fn follows_rules<Z: ZobristPolicy>(p: Position<Z>, m: Move) -> bool {
    let b = p.board;
    let stm = p.stm();
    let f = m.from_spec().idx();
    let t = m.to_spec().idx();
    let kind = b.piece(f);
    let dpf = p.ctx().double_pawn_push_file as int;
    &&& move_ok(b, stm, m)
    &&& if m.flag_spec() == MoveFlag::Castling {
        m.promotion_spec() == Piece::Null && castling_move(p, m)
    } else if m.flag_spec() == MoveFlag::EnPassant {
        &&& m.promotion_spec() == Piece::Null
        &&& 0 <= dpf < 8
        &&& t == sq_at(ep_target_rank(stm), dpf)
        &&& pawn_attack(stm, f, t)
    } else {
        moves_by_rule(b, stm, m)
    }
}

/// `m` is a legal move of the side to move of `p`: it follows the movement rules and leaves
/// the king unattacked.
pub open spec fn is_legal<Z: ZobristPolicy>(p: Position<Z>, m: Move) -> bool {
    follows_rules(p, m) && keeps_king_safe(p, m)
}

/// A position as legal play reaches it: one king on each side, the king of the side not to
/// move unattacked, and the conditions under which its generated moves are its legal moves.
pub open spec fn sound_position<Z: ZobristPolicy>(p: Position<Z>) -> bool {
    &&& pop(kings_of(p.board, p.stm())) == 1
    &&& pop(kings_of(p.board, p.stm().opp())) == 1
    &&& safety_grounded(p)
    &&& waiting_king_safe(p)
}

/// The legal moves of the side to move of `p`.
pub open spec fn legal_moves<Z: ZobristPolicy>(p: Position<Z>) -> Set<Move> {
    Set::new(|m: Move| is_legal(p, m))
}

/// The destinations `resolve_dst_mask_and_castling` gives for the checkers `checkers` of the
/// king on `k`.
pub open spec fn dst_resolution(b: Board, checkers: u64, stm_pieces: u64, k: int, dst_mask: u64) -> bool {
    &&& (forall|c: int| 0 <= c < 64 ==> checkers != #[trigger] sq_bit(c)) ==> forall|t: int|
        0 <= t < 64 ==> #[trigger] bb_has(dst_mask, t) == !bb_has(stm_pieces, t)
    &&& forall|c: int|
        0 <= c < 64 && checkers == sq_bit(c) ==> forall|t: int|
            0 <= t < 64 ==> #[trigger] bb_has(dst_mask, t) == if b.piece(c).sliding() {
                !bb_has(stm_pieces, t) && (t == c || between_spec(c, k, t))
            } else {
                t == c
            }
}

/// The facts every legal-move argument starts from: the position is consistent, `k` is the
/// square of the one king of the side to move, and the context's pins and checks are right.
pub open spec fn search_ready<Z: ZobristPolicy>(p: Position<Z>, k: int) -> bool {
    &&& p.wf()
    &&& 0 <= k < 64
    &&& kings_of(p.board, p.stm()) == sq_bit(k)
    &&& pins_checks_ok(p.board, p.stm(), p.ctx().pinned, p.ctx().checkers)
}

/// A legal king step is one the generator's king stage receives.
proof fn lemma_legal_king_cand<Z: ZobristPolicy>(p: Position<Z>, m: Move, k: int)
    requires
        search_ready(p, k),
        is_legal(p, m),
        m.flag_spec() == MoveFlag::NormalMove,
        p.board.piece(m.from_spec().idx()) == Piece::King,
    ensures
        king_cand(p.board, p.stm(), k, m),
{
    let b = p.board;
    let f = m.from_spec().idx();
    let t = m.to_spec().idx();
    b.lemma_square(f);
    b.lemma_square(t);
    assert(bb_has(kings_of(b, p.stm()), f));
    assert(f == k);
    assert(king_safe_after(b, p.stm(), m, k));
    let mask = sq_bit(k) | sq_bit(t);
    if attacked_by(b, p.stm().opp(), t, b.cm(p.stm().opp().idx()) & !mask, b.occ() ^ mask) {
        lemma_king_move_unsafe(b, p.stm(), m, k);
    }
}

/// Two pieces in `x` when there are more than one.
proof fn lemma_two_squares(x: u64) -> (r: (int, int))
    requires
        pop(x) > 1,
    ensures
        0 <= r.0 < 64,
        0 <= r.1 < 64,
        r.0 != r.1,
        bb_has(x, r.0),
        bb_has(x, r.1),
{
    lemma_pop_zero(x);
    crate::board_attacks::lemma_empty_iff(x);
    let a = choose|a: int| 0 <= a < 64 && bb_has(x, a);
    crate::bitboard::lemma_pop_single(x);
    if forall|u: int| 0 <= u < 64 && #[trigger] bb_has(x, u) ==> u == a {
        assert(pop(x) == 1);
    }
    let c = choose|c: int| !(0 <= c < 64 && #[trigger] bb_has(x, c) ==> c == a);
    (a, c)
}

/// A legal move other than a king move or castling happens only out of double check.
proof fn lemma_legal_not_double_check<Z: ZobristPolicy>(p: Position<Z>, m: Move, k: int)
    requires
        search_ready(p, k),
        is_legal(p, m),
        m.flag_spec() != MoveFlag::Castling,
        p.board.piece(m.from_spec().idx()) != Piece::King,
    ensures
        pop(p.ctx().checkers) <= 1,
{
    let b = p.board;
    assert(king_safe_after(b, p.stm(), m, k));
    if pop(p.ctx().checkers) > 1 {
        let (c1, c2) = lemma_two_squares(p.ctx().checkers);
        assert(is_checker(b, p.stm(), k, c1));
        assert(is_checker(b, p.stm(), k, c2));
        lemma_double_check_unsafe(b, p.stm(), m, k, c1, c2);
    }
}

/// Legal castling happens only out of check.
proof fn lemma_legal_castling_no_check<Z: ZobristPolicy>(p: Position<Z>, m: Move, k: int)
    requires
        search_ready(p, k),
        is_legal(p, m),
        m.flag_spec() == MoveFlag::Castling,
    ensures
        p.ctx().checkers == 0,
{
    let b = p.board;
    let f = m.from_spec().idx();
    b.lemma_square(f);
    assert(bb_has(kings_of(b, p.stm()), f));
    assert(f == k);
    let fl = choose|fl: Flank| m.to_spec().idx() == home_base(p.stm()) + king_dst_file(fl) && #[trigger] castling_allowed(p, fl);
    assert forall|c: int| 0 <= c < 64 implies !#[trigger] bb_has(p.ctx().checkers, c) by {
        lemma_castling_allowed_no_check(p, fl, k, c);
    }
    crate::board_attacks::lemma_empty_iff(p.ctx().checkers);
}

/// A legal piece move (normal or promotion) of a piece other than the king lands on a square
/// the check resolution allows and keeps a pinned piece on its pin line.
proof fn lemma_legal_piece_dst<Z: ZobristPolicy>(p: Position<Z>, m: Move, k: int, dst_mask: u64)
    requires
        search_ready(p, k),
        is_legal(p, m),
        m.flag_spec() == MoveFlag::NormalMove || m.flag_spec() == MoveFlag::Promotion,
        p.board.piece(m.from_spec().idx()) != Piece::King,
        pop(p.ctx().checkers) <= 1,
        dst_resolution(p.board, p.ctx().checkers, p.board.cm(p.stm().idx()), k, dst_mask),
    ensures
        bb_has(dst_mask, m.to_spec().idx()),
        bb_has(p.ctx().pinned, m.from_spec().idx()) ==> line_spec(m.from_spec().idx(), k, m.to_spec().idx()),
{
    let b = p.board;
    let stm = p.stm();
    let f = m.from_spec().idx();
    let t = m.to_spec().idx();
    let checkers = p.ctx().checkers;
    b.lemma_square(t);
    assert(king_safe_after(b, stm, m, k));
    if bb_has(p.ctx().pinned, f) && !line_spec(f, k, t) {
        assert(is_pinned(b, stm, k, f));
        lemma_pinner_survives(b, stm, m, k);
    }
    if exists|c: int| 0 <= c < 64 && checkers == #[trigger] sq_bit(c) {
        let c = choose|c: int| 0 <= c < 64 && checkers == #[trigger] sq_bit(c);
        assert(bb_has(sq_bit(c), c));
        assert(is_checker(b, stm, k, c));
        if !(t == c || (b.piece(c).sliding() && between_spec(c, k, t))) {
            lemma_checker_survives(b, stm, m, k, c);
        }
    }
}

/// A legal pawn capture (not en passant) is one the capture stage receives.
proof fn lemma_legal_capture_cand<Z: ZobristPolicy>(p: Position<Z>, m: Move, k: int, dst_mask: u64)
    requires
        search_ready(p, k),
        is_legal(p, m),
        m.flag_spec() == MoveFlag::NormalMove || m.flag_spec() == MoveFlag::Promotion,
        p.board.piece(m.from_spec().idx()) == Piece::Pawn,
        pawn_attack(p.stm(), m.from_spec().idx(), m.to_spec().idx()),
        pop(p.ctx().checkers) <= 1,
        dst_resolution(p.board, p.ctx().checkers, p.board.cm(p.stm().idx()), k, dst_mask),
    ensures
        capture_cand(
            p.stm(),
            p.board.cm(p.stm().idx()) & p.board.pm(Piece::Pawn.idx()),
            p.board.cm(p.stm().opp().idx()),
            k,
            dst_mask,
            p.ctx().pinned,
            m,
        ),
{
    let b = p.board;
    let f = m.from_spec().idx();
    let t = m.to_spec().idx();
    b.lemma_square(f);
    b.lemma_square(t);
    crate::attacks::manual::lemma_delta(f, t);
    lemma_legal_piece_dst(p, m, k, dst_mask);
}

/// A legal pawn push is one the push stage receives.
proof fn lemma_legal_push_cand<Z: ZobristPolicy>(p: Position<Z>, m: Move, k: int, dst_mask: u64)
    requires
        search_ready(p, k),
        is_legal(p, m),
        m.flag_spec() == MoveFlag::NormalMove || m.flag_spec() == MoveFlag::Promotion,
        p.board.piece(m.from_spec().idx()) == Piece::Pawn,
        !pawn_attack(p.stm(), m.from_spec().idx(), m.to_spec().idx()),
        pop(p.ctx().checkers) <= 1,
        dst_resolution(p.board, p.ctx().checkers, p.board.cm(p.stm().idx()), k, dst_mask),
    ensures
        push_cand(
            p.stm(),
            p.board.occ(),
            p.board.cm(p.stm().idx()) & p.board.pm(Piece::Pawn.idx()),
            k,
            dst_mask,
            p.ctx().pinned,
            m,
        ),
{
    let b = p.board;
    let stm = p.stm();
    let f = m.from_spec().idx();
    let t = m.to_spec().idx();
    b.lemma_square(f);
    b.lemma_square(t);
    crate::attacks::manual::lemma_delta(f, t);
    lemma_legal_piece_dst(p, m, k, dst_mask);
    if double_push_ok(b, stm, m) {
        b.lemma_square(f - 8 * fwd(stm));
    }
    if bb_has(p.ctx().pinned, f) {
        lemma_file_move_line(f, k, t);
    }
}

/// A legal knight move is one the knight stage receives.
proof fn lemma_legal_knight_cand<Z: ZobristPolicy>(p: Position<Z>, m: Move, k: int, dst_mask: u64)
    requires
        search_ready(p, k),
        is_legal(p, m),
        m.flag_spec() == MoveFlag::NormalMove,
        p.board.piece(m.from_spec().idx()) == Piece::Knight,
        pop(p.ctx().checkers) <= 1,
        dst_resolution(p.board, p.ctx().checkers, p.board.cm(p.stm().idx()), k, dst_mask),
    ensures
        knight_cand(
            p.board.cm(p.stm().idx()) & p.board.pm(Piece::Knight.idx()) & !p.ctx().pinned,
            dst_mask,
            m,
        ),
{
    let b = p.board;
    let f = m.from_spec().idx();
    let t = m.to_spec().idx();
    b.lemma_square(f);
    lemma_legal_piece_dst(p, m, k, dst_mask);
    lemma_knight_off_line(f, k, t);
}

/// A legal bishop, rook or queen move is one the sliding stage for its kind receives.
proof fn lemma_legal_slider_cand<Z: ZobristPolicy>(p: Position<Z>, m: Move, k: int, dst_mask: u64)
    requires
        search_ready(p, k),
        is_legal(p, m),
        m.flag_spec() == MoveFlag::NormalMove,
        p.board.piece(m.from_spec().idx()).sliding(),
        pop(p.ctx().checkers) <= 1,
        dst_resolution(p.board, p.ctx().checkers, p.board.cm(p.stm().idx()), k, dst_mask),
    ensures
        slider_cand(
            p.board.piece(m.from_spec().idx()),
            p.board.occ(),
            p.board.cm(p.stm().idx()) & p.board.pm(p.board.piece(m.from_spec().idx()).idx()),
            k,
            dst_mask,
            p.ctx().pinned,
            m,
        ),
{
    let b = p.board;
    let f = m.from_spec().idx();
    b.lemma_square(f);
    lemma_legal_piece_dst(p, m, k, dst_mask);
}

/// A legal en-passant capture is one the en-passant stage receives.
proof fn lemma_legal_ep_cand<Z: ZobristPolicy>(p: Position<Z>, m: Move, k: int)
    requires
        search_ready(p, k),
        is_legal(p, m),
        m.flag_spec() == MoveFlag::EnPassant,
    ensures
        ep_cand(
            p.board,
            p.stm(),
            p.ctx().double_pawn_push_file as int,
            p.ctx().checkers,
            p.board.cm(p.stm().idx()) & p.board.pm(Piece::Pawn.idx()),
            k,
            p.ctx().pinned,
            m,
        ),
{
    let b = p.board;
    let stm = p.stm();
    let f = m.from_spec().idx();
    let t = m.to_spec().idx();
    let dpf = p.ctx().double_pawn_push_file as int;
    b.lemma_square(f);
    crate::attacks::manual::lemma_coords(f);
    crate::attacks::manual::lemma_coords(t);
    assert(king_safe_after(b, stm, m, k));
    lemma_legal_not_double_check(p, m, k);
    if bb_has(p.ctx().pinned, f) && !line_spec(f, k, t) {
        assert(is_pinned(b, stm, k, f));
        lemma_pinner_survives(b, stm, m, k);
    }
    let cap = sq_at(ep_pawn_rank(stm), dpf);
    assert(cap == ep_square(stm, t));
    let mask = sq_bit(f) | sq_bit(t) | sq_bit(cap);
    if (p.ctx().checkers != 0 || same_rank(k, f)) && attacked_by(b, stm.opp(), k, b.cm(stm.opp().idx()) & !mask, b.occ() ^ mask) {
        lemma_ep_probe_unsafe(b, stm, m, k);
    }
}

/// The stage of the generator that produces `m` on `b` for `stm`: king steps (0), pawn
/// captures (1), en-passant captures (2), pawn pushes (3), knight (4), bishop (5), rook (6)
/// and queen (7) moves, castling (8).
pub open spec fn move_stage(b: Board, stm: Color, m: Move) -> int {
    let kind = b.piece(m.from_spec().idx());
    if m.flag_spec() == MoveFlag::Castling {
        8
    } else if m.flag_spec() == MoveFlag::EnPassant {
        2
    } else if kind == Piece::King {
        0
    } else if kind == Piece::Pawn {
        if pawn_attack(stm, m.from_spec().idx(), m.to_spec().idx()) {
            1
        } else {
            3
        }
    } else if kind == Piece::Knight {
        4
    } else if kind == Piece::Bishop {
        5
    } else if kind == Piece::Rook {
        6
    } else {
        7
    }
}

/// The stage of the sliding piece `kind`: 5 for a bishop, 6 for a rook, 7 for a queen.
pub open spec fn slider_stage(kind: Piece) -> int {
    if kind == Piece::Bishop {
        5
    } else if kind == Piece::Rook {
        6
    } else {
        7
    }
}

/// The stage of the generator that receives `m` for the side to move of `p`.
pub open spec fn stage_of<Z: ZobristPolicy>(p: Position<Z>, m: Move) -> int {
    move_stage(p.board, p.stm(), m)
}

/// Every legal move of a stage before `j` is among the moves `s` kept since `s0`.
pub open spec fn stages_done<Z: ZobristPolicy>(p: Position<Z>, s0: MoveSink, s: MoveSink, j: int) -> bool {
    &&& s0.extends(s)
    &&& forall|m: Move| #[trigger] is_legal(p, m) && stage_of(p, m) < j ==> s0.got(s, m)
}

/// After a stage `j` that receives every legal move of that stage (as `cand` describes them),
/// the stages up to `j` are done.
proof fn lemma_stage_join<Z: ZobristPolicy>(p: Position<Z>, s0: MoveSink, a: MoveSink, b: MoveSink, j: int, cand: spec_fn(Move) -> bool)
    requires
        stages_done(p, s0, a, j),
        a.extends(b),
        forall|m: Move| #[trigger] is_legal(p, m) && stage_of(p, m) == j ==> cand(m),
        forall|m: Move| #[trigger] cand(m) ==> a.got(b, m),
    ensures
        stages_done(p, s0, b, j + 1),
{
    lemma_extends_trans(s0, a, b);
    {
        assert forall|m: Move| #[trigger] is_legal(p, m) && stage_of(p, m) < j + 1 implies s0.got(b, m) by {
            if stage_of(p, m) == j {
                assert(cand(m));
                assert(a.got(b, m));
            }
            lemma_got_joined(s0, a, b, m);
        }
    }
}

/// The moves of stage `j`, distinct among themselves, received after distinct moves of earlier
/// stages, keep the moves distinct and of stages up to `j`.
proof fn lemma_stage_distinct(
    b: Board,
    stm: Color,
    s0: MoveSink,
    a: MoveSink,
    c: MoveSink,
    j: int,
    okj: spec_fn(Move) -> bool,
    n: int,
)
    requires
        s0.extends(a),
        s0.distinct_since(a),
        forall|x: int| s0.seen@.len() <= x < a.seen@.len() ==> move_stage(b, stm, #[trigger] a.seen@[x]) < j,
        a.grows(c, okj, n),
        n >= 0,
        a.distinct_since(c),
        forall|m: Move| #[trigger] okj(m) ==> move_stage(b, stm, m) == j,
    ensures
        s0.extends(c),
        s0.distinct_since(c),
        forall|x: int| s0.seen@.len() <= x < c.seen@.len() ==> move_stage(b, stm, #[trigger] c.seen@[x]) < j + 1,
{
    lemma_grows_extends(a, c, okj, n);
    lemma_extends_trans(s0, a, c);
    assert forall|x: int| a.seen@.len() <= x < c.seen@.len() implies move_stage(b, stm, #[trigger] c.seen@[x]) == j by {
        assert(okj(c.seen@[x]));
    }
    lemma_distinct_join(s0, a, c, |m: Move| move_stage(b, stm, m) < j, |m: Move| move_stage(b, stm, m) == j);
    assert forall|x: int| s0.seen@.len() <= x < c.seen@.len() implies move_stage(b, stm, #[trigger] c.seen@[x]) < j + 1 by {
        if x < a.seen@.len() {
            assert(c.seen@.subrange(0, a.seen@.len() as int)[x] == c.seen@[x]);
        }
    }
}

/// Once every stage is done, every legal move is received.
proof fn lemma_all_stages<Z: ZobristPolicy>(p: Position<Z>, s0: MoveSink, s: MoveSink)
    requires
        stages_done(p, s0, s, 9),
    ensures
        forall|m: Move| #[trigger] is_legal(p, m) ==> s0.got(s, m),
{
    {
        assert forall|m: Move| #[trigger] is_legal(p, m) implies s0.got(s, m) by {
            assert(stage_of(p, m) < 9);
        }
    }
}

/// After the king stage, the legal king steps are received.
proof fn lemma_king_stage<Z: ZobristPolicy>(p: Position<Z>, k: int, s0: MoveSink, a: MoveSink)
    requires
        search_ready(p, k),
        s0.extends(a),
        forall|m: Move| #[trigger] king_cand(p.board, p.stm(), k, m) ==> s0.got(a, m),
    ensures
        stages_done(p, s0, a, 1),
{
    {
        assert forall|m: Move| #[trigger] is_legal(p, m) && stage_of(p, m) < 1 implies s0.got(a, m) by {
            lemma_legal_king_cand(p, m, k);
        }
    }
}

/// In double check only king steps are legal, so after the king stage every legal move is
/// received.
proof fn lemma_double_check_done<Z: ZobristPolicy>(p: Position<Z>, k: int, s0: MoveSink, a: MoveSink)
    requires
        search_ready(p, k),
        pop(p.ctx().checkers) > 1,
        stages_done(p, s0, a, 1),
    ensures
        stages_done(p, s0, a, 9),
{
    {
        assert forall|m: Move| #[trigger] is_legal(p, m) && stage_of(p, m) < 9 implies s0.got(a, m) by {
            if m.flag_spec() == MoveFlag::Castling {
                lemma_legal_castling_no_check(p, m, k);
                lemma_pop_zero(p.ctx().checkers);
            } else if p.board.piece(m.from_spec().idx()) != Piece::King {
                lemma_legal_not_double_check(p, m, k);
            }
        }
    }
}

/// After the pawn-capture stage, the legal pawn captures are received too.
proof fn lemma_capture_stage<Z: ZobristPolicy>(p: Position<Z>, k: int, dst_mask: u64, s0: MoveSink, a: MoveSink, b: MoveSink)
    requires
        search_ready(p, k),
        pop(p.ctx().checkers) <= 1,
        dst_resolution(p.board, p.ctx().checkers, p.board.cm(p.stm().idx()), k, dst_mask),
        stages_done(p, s0, a, 1),
        a.extends(b),
        forall|m: Move|
            #[trigger] capture_cand(
                p.stm(),
                p.board.cm(p.stm().idx()) & p.board.pm(Piece::Pawn.idx()),
                p.board.cm(p.stm().opp().idx()),
                k,
                dst_mask,
                p.ctx().pinned,
                m,
            ) ==> a.got(b, m),
    ensures
        stages_done(p, s0, b, 2),
{
    let cand = |m: Move|
        capture_cand(
            p.stm(),
            p.board.cm(p.stm().idx()) & p.board.pm(Piece::Pawn.idx()),
            p.board.cm(p.stm().opp().idx()),
            k,
            dst_mask,
            p.ctx().pinned,
            m,
        );
    assert forall|m: Move| #[trigger] is_legal(p, m) && stage_of(p, m) == 1 implies cand(m) by {
        lemma_legal_capture_cand(p, m, k, dst_mask);
    }
    lemma_stage_join(p, s0, a, b, 1, cand);
}

/// After the en-passant stage, the legal en-passant captures are received too.
proof fn lemma_ep_stage<Z: ZobristPolicy>(p: Position<Z>, k: int, s0: MoveSink, a: MoveSink, b: MoveSink)
    requires
        search_ready(p, k),
        stages_done(p, s0, a, 2),
        a.extends(b),
        forall|m: Move|
            #[trigger] ep_cand(
                p.board,
                p.stm(),
                p.ctx().double_pawn_push_file as int,
                p.ctx().checkers,
                p.board.cm(p.stm().idx()) & p.board.pm(Piece::Pawn.idx()),
                k,
                p.ctx().pinned,
                m,
            ) ==> a.got(b, m),
    ensures
        stages_done(p, s0, b, 3),
{
    let cand = |m: Move|
        ep_cand(
            p.board,
            p.stm(),
            p.ctx().double_pawn_push_file as int,
            p.ctx().checkers,
            p.board.cm(p.stm().idx()) & p.board.pm(Piece::Pawn.idx()),
            k,
            p.ctx().pinned,
            m,
        );
    assert forall|m: Move| #[trigger] is_legal(p, m) && stage_of(p, m) == 2 implies cand(m) by {
        lemma_legal_ep_cand(p, m, k);
    }
    lemma_stage_join(p, s0, a, b, 2, cand);
}

/// After the pawn-push stage, the legal pawn pushes are received too.
proof fn lemma_push_stage<Z: ZobristPolicy>(p: Position<Z>, k: int, dst_mask: u64, s0: MoveSink, a: MoveSink, b: MoveSink)
    requires
        search_ready(p, k),
        pop(p.ctx().checkers) <= 1,
        dst_resolution(p.board, p.ctx().checkers, p.board.cm(p.stm().idx()), k, dst_mask),
        stages_done(p, s0, a, 3),
        a.extends(b),
        forall|m: Move|
            #[trigger] push_cand(
                p.stm(),
                p.board.occ(),
                p.board.cm(p.stm().idx()) & p.board.pm(Piece::Pawn.idx()),
                k,
                dst_mask,
                p.ctx().pinned,
                m,
            ) ==> a.got(b, m),
    ensures
        stages_done(p, s0, b, 4),
{
    let cand = |m: Move|
        push_cand(
            p.stm(),
            p.board.occ(),
            p.board.cm(p.stm().idx()) & p.board.pm(Piece::Pawn.idx()),
            k,
            dst_mask,
            p.ctx().pinned,
            m,
        );
    assert forall|m: Move| #[trigger] is_legal(p, m) && stage_of(p, m) == 3 implies cand(m) by {
        lemma_legal_push_cand(p, m, k, dst_mask);
    }
    lemma_stage_join(p, s0, a, b, 3, cand);
}

/// After the knight stage, the legal knight moves are received too.
proof fn lemma_knight_stage<Z: ZobristPolicy>(p: Position<Z>, k: int, dst_mask: u64, s0: MoveSink, a: MoveSink, b: MoveSink)
    requires
        search_ready(p, k),
        pop(p.ctx().checkers) <= 1,
        dst_resolution(p.board, p.ctx().checkers, p.board.cm(p.stm().idx()), k, dst_mask),
        stages_done(p, s0, a, 4),
        a.extends(b),
        forall|m: Move|
            #[trigger] knight_cand(
                p.board.cm(p.stm().idx()) & p.board.pm(Piece::Knight.idx()) & !p.ctx().pinned,
                dst_mask,
                m,
            ) ==> a.got(b, m),
    ensures
        stages_done(p, s0, b, 5),
{
    let cand = |m: Move|
        knight_cand(p.board.cm(p.stm().idx()) & p.board.pm(Piece::Knight.idx()) & !p.ctx().pinned, dst_mask, m);
    assert forall|m: Move| #[trigger] is_legal(p, m) && stage_of(p, m) == 4 implies cand(m) by {
        lemma_legal_knight_cand(p, m, k, dst_mask);
    }
    lemma_stage_join(p, s0, a, b, 4, cand);
}

/// After the sliding stage for `kind` (stage `j`), the legal moves of that kind are received
/// too.
proof fn lemma_slider_stage<Z: ZobristPolicy>(
    p: Position<Z>,
    k: int,
    dst_mask: u64,
    kind: Piece,
    j: int,
    s0: MoveSink,
    a: MoveSink,
    b: MoveSink,
)
    requires
        search_ready(p, k),
        pop(p.ctx().checkers) <= 1,
        dst_resolution(p.board, p.ctx().checkers, p.board.cm(p.stm().idx()), k, dst_mask),
        (kind == Piece::Bishop && j == 5) || (kind == Piece::Rook && j == 6) || (kind == Piece::Queen && j == 7),
        stages_done(p, s0, a, j),
        a.extends(b),
        forall|m: Move|
            #[trigger] slider_cand(
                kind,
                p.board.occ(),
                p.board.cm(p.stm().idx()) & p.board.pm(kind.idx()),
                k,
                dst_mask,
                p.ctx().pinned,
                m,
            ) ==> a.got(b, m),
    ensures
        stages_done(p, s0, b, j + 1),
{
    let cand = |m: Move|
        slider_cand(kind, p.board.occ(), p.board.cm(p.stm().idx()) & p.board.pm(kind.idx()), k, dst_mask, p.ctx().pinned, m);
    assert forall|m: Move| #[trigger] is_legal(p, m) && stage_of(p, m) == j implies cand(m) by {
        lemma_legal_slider_cand(p, m, k, dst_mask);
    }
    lemma_stage_join(p, s0, a, b, j, cand);
}

/// After the castling stage (run only when not in check), every legal move is received.
proof fn lemma_castling_stage<Z: ZobristPolicy>(p: Position<Z>, k: int, allowed: bool, s0: MoveSink, a: MoveSink, b: MoveSink)
    requires
        search_ready(p, k),
        stages_done(p, s0, a, 8),
        a.extends(b),
        !allowed ==> p.ctx().checkers != 0,
        allowed ==> forall|m: Move|
            #[trigger] castling_move(p, m) && m.promotion_spec() == Piece::Null ==> a.got(b, m),
    ensures
        forall|m: Move| #[trigger] is_legal(p, m) ==> s0.got(b, m),
{
    let cand = |m: Move| castling_move(p, m) && m.promotion_spec() == Piece::Null;
    assert forall|m: Move| #[trigger] is_legal(p, m) && stage_of(p, m) == 8 implies cand(m) by {
        lemma_legal_castling_no_check(p, m, k);
    }
    if allowed {
        lemma_stage_join(p, s0, a, b, 8, cand);
    } else {
        assert forall|m: Move| #[trigger] is_legal(p, m) && stage_of(p, m) < 9 implies stage_of(p, m) < 8 by {
            if stage_of(p, m) == 8 {
                lemma_legal_castling_no_check(p, m, k);
            }
        }
        lemma_extends_trans(s0, a, b);
        {
            assert forall|m: Move| #[trigger] is_legal(p, m) && stage_of(p, m) < 9 implies s0.got(b, m) by {
                lemma_got_joined(s0, a, b, m);
            }
        }
    }
    {
        assert forall|m: Move| #[trigger] is_legal(p, m) implies s0.got(b, m) by {
            assert(stage_of(p, m) < 9);
        }
    }
}

/// The king of the side that is not to move in `p` is not attacked.
pub open spec fn waiting_king_safe<Z: ZobristPolicy>(p: Position<Z>) -> bool {
    forall|k: int|
        0 <= k < 64 && #[trigger] kings_of(p.board, p.stm().opp()) == sq_bit(k) ==> !attacked_by(
            p.board,
            p.stm(),
            k,
            p.board.cm(p.stm().idx()),
            p.board.occ(),
        )
}

/// A piece move by the rules onto an occupied square attacks that square.
proof fn lemma_capture_attacks(b: Board, stm: Color, m: Move)
    requires
        b.wf(),
        move_ok(b, stm, m),
        m.flag_spec() == MoveFlag::NormalMove || m.flag_spec() == MoveFlag::Promotion,
        moves_by_rule(b, stm, m),
        b.piece(m.to_spec().idx()) != Piece::Null,
    ensures
        attacked_by(b, stm, m.to_spec().idx(), b.cm(stm.idx()), b.occ()),
{
    let f = m.from_spec().idx();
    let t = m.to_spec().idx();
    b.lemma_square(f);
    b.lemma_square(t);
    crate::attacks::manual::lemma_delta(f, t);
    let kind = b.piece(f);
    if kind.sliding() {
        crate::position::legality::lemma_slider_sees(b, kind, f, t);
        assert(slides_onto(b, f, t, b.occ()));
    } else {
        assert(steps_onto(b, stm, f, t));
    }
}

/// Two squares strictly between `k` and `a` on a diagonal share a file only when they are one.
proof fn lemma_diag_file_unique(k: int, a: int, x: int, y: int)
    requires
        0 <= k < 64,
        0 <= a < 64,
        0 <= x < 64,
        0 <= y < 64,
        same_diag(k, a) || same_anti_diag(k, a),
        between_spec(k, a, x),
        between_spec(k, a, y),
        same_file(x, y),
    ensures
        x == y,
{
    crate::attacks::manual::lemma_coords(k);
    crate::attacks::manual::lemma_coords(a);
    crate::attacks::manual::lemma_coords(x);
    crate::attacks::manual::lemma_coords(y);
}

/// After a pawn's two-square advance from a position whose waiting king is safe, that pawn does
/// not stand alone on a diagonal between the king now to move and an opposing bishop or queen.
proof fn lemma_double_push_unshielded<Z: ZobristPolicy>(p: Position<Z>, m: Move, q: Position<Z>, k2: int)
    requires
        p.wf(),
        0 <= k2 < 64,
        waiting_king_safe(p),
        kings_of(p.board, p.stm().opp()) == sq_bit(k2),
        move_ok(p.board, p.stm(), m),
        double_push_ok(p.board, p.stm(), m),
        make_post(p, m, q),
    ensures
        ep_unshielded(q.board, q.stm(), k2, m.to_spec().idx()),
{
    let b = p.board;
    let qb = q.board;
    let stm = p.stm();
    let f = m.from_spec().idx();
    let t = m.to_spec().idx();
    assert forall|a: int|
        0 <= a < 64 && pin_line(qb, q.stm(), k2, a) && (same_diag(k2, a) || same_anti_diag(k2, a)) implies !#[trigger] sole_blocker(
        qb,
        k2,
        a,
        t,
    ) by {
        if sole_blocker(qb, k2, a, t) {
            qb.lemma_square(a);
            b.lemma_square(a);
            b.lemma_square(f);
            b.lemma_square(t);
            crate::attacks::manual::lemma_coords(f);
            crate::attacks::manual::lemma_coords(t);
            assert(qb.piece(a) == after_piece(b, stm, m, a));
            assert(a != f && a != t);
            assert(qb.color(a) == after_color(b, stm, m, a));
            assert forall|u: int| 0 <= u < 64 && #[trigger] between_spec(k2, a, u) implies !bb_has(b.occ(), u) by {
                qb.lemma_square(u);
                b.lemma_square(u);
                assert(qb.piece(u) == after_piece(b, stm, m, u));
                if u == f {
                    lemma_diag_file_unique(k2, a, f, t);
                }
            }
            assert(slides_onto(b, a, k2, b.occ()));
            assert(bb_has(kings_of(b, stm.opp()), k2));
            assert(attacked_by(b, stm, k2, b.cm(stm.idx()), b.occ()));
        }
    }
}

/// A legal move leaves exactly one king of the side that moved, on the square its king went to.
proof fn lemma_mover_king_after<Z: ZobristPolicy>(p: Position<Z>, m: Move, q: Position<Z>, k: int)
    requires
        p.wf(),
        0 <= k < 64,
        kings_of(p.board, p.stm()) == sq_bit(k),
        is_legal(p, m),
        make_post(p, m, q),
    ensures
        0 <= crate::position::legality::king_after(m, k) < 64,
        kings_of(q.board, p.stm()) == sq_bit(crate::position::legality::king_after(m, k)),
{
    let b = p.board;
    let stm = p.stm();
    let f = m.from_spec().idx();
    let t = m.to_spec().idx();
    let kk = crate::position::legality::king_after(m, k);
    b.lemma_square(f);
    b.lemma_square(t);
    b.lemma_square(k);
    assert(bb_has(kings_of(b, stm), k));
    assert forall|s: int| 0 <= s < 64 implies #[trigger] bb_has(kings_of(q.board, stm), s) == bb_has(sq_bit(kk), s) by {
        crate::game_state::lemma_kings_of(q.board, stm, s);
        crate::game_state::lemma_kings_of(b, stm, s);
        b.lemma_square(s);
        assert(q.board.piece(s) == after_piece(b, stm, m, s));
        if after_piece(b, stm, m, s) != Piece::Null {
            assert(q.board.color(s) == after_color(b, stm, m, s));
        }
        if b.piece(f) == Piece::King {
            crate::game_state::lemma_kings_of(b, stm, f);
            assert(bb_has(sq_bit(k), f));
            assert(f == k);
        }
    }
    crate::bitboard::lemma_squares_ext(kings_of(q.board, stm), sq_bit(kk));
}

/// Law: a legal move from a position where the generator's king safety is grounded, each side
/// has one king and the king of the side not to move is not attacked leads to a position with
/// all of that again; so along a game of legal moves from such a position, the generated moves
/// are exactly the legal ones at every step.
pub proof fn lemma_legal_move_keeps_grounded<Z: ZobristPolicy>(p: Position<Z>, m: Move, q: Position<Z>)
    requires
        p.wf(),
        pop(kings_of(p.board, p.stm())) == 1,
        pop(kings_of(p.board, p.stm().opp())) == 1,
        pins_checks_ok(p.board, p.stm(), p.ctx().pinned, p.ctx().checkers),
        safety_grounded(p),
        waiting_king_safe(p),
        is_legal(p, m),
        make_post(p, m, q),
    ensures
        q.wf(),
        pop(kings_of(q.board, q.stm())) == 1,
        pop(kings_of(q.board, q.stm().opp())) == 1,
        safety_grounded(q),
        waiting_king_safe(q),
{
    let b = p.board;
    let stm = p.stm();
    let f = m.from_spec().idx();
    let t = m.to_spec().idx();
    crate::bitboard::lemma_pop_single(kings_of(b, stm));
    let k = choose|s: int| 0 <= s < 64 && bb_has(kings_of(b, stm), s) && forall|u: int| 0 <= u < 64 && #[trigger] bb_has(kings_of(b, stm), u) ==> u == s;
    crate::bitboard::lemma_squares_ext(kings_of(b, stm), sq_bit(k));
    crate::bitboard::lemma_pop_single(kings_of(b, stm.opp()));
    let ko = choose|s: int| 0 <= s < 64 && bb_has(kings_of(b, stm.opp()), s) && forall|u: int| 0 <= u < 64 && #[trigger] bb_has(kings_of(b, stm.opp()), u) ==> u == s;
    crate::bitboard::lemma_squares_ext(kings_of(b, stm.opp()), sq_bit(ko));
    b.lemma_square(t);
    b.lemma_square(ko);
    crate::game_state::lemma_kings_of(b, stm.opp(), ko);
    if b.piece(t) == Piece::King {
        assert(m.flag_spec() == MoveFlag::NormalMove || m.flag_spec() == MoveFlag::Promotion);
        lemma_capture_attacks(b, stm, m);
        crate::game_state::lemma_kings_of(b, stm.opp(), t);
        assert(t == ko);
    }
    crate::game_state::lemma_opposing_kings_kept(p, m, q);
    assert(kings_of(q.board, q.stm()) == sq_bit(ko));
    lemma_mover_king_after(p, m, q, k);
    let kk = crate::position::legality::king_after(m, k);
    assert(q.stm().opp() == stm);
    assert(kings_of(q.board, q.stm().opp()) == sq_bit(kk));
    crate::bitboard::lemma_pop_single(sq_bit(ko));
    crate::bitboard::lemma_pop_single(sq_bit(kk));
    assert(bb_has(sq_bit(ko), ko));
    assert(bb_has(sq_bit(kk), kk));
    lemma_make_keeps_ep_consistent(p, m, q);
    crate::position::castling::lemma_make_keeps_castling_consistent(p, m, q);
    assert(king_safe_after(b, stm, m, k));
    crate::position::legality::lemma_safe_move_leaves_no_check(p, m, q, k);
    assert forall|k2: int| 0 <= k2 < 64 && #[trigger] kings_of(q.board, q.stm().opp()) == sq_bit(k2) implies !attacked_by(
        q.board,
        q.stm(),
        k2,
        q.board.cm(q.stm().idx()),
        q.board.occ(),
    ) by {
        assert(bb_has(sq_bit(k2), k2));
    }
    let dpf = q.ctx().double_pawn_push_file as int;
    assert forall|k2: int| 0 <= k2 < 64 && #[trigger] kings_of(q.board, q.stm()) == sq_bit(k2) implies kings_apart(q.board, q.stm(), k2) && (
    q.ctx().checkers == 0 && 0 <= dpf < 8 ==> ep_unshielded(q.board, q.stm(), k2, sq_at(ep_pawn_rank(q.stm()), dpf))) by {
        assert(bb_has(sq_bit(k2), k2));
        assert(k2 == ko);
        q.board.lemma_square(ko);
        crate::game_state::lemma_kings_of(q.board, q.stm(), ko);
        assert(after_piece(b, stm, m, ko) == Piece::King);
        assert(after_color(b, stm, m, ko) == stm.opp());
        assert(!crate::position::legality::attacks_after(b, stm, m, ko, kk));
        assert forall|a: int| 0 <= a < 64 && q.board.holds(a, Piece::King, q.stm().opp()) implies !#[trigger] king_step(a, k2) by {
            crate::game_state::lemma_kings_of(q.board, stm, a);
            assert(bb_has(sq_bit(kk), a));
        }
        if 0 <= dpf < 8 {
            crate::attacks::manual::lemma_coords(f);
            assert(b.piece(f) == Piece::Pawn);
            assert(double_push_ok(b, stm, m));
            assert(sq_at(ep_pawn_rank(q.stm()), dpf) == t);
            lemma_double_push_unshielded(p, m, q, ko);
        }
    }
}

impl<Z: ZobristPolicy> Position<Z> {
    /// Sends every legal move of the side to move to `sink`: king moves, then (unless in double
    /// check) pawn captures, en-passant captures, pawn pushes, knight, bishop, rook and queen
    /// moves, and castling when not in check.
    #[verifier::rlimit(100)]
    fn visit_legal_moves(&self, sink: &mut MoveSink)
        requires
            self.wf(),
            pop(kings_of(self.board, self.stm())) == 1,
            pins_checks_ok(self.board, self.stm(), self.ctx().pinned, self.ctx().checkers),
            old(sink).count + 40000 <= u32::MAX,
        ensures
            grows_upto(*old(sink), *final(sink), |m: Move| emitted_ok(*self, m), 40000),
            forall|m: Move| #[trigger] is_legal(*self, m) ==> old(sink).got(*final(sink), m),
            old(sink).distinct_since(*final(sink)),
    {
        let ghost ok = |m: Move| emitted_ok(*self, m);
        let ghost s0 = *sink;
        proof {
            lemma_grows_refl(s0, ok);
        }
        let ctx = *self.context();
        let board = &self.board;
        let ghost b = *board;
        let stm = self.side_to_move;
        let king_sq = self.king_square(stm);
        let ghost k = king_sq.idx();
        proof {
            assert(bb_has(sq_bit(k), k));
            b.lemma_square(k);
            assert(kings_of(b, stm) == sq_bit(k));
            assert(safety_grounded(*self) ==> kings_apart(b, stm, k));
        }
        let stm_pieces = board.color_mask_at(stm);
        let stm_king_mask = stm_pieces & board.piece_mask_at(Piece::King);
        proof {
            assert forall|s: int| 0 <= s < 64 implies #[trigger] bb_has(stm_king_mask, s) == bb_has(sq_bit(k), s) by {
                assert(bb_has(kings_of(b, stm), s) == bb_has(sq_bit(k), s));
            }
            crate::bitboard::lemma_squares_ext(stm_king_mask, sq_bit(k));
        }
        emit_king_moves(board, stm, king_sq, stm_pieces, stm_king_mask, sink);
        proof {
            assert forall|m: Move| #[trigger] king_move_fits(b, stm, k, m) implies ok(m) by {
                if safety_grounded(*self) {
                    lemma_king_move_safe(b, stm, m, k);
                    lemma_safe_at_king(*self, m, k);
                }
            }
            lemma_grows_weaken(s0, *sink, |m: Move| king_move_fits(b, stm, k, m) && move_stage(b, stm, m) == 0, ok, sink.count - s0.count);
            lemma_grows_extends(s0, *sink, ok, sink.count - s0.count);
            assert(search_ready(*self, k));
            lemma_king_stage(*self, k, s0, *sink);
            lemma_grows_refl(s0, ok);
            lemma_grows_extends(s0, s0, ok, 0);
            lemma_stage_distinct(
                b,
                stm,
                s0,
                s0,
                *sink,
                0,
                |m: Move| king_move_fits(b, stm, k, m) && move_stage(b, stm, m) == 0,
                sink.count - s0.count,
            );
        }
        if count_squares(ctx.checkers) > 1 {
            proof {
                lemma_double_check_done(*self, k, s0, *sink);
                lemma_all_stages(*self, s0, *sink);
            }
            return;
        }
        let (dst_mask, allow_castling) = resolve_dst_mask_and_castling(board, ctx.checkers, stm_pieces, king_sq);
        proof {
            assert(dst_resolution(b, ctx.checkers, b.cm(stm.idx()), k, dst_mask));
            assert forall|t: int| 0 <= t < 64 && #[trigger] bb_has(dst_mask, t) implies !bb_has(b.cm(stm.idx()), t) by {
                if exists|c: int| 0 <= c < 64 && ctx.checkers == #[trigger] sq_bit(c) {
                    let c = choose|c: int| 0 <= c < 64 && ctx.checkers == #[trigger] sq_bit(c);
                    assert(bb_has(sq_bit(c), c));
                    assert(is_checker(b, stm, k, c));
                    b.lemma_square(c);
                }
            }
            lemma_resolves_checks(b, ctx.checkers, k, dst_mask, stm_pieces);
        }
        let pawns = stm_pieces & board.piece_mask_at(Piece::Pawn);
        let opposite = board.color_mask_at(stm.other());
        let occupied = board.pieces();
        proof {
            assert forall|s: int| 0 <= s < 64 && #[trigger] bb_has(pawns, s) implies b.piece(s) == Piece::Pawn && b.color(s) == stm by {
                b.lemma_square(s);
            }
            assert forall|t: int| 0 <= t < 64 && #[trigger] bb_has(opposite, t) implies b.piece(t) != Piece::Null by {
                b.lemma_square(t);
            }
        }
        let ghost s1 = *sink;
        emit_non_ep_pawn_captures(stm, pawns, opposite, king_sq, dst_mask, ctx.pinned, sink, Ghost(b));
        proof {
            self.lemma_fits_ok(k, dst_mask);
            lemma_grows_weaken(
                s1,
                *sink,
                |m: Move| fits_on(b, stm, k, ctx.pinned, dst_mask)(m) && move_stage(b, stm, m) == 1,
                ok,
                sink.count - s1.count,
            );
            lemma_grows_trans(s0, s1, *sink, ok, s1.count - s0.count, sink.count - s1.count);
            lemma_grows_extends(s1, *sink, ok, sink.count - s1.count);
            lemma_capture_stage(*self, k, dst_mask, s0, s1, *sink);
            lemma_stage_distinct(
                b,
                stm,
                s0,
                s1,
                *sink,
                1,
                |m: Move| fits_on(b, stm, k, ctx.pinned, dst_mask)(m) && move_stage(b, stm, m) == 1,
                sink.count - s1.count,
            );
        }
        let ghost s2 = *sink;
        emit_en_passants(board, stm, ctx.double_pawn_push_file, ctx.checkers, pawns, king_sq, ctx.pinned, sink);
        proof {
            assert forall|m: Move| #[trigger] ep_emitted(b, stm, ctx.double_pawn_push_file as int, k, ctx.pinned, ctx.checkers, m) implies ok(m) by {
                if safety_grounded(*self) {
                    let f = m.from_spec().idx();
                    let t = m.to_spec().idx();
                    crate::attacks::manual::lemma_coords(f);
                    crate::attacks::manual::lemma_coords(t);
                    lemma_gen_ok_playable(*self, m);
                    assert(follows_rules(*self, m));
                    assert(ep_move_fits(b, stm, k, ctx.pinned, ctx.checkers, m));
                    lemma_ep_move_safe(b, stm, m, k, ctx.pinned, ctx.checkers);
                    lemma_safe_at_king(*self, m, k);
                }
            }
            lemma_grows_weaken(
                s2,
                *sink,
                |m: Move| ep_emitted(b, stm, ctx.double_pawn_push_file as int, k, ctx.pinned, ctx.checkers, m),
                ok,
                sink.count - s2.count,
            );
            lemma_grows_trans(s0, s2, *sink, ok, s2.count - s0.count, sink.count - s2.count);
            lemma_grows_extends(s2, *sink, ok, sink.count - s2.count);
            lemma_ep_stage(*self, k, s0, s2, *sink);
            lemma_stage_distinct(
                b,
                stm,
                s0,
                s2,
                *sink,
                2,
                |m: Move| ep_emitted(b, stm, ctx.double_pawn_push_file as int, k, ctx.pinned, ctx.checkers, m),
                sink.count - s2.count,
            );
        }
        let ghost s3 = *sink;
        emit_pawn_pushes(stm, occupied, pawns, king_sq, dst_mask, ctx.pinned, sink, Ghost(b));
        proof {
            self.lemma_fits_ok(k, dst_mask);
            lemma_grows_weaken(
                s3,
                *sink,
                |m: Move| fits_on(b, stm, k, ctx.pinned, dst_mask)(m) && move_stage(b, stm, m) == 3,
                ok,
                sink.count - s3.count,
            );
            lemma_grows_trans(s0, s3, *sink, ok, s3.count - s0.count, sink.count - s3.count);
            lemma_grows_extends(s3, *sink, ok, sink.count - s3.count);
            lemma_push_stage(*self, k, dst_mask, s0, s3, *sink);
            lemma_stage_distinct(
                b,
                stm,
                s0,
                s3,
                *sink,
                3,
                |m: Move| fits_on(b, stm, k, ctx.pinned, dst_mask)(m) && move_stage(b, stm, m) == 3,
                sink.count - s3.count,
            );
        }
        let knights = stm_pieces & board.piece_mask_at(Piece::Knight) & !ctx.pinned;
        proof {
            assert forall|s: int| 0 <= s < 64 && #[trigger] bb_has(knights, s) implies b.piece(s) != Piece::Null && b.piece(s) != Piece::Pawn
                && b.piece(s) != Piece::King && b.color(s) == stm by {
                b.lemma_square(s);
                assert(bb_has(b.pm(Piece::Knight.idx()), s));
            }
            assert forall|s: int| 0 <= s < 64 && #[trigger] bb_has(knights, s) implies b.piece(s) == Piece::Knight && !bb_has(ctx.pinned, s) by {
                b.lemma_square(s);
                assert(bb_has(b.pm(Piece::Knight.idx()), s));
            }
        }
        let ghost s4 = *sink;
        emit_knight_moves(knights, dst_mask, sink, Ghost(b), Ghost(stm), Ghost(k), Ghost(ctx.pinned));
        proof {
            self.lemma_fits_ok(k, dst_mask);
            lemma_grows_weaken(
                s4,
                *sink,
                |m: Move| fits_on(b, stm, k, ctx.pinned, dst_mask)(m) && move_stage(b, stm, m) == 4,
                ok,
                sink.count - s4.count,
            );
            lemma_grows_trans(s0, s4, *sink, ok, s4.count - s0.count, sink.count - s4.count);
            lemma_grows_extends(s4, *sink, ok, sink.count - s4.count);
            lemma_knight_stage(*self, k, dst_mask, s0, s4, *sink);
            lemma_stage_distinct(
                b,
                stm,
                s0,
                s4,
                *sink,
                4,
                |m: Move| fits_on(b, stm, k, ctx.pinned, dst_mask)(m) && move_stage(b, stm, m) == 4,
                sink.count - s4.count,
            );
        }
        let kinds = [Piece::Bishop, Piece::Rook, Piece::Queen];
        let mut i: usize = 0;
        while i < 3
            invariant
                i <= 3,
                kinds[0] == Piece::Bishop,
                kinds[1] == Piece::Rook,
                kinds[2] == Piece::Queen,
                b == *board,
                b.wf(),
                stm_pieces == b.cm(stm.idx()),
                occupied == b.occ(),
                forall|t: int| 0 <= t < 64 && #[trigger] bb_has(dst_mask, t) ==> !bb_has(b.cm(stm.idx()), t),
                s0.count <= sink.count <= s0.count + 24736 + 4096 * i,
                s0.grows(*sink, ok, sink.count - s0.count),
                s0.count + 40000 <= u32::MAX,
                ok == (|m: Move| emitted_ok(*self, m)),
                b == self.board,
                stm == self.stm(),
                k == king_sq.idx(),
                ctx == self.ctx(),
                0 <= k < 64,
                kings_of(b, stm) == sq_bit(k),
                resolves_checks(b, ctx.checkers, k, dst_mask),
                self.wf(),
                pins_checks_ok(self.board, self.stm(), self.ctx().pinned, self.ctx().checkers),
                search_ready(*self, k),
                pop(ctx.checkers) <= 1,
                dst_resolution(b, ctx.checkers, b.cm(stm.idx()), k, dst_mask),
                stages_done(*self, s0, *sink, 5 + i),
                s0.distinct_since(*sink),
                forall|x: int| s0.seen@.len() <= x < sink.seen@.len() ==> move_stage(b, stm, #[trigger] sink.seen@[x]) < 5 + i,
            decreases 3 - i,
        {
            let kind = kinds[i];
            let pieces = stm_pieces & board.piece_mask_at(kind);
            proof {
                assert forall|s: int| 0 <= s < 64 && #[trigger] bb_has(pieces, s) implies b.piece(s) != Piece::Null && b.piece(s) != Piece::Pawn
                    && b.piece(s) != Piece::King && b.color(s) == stm && b.piece(s) == kind by {
                    b.lemma_square(s);
                    assert(bb_has(b.pm(kind.idx()), s));
                }
            }
            let ghost s5 = *sink;
            emit_sliding_moves(kind, occupied, pieces, king_sq, dst_mask, ctx.pinned, sink, Ghost(b), Ghost(stm));
            proof {
                self.lemma_fits_ok(k, dst_mask);
                lemma_grows_weaken(
                    s5,
                    *sink,
                    |m: Move| fits_on(b, stm, k, ctx.pinned, dst_mask)(m) && move_stage(b, stm, m) == slider_stage(kind),
                    ok,
                    sink.count - s5.count,
                );
                lemma_grows_trans(s0, s5, *sink, ok, s5.count - s0.count, sink.count - s5.count);
                lemma_grows_extends(s5, *sink, ok, sink.count - s5.count);
                lemma_slider_stage(*self, k, dst_mask, kind, 5 + i, s0, s5, *sink);
                assert(slider_stage(kind) == 5 + i);
                lemma_stage_distinct(
                    b,
                    stm,
                    s0,
                    s5,
                    *sink,
                    5 + i,
                    |m: Move| fits_on(b, stm, k, ctx.pinned, dst_mask)(m) && move_stage(b, stm, m) == slider_stage(kind),
                    sink.count - s5.count,
                );
            }
            i = i + 1;
        }
        let ghost s6 = *sink;
        proof {
            lemma_grows_refl(s6, ok);
            lemma_grows_extends(s6, s6, ok, 0);
            if !allow_castling {
                let c = choose|c: int| 0 <= c < 64 && ctx.checkers == #[trigger] sq_bit(c);
                assert(bb_has(sq_bit(c), c));
            }
        }
        if allow_castling {
            self.emit_castling_moves(sink);
            proof {
                assert forall|m: Move| #[trigger] castling_move(*self, m) && m.promotion_spec() == Piece::Null implies ok(m) by {
                    if safety_grounded(*self) {
                        lemma_gen_ok_playable(*self, m);
                        let fl = choose|fl: Flank| m.to_spec().idx() == home_base(stm) + king_dst_file(fl) && #[trigger] castling_allowed(*self, fl);
                        lemma_castling_safe(*self, m, k, fl);
                        lemma_safe_at_king(*self, m, k);
                    }
                }
                lemma_grows_weaken(s6, *sink, |m: Move| castling_move(*self, m) && m.promotion_spec() == Piece::Null, ok, sink.count - s6.count);
                lemma_grows_trans(s0, s6, *sink, ok, s6.count - s0.count, sink.count - s6.count);
                lemma_grows_extends(s6, *sink, ok, sink.count - s6.count);
                lemma_stage_distinct(
                    b,
                    stm,
                    s0,
                    s6,
                    *sink,
                    8,
                    |m: Move| castling_move(*self, m) && m.promotion_spec() == Piece::Null,
                    sink.count - s6.count,
                );
            }
        }
        proof {
            lemma_castling_stage(*self, k, allow_castling, s0, s6, *sink);
        }
    }

    /// A piece move by the piece's rule fitting the pins and the check resolution is one the
    /// generator may emit.
    proof fn lemma_fits_ok(&self, k: int, dst_mask: u64)
        requires
            self.wf(),
            0 <= k < 64,
            kings_of(self.board, self.stm()) == sq_bit(k),
            pins_checks_ok(self.board, self.stm(), self.ctx().pinned, self.ctx().checkers),
            resolves_checks(self.board, self.ctx().checkers, k, dst_mask),
        ensures
            forall|m: Move|
                #[trigger] piece_move_fits(self.board, self.stm(), k, self.ctx().pinned, dst_mask, m) && moves_by_rule(
                    self.board,
                    self.stm(),
                    m,
                ) ==> emitted_ok(*self, m),
    {
        assert forall|m: Move|
            #[trigger] piece_move_fits(self.board, self.stm(), k, self.ctx().pinned, dst_mask, m) && moves_by_rule(
                self.board,
                self.stm(),
                m,
            ) implies emitted_ok(*self, m) by {
            if safety_grounded(*self) {
                assert(kings_apart(self.board, self.stm(), k));
                lemma_piece_move_safe(self.board, self.stm(), m, k, self.ctx().pinned, self.ctx().checkers, dst_mask);
                lemma_safe_at_king(*self, m, k);
            }
        }
    }

    /// Appends every legal move of the side to move to `moves` (existing entries are kept).
    pub fn generate_moves(&self, moves: &mut MoveList)
        requires
            self.wf(),
            pop(kings_of(self.board, self.stm())) == 1,
            pins_checks_ok(self.board, self.stm(), self.ctx().pinned, self.ctx().checkers),
        ensures
            final(moves)@.len() >= old(moves)@.len(),
            final(moves)@.subrange(0, old(moves)@.len() as int) == old(moves)@,
            forall|i: int| old(moves)@.len() <= i < final(moves)@.len() ==> gen_ok(*self, #[trigger] final(moves)@[i]),
            ep_consistent(*self) && castling_consistent(*self) ==> forall|i: int|
                old(moves)@.len() <= i < final(moves)@.len() ==> move_ok(self.board, self.stm(), #[trigger] final(moves)@[i]),
            safety_grounded(*self) ==> forall|i: int|
                old(moves)@.len() <= i < final(moves)@.len() ==> is_legal(*self, #[trigger] final(moves)@[i]),
            forall|m: Move| #[trigger] is_legal(*self, m) ==> exists|i: int|
                old(moves)@.len() <= i < final(moves)@.len() && final(moves)@[i] == m,
            forall|i: int, j: int|
                old(moves)@.len() <= i < j < final(moves)@.len() ==> #[trigger] final(moves)@[i] != #[trigger] final(moves)@[j],
    {
        let mut sink = MoveSink { moves: MoveList::new(), count: 0, collect: true, seen: Ghost(Seq::empty()) };
        std::mem::swap(&mut sink.moves, moves);
        let ghost s0 = sink;
        self.visit_legal_moves(&mut sink);
        let ghost s1 = sink;
        std::mem::swap(&mut sink.moves, moves);
        proof {
            let fresh = s1.seen@;
            let n0 = old(moves)@.len() as int;
            assert(s0.moves@ == old(moves)@);
            assert(fresh.subrange(0, fresh.len() as int) =~= fresh);
            assert(moves@ == old(moves)@ + fresh);
            assert(moves@.subrange(0, n0) =~= old(moves)@);
            assert forall|i: int| n0 <= i < moves@.len() implies emitted_ok(*self, #[trigger] moves@[i]) by {
                let ok = |m: Move| emitted_ok(*self, m);
                assert(moves@[i] == fresh[i - n0]);
                assert(ok(fresh[i - n0]));
            }
            if ep_consistent(*self) && castling_consistent(*self) {
                assert forall|i: int| old(moves)@.len() <= i < moves@.len() implies move_ok(self.board, self.stm(), #[trigger] moves@[i]) by {
                    lemma_gen_ok_playable(*self, moves@[i]);
                }
            }
            assert forall|m: Move| #[trigger] is_legal(*self, m) implies exists|i: int|
                old(moves)@.len() <= i < moves@.len() && moves@[i] == m by {
                assert(s0.got(s1, m));
                let j = choose|j: int| 0 <= j < fresh.len() && #[trigger] fresh[j] == m;
                assert(moves@[n0 + j] == m);
            }
            assert forall|i: int, j: int| n0 <= i < j < moves@.len() implies #[trigger] moves@[i] != #[trigger] moves@[j] by {
                assert(moves@[i] == fresh[i - n0]);
                assert(moves@[j] == fresh[j - n0]);
                assert(fresh[i - n0] != fresh[j - n0]);
            }
        }
    }

    /// The number of legal moves of the side to move, counted without building them.
    pub fn count_legal_moves(&self) -> (n: u32)
        requires
            self.wf(),
            pop(kings_of(self.board, self.stm())) == 1,
            pins_checks_ok(self.board, self.stm(), self.ctx().pinned, self.ctx().checkers),
        ensures
            n <= 40000,
            legal_moves(*self).finite(),
            legal_moves(*self).len() <= n,
            safety_grounded(*self) ==> legal_moves(*self).len() == n,
    {
        let mut sink = MoveSink { moves: MoveList::new(), count: 0, collect: false, seen: Ghost(Seq::empty()) };
        let ghost s0 = sink;
        self.visit_legal_moves(&mut sink);
        proof {
            let fresh = sink.seen@;
            assert(fresh.len() == sink.count);
            assert(fresh.no_duplicates()) by {
                assert forall|i: int, j: int| 0 <= i < fresh.len() && 0 <= j < fresh.len() && i != j implies fresh[i] != fresh[j] by {
                    if i < j {
                        assert(fresh[i] != fresh[j]);
                    } else {
                        assert(fresh[j] != fresh[i]);
                    }
                }
            }
            fresh.unique_seq_to_set();
            assert forall|m: Move| #[trigger] legal_moves(*self).contains(m) implies fresh.to_set().contains(m) by {
                assert(s0.got(sink, m));
            }
            assert(legal_moves(*self).subset_of(fresh.to_set()));
            vstd::set_lib::lemma_len_subset(legal_moves(*self), fresh.to_set());
            if safety_grounded(*self) {
                assert forall|m: Move| fresh.to_set().contains(m) implies #[trigger] legal_moves(*self).contains(m) by {
                    let i = choose|i: int| 0 <= i < fresh.len() && fresh[i] == m;
                    let ok = |x: Move| emitted_ok(*self, x);
                    assert(ok(fresh[i]));
                }
                assert(legal_moves(*self) =~= fresh.to_set());
            }
        }
        sink.count
    }
}

/// After any move the double-push file is backed by the board: it is set only by a pawn's
/// two-square advance, which leaves the pawn on its target and the square it crossed empty.
pub proof fn lemma_make_keeps_ep_consistent<Z: ZobristPolicy>(p: Position<Z>, m: Move, q: Position<Z>)
    requires
        p.wf(),
        move_ok(p.board, p.stm(), m),
        make_post(p, m, q),
    ensures
        ep_consistent(q),
{
    let f = m.from_spec().idx();
    let t = m.to_spec().idx();
    let d = q.ctx().double_pawn_push_file as int;
    if 0 <= d < 8 {
        assert(p.board.piece(f) == Piece::Pawn);
        assert(t == f + 16 || t == f - 16);
        assert(double_push_ok(p.board, p.stm(), m));
        crate::attacks::manual::lemma_coords(f);
        let mid = f - 8 * fwd(p.stm());
        assert(sq_at(ep_target_rank(q.stm()), d) == mid);
        assert(sq_at(ep_pawn_rank(q.stm()), d) == t);
        assert(q.board.piece(mid) == after_piece(p.board, p.stm(), m, mid));
        assert(q.board.piece(t) == after_piece(p.board, p.stm(), m, t));
        assert(q.board.color(t) == after_color(p.board, p.stm(), m, t));
    }
}

} // verus!
