//! Counting the leaf nodes of the move tree (perft).
use vstd::prelude::*;
use crate::bitboard::{pop, count_squares};
use crate::types::{Move, MoveList, Piece};
use crate::position::state::{Position, ZobristPolicy};
use crate::position::pins::{kings_of, pins_checks_ok};
use crate::position::castling::{castling_consistent, lemma_make_keeps_castling_consistent};
use crate::position::make_move::{lemma_make_unmake_round_trip, make_post, unmake_post, move_ok, after_piece};
use crate::position::move_generation::{
    ep_consistent, lemma_make_keeps_ep_consistent, gen_ok, lemma_gen_ok_playable, legal_moves, safety_grounded,
    waiting_king_safe,
};
use crate::position::legality::kings_apart;
use crate::board_attacks::{attacked_by, steps_onto, slides_onto};
use crate::bitboard::{bb_has, sq_bit, group_has};
use crate::attacks::manual::king_step;
use crate::types::{Color, Flank};
use crate::board::Board;
use crate::position::castling::{castling_allowed, has_rights};
use crate::position::move_generation::{is_legal, castling_move, sound_position, lemma_legal_move_keeps_grounded};
use crate::position::make_move::after_color;
use crate::types::double_pawn_push_file::dpf_after_step;
use crate::types::castling_rights::rights_kept;

verus! {

broadcast use group_has;

/// The position can be searched `depth` plies deep: it is consistent, its contexts agree with
/// its board, and its halfmove counters leave room for `depth` more moves.
pub open spec fn searchable<Z: ZobristPolicy>(p: Position<Z>, depth: int) -> bool {
    &&& p.wf()
    &&& pins_checks_ok(p.board, p.stm(), p.ctx().pinned, p.ctx().checkers)
    &&& ep_consistent(p)
    &&& castling_consistent(p)
    &&& p.ctx().halfmove_clock + depth <= 255
    &&& p.halfmove + depth <= u16::MAX
}

/// `q` has the same board, side to move, halfmove count and contexts as `p`.
pub open spec fn same_state<Z: ZobristPolicy>(p: Position<Z>, q: Position<Z>) -> bool {
    &&& q.board == p.board
    &&& q.stm() == p.stm()
    &&& q.halfmove == p.halfmove
    &&& q.ctxs() == p.ctxs()
}

/// Positions with the same state are searchable alike.
pub proof fn lemma_searchable_same<Z: ZobristPolicy>(p: Position<Z>, q: Position<Z>, depth: int)
    requires
        same_state(p, q),
        searchable(p, depth),
    ensures
        searchable(q, depth),
{
    assert forall|flank: crate::types::Flank, color: crate::types::Color|
        #[trigger] crate::position::castling::has_rights(q, flank, color) implies q.board.holds(
            if color == crate::types::Color::White {
                60int
            } else {
                4int
            },
            Piece::King,
            color,
        ) && q.board.holds(crate::position::make_move::rook_from_sq(flank, color), Piece::Rook, color) by {
        assert(crate::position::castling::has_rights(p, flank, color));
    }
}

/// The starting position can be searched: its context has no double push and all castling
/// rights, backed by the kings and rooks on their initial squares.
pub proof fn lemma_initial_searchable<Z: ZobristPolicy>(p: Position<Z>)
    requires
        p.wf(),
        pins_checks_ok(p.board, p.stm(), p.ctx().pinned, p.ctx().checkers),
        p.ctx().double_pawn_push_file == -1,
        forall|s: int| 0 <= s < 64 ==> #[trigger] p.board.piece(s) == crate::board::initial_piece(s),
        forall|s: int| 0 <= s < 64 ==> #[trigger] p.board.color(s) == crate::board::initial_color(s),
    ensures
        searchable(p, 0),
{
    assert forall|flank: crate::types::Flank, color: crate::types::Color|
        #[trigger] crate::position::castling::has_rights(p, flank, color) implies p.board.holds(
            if color == crate::types::Color::White {
                60int
            } else {
                4int
            },
            Piece::King,
            color,
        ) && p.board.holds(crate::position::make_move::rook_from_sq(flank, color), Piece::Rook, color) by {
        assert(p.board.piece(60) == crate::board::initial_piece(60));
        assert(p.board.color(60) == crate::board::initial_color(60));
        assert(p.board.piece(4) == crate::board::initial_piece(4));
        assert(p.board.color(4) == crate::board::initial_color(4));
        assert(p.board.piece(56) == crate::board::initial_piece(56));
        assert(p.board.color(56) == crate::board::initial_color(56));
        assert(p.board.piece(63) == crate::board::initial_piece(63));
        assert(p.board.color(63) == crate::board::initial_color(63));
        assert(p.board.piece(0) == crate::board::initial_piece(0));
        assert(p.board.color(0) == crate::board::initial_color(0));
        assert(p.board.piece(7) == crate::board::initial_piece(7));
        assert(p.board.color(7) == crate::board::initial_color(7));
    }
}

/// What decides the moves of a position and where they lead: the board, the side to move, the
/// double-push file and the castling rights.
pub open spec fn node_of<Z: ZobristPolicy>(p: Position<Z>) -> (Board, Color, int, u8) {
    (p.board, p.stm(), p.ctx().double_pawn_push_file as int, p.ctx().castling_rights.value())
}

/// `a` is the board `b` after `stm` plays `m`.
pub open spec fn board_is_after(a: Board, b: Board, stm: Color, m: Move) -> bool {
    &&& a.wf()
    &&& forall|s: int| 0 <= s < 64 ==> #[trigger] a.piece(s) == after_piece(b, stm, m, s)
    &&& forall|s: int| 0 <= s < 64 && after_piece(b, stm, m, s) != Piece::Null ==> #[trigger] a.color(s) == after_color(b, stm, m, s)
}

/// The board `b` after `stm` plays `m`.
pub open spec fn board_after(b: Board, stm: Color, m: Move) -> Board {
    choose|a: Board| #[trigger] board_is_after(a, b, stm, m)
}

/// The node reached from `n` by the move `m`.
pub open spec fn node_after(n: (Board, Color, int, u8), m: Move) -> (Board, Color, int, u8) {
    let f = m.from_spec().idx();
    let t = m.to_spec().idx();
    (
        board_after(n.0, n.1, m),
        n.1.opp(),
        if n.0.piece(f) == Piece::Pawn {
            dpf_after_step(f, t)
        } else {
            -1
        },
        n.3 & rights_kept(f) & rights_kept(t),
    )
}

/// The legal moves at the node `n`: those of the positions at `n`.
pub open spec fn node_moves<Z: ZobristPolicy>(n: (Board, Color, int, u8)) -> Set<Move> {
    legal_moves(choose|p: Position<Z>| #[trigger] node_of(p) == n)
}

/// The number of leaves `d` plies below the node `n` in the tree of legal moves.
pub open spec fn leaves<Z: ZobristPolicy>(n: (Board, Color, int, u8), d: nat) -> int
    decreases d, 1nat, 0nat,
{
    if d == 0 {
        1
    } else {
        sum_leaves::<Z>(node_moves::<Z>(n), n, (d - 1) as nat)
    }
}

/// The number of leaves `e` plies below the nodes the moves `s` lead to from `n`.
pub open spec fn sum_leaves<Z: ZobristPolicy>(s: Set<Move>, n: (Board, Color, int, u8), e: nat) -> int
    decreases e + 1, 0nat, s.len(),
{
    if s.finite() && s.len() > 0 {
        let m = s.choose();
        proof {
            vstd::set::axiom_set_choose_len(s);
            vstd::set::axiom_set_remove_len(s, m);
        }
        leaves::<Z>(node_after(n, m), e) + sum_leaves::<Z>(s.remove(m), n, e)
    } else {
        0
    }
}

/// Positions at the same node allow the same castlings.
proof fn lemma_castling_same_node<Z: ZobristPolicy>(p1: Position<Z>, p2: Position<Z>, fl: Flank)
    requires
        node_of(p1) == node_of(p2),
    ensures
        castling_allowed(p1, fl) == castling_allowed(p2, fl),
{
    assert(has_rights(p1, fl, p1.stm()) == has_rights(p2, fl, p2.stm()));
}

/// Positions at the same node have the same legal moves.
pub proof fn lemma_legal_same_node<Z: ZobristPolicy>(p1: Position<Z>, p2: Position<Z>)
    requires
        node_of(p1) == node_of(p2),
    ensures
        legal_moves(p1) == legal_moves(p2),
{
    assert forall|m: Move| is_legal(p1, m) == is_legal(p2, m) by {
        assert forall|fl: Flank| castling_allowed(p1, fl) == castling_allowed(p2, fl) by {
            lemma_castling_same_node(p1, p2, fl);
        }
        assert(castling_move(p1, m) == castling_move(p2, m));
    }
    assert(legal_moves(p1) =~= legal_moves(p2));
}

/// The legal moves at the node of `p` are the legal moves of `p`.
proof fn lemma_node_moves<Z: ZobristPolicy>(p: Position<Z>)
    ensures
        node_moves::<Z>(node_of(p)) == legal_moves(p),
{
    let n = node_of(p);
    assert(exists|q: Position<Z>| #[trigger] node_of(q) == n);
    let q = choose|q: Position<Z>| #[trigger] node_of(q) == n;
    lemma_legal_same_node(p, q);
}

/// Playing `m` from `p` reaches the node `m` leads to from the node of `p`.
proof fn lemma_node_after<Z: ZobristPolicy>(p: Position<Z>, m: Move, q: Position<Z>)
    requires
        make_post(p, m, q),
    ensures
        node_of(q) == node_after(node_of(p), m),
{
    assert(board_is_after(q.board, p.board, p.stm(), m));
    let a = board_after(p.board, p.stm(), m);
    assert(board_is_after(a, p.board, p.stm(), m));
    Board::lemma_wf_ext(a, q.board);
}

/// The sum over `s` splits off any of its moves.
proof fn lemma_sum_remove<Z: ZobristPolicy>(s: Set<Move>, n: (Board, Color, int, u8), e: nat, a: Move)
    requires
        s.finite(),
        s.contains(a),
    ensures
        sum_leaves::<Z>(s, n, e) == leaves::<Z>(node_after(n, a), e) + sum_leaves::<Z>(s.remove(a), n, e),
    decreases s.len(),
{
    vstd::set::axiom_set_remove_len(s, a);
    vstd::set::axiom_set_remove_finite(s, a);
    vstd::set::axiom_set_choose_len(s);
    let c = s.choose();
    if c != a {
        vstd::set::axiom_set_remove_len(s, c);
        vstd::set::axiom_set_remove_finite(s, c);
        lemma_sum_remove::<Z>(s.remove(c), n, e, a);
        lemma_sum_remove::<Z>(s.remove(a), n, e, c);
        assert(s.remove(c).remove(a) =~= s.remove(a).remove(c));
    }
}

/// One ply below every move of `s` lies one leaf each.
proof fn lemma_sum_ones<Z: ZobristPolicy>(s: Set<Move>, n: (Board, Color, int, u8))
    requires
        s.finite(),
    ensures
        sum_leaves::<Z>(s, n, 0) == s.len(),
    decreases s.len(),
{
    if s.len() > 0 {
        vstd::set::axiom_set_choose_len(s);
        let c = s.choose();
        vstd::set::axiom_set_remove_len(s, c);
        vstd::set::axiom_set_remove_finite(s, c);
        lemma_sum_ones::<Z>(s.remove(c), n);
        assert(leaves::<Z>(node_after(n, c), 0) == 1);
        assert(sum_leaves::<Z>(s, n, 0) == leaves::<Z>(node_after(n, c), 0) + sum_leaves::<Z>(s.remove(c), n, 0));
    }
}

/// Adding two remainders with wraparound gives the remainder of the sum.
proof fn lemma_wrapping_sum(t0: u64, n: u64, rest: int, f: int)
    requires
        t0 as int == rest % 0x1_0000_0000_0000_0000,
        n as int == f % 0x1_0000_0000_0000_0000,
    ensures
        t0.wrapping_add(n) as int == (rest + f) % 0x1_0000_0000_0000_0000,
{
    let m: int = 0x1_0000_0000_0000_0000;
    vstd::arithmetic::div_mod::lemma_add_mod_noop(rest, f, m);
    let x = t0 as int + n as int;
    if x < m {
        vstd::arithmetic::div_mod::lemma_small_mod(x as nat, m as nat);
    } else {
        vstd::arithmetic::div_mod::lemma_small_mod((x - m) as nat, m as nat);
        vstd::arithmetic::div_mod::lemma_mod_sub_multiples_vanish(x, m);
    }
}

/// Counts the leaf nodes `depth` plies below `position` (a side to move without exactly one
/// king has no moves to search and counts as no node), leaving the position as it found it.
/// From a sound position the count is the number of leaves of the tree of legal moves, modulo
/// two to the 64.
fn count_nodes<Z: ZobristPolicy>(position: &mut Position<Z>, depth: u8) -> (r: u64)
    requires
        searchable(*old(position), depth as int),
    ensures
        same_state(*old(position), *final(position)),
        depth == 0 ==> r == 1,
        depth >= 1 && pop(kings_of(old(position).board, old(position).stm())) != 1 ==> r == 0,
        depth == 1 && pop(kings_of(old(position).board, old(position).stm())) == 1 && safety_grounded(*old(position))
            ==> r == legal_moves(*old(position)).len(),
        sound_position(*old(position)) ==> r as int == leaves::<Z>(node_of(*old(position)), depth as nat)
            % 0x1_0000_0000_0000_0000,
    decreases depth,
{
    if depth == 0 {
        return 1;
    }
    let stm = position.side_to_move;
    let kings = position.board.piece_mask_at(Piece::King) & position.board.color_mask_at(stm);
    if count_squares(kings) != 1 {
        return 0;
    }
    if depth == 1 {
        let c = position.count_legal_moves();
        proof {
            if sound_position(*position) {
                lemma_node_moves(*position);
                lemma_sum_ones::<Z>(legal_moves(*position), node_of(*position));
            }
        }
        return c as u64;
    }
    let ghost p0 = *position;
    let ghost good = sound_position(p0);
    let ghost e = (depth - 1) as nat;
    let ghost n0 = node_of(p0);
    let mut moves = MoveList::new();
    position.generate_moves(&mut moves);
    proof {
        assert(moves@.subrange(0, 0) =~= Seq::<Move>::empty());
    }
    let mut total: u64 = 0;
    let mut i: usize = 0;
    proof {
        assert(moves@.take(0).to_set() =~= Set::<Move>::empty());
    }
    while i < moves.len()
        invariant
            same_state(p0, *position),
            searchable(p0, depth as int),
            depth >= 2,
            e == depth - 1,
            n0 == node_of(p0),
            good == sound_position(p0),
            i <= moves@.len(),
            pop(kings_of(p0.board, p0.stm())) == 1,
            forall|j: int| 0 <= j < moves@.len() ==> move_ok(p0.board, p0.stm(), #[trigger] moves@[j]),
            good ==> forall|j: int| 0 <= j < moves@.len() ==> is_legal(p0, #[trigger] moves@[j]),
            forall|j: int, k: int| 0 <= j < k < moves@.len() ==> #[trigger] moves@[j] != #[trigger] moves@[k],
            good ==> total as int == sum_leaves::<Z>(moves@.take(i as int).to_set(), n0, e) % 0x1_0000_0000_0000_0000,
        decreases moves@.len() - i,
    {
        let m = moves.get(i);
        let ghost before = *position;
        proof {
            lemma_searchable_same(p0, before, depth as int);
        }
        position.make_move(m);
        let ghost q = *position;
        proof {
            lemma_make_keeps_castling_consistent(before, m, q);
            lemma_make_keeps_ep_consistent(before, m, q);
            lemma_make_unmake_round_trip(before, m, q, q);
            assert(make_post(p0, m, q));
            if good {
                lemma_legal_move_keeps_grounded(p0, m, q);
                lemma_node_after(p0, m, q);
            }
        }
        let n = count_nodes(position, depth - 1);
        let ghost t0 = total;
        total = total.wrapping_add(n);
        position.unmake_move(m);
        proof {
            lemma_make_unmake_round_trip(before, m, q, *position);
            if good {
                let pre = moves@.take(i as int);
                let post = moves@.take(i + 1);
                assert(post.to_set() =~= pre.to_set().insert(m)) by {
                    assert(post =~= pre + seq![m]);
                    Seq::<Move>::lemma_to_set_insert_commutes(pre, m);
                }
                assert(!pre.to_set().contains(m)) by {
                    if pre.to_set().contains(m) {
                        let j = choose|j: int| 0 <= j < pre.len() && pre[j] == m;
                        assert(moves@[j] == moves@[i as int]);
                    }
                }
                assert(post.to_set().remove(m) =~= pre.to_set());
                vstd::seq_lib::seq_to_set_is_finite(post);
                lemma_sum_remove::<Z>(post.to_set(), n0, e, m);
                let f = leaves::<Z>(node_after(n0, m), e);
                let rest = sum_leaves::<Z>(pre.to_set(), n0, e);
                lemma_wrapping_sum(t0, n, rest, f);
            }
        }
        i = i + 1;
    }
    proof {
        if good {
            assert(moves@.take(moves@.len() as int) =~= moves@);
            assert(moves@.to_set() =~= legal_moves(p0)) by {
                assert forall|x: Move| legal_moves(p0).contains(x) implies moves@.to_set().contains(x) by {
                    assert(is_legal(p0, x));
                    let j = choose|j: int| 0 <= j < moves@.len() && moves@[j] == x;
                }
            }
            lemma_node_moves(p0);
        }
    }
    total
}

impl<Z: ZobristPolicy> Position<Z> {
    /// A copy of this position with the generated move `m` played.
    pub fn after_move(&self, m: Move) -> (q: Self)
        requires
            searchable(*self, 1),
            gen_ok(*self, m),
        ensures
            searchable(q, 0),
            move_ok(self.board, self.stm(), m),
            q.stm() == self.stm().opp(),
            q.halfmove == self.halfmove + 1,
            make_post(*self, m, q),
            forall|s: int| 0 <= s < 64 ==> #[trigger] q.board.piece(s) == after_piece(self.board, self.stm(), m, s),
    {
        proof {
            lemma_gen_ok_playable(*self, m);
        }
        let mut q = self.duplicate();
        let ghost before = q;
        proof {
            lemma_searchable_same(*self, before, 1);
        }
        q.make_move(m);
        proof {
            lemma_make_keeps_castling_consistent(before, m, q);
            lemma_make_keeps_ep_consistent(before, m, q);
        }
        q
    }

    /// Counts the leaf nodes `depth` plies below this position (perft), making and unmaking the
    /// moves in place; the position is left as it was. From a sound position (the start, and
    /// any position legal play reaches from it) the count is the number of leaves of the tree
    /// of legal moves `depth` plies deep, modulo two to the 64.
    pub fn perft(&mut self, depth: u8) -> (r: u64)
        requires
            searchable(*old(self), depth as int),
        ensures
            same_state(*old(self), *final(self)),
            depth == 0 ==> r == 1,
            depth >= 1 && pop(kings_of(old(self).board, old(self).stm())) != 1 ==> r == 0,
            depth == 1 && pop(kings_of(old(self).board, old(self).stm())) == 1 && safety_grounded(*old(self))
                ==> r == legal_moves(*old(self)).len(),
            sound_position(*old(self)) ==> r as int == leaves::<Z>(node_of(*old(self)), depth as nat)
                % 0x1_0000_0000_0000_0000,
    {
        count_nodes(self, depth)
    }
}

/// The starting position, White to move, has one king on each side, no attack on the king of
/// the side not to move, and the conditions the generator's king safety rests on: together with
/// the law that legal moves keep all of these, the moves generated along any game from the
/// start are exactly the legal ones.
pub proof fn lemma_initial_grounded<Z: ZobristPolicy>(p: Position<Z>)
    requires
        p.wf(),
        p.stm() == Color::White,
        pins_checks_ok(p.board, p.stm(), p.ctx().pinned, p.ctx().checkers),
        p.ctx().double_pawn_push_file == -1,
        forall|s: int| 0 <= s < 64 ==> #[trigger] p.board.piece(s) == crate::board::initial_piece(s),
        forall|s: int| 0 <= s < 64 ==> #[trigger] p.board.color(s) == crate::board::initial_color(s),
    ensures
        pop(kings_of(p.board, Color::White)) == 1,
        pop(kings_of(p.board, Color::Black)) == 1,
        safety_grounded(p),
        waiting_king_safe(p),
{
    let b = p.board;
    lemma_initial_searchable(p);
    assert forall|s: int| 0 <= s < 64 implies #[trigger] bb_has(kings_of(b, Color::White), s) == bb_has(sq_bit(60), s) by {
        crate::game_state::lemma_kings_of(b, Color::White, s);
        crate::attacks::manual::lemma_coords(s);
        assert(b.piece(s) == crate::board::initial_piece(s));
        assert(b.color(s) == crate::board::initial_color(s));
    }
    crate::bitboard::lemma_squares_ext(kings_of(b, Color::White), sq_bit(60));
    assert forall|s: int| 0 <= s < 64 implies #[trigger] bb_has(kings_of(b, Color::Black), s) == bb_has(sq_bit(4), s) by {
        crate::game_state::lemma_kings_of(b, Color::Black, s);
        crate::attacks::manual::lemma_coords(s);
        assert(b.piece(s) == crate::board::initial_piece(s));
        assert(b.color(s) == crate::board::initial_color(s));
    }
    crate::bitboard::lemma_squares_ext(kings_of(b, Color::Black), sq_bit(4));
    crate::bitboard::lemma_pop_single(sq_bit(60));
    crate::bitboard::lemma_pop_single(sq_bit(4));
    assert(bb_has(sq_bit(60), 60));
    assert(bb_has(sq_bit(4), 4));
    crate::attacks::manual::lemma_coords(4);
    crate::attacks::manual::lemma_coords(60);
    assert forall|k: int| 0 <= k < 64 && #[trigger] kings_of(b, p.stm()) == sq_bit(k) implies kings_apart(b, p.stm(), k) by {
        assert(bb_has(sq_bit(k), k));
        assert forall|a: int| 0 <= a < 64 && b.holds(a, Piece::King, p.stm().opp()) implies !#[trigger] king_step(a, k) by {
            crate::game_state::lemma_kings_of(b, Color::Black, a);
            assert(bb_has(sq_bit(4), a));
        }
    }
    assert forall|k: int| 0 <= k < 64 && #[trigger] kings_of(b, p.stm().opp()) == sq_bit(k) implies !attacked_by(
        b,
        p.stm(),
        k,
        b.cm(p.stm().idx()),
        b.occ(),
    ) by {
        assert(bb_has(sq_bit(k), k));
        assert(k == 4);
        assert forall|s: int|
            #![trigger steps_onto(b, p.stm(), s, k)]
            #![trigger slides_onto(b, s, k, b.occ())]
            0 <= s < 64 && bb_has(b.cm(p.stm().idx()), s) implies !(steps_onto(b, p.stm(), s, k) || slides_onto(b, s, k, b.occ())) by {
            b.lemma_square(s);
            crate::attacks::manual::lemma_coords(s);
            assert(b.piece(s) == crate::board::initial_piece(s));
            assert(b.color(s) == crate::board::initial_color(s));
        }
    }
}

} // verus!
