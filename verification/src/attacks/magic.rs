//! Sliding-piece attacks looked up in tables indexed by magic multiplication.
use vstd::prelude::*;
use crate::bitboard::{bb_has, subset, group_has, lemma_squares_ext, next_square, pop, count_squares};
use crate::types::{Piece, Square};
use crate::prng::{Prng, prng_output, prng_state_after, prng_next_state};
use crate::attacks::manual::{slider_attack, rook_attack, bishop_attack, manual_sliding_piece_attacks};
use crate::attacks::relevant_mask::{relevant, sliding_piece_relevant_mask, lemma_attacks_from_relevant, lemma_attacks_nonempty};

verus! {

broadcast use group_has;

/// `r` holds exactly the squares the slider `p` on `s` attacks when `occ` is occupied.
pub open spec fn is_attack_mask(r: u64, p: Piece, s: int, occ: u64) -> bool {
    forall|t: int| 0 <= t < 64 ==> #[trigger] bb_has(r, t) == slider_attack(p, s, t, occ)
}

/// The table index of the blocker pattern `occ`: the top bits of its product with `magic`.
pub open spec fn magic_index(occ: u64, magic: u64, shift: u8) -> int {
    (occ.wrapping_mul(magic) >> (shift as u64)) as int
}

/// The number of table entries addressed with `shift`: two to the power `64 - shift`.
pub open spec fn table_size(shift: u8) -> int {
    (1u64 << ((64 - shift) as u64)) as int
}

/// A hash shifted right by `shift` addresses one of `table_size(shift)` entries, at most 4096.
proof fn lemma_index_bound(x: u64, shift: u8)
    requires
        52 <= shift < 64,
    ensures
        (x >> (shift as u64)) < table_size(shift),
        2 <= table_size(shift) <= 4096,
{
    let sh = shift as u64;
    let k = (64 - shift) as u64;
    assert((x >> sh) < (1u64 << k) && 2 <= (1u64 << k) <= 4096) by (bit_vector)
        requires
            52 <= sh < 64,
            k == 64 - sh,
    ;
}

/// Masking a subset of `m` with `m` gives it back.
proof fn lemma_and_subset(occ: u64, m: u64)
    requires
        subset(occ, m),
    ensures
        occ & m == occ,
{
    assert forall|t: int| 0 <= t < 64 implies #[trigger] bb_has(occ & m, t) == bb_has(occ, t) by {}
    lemma_squares_ext(occ & m, occ);
}

/// Masking twice with `m` is masking once.
proof fn lemma_and_idem(occ: u64, m: u64)
    ensures
        (occ & m) & m == occ & m,
        subset(occ & m, m),
{
    assert forall|t: int| 0 <= t < 64 implies #[trigger] bb_has((occ & m) & m, t) == bb_has(occ & m, t) by {}
    lemma_squares_ext((occ & m) & m, occ & m);
}

/// Two masks of the squares one slider attacks under one occupancy are equal.
pub proof fn lemma_attack_masks_agree(a: u64, b: u64, p: Piece, s: int, occ: u64)
    requires
        is_attack_mask(a, p, s, occ),
        is_attack_mask(b, p, s, occ),
    ensures
        a == b,
{
    assert forall|t: int| 0 <= t < 64 implies #[trigger] bb_has(a, t) == bb_has(b, t) by {}
    lemma_squares_ext(a, b);
}

/// Magic lookup data of one square: its relevant mask, its magic number, the shift that keeps
/// the top bits of the product, and where its entries start in the attack table.
#[derive(Clone, Copy, Debug, PartialEq, Eq)]
pub struct MagicInfo {
    /// The squares whose occupancy matters.
    pub relevant_mask: u64,
    /// The multiplier that maps blocker patterns to distinct entries.
    pub magic_number: u64,
    /// How far the product is shifted right.
    pub right_shift_amount: u8,
    /// Index of the square's first entry in the table.
    pub offset: usize,
}

impl MagicInfo {
    /// The table index of the occupancy `occ`, whose relevant part is the blocker pattern.
    pub open spec fn key(self, occ: u64) -> int {
        self.offset + magic_index(occ & self.relevant_mask, self.magic_number, self.right_shift_amount)
    }

    /// This data looks up the attacks of slider `p` on `s` in `table`: its mask is the relevant
    /// mask, and every blocker pattern's entry holds the attacks under that pattern.
    pub open spec fn ok_for(self, p: Piece, s: int, table: Seq<u64>) -> bool {
        &&& forall|t: int| 0 <= t < 64 ==> #[trigger] bb_has(self.relevant_mask, t) == relevant(p, s, t)
        &&& 52 <= self.right_shift_amount < 64
        &&& self.offset + table_size(self.right_shift_amount) <= table.len()
        &&& forall|occ: u64| #[trigger] subset(occ, self.relevant_mask) ==> is_attack_mask(
            table[self.key(occ)],
            p,
            s,
            occ,
        )
    }

    /// The table index of `occupied_mask`.
    fn calc_key(&self, occupied_mask: u64) -> (k: usize)
        requires
            52 <= self.right_shift_amount < 64,
            self.offset + table_size(self.right_shift_amount) <= usize::MAX,
        ensures
            k == self.key(occupied_mask),
            k < self.offset + table_size(self.right_shift_amount),
    {
        let blockers = occupied_mask & self.relevant_mask;
        let hash = blockers.wrapping_mul(self.magic_number);
        proof {
            lemma_index_bound(hash, self.right_shift_amount);
        }
        self.offset + (hash >> (self.right_shift_amount as u64)) as usize
    }
}

/// Data that stays correct when the table grows at its end.
proof fn lemma_ok_for_extend(info: MagicInfo, p: Piece, s: int, t1: Seq<u64>, t2: Seq<u64>)
    requires
        info.ok_for(p, s, t1),
        t2.len() >= t1.len(),
        t2.subrange(0, t1.len() as int) == t1,
    ensures
        info.ok_for(p, s, t2),
{
    assert forall|occ: u64| #[trigger] subset(occ, info.relevant_mask) implies is_attack_mask(
        t2[info.key(occ)],
        p,
        s,
        occ,
    ) by {
        lemma_index_bound((occ & info.relevant_mask).wrapping_mul(info.magic_number), info.right_shift_amount);
        assert(t2[info.key(occ)] == t2.subrange(0, t1.len() as int)[info.key(occ)]);
    }
}

/// Every subset of `mask`, each exactly once or more (the empty pattern first).
fn subsets_of(mask: u64) -> (v: Vec<u64>)
    ensures
        forall|i: int| 0 <= i < v.len() ==> #[trigger] subset(v@[i], mask),
        forall|occ: u64| #[trigger] subset(occ, mask) ==> exists|i: int| 0 <= i < v.len() && v@[i] == occ,
{
    let mut v: Vec<u64> = Vec::new();
    v.push(0);
    let mut rest = mask;
    let ghost mut done: u64 = 0;
    proof {
        assert forall|t: int| 0 <= t < 64 implies #[trigger] bb_has(done, t) == (bb_has(mask, t) && !bb_has(rest, t)) by {}
        assert forall|occ: u64| #[trigger] subset(occ, done) implies exists|i: int| 0 <= i < v.len() && v@[i] == occ by {
            assert forall|t: int| 0 <= t < 64 implies #[trigger] bb_has(occ, t) == bb_has(0u64, t) by {}
            lemma_squares_ext(occ, 0);
            assert(v@[0] == occ);
        }
    }
    while rest != 0
        invariant
            forall|t: int| 0 <= t < 64 ==> #[trigger] bb_has(done, t) == (bb_has(mask, t) && !bb_has(rest, t)),
            forall|t: int| 0 <= t < 64 && #[trigger] bb_has(rest, t) ==> bb_has(mask, t),
            forall|i: int| 0 <= i < v.len() ==> #[trigger] subset(v@[i], done),
            forall|occ: u64| #[trigger] subset(occ, done) ==> exists|i: int| 0 <= i < v.len() && v@[i] == occ,
        decreases pop(rest),
    {
        let ghost rest0 = rest;
        let s = next_square(&mut rest);
        let bit = Square::from_u8(s).mask();
        let ghost v0 = v@;
        let n = v.len();
        let mut i: usize = 0;
        while i < n
            invariant
                n == v0.len(),
                i <= n,
                v.len() == n + i,
                forall|j: int| 0 <= j < n ==> #[trigger] v@[j] == v0[j],
                forall|j: int| 0 <= j < i ==> #[trigger] v@[n + j] == v0[j] | bit,
            decreases n - i,
        {
            let x = v[i] | bit;
            v.push(x);
            i = i + 1;
        }
        proof {
            let done2 = done | bit;
            assert forall|t: int| 0 <= t < 64 implies #[trigger] bb_has(done2, t) == (bb_has(mask, t) && !bb_has(rest, t)) by {}
            assert forall|k: int| 0 <= k < v.len() implies #[trigger] subset(v@[k], done2) by {
                if k < n {
                    assert(v@[k] == v0[k]);
                    assert(subset(v0[k], done));
                } else {
                    assert(v@[n + (k - n)] == v0[k - n] | bit);
                    assert(subset(v0[k - n], done));
                }
            }
            assert forall|occ: u64| #[trigger] subset(occ, done2) implies exists|k: int| 0 <= k < v.len() && v@[k] == occ by {
                if bb_has(occ, s as int) {
                    let low = occ & !bit;
                    assert(subset(low, done));
                    let j = choose|j: int| 0 <= j < v0.len() && v0[j] == low;
                    assert(v@[n + j] == low | bit);
                    assert forall|t: int| 0 <= t < 64 implies #[trigger] bb_has(low | bit, t) == bb_has(occ, t) by {}
                    lemma_squares_ext(low | bit, occ);
                    assert(0 <= n + j < v.len() && v@[n + j] == occ);
                } else {
                    assert(subset(occ, done));
                    let j = choose|j: int| 0 <= j < v0.len() && v0[j] == occ;
                    assert(v@[j] == occ);
                }
            }
            done = done2;
        }
    }
    proof {
        assert forall|occ: u64| #[trigger] subset(occ, mask) implies exists|i: int| 0 <= i < v.len() && v@[i] == occ by {
            assert(subset(occ, done));
        }
        assert forall|i: int| 0 <= i < v.len() implies #[trigger] subset(v@[i], mask) by {
            assert(subset(v@[i], done));
        }
    }
    v
}

/// Tries `magic_number`: fills a table of `table_size(right_shift_amount)` entries with the
/// attacks of each blocker pattern at its magic index. Returns `None` when two patterns with
/// different attacks share an index.
fn test_magic_number(
    magic_number: u64,
    right_shift_amount: u8,
    patterns: &Vec<u64>,
    attack_masks: &Vec<u64>,
) -> (r: Option<Vec<u64>>)
    requires
        52 <= right_shift_amount < 64,
        patterns.len() == attack_masks.len(),
        forall|j: int| 0 <= j < attack_masks.len() ==> #[trigger] attack_masks@[j] != 0,
    ensures
        match r {
            Some(t) => t.len() == table_size(right_shift_amount) && forall|j: int|
                0 <= j < patterns.len() ==> t@[magic_index(#[trigger] patterns@[j], magic_number, right_shift_amount)]
                    == attack_masks@[j],
            None => exists|i: int, j: int|
                0 <= i < patterns.len() && 0 <= j < patterns.len() && magic_index(
                    #[trigger] patterns@[i],
                    magic_number,
                    right_shift_amount,
                ) == magic_index(#[trigger] patterns@[j], magic_number, right_shift_amount)
                    && attack_masks@[i] != attack_masks@[j],
        },
{
    proof {
        lemma_index_bound(0, right_shift_amount);
    }
    let size = (1u64 << ((64 - right_shift_amount) as u64)) as usize;
    let mut table: Vec<u64> = vec![0u64; size];
    proof {
        assert forall|k: int| 0 <= k < table.len() implies #[trigger] table@[k] == 0 by {
            assert(cloned(0u64, table@[k]));
        }
    }
    let mut j: usize = 0;
    while j < patterns.len()
        invariant
            52 <= right_shift_amount < 64,
            patterns.len() == attack_masks.len(),
            forall|i: int| 0 <= i < attack_masks.len() ==> #[trigger] attack_masks@[i] != 0,
            table.len() == size,
            size == table_size(right_shift_amount),
            j <= patterns.len(),
            forall|i: int| 0 <= i < j ==> table@[magic_index(#[trigger] patterns@[i], magic_number, right_shift_amount)] == attack_masks@[i],
            forall|k: int|
                0 <= k < size && #[trigger] table@[k] != 0 ==> exists|i: int|
                    0 <= i < j && magic_index(#[trigger] patterns@[i], magic_number, right_shift_amount) == k && attack_masks@[i] == table@[k],
        decreases patterns.len() - j,
    {
        let hash = patterns[j].wrapping_mul(magic_number);
        proof {
            lemma_index_bound(hash, right_shift_amount);
        }
        let index = (hash >> (right_shift_amount as u64)) as usize;
        assert(index == magic_index(patterns@[j as int], magic_number, right_shift_amount));
        let a = attack_masks[j];
        if table[index] == 0 {
            let ghost t0 = table@;
            table.set(index, a);
            proof {
                assert forall|i: int| 0 <= i < j + 1 implies table@[magic_index(#[trigger] patterns@[i], magic_number, right_shift_amount)] == attack_masks@[i] by {
                    lemma_index_bound(patterns@[i].wrapping_mul(magic_number), right_shift_amount);
                    if i < j && magic_index(patterns@[i], magic_number, right_shift_amount) == index {
                        assert(t0[index as int] == attack_masks@[i]);
                        assert(attack_masks@[i] != 0);
                    }
                }
                assert forall|k: int| 0 <= k < size && #[trigger] table@[k] != 0 implies exists|i: int|
                    0 <= i < j + 1 && magic_index(#[trigger] patterns@[i], magic_number, right_shift_amount) == k && attack_masks@[i] == table@[k] by {
                    if k == index {
                        assert(magic_index(patterns@[j as int], magic_number, right_shift_amount) == k);
                    } else {
                        assert(t0[k] != 0);
                    }
                }
            }
        } else if table[index] != a {
            proof {
                let i = choose|i: int|
                    0 <= i < j && magic_index(#[trigger] patterns@[i], magic_number, right_shift_amount) == index && attack_masks@[i] == table@[index as int];
                assert(magic_index(patterns@[i], magic_number, right_shift_amount) == magic_index(
                    patterns@[j as int],
                    magic_number,
                    right_shift_amount,
                ));
            }
            return None;
        }
        j = j + 1;
    }
    Some(table)
}

/// The number of entries of the combined attack table: room for the rook entries of every
/// square followed by the bishop entries.
pub const COMBINED_TABLE_SIZE: usize = 115840;

/// How many magic candidates are tried for one square before giving up.
pub const MAX_MAGIC_TRIES: u64 = 1u64 << 40;

/// `m` holds exactly the squares whose occupancy matters to the slider `p` on `s`.
pub open spec fn is_relevant_mask(m: u64, p: Piece, s: int) -> bool {
    forall|t: int| 0 <= t < 64 ==> #[trigger] bb_has(m, t) == relevant(p, s, t)
}

/// The mask of the squares whose occupancy matters to the slider `p` on `s`.
pub open spec fn relevant_mask_of(p: Piece, s: int) -> u64 {
    choose|m: u64| #[trigger] is_relevant_mask(m, p, s)
}

/// The shift that keeps one bit of the product per relevant square of the slider `p` on `s`.
pub open spec fn shift_of(p: Piece, s: int) -> u8 {
    (64 - pop(relevant_mask_of(p, s))) as u8
}

/// The slider `p` on `s` has between one and twelve relevant squares.
pub open spec fn searchable_mask(p: Piece, s: int) -> bool {
    1 <= pop(relevant_mask_of(p, s)) <= 12
}

/// The `k`-th magic candidate drawn from the generator state `s`: the AND of the outputs of
/// rounds `3k + 1`, `3k + 2` and `3k + 3`.
pub open spec fn magic_candidate(s: u64, k: nat) -> u64 {
    prng_output(prng_state_after(s, 3 * k + 1)) & prng_output(prng_state_after(s, 3 * k + 2)) & prng_output(
        prng_state_after(s, 3 * k + 3),
    )
}

/// `magic` sends any two blocker patterns of the slider `p` on `s` that share a table index
/// to the same attacks.
pub open spec fn magic_fits(magic: u64, p: Piece, s: int) -> bool {
    forall|a: u64, b: u64|
        #![trigger magic_index(a, magic, shift_of(p, s)), magic_index(b, magic, shift_of(p, s))]
        subset(a, relevant_mask_of(p, s)) && subset(b, relevant_mask_of(p, s)) && magic_index(a, magic, shift_of(p, s))
            == magic_index(b, magic, shift_of(p, s)) ==> forall|t: int|
            0 <= t < 64 ==> #[trigger] slider_attack(p, s, t, a) == slider_attack(p, s, t, b)
}

/// The `k`-th candidate from state `s` fits, and is the first that does.
pub open spec fn first_fitting(s: u64, p: Piece, sq: int, k: nat) -> bool {
    &&& k < MAX_MAGIC_TRIES
    &&& magic_fits(magic_candidate(s, k), p, sq)
    &&& forall|j: nat| j < k ==> !magic_fits(#[trigger] magic_candidate(s, j), p, sq)
}

/// The search for the slider `p` on `sq` from state `s` finds a magic number within
/// `MAX_MAGIC_TRIES` candidates.
pub open spec fn search_succeeds(s: u64, p: Piece, sq: int) -> bool {
    searchable_mask(p, sq) && exists|k: nat| #[trigger] first_fitting(s, p, sq, k)
}

/// The index of the candidate the search from state `s` keeps.
pub open spec fn search_index(s: u64, p: Piece, sq: int) -> nat {
    choose|k: nat| #[trigger] first_fitting(s, p, sq, k)
}

/// The generator state after the search for the slider `p` on `sq` from `s`, or `None` when it
/// gives up.
pub open spec fn search_end(s: u64, p: Piece, sq: int) -> Option<u64> {
    if search_succeeds(s, p, sq) {
        Some(prng_state_after(s, 3 * search_index(s, p, sq) + 3))
    } else {
        None
    }
}

/// The generator state after searching the squares `0 .. n` for the slider `p` in order,
/// starting from `seed`, or `None` when one of the searches gives up.
pub open spec fn searches_end(seed: u64, p: Piece, n: nat) -> Option<u64>
    decreases n,
{
    if n == 0 {
        Some(seed)
    } else {
        match searches_end(seed, p, (n - 1) as nat) {
            Some(s) => search_end(s, p, n - 1),
            None => None,
        }
    }
}

/// The number of table entries the squares `0 .. n` of the slider `p` take.
pub open spec fn tables_size(p: Piece, n: nat) -> int
    decreases n,
{
    if n == 0 {
        0
    } else {
        tables_size(p, (n - 1) as nat) + table_size(shift_of(p, n - 1))
    }
}

/// The magic number the chain of searches from `seed` keeps for the slider `p` on `sq`.
pub open spec fn chained_magic(seed: u64, p: Piece, sq: int) -> u64 {
    let st = searches_end(seed, p, sq as nat)->0;
    magic_candidate(st, search_index(st, p, sq))
}

/// Two first fitting candidates are the same.
proof fn lemma_first_fitting_unique(s: u64, p: Piece, sq: int, k1: nat, k2: nat)
    requires
        first_fitting(s, p, sq, k1),
        first_fitting(s, p, sq, k2),
    ensures
        k1 == k2,
{
    if k1 < k2 {
        assert(!magic_fits(magic_candidate(s, k1), p, sq));
    } else if k2 < k1 {
        assert(!magic_fits(magic_candidate(s, k2), p, sq));
    }
}

/// A mask with the relevant squares of the slider `p` on `s` is the relevant mask.
proof fn lemma_relevant_mask_of(m: u64, p: Piece, s: int)
    requires
        forall|t: int| 0 <= t < 64 ==> #[trigger] bb_has(m, t) == relevant(p, s, t),
    ensures
        relevant_mask_of(p, s) == m,
{
    assert(is_relevant_mask(m, p, s));
    let c = relevant_mask_of(p, s);
    assert forall|t: int| 0 <= t < 64 implies #[trigger] bb_has(c, t) == bb_has(m, t) by {}
    lemma_squares_ext(c, m);
}

/// Once a search gives up, the chain of searches gives up for good.
proof fn lemma_searches_stay_failed(seed: u64, p: Piece, n: nat, m: nat)
    requires
        n <= m,
        searches_end(seed, p, n) is None,
    ensures
        searches_end(seed, p, m) is None,
    decreases m - n,
{
    if n < m {
        lemma_searches_stay_failed(seed, p, n, (m - 1) as nat);
    }
}

/// Finds a magic number for the slider `piece` (rook or bishop) on `square`, drawing candidates
/// from `rng` (each the AND of three draws, which keeps them sparse), and appends the square's
/// attack entries to `attacks`. The first candidate that fits is kept. Returns `None` when no
/// candidate works within `MAX_MAGIC_TRIES`, or when the relevant mask has no square or more
/// than twelve.
fn generate_square_magic(rng: &mut Prng, attacks: &mut Vec<u64>, piece: Piece, square: Square) -> (r: Option<MagicInfo>)
    requires
        piece == Piece::Rook || piece == Piece::Bishop,
        old(attacks).len() + 4096 <= usize::MAX,
    ensures
        old(attacks).len() <= final(attacks).len() <= old(attacks).len() + 4096,
        final(attacks)@.subrange(0, old(attacks).len() as int) == old(attacks)@,
        (r is Some) == search_succeeds(old(rng).state(), piece, square.idx()),
        r is None ==> final(attacks)@ == old(attacks)@,
        r matches Some(info) ==> {
            &&& final(attacks)@.len() == old(attacks)@.len() + table_size(shift_of(piece, square.idx()))
            &&& info.offset == old(attacks)@.len()
            &&& info.right_shift_amount == shift_of(piece, square.idx())
            &&& info.relevant_mask == relevant_mask_of(piece, square.idx())
            &&& info.ok_for(piece, square.idx(), final(attacks)@)
            &&& info.magic_number == magic_candidate(old(rng).state(), search_index(old(rng).state(), piece, square.idx()))
            &&& search_end(old(rng).state(), piece, square.idx()) == Some(final(rng).state())
        },
        r is None ==> final(rng).state() == if searchable_mask(piece, square.idx()) {
            prng_state_after(old(rng).state(), 3 * MAX_MAGIC_TRIES as nat)
        } else {
            old(rng).state()
        },
{
    let ghost s0 = rng.state();
    let relevant_mask = sliding_piece_relevant_mask(piece, square);
    proof {
        lemma_relevant_mask_of(relevant_mask, piece, square.idx());
    }
    let num_relevant_bits = count_squares(relevant_mask);
    if num_relevant_bits == 0 || num_relevant_bits > 12 {
        return None;
    }
    let right_shift_amount = (64 - num_relevant_bits) as u8;
    let patterns = subsets_of(relevant_mask);
    let mut attack_masks: Vec<u64> = Vec::new();
    let mut j: usize = 0;
    while j < patterns.len()
        invariant
            piece == Piece::Rook || piece == Piece::Bishop,
            j <= patterns.len(),
            attack_masks.len() == j,
            forall|i: int| 0 <= i < j ==> is_attack_mask(#[trigger] attack_masks@[i], piece, square.idx(), patterns@[i]),
            forall|i: int| 0 <= i < j ==> #[trigger] attack_masks@[i] != 0,
        decreases patterns.len() - j,
    {
        let a = manual_sliding_piece_attacks(piece, square, patterns[j]);
        proof {
            lemma_attacks_nonempty(piece, square.idx(), patterns@[j as int], a);
        }
        attack_masks.push(a);
        j = j + 1;
    }
    let mut tries: u64 = 0;
    while tries < MAX_MAGIC_TRIES
        invariant
            52 <= right_shift_amount < 64,
            patterns.len() == attack_masks.len(),
            forall|i: int| 0 <= i < attack_masks.len() ==> #[trigger] attack_masks@[i] != 0,
            forall|i: int| 0 <= i < attack_masks.len() ==> is_attack_mask(#[trigger] attack_masks@[i], piece, square.idx(), patterns@[i]),
            forall|occ: u64| #[trigger] subset(occ, relevant_mask) ==> exists|i: int| 0 <= i < patterns.len() && patterns@[i] == occ,
            forall|t: int| 0 <= t < 64 ==> #[trigger] bb_has(relevant_mask, t) == relevant(piece, square.idx(), t),
            attacks@ == old(attacks)@,
            old(attacks).len() + 4096 <= usize::MAX,
            relevant_mask == relevant_mask_of(piece, square.idx()),
            right_shift_amount == shift_of(piece, square.idx()),
            searchable_mask(piece, square.idx()),
            s0 == old(rng).state(),
            tries <= MAX_MAGIC_TRIES,
            rng.state() == prng_state_after(s0, 3 * tries as nat),
            forall|i: int| 0 <= i < patterns.len() ==> #[trigger] subset(patterns@[i], relevant_mask),
            forall|j: nat| j < tries ==> !magic_fits(#[trigger] magic_candidate(s0, j), piece, square.idx()),
        decreases MAX_MAGIC_TRIES - tries,
    {
        let g1 = rng.generate();
        let g2 = rng.generate();
        let g3 = rng.generate();
        let magic_number = g1 & g2 & g3;
        proof {
            let k = tries as nat;
            assert(prng_state_after(s0, 3 * k + 1) == prng_next_state(prng_state_after(s0, 3 * k)));
            assert(prng_state_after(s0, 3 * k + 2) == prng_next_state(prng_state_after(s0, 3 * k + 1)));
            assert(prng_state_after(s0, 3 * k + 3) == prng_next_state(prng_state_after(s0, 3 * k + 2)));
            assert(magic_number == magic_candidate(s0, k));
            assert(rng.state() == prng_state_after(s0, 3 * (k + 1)));
        }
        match test_magic_number(magic_number, right_shift_amount, &patterns, &attack_masks) {
            Some(table) => {
                proof {
                    let k = tries as nat;
                    assert(magic_fits(magic_number, piece, square.idx())) by {
                        assert forall|a: u64, b: u64|
                            subset(a, relevant_mask) && subset(b, relevant_mask) && #[trigger] magic_index(a, magic_number, right_shift_amount)
                                == #[trigger] magic_index(b, magic_number, right_shift_amount) implies forall|t: int|
                            0 <= t < 64 ==> #[trigger] slider_attack(piece, square.idx(), t, a) == slider_attack(piece, square.idx(), t, b) by {
                            let i = choose|i: int| 0 <= i < patterns.len() && patterns@[i] == a;
                            let j = choose|j: int| 0 <= j < patterns.len() && patterns@[j] == b;
                            assert(table@[magic_index(patterns@[i], magic_number, right_shift_amount)] == attack_masks@[i]);
                            assert(table@[magic_index(patterns@[j], magic_number, right_shift_amount)] == attack_masks@[j]);
                            assert(is_attack_mask(attack_masks@[i], piece, square.idx(), patterns@[i]));
                            assert(is_attack_mask(attack_masks@[j], piece, square.idx(), patterns@[j]));
                            assert(attack_masks@[i] == attack_masks@[j]);
                            assert forall|t: int| 0 <= t < 64 implies #[trigger] slider_attack(piece, square.idx(), t, a)
                                == slider_attack(piece, square.idx(), t, b) by {
                                assert(bb_has(attack_masks@[i], t) == slider_attack(piece, square.idx(), t, a));
                                assert(bb_has(attack_masks@[j], t) == slider_attack(piece, square.idx(), t, b));
                            }
                        }
                    }
                    assert(first_fitting(s0, piece, square.idx(), k));
                    let c = search_index(s0, piece, square.idx());
                    lemma_first_fitting_unique(s0, piece, square.idx(), k, c);
                }
                proof {
                    lemma_index_bound(0, right_shift_amount);
                }
                let offset = attacks.len();
                let ghost a0 = attacks@;
                let mut k: usize = 0;
                while k < table.len()
                    invariant
                        k <= table.len(),
                        table.len() <= 4096,
                        attacks.len() == offset + k,
                        offset == a0.len(),
                        forall|i: int| 0 <= i < offset ==> #[trigger] attacks@[i] == a0[i],
                        forall|i: int| 0 <= i < k ==> #[trigger] attacks@[offset + i] == table@[i],
                    decreases table.len() - k,
                {
                    attacks.push(table[k]);
                    k = k + 1;
                }
                let info = MagicInfo { relevant_mask, magic_number, right_shift_amount, offset };
                proof {
                    lemma_index_bound(0, right_shift_amount);
                    assert(attacks@.subrange(0, a0.len() as int) =~= a0);
                    assert forall|occ: u64| #[trigger] subset(occ, relevant_mask) implies is_attack_mask(
                        attacks@[info.key(occ)],
                        piece,
                        square.idx(),
                        occ,
                    ) by {
                        lemma_and_subset(occ, relevant_mask);
                        let i = choose|i: int| 0 <= i < patterns.len() && patterns@[i] == occ;
                        let slot = magic_index(patterns@[i], magic_number, right_shift_amount);
                        lemma_index_bound(occ.wrapping_mul(magic_number), right_shift_amount);
                        assert(table@[slot] == attack_masks@[i]);
                        assert(attacks@[offset + slot] == table@[slot]);
                        assert(is_attack_mask(attack_masks@[i], piece, square.idx(), patterns@[i]));
                    }
                }
                return Some(info);
            },
            None => {
                proof {
                    let k = tries as nat;
                    let (i, j) = choose|i: int, j: int|
                        0 <= i < patterns.len() && 0 <= j < patterns.len() && magic_index(
                            #[trigger] patterns@[i],
                            magic_number,
                            right_shift_amount,
                        ) == magic_index(#[trigger] patterns@[j], magic_number, right_shift_amount)
                            && attack_masks@[i] != attack_masks@[j];
                    assert(is_attack_mask(attack_masks@[i], piece, square.idx(), patterns@[i]));
                    assert(is_attack_mask(attack_masks@[j], piece, square.idx(), patterns@[j]));
                    if magic_fits(magic_number, piece, square.idx()) {
                        assert(subset(patterns@[i], relevant_mask));
                        assert(subset(patterns@[j], relevant_mask));
                        assert forall|t: int| 0 <= t < 64 implies #[trigger] bb_has(attack_masks@[i], t) == bb_has(attack_masks@[j], t) by {
                            assert(slider_attack(piece, square.idx(), t, patterns@[i]) == slider_attack(piece, square.idx(), t, patterns@[j]));
                        }
                        lemma_squares_ext(attack_masks@[i], attack_masks@[j]);
                    }
                    assert forall|j2: nat| j2 < k + 1 implies !magic_fits(#[trigger] magic_candidate(s0, j2), piece, square.idx()) by {
                        if j2 < k {
                        }
                    }
                }
            },
        }
        tries = tries + 1;
    }
    proof {
        if search_succeeds(s0, piece, square.idx()) {
            let k = choose|k: nat| #[trigger] first_fitting(s0, piece, square.idx(), k);
            assert(!magic_fits(magic_candidate(s0, k), piece, square.idx()));
        }
    }
    None
}

/// Lookup data `rook` and `bishop` of every square are correct over the table `attacks`.
pub open spec fn tables_ok(rook: Seq<MagicInfo>, bishop: Seq<MagicInfo>, attacks: Seq<u64>) -> bool {
    &&& rook.len() == 64
    &&& bishop.len() == 64
    &&& forall|s: int| 0 <= s < 64 ==> #[trigger] rook[s].ok_for(Piece::Rook, s, attacks)
    &&& forall|s: int| 0 <= s < 64 ==> #[trigger] bishop[s].ok_for(Piece::Bishop, s, attacks)
}

/// Magic lookup data of every square, for rooks and for bishops, over one shared attack
/// table (rook entries first).
pub struct MagicAttacks {
    /// Lookup data of the rook on each square, by square index.
    pub rook_magic_info_lookup: Vec<MagicInfo>,
    /// Lookup data of the bishop on each square, by square index.
    pub bishop_magic_info_lookup: Vec<MagicInfo>,
    /// The attack entries of all squares.
    pub attacks: Vec<u64>,
}

impl MagicAttacks {
    /// Every square has correct rook and bishop lookup data over the table.
    pub open spec fn wf(&self) -> bool {
        tables_ok(self.rook_magic_info_lookup@, self.bishop_magic_info_lookup@, self.attacks@)
    }

    /// The entry for slider `p` on `square` under `occupied_mask`, given correct data.
    fn lookup(&self, info: MagicInfo, p: Piece, square: Square, occupied_mask: u64) -> (r: u64)
        requires
            p == Piece::Rook || p == Piece::Bishop,
            info.ok_for(p, square.idx(), self.attacks@),
        ensures
            is_attack_mask(r, p, square.idx(), occupied_mask),
    {
        let _len = self.attacks.len();
        let key = info.calc_key(occupied_mask);
        let r = self.attacks[key];
        proof {
            let blockers = occupied_mask & info.relevant_mask;
            lemma_and_idem(occupied_mask, info.relevant_mask);
            assert(info.key(blockers) == info.key(occupied_mask));
            assert(is_attack_mask(self.attacks@[info.key(blockers)], p, square.idx(), blockers));
            assert forall|t: int| 0 <= t < 64 implies #[trigger] bb_has(r, t) == slider_attack(p, square.idx(), t, occupied_mask) by {
                lemma_attacks_from_relevant(p, square.idx(), t, occupied_mask, blockers);
            }
        }
        r
    }

    /// The squares a rook on `square` attacks when `occupied_mask` is occupied.
    pub fn single_rook_attacks(&self, square: Square, occupied_mask: u64) -> (r: u64)
        requires
            self.wf(),
        ensures
            forall|t: int| 0 <= t < 64 ==> #[trigger] bb_has(r, t) == rook_attack(square.idx(), t, occupied_mask),
    {
        let info = self.rook_magic_info_lookup[square.index() as usize];
        let r = self.lookup(info, Piece::Rook, square, occupied_mask);
        proof {
            assert forall|t: int| 0 <= t < 64 implies #[trigger] bb_has(r, t) == rook_attack(square.idx(), t, occupied_mask) by {
                assert(bb_has(r, t) == slider_attack(Piece::Rook, square.idx(), t, occupied_mask));
            }
        }
        r
    }

    /// The squares a bishop on `square` attacks when `occupied_mask` is occupied.
    pub fn single_bishop_attacks(&self, square: Square, occupied_mask: u64) -> (r: u64)
        requires
            self.wf(),
        ensures
            forall|t: int| 0 <= t < 64 ==> #[trigger] bb_has(r, t) == bishop_attack(square.idx(), t, occupied_mask),
    {
        let info = self.bishop_magic_info_lookup[square.index() as usize];
        let r = self.lookup(info, Piece::Bishop, square, occupied_mask);
        proof {
            assert forall|t: int| 0 <= t < 64 implies #[trigger] bb_has(r, t) == bishop_attack(square.idx(), t, occupied_mask) by {
                assert(bb_has(r, t) == slider_attack(Piece::Bishop, square.idx(), t, occupied_mask));
            }
        }
        r
    }

    /// Builds the rook and bishop tables, searching magic numbers with the generator seeded
    /// 3141592653589793238 for rooks and 2718281828459045 for bishops. Returns `None` when the
    /// search gives up on some square.
    pub fn generate() -> (r: Option<MagicAttacks>)
        ensures
            (r is Some) == (searches_end(3141592653589793238, Piece::Rook, 64) is Some && searches_end(
                2718281828459045,
                Piece::Bishop,
                64,
            ) is Some && tables_size(Piece::Rook, 64) + tables_size(Piece::Bishop, 64) <= COMBINED_TABLE_SIZE),
            r matches Some(m) ==> {
                &&& m.wf()
                &&& m.attacks@.len() == COMBINED_TABLE_SIZE
                &&& forall|s: int|
                    0 <= s < 64 ==> #[trigger] m.rook_magic_info_lookup@[s].magic_number == chained_magic(
                        3141592653589793238,
                        Piece::Rook,
                        s,
                    )
                &&& forall|s: int|
                    0 <= s < 64 ==> #[trigger] m.bishop_magic_info_lookup@[s].magic_number == chained_magic(
                        2718281828459045,
                        Piece::Bishop,
                        s,
                    )
            },
    {
        let mut attacks: Vec<u64> = Vec::new();
        let mut rng = Prng::new(3141592653589793238);
        let mut rook_infos: Vec<MagicInfo> = Vec::new();
        let mut i: u8 = 0;
        while i < 64
            invariant
                i <= 64,
                rook_infos.len() == i,
                attacks.len() <= 4096 * i,
                attacks.len() == tables_size(Piece::Rook, i as nat),
                forall|s: int| 0 <= s < i ==> #[trigger] rook_infos@[s].ok_for(Piece::Rook, s, attacks@),
                searches_end(3141592653589793238, Piece::Rook, i as nat) == Some(rng.state()),
                forall|s: int|
                    0 <= s < i ==> #[trigger] rook_infos@[s].magic_number == chained_magic(3141592653589793238, Piece::Rook, s),
            decreases 64 - i,
        {
            let ghost a0 = attacks@;
            let ghost st = rng.state();
            match generate_square_magic(&mut rng, &mut attacks, Piece::Rook, Square::from_u8(i)) {
                Some(info) => {
                    proof {
                        assert(searches_end(3141592653589793238, Piece::Rook, (i + 1) as nat) == search_end(st, Piece::Rook, i as int));
                        assert forall|s: int| 0 <= s < i implies #[trigger] rook_infos@[s].ok_for(Piece::Rook, s, attacks@) by {
                            lemma_ok_for_extend(rook_infos@[s], Piece::Rook, s, a0, attacks@);
                        }
                    }
                    rook_infos.push(info);
                },
                None => {
                    proof {
                        assert(searches_end(3141592653589793238, Piece::Rook, (i + 1) as nat) == search_end(st, Piece::Rook, i as int));
                        lemma_searches_stay_failed(3141592653589793238, Piece::Rook, (i + 1) as nat, 64);
                    }
                    return None;
                },
            }
            i = i + 1;
        }
        let mut rng = Prng::new(2718281828459045);
        let mut bishop_infos: Vec<MagicInfo> = Vec::new();
        let mut i: u8 = 0;
        while i < 64
            invariant
                i <= 64,
                rook_infos.len() == 64,
                bishop_infos.len() == i,
                attacks.len() <= 4096 * 64 + 4096 * i,
                attacks.len() == tables_size(Piece::Rook, 64) + tables_size(Piece::Bishop, i as nat),
                forall|s: int| 0 <= s < 64 ==> #[trigger] rook_infos@[s].ok_for(Piece::Rook, s, attacks@),
                forall|s: int| 0 <= s < i ==> #[trigger] bishop_infos@[s].ok_for(Piece::Bishop, s, attacks@),
                searches_end(3141592653589793238, Piece::Rook, 64) is Some,
                forall|s: int|
                    0 <= s < 64 ==> #[trigger] rook_infos@[s].magic_number == chained_magic(3141592653589793238, Piece::Rook, s),
                searches_end(2718281828459045, Piece::Bishop, i as nat) == Some(rng.state()),
                forall|s: int|
                    0 <= s < i ==> #[trigger] bishop_infos@[s].magic_number == chained_magic(2718281828459045, Piece::Bishop, s),
            decreases 64 - i,
        {
            let ghost a0 = attacks@;
            let ghost st = rng.state();
            match generate_square_magic(&mut rng, &mut attacks, Piece::Bishop, Square::from_u8(i)) {
                Some(info) => {
                    proof {
                        assert(searches_end(2718281828459045, Piece::Bishop, (i + 1) as nat) == search_end(st, Piece::Bishop, i as int));
                        assert forall|s: int| 0 <= s < 64 implies #[trigger] rook_infos@[s].ok_for(Piece::Rook, s, attacks@) by {
                            lemma_ok_for_extend(rook_infos@[s], Piece::Rook, s, a0, attacks@);
                        }
                        assert forall|s: int| 0 <= s < i implies #[trigger] bishop_infos@[s].ok_for(Piece::Bishop, s, attacks@) by {
                            lemma_ok_for_extend(bishop_infos@[s], Piece::Bishop, s, a0, attacks@);
                        }
                    }
                    bishop_infos.push(info);
                },
                None => {
                    proof {
                        assert(searches_end(2718281828459045, Piece::Bishop, (i + 1) as nat) == search_end(st, Piece::Bishop, i as int));
                        lemma_searches_stay_failed(2718281828459045, Piece::Bishop, (i + 1) as nat, 64);
                    }
                    return None;
                },
            }
            i = i + 1;
        }
        if attacks.len() > COMBINED_TABLE_SIZE {
            return None;
        }
        let ghost a0 = attacks@;
        while attacks.len() < COMBINED_TABLE_SIZE
            invariant
                a0.len() <= attacks@.len() <= COMBINED_TABLE_SIZE,
                attacks@.subrange(0, a0.len() as int) == a0,
            decreases COMBINED_TABLE_SIZE - attacks.len(),
        {
            let ghost before = attacks@;
            attacks.push(0);
            proof {
                assert(attacks@.subrange(0, a0.len() as int) =~= before.subrange(0, a0.len() as int));
            }
        }
        proof {
            assert forall|s: int| 0 <= s < 64 implies #[trigger] rook_infos@[s].ok_for(Piece::Rook, s, attacks@) by {
                lemma_ok_for_extend(rook_infos@[s], Piece::Rook, s, a0, attacks@);
            }
            assert forall|s: int| 0 <= s < 64 implies #[trigger] bishop_infos@[s].ok_for(Piece::Bishop, s, attacks@) by {
                lemma_ok_for_extend(bishop_infos@[s], Piece::Bishop, s, a0, attacks@);
            }
        }
        Some(MagicAttacks {
            rook_magic_info_lookup: rook_infos,
            bishop_magic_info_lookup: bishop_infos,
            attacks,
        })
    }
}

/// Whether `info` looks up the attacks of the slider `piece` (rook or bishop) on `square` in
/// `attacks`: checked for every blocker pattern of the square.
fn check_info(info: MagicInfo, piece: Piece, square: Square, attacks: &Vec<u64>) -> (r: bool)
    requires
        piece == Piece::Rook || piece == Piece::Bishop,
    ensures
        r == info.ok_for(piece, square.idx(), attacks@),
{
    let mask = sliding_piece_relevant_mask(piece, square);
    if info.relevant_mask != mask {
        proof {
            assert(!(forall|t: int| 0 <= t < 64 ==> #[trigger] bb_has(info.relevant_mask, t) == relevant(piece, square.idx(), t))) by {
                if forall|t: int| 0 <= t < 64 ==> #[trigger] bb_has(info.relevant_mask, t) == relevant(piece, square.idx(), t) {
                    assert forall|t: int| 0 <= t < 64 implies #[trigger] bb_has(info.relevant_mask, t) == bb_has(mask, t) by {}
                    lemma_squares_ext(info.relevant_mask, mask);
                }
            }
        }
        return false;
    }
    if info.right_shift_amount < 52 || info.right_shift_amount >= 64 {
        return false;
    }
    proof {
        lemma_index_bound(0, info.right_shift_amount);
    }
    let size = (1u64 << ((64 - info.right_shift_amount) as u64)) as usize;
    if info.offset > attacks.len() || size > attacks.len() - info.offset {
        return false;
    }
    let patterns = subsets_of(mask);
    let _len = attacks.len();
    let mut j: usize = 0;
    while j < patterns.len()
        invariant
            piece == Piece::Rook || piece == Piece::Bishop,
            attacks@.len() <= usize::MAX,
            info.relevant_mask == mask,
            52 <= info.right_shift_amount < 64,
            info.offset + table_size(info.right_shift_amount) <= attacks@.len(),
            forall|t: int| 0 <= t < 64 ==> #[trigger] bb_has(mask, t) == relevant(piece, square.idx(), t),
            forall|i: int| 0 <= i < patterns.len() ==> #[trigger] subset(patterns@[i], mask),
            forall|occ: u64| #[trigger] subset(occ, mask) ==> exists|i: int| 0 <= i < patterns.len() && patterns@[i] == occ,
            j <= patterns.len(),
            forall|i: int| 0 <= i < j ==> is_attack_mask(attacks@[info.key(#[trigger] patterns@[i])], piece, square.idx(), patterns@[i]),
        decreases patterns.len() - j,
    {
        let p = patterns[j];
        let key = info.calc_key(p);
        let expected = manual_sliding_piece_attacks(piece, square, p);
        if attacks[key] != expected {
            proof {
                if is_attack_mask(attacks@[info.key(p)], piece, square.idx(), p) {
                    lemma_attack_masks_agree(attacks@[info.key(p)], expected, piece, square.idx(), p);
                }
                lemma_and_subset(p, mask);
                assert(subset(p, info.relevant_mask));
            }
            return false;
        }
        j = j + 1;
    }
    proof {
        assert forall|occ: u64| #[trigger] subset(occ, info.relevant_mask) implies is_attack_mask(
            attacks@[info.key(occ)],
            piece,
            square.idx(),
            occ,
        ) by {
            let i = choose|i: int| 0 <= i < patterns.len() && patterns@[i] == occ;
            assert(is_attack_mask(attacks@[info.key(patterns@[i])], piece, square.idx(), patterns@[i]));
        }
    }
    true
}

impl MagicAttacks {
    /// Assembles tables from their parts, checking every entry against the attacks computed
    /// from the movement rules; `None` when some lookup would be wrong.
    pub fn from_parts(
        rook_magic_info_lookup: Vec<MagicInfo>,
        bishop_magic_info_lookup: Vec<MagicInfo>,
        attacks: Vec<u64>,
    ) -> (r: Option<MagicAttacks>)
        ensures
            match r {
                Some(m) => m.wf() && m.rook_magic_info_lookup@ == rook_magic_info_lookup@
                    && m.bishop_magic_info_lookup@ == bishop_magic_info_lookup@ && m.attacks@ == attacks@,
                None => !tables_ok(rook_magic_info_lookup@, bishop_magic_info_lookup@, attacks@),
            },
    {
        if rook_magic_info_lookup.len() != 64 || bishop_magic_info_lookup.len() != 64 {
            return None;
        }
        let mut i: u8 = 0;
        while i < 64
            invariant
                i <= 64,
                rook_magic_info_lookup.len() == 64,
                bishop_magic_info_lookup.len() == 64,
                forall|s: int| 0 <= s < i ==> #[trigger] rook_magic_info_lookup@[s].ok_for(Piece::Rook, s, attacks@),
                forall|s: int| 0 <= s < i ==> #[trigger] bishop_magic_info_lookup@[s].ok_for(Piece::Bishop, s, attacks@),
            decreases 64 - i,
        {
            let square = Square::from_u8(i);
            if !check_info(rook_magic_info_lookup[i as usize], Piece::Rook, square, &attacks) {
                proof {
                    assert(!rook_magic_info_lookup@[i as int].ok_for(Piece::Rook, i as int, attacks@));
                }
                return None;
            }
            if !check_info(bishop_magic_info_lookup[i as usize], Piece::Bishop, square, &attacks) {
                proof {
                    assert(!bishop_magic_info_lookup@[i as int].ok_for(Piece::Bishop, i as int, attacks@));
                }
                return None;
            }
            i = i + 1;
        }
        Some(MagicAttacks { rook_magic_info_lookup, bishop_magic_info_lookup, attacks })
    }
}

/// The squares a rook on `src_square` attacks when `occupied_mask` is occupied, looked up in
/// `table`.
pub fn magic_single_rook_attacks(table: &MagicAttacks, src_square: Square, occupied_mask: u64) -> (r: u64)
    requires
        table.wf(),
    ensures
        forall|t: int| 0 <= t < 64 ==> #[trigger] bb_has(r, t) == rook_attack(src_square.idx(), t, occupied_mask),
{
    table.single_rook_attacks(src_square, occupied_mask)
}

/// The squares a bishop on `src_square` attacks when `occupied_mask` is occupied, looked up in
/// `table`.
pub fn magic_single_bishop_attacks(table: &MagicAttacks, src_square: Square, occupied_mask: u64) -> (r: u64)
    requires
        table.wf(),
    ensures
        forall|t: int| 0 <= t < 64 ==> #[trigger] bb_has(r, t) == bishop_attack(src_square.idx(), t, occupied_mask),
{
    table.single_bishop_attacks(src_square, occupied_mask)
}

} // verus!
