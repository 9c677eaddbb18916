//! Bitboards: a `u64` with one bit per square.
//!
//! Square index `s` (0 = a8, 7 = h8, 56 = a1, 63 = h1) is stored in bit `63 - s`,
//! so the most significant bit is a8 and the least significant bit is h1.
use vstd::prelude::*;
use vstd::std_specs::bits::*;

verus! {

/// A set of squares, one bit per square.
pub type Bitboard = u64;

/// Bit `i` (0 = least significant) of `b` is set.
pub open spec fn bit(b: u64, i: int) -> bool {
    (b >> (i as u64)) & 1u64 == 1u64
}

/// The square with index `s` belongs to the bitboard `b`.
pub open spec fn bb_has(b: u64, s: int) -> bool {
    bit(b, 63 - s)
}

/// The bitboard holding exactly the square `s`.
pub open spec fn sq_bit(s: int) -> u64 {
    1u64 << ((63 - s) as u64)
}

/// `a` holds every square of `b`.
pub open spec fn subset(b: u64, a: u64) -> bool {
    forall|s: int| 0 <= s < 64 && #[trigger] bb_has(b, s) ==> bb_has(a, s)
}

/// Number of set bits among bits `0 .. n`.
pub open spec fn pop_upto(b: u64, n: nat) -> nat
    decreases n,
{
    if n == 0 {
        0
    } else {
        pop_upto(b, (n - 1) as nat) + if bit(b, n - 1) {
            1nat
        } else {
            0nat
        }
    }
}

/// Number of squares of `b`.
pub open spec fn pop(b: u64) -> nat {
    pop_upto(b, 64)
}

proof fn bv_and(a: u64, b: u64, i: u64)
    by (bit_vector)
    requires
        i < 64,
    ensures
        (((a & b) >> i) & 1u64 == 1u64) == (((a >> i) & 1u64 == 1u64) && ((b >> i) & 1u64
            == 1u64)),
{
}

proof fn bv_or(a: u64, b: u64, i: u64)
    by (bit_vector)
    requires
        i < 64,
    ensures
        (((a | b) >> i) & 1u64 == 1u64) == (((a >> i) & 1u64 == 1u64) || ((b >> i) & 1u64
            == 1u64)),
{
}

proof fn bv_xor(a: u64, b: u64, i: u64)
    by (bit_vector)
    requires
        i < 64,
    ensures
        (((a ^ b) >> i) & 1u64 == 1u64) == (((a >> i) & 1u64 == 1u64) != ((b >> i) & 1u64
            == 1u64)),
{
}

proof fn bv_not(a: u64, i: u64)
    by (bit_vector)
    requires
        i < 64,
    ensures
        (((!a) >> i) & 1u64 == 1u64) == !((a >> i) & 1u64 == 1u64),
{
}

proof fn bv_single(k: u64, i: u64)
    by (bit_vector)
    requires
        k < 64,
        i < 64,
    ensures
        (((1u64 << k) >> i) & 1u64 == 1u64) == (i == k),
{
}

proof fn bv_shl(x: u64, k: u64, i: u64)
    by (bit_vector)
    requires
        k < 64,
        i < 64,
    ensures
        (((x << k) >> i) & 1u64 == 1u64) == (i >= k && ((x >> ((i - k) as u64)) & 1u64
            == 1u64)),
{
}

proof fn bv_shr(x: u64, k: u64, i: u64)
    by (bit_vector)
    requires
        k < 64,
        i < 64,
    ensures
        (((x >> k) >> i) & 1u64 == 1u64) == (i + k < 64 && ((x >> ((i + k) as u64)) & 1u64
            == 1u64)),
{
}

proof fn bv_zero(i: u64)
    by (bit_vector)
    requires
        i < 64,
    ensures
        ((0u64 >> i) & 1u64 == 1u64) == false,
{
}

proof fn bv_all(i: u64)
    by (bit_vector)
    requires
        i < 64,
    ensures
        ((0xffff_ffff_ffff_ffffu64 >> i) & 1u64 == 1u64),
{
}

proof fn bv_file(f: u64, i: u64)
    by (bit_vector)
    requires
        f < 8,
        i < 64,
    ensures
        (((0x8080808080808080u64 >> f) >> i) & 1u64 == 1u64) == (i % 8 == 7 - f),
{
}

proof fn bv_rank(r: u64, i: u64)
    by (bit_vector)
    requires
        r < 8,
        i < 64,
    ensures
        (((0xFFu64 << (r * 8)) >> i) & 1u64 == 1u64) == (i / 8 == r),
{
}

proof fn bv_xor_zero(a: u64, b: u64)
    by (bit_vector)
    ensures
        (a ^ b == 0u64) == (a == b),
{
}

proof fn bv_clear_lowest(b: u64, tz: u64, i: u64)
    by (bit_vector)
    requires
        tz < 64,
        i < 64,
        b != 0,
        (b >> tz) & 1u64 == 1u64,
        b << ((64 - tz) as u64) == 0,
    ensures
        (((b & ((b - 1) as u64)) >> i) & 1u64 == 1u64) == (((b >> i) & 1u64 == 1u64) && i
            != tz),
        (b & ((b - 1) as u64)) < b,
{
}

proof fn bv_nonzero_bit(x: u64)
    by (bit_vector)
    ensures
        (x & 1u64 != 0u64) == (x & 1u64 == 1u64),
{
}

/// The lowest-indexed square of a non-empty bitboard is found through its leading zeros.
pub proof fn lemma_leading_square(b: u64)
    requires
        b != 0,
    ensures
        0 <= u64_leading_zeros(b) < 64,
        bb_has(b, u64_leading_zeros(b)),
        forall|s: int| 0 <= s < u64_leading_zeros(b) ==> !#[trigger] bb_has(b, s),
{
    axiom_u64_leading_zeros(b);
    let lz = u64_leading_zeros(b);
    bv_nonzero_bit(b >> ((63 - lz) as u64));
    assert forall|s: int| 0 <= s < lz implies !#[trigger] bb_has(b, s) by {
        assert((b >> ((63 - s) as u64)) & 1u64 == 0u64);
    }
}

proof fn bv_test(b: u64, k: u64)
    by (bit_vector)
    requires
        k < 64,
    ensures
        ((b & (1u64 << k)) != 0u64) == ((b >> k) & 1u64 == 1u64),
{
}

pub broadcast proof fn lemma_bit_and(a: u64, b: u64, i: int)
    requires
        0 <= i < 64,
    ensures
        #[trigger] bit(a & b, i) == (bit(a, i) && bit(b, i)),
{
    bv_and(a, b, i as u64);
}

pub broadcast proof fn lemma_bit_or(a: u64, b: u64, i: int)
    requires
        0 <= i < 64,
    ensures
        #[trigger] bit(a | b, i) == (bit(a, i) || bit(b, i)),
{
    bv_or(a, b, i as u64);
}

pub broadcast proof fn lemma_bit_xor(a: u64, b: u64, i: int)
    requires
        0 <= i < 64,
    ensures
        #[trigger] bit(a ^ b, i) == (bit(a, i) != bit(b, i)),
{
    bv_xor(a, b, i as u64);
}

pub broadcast proof fn lemma_bit_not(a: u64, i: int)
    requires
        0 <= i < 64,
    ensures
        #[trigger] bit(!a, i) == !bit(a, i),
{
    bv_not(a, i as u64);
}

pub broadcast proof fn lemma_bit_single(k: u64, i: int)
    requires
        k < 64,
        0 <= i < 64,
    ensures
        #[trigger] bit(1u64 << k, i) == (i == k),
{
    bv_single(k, i as u64);
}

pub broadcast proof fn lemma_bit_shl(x: u64, k: u64, i: int)
    requires
        k < 64,
        0 <= i < 64,
    ensures
        #[trigger] bit(x << k, i) == (i >= k && bit(x, i - k)),
{
    bv_shl(x, k, i as u64);
}

pub broadcast proof fn lemma_bit_shr(x: u64, k: u64, i: int)
    requires
        k < 64,
        0 <= i < 64,
    ensures
        #[trigger] bit(x >> k, i) == (i + k < 64 && bit(x, i + k)),
{
    bv_shr(x, k, i as u64);
}

pub broadcast proof fn lemma_bit_zero(i: int)
    requires
        0 <= i < 64,
    ensures
        #[trigger] bit(0u64, i) == false,
{
    bv_zero(i as u64);
}

pub broadcast proof fn lemma_bit_all(i: int)
    requires
        0 <= i < 64,
    ensures
        #[trigger] bit(0xffff_ffff_ffff_ffffu64, i),
{
    bv_all(i as u64);
}

pub broadcast proof fn lemma_has_and(a: u64, b: u64, s: int)
    requires
        0 <= s < 64,
    ensures
        #[trigger] bb_has(a & b, s) == (bb_has(a, s) && bb_has(b, s)),
{
    bv_and(a, b, (63 - s) as u64);
}

pub broadcast proof fn lemma_has_or(a: u64, b: u64, s: int)
    requires
        0 <= s < 64,
    ensures
        #[trigger] bb_has(a | b, s) == (bb_has(a, s) || bb_has(b, s)),
{
    bv_or(a, b, (63 - s) as u64);
}

pub broadcast proof fn lemma_has_xor(a: u64, b: u64, s: int)
    requires
        0 <= s < 64,
    ensures
        #[trigger] bb_has(a ^ b, s) == (bb_has(a, s) != bb_has(b, s)),
{
    bv_xor(a, b, (63 - s) as u64);
}

pub broadcast proof fn lemma_has_not(a: u64, s: int)
    requires
        0 <= s < 64,
    ensures
        #[trigger] bb_has(!a, s) == !bb_has(a, s),
{
    bv_not(a, (63 - s) as u64);
}

pub broadcast proof fn lemma_has_zero(s: int)
    requires
        0 <= s < 64,
    ensures
        #[trigger] bb_has(0u64, s) == false,
{
    bv_zero((63 - s) as u64);
}

pub broadcast proof fn lemma_has_all(s: int)
    requires
        0 <= s < 64,
    ensures
        #[trigger] bb_has(0xffff_ffff_ffff_ffffu64, s),
{
    bv_all((63 - s) as u64);
}

pub broadcast proof fn lemma_has_shl(x: u64, k: u64, s: int)
    requires
        k < 64,
        0 <= s < 64,
    ensures
        #[trigger] bb_has(x << k, s) == (s + k < 64 && bb_has(x, s + k)),
{
    bv_shl(x, k, (63 - s) as u64);
}

pub broadcast proof fn lemma_has_shr(x: u64, k: u64, s: int)
    requires
        k < 64,
        0 <= s < 64,
    ensures
        #[trigger] bb_has(x >> k, s) == (s >= k && bb_has(x, s - k)),
{
    bv_shr(x, k, (63 - s) as u64);
}

pub broadcast group group_has {
    lemma_has_and,
    lemma_has_or,
    lemma_has_xor,
    lemma_has_not,
    lemma_has_zero,
    lemma_has_all,
    lemma_has_sq_bit,
}

pub broadcast group group_bits {
    lemma_bit_and,
    lemma_bit_or,
    lemma_bit_xor,
    lemma_bit_not,
    lemma_bit_single,
    lemma_bit_shl,
    lemma_bit_shr,
    lemma_bit_zero,
    lemma_bit_all,
}

/// `b` is zero exactly when no bit is set.
pub proof fn lemma_zero_iff(b: u64)
    ensures
        (b == 0) <==> (forall|i: int| 0 <= i < 64 ==> !#[trigger] bit(b, i)),
{
    broadcast use lemma_bit_zero;

    if b != 0 {
        axiom_u64_trailing_zeros(b);
        let tz = u64_trailing_zeros(b) as int;
        assert(bit(b, tz));
    }
}

/// Two bitboards with the same bits are equal.
pub proof fn lemma_bits_ext(a: u64, b: u64)
    requires
        forall|i: int| 0 <= i < 64 ==> #[trigger] bit(a, i) == bit(b, i),
    ensures
        a == b,
{
    broadcast use lemma_bit_xor;

    lemma_zero_iff(a ^ b);
    assert forall|i: int| 0 <= i < 64 implies !#[trigger] bit(a ^ b, i) by {
        assert(bit(a, i) == bit(b, i));
    }
    bv_xor_zero(a, b);
}

/// Two bitboards with the same squares are equal.
pub proof fn lemma_squares_ext(a: u64, b: u64)
    requires
        forall|s: int| 0 <= s < 64 ==> #[trigger] bb_has(a, s) == bb_has(b, s),
    ensures
        a == b,
{
    assert forall|i: int| 0 <= i < 64 implies #[trigger] bit(a, i) == bit(b, i) by {
        assert(bb_has(a, 63 - i) == bb_has(b, 63 - i));
    }
    lemma_bits_ext(a, b);
}

/// The square-level view of the single-square bitboard.
pub broadcast proof fn lemma_has_sq_bit(s: int, t: int)
    requires
        0 <= s < 64,
        0 <= t < 64,
    ensures
        #[trigger] bb_has(sq_bit(s), t) == (s == t),
{
    bv_single((63 - s) as u64, (63 - t) as u64);
}

/// The file mask `0x8080.. >> f` holds exactly the squares of file `f`.
pub broadcast proof fn lemma_has_file(f: u64, s: int)
    requires
        f < 8,
        0 <= s < 64,
    ensures
        #[trigger] bb_has(0x8080808080808080u64 >> f, s) == (s % 8 == f),
{
    bv_file(f, (63 - s) as u64);
}

/// The rank mask `0xFF << 8r` holds exactly the squares of rank `r` (rank 0 is rank 1).
pub broadcast proof fn lemma_has_rank(r: u64, s: int)
    requires
        r < 8,
        0 <= s < 64,
    ensures
        #[trigger] bb_has(0xFFu64 << (r * 8), s) == (7 - s / 8 == r),
{
    bv_rank(r, (63 - s) as u64);
}

/// Whether `s` is in `b`, computed with a mask test.
pub fn contains(b: u64, s: u8) -> (r: bool)
    requires
        s < 64,
    ensures
        r == bb_has(b, s as int),
{
    proof {
        bv_test(b, (63 - s) as u64);
    }
    b & (1u64 << (63 - s)) != 0
}

/// Removes the square held in the least significant set bit of `*b` and returns it.
///
/// That square is the one with the greatest index in `*b`.
pub fn pop_last_square(b: &mut u64) -> (s: u8)
    requires
        *old(b) != 0,
    ensures
        s < 64,
        bb_has(*old(b), s as int),
        forall|t: int| 0 <= t < 64 ==> #[trigger] bb_has(*final(b), t) == (bb_has(*old(b), t) && t != s),
        forall|t: int| s < t < 64 ==> !#[trigger] bb_has(*old(b), t),
        *final(b) < *old(b),
{
    let x = *b;
    proof {
        axiom_u64_trailing_zeros(x);
    }
    let tz = x.trailing_zeros();
    proof {
        assert forall|t: int| 0 <= t < 64 implies #[trigger] bb_has(x & ((x - 1) as u64), t) == (
        bb_has(x, t) && t != 63 - tz) by {
            bv_clear_lowest(x, tz as u64, (63 - t) as u64);
        }
        bv_clear_lowest(x, tz as u64, 0);
        assert forall|t: int| 63 - tz < t < 64 implies !#[trigger] bb_has(x, t) by {
            assert((x >> ((63 - t) as u64)) & 1u64 == 0u64);
        }
    }
    *b = x & (x - 1);
    (63 - tz) as u8
}

/// Number of squares in `b`.
pub fn count_squares(b: u64) -> (r: u32)
    ensures
        r as nat == pop(b),
{
    let mut rest = b;
    let mut n: u32 = 0;
    proof {
        lemma_pop_bound(b, 64);
    }
    while rest != 0
        invariant
            n + pop(rest) == pop(b),
            n <= 64 - pop(rest),
            pop(rest) <= 64,
        decreases rest,
    {
        let ghost before = rest;
        let s = pop_last_square(&mut rest);
        proof {
            assert forall|i: int| 0 <= i < 64 implies #[trigger] bit(rest, i) == (bit(before, i)
                && i != 63 - s) by {
                assert(bb_has(rest, 63 - i) == (bb_has(before, 63 - i) && 63 - i != s));
            }
            lemma_pop_remove(before, rest, (63 - s) as int, 64);
            lemma_pop_bound(rest, 64);
        }
        n = n + 1;
    }
    proof {
        lemma_zero_iff(rest);
        lemma_pop_none(rest, 64);
    }
    n
}

/// Removing one set bit lowers the count by one.
pub proof fn lemma_pop_remove(b: u64, c: u64, k: int, n: nat)
    requires
        0 <= k < 64,
        n <= 64,
        bit(b, k),
        forall|i: int| 0 <= i < 64 ==> #[trigger] bit(c, i) == (bit(b, i) && i != k),
    ensures
        pop_upto(c, n) + (if n > k {
            1nat
        } else {
            0nat
        }) == pop_upto(b, n),
    decreases n,
{
    if n > 0 {
        lemma_pop_remove(b, c, k, (n - 1) as nat);
        assert(bit(c, n - 1) == (bit(b, n - 1) && n - 1 != k));
    }
}

/// A bitboard without set bits has count zero.
pub proof fn lemma_pop_none(b: u64, n: nat)
    requires
        n <= 64,
        forall|i: int| 0 <= i < 64 ==> !#[trigger] bit(b, i),
    ensures
        pop_upto(b, n) == 0,
    decreases n,
{
    if n > 0 {
        lemma_pop_none(b, (n - 1) as nat);
        assert(!bit(b, n - 1));
    }
}

/// The count never exceeds the number of bits considered.
pub proof fn lemma_pop_bound(b: u64, n: nat)
    ensures
        pop_upto(b, n) <= n,
    decreases n,
{
    if n > 0 {
        lemma_pop_bound(b, (n - 1) as nat);
    }
}

/// A bitboard with a set bit has a positive count.
pub proof fn lemma_pop_pos(b: u64, k: int, n: nat)
    requires
        0 <= k < n,
        bit(b, k),
    ensures
        pop_upto(b, n) >= 1,
    decreases n,
{
    if n - 1 != k {
        lemma_pop_pos(b, k, (n - 1) as nat);
    }
}

/// Exactly one bit is set when the count is one.
pub proof fn lemma_pop_one(b: u64, k: int)
    requires
        0 <= k < 64,
        bit(b, k),
        pop(b) == 1,
    ensures
        forall|i: int| 0 <= i < 64 && i != k ==> !#[trigger] bit(b, i),
{
    assert forall|i: int| 0 <= i < 64 && i != k implies !#[trigger] bit(b, i) by {
        if bit(b, i) {
            lemma_pop_two(b, k, i, 64);
        }
    }
}

/// Two distinct set bits give a count of at least two.
pub proof fn lemma_pop_two(b: u64, k: int, j: int, n: nat)
    requires
        0 <= k < n,
        0 <= j < n,
        k != j,
        bit(b, k),
        bit(b, j),
    ensures
        pop_upto(b, n) >= 2,
    decreases n,
{
    if n - 1 == k {
        lemma_pop_pos(b, j, (n - 1) as nat);
    } else if n - 1 == j {
        lemma_pop_pos(b, k, (n - 1) as nat);
    } else {
        lemma_pop_two(b, k, j, (n - 1) as nat);
    }
}

/// A bitboard whose only set bit is `k` has count one among the bits below `n` exactly when
/// `k < n`.
pub proof fn lemma_pop_only(b: u64, k: int, n: nat)
    requires
        0 <= k < 64,
        n <= 64,
        bit(b, k),
        forall|i: int| 0 <= i < 64 && i != k ==> !#[trigger] bit(b, i),
    ensures
        pop_upto(b, n) == if k < n {
            1nat
        } else {
            0nat
        },
    decreases n,
{
    if n > 0 {
        lemma_pop_only(b, k, (n - 1) as nat);
    }
}

/// A bitboard holds exactly one square when its count is one.
pub proof fn lemma_pop_single(b: u64)
    ensures
        (pop(b) == 1) <==> (exists|s: int|
            0 <= s < 64 && bb_has(b, s) && forall|u: int|
                0 <= u < 64 && #[trigger] bb_has(b, u) ==> u == s),
{
    if pop(b) == 1 {
        if b == 0 {
            lemma_zero_iff(b);
            lemma_pop_none(b, 64);
        }
        lemma_zero_iff(b);
        let k = choose|i: int| 0 <= i < 64 && #[trigger] bit(b, i);
        lemma_pop_one(b, k);
        assert(bb_has(b, 63 - k));
        assert forall|u: int| 0 <= u < 64 && #[trigger] bb_has(b, u) implies u == 63 - k by {
            assert(bit(b, 63 - u));
        }
    }
    if exists|s: int| 0 <= s < 64 && bb_has(b, s) && forall|u: int| 0 <= u < 64 && #[trigger] bb_has(b, u) ==> u == s {
        let s = choose|s: int| 0 <= s < 64 && bb_has(b, s) && forall|u: int| 0 <= u < 64 && #[trigger] bb_has(b, u) ==> u == s;
        assert forall|i: int| 0 <= i < 64 && i != 63 - s implies !#[trigger] bit(b, i) by {
            assert(!bb_has(b, 63 - i) || 63 - i == s);
        }
        lemma_pop_only(b, 63 - s, 64);
    }
}

/// Removes and returns the square of greatest index of `*b`, like [`pop_last_square`], and
/// also tells that the number of squares went down by one.
pub fn next_square(b: &mut u64) -> (s: u8)
    requires
        *old(b) != 0,
    ensures
        s < 64,
        bb_has(*old(b), s as int),
        forall|t: int| 0 <= t < 64 ==> #[trigger] bb_has(*final(b), t) == (bb_has(*old(b), t) && t != s),
        pop(*final(b)) + 1 == pop(*old(b)),
        pop(*old(b)) <= 64,
{
    let ghost before = *b;
    let s = pop_last_square(b);
    proof {
        let after = *b;
        assert forall|i: int| 0 <= i < 64 implies #[trigger] bit(after, i) == (bit(before, i)
            && i != 63 - s) by {
            assert(bb_has(after, 63 - i) == (bb_has(before, 63 - i) && 63 - i != s));
        }
        assert(bit(before, 63 - s));
        lemma_pop_remove(before, after, (63 - s) as int, 64);
        lemma_pop_bound(before, 64);
    }
    s
}

/// An empty bitboard has no squares; a bitboard with a square has a positive count.
pub proof fn lemma_pop_zero(b: u64)
    ensures
        (b == 0) <==> (pop(b) == 0),
        pop(b) <= 64,
{
    lemma_zero_iff(b);
    lemma_pop_bound(b, 64);
    if b == 0 {
        lemma_pop_none(b, 64);
    } else {
        let i = choose|i: int| 0 <= i < 64 && #[trigger] bit(b, i);
        lemma_pop_pos(b, i, 64);
    }
}

} // verus!
