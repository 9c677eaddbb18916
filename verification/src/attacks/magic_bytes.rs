//! The byte layout in which magic tables are stored: a header (the byte 64 and the number of
//! table entries), 21 bytes of lookup data per rook square, then per bishop square, then the
//! table entries, every number little-endian.
use vstd::prelude::*;
use crate::attacks::magic::{MagicAttacks, MagicInfo, tables_ok, COMBINED_TABLE_SIZE};

verus! {

/// The little-endian bytes of `x`.
pub open spec fn le_bytes(x: u64) -> Seq<u8> {
    seq![
        (x & 0xff) as u8,
        ((x >> 8u64) & 0xff) as u8,
        ((x >> 16u64) & 0xff) as u8,
        ((x >> 24u64) & 0xff) as u8,
        ((x >> 32u64) & 0xff) as u8,
        ((x >> 40u64) & 0xff) as u8,
        ((x >> 48u64) & 0xff) as u8,
        ((x >> 56u64) & 0xff) as u8,
    ]
}

/// The number whose little-endian bytes are `b[i..i + 8]`.
pub open spec fn le_value(b: Seq<u8>, i: int) -> u64 {
    (b[i] as u64) | ((b[i + 1] as u64) << 8u64) | ((b[i + 2] as u64) << 16u64) | ((b[i + 3] as u64)
        << 24u64) | ((b[i + 4] as u64) << 32u64) | ((b[i + 5] as u64) << 40u64) | ((b[i + 6] as u64)
        << 48u64) | ((b[i + 7] as u64) << 56u64)
}

/// The number whose little-endian bytes are `b[i..i + 4]`.
pub open spec fn le_value32(b: Seq<u8>, i: int) -> u32 {
    (b[i] as u32) | ((b[i + 1] as u32) << 8u32) | ((b[i + 2] as u32) << 16u32) | ((b[i + 3] as u32)
        << 24u32)
}

/// Reading back the bytes of a number gives the number.
pub proof fn lemma_le_round_trip(x: u64)
    ensures
        le_value(le_bytes(x), 0) == x,
{
    let b = le_bytes(x);
    let b0 = (x & 0xff) as u8;
    let b1 = ((x >> 8u64) & 0xff) as u8;
    let b2 = ((x >> 16u64) & 0xff) as u8;
    let b3 = ((x >> 24u64) & 0xff) as u8;
    let b4 = ((x >> 32u64) & 0xff) as u8;
    let b5 = ((x >> 40u64) & 0xff) as u8;
    let b6 = ((x >> 48u64) & 0xff) as u8;
    let b7 = ((x >> 56u64) & 0xff) as u8;
    assert(b[0] == b0 && b[1] == b1 && b[2] == b2 && b[3] == b3 && b[4] == b4 && b[5] == b5 && b[6]
        == b6 && b[7] == b7);
    assert((b0 as u64) | ((b1 as u64) << 8u64) | ((b2 as u64) << 16u64) | ((b3 as u64) << 24u64) | ((
    b4 as u64) << 32u64) | ((b5 as u64) << 40u64) | ((b6 as u64) << 48u64) | ((b7 as u64) << 56u64)
        == x) by (bit_vector)
        requires
            b0 == (x & 0xff) as u8,
            b1 == ((x >> 8u64) & 0xff) as u8,
            b2 == ((x >> 16u64) & 0xff) as u8,
            b3 == ((x >> 24u64) & 0xff) as u8,
            b4 == ((x >> 32u64) & 0xff) as u8,
            b5 == ((x >> 40u64) & 0xff) as u8,
            b6 == ((x >> 48u64) & 0xff) as u8,
            b7 == ((x >> 56u64) & 0xff) as u8,
    ;
}

/// Appends the little-endian bytes of `x`.
fn push_u64(out: &mut Vec<u8>, x: u64)
    ensures
        final(out)@ == old(out)@ + le_bytes(x),
{
    out.push((x & 0xff) as u8);
    out.push(((x >> 8u64) & 0xff) as u8);
    out.push(((x >> 16u64) & 0xff) as u8);
    out.push(((x >> 24u64) & 0xff) as u8);
    out.push(((x >> 32u64) & 0xff) as u8);
    out.push(((x >> 40u64) & 0xff) as u8);
    out.push(((x >> 48u64) & 0xff) as u8);
    out.push(((x >> 56u64) & 0xff) as u8);
    proof {
        assert(final(out)@ =~= old(out)@ + le_bytes(x));
    }
}

/// Reads the little-endian number at `b[i..i + 8]`.
fn read_u64(b: &[u8], i: usize) -> (r: u64)
    requires
        i + 8 <= b@.len(),
    ensures
        r == le_value(b@, i as int),
{
    (b[i] as u64) | ((b[i + 1] as u64) << 8u64) | ((b[i + 2] as u64) << 16u64) | ((b[i + 3] as u64)
        << 24u64) | ((b[i + 4] as u64) << 32u64) | ((b[i + 5] as u64) << 40u64) | ((b[i + 6] as u64)
        << 48u64) | ((b[i + 7] as u64) << 56u64)
}

/// Reads the little-endian number at `b[i..i + 4]`.
fn read_u32(b: &[u8], i: usize) -> (r: u32)
    requires
        i + 4 <= b@.len(),
    ensures
        r == le_value32(b@, i as int),
{
    (b[i] as u32) | ((b[i + 1] as u32) << 8u32) | ((b[i + 2] as u32) << 16u32) | ((b[i + 3] as u32)
        << 24u32)
}

/// The lookup data stored at `b[i..i + 21]`.
pub open spec fn info_at(b: Seq<u8>, i: int) -> MagicInfo {
    MagicInfo {
        relevant_mask: le_value(b, i),
        magic_number: le_value(b, i + 8),
        right_shift_amount: b[i + 16],
        offset: le_value32(b, i + 17) as usize,
    }
}

/// The stored bytes of `info`: mask, magic number, shift, and the offset in 4 bytes.
pub open spec fn info_bytes(info: MagicInfo) -> Seq<u8> {
    le_bytes(info.relevant_mask) + le_bytes(info.magic_number) + seq![info.right_shift_amount]
        + le_bytes(info.offset as u64).subrange(0, 4)
}

/// The position of the `s`-th lookup record (rooks first) in a stored table.
pub open spec fn info_pos(s: int) -> int {
    9 + 21 * s
}

/// The position of the `k`-th table entry in a stored table.
pub open spec fn entry_pos(k: int) -> int {
    9 + 21 * 128 + 8 * k
}

/// `b` starts with a valid header: the byte 64 and the number of entries of the combined table.
pub open spec fn header_ok(b: Seq<u8>) -> bool {
    &&& b.len() >= 9
    &&& b[0] == 64
    &&& le_value(b, 1) == COMBINED_TABLE_SIZE
}

/// `b` is a stored table: a valid header and at least the bytes of the lookup data and of the
/// entries it announces (anything after them is not read).
pub open spec fn layout_ok(b: Seq<u8>) -> bool {
    &&& header_ok(b)
    &&& b.len() >= entry_pos(COMBINED_TABLE_SIZE as int)
}

/// Why stored tables cannot be read.
#[derive(Clone, Copy, Debug, PartialEq, Eq, Structural)]
pub enum MagicTableError {
    /// The bytes end before the header or before the data the header announces.
    UnexpectedEof,
    /// The header is wrong or announces another table size.
    InvalidData,
}

/// The rook data stored in `b`.
pub open spec fn stored_rook(b: Seq<u8>) -> Seq<MagicInfo> {
    Seq::new(64, |s: int| info_at(b, info_pos(s)))
}

/// The bishop data stored in `b`.
pub open spec fn stored_bishop(b: Seq<u8>) -> Seq<MagicInfo> {
    Seq::new(64, |s: int| info_at(b, info_pos(64 + s)))
}

/// The table entries stored in `b`.
pub open spec fn stored_entries(b: Seq<u8>) -> Seq<u64> {
    Seq::new(le_value(b, 1) as nat, |k: int| le_value(b, entry_pos(k)))
}

/// Appends the stored bytes of `info`.
fn push_info(out: &mut Vec<u8>, info: MagicInfo)
    requires
        info.offset < 0x1_0000_0000,
    ensures
        final(out)@ == old(out)@ + info_bytes(info),
{
    push_u64(out, info.relevant_mask);
    push_u64(out, info.magic_number);
    out.push(info.right_shift_amount);
    let o = info.offset as u64;
    out.push((o & 0xff) as u8);
    out.push(((o >> 8u64) & 0xff) as u8);
    out.push(((o >> 16u64) & 0xff) as u8);
    out.push(((o >> 24u64) & 0xff) as u8);
    proof {
        assert(final(out)@ =~= old(out)@ + info_bytes(info));
    }
}

/// Reading back the stored bytes of lookup data gives the data.
pub proof fn lemma_info_round_trip(info: MagicInfo)
    requires
        info.offset < 0x1_0000_0000,
    ensures
        info_at(info_bytes(info), 0) == info,
{
    let b = info_bytes(info);
    lemma_le_round_trip(info.relevant_mask);
    lemma_le_round_trip(info.magic_number);
    assert(b.subrange(0, 8) =~= le_bytes(info.relevant_mask));
    assert(b.subrange(8, 16) =~= le_bytes(info.magic_number));
    assert(le_value(b, 0) == le_value(le_bytes(info.relevant_mask), 0));
    assert(le_value(b, 8) == le_value(le_bytes(info.magic_number), 0));
    let o = info.offset as u64;
    let o0 = (o & 0xff) as u8;
    let o1 = ((o >> 8u64) & 0xff) as u8;
    let o2 = ((o >> 16u64) & 0xff) as u8;
    let o3 = ((o >> 24u64) & 0xff) as u8;
    assert(b[17] == o0 && b[18] == o1 && b[19] == o2 && b[20] == o3);
    assert(((o0 as u32) | ((o1 as u32) << 8u32) | ((o2 as u32) << 16u32) | ((o3 as u32) << 24u32)) as u64
        == o) by (bit_vector)
        requires
            o < 0x1_0000_0000,
            o0 == (o & 0xff) as u8,
            o1 == ((o >> 8u64) & 0xff) as u8,
            o2 == ((o >> 16u64) & 0xff) as u8,
            o3 == ((o >> 24u64) & 0xff) as u8,
    ;
}

/// `b` holds, in the stored layout, the lookup data `rook` and `bishop` and the entries
/// `attacks`.
pub open spec fn stores(b: Seq<u8>, rook: Seq<MagicInfo>, bishop: Seq<MagicInfo>, attacks: Seq<u64>) -> bool {
    &&& b.len() == entry_pos(attacks.len() as int)
    &&& b.subrange(0, 9) == seq![64u8] + le_bytes(attacks.len() as u64)
    &&& forall|s: int| 0 <= s < 64 ==> b.subrange(info_pos(s), info_pos(s) + 21) == info_bytes(#[trigger] rook[s])
    &&& forall|s: int| 0 <= s < 64 ==> b.subrange(info_pos(64 + s), info_pos(64 + s) + 21) == info_bytes(#[trigger] bishop[s])
    &&& forall|k: int| 0 <= k < attacks.len() ==> b.subrange(entry_pos(k), entry_pos(k) + 8) == le_bytes(#[trigger] attacks[k])
}

/// Reading a number out of a window of bytes is reading it at the window's position.
proof fn lemma_le_window(b: Seq<u8>, p: int)
    requires
        0 <= p,
        p + 8 <= b.len(),
    ensures
        le_value(b, p) == le_value(b.subrange(p, p + 8), 0),
{
    let w = b.subrange(p, p + 8);
    assert(w[0] == b[p] && w[1] == b[p + 1] && w[2] == b[p + 2] && w[3] == b[p + 3] && w[4] == b[p + 4]
        && w[5] == b[p + 5] && w[6] == b[p + 6] && w[7] == b[p + 7]);
}

/// Reading lookup data out of a window of bytes is reading it at the window's position.
proof fn lemma_info_window(b: Seq<u8>, p: int)
    requires
        0 <= p,
        p + 21 <= b.len(),
    ensures
        info_at(b, p) == info_at(b.subrange(p, p + 21), 0),
{
    let w = b.subrange(p, p + 21);
    lemma_le_window(b, p);
    lemma_le_window(b, p + 8);
    lemma_le_window(w, 0);
    lemma_le_window(w, 8);
    assert(b.subrange(p, p + 8) =~= w.subrange(0, 8));
    assert(b.subrange(p + 8, p + 16) =~= w.subrange(8, 16));
    assert(w[16] == b[p + 16] && w[17] == b[p + 17] && w[18] == b[p + 18] && w[19] == b[p + 19] && w[20]
        == b[p + 20]);
}

/// Tables of the combined size written in the stored layout read back as the same tables, and
/// correct tables stay correct: loading what was saved gives back what was saved.
pub proof fn lemma_stored_round_trip(b: Seq<u8>, rook: Seq<MagicInfo>, bishop: Seq<MagicInfo>, attacks: Seq<u64>)
    requires
        rook.len() == 64,
        bishop.len() == 64,
        forall|s: int| 0 <= s < 64 ==> #[trigger] rook[s].offset < 0x1_0000_0000,
        forall|s: int| 0 <= s < 64 ==> #[trigger] bishop[s].offset < 0x1_0000_0000,
        attacks.len() == COMBINED_TABLE_SIZE,
        stores(b, rook, bishop, attacks),
    ensures
        layout_ok(b),
        stored_rook(b) == rook,
        stored_bishop(b) == bishop,
        stored_entries(b) == attacks,
        tables_ok(stored_rook(b), stored_bishop(b), stored_entries(b)) == tables_ok(rook, bishop, attacks),
{
    lemma_le_window(b, 1);
    assert(b.subrange(1, 9) =~= b.subrange(0, 9).subrange(1, 9));
    assert(b.subrange(0, 9).subrange(1, 9) =~= le_bytes(attacks.len() as u64));
    lemma_le_round_trip(attacks.len() as u64);
    assert(b[0] == b.subrange(0, 9)[0]);
    assert(le_value(b, 1) == attacks.len());
    assert forall|s: int| 0 <= s < 64 implies #[trigger] stored_rook(b)[s] == rook[s] by {
        lemma_info_window(b, info_pos(s));
        lemma_info_round_trip(rook[s]);
    }
    assert forall|s: int| 0 <= s < 64 implies #[trigger] stored_bishop(b)[s] == bishop[s] by {
        lemma_info_window(b, info_pos(64 + s));
        lemma_info_round_trip(bishop[s]);
    }
    assert forall|k: int| 0 <= k < attacks.len() implies #[trigger] stored_entries(b)[k] == attacks[k] by {
        lemma_le_window(b, entry_pos(k));
        lemma_le_round_trip(attacks[k]);
    }
    assert(stored_rook(b) =~= rook);
    assert(stored_bishop(b) =~= bishop);
    assert(stored_entries(b) =~= attacks);
}

impl MagicInfo {
    /// The 21 stored bytes of this data.
    pub fn to_bytes(&self) -> (r: Vec<u8>)
        requires
            self.offset < 0x1_0000_0000,
        ensures
            r@ == info_bytes(*self),
    {
        let mut out: Vec<u8> = Vec::new();
        push_info(&mut out, *self);
        proof {
            assert(out@ =~= info_bytes(*self));
        }
        out
    }

    /// The data stored in the 21 bytes `bytes`.
    pub fn from_bytes(bytes: &[u8]) -> (r: MagicInfo)
        requires
            bytes@.len() == 21,
        ensures
            r == info_at(bytes@, 0),
    {
        MagicInfo {
            relevant_mask: read_u64(bytes, 0),
            magic_number: read_u64(bytes, 8),
            right_shift_amount: bytes[16],
            offset: read_u32(bytes, 17) as usize,
        }
    }
}

impl MagicAttacks {
    /// The stored bytes of the tables: the header, the rook data, the bishop data and the
    /// entries.
    pub fn to_bytes(&self) -> (r: Vec<u8>)
        requires
            self.rook_magic_info_lookup@.len() == 64,
            self.bishop_magic_info_lookup@.len() == 64,
            forall|s: int| 0 <= s < 64 ==> #[trigger] self.rook_magic_info_lookup@[s].offset < 0x1_0000_0000,
            forall|s: int| 0 <= s < 64 ==> #[trigger] self.bishop_magic_info_lookup@[s].offset < 0x1_0000_0000,
        ensures
            stores(r@, self.rook_magic_info_lookup@, self.bishop_magic_info_lookup@, self.attacks@),
    {
        let mut out: Vec<u8> = Vec::new();
        out.push(64u8);
        push_u64(&mut out, self.attacks.len() as u64);
        let ghost header = out@;
        let mut s: usize = 0;
        while s < 128
            invariant
                self.rook_magic_info_lookup@.len() == 64,
                self.bishop_magic_info_lookup@.len() == 64,
                forall|t: int| 0 <= t < 64 ==> #[trigger] self.rook_magic_info_lookup@[t].offset < 0x1_0000_0000,
                forall|t: int| 0 <= t < 64 ==> #[trigger] self.bishop_magic_info_lookup@[t].offset < 0x1_0000_0000,
                s <= 128,
                out@.len() == info_pos(s as int),
                out@.subrange(0, 9) == header,
                forall|t: int| 0 <= t < s && t < 64 ==> out@.subrange(info_pos(t), info_pos(t) + 21) == info_bytes(#[trigger] self.rook_magic_info_lookup@[t]),
                forall|t: int| 64 <= t < s ==> out@.subrange(info_pos(t), info_pos(t) + 21) == info_bytes(#[trigger] self.bishop_magic_info_lookup@[t - 64]),
            decreases 128 - s,
        {
            let ghost before = out@;
            let info = if s < 64 {
                self.rook_magic_info_lookup[s]
            } else {
                self.bishop_magic_info_lookup[s - 64]
            };
            push_info(&mut out, info);
            proof {
                assert(out@.subrange(0, 9) =~= before.subrange(0, 9));
                assert forall|t: int| 0 <= t < s && t < 64 implies out@.subrange(info_pos(t), info_pos(t) + 21) == info_bytes(#[trigger] self.rook_magic_info_lookup@[t]) by {
                    assert(out@.subrange(info_pos(t), info_pos(t) + 21) =~= before.subrange(info_pos(t), info_pos(t) + 21));
                }
                assert forall|t: int| 64 <= t < s implies out@.subrange(info_pos(t), info_pos(t) + 21) == info_bytes(#[trigger] self.bishop_magic_info_lookup@[t - 64]) by {
                    assert(out@.subrange(info_pos(t), info_pos(t) + 21) =~= before.subrange(info_pos(t), info_pos(t) + 21));
                }
                assert(out@.subrange(info_pos(s as int), info_pos(s as int) + 21) =~= info_bytes(info));
            }
            s = s + 1;
        }
        let ghost infos = out@;
        let mut k: usize = 0;
        while k < self.attacks.len()
            invariant
                k <= self.attacks@.len(),
                out@.len() == entry_pos(k as int),
                out@.subrange(0, info_pos(128)) == infos.subrange(0, info_pos(128)),
                infos.len() == info_pos(128),
                forall|j: int| 0 <= j < k ==> out@.subrange(entry_pos(j), entry_pos(j) + 8) == le_bytes(#[trigger] self.attacks@[j]),
            decreases self.attacks@.len() - k,
        {
            let ghost before = out@;
            push_u64(&mut out, self.attacks[k]);
            proof {
                assert(out@.subrange(0, info_pos(128)) =~= before.subrange(0, info_pos(128)));
                assert forall|j: int| 0 <= j < k implies out@.subrange(entry_pos(j), entry_pos(j) + 8) == le_bytes(#[trigger] self.attacks@[j]) by {
                    assert(out@.subrange(entry_pos(j), entry_pos(j) + 8) =~= before.subrange(entry_pos(j), entry_pos(j) + 8));
                }
                assert(out@.subrange(entry_pos(k as int), entry_pos(k as int) + 8) =~= le_bytes(self.attacks@[k as int]));
            }
            k = k + 1;
        }
        proof {
            let prefix = out@.subrange(0, info_pos(128));
            assert(prefix =~= infos);
            assert forall|t: int| 0 <= t < 64 implies out@.subrange(info_pos(t), info_pos(t) + 21) == info_bytes(#[trigger] self.rook_magic_info_lookup@[t]) by {
                assert(out@.subrange(info_pos(t), info_pos(t) + 21) =~= prefix.subrange(info_pos(t), info_pos(t) + 21));
            }
            assert forall|t: int| 0 <= t < 64 implies out@.subrange(info_pos(64 + t), info_pos(64 + t) + 21) == info_bytes(#[trigger] self.bishop_magic_info_lookup@[t]) by {
                assert(out@.subrange(info_pos(64 + t), info_pos(64 + t) + 21) =~= prefix.subrange(info_pos(64 + t), info_pos(64 + t) + 21));
                assert(self.bishop_magic_info_lookup@[(64 + t) - 64] == self.bishop_magic_info_lookup@[t]);
            }
            assert(out@.subrange(0, 9) =~= prefix.subrange(0, 9));
        }
        out
    }

    /// Reads tables stored as `to_bytes` writes them. A file that ends too early gives
    /// `UnexpectedEof`; a wrong header or a table size other than the combined size gives
    /// `InvalidData`. The lookup data are taken as stored: `from_parts` checks them.
    pub fn from_bytes(bytes: &[u8]) -> (r: Result<MagicAttacks, MagicTableError>)
        ensures
            match r {
                Ok(m) => layout_ok(bytes@) && m.rook_magic_info_lookup@ == stored_rook(bytes@)
                    && m.bishop_magic_info_lookup@ == stored_bishop(bytes@) && m.attacks@ == stored_entries(
                    bytes@,
                ),
                Err(MagicTableError::UnexpectedEof) => bytes@.len() < 9 || (header_ok(bytes@) && bytes@.len()
                    < entry_pos(COMBINED_TABLE_SIZE as int)),
                Err(MagicTableError::InvalidData) => bytes@.len() >= 9 && !header_ok(bytes@),
            },
    {
        if bytes.len() < 9 {
            return Err(MagicTableError::UnexpectedEof);
        }
        let stored = read_u64(bytes, 1);
        if bytes[0] != 64 || stored != COMBINED_TABLE_SIZE as u64 {
            return Err(MagicTableError::InvalidData);
        }
        let n = COMBINED_TABLE_SIZE;
        if bytes.len() < 9 + 21 * 128 + 8 * n {
            return Err(MagicTableError::UnexpectedEof);
        }
        let ghost b = bytes@;
        let mut rook: Vec<MagicInfo> = Vec::new();
        let mut bishop: Vec<MagicInfo> = Vec::new();
        let mut s: usize = 0;
        while s < 64
            invariant
                b == bytes@,
                b.len() >= entry_pos(n as int),
                s <= 64,
                rook@.len() == s,
                bishop@.len() == s,
                forall|t: int| 0 <= t < s ==> #[trigger] rook@[t] == info_at(b, info_pos(t)),
                forall|t: int| 0 <= t < s ==> #[trigger] bishop@[t] == info_at(b, info_pos(64 + t)),
            decreases 64 - s,
        {
            let r_at = 9 + 21 * s;
            let b_at = 9 + 21 * (64 + s);
            rook.push(MagicInfo {
                relevant_mask: read_u64(bytes, r_at),
                magic_number: read_u64(bytes, r_at + 8),
                right_shift_amount: bytes[r_at + 16],
                offset: read_u32(bytes, r_at + 17) as usize,
            });
            bishop.push(MagicInfo {
                relevant_mask: read_u64(bytes, b_at),
                magic_number: read_u64(bytes, b_at + 8),
                right_shift_amount: bytes[b_at + 16],
                offset: read_u32(bytes, b_at + 17) as usize,
            });
            s = s + 1;
        }
        let mut attacks: Vec<u64> = Vec::new();
        let mut k: usize = 0;
        while k < n
            invariant
                b == bytes@,
                bytes@.len() <= usize::MAX,
                n == COMBINED_TABLE_SIZE,
                b.len() >= entry_pos(n as int),
                k <= n,
                attacks@.len() == k,
                forall|j: int| 0 <= j < k ==> #[trigger] attacks@[j] == le_value(b, entry_pos(j)),
            decreases n - k,
        {
            attacks.push(read_u64(bytes, 9 + 21 * 128 + 8 * k));
            k = k + 1;
        }
        proof {
            assert(layout_ok(b));
            assert(rook@ =~= stored_rook(b));
            assert(bishop@ =~= stored_bishop(b));
            assert(attacks@ =~= stored_entries(b));
        }
        Ok(MagicAttacks { rook_magic_info_lookup: rook, bishop_magic_info_lookup: bishop, attacks })
    }
}

} // verus!
