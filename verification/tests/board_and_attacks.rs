use bunnies::attacks::magic::{magic_single_bishop_attacks, magic_single_rook_attacks, MagicAttacks, COMBINED_TABLE_SIZE};
use bunnies::attacks::magic_bytes::MagicTableError;
use bunnies::attacks::manual::{manual_single_bishop_attacks, manual_single_rook_attacks, multi_king_attacks, multi_knight_attacks};
use bunnies::attacks::precomputed::{precomputed_single_king_attacks, precomputed_single_knight_attacks};
use bunnies::attacks::relevant_mask::{calc_bishop_relevant_mask, calc_rook_relevant_mask, sliding_piece_relevant_mask};
use bunnies::board::Board;
use bunnies::types::{CastlingRights, Piece, Square};

/// Every subset of `mask` (Carry-Rippler enumeration).
fn subsets(mask: u64) -> Vec<u64> {
    let mut out = Vec::new();
    let mut occ = 0u64;
    loop {
        out.push(occ);
        occ = occ.wrapping_sub(mask) & mask;
        if occ == 0 {
            break;
        }
    }
    out
}

#[test]
fn magic_test_fill_magic_numbers_and_attacks() {
    let table = MagicAttacks::generate().expect("magic numbers found");
    for square in Square::ALL {
        let mask = sliding_piece_relevant_mask(Piece::Rook, square);
        for occupied_mask in subsets(mask) {
            assert_eq!(
                magic_single_rook_attacks(&table, square, occupied_mask),
                manual_single_rook_attacks(square, occupied_mask)
            );
        }
        let mask = sliding_piece_relevant_mask(Piece::Bishop, square);
        for occupied_mask in subsets(mask) {
            assert_eq!(
                magic_single_bishop_attacks(&table, square, occupied_mask),
                manual_single_bishop_attacks(square, occupied_mask)
            );
        }
    }
}

#[test]
fn magic_lookup_ignores_squares_outside_the_relevant_mask() {
    let table = MagicAttacks::generate().expect("magic numbers found");
    let occupied = 0x8100_0000_0000_0081u64 | Square::E7.mask() | Square::B4.mask();
    for square in Square::ALL {
        assert_eq!(
            table.single_rook_attacks(square, occupied),
            manual_single_rook_attacks(square, occupied)
        );
        assert_eq!(
            table.single_bishop_attacks(square, occupied),
            manual_single_bishop_attacks(square, occupied)
        );
    }
}

#[test]
fn relevant_masks_of_corner_and_centre_squares() {
    // a rook on a1 sees a2..a7 and b1..g1
    let a1 = calc_rook_relevant_mask(Square::A1);
    assert_eq!(a1.count_ones(), 12);
    assert!(a1 & Square::A8.mask() == 0 && a1 & Square::H1.mask() == 0);
    assert!(a1 & Square::A7.mask() != 0 && a1 & Square::G1.mask() != 0);
    // a rook on e4 sees 10 squares, a bishop on e4 9
    assert_eq!(calc_rook_relevant_mask(Square::E4).count_ones(), 10);
    assert_eq!(calc_bishop_relevant_mask(Square::E4).count_ones(), 9);
    assert_eq!(calc_bishop_relevant_mask(Square::A1).count_ones(), 6);
    assert_eq!(
        sliding_piece_relevant_mask(Piece::Queen, Square::E4),
        calc_rook_relevant_mask(Square::E4) | calc_bishop_relevant_mask(Square::E4)
    );
}

#[test]
fn initial_board_const_matches_runtime() {
    let initial = Board::initial();
    let pawn_mask = initial.piece_mask(Piece::Pawn);
    assert_eq!(initial, Board::initial());
    assert_eq!(initial.piece_at(Square::E1), Piece::King);
    assert_eq!(pawn_mask, initial.piece_mask(Piece::Pawn));
}

#[test]
fn castling_rights_castling_rights_one_byte() {
    assert_eq!(std::mem::size_of::<CastlingRights>(), 1);
}

#[test]
fn test_single_king_attacks() {
    for square in Square::ALL {
        assert_eq!(precomputed_single_king_attacks(square), multi_king_attacks(square.mask()));
    }
}

#[test]
fn test_single_knight_attacks() {
    for square in Square::ALL {
        assert_eq!(precomputed_single_knight_attacks(square), multi_knight_attacks(square.mask()));
    }
}

#[test]
fn magic_tables_survive_storing_and_loading() {
    let table = MagicAttacks::generate().expect("magic numbers found");
    let bytes = table.to_bytes();
    assert_eq!(bytes[0], 64);
    let loaded = MagicAttacks::from_bytes(&bytes).expect("stored tables load back");
    assert_eq!(loaded.attacks, table.attacks);
    assert_eq!(loaded.rook_magic_info_lookup, table.rook_magic_info_lookup);
    assert_eq!(loaded.bishop_magic_info_lookup, table.bishop_magic_info_lookup);
    // damaged lookup data is refused
    let mut damaged = bytes.clone();
    damaged[9] ^= 0x40;
    // lookup data that would give wrong attacks are read as stored, and refused by the check
    let read = MagicAttacks::from_bytes(&damaged).expect("the layout is right");
    assert_ne!(read.rook_magic_info_lookup, table.rook_magic_info_lookup);
    assert!(MagicAttacks::from_parts(read.rook_magic_info_lookup, read.bishop_magic_info_lookup, read.attacks).is_none());
    let checked = MagicAttacks::from_parts(
        loaded.rook_magic_info_lookup.clone(),
        loaded.bishop_magic_info_lookup.clone(),
        loaded.attacks.clone(),
    );
    assert!(checked.is_some());
    // a file cut short ends too early, in the header or after it
    assert_eq!(MagicAttacks::from_bytes(&bytes[..5]).err(), Some(MagicTableError::UnexpectedEof));
    assert_eq!(MagicAttacks::from_bytes(&bytes[..100]).err(), Some(MagicTableError::UnexpectedEof));
    // a wrong leading byte or a table size other than the combined size is refused
    let mut wrong_tag = bytes.clone();
    wrong_tag[0] = 63;
    assert_eq!(MagicAttacks::from_bytes(&wrong_tag).err(), Some(MagicTableError::InvalidData));
    let mut wrong_size = bytes.clone();
    wrong_size[1] ^= 1;
    assert_eq!(MagicAttacks::from_bytes(&wrong_size).err(), Some(MagicTableError::InvalidData));
    // bytes after the stored data are not read
    let mut longer = bytes.clone();
    longer.push(7);
    assert!(MagicAttacks::from_bytes(&longer).is_ok());
}

#[test]
fn generated_table_has_the_combined_size() {
    let table = MagicAttacks::generate().expect("magic numbers found");
    assert_eq!(table.attacks.len(), COMBINED_TABLE_SIZE);
    assert_eq!(table.to_bytes().len(), 9 + 21 * 128 + 8 * COMBINED_TABLE_SIZE);
}
