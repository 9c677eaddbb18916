use std::collections::HashSet;

use bunnies::board::Board;
use bunnies::prng::Prng;
use bunnies::types::{CastlingRights, Color, DoublePawnPushFile, Piece, Square};
use bunnies::zobrist::{
    castling_rights_key, double_pawn_push_key, piece_square_key, side_to_move_key,
    CASTLING_RIGHTS_KEYS_START, DOUBLE_PAWN_PUSH_KEYS_START, NUM_CASTLING_RIGHTS_KEYS,
    NUM_DOUBLE_PAWN_PUSH_FILE_KEYS, NUM_PIECE_SQUARE_KEYS, NUM_RANDOMS, NUM_SIDE_TO_MOVE_KEYS,
    PIECE_SQUARE_KEYS_START, RANDOMS, RNG_SEED, SIDE_TO_MOVE_KEYS_START,
};

fn expected_randoms() -> Vec<u64> {
    let mut rng = Prng::new(RNG_SEED);
    let mut randoms = vec![0u64; NUM_RANDOMS];
    for slot in randoms.iter_mut() {
        *slot = rng.generate();
    }
    randoms
}

fn expected_piece_square_key(piece: Piece, square: Square) -> u64 {
    if piece == Piece::Pawn
        && ((Square::A1 as usize..=Square::H1 as usize).contains(&(square as usize))
            || (Square::A8 as usize..=Square::H8 as usize).contains(&(square as usize)))
    {
        0
    } else {
        RANDOMS[PIECE_SQUARE_KEYS_START + piece as usize * 64 + square as usize]
    }
}

#[test]
fn every_random_number_is_unique() {
    let mut seen = HashSet::with_capacity(NUM_RANDOMS);
    for (i, random) in RANDOMS.iter().copied().enumerate() {
        assert!(seen.insert(random), "duplicate random number at RANDOMS[{i}]: {random:#018x}");
    }
    assert_eq!(seen.len(), NUM_RANDOMS);
}

#[test]
fn randoms_are_generated_deterministically_from_seed() {
    let expected = expected_randoms();
    for i in 0..NUM_RANDOMS {
        assert_eq!(RANDOMS[i], expected[i], "RANDOMS[{i}] did not match deterministic PRNG output");
    }
}

#[test]
fn random_table_layout_is_correct() {
    assert_eq!(NUM_PIECE_SQUARE_KEYS, 64 * 12);
    assert_eq!(NUM_CASTLING_RIGHTS_KEYS, 16);
    assert_eq!(NUM_DOUBLE_PAWN_PUSH_FILE_KEYS, 8);
    assert_eq!(NUM_SIDE_TO_MOVE_KEYS, 1);
    assert_eq!(PIECE_SQUARE_KEYS_START, 0);
    assert_eq!(CASTLING_RIGHTS_KEYS_START, 64 * 12);
    assert_eq!(DOUBLE_PAWN_PUSH_KEYS_START, 64 * 12 + 16);
    assert_eq!(SIDE_TO_MOVE_KEYS_START, 64 * 12 + 16 + 8);
    assert_eq!(NUM_RANDOMS, 64 * 12 + 16 + 8 + 1);
}

#[test]
fn pawn_keys_are_zero_on_first_and_eighth_ranks() {
    for square in [
        Square::A1, Square::B1, Square::C1, Square::D1, Square::E1, Square::F1, Square::G1,
        Square::H1, Square::A8, Square::B8, Square::C8, Square::D8, Square::E8, Square::F8,
        Square::G8, Square::H8,
    ] {
        assert_eq!(piece_square_key(Piece::Pawn, square), 0, "pawn key on {square:?} should be zero");
    }
}

#[test]
fn piece_square_keys_match_expected_table_values() {
    for piece in Piece::ALL {
        for square in Square::ALL {
            assert_eq!(
                piece_square_key(piece, square),
                expected_piece_square_key(piece, square),
                "bad piece-square key for {piece:?} on {square:?}"
            );
        }
    }
}

#[test]
fn castling_rights_b1111_key_is_zero() {
    assert_eq!(castling_rights_key(CastlingRights::B1111), 0);
}

#[test]
fn castling_rights_keys_match_randoms_except_b1111() {
    for castling_rights in CastlingRights::ALL {
        let expected = if castling_rights == CastlingRights::B1111 {
            0
        } else {
            RANDOMS[CASTLING_RIGHTS_KEYS_START + castling_rights as usize]
        };
        assert_eq!(castling_rights_key(castling_rights), expected, "bad castling-rights key for {castling_rights:?}");
    }
}

#[test]
fn double_pawn_push_key_is_zero_for_negative_sentinel() {
    assert_eq!(double_pawn_push_key(-1), 0);
}

#[test]
fn double_pawn_push_keys_match_randoms_for_valid_files() {
    for file in 0..8 {
        let file = file as DoublePawnPushFile;
        assert_eq!(
            double_pawn_push_key(file),
            RANDOMS[DOUBLE_PAWN_PUSH_KEYS_START + file as usize],
            "bad double-pawn-push key for file {file}"
        );
    }
}

#[test]
fn side_to_move_key_is_zero_for_white_and_random_for_black() {
    assert_eq!(side_to_move_key(Color::White), 0);
    assert_eq!(side_to_move_key(Color::Black), RANDOMS[SIDE_TO_MOVE_KEYS_START]);
}

#[test]
fn calc_zobrist_hash_matches_manual_piece_square_xor() {
    let board = Board::initial();
    let mut expected = 0;
    for square in Square::ALL {
        expected ^= piece_square_key(board.piece_at(square), square);
    }
    assert_eq!(board.calc_zobrist_hash(), expected);
}

#[test]
fn prng_first_outputs_follow_xorshift_star() {
    let mut rng = Prng::new(1);
    let mut s: u64 = 1;
    for _ in 0..4 {
        s ^= s >> 12;
        s ^= s << 25;
        s ^= s >> 27;
        assert_eq!(rng.generate(), s.wrapping_mul(2685821657736338717));
    }
}
