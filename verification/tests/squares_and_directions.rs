use bunnies::types::{File, KnightMoveDirection, QueenLikeMoveDirection, Rank, Square};
use bunnies::types::square::same_line;

fn knight_target(square: Square, direction: KnightMoveDirection) -> Option<Square> {
    match direction {
        KnightMoveDirection::TwoUpOneRight => square.up().and_then(|x| x.up_right()),
        KnightMoveDirection::TwoDownOneLeft => square.down().and_then(|x| x.down_left()),
        KnightMoveDirection::TwoRightOneUp => square.right().and_then(|x| x.up_right()),
        KnightMoveDirection::TwoLeftOneDown => square.left().and_then(|x| x.down_left()),
        KnightMoveDirection::TwoRightOneDown => square.right().and_then(|x| x.down_right()),
        KnightMoveDirection::TwoLeftOneUp => square.left().and_then(|x| x.up_left()),
        KnightMoveDirection::TwoDownOneRight => square.down().and_then(|x| x.down_right()),
        KnightMoveDirection::TwoUpOneLeft => square.up().and_then(|x| x.up_left()),
    }
}

#[test]
fn test_knight_move_direction() {
    for square in Square::ALL {
        for direction in KnightMoveDirection::ALL {
            if let Some(next_square) = knight_target(square, direction) {
                assert_eq!(KnightMoveDirection::calc(square, next_square), Some(direction));
                assert_eq!(KnightMoveDirection::lookup(square, next_square), Some(direction));
                assert_eq!(
                    KnightMoveDirection::lookup(next_square, square),
                    Some(direction.opposite())
                );
                assert_eq!(KnightMoveDirection::lookup(square, next_square).unwrap(), direction);
                assert_eq!(
                    KnightMoveDirection::lookup(next_square, square).unwrap(),
                    direction.opposite()
                );
                assert_eq!(QueenLikeMoveDirection::lookup(square, next_square), None);
            }
        }
    }
}

fn queen_step(square: Square, direction: QueenLikeMoveDirection) -> Option<Square> {
    match direction {
        QueenLikeMoveDirection::Up => square.up(),
        QueenLikeMoveDirection::Down => square.down(),
        QueenLikeMoveDirection::Right => square.right(),
        QueenLikeMoveDirection::Left => square.left(),
        QueenLikeMoveDirection::UpRight => square.up_right(),
        QueenLikeMoveDirection::DownLeft => square.down_left(),
        QueenLikeMoveDirection::DownRight => square.down_right(),
        QueenLikeMoveDirection::UpLeft => square.up_left(),
    }
}

#[test]
fn test_queen_move_direction() {
    for square in Square::ALL {
        for direction in QueenLikeMoveDirection::ALL {
            let mut current_square = square;
            let mut distance = 0u8;
            while let Some(next_square) = queen_step(current_square, direction) {
                distance += 1;
                let mut distance_found = 0u8;
                assert_eq!(
                    QueenLikeMoveDirection::calc(square, next_square, &mut distance_found),
                    direction
                );
                assert_eq!(distance, distance_found);
                assert_eq!(QueenLikeMoveDirection::lookup(square, next_square), Some(direction));
                assert_eq!(
                    QueenLikeMoveDirection::lookup(next_square, square),
                    Some(direction.opposite())
                );
                assert_eq!(QueenLikeMoveDirection::lookup(square, next_square).unwrap(), direction);
                assert_eq!(
                    QueenLikeMoveDirection::lookup(next_square, square).unwrap(),
                    direction.opposite()
                );
                assert_eq!(KnightMoveDirection::lookup(square, next_square), None);
                current_square = next_square;
            }
        }
    }
}

#[test]
fn test_square_values() {
    assert_eq!(Square::A8 as u8, 0);
    assert_eq!(Square::H8 as u8, 7);
    assert_eq!(Square::A1 as u8, 56);
    assert_eq!(Square::H1 as u8, 63);
    assert_eq!(Square::E4 as u8, 36);
    assert_eq!(Square::D5 as u8, 27);
}

#[test]
fn test_from_square_number() {
    assert_eq!(Square::from_index(0).unwrap(), Square::A8);
    assert_eq!(Square::from_index(7).unwrap(), Square::H8);
    assert_eq!(Square::from_index(56).unwrap(), Square::A1);
    assert_eq!(Square::from_index(63).unwrap(), Square::H1);
    assert_eq!(Square::from_index(36).unwrap(), Square::E4);
}

#[test]
fn test_same_line_matches_predicates() {
    for a in Square::ALL {
        for b in Square::ALL {
            assert_eq!(a.is_on_same_line_as(b), same_line(a, b));
            assert_eq!(a.is_diagonal_to(b), a.diagonals_mask() & b.mask() != 0);
        }
    }
}

#[test]
fn test_get_mask() {
    assert_eq!(Square::A8.mask(), 1u64 << 63);
    assert_eq!(Square::H1.mask(), 1u64);
    assert_eq!(Square::E4.mask(), 1u64 << 27);
}

#[test]
fn test_get_file_char() {
    assert_eq!(Square::A1.file_char(), 'a');
    assert_eq!(Square::H8.file_char(), 'h');
    assert_eq!(Square::E4.file_char(), 'e');
}

#[test]
fn test_get_rank_char() {
    assert_eq!(Square::A1.rank_char(), '1');
    assert_eq!(Square::H8.rank_char(), '8');
    assert_eq!(Square::E4.rank_char(), '4');
}

#[test]
fn test_readable() {
    assert_eq!(Square::A1.algebraic(), "a1");
    assert_eq!(Square::H8.algebraic(), "h8");
    assert_eq!(Square::E4.algebraic(), "e4");
}

#[test]
fn test_display() {
    assert_eq!(Square::A1.algebraic().to_string(), "a1");
    assert_eq!(Square::H8.algebraic().to_string(), "h8");
    assert_eq!(Square::E4.algebraic().to_string(), "e4");
}

#[test]
fn test_from_rank_and_file() {
    assert_eq!(Square::from_rank_and_file(Rank::Eight, File::A), Square::A8);
    assert_eq!(Square::from_rank_and_file(Rank::Eight, File::H), Square::H8);
    assert_eq!(Square::from_rank_and_file(Rank::One, File::A), Square::A1);
    assert_eq!(Square::from_rank_and_file(Rank::One, File::H), Square::H1);
    assert_eq!(Square::from_rank_and_file(Rank::Four, File::E), Square::E4);
}

#[test]
fn test_from_bitboard_single_bit() {
    assert_eq!(Square::from_bitboard(Square::E4.mask()), Some(Square::E4));
    assert_eq!(Square::from_bitboard(0), None);
    assert_eq!(Square::from_bitboard(3), None);
}

#[test]
fn test_rotated_perspective() {
    assert_eq!(Square::A8.rotated_perspective(), Square::H1);
    assert_eq!(Square::H8.rotated_perspective(), Square::A1);
    assert_eq!(Square::E4.rotated_perspective(), Square::D5);
    assert_eq!(Square::A1.rotated_perspective(), Square::H8);
}
