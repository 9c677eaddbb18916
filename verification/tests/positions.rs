use bunnies::fen::{FenParseError, INITIAL_FEN};
use bunnies::game_state::{GameState, Ongoing, TerminalReason};
use bunnies::position::state::{Position, PositionWithZobrist, PositionWithoutZobrist, WithZobrist, WithoutZobrist};
use bunnies::position::typed_position::TypedPosition;
use bunnies::types::{Color, Move, MoveFlag, MoveList, Piece, Square};

#[test]
fn position_test_initial_state() {
    let state = PositionWithZobrist::initial();
    assert_eq!(state.halfmove, 0);
    assert_eq!(state.get_fullmove(), 1);
}

#[test]
fn position_test_get_fullmove() {
    let mut state = PositionWithZobrist::initial();
    assert_eq!(state.get_fullmove(), 1);
    state.halfmove = 1;
    assert_eq!(state.get_fullmove(), 1);
    state.halfmove = 2;
    assert_eq!(state.get_fullmove(), 2);
    state.halfmove = 3;
    assert_eq!(state.get_fullmove(), 2);
    state.halfmove = 10;
    assert_eq!(state.get_fullmove(), 6);
}

fn assert_hash_consistency_after_plies(pos: &mut PositionWithZobrist, plies: u32) {
    assert!(pos.is_zobrist_consistent(), "zobrist mismatch with {plies} plies to go");
    if plies == 0 {
        return;
    }
    let mut moves = MoveList::new();
    pos.generate_moves(&mut moves);
    let mv = *moves.as_slice().first().expect("at least one legal move");
    pos.make_move(mv);
    assert_hash_consistency_after_plies(pos, plies - 1);
    pos.unmake_move(mv);
    assert!(pos.is_zobrist_consistent());
}

#[test]
fn with_zobrist_hash_remains_consistent_through_recursive_make_unmake() {
    let mut pos = PositionWithZobrist::initial();
    assert_hash_consistency_after_plies(&mut pos, 5);
}

#[test]
fn without_zobrist_make_unmake_round_trip() {
    let mut pos = PositionWithoutZobrist::initial();
    let baseline = pos.clone();
    let mut moves = MoveList::new();
    pos.generate_moves(&mut moves);
    let mv = *moves.as_slice().first().expect("at least one legal move");
    pos.make_move(mv);
    pos.unmake_move(mv);
    assert_eq!(pos, baseline);
    assert!(pos.is_zobrist_consistent());
}

#[test]
fn make_unmake_restores_every_position_reached_in_two_plies() {
    let mut pos = PositionWithZobrist::initial();
    let baseline = pos.clone();
    let mut moves = MoveList::new();
    pos.generate_moves(&mut moves);
    for &mv in moves.as_slice() {
        pos.make_move(mv);
        assert_eq!(pos.side_to_move(), Color::Black);
        let mut replies = MoveList::new();
        pos.generate_moves(&mut replies);
        for &reply in replies.as_slice() {
            let before = pos.clone();
            pos.make_move(reply);
            assert!(pos.is_zobrist_consistent());
            pos.unmake_move(reply);
            assert_eq!(pos, before);
        }
        pos.unmake_move(mv);
        assert_eq!(pos, baseline);
    }
}

#[test]
fn perft_of_the_initial_position() {
    let mut pos = PositionWithZobrist::initial();
    assert_eq!(pos.perft(0), 1);
    assert_eq!(pos.perft(1), 20);
    assert_eq!(pos.perft(2), 400);
    assert_eq!(pos.perft(3), 8902);
    assert_eq!(pos, PositionWithZobrist::initial());
}

#[test]
fn perft_of_kiwipete() {
    let mut pos = PositionWithoutZobrist::from_fen(
        "r3k2r/p1ppqpb1/bn2pnp1/3PN3/1p2P3/2N2Q1p/PPPBBPPP/R3K2R w KQkq - 0 1",
    )
    .unwrap();
    assert_eq!(pos.perft(1), 48);
    assert_eq!(pos.perft(2), 2039);
}

#[test]
fn fen_round_values() {
    let pos = PositionWithZobrist::from_fen(INITIAL_FEN).unwrap();
    assert_eq!(pos.board, PositionWithZobrist::initial().board);
    assert_eq!(pos.side_to_move(), Color::White);
    assert!(pos.is_zobrist_consistent());
    let pos = PositionWithZobrist::from_fen("8/8/8/8/8/8/8/K6k b - - 12 40").unwrap();
    assert_eq!(pos.side_to_move(), Color::Black);
    assert_eq!(pos.context().halfmove_clock, 12);
    assert_eq!(pos.get_fullmove(), 40);
}

#[test]
fn fen_errors() {
    assert_eq!(PositionWithZobrist::from_fen("8/8/8 w - - 0 1").unwrap_err(), FenParseError::InvalidPlacement);
    assert_eq!(PositionWithZobrist::from_fen("8/8/8/8/8/8/8/K6k w - -").unwrap_err(), FenParseError::InvalidFieldCount);
    assert_eq!(PositionWithZobrist::from_fen("8/8/8/8/8/8/8/K6k x - - 0 1").unwrap_err(), FenParseError::InvalidSideToMove);
    assert_eq!(PositionWithZobrist::from_fen("8/8/8/8/8/8/8/K6k w Z - 0 1").unwrap_err(), FenParseError::InvalidCastlingRights);
    assert_eq!(PositionWithZobrist::from_fen("8/8/8/8/8/8/8/K6k w - e9 0 1").unwrap_err(), FenParseError::InvalidEnPassant);
    assert_eq!(PositionWithZobrist::from_fen("8/8/8/8/8/8/8/K6k w - - 300 1").unwrap_err(), FenParseError::InvalidHalfmoveClock);
    assert_eq!(PositionWithZobrist::from_fen("8/8/8/8/8/8/8/K6k w - - 0 x").unwrap_err(), FenParseError::InvalidFullmoveNumber);
    assert_eq!(PositionWithZobrist::from_fen("8/8/8/8/8/8/8/K6K w - - 0 1").unwrap_err(), FenParseError::InvalidKings);
}

#[test]
fn typed_position_follows_the_side_to_move() {
    let t = TypedPosition::<WithZobrist>::from_fen("8/8/8/8/8/8/8/K6k b - - 0 1").unwrap();
    assert!(matches!(t, TypedPosition::Black(_)));
    let halfmove = t.with_ref(|p| p.halfmove, |p| p.halfmove + 1000);
    assert_eq!(halfmove, 1001);
    let mut t = t;
    t.with_mut(|p| p.halfmove = 5, |p| p.halfmove = 7);
    let inner = t.into_inner(|p| p.halfmove, |p| p.halfmove + 100);
    assert_eq!(inner, 107);
}

fn sq(s: Square) -> Square {
    s
}

#[test]
fn fools_mate_is_checkmate() {
    let game = Ongoing::new(PositionWithZobrist::initial());
    let game = game.play_unchecked(Move::new_non_promotion(sq(Square::F2), Square::F3, MoveFlag::NormalMove));
    let game = game.play_unchecked(Move::new_non_promotion(Square::E7, Square::E5, MoveFlag::NormalMove));
    let game = game.play_unchecked(Move::new_non_promotion(Square::G2, Square::G4, MoveFlag::NormalMove));
    match game.play_and_classify(Move::new_non_promotion(Square::D8, Square::H4, MoveFlag::NormalMove)) {
        GameState::Terminal(t) => {
            assert_eq!(t.reason(), TerminalReason::Checkmate);
            assert_eq!(t.position().side_to_move(), Color::White);
        }
        GameState::Ongoing(_) => panic!("expected checkmate"),
    }
}

#[test]
fn ongoing_game_and_legal_moves() {
    let game = Ongoing::new(PositionWithoutZobrist::initial());
    let mut moves = MoveList::new();
    game.legal_moves(&mut moves);
    assert_eq!(moves.len(), 20);
    match game.play_and_classify(Move::new_non_promotion(Square::E2, Square::E4, MoveFlag::NormalMove)) {
        GameState::Ongoing(o) => assert_eq!(o.position().halfmove, 1),
        GameState::Terminal(_) => panic!("the game goes on"),
    }
}

#[test]
fn stalemate_and_insufficient_material() {
    // Black to move, stalemated by the queen on c7 (after Qb6-c7 is played from b6)
    let pos = PositionWithZobrist::from_fen("k7/8/1Q6/8/8/8/8/7K w - - 0 1").unwrap();
    let state = Ongoing::new(pos)
        .play_and_classify(Move::new_non_promotion(Square::B6, Square::C7, MoveFlag::NormalMove));
    assert!(matches!(state, GameState::Terminal(ref t) if t.reason() == TerminalReason::Stalemate));
    let pos = PositionWithZobrist::from_fen("k7/8/8/8/8/8/8/6NK w - - 0 1").unwrap();
    assert!(pos.is_insufficient_material::<false>());
    let state = Ongoing::new(pos)
        .play_and_classify(Move::new_non_promotion(Square::G1, Square::F3, MoveFlag::NormalMove));
    assert!(matches!(state, GameState::Terminal(ref t) if t.reason() == TerminalReason::InsufficientMaterial));
    let pos = PositionWithZobrist::from_fen("k7/8/8/8/8/8/8/R6K w - - 99 80").unwrap();
    let state = Ongoing::new(pos)
        .play_and_classify(Move::new_non_promotion(Square::A1, Square::B1, MoveFlag::NormalMove));
    assert!(matches!(state, GameState::Terminal(ref t) if t.reason() == TerminalReason::FiftyMoveRule));
}

#[test]
fn san_rendering() {
    let m = Move::new_non_promotion(Square::G1, Square::F3, MoveFlag::NormalMove);
    assert_eq!(m.san(Piece::Knight, "", false, false, false), "Nf3");
    let m = Move::new_non_promotion(Square::E4, Square::D5, MoveFlag::NormalMove);
    assert_eq!(m.san(Piece::Pawn, "", true, false, true), "exd5+");
    let m = Move::new_non_promotion(Square::E1, Square::G1, MoveFlag::Castling);
    assert_eq!(m.san(Piece::King, "", false, false, false), "O-O");
    let m = Move::new_non_promotion(Square::E8, Square::C8, MoveFlag::Castling);
    assert_eq!(m.san(Piece::King, "", false, true, false), "O-O-O#");
    let m = Move::new_promotion(Square::D7, Square::E8, Piece::Queen);
    assert_eq!(m.san(Piece::Pawn, "", true, false, true), "dxe8=Q+");
    let m = Move::new_non_promotion(Square::D3, Square::E3, MoveFlag::NormalMove);
    assert_eq!(m.san(Piece::Rook, "d3", false, false, true), "Rd3xe3");
}

#[test]
fn mut_context_changes_the_current_context() {
    let mut pos: Position<WithoutZobrist> = Position::initial();
    pos.mut_context().halfmove_clock = 42;
    assert_eq!(pos.context().halfmove_clock, 42);
    assert_eq!(pos.num_contexts(), 1);
}

#[test]
fn en_passant_that_exposes_the_king_along_its_rank_is_not_generated() {
    let pos = PositionWithoutZobrist::from_fen("8/8/8/KPp4r/8/8/8/k7 w - c6 0 1").unwrap();
    let mut moves = MoveList::new();
    pos.generate_moves(&mut moves);
    assert_eq!(moves.len(), 4);
    for i in 0..moves.len() {
        assert!(moves.get(i).flag() != MoveFlag::EnPassant);
    }
}

#[test]
fn pinned_rook_moves_only_along_its_pin_line() {
    let pos = PositionWithoutZobrist::from_fen("4r3/8/8/8/4R3/8/8/4K2k w - - 0 1").unwrap();
    let mut moves = MoveList::new();
    pos.generate_moves(&mut moves);
    assert_eq!(moves.len(), 11);
    for i in 0..moves.len() {
        if moves.get(i).from() == Square::E4 {
            assert_eq!(moves.get(i).to().file(), Square::E4.file());
        }
    }
}

fn check_generated_moves_are_legal_distinct_and_counted(fen: &str, expected: usize) {
    let pos = PositionWithoutZobrist::from_fen(fen).unwrap();
    let mut moves = MoveList::new();
    pos.generate_moves(&mut moves);
    assert_eq!(moves.len(), expected, "{fen}");
    assert_eq!(pos.count_legal_moves() as usize, expected, "{fen}");
    for i in 0..moves.len() {
        for j in (i + 1)..moves.len() {
            assert!(moves.get(i) != moves.get(j), "{fen}: a move is generated twice");
        }
    }
    let mover = pos.side_to_move();
    for i in 0..moves.len() {
        let mut after = pos.duplicate();
        after.make_move(moves.get(i));
        let king = after.king_square(mover);
        assert!(
            !after.board.is_square_attacked(king, mover.other()),
            "{fen}: a generated move leaves the king attacked"
        );
    }
}

#[test]
fn generated_moves_are_legal_distinct_and_counted() {
    check_generated_moves_are_legal_distinct_and_counted(INITIAL_FEN, 20);
    check_generated_moves_are_legal_distinct_and_counted(
        "r3k2r/p1ppqpb1/bn2pnp1/3PN3/1p2P3/2N2Q1p/PPPBBPPP/R3K2R w KQkq - 0 1",
        48,
    );
    check_generated_moves_are_legal_distinct_and_counted("8/2p5/3p4/KP5r/1R3p1k/8/4P1P1/8 w - - 0 1", 14);
    check_generated_moves_are_legal_distinct_and_counted(
        "r3k2r/Pppp1ppp/1b3nbN/nP6/BBP1P3/q4N2/Pp1P2PP/R2Q1RK1 w kq - 0 1",
        6,
    );
    check_generated_moves_are_legal_distinct_and_counted(
        "rnbq1k1r/pp1Pbppp/2p5/8/2B5/8/PPP1NnPP/RNBQK2R w KQ - 1 8",
        44,
    );
}

#[test]
fn castling_counts_toward_the_halfmove_clock() {
    let pos = PositionWithoutZobrist::from_fen("r3k2r/8/8/8/8/8/8/R3K2R w KQkq - 5 10").unwrap();
    let mut moves = MoveList::new();
    pos.generate_moves(&mut moves);
    let mut castlings = 0;
    for i in 0..moves.len() {
        let m = moves.get(i);
        if m.flag() == MoveFlag::Castling {
            castlings += 1;
            let mut after = pos.duplicate();
            after.make_move(m);
            assert_eq!(after.context().halfmove_clock, 6);
            after.unmake_move(m);
            assert_eq!(after.context().halfmove_clock, 5);
        }
    }
    assert_eq!(castlings, 2);
}
