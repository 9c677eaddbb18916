use bunnies::fen::INITIAL_FEN;
use bunnies::pgn::error::PgnError;
use bunnies::pgn::metadata::{PgnComment, PgnMoveNumber, PgnTag};
use bunnies::pgn::move_info::PgnCommonMoveInfo;
use bunnies::pgn::moves::{PgnCastlingMove, PgnMove, PgnNonCastlingMove};
use bunnies::pgn::parser::PgnParser;
use bunnies::pgn::rendering_config::PgnRenderingConfig;
use bunnies::pgn::render::node_text;
use bunnies::pgn::tree::PgnMoveData;
use bunnies::position::state::PositionWithZobrist;
use bunnies::types::{Flank, Move, MoveFlag, Piece, Square};

fn plain_info() -> PgnCommonMoveInfo {
    PgnCommonMoveInfo { is_check: false, is_checkmate: false, annotation: None, nag: None }
}

#[test]
fn test_pgn_tag() {
    let tag = PgnTag::parse(" [Event \"F/S Return Match\"] ").unwrap();
    assert_eq!(tag.name, "Event");
    assert_eq!(tag.value, "F/S Return Match");
}

#[test]
fn test_pgn_tag_invalid() {
    let result = PgnTag::parse(" [Event \"F/S Return Match] ");
    assert!(result.is_err());
}

#[test]
fn test_comment() {
    let token = PgnComment::parse("{This is a comment}").unwrap();
    assert_eq!(token.comment, "This is a comment");
    let token = PgnComment::parse("{This is an invalid comment");
    assert!(token.is_err());
}

#[test]
fn test_parse_simple_move_number() {
    let move_number = PgnMoveNumber::parse("1.").unwrap();
    assert_eq!(move_number.fullmove_number, 1);
}

#[test]
fn test_parse_move_number_with_multiple_dots() {
    let move_number = PgnMoveNumber::parse("12...").unwrap();
    assert_eq!(move_number.fullmove_number, 12);
}

#[test]
fn test_parse_invalid_move_number_format() {
    let result = PgnMoveNumber::parse("a.");
    assert!(result.is_err());
    assert!(matches!(result, Err(PgnError::InvalidMoveNumber(_))));
}

#[test]
fn test_parse_pawn_move() {
    let move_data = PgnNonCastlingMove::parse("e4").unwrap();
    assert_eq!(move_data.piece_moved, Piece::Pawn);
    assert_eq!(move_data.to, Square::E4);
    assert_eq!(move_data.is_capture, false);
    assert_eq!(move_data.promoted_to, Piece::Null);
    assert_eq!(move_data.disambiguation_file, None);
    assert_eq!(move_data.disambiguation_rank, None);
}

#[test]
fn test_parse_piece_move() {
    let move_data = PgnNonCastlingMove::parse("Nf3").unwrap();
    assert_eq!(move_data.piece_moved, Piece::Knight);
    assert_eq!(move_data.to, Square::F3);
    assert_eq!(move_data.is_capture, false);
}

#[test]
fn test_parse_capture_move() {
    let move_data = PgnNonCastlingMove::parse("Bxe5").unwrap();
    assert_eq!(move_data.piece_moved, Piece::Bishop);
    assert_eq!(move_data.to, Square::E5);
    assert_eq!(move_data.is_capture, true);
}

#[test]
fn test_parse_pawn_capture() {
    let move_data = PgnNonCastlingMove::parse("exd5").unwrap();
    assert_eq!(move_data.piece_moved, Piece::Pawn);
    assert_eq!(move_data.to, Square::D5);
    assert_eq!(move_data.is_capture, true);
    assert_eq!(move_data.disambiguation_file, Some('e'));
}

#[test]
fn test_parse_promotion() {
    let move_data = PgnNonCastlingMove::parse("e8=Q").unwrap();
    assert_eq!(move_data.piece_moved, Piece::Pawn);
    assert_eq!(move_data.to, Square::E8);
    assert_eq!(move_data.promoted_to, Piece::Queen);
}

#[test]
fn test_parse_promotion_with_capture() {
    let move_data = PgnNonCastlingMove::parse("dxe8=Q+").unwrap();
    assert_eq!(move_data.piece_moved, Piece::Pawn);
    assert_eq!(move_data.to, Square::E8);
    assert_eq!(move_data.is_capture, true);
    assert_eq!(move_data.promoted_to, Piece::Queen);
    assert_eq!(move_data.common_move_info.is_check, true);
}

#[test]
fn test_parse_with_disambiguation_file() {
    let move_data = PgnNonCastlingMove::parse("Rfe1").unwrap();
    assert_eq!(move_data.piece_moved, Piece::Rook);
    assert_eq!(move_data.to, Square::E1);
    assert_eq!(move_data.disambiguation_file, Some('f'));
    assert_eq!(move_data.disambiguation_rank, None);
}

#[test]
fn test_parse_with_disambiguation_rank() {
    let move_data = PgnNonCastlingMove::parse("R2e1").unwrap();
    assert_eq!(move_data.piece_moved, Piece::Rook);
    assert_eq!(move_data.to, Square::E1);
    assert_eq!(move_data.disambiguation_file, None);
    assert_eq!(move_data.disambiguation_rank, Some('2'));
}

#[test]
fn test_parse_with_both_disambiguation() {
    let move_data = PgnNonCastlingMove::parse("Qd5e4").unwrap();
    assert_eq!(move_data.piece_moved, Piece::Queen);
    assert_eq!(move_data.to, Square::E4);
    assert_eq!(move_data.disambiguation_file, Some('d'));
    assert_eq!(move_data.disambiguation_rank, Some('5'));
}

#[test]
fn test_parse_with_check() {
    let move_data = PgnNonCastlingMove::parse("Qe4+").unwrap();
    assert_eq!(move_data.piece_moved, Piece::Queen);
    assert_eq!(move_data.to, Square::E4);
    assert_eq!(move_data.common_move_info.is_check, true);
    assert_eq!(move_data.common_move_info.is_checkmate, false);
}

#[test]
fn test_parse_with_checkmate() {
    let move_data = PgnNonCastlingMove::parse("Qe4#").unwrap();
    assert_eq!(move_data.piece_moved, Piece::Queen);
    assert_eq!(move_data.to, Square::E4);
    assert_eq!(move_data.common_move_info.is_check, true);
    assert_eq!(move_data.common_move_info.is_checkmate, true);
}

#[test]
fn test_parse_with_annotation() {
    let move_data = PgnNonCastlingMove::parse("Qe4!?").unwrap();
    assert_eq!(move_data.piece_moved, Piece::Queen);
    assert_eq!(move_data.to, Square::E4);
    assert_eq!(move_data.common_move_info.annotation, Some("!?".to_string()));
}

#[test]
fn test_parse_with_nag() {
    let move_data = PgnNonCastlingMove::parse("Qe4 $1").unwrap();
    assert_eq!(move_data.piece_moved, Piece::Queen);
    assert_eq!(move_data.to, Square::E4);
    assert_eq!(move_data.common_move_info.nag, Some(1));
}

#[test]
fn test_parse_complex_move() {
    let move_data = PgnNonCastlingMove::parse("Rd3xe3+!? $2").unwrap();
    assert_eq!(move_data.piece_moved, Piece::Rook);
    assert_eq!(move_data.to, Square::E3);
    assert_eq!(move_data.is_capture, true);
    assert_eq!(move_data.disambiguation_file, Some('d'));
    assert_eq!(move_data.disambiguation_rank, Some('3'));
    assert_eq!(move_data.common_move_info.is_check, true);
    assert_eq!(move_data.common_move_info.annotation, Some("!?".to_string()));
    assert_eq!(move_data.common_move_info.nag, Some(2));
}

#[test]
fn moves_test_matches_move() {
    let state = PositionWithZobrist::from_fen(
        "r1bqkbnr/ppp2ppp/2np4/4p3/2B1P3/5N2/PPPP1PPP/RNBQK2R w KQkq - 0 4",
    )
    .unwrap();
    let knight_move = PgnNonCastlingMove {
        piece_moved: Piece::Knight,
        disambiguation_file: None,
        disambiguation_rank: None,
        to: Square::D4,
        promoted_to: Piece::Null,
        is_capture: false,
        common_move_info: plain_info(),
    };
    let actual_move = Move::new_non_promotion(Square::F3, Square::D4, MoveFlag::NormalMove);
    assert!(knight_move.matches_move(actual_move, &state.board));
    let knight_move_with_file = {
        let mut knight_move = knight_move.clone();
        knight_move.disambiguation_file = Some('f');
        knight_move
    };
    assert!(knight_move_with_file.matches_move(actual_move, &state.board));
    let knight_move_with_wrong_file = {
        let mut knight_move = knight_move.clone();
        knight_move.disambiguation_file = Some('e');
        knight_move
    };
    assert!(!knight_move_with_wrong_file.matches_move(actual_move, &state.board));
}

#[test]
fn test_invalid_move() {
    let result = PgnNonCastlingMove::parse("Xx9");
    assert!(result.is_err());
}

fn check_castling(text: &str, flank: Flank, check: bool, mate: bool, annotation: Option<&str>, nag: Option<u8>) {
    let castling_move = PgnCastlingMove::parse(text).unwrap();
    assert_eq!(castling_move.flank, flank);
    assert_eq!(castling_move.get_common_move_info().is_check, check);
    assert_eq!(castling_move.get_common_move_info().is_checkmate, mate);
    assert_eq!(castling_move.get_common_move_info().annotation, annotation.map(|a| a.to_string()));
    assert_eq!(castling_move.get_common_move_info().nag, nag);
}

#[test]
fn moves_test_parse_kingside_castling_move() {
    check_castling("O-O", Flank::Kingside, false, false, None, None);
}

#[test]
fn moves_test_parse_queenside_castling_move() {
    check_castling("O-O-O", Flank::Queenside, false, false, None, None);
}

#[test]
fn moves_test_parse_kingside_castling_move_with_check() {
    check_castling("O-O+", Flank::Kingside, true, false, None, None);
}

#[test]
fn moves_test_parse_queenside_castling_move_with_checkmate() {
    check_castling("0-0-0#", Flank::Queenside, true, true, None, None);
}

#[test]
fn moves_test_parse_kingside_castling_move_with_annotation() {
    check_castling("O-O!?", Flank::Kingside, false, false, Some("!?"), None);
}

#[test]
fn moves_test_parse_queenside_castling_move_with_nag() {
    check_castling("O-O-O $1", Flank::Queenside, false, false, None, Some(1));
}

#[test]
fn moves_test_parse_kingside_castling_move_with_checkmate_and_nag() {
    check_castling("O-O# $1", Flank::Kingside, true, true, None, Some(1));
}

#[test]
fn moves_test_parse_invalid_castling_move() {
    assert!(PgnCastlingMove::parse("O-0").is_err());
}

#[test]
fn pgn_castling_move_test_parse_kingside_castling_move() {
    check_castling("O-O", Flank::Kingside, false, false, None, None);
}

#[test]
fn pgn_castling_move_test_parse_queenside_castling_move() {
    check_castling("O-O-O", Flank::Queenside, false, false, None, None);
}

#[test]
fn pgn_castling_move_test_parse_kingside_castling_move_with_check() {
    check_castling("O-O+", Flank::Kingside, true, false, None, None);
}

#[test]
fn pgn_castling_move_test_parse_queenside_castling_move_with_checkmate() {
    check_castling("0-0-0#", Flank::Queenside, true, true, None, None);
}

#[test]
fn pgn_castling_move_test_parse_kingside_castling_move_with_annotation() {
    check_castling("O-O!?", Flank::Kingside, false, false, Some("!?"), None);
}

#[test]
fn pgn_castling_move_test_parse_queenside_castling_move_with_nag() {
    check_castling("O-O-O $1", Flank::Queenside, false, false, None, Some(1));
}

#[test]
fn pgn_castling_move_test_parse_kingside_castling_move_with_checkmate_and_nag() {
    check_castling("O-O# $1", Flank::Kingside, true, true, None, Some(1));
}

#[test]
fn pgn_castling_move_test_parse_invalid_castling_move() {
    assert_eq!(PgnCastlingMove::parse("O-0").is_err(), true);
}

fn castling_matches(name: &str) {
    let castling_move = PgnCastlingMove { flank: Flank::Kingside, common_move_info: plain_info() };
    let state = PositionWithZobrist::from_fen(INITIAL_FEN).unwrap();
    let kingside = Move::new_non_promotion(Square::E8, Square::G8, MoveFlag::Castling);
    let queenside = Move::new_non_promotion(Square::E8, Square::C8, MoveFlag::Castling);
    assert!(castling_move.matches_move(kingside, &state.board), "{name}");
    assert!(!castling_move.matches_move(queenside, &state.board), "{name}");
}

#[test]
fn test_castling_matches_move() {
    castling_matches("moves");
}

#[test]
fn pgn_castling_move_test_matches_move() {
    castling_matches("pgn_castling_move");
}

#[test]
fn move_info_renders_marks() {
    let info = PgnCommonMoveInfo { is_check: true, is_checkmate: false, annotation: Some("!?".to_string()), nag: Some(14) };
    assert_eq!(info.render(true, true), "+!? $14");
    assert_eq!(info.render(false, false), "+");
    let tag = PgnTag { name: "Event".to_string(), value: "Casual".to_string() };
    assert_eq!(tag.render(), "[Event \"Casual\"]");
    assert_eq!(PgnMoveNumber { fullmove_number: 12 }.render(3), "12...");
    assert_eq!(PgnComment { comment: "hi".to_string() }.render(), "{hi}");
}

#[test]
fn rendering_config_builders() {
    let mut config = PgnRenderingConfig::no_markings();
    config.annotations(true).nags(true);
    assert!(config.include_annotations && config.include_nags && !config.include_comments);
    assert_eq!(PgnRenderingConfig::default(), PgnRenderingConfig::all_markings());
}

#[test]
fn parse_and_render_a_game_with_a_variation() {
    let text = "[Event \"Casual\"]\n[Site \"Home\"]\n1. e4 e5 2. Nf3 (2. Nc3 Nf6) 2... Nc6 3. Bb5 a6 *";
    let mut parser = PgnParser::new(text);
    parser.parse().unwrap();
    let rendered = parser.constructed_object.render(true, PgnRenderingConfig::all_markings());
    assert_eq!(
        rendered,
        "[Event \"Casual\"]\n[Site \"Home\"]\n1. e4 e5 2. Nf3 (2. Nc3 Nf6) 2... Nc6 3. Bb5 a6"
    );
    let main_line = parser.constructed_object.render(false, PgnRenderingConfig::all_markings());
    assert_eq!(main_line, "[Event \"Casual\"]\n[Site \"Home\"]\n1. e4 e5 2. Nf3 Nc6 3. Bb5 a6");
}

#[test]
fn parser_reports_errors() {
    let mut parser = PgnParser::new("1. e5");
    assert!(matches!(parser.parse(), Err(PgnError::IllegalMove(_))));
    let mut parser = PgnParser::new("1. e4 2. d4");
    assert!(matches!(parser.parse(), Err(PgnError::IncorrectMoveNumber(_))));
    let mut parser = PgnParser::new("1. e4 e5 Nf3");
    assert!(matches!(parser.parse(), Err(PgnError::UnexpectedToken(_))));
    let mut parser = PgnParser::new("2. e4");
    assert!(matches!(parser.parse(), Err(PgnError::IncorrectMoveNumber(_))));
    let mut parser = PgnParser::new("1. e4 (1. d4");
    assert!(matches!(parser.parse(), Err(PgnError::UnexpectedEndOfInput(_))));
    let mut parser = PgnParser::new("1. e4 e5 1.");
    assert!(matches!(parser.parse(), Err(PgnError::IncorrectMoveNumber(_))));
    let mut parser = PgnParser::new("1. Nf3 d5 2. Nc3 Nf6 3. Nb5 a6 4. Nbd4 *");
    assert!(parser.parse().is_ok());
    let mut parser = PgnParser::new("1. e4 % 2.");
    assert!(matches!(parser.parse(), Err(PgnError::InvalidToken(_))));
}

#[test]
fn render_disambiguates_and_marks_checks() {
    // the rival knights share neither file nor rank: the origin file tells them apart
    let mut parser = PgnParser::new("1. Nf3 d5 2. Nc3 Nf6 3. Nb5 a6 4. Nbd4 *");
    parser.parse().unwrap();
    let rendered = parser.constructed_object.render(true, PgnRenderingConfig::all_markings());
    assert_eq!(rendered, "1. Nf3 d5 2. Nc3 Nf6 3. Nb5 a6 4. Nbd4");
    // the rendered text reads back as the same game
    let mut again = PgnParser::new("1. Nf3 d5 2. Nc3 Nf6 3. Nb5 a6 4. Nbd4");
    again.parse().unwrap();
    assert_eq!(again.constructed_object.render(true, PgnRenderingConfig::all_markings()), rendered);
    // rivals on other files and ranks, or on the same rank: the origin file
    let mut parser = PgnParser::new("1. a4 h5 2. h4 a5 3. Ra3 Rh6 4. Rhh3 Raa6 5. Rhb3 *");
    parser.parse().unwrap();
    let rendered = parser.constructed_object.render(true, PgnRenderingConfig::all_markings());
    assert_eq!(rendered, "1. a4 h5 2. h4 a5 3. Ra3 Rh6 4. Rhh3 Raa6 5. Rhb3");
    let mut parser = PgnParser::new("1. e4 f5 2. Qh5+ g6 3. Qxg6+ hxg6 *");
    parser.parse().unwrap();
    let rendered = parser.constructed_object.render(true, PgnRenderingConfig::all_markings());
    assert_eq!(rendered, "1. e4 f5 2. Qh5+ g6 3. Qxg6+ hxg6");
    let mut parser = PgnParser::new("1. f3 e5 2. g4 Qh4# 0-1");
    parser.parse().unwrap();
    let rendered = parser.constructed_object.render(true, PgnRenderingConfig::all_markings());
    assert_eq!(rendered, "1. f3 e5 2. g4 Qh4#");
}

#[test]
fn parse_reports_the_error_where_reading_stops() {
    let mut parser = PgnParser::new("1. e4 (1. d4");
    assert!(matches!(parser.parse(), Err(PgnError::UnexpectedEndOfInput(_))));
    let mut parser = PgnParser::new("1. e4 e5 2.");
    assert!(matches!(parser.parse(), Err(PgnError::UnexpectedEndOfInput(_))));
    let mut parser = PgnParser::new("1. e4 e5");
    assert!(parser.parse().is_ok());
    // a move number that does not match the position
    let mut parser = PgnParser::new("1. e4 e5 3. Nf3");
    assert!(matches!(parser.parse(), Err(PgnError::IncorrectMoveNumber(_))));
    // a move that no legal move matches, and one that two legal moves match
    let mut parser = PgnParser::new("1. e5");
    assert!(matches!(parser.parse(), Err(PgnError::IllegalMove(_))));
    let mut parser = PgnParser::new("1. Nf3 d5 2. Nc3 Nf6 3. Nb5 a6 4. Nd4");
    assert!(matches!(parser.parse(), Err(PgnError::AmbiguousMove(_))));
    // the game read up to the failing token is kept
    assert_eq!(parser.constructed_object.render(false, PgnRenderingConfig::all_markings()), "1. Nf3 d5 2. Nc3 Nf6 3. Nb5 a6");
}

#[test]
fn render_writes_the_comment_after_its_move_and_leaves_out_variations() {
    let mut parser = PgnParser::new("1. e4 (1. d4) 1... e5");
    parser.parse().unwrap();
    // the parser reads comments without keeping them: give the node of e4 its comment
    let e4 = parser.constructed_object.tree_root.nodes[0].continuations[0];
    parser.constructed_object.tree_root.nodes[e4].comment = Some("best".to_string());
    assert_eq!(parser.constructed_object.render(false, PgnRenderingConfig::all_markings()), "1. e4 { best } e5");
    assert_eq!(parser.constructed_object.render(true, PgnRenderingConfig::all_markings()), "1. e4 { best } (1. d4) 1... e5");
}

#[test]
fn a_move_is_written_in_san_from_its_position() {
    let position = PositionWithZobrist::from_fen("r6r/8/8/8/8/8/8/4K2k b - - 0 1").unwrap();
    let d = PgnMoveData { move_: Move::new_non_promotion(Square::A8, Square::D8, MoveFlag::NormalMove), annotation: None, nag: None };
    let (text, after) = node_text(&position, &d, PgnRenderingConfig::all_markings());
    assert!(text.playable && after.is_some());
    assert_eq!(text.text, "Rad8");
    assert!(!text.white_moved);
    let position = PositionWithZobrist::from_fen("1n2k3/8/5n2/8/8/8/8/4K3 b - - 0 1").unwrap();
    let d = PgnMoveData { move_: Move::new_non_promotion(Square::B8, Square::D7, MoveFlag::NormalMove), annotation: None, nag: None };
    let (text, _) = node_text(&position, &d, PgnRenderingConfig::all_markings());
    assert_eq!(text.text, "Nbd7");
    // a move the position does not allow cannot be written
    let d = PgnMoveData { move_: Move::new_non_promotion(Square::B8, Square::D6, MoveFlag::NormalMove), annotation: None, nag: None };
    let (text, after) = node_text(&position, &d, PgnRenderingConfig::all_markings());
    assert!(!text.playable && after.is_none());
}
