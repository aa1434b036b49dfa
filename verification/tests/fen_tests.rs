use chess_core::board::BoardState;
use chess_core::board::Color;
use chess_core::board::Piece;
use chess_core::board::PieceKind;
use chess_core::coord::Square;
use chess_core::fen::ParseFenError;

const START_FEN: &str = "rnbqkbnr/pppppppp/8/8/8/8/PPPPPPPP/RNBQKBNR w KQkq - 0 1";

fn positions_equal(a: &BoardState, b: &BoardState) -> bool {
    a.board == b.board
        && a.turn == b.turn
        && a.castling_rights == b.castling_rights
        && a.en_passant == b.en_passant
        && a.halfmove_clock == b.halfmove_clock
        && a.fullmoves == b.fullmoves
}

#[test]
fn starting_position_exports_to_standard_fen() {
    assert_eq!(BoardState::new().export_to_fen(), START_FEN);
}

#[test]
fn parse_export_round_trip_start() {
    let start = BoardState::new();
    let parsed = BoardState::parse_fen(&start.export_to_fen()).ok().unwrap();
    assert!(positions_equal(&start, &parsed));
}

#[test]
fn parse_export_round_trip_mid_game() {
    let text = "r3k2r/pp3ppp/8/4p3/4P3/8/PP3PPP/R3K2R b Kq e3 12 34";
    let pos = BoardState::parse_fen(text).ok().unwrap();
    assert_eq!(pos.turn, Color::Black);
    assert_eq!(pos.en_passant, Some(Square(5, 4)));
    assert_eq!(pos.halfmove_clock, 12);
    assert_eq!(pos.fullmoves, 34);
    assert_eq!(pos.export_to_fen(), text);
    let again = BoardState::parse_fen(&pos.export_to_fen()).ok().unwrap();
    assert!(positions_equal(&pos, &again));
}

#[test]
fn parse_reads_board_cells_canonically() {
    let pos = BoardState::parse_fen(START_FEN).ok().unwrap();
    assert_eq!(
        pos.piece_at(Square(0, 0)),
        Piece::Occupied(PieceKind::Rook, Color::Black)
    );
    assert_eq!(
        pos.piece_at(Square(7, 4)),
        Piece::Occupied(PieceKind::King, Color::White)
    );
    assert_eq!(
        pos.piece_at(Square(6, 3)),
        Piece::Occupied(PieceKind::Pawn, Color::White)
    );
    assert_eq!(pos.piece_at(Square(4, 4)), Piece::Empty);
}

#[test]
fn parse_accepts_extra_whitespace_and_uppercase_turn() {
    let pos = BoardState::parse_fen("  8/8/8/8/8/8/8/8   W  -  -  0  1  ").ok().unwrap();
    assert_eq!(pos.turn, Color::White);
    let pos = BoardState::parse_fen("8/8/8/8/8/8/8/8 B - - 0 1").ok().unwrap();
    assert_eq!(pos.turn, Color::Black);
}

#[test]
fn parse_rejects_wrong_field_count() {
    assert_eq!(
        BoardState::parse_fen("8/8/8/8/8/8/8/8 w - - 0").err().unwrap(),
        ParseFenError::BoardInvalid
    );
    assert_eq!(
        BoardState::parse_fen("8/8/8/8/8/8/8/8 w - - 0 1 extra").err().unwrap(),
        ParseFenError::BoardInvalid
    );
    assert_eq!(
        BoardState::parse_fen("").err().unwrap(),
        ParseFenError::BoardInvalid
    );
}

#[test]
fn parse_rejects_malformed_board() {
    assert_eq!(
        BoardState::parse_fen("8/8/8/8/8/8/8 w - - 0 1").err().unwrap(),
        ParseFenError::BoardInvalid
    );
    assert_eq!(
        BoardState::parse_fen("7/8/8/8/8/8/8/8 w - - 0 1").err().unwrap(),
        ParseFenError::BoardInvalid
    );
    assert_eq!(
        BoardState::parse_fen("9/8/8/8/8/8/8/8 w - - 0 1").err().unwrap(),
        ParseFenError::BoardInvalid
    );
    assert_eq!(
        BoardState::parse_fen("x7/8/8/8/8/8/8/8 w - - 0 1").err().unwrap(),
        ParseFenError::BoardInvalid
    );
    assert_eq!(
        BoardState::parse_fen("ppppppppp/8/8/8/8/8/8/8 w - - 0 1").err().unwrap(),
        ParseFenError::BoardInvalid
    );
}

#[test]
fn parse_rejects_bad_turn() {
    assert_eq!(
        BoardState::parse_fen("8/8/8/8/8/8/8/8 x - - 0 1").err().unwrap(),
        ParseFenError::TurnInvalid
    );
    assert_eq!(
        BoardState::parse_fen("8/8/8/8/8/8/8/8 ww - - 0 1").err().unwrap(),
        ParseFenError::TurnInvalid
    );
}

#[test]
fn parse_rejects_bad_en_passant() {
    assert_eq!(
        BoardState::parse_fen("8/8/8/8/8/8/8/8 w - zz 0 1").err().unwrap(),
        ParseFenError::EnPassantInvalid
    );
    // A real square, but not on the third rank from either back rank.
    assert_eq!(
        BoardState::parse_fen("8/8/8/8/8/8/8/8 w - e4 0 1").err().unwrap(),
        ParseFenError::EnPassantInvalid
    );
}

#[test]
fn parse_accepts_en_passant_targets() {
    let pos = BoardState::parse_fen("8/8/8/8/8/8/8/8 w - e3 0 1").ok().unwrap();
    assert_eq!(pos.en_passant, Some(Square(5, 4)));
    let pos = BoardState::parse_fen("8/8/8/8/8/8/8/8 w - A6 0 1").ok().unwrap();
    assert_eq!(pos.en_passant, Some(Square(2, 0)));
    assert!(pos.export_to_fen().contains(" a6 "));
}

#[test]
fn parse_rejects_bad_clocks() {
    assert_eq!(
        BoardState::parse_fen("8/8/8/8/8/8/8/8 w - - x 1").err().unwrap(),
        ParseFenError::ClockInvalid
    );
    assert_eq!(
        BoardState::parse_fen("8/8/8/8/8/8/8/8 w - - 0 -1").err().unwrap(),
        ParseFenError::ClockInvalid
    );
    assert_eq!(
        BoardState::parse_fen("8/8/8/8/8/8/8/8 w - - 99999999999999999999 1").err().unwrap(),
        ParseFenError::ClockInvalid
    );
    assert_eq!(
        BoardState::parse_fen("8/8/8/8/8/8/8/8 w - - 4294967295 1").ok().unwrap().halfmove_clock,
        u32::MAX
    );
}

#[test]
fn parse_castling_field_variants() {
    let pos = BoardState::parse_fen("8/8/8/8/8/8/8/8 w KQkq - 0 1").ok().unwrap();
    assert!(pos.castling_rights.white_kingside);
    assert!(pos.castling_rights.white_queenside);
    assert!(pos.castling_rights.black_kingside);
    assert!(pos.castling_rights.black_queenside);
    let pos = BoardState::parse_fen("8/8/8/8/8/8/8/8 w Kq - 0 1").ok().unwrap();
    assert!(pos.castling_rights.white_kingside);
    assert!(!pos.castling_rights.white_queenside);
    assert!(!pos.castling_rights.black_kingside);
    assert!(pos.castling_rights.black_queenside);
    let pos = BoardState::parse_fen("8/8/8/8/8/8/8/8 w - - 0 1").ok().unwrap();
    assert!(!pos.castling_rights.white_kingside);
    assert!(!pos.castling_rights.white_queenside);
    assert!(!pos.castling_rights.black_kingside);
    assert!(!pos.castling_rights.black_queenside);
    assert!(pos.export_to_fen().contains(" - "));
}

#[test]
fn export_collapses_empty_runs_maximally() {
    let pos = BoardState::parse_fen("8/8/8/8/3p4/8/8/8 w - - 0 1").ok().unwrap();
    assert_eq!(pos.export_to_fen(), "8/8/8/8/3p4/8/8/8 w - - 0 1");
    let pos = BoardState::parse_fen("44/8/8/8/8/8/8/8 w - - 0 1").ok().unwrap();
    assert_eq!(pos.export_to_fen(), "8/8/8/8/8/8/8/8 w - - 0 1");
}
