use chess_core::board::BoardState;
use chess_core::board::Castling;
use chess_core::board::Color;
use chess_core::board::Piece;
use chess_core::coord::RelMov;
use chess_core::coord::Square;
use chess_core::rules::Move;
use chess_core::rules::MoveResult;

fn from_fen(text: &str) -> BoardState {
    BoardState::parse_fen(text).ok().unwrap()
}

#[test]
fn resignation_always_awards_the_opponent() {
    let start = BoardState::new();
    assert_eq!(
        start.validate_move(Move::Surrender(Color::White), Color::White),
        MoveResult::BlackWin
    );
    assert_eq!(
        start.validate_move(Move::Surrender(Color::Black), Color::Black),
        MoveResult::WhiteWin
    );
    // The board state plays no part.
    let sparse = from_fen("8/8/8/8/8/8/8/8 b - - 99 99");
    assert_eq!(
        sparse.validate_move(Move::Surrender(Color::White), Color::Black),
        MoveResult::BlackWin
    );
    assert_eq!(
        sparse.validate_move(Move::Surrender(Color::Black), Color::White),
        MoveResult::WhiteWin
    );
}

#[test]
fn pawn_double_step_from_start_is_valid_with_byproduct() {
    let start = BoardState::new();
    let e2 = Square(6, 4);
    let e4 = Square(4, 4);
    assert_eq!(
        start.validate_move(Move::Move(e2, e4), Color::White),
        MoveResult::Valid
    );
    // The skipped square e3 is reported for the next en-passant target.
    assert_eq!(start.double_step_target(&e2, e4, Color::White), Some(Square(5, 4)));
    // A single step reports no byproduct.
    assert_eq!(start.double_step_target(&e2, Square(5, 4), Color::White), None);
}

#[test]
fn pawn_triple_step_is_invalid() {
    let start = BoardState::new();
    assert_eq!(
        start.validate_move(Move::Move(Square(6, 4), Square(3, 4)), Color::White),
        MoveResult::Invalid
    );
}

#[test]
fn pawn_forward_needs_empty_destination() {
    // White pawn e3 faces a black pawn on e4.
    let pos = from_fen("8/8/8/8/4p3/4P3/8/8 w - - 0 1");
    let e3 = Square(5, 4);
    assert_eq!(
        pos.validate_move(Move::Move(e3, Square(4, 4)), Color::White),
        MoveResult::Invalid
    );
    // The blocked double step is invalid too.
    let pos2 = from_fen("8/8/8/8/8/4p3/4P3/8 w - - 0 1");
    assert_eq!(
        pos2.validate_move(Move::Move(Square(6, 4), Square(4, 4)), Color::White),
        MoveResult::Invalid
    );
}

#[test]
fn pawn_diagonal_needs_capture_or_en_passant() {
    // Diagonal onto an empty square with no en-passant target: invalid.
    let pos = from_fen("8/8/8/8/8/4P3/8/8 w - - 0 1");
    let e3 = Square(5, 4);
    assert_eq!(
        pos.validate_move(Move::Move(e3, Square(4, 3)), Color::White),
        MoveResult::Invalid
    );
    // Diagonal capture of an opponent piece: valid.
    let pos = from_fen("8/8/8/8/3p4/4P3/8/8 w - - 0 1");
    assert_eq!(
        pos.validate_move(Move::Move(e3, Square(4, 3)), Color::White),
        MoveResult::Valid
    );
    // Diagonal onto one's own piece: invalid.
    let pos = from_fen("8/8/8/8/3P4/4P3/8/8 w - - 0 1");
    assert_eq!(
        pos.validate_move(Move::Move(e3, Square(4, 3)), Color::White),
        MoveResult::Invalid
    );
    // Diagonal onto the en-passant target: valid.
    let pos = from_fen("8/8/8/pP6/8/8/8/8 w - a6 0 1");
    assert_eq!(
        pos.validate_move(Move::Move(Square(3, 1), Square(2, 0)), Color::White),
        MoveResult::Valid
    );
}

#[test]
fn pawns_never_move_backward_or_sideways() {
    let pos = from_fen("8/8/8/8/4P3/8/8/8 w - - 0 1");
    let e4 = Square(4, 4);
    assert_eq!(
        pos.validate_move(Move::Move(e4, Square(5, 4)), Color::White),
        MoveResult::Invalid
    );
    assert_eq!(
        pos.validate_move(Move::Move(e4, Square(4, 5)), Color::White),
        MoveResult::Invalid
    );
}

#[test]
fn knight_moves_from_e4() {
    let pos = from_fen("8/8/8/8/4N3/8/8/8 w - - 0 1");
    let e4 = Square(4, 4);
    // e4 to e6 is a one-file/two-rank non-knight offset: invalid.
    assert_eq!(
        pos.validate_move(Move::Move(e4, Square(2, 4)), Color::White),
        MoveResult::Invalid
    );
    // e4 to f6 is a knight jump onto an empty square: valid.
    assert_eq!(
        pos.validate_move(Move::Move(e4, Square(2, 5)), Color::White),
        MoveResult::Valid
    );
}

#[test]
fn knight_cannot_land_on_own_piece() {
    let start = BoardState::new();
    // b1 to d2 would land on White's own pawn.
    assert_eq!(
        start.validate_move(Move::Move(Square(7, 1), Square(6, 3)), Color::White),
        MoveResult::Invalid
    );
    // b1 to c3 is open.
    assert_eq!(
        start.validate_move(Move::Move(Square(7, 1), Square(5, 2)), Color::White),
        MoveResult::Valid
    );
}

#[test]
fn bishop_blocked_on_the_diagonal() {
    let start = BoardState::new();
    // c1 to a3: an intervening pawn blocks the diagonal.
    assert_eq!(
        start.validate_move(Move::Move(Square(7, 2), Square(5, 0)), Color::White),
        MoveResult::Invalid
    );
    // An open bishop slides the whole diagonal.
    let pos = from_fen("8/8/8/8/8/8/8/B7 w - - 0 1");
    assert_eq!(
        pos.validate_move(Move::Move(Square(7, 0), Square(0, 7)), Color::White),
        MoveResult::Valid
    );
    // The same slide with a piece in the way is invalid.
    let pos = from_fen("8/8/8/8/3p4/8/8/B7 w - - 0 1");
    assert_eq!(
        pos.validate_move(Move::Move(Square(7, 0), Square(0, 7)), Color::White),
        MoveResult::Invalid
    );
    // Capturing the blocking piece itself is a valid slide.
    assert_eq!(
        pos.validate_move(Move::Move(Square(7, 0), Square(4, 3)), Color::White),
        MoveResult::Valid
    );
}

#[test]
fn rook_blocked_and_open_files() {
    let start = BoardState::new();
    // a1 to a3: the pawn on a2 blocks the file.
    assert_eq!(
        start.validate_move(Move::Move(Square(7, 0), Square(5, 0)), Color::White),
        MoveResult::Invalid
    );
    let pos = from_fen("8/8/8/8/R7/8/8/8 w - - 0 1");
    let a4 = Square(4, 0);
    assert_eq!(
        pos.validate_move(Move::Move(a4, Square(4, 7)), Color::White),
        MoveResult::Valid
    );
    assert_eq!(
        pos.validate_move(Move::Move(a4, Square(0, 0)), Color::White),
        MoveResult::Valid
    );
    // A diagonal is no rook move.
    assert_eq!(
        pos.validate_move(Move::Move(a4, Square(3, 1)), Color::White),
        MoveResult::Invalid
    );
}

#[test]
fn queen_combines_rook_and_bishop() {
    let pos = from_fen("8/8/8/8/3Q4/8/8/8 w - - 0 1");
    let d4 = Square(4, 3);
    assert_eq!(
        pos.validate_move(Move::Move(d4, Square(4, 7)), Color::White),
        MoveResult::Valid
    );
    assert_eq!(
        pos.validate_move(Move::Move(d4, Square(1, 6)), Color::White),
        MoveResult::Valid
    );
    // A knight-shaped offset is no queen move.
    assert_eq!(
        pos.validate_move(Move::Move(d4, Square(2, 4)), Color::White),
        MoveResult::Invalid
    );
    // Queen blocked on the file.
    let start = BoardState::new();
    assert_eq!(
        start.validate_move(Move::Move(Square(7, 3), Square(5, 3)), Color::White),
        MoveResult::Invalid
    );
}

#[test]
fn king_steps_one_square() {
    let pos = from_fen("8/8/8/8/4K3/8/8/8 w - - 0 1");
    let e4 = Square(4, 4);
    assert_eq!(
        pos.validate_move(Move::Move(e4, Square(3, 4)), Color::White),
        MoveResult::Valid
    );
    assert_eq!(
        pos.validate_move(Move::Move(e4, Square(3, 3)), Color::White),
        MoveResult::Valid
    );
    assert_eq!(
        pos.validate_move(Move::Move(e4, Square(2, 4)), Color::White),
        MoveResult::Invalid
    );
    assert_eq!(
        pos.validate_move(Move::Move(e4, e4), Color::White),
        MoveResult::Invalid
    );
}

#[test]
fn moves_of_missing_or_foreign_pieces_are_invalid() {
    let start = BoardState::new();
    // Empty source square.
    assert_eq!(
        start.validate_move(Move::Move(Square(4, 4), Square(3, 4)), Color::White),
        MoveResult::Invalid
    );
    // White submits a move of a black pawn.
    assert_eq!(
        start.validate_move(Move::Move(Square(1, 4), Square(2, 4)), Color::White),
        MoveResult::Invalid
    );
    // Off-board coordinates are invalid, not a fault.
    assert_eq!(
        start.validate_move(Move::Move(Square(9, 9), Square(4, 4)), Color::White),
        MoveResult::Invalid
    );
}

#[test]
fn castling_requires_rights_clear_path_and_home_pieces() {
    // Open castling position with all rights: both white castles work.
    let pos = from_fen("r3k2r/8/8/8/8/8/8/R3K2R w KQkq - 0 1");
    assert_eq!(
        pos.validate_move(Move::Castling(Castling::WhiteKingside), Color::White),
        MoveResult::Valid
    );
    assert_eq!(
        pos.validate_move(Move::Castling(Castling::WhiteQueenside), Color::White),
        MoveResult::Valid
    );
    assert_eq!(
        pos.validate_move(Move::Castling(Castling::BlackKingside), Color::Black),
        MoveResult::Valid
    );
    // The wrong color may not exercise the other side's castle.
    assert_eq!(
        pos.validate_move(Move::Castling(Castling::BlackKingside), Color::White),
        MoveResult::Invalid
    );
    // Without the right, the same castle is invalid.
    let pos = from_fen("r3k2r/8/8/8/8/8/8/R3K2R w kq - 0 1");
    assert_eq!(
        pos.validate_move(Move::Castling(Castling::WhiteKingside), Color::White),
        MoveResult::Invalid
    );
    // In the starting position the path is blocked.
    let start = BoardState::new();
    assert_eq!(
        start.validate_move(Move::Castling(Castling::WhiteKingside), Color::White),
        MoveResult::Invalid
    );
    // Rights set but the rook is gone: invalid.
    let pos = from_fen("r3k2r/8/8/8/8/8/8/R3K3 w KQkq - 0 1");
    assert_eq!(
        pos.validate_move(Move::Castling(Castling::WhiteKingside), Color::White),
        MoveResult::Invalid
    );
}

#[test]
fn get_relative_looks_around_a_square() {
    let start = BoardState::new();
    assert_eq!(
        start.get_relative(&Square(6, 4), RelMov { x: -1, y: 0 }),
        Some(Piece::Empty)
    );
    assert_eq!(start.get_relative(&Square(0, 0), RelMov { x: -1, y: 0 }), None);
    assert_eq!(
        start.get_relative(&Square(0, 0), RelMov { x: 0, y: 1 }),
        Some(Piece::Occupied(chess_core::board::PieceKind::Knight, Color::Black))
    );
}
