//! Position model: pieces, castling rights, and the aggregate board state.
//!
//! The board is a flat grid of 64 cells in the canonical (rank, file) order:
//! cell index `rank * 8 + file`, with (0, 0) = a8.
use vstd::prelude::*;

use crate::coord::offset_target;
use crate::coord::square_in_range;
use crate::coord::RelMov;
use crate::coord::Square;

verus! {

/// A side.
#[derive(Clone, Copy, Debug, PartialEq, Eq, Structural)]
pub enum Color {
    Black,
    White,
}

/// The kind of a chess piece.
#[derive(Clone, Copy, Debug, PartialEq, Eq, Structural)]
pub enum PieceKind {
    Pawn,
    Knight,
    Bishop,
    Rook,
    Queen,
    King,
}

/// A board cell's content: empty, or a piece of some kind and color.
#[derive(Clone, Copy, Debug, PartialEq, Eq, Structural)]
pub enum Piece {
    Empty,
    Occupied(PieceKind, Color),
}

/// The four independent castling rights.
#[derive(Clone, Copy, Debug, PartialEq, Eq, Structural)]
pub struct CastlingRights {
    pub white_kingside: bool,
    pub white_queenside: bool,
    pub black_kingside: bool,
    pub black_queenside: bool,
}

/// One of the four castling moves a player may request.
#[derive(Clone, Copy, Debug, PartialEq, Eq, Structural)]
pub enum Castling {
    WhiteKingside,
    WhiteQueenside,
    BlackKingside,
    BlackQueenside,
}

/// The aggregate position: board grid, side to move, castling rights,
/// en-passant target, and the two move counters.
pub struct BoardState {
    pub board: Vec<Piece>,
    pub turn: Color,
    pub castling_rights: CastlingRights,
    pub en_passant: Option<Square>,
    pub halfmove_clock: u32,
    pub fullmoves: u32,
}

/// The piece standing at (rank `r`, file `f`) of a position.
pub open spec fn cell(pos: BoardState, r: int, f: int) -> Piece {
    pos.board@[r * 8 + f]
}

/// The piece a square holds.
pub open spec fn spec_piece_at(pos: BoardState, sq: Square) -> Piece {
    cell(pos, sq.0 as int, sq.1 as int)
}

/// The piece belongs to the opponent of color `c`.
pub open spec fn is_opponent(p: Piece, c: Color) -> bool {
    p matches Piece::Occupied(_, pc) && pc != c
}

/// The piece kind standing on the standard back rank at file `f`.
pub open spec fn back_rank_kind(f: int) -> PieceKind {
    if f == 0 || f == 7 {
        PieceKind::Rook
    } else if f == 1 || f == 6 {
        PieceKind::Knight
    } else if f == 2 || f == 5 {
        PieceKind::Bishop
    } else if f == 3 {
        PieceKind::Queen
    } else {
        PieceKind::King
    }
}

/// The piece of the standard starting layout at flat cell index `i`.
pub open spec fn start_piece(i: int) -> Piece {
    let r = i / 8;
    let f = i % 8;
    if r == 0 {
        Piece::Occupied(back_rank_kind(f), Color::Black)
    } else if r == 1 {
        Piece::Occupied(PieceKind::Pawn, Color::Black)
    } else if r == 6 {
        Piece::Occupied(PieceKind::Pawn, Color::White)
    } else if r == 7 {
        Piece::Occupied(back_rank_kind(f), Color::White)
    } else {
        Piece::Empty
    }
}

impl BoardState {
    /// The position's consistency invariant: 64 board cells, and an
    /// en-passant target (when present) on the third rank from either
    /// back rank with an in-range file.
    pub open spec fn wf(self) -> bool {
        &&& self.board@.len() == 64
        &&& match self.en_passant {
            Some(sq) => (sq.0 == 2 || sq.0 == 5) && sq.1 <= 7,
            None => true,
        }
    }

    /// The standard starting position: full opening layout, White to move,
    /// all castling rights, no en-passant target, clocks 0 and 1.
    pub fn new() -> (r: BoardState)
        ensures
            r.wf(),
            r.board@.len() == 64,
            forall|i: int| 0 <= i < 64 ==> r.board@[i] == start_piece(i),
            r.turn == Color::White,
            r.castling_rights == (CastlingRights {
                white_kingside: true,
                white_queenside: true,
                black_kingside: true,
                black_queenside: true,
            }),
            r.en_passant is None,
            r.halfmove_clock == 0,
            r.fullmoves == 1,
    {
        let mut board: Vec<Piece> = Vec::new();
        let mut i: usize = 0;
        while i < 64
            invariant
                i <= 64,
                board@.len() == i,
                forall|j: int| 0 <= j < i ==> board@[j] == start_piece(j),
            decreases 64 - i,
        {
            let r = i / 8;
            let f = i % 8;
            let kind = if f == 0 || f == 7 {
                PieceKind::Rook
            } else if f == 1 || f == 6 {
                PieceKind::Knight
            } else if f == 2 || f == 5 {
                PieceKind::Bishop
            } else if f == 3 {
                PieceKind::Queen
            } else {
                PieceKind::King
            };
            let piece = if r == 0 {
                Piece::Occupied(kind, Color::Black)
            } else if r == 1 {
                Piece::Occupied(PieceKind::Pawn, Color::Black)
            } else if r == 6 {
                Piece::Occupied(PieceKind::Pawn, Color::White)
            } else if r == 7 {
                Piece::Occupied(kind, Color::White)
            } else {
                Piece::Empty
            };
            board.push(piece);
            i = i + 1;
        }
        BoardState {
            board,
            turn: Color::White,
            castling_rights: CastlingRights {
                white_kingside: true,
                white_queenside: true,
                black_kingside: true,
                black_queenside: true,
            },
            en_passant: None,
            halfmove_clock: 0,
            fullmoves: 1,
        }
    }

    /// The piece standing on a square; total over the full board.
    pub fn piece_at(&self, square: Square) -> (p: Piece)
        requires
            self.wf(),
            square_in_range(square),
        ensures
            p == spec_piece_at(*self, square),
    {
        self.board[square.0 as usize * 8 + square.1 as usize]
    }

    /// The piece standing at an offset from a square, or `None` when the
    /// offset leaves the board. The single primitive the movement
    /// predicates use to look around a square.
    pub fn get_relative(&self, square: &Square, mov: RelMov) -> (r: Option<Piece>)
        requires
            self.wf(),
        ensures
            r == match offset_target(*square, mov) {
                Some(t) => Some(spec_piece_at(*self, t)),
                None => None::<Piece>,
            },
    {
        let rank: i32 = square.0 as i32 + mov.x as i32;
        let file: i32 = square.1 as i32 + mov.y as i32;
        if rank < 0 || rank > 7 || file < 0 || file > 7 {
            None
        } else {
            Some(self.board[rank as usize * 8 + file as usize])
        }
    }
}

} // verus!
