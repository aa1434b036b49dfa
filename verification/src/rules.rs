//! Move legality engine: one movement predicate per piece kind, a castling
//! predicate, and the dispatcher turning a proposed move into a verdict.
//!
//! The engine is a pure query over a position snapshot: it checks geometric
//! and occupancy legality only. Attacked-square safety (for king moves and
//! the castling transit) depends on an external attack query and is layered
//! on by the caller.
use vstd::prelude::*;

use crate::board::cell;
use crate::board::is_opponent;
use crate::board::spec_piece_at;
use crate::board::BoardState;
use crate::board::Castling;
use crate::board::Color;
use crate::board::Piece;
use crate::board::PieceKind;
use crate::coord::square_in_range;
use crate::coord::Square;

verus! {

/// A move a player may submit: an ordinary move between two squares, a
/// castling request, or a resignation by the tagged color.
#[derive(Clone, Copy, Debug, PartialEq, Eq, Structural)]
pub enum Move {
    Move(Square, Square),
    Castling(Castling),
    Surrender(Color),
}

/// The engine's verdict on a submitted move.
#[derive(Clone, Copy, Debug, PartialEq, Eq, Structural)]
pub enum MoveResult {
    Valid,
    Invalid,
    WhiteWin,
    BlackWin,
}

/// The sign of an integer: -1, 0 or 1.
pub open spec fn sgn_of(x: int) -> int {
    if x > 0 {
        1
    } else if x < 0 {
        -1
    } else {
        0
    }
}

/// Absolute value.
pub open spec fn abs_of(x: int) -> int {
    if x >= 0 {
        x
    } else {
        -x
    }
}

/// The greater of two integers.
pub open spec fn max_of(a: int, b: int) -> int {
    if a >= b {
        a
    } else {
        b
    }
}

/// The destination may be entered: it is empty or holds an opponent piece.
pub open spec fn dest_ok(pos: BoardState, to: Square, c: Color) -> bool {
    spec_piece_at(pos, to) == Piece::Empty || is_opponent(spec_piece_at(pos, to), c)
}

/// The rank direction a pawn of color `c` advances in: White moves toward
/// rank 0, Black toward rank 7.
pub open spec fn forward_dir(c: Color) -> int {
    if c == Color::White {
        -1
    } else {
        1
    }
}

/// The rank a pawn of color `c` starts on.
pub open spec fn pawn_start_rank(c: Color) -> int {
    if c == Color::White {
        6
    } else {
        1
    }
}

/// Pawn movement: forward single step onto an empty square, diagonal
/// single step as a capture or onto the en-passant target, or a double
/// step from the starting rank over two empty squares.
pub open spec fn pawn_ok(pos: BoardState, from: Square, to: Square, c: Color) -> bool {
    let dr = to.0 as int - from.0 as int;
    let df = to.1 as int - from.1 as int;
    let fwd = forward_dir(c);
    ||| (dr == fwd && df == 0 && spec_piece_at(pos, to) == Piece::Empty)
    ||| (dr == fwd && (df == 1 || df == -1) && (is_opponent(spec_piece_at(pos, to), c)
        || pos.en_passant == Some(to)))
    ||| (dr == 2 * fwd && df == 0 && from.0 == pawn_start_rank(c) && cell(
        pos,
        from.0 + fwd,
        from.1 as int,
    ) == Piece::Empty && spec_piece_at(pos, to) == Piece::Empty)
}

/// The square a legal pawn double step skips over, to become the next
/// position's en-passant target; `None` for any other move.
pub open spec fn double_step_mid(pos: BoardState, from: Square, to: Square, c: Color) -> Option<
    Square,
> {
    if pawn_ok(pos, from, to, c) && to.0 as int - from.0 as int == 2 * forward_dir(c) {
        Some(Square((from.0 as int + forward_dir(c)) as u8, from.1))
    } else {
        None
    }
}

/// The offset is one of the eight knight jumps.
pub open spec fn knight_jump(dr: int, df: int) -> bool {
    (abs_of(dr) == 1 && abs_of(df) == 2) || (abs_of(dr) == 2 && abs_of(df) == 1)
}

/// Knight movement: a knight jump onto an enterable square.
pub open spec fn knight_ok(pos: BoardState, from: Square, to: Square, c: Color) -> bool {
    knight_jump(to.0 as int - from.0 as int, to.1 as int - from.1 as int) && dest_ok(pos, to, c)
}

/// The offset is one of the eight unit king steps.
pub open spec fn king_step(dr: int, df: int) -> bool {
    abs_of(dr) <= 1 && abs_of(df) <= 1 && !(dr == 0 && df == 0)
}

/// King movement: a unit step onto an enterable square.
pub open spec fn king_ok(pos: BoardState, from: Square, to: Square, c: Color) -> bool {
    king_step(to.0 as int - from.0 as int, to.1 as int - from.1 as int) && dest_ok(pos, to, c)
}

/// The number of steps a sliding move takes from `from` to `to`.
pub open spec fn slide_steps(from: Square, to: Square) -> int {
    max_of(abs_of(to.0 as int - from.0 as int), abs_of(to.1 as int - from.1 as int))
}

/// The piece standing `k` steps out of `from` toward `to`.
pub open spec fn slide_cell(pos: BoardState, from: Square, to: Square, k: int) -> Piece {
    cell(
        pos,
        from.0 as int + k * sgn_of(to.0 as int - from.0 as int),
        from.1 as int + k * sgn_of(to.1 as int - from.1 as int),
    )
}

/// Every square strictly between `from` and `to` along the straight or
/// diagonal line through them is empty.
pub open spec fn path_clear(pos: BoardState, from: Square, to: Square) -> bool {
    forall|k: int|
        1 <= k < slide_steps(from, to) ==> slide_cell(pos, from, to, k) == Piece::Empty
}

/// Rook movement: along a rank or file, over empty squares, onto an
/// enterable square.
pub open spec fn rook_ok(pos: BoardState, from: Square, to: Square, c: Color) -> bool {
    let dr = to.0 as int - from.0 as int;
    let df = to.1 as int - from.1 as int;
    &&& ((dr == 0 && df != 0) || (dr != 0 && df == 0))
    &&& path_clear(pos, from, to)
    &&& dest_ok(pos, to, c)
}

/// Bishop movement: along a diagonal, over empty squares, onto an
/// enterable square.
pub open spec fn bishop_ok(pos: BoardState, from: Square, to: Square, c: Color) -> bool {
    let dr = to.0 as int - from.0 as int;
    let df = to.1 as int - from.1 as int;
    &&& abs_of(dr) == abs_of(df)
    &&& dr != 0
    &&& path_clear(pos, from, to)
    &&& dest_ok(pos, to, c)
}

/// Queen movement: rook movement or bishop movement.
pub open spec fn queen_ok(pos: BoardState, from: Square, to: Square, c: Color) -> bool {
    rook_ok(pos, from, to, c) || bishop_ok(pos, from, to, c)
}

/// The movement predicate of a piece kind.
pub open spec fn piece_rule_ok(
    pos: BoardState,
    kind: PieceKind,
    from: Square,
    to: Square,
    c: Color,
) -> bool {
    match kind {
        PieceKind::Pawn => pawn_ok(pos, from, to, c),
        PieceKind::Rook => rook_ok(pos, from, to, c),
        PieceKind::Knight => knight_ok(pos, from, to, c),
        PieceKind::Bishop => bishop_ok(pos, from, to, c),
        PieceKind::Queen => queen_ok(pos, from, to, c),
        PieceKind::King => king_ok(pos, from, to, c),
    }
}

/// Geometric castling legality: the right is still held, king and rook
/// stand on their original squares, and the squares between them are
/// empty. Attacked-square safety is the caller's to layer on.
pub open spec fn castle_ok(pos: BoardState, side: Castling, player: Color) -> bool {
    match side {
        Castling::WhiteKingside => {
            &&& player == Color::White
            &&& pos.castling_rights.white_kingside
            &&& cell(pos, 7, 4) == Piece::Occupied(PieceKind::King, Color::White)
            &&& cell(pos, 7, 7) == Piece::Occupied(PieceKind::Rook, Color::White)
            &&& cell(pos, 7, 5) == Piece::Empty
            &&& cell(pos, 7, 6) == Piece::Empty
        },
        Castling::WhiteQueenside => {
            &&& player == Color::White
            &&& pos.castling_rights.white_queenside
            &&& cell(pos, 7, 4) == Piece::Occupied(PieceKind::King, Color::White)
            &&& cell(pos, 7, 0) == Piece::Occupied(PieceKind::Rook, Color::White)
            &&& cell(pos, 7, 1) == Piece::Empty
            &&& cell(pos, 7, 2) == Piece::Empty
            &&& cell(pos, 7, 3) == Piece::Empty
        },
        Castling::BlackKingside => {
            &&& player == Color::Black
            &&& pos.castling_rights.black_kingside
            &&& cell(pos, 0, 4) == Piece::Occupied(PieceKind::King, Color::Black)
            &&& cell(pos, 0, 7) == Piece::Occupied(PieceKind::Rook, Color::Black)
            &&& cell(pos, 0, 5) == Piece::Empty
            &&& cell(pos, 0, 6) == Piece::Empty
        },
        Castling::BlackQueenside => {
            &&& player == Color::Black
            &&& pos.castling_rights.black_queenside
            &&& cell(pos, 0, 4) == Piece::Occupied(PieceKind::King, Color::Black)
            &&& cell(pos, 0, 0) == Piece::Occupied(PieceKind::Rook, Color::Black)
            &&& cell(pos, 0, 1) == Piece::Empty
            &&& cell(pos, 0, 2) == Piece::Empty
            &&& cell(pos, 0, 3) == Piece::Empty
        },
    }
}

/// The verdict on an ordinary move: both squares must be on the board,
/// the source must hold a piece of the submitting color, and that piece's
/// movement predicate must accept the step.
pub open spec fn move_verdict(pos: BoardState, from: Square, to: Square, c: Color) -> MoveResult {
    if !square_in_range(from) || !square_in_range(to) {
        MoveResult::Invalid
    } else {
        match spec_piece_at(pos, from) {
            Piece::Empty => MoveResult::Invalid,
            Piece::Occupied(kind, pc) => if pc != c {
                MoveResult::Invalid
            } else if piece_rule_ok(pos, kind, from, to, c) {
                MoveResult::Valid
            } else {
                MoveResult::Invalid
            },
        }
    }
}

/// The verdict on any submitted move.
pub open spec fn verdict_of(pos: BoardState, mv: Move, player: Color) -> MoveResult {
    match mv {
        Move::Surrender(c) => if c == Color::White {
            MoveResult::BlackWin
        } else {
            MoveResult::WhiteWin
        },
        Move::Castling(side) => if castle_ok(pos, side, player) {
            MoveResult::Valid
        } else {
            MoveResult::Invalid
        },
        Move::Move(from, to) => move_verdict(pos, from, to, player),
    }
}

impl BoardState {
    /// Walks the squares strictly between two aligned squares and reports
    /// whether all of them are empty.
    fn path_clear_rule(&self, move_from: &Square, move_to: Square) -> (r: bool)
        requires
            self.wf(),
            square_in_range(*move_from),
            square_in_range(move_to),
            move_from.0 == move_to.0 || move_from.1 == move_to.1 || abs_of(
                move_to.0 as int - move_from.0 as int,
            ) == abs_of(move_to.1 as int - move_from.1 as int),
        ensures
            r == path_clear(*self, *move_from, move_to),
    {
        let dr: i32 = move_to.0 as i32 - move_from.0 as i32;
        let df: i32 = move_to.1 as i32 - move_from.1 as i32;
        let sr: i32 = if dr > 0 {
            1
        } else if dr < 0 {
            -1
        } else {
            0
        };
        let sf: i32 = if df > 0 {
            1
        } else if df < 0 {
            -1
        } else {
            0
        };
        let adr: i32 = if dr >= 0 {
            dr
        } else {
            -dr
        };
        let adf: i32 = if df >= 0 {
            df
        } else {
            -df
        };
        let n: i32 = if adr >= adf {
            adr
        } else {
            adf
        };
        let mut k: i32 = 1;
        let mut cur_r: i32 = move_from.0 as i32 + sr;
        let mut cur_f: i32 = move_from.1 as i32 + sf;
        while k < n
            invariant
                self.wf(),
                square_in_range(*move_from),
                square_in_range(move_to),
                n == slide_steps(*move_from, move_to),
                sr == sgn_of(move_to.0 as int - move_from.0 as int),
                sf == sgn_of(move_to.1 as int - move_from.1 as int),
                move_from.0 == move_to.0 || move_from.1 == move_to.1 || abs_of(
                    move_to.0 as int - move_from.0 as int,
                ) == abs_of(move_to.1 as int - move_from.1 as int),
                1 <= k,
                k <= n || k == 1,
                cur_r == move_from.0 as int + k * sr,
                cur_f == move_from.1 as int + k * sf,
                forall|j: int| 1 <= j < k ==> slide_cell(*self, *move_from, move_to, j)
                    == Piece::Empty,
            decreases n - k,
        {
            proof {
                lemma_slide_point_in_range(*move_from, move_to, k as int);
            }
            let p = self.board[cur_r as usize * 8 + cur_f as usize];
            if !matches!(p, Piece::Empty) {
                proof {
                    assert(slide_cell(*self, *move_from, move_to, k as int) == cell(
                        *self,
                        cur_r as int,
                        cur_f as int,
                    ));
                    assert(!path_clear(*self, *move_from, move_to));
                }
                return false;
            }
            k = k + 1;
            cur_r = cur_r + sr;
            cur_f = cur_f + sf;
            proof {
                assert(cur_r == move_from.0 as int + k * sr && cur_f == move_from.1 as int + k
                    * sf) by (nonlinear_arith)
                    requires
                        cur_r == move_from.0 as int + (k - 1) * sr + sr,
                        cur_f == move_from.1 as int + (k - 1) * sf + sf,
                ;
            }
        }
        true
    }

    /// Pawn movement predicate; see [`pawn_ok`].
    pub fn pawn_rule(&self, move_from: &Square, move_to: Square, player_color: Color) -> (r: bool)
        requires
            self.wf(),
            square_in_range(*move_from),
            square_in_range(move_to),
        ensures
            r == pawn_ok(*self, *move_from, move_to, player_color),
    {
        let dr: i32 = move_to.0 as i32 - move_from.0 as i32;
        let df: i32 = move_to.1 as i32 - move_from.1 as i32;
        let fwd: i32 = match player_color {
            Color::White => -1,
            Color::Black => 1,
        };
        if df == 0 && dr == fwd {
            return matches!(self.piece_at(move_to), Piece::Empty);
        }
        if (df == 1 || df == -1) && dr == fwd {
            let capture = match self.piece_at(move_to) {
                Piece::Occupied(_, pc) => pc != player_color,
                Piece::Empty => false,
            };
            let en_passant = match self.en_passant {
                Some(t) => t == move_to,
                None => false,
            };
            return capture || en_passant;
        }
        if df == 0 && dr == 2 * fwd {
            let start: i32 = match player_color {
                Color::White => 6,
                Color::Black => 1,
            };
            if move_from.0 as i32 == start {
                let mid = Square((move_from.0 as i32 + fwd) as u8, move_from.1);
                return matches!(self.piece_at(mid), Piece::Empty) && matches!(
                    self.piece_at(move_to),
                    Piece::Empty
                );
            }
        }
        false
    }

    /// The en-passant byproduct of a pawn move: the skipped square of a
    /// legal double step, for the driver to install as the next
    /// position's en-passant target.
    pub fn double_step_target(
        &self,
        move_from: &Square,
        move_to: Square,
        player_color: Color,
    ) -> (r: Option<Square>)
        requires
            self.wf(),
            square_in_range(*move_from),
            square_in_range(move_to),
        ensures
            r == double_step_mid(*self, *move_from, move_to, player_color),
    {
        let dr: i32 = move_to.0 as i32 - move_from.0 as i32;
        let fwd: i32 = match player_color {
            Color::White => -1,
            Color::Black => 1,
        };
        if dr == 2 * fwd && self.pawn_rule(move_from, move_to, player_color) {
            Some(Square((move_from.0 as i32 + fwd) as u8, move_from.1))
        } else {
            None
        }
    }

    /// Rook movement predicate; see [`rook_ok`].
    pub fn rook_rule(&self, move_from: &Square, move_to: Square, player_color: Color) -> (r: bool)
        requires
            self.wf(),
            square_in_range(*move_from),
            square_in_range(move_to),
        ensures
            r == rook_ok(*self, *move_from, move_to, player_color),
    {
        let dr: i32 = move_to.0 as i32 - move_from.0 as i32;
        let df: i32 = move_to.1 as i32 - move_from.1 as i32;
        let aligned = (dr == 0 && df != 0) || (dr != 0 && df == 0);
        if !aligned {
            return false;
        }
        self.path_clear_rule(move_from, move_to) && self.dest_rule(move_to, player_color)
    }

    /// Knight movement predicate; see [`knight_ok`].
    pub fn knight_rule(&self, move_from: &Square, move_to: Square, player_color: Color) -> (r:
        bool)
        requires
            self.wf(),
            square_in_range(*move_from),
            square_in_range(move_to),
        ensures
            r == knight_ok(*self, *move_from, move_to, player_color),
    {
        let dr: i32 = move_to.0 as i32 - move_from.0 as i32;
        let df: i32 = move_to.1 as i32 - move_from.1 as i32;
        let adr: i32 = if dr >= 0 {
            dr
        } else {
            -dr
        };
        let adf: i32 = if df >= 0 {
            df
        } else {
            -df
        };
        if (adr == 1 && adf == 2) || (adr == 2 && adf == 1) {
            self.dest_rule(move_to, player_color)
        } else {
            false
        }
    }

    /// Bishop movement predicate; see [`bishop_ok`].
    pub fn bishop_rule(&self, move_from: &Square, move_to: Square, player_color: Color) -> (r:
        bool)
        requires
            self.wf(),
            square_in_range(*move_from),
            square_in_range(move_to),
        ensures
            r == bishop_ok(*self, *move_from, move_to, player_color),
    {
        let dr: i32 = move_to.0 as i32 - move_from.0 as i32;
        let df: i32 = move_to.1 as i32 - move_from.1 as i32;
        let adr: i32 = if dr >= 0 {
            dr
        } else {
            -dr
        };
        let adf: i32 = if df >= 0 {
            df
        } else {
            -df
        };
        if adr != adf || dr == 0 {
            return false;
        }
        self.path_clear_rule(move_from, move_to) && self.dest_rule(move_to, player_color)
    }

    /// Queen movement predicate; see [`queen_ok`].
    pub fn queen_rule(&self, move_from: &Square, move_to: Square, player_color: Color) -> (r: bool)
        requires
            self.wf(),
            square_in_range(*move_from),
            square_in_range(move_to),
        ensures
            r == queen_ok(*self, *move_from, move_to, player_color),
    {
        self.rook_rule(move_from, move_to, player_color) || self.bishop_rule(
            move_from,
            move_to,
            player_color,
        )
    }

    /// King movement predicate; see [`king_ok`].
    pub fn king_rule(&self, move_from: &Square, move_to: Square, player_color: Color) -> (r: bool)
        requires
            self.wf(),
            square_in_range(*move_from),
            square_in_range(move_to),
        ensures
            r == king_ok(*self, *move_from, move_to, player_color),
    {
        let dr: i32 = move_to.0 as i32 - move_from.0 as i32;
        let df: i32 = move_to.1 as i32 - move_from.1 as i32;
        let adr: i32 = if dr >= 0 {
            dr
        } else {
            -dr
        };
        let adf: i32 = if df >= 0 {
            df
        } else {
            -df
        };
        if adr <= 1 && adf <= 1 && !(dr == 0 && df == 0) {
            self.dest_rule(move_to, player_color)
        } else {
            false
        }
    }

    /// The destination square is empty or holds an opponent piece.
    fn dest_rule(&self, move_to: Square, player_color: Color) -> (r: bool)
        requires
            self.wf(),
            square_in_range(move_to),
        ensures
            r == dest_ok(*self, move_to, player_color),
    {
        match self.piece_at(move_to) {
            Piece::Empty => true,
            Piece::Occupied(_, pc) => pc != player_color,
        }
    }

    /// Castling legality check; see [`castle_ok`].
    pub fn handle_castling(&self, castling: Castling, player_color: Color) -> (r: MoveResult)
        requires
            self.wf(),
        ensures
            r == (if castle_ok(*self, castling, player_color) {
                MoveResult::Valid
            } else {
                MoveResult::Invalid
            }),
    {
        let (home_rank, player, right): (u8, Color, bool) = match castling {
            Castling::WhiteKingside => (7, Color::White, self.castling_rights.white_kingside),
            Castling::WhiteQueenside => (7, Color::White, self.castling_rights.white_queenside),
            Castling::BlackKingside => (0, Color::Black, self.castling_rights.black_kingside),
            Castling::BlackQueenside => (0, Color::Black, self.castling_rights.black_queenside),
        };
        if !(player_color == player && right) {
            return MoveResult::Invalid;
        }
        let king_home = matches!(
            self.piece_at(Square(home_rank, 4)),
            Piece::Occupied(PieceKind::King, c) if c == player
        );
        let ok = match castling {
            Castling::WhiteKingside | Castling::BlackKingside => {
                king_home && matches!(
                    self.piece_at(Square(home_rank, 7)),
                    Piece::Occupied(PieceKind::Rook, c) if c == player
                ) && matches!(self.piece_at(Square(home_rank, 5)), Piece::Empty) && matches!(
                    self.piece_at(Square(home_rank, 6)),
                    Piece::Empty
                )
            },
            Castling::WhiteQueenside | Castling::BlackQueenside => {
                king_home && matches!(
                    self.piece_at(Square(home_rank, 0)),
                    Piece::Occupied(PieceKind::Rook, c) if c == player
                ) && matches!(self.piece_at(Square(home_rank, 1)), Piece::Empty) && matches!(
                    self.piece_at(Square(home_rank, 2)),
                    Piece::Empty
                ) && matches!(self.piece_at(Square(home_rank, 3)), Piece::Empty)
            },
        };
        if ok {
            MoveResult::Valid
        } else {
            MoveResult::Invalid
        }
    }

    /// Verdict on an ordinary move; see [`move_verdict`].
    pub fn handle_move(&self, move_from: Square, move_to: Square, player_color: Color) -> (r:
        MoveResult)
        requires
            self.wf(),
        ensures
            r == move_verdict(*self, move_from, move_to, player_color),
    {
        if move_from.0 > 7 || move_from.1 > 7 || move_to.0 > 7 || move_to.1 > 7 {
            return MoveResult::Invalid;
        }
        let figure_from = self.piece_at(move_from);
        let (kind, owner) = match figure_from {
            Piece::Empty => {
                return MoveResult::Invalid;
            },
            Piece::Occupied(kind, owner) => (kind, owner),
        };
        if owner != player_color {
            return MoveResult::Invalid;
        }
        let follows_rule: bool = match kind {
            PieceKind::Pawn => self.pawn_rule(&move_from, move_to, player_color),
            PieceKind::Rook => self.rook_rule(&move_from, move_to, player_color),
            PieceKind::Knight => self.knight_rule(&move_from, move_to, player_color),
            PieceKind::Bishop => self.bishop_rule(&move_from, move_to, player_color),
            PieceKind::Queen => self.queen_rule(&move_from, move_to, player_color),
            PieceKind::King => self.king_rule(&move_from, move_to, player_color),
        };
        if follows_rule {
            MoveResult::Valid
        } else {
            MoveResult::Invalid
        }
    }

    /// Resignation: the opposing color wins, whatever the board holds.
    pub fn handle_surrender(&self, player_color: Color) -> (r: MoveResult)
        ensures
            r == (match player_color {
                Color::White => MoveResult::BlackWin,
                Color::Black => MoveResult::WhiteWin,
            }),
    {
        match player_color {
            Color::White => MoveResult::BlackWin,
            Color::Black => MoveResult::WhiteWin,
        }
    }

    /// Dispatches a submitted move to the verdict it deserves; see
    /// [`verdict_of`].
    pub fn validate_move(&self, player_move: Move, player_color: Color) -> (r: MoveResult)
        requires
            self.wf(),
        ensures
            r == verdict_of(*self, player_move, player_color),
    {
        match player_move {
            Move::Castling(x) => self.handle_castling(x, player_color),
            Move::Surrender(x) => self.handle_surrender(x),
            Move::Move(sqr1, sqr2) => self.handle_move(sqr1, sqr2, player_color),
        }
    }
}

/// Every square a sliding move passes strictly between two aligned
/// in-range squares is itself on the board.
proof fn lemma_slide_point_in_range(from: Square, to: Square, k: int)
    requires
        square_in_range(from),
        square_in_range(to),
        from.0 == to.0 || from.1 == to.1 || abs_of(to.0 as int - from.0 as int) == abs_of(
            to.1 as int - from.1 as int,
        ),
        1 <= k < slide_steps(from, to),
    ensures
        0 <= from.0 as int + k * sgn_of(to.0 as int - from.0 as int) <= 7,
        0 <= from.1 as int + k * sgn_of(to.1 as int - from.1 as int) <= 7,
{
    let dr = to.0 as int - from.0 as int;
    let df = to.1 as int - from.1 as int;
    assert(0 <= from.0 as int + k * sgn_of(dr) <= 7 && 0 <= from.1 as int + k * sgn_of(df) <= 7)
        by (nonlinear_arith)
        requires
            0 <= from.0 as int <= 7,
            0 <= to.0 as int <= 7,
            0 <= from.1 as int <= 7,
            0 <= to.1 as int <= 7,
            dr == to.0 as int - from.0 as int,
            df == to.1 as int - from.1 as int,
            1 <= k < max_of(abs_of(dr), abs_of(df)),
            dr == 0 || df == 0 || abs_of(dr) == abs_of(df),
    ;
}

/// Pawn forward-step legality requires an empty destination square.
pub proof fn lemma_pawn_forward_needs_empty(pos: BoardState, from: Square, to: Square, c: Color)
    requires
        pawn_ok(pos, from, to, c),
        from.1 == to.1,
    ensures
        spec_piece_at(pos, to) == Piece::Empty,
{
}

/// Pawn diagonal-step legality requires an opponent piece on the
/// destination or an exact match with the en-passant target; it is never
/// granted with both conditions absent.
pub proof fn lemma_pawn_diagonal_needs_capture_or_en_passant(
    pos: BoardState,
    from: Square,
    to: Square,
    c: Color,
)
    requires
        pawn_ok(pos, from, to, c),
        from.1 != to.1,
    ensures
        is_opponent(spec_piece_at(pos, to), c) || pos.en_passant == Some(to),
{
}

/// A sliding piece (bishop, rook or queen) is illegal whenever any square
/// strictly between source and destination is occupied: position `k` steps
/// from the source names one such blocking configuration.
pub proof fn lemma_sliding_blocked(pos: BoardState, from: Square, to: Square, c: Color, k: int)
    requires
        1 <= k < slide_steps(from, to),
        slide_cell(pos, from, to, k) != Piece::Empty,
    ensures
        !rook_ok(pos, from, to, c),
        !bishop_ok(pos, from, to, c),
        !queen_ok(pos, from, to, c),
{
}

/// Resignation by either color yields the opposite color's win verdict,
/// regardless of the board state and of who submits it.
pub proof fn lemma_resignation_verdict(pos: BoardState, resigning: Color, player: Color)
    ensures
        verdict_of(pos, Move::Surrender(resigning), player) == (match resigning {
            Color::White => MoveResult::BlackWin,
            Color::Black => MoveResult::WhiteWin,
        }),
{
}

} // verus!
