//! Interchange codec: parsing and exporting the six-field textual position
//! description (board, side to move, castling rights, en-passant target,
//! halfmove clock, fullmove number).
//!
//! The board field is eight ranks separated by `/`, each rank a run of piece
//! letters and run-length digits, rank 0 first and file 0 first.
use vstd::prelude::*;

use crate::board::BoardState;
use crate::board::CastlingRights;
use crate::board::Color;
use crate::board::Piece;
use crate::board::PieceKind;
use crate::coord::is_dec_digit;
use crate::coord::square_chars;
use crate::coord::square_of_chars;
use crate::coord::valid_square_chars;
use crate::coord::Square;

verus! {

/// Failure kinds of [`BoardState::parse_fen`].
#[derive(Clone, Copy, Debug, PartialEq, Eq, Structural)]
pub enum ParseFenError {
    BoardInvalid,
    TurnInvalid,
    EnPassantInvalid,
    ClockInvalid,
}

/// The letter the board field uses for an occupied cell: uppercase for
/// White, lowercase for Black.
pub open spec fn char_of_piece(p: Piece) -> char {
    match p {
        Piece::Occupied(PieceKind::Pawn, Color::White) => 'P',
        Piece::Occupied(PieceKind::Knight, Color::White) => 'N',
        Piece::Occupied(PieceKind::Bishop, Color::White) => 'B',
        Piece::Occupied(PieceKind::Rook, Color::White) => 'R',
        Piece::Occupied(PieceKind::Queen, Color::White) => 'Q',
        Piece::Occupied(PieceKind::King, Color::White) => 'K',
        Piece::Occupied(PieceKind::Pawn, Color::Black) => 'p',
        Piece::Occupied(PieceKind::Knight, Color::Black) => 'n',
        Piece::Occupied(PieceKind::Bishop, Color::Black) => 'b',
        Piece::Occupied(PieceKind::Rook, Color::Black) => 'r',
        Piece::Occupied(PieceKind::Queen, Color::Black) => 'q',
        Piece::Occupied(PieceKind::King, Color::Black) => 'k',
        Piece::Empty => '.',
    }
}

/// The piece a board-field letter denotes, if any.
pub open spec fn piece_of_char(c: char) -> Option<Piece> {
    match c {
        'P' => Some(Piece::Occupied(PieceKind::Pawn, Color::White)),
        'N' => Some(Piece::Occupied(PieceKind::Knight, Color::White)),
        'B' => Some(Piece::Occupied(PieceKind::Bishop, Color::White)),
        'R' => Some(Piece::Occupied(PieceKind::Rook, Color::White)),
        'Q' => Some(Piece::Occupied(PieceKind::Queen, Color::White)),
        'K' => Some(Piece::Occupied(PieceKind::King, Color::White)),
        'p' => Some(Piece::Occupied(PieceKind::Pawn, Color::Black)),
        'n' => Some(Piece::Occupied(PieceKind::Knight, Color::Black)),
        'b' => Some(Piece::Occupied(PieceKind::Bishop, Color::Black)),
        'r' => Some(Piece::Occupied(PieceKind::Rook, Color::Black)),
        'q' => Some(Piece::Occupied(PieceKind::Queen, Color::Black)),
        'k' => Some(Piece::Occupied(PieceKind::King, Color::Black)),
        _ => None,
    }
}

/// The character is a run-length digit 1-8.
pub open spec fn is_run_digit(c: char) -> bool {
    ||| c == '1'
    ||| c == '2'
    ||| c == '3'
    ||| c == '4'
    ||| c == '5'
    ||| c == '6'
    ||| c == '7'
    ||| c == '8'
}

/// Numeric value of a run-length digit.
pub open spec fn run_val(c: char) -> int {
    if c == '1' {
        1
    } else if c == '2' {
        2
    } else if c == '3' {
        3
    } else if c == '4' {
        4
    } else if c == '5' {
        5
    } else if c == '6' {
        6
    } else if c == '7' {
        7
    } else {
        8
    }
}

/// Digit character of a run length in [1, 8].
pub open spec fn run_digit(n: int) -> char {
    if n == 1 {
        '1'
    } else if n == 2 {
        '2'
    } else if n == 3 {
        '3'
    } else if n == 4 {
        '4'
    } else if n == 5 {
        '5'
    } else if n == 6 {
        '6'
    } else if n == 7 {
        '7'
    } else {
        '8'
    }
}

/// A run of `n` empty cells.
pub open spec fn empties(n: nat) -> Seq<Piece> {
    Seq::new(n, |i: int| Piece::Empty)
}

/// The cells a rank string denotes: each digit stands for that many
/// consecutive empty cells, each piece letter for one occupied cell.
/// `None` when a character is neither.
pub open spec fn rank_cells(s: Seq<char>) -> Option<Seq<Piece>>
    decreases s.len(),
{
    if s.len() == 0 {
        Some(Seq::empty())
    } else if is_run_digit(s[0]) {
        match rank_cells(s.skip(1)) {
            Some(rest) => Some(empties(run_val(s[0]) as nat) + rest),
            None => None,
        }
    } else {
        match piece_of_char(s[0]) {
            Some(p) => match rank_cells(s.skip(1)) {
                Some(rest) => Some(seq![p] + rest),
                None => None,
            },
            None => None,
        }
    }
}

/// A rank string is valid when every character is a digit or piece letter
/// and the cells it denotes number exactly eight.
pub open spec fn valid_rank_field(s: Seq<char>) -> bool {
    rank_cells(s) matches Some(cells) && cells.len() == 8
}

/// The cells of a valid rank string.
pub open spec fn cells_of_rank(s: Seq<char>) -> Seq<Piece> {
    match rank_cells(s) {
        Some(cells) => cells,
        None => Seq::empty(),
    }
}

/// The digit emitted for a pending run of empty cells, if any.
pub open spec fn pending_digits(pending: int) -> Seq<char> {
    if pending > 0 {
        seq![run_digit(pending)]
    } else {
        Seq::empty()
    }
}

/// Run-length encoding of a rank, carrying a count of empty cells not yet
/// emitted.
pub open spec fn rle_aux(cells: Seq<Piece>, pending: int) -> Seq<char>
    decreases cells.len(),
{
    if cells.len() == 0 {
        pending_digits(pending)
    } else if cells[0] == Piece::Empty {
        rle_aux(cells.skip(1), pending + 1)
    } else {
        pending_digits(pending) + seq![char_of_piece(cells[0])] + rle_aux(cells.skip(1), 0)
    }
}

/// The rank string a run of cells exports to: maximal runs of empty cells
/// collapsed into single digits.
pub open spec fn rank_field(cells: Seq<Piece>) -> Seq<char> {
    rle_aux(cells, 0)
}

/// The cells of rank `r` within a flat 64-cell board.
pub open spec fn row_cells(b: Seq<Piece>, r: int) -> Seq<Piece> {
    b.subrange(8 * r, 8 * r + 8)
}

/// The board field from rank `r` on: rank strings joined by `/`.
pub open spec fn board_field_from(b: Seq<Piece>, r: int) -> Seq<char>
    decreases 8 - r,
{
    if r < 0 || r >= 8 {
        Seq::empty()
    } else if r == 7 {
        rank_field(row_cells(b, 7))
    } else {
        rank_field(row_cells(b, r)) + seq!['/'] + board_field_from(b, r + 1)
    }
}

/// The whole board field of a position's grid.
pub open spec fn board_field(b: Seq<Piece>) -> Seq<char> {
    board_field_from(b, 0)
}

/// Split at every `/`; separators delimit, so `n` separators yield `n + 1`
/// parts, empty parts included.
pub open spec fn split_slash(s: Seq<char>) -> Seq<Seq<char>>
    decreases s.len(),
{
    if s.len() == 0 {
        seq![Seq::<char>::empty()]
    } else if s[0] == '/' {
        seq![Seq::<char>::empty()] + split_slash(s.skip(1))
    } else {
        let rest = split_slash(s.skip(1));
        seq![seq![s[0]] + rest[0]] + rest.skip(1)
    }
}

/// A board field is valid when it splits into exactly eight valid ranks.
pub open spec fn valid_board_field(s: Seq<char>) -> bool {
    &&& split_slash(s).len() == 8
    &&& forall|i: int| 0 <= i < 8 ==> valid_rank_field(#[trigger] split_slash(s)[i])
}

/// The flat board a board field denotes, from row `i` on.
pub open spec fn rows_cells(rows: Seq<Seq<char>>, i: int) -> Seq<Piece>
    decreases rows.len() - i,
{
    if i < 0 || i >= rows.len() {
        Seq::empty()
    } else {
        cells_of_rank(rows[i]) + rows_cells(rows, i + 1)
    }
}

/// The flat 64-cell board a valid board field denotes.
pub open spec fn board_of_field(s: Seq<char>) -> Seq<Piece> {
    rows_cells(split_slash(s), 0)
}

/// The side-to-move field is one of w, W, b, B.
pub open spec fn valid_turn_field(s: Seq<char>) -> bool {
    s.len() == 1 && (s[0] == 'w' || s[0] == 'W' || s[0] == 'b' || s[0] == 'B')
}

/// The side a valid turn field denotes.
pub open spec fn turn_of_field(s: Seq<char>) -> Color {
    if s[0] == 'w' || s[0] == 'W' {
        Color::White
    } else {
        Color::Black
    }
}

/// The turn field a side exports to.
pub open spec fn turn_field(c: Color) -> Seq<char> {
    match c {
        Color::White => seq!['w'],
        Color::Black => seq!['b'],
    }
}

/// The string holds the character somewhere.
pub open spec fn contains_char(s: Seq<char>, c: char) -> bool {
    exists|i: int| 0 <= i < s.len() && s[i] == c
}

/// The rights a castling field denotes: each letter grants its right,
/// all other characters are ignored.
pub open spec fn rights_of_field(s: Seq<char>) -> CastlingRights {
    CastlingRights {
        white_kingside: contains_char(s, 'K'),
        white_queenside: contains_char(s, 'Q'),
        black_kingside: contains_char(s, 'k'),
        black_queenside: contains_char(s, 'q'),
    }
}

/// The castling field a set of rights exports to: the held rights in the
/// fixed order K, Q, k, q, or `-` when none is held.
pub open spec fn castling_field(cr: CastlingRights) -> Seq<char> {
    if !(cr.white_kingside || cr.white_queenside || cr.black_kingside || cr.black_queenside) {
        seq!['-']
    } else {
        (if cr.white_kingside {
            seq!['K']
        } else {
            Seq::<char>::empty()
        }) + (if cr.white_queenside {
            seq!['Q']
        } else {
            Seq::<char>::empty()
        }) + (if cr.black_kingside {
            seq!['k']
        } else {
            Seq::<char>::empty()
        }) + (if cr.black_queenside {
            seq!['q']
        } else {
            Seq::<char>::empty()
        })
    }
}

/// The en-passant field is `-` or a square on the third rank from either
/// back rank.
pub open spec fn valid_ep_field(s: Seq<char>) -> bool {
    ||| s == seq!['-']
    ||| (valid_square_chars(s) && (square_of_chars(s).0 == 2 || square_of_chars(s).0 == 5))
}

/// The en-passant target a valid en-passant field denotes.
pub open spec fn ep_of_field(s: Seq<char>) -> Option<Square> {
    if s == seq!['-'] {
        None
    } else {
        Some(square_of_chars(s))
    }
}

/// The en-passant field a target exports to.
pub open spec fn ep_field(ep: Option<Square>) -> Seq<char> {
    match ep {
        None => seq!['-'],
        Some(sq) => square_chars(sq),
    }
}

/// Numeric value of a decimal digit character.
pub open spec fn dec_digit_val(c: char) -> int {
    if c == '0' {
        0
    } else if c == '1' {
        1
    } else if c == '2' {
        2
    } else if c == '3' {
        3
    } else if c == '4' {
        4
    } else if c == '5' {
        5
    } else if c == '6' {
        6
    } else if c == '7' {
        7
    } else if c == '8' {
        8
    } else {
        9
    }
}

/// Digit character of a value in [0, 9].
pub open spec fn dec_digit_char(d: int) -> char {
    if d == 0 {
        '0'
    } else if d == 1 {
        '1'
    } else if d == 2 {
        '2'
    } else if d == 3 {
        '3'
    } else if d == 4 {
        '4'
    } else if d == 5 {
        '5'
    } else if d == 6 {
        '6'
    } else if d == 7 {
        '7'
    } else if d == 8 {
        '8'
    } else {
        '9'
    }
}

/// The number a digit string denotes.
pub open spec fn dec_val(s: Seq<char>) -> int
    decreases s.len(),
{
    if s.len() == 0 {
        0
    } else {
        dec_val(s.drop_last()) * 10 + dec_digit_val(s.last())
    }
}

/// A clock field is a non-empty digit string whose value fits a `u32`.
pub open spec fn valid_clock_field(s: Seq<char>) -> bool {
    &&& s.len() >= 1
    &&& forall|i: int| 0 <= i < s.len() ==> is_dec_digit(#[trigger] s[i])
    &&& dec_val(s) <= u32::MAX
}

/// The canonical decimal numeral of a non-negative number.
pub open spec fn dec_chars(n: int) -> Seq<char>
    decreases n,
{
    if n < 10 {
        seq![dec_digit_char(n)]
    } else {
        dec_chars(n / 10) + seq![dec_digit_char(n % 10)]
    }
}

/// The character separates fields: ASCII whitespace.
pub open spec fn is_ws(c: char) -> bool {
    c == ' ' || c == '\t' || c == '\n' || c == '\r' || c == '\u{0c}'
}

/// The maximal whitespace-free words of a string, in order.
pub open spec fn ws_tokens(s: Seq<char>) -> Seq<Seq<char>>
    decreases s.len(),
{
    if s.len() == 0 {
        Seq::empty()
    } else if is_ws(s[0]) {
        ws_tokens(s.skip(1))
    } else if s.len() == 1 || is_ws(s[1]) {
        seq![seq![s[0]]] + ws_tokens(s.skip(1))
    } else {
        let rest = ws_tokens(s.skip(1));
        seq![seq![s[0]] + rest[0]] + rest.skip(1)
    }
}

/// A position string is valid when it has exactly six fields and each
/// parses; the castling field accepts any characters.
pub open spec fn valid_fen(s: Seq<char>) -> bool {
    let t = ws_tokens(s);
    &&& t.len() == 6
    &&& valid_board_field(t[0])
    &&& valid_turn_field(t[1])
    &&& valid_ep_field(t[3])
    &&& valid_clock_field(t[4])
    &&& valid_clock_field(t[5])
}

/// The error an invalid position string is rejected with: a wrong field
/// count or malformed board field first, then the turn field, then the
/// en-passant field, then the clocks.
pub open spec fn fen_error(s: Seq<char>) -> ParseFenError {
    let t = ws_tokens(s);
    if t.len() != 6 || !valid_board_field(t[0]) {
        ParseFenError::BoardInvalid
    } else if !valid_turn_field(t[1]) {
        ParseFenError::TurnInvalid
    } else if !valid_ep_field(t[3]) {
        ParseFenError::EnPassantInvalid
    } else {
        ParseFenError::ClockInvalid
    }
}

/// The six-field interchange string a position exports to.
pub open spec fn fen_of(pos: BoardState) -> Seq<char> {
    board_field(pos.board@) + seq![' '] + turn_field(pos.turn) + seq![' '] + castling_field(
        pos.castling_rights,
    ) + seq![' '] + ep_field(pos.en_passant) + seq![' '] + dec_chars(pos.halfmove_clock as int)
        + seq![' '] + dec_chars(pos.fullmoves as int)
}

/// A parsed prefix glued onto the outcome of parsing the rest of a rank.
pub open spec fn glue_cells(prefix: Seq<Piece>, rest: Option<Seq<Piece>>) -> Option<Seq<Piece>> {
    match rest {
        Some(r) => Some(prefix + r),
        None => None,
    }
}

/// A digit string's value never sinks below zero.
proof fn lemma_dec_val_nonneg(s: Seq<char>)
    ensures
        dec_val(s) >= 0,
    decreases s.len(),
{
    if s.len() > 0 {
        lemma_dec_val_nonneg(s.drop_last());
    }
}

/// Extending a digit string never shrinks its value.
proof fn lemma_dec_val_prefix_le(s: Seq<char>, i: int)
    requires
        0 <= i <= s.len(),
    ensures
        dec_val(s.take(i)) <= dec_val(s),
    decreases s.len() - i,
{
    if i < s.len() {
        lemma_dec_val_prefix_le(s, i + 1);
        assert(s.take(i + 1).drop_last() =~= s.take(i));
        lemma_dec_val_nonneg(s.take(i));
    } else {
        assert(s.take(i) =~= s);
    }
}

/// Tokenizing from the start of a whitespace-free word yields that word
/// and then the tokens of what follows it.
proof fn lemma_ws_tokens_word(s: Seq<char>, start: int, end: int)
    requires
        0 <= start < end <= s.len(),
        forall|j: int| start <= j < end ==> !is_ws(#[trigger] s[j]),
        end == s.len() || is_ws(s[end]),
    ensures
        ws_tokens(s.skip(start)) == seq![s.subrange(start, end)] + ws_tokens(s.skip(end)),
    decreases end - start,
{
    let t = s.skip(start);
    assert(t[0] == s[start]);
    assert(t.skip(1) =~= s.skip(start + 1));
    if start + 1 == end {
        if end == s.len() {
            assert(s.skip(end) =~= Seq::<char>::empty());
        } else {
            assert(t[1] == s[start + 1]);
        }
        assert(ws_tokens(t) == seq![seq![t[0]]] + ws_tokens(t.skip(1)));
        assert(seq![t[0]] =~= s.subrange(start, end));
        assert(t.skip(1) =~= s.skip(end));
        assert(seq![s.subrange(start, end)] =~= seq![seq![t[0]]]);
        assert(ws_tokens(s.skip(start)) =~= seq![s.subrange(start, end)] + ws_tokens(s.skip(end)));
    } else {
        assert(t[1] == s[start + 1]);
        lemma_ws_tokens_word(s, start + 1, end);
        let rest = ws_tokens(s.skip(start + 1));
        assert(rest[0] == s.subrange(start + 1, end));
        assert(ws_tokens(t) == seq![seq![t[0]] + rest[0]] + rest.skip(1));
        assert(seq![t[0]] + rest[0] =~= s.subrange(start, end));
        assert(rest.skip(1) =~= ws_tokens(s.skip(end)));
        assert(ws_tokens(s.skip(start)) =~= seq![s.subrange(start, end)] + ws_tokens(s.skip(end)));
    }
}

/// Splitting from the start of a separator-free run yields that run and
/// then the parts of what follows the next separator.
proof fn lemma_split_slash_run(s: Seq<char>, start: int, end: int)
    requires
        0 <= start <= end <= s.len(),
        forall|j: int| start <= j < end ==> #[trigger] s[j] != '/',
        end == s.len() || s[end] == '/',
    ensures
        end == s.len() ==> split_slash(s.skip(start)) == seq![s.subrange(start, end)],
        end < s.len() ==> split_slash(s.skip(start)) == seq![s.subrange(start, end)] + split_slash(
            s.skip(end + 1),
        ),
    decreases end - start,
{
    let t = s.skip(start);
    if start == end {
        if end == s.len() {
            assert(t =~= Seq::<char>::empty());
            assert(s.subrange(start, end) =~= Seq::<char>::empty());
            assert(split_slash(s.skip(start)) =~= seq![s.subrange(start, end)]);
        } else {
            assert(t[0] == s[start]);
            assert(t.skip(1) =~= s.skip(end + 1));
            assert(s.subrange(start, end) =~= Seq::<char>::empty());
            assert(split_slash(s.skip(start)) =~= seq![s.subrange(start, end)] + split_slash(
                s.skip(end + 1),
            ));
        }
    } else {
        assert(t[0] == s[start]);
        assert(t.skip(1) =~= s.skip(start + 1));
        lemma_split_slash_run(s, start + 1, end);
        let rest = split_slash(s.skip(start + 1));
        assert(rest[0] == s.subrange(start + 1, end));
        assert(split_slash(t) == seq![seq![t[0]] + rest[0]] + rest.skip(1));
        assert(seq![t[0]] + rest[0] =~= s.subrange(start, end));
        if end == s.len() {
            assert(rest.skip(1) =~= Seq::<Seq<char>>::empty());
            assert(split_slash(s.skip(start)) =~= seq![s.subrange(start, end)]);
        } else {
            assert(rest.skip(1) =~= split_slash(s.skip(end + 1)));
            assert(split_slash(s.skip(start)) =~= seq![s.subrange(start, end)] + split_slash(
                s.skip(end + 1),
            ));
        }
    }
}

/// Whether a character separates fields; executable form of [`is_ws`].
fn is_ws_char(c: char) -> (r: bool)
    ensures
        r == is_ws(c),
{
    c == ' ' || c == '\t' || c == '\n' || c == '\r' || c == '\u{0c}'
}

/// The piece a letter denotes; executable form of [`piece_of_char`].
fn char_to_piece(c: char) -> (r: Option<Piece>)
    ensures
        r == piece_of_char(c),
{
    if c == 'P' {
        Some(Piece::Occupied(PieceKind::Pawn, Color::White))
    } else if c == 'N' {
        Some(Piece::Occupied(PieceKind::Knight, Color::White))
    } else if c == 'B' {
        Some(Piece::Occupied(PieceKind::Bishop, Color::White))
    } else if c == 'R' {
        Some(Piece::Occupied(PieceKind::Rook, Color::White))
    } else if c == 'Q' {
        Some(Piece::Occupied(PieceKind::Queen, Color::White))
    } else if c == 'K' {
        Some(Piece::Occupied(PieceKind::King, Color::White))
    } else if c == 'p' {
        Some(Piece::Occupied(PieceKind::Pawn, Color::Black))
    } else if c == 'n' {
        Some(Piece::Occupied(PieceKind::Knight, Color::Black))
    } else if c == 'b' {
        Some(Piece::Occupied(PieceKind::Bishop, Color::Black))
    } else if c == 'r' {
        Some(Piece::Occupied(PieceKind::Rook, Color::Black))
    } else if c == 'q' {
        Some(Piece::Occupied(PieceKind::Queen, Color::Black))
    } else if c == 'k' {
        Some(Piece::Occupied(PieceKind::King, Color::Black))
    } else {
        None
    }
}

/// The value of a run-length digit, when the character is one.
fn run_digit_of(c: char) -> (r: Option<u8>)
    ensures
        r is Some <==> is_run_digit(c),
        r matches Some(n) ==> n == run_val(c),
{
    if c == '1' {
        Some(1)
    } else if c == '2' {
        Some(2)
    } else if c == '3' {
        Some(3)
    } else if c == '4' {
        Some(4)
    } else if c == '5' {
        Some(5)
    } else if c == '6' {
        Some(6)
    } else if c == '7' {
        Some(7)
    } else if c == '8' {
        Some(8)
    } else {
        None
    }
}

/// The value of a decimal digit, when the character is one.
fn dec_digit_of(c: char) -> (r: Option<u32>)
    ensures
        r is Some <==> is_dec_digit(c),
        r matches Some(n) ==> n == dec_digit_val(c),
{
    if c == '0' {
        Some(0)
    } else if c == '1' {
        Some(1)
    } else if c == '2' {
        Some(2)
    } else if c == '3' {
        Some(3)
    } else if c == '4' {
        Some(4)
    } else if c == '5' {
        Some(5)
    } else if c == '6' {
        Some(6)
    } else if c == '7' {
        Some(7)
    } else if c == '8' {
        Some(8)
    } else if c == '9' {
        Some(9)
    } else {
        None
    }
}

/// Collects a string's characters into a vector.
fn str_chars(s: &str) -> (v: Vec<char>)
    ensures
        v@ == s@,
{
    let n = s.unicode_len();
    let mut v: Vec<char> = Vec::new();
    let mut i: usize = 0;
    while i < n
        invariant
            n == s@.len(),
            i <= n,
            v@ == s@.take(i as int),
        decreases n - i,
    {
        let c = s.get_char(i);
        v.push(c);
        proof {
            assert(s@.take(i as int + 1) =~= s@.take(i as int).push(s@[i as int]));
        }
        i = i + 1;
    }
    proof {
        assert(s@.take(n as int) =~= s@);
    }
    v
}

/// Splits a character sequence into its whitespace-separated words.
fn tokenize(chars: &Vec<char>) -> (toks: Vec<Vec<char>>)
    ensures
        toks@.len() == ws_tokens(chars@).len(),
        forall|i: int| 0 <= i < toks@.len() ==> #[trigger] toks@[i]@ == ws_tokens(chars@)[i],
{
    let ghost s = chars@;
    let mut toks: Vec<Vec<char>> = Vec::new();
    let ghost mut done: Seq<Seq<char>> = Seq::empty();
    let mut i: usize = 0;
    proof {
        assert(s.skip(0) =~= s);
        assert(done + ws_tokens(s) =~= ws_tokens(s));
    }
    while i < chars.len()
        invariant
            s == chars@,
            i <= s.len(),
            ws_tokens(s) == done + ws_tokens(s.skip(i as int)),
            toks@.len() == done.len(),
            forall|j: int| 0 <= j < done.len() ==> #[trigger] toks@[j]@ == done[j],
        decreases s.len() - i,
    {
        let c = chars[i];
        if is_ws_char(c) {
            proof {
                assert(s.skip(i as int).skip(1) =~= s.skip(i as int + 1));
                assert(s.skip(i as int)[0] == s[i as int]);
            }
            i = i + 1;
        } else {
            let ghost start = i as int;
            let mut word: Vec<char> = Vec::new();
            word.push(c);
            i = i + 1;
            while i < chars.len() && !is_ws_char(chars[i])
                invariant
                    s == chars@,
                    0 <= start < i,
                    i <= s.len(),
                    word@ == s.subrange(start, i as int),
                    forall|j: int| start <= j < i ==> !is_ws(#[trigger] s[j]),
                decreases s.len() - i,
            {
                word.push(chars[i]);
                proof {
                    assert(s.subrange(start, i as int + 1) =~= s.subrange(start, i as int).push(
                        s[i as int],
                    ));
                }
                i = i + 1;
            }
            proof {
                lemma_ws_tokens_word(s, start, i as int);
                done = done.push(s.subrange(start, i as int));
                assert(ws_tokens(s) =~= done + ws_tokens(s.skip(i as int)));
            }
            toks.push(word);
        }
    }
    proof {
        assert(s.skip(s.len() as int) =~= Seq::<char>::empty());
        assert(ws_tokens(s) =~= done);
    }
    toks
}

/// Splits a board field into its slash-separated rank strings.
fn split_rows(field: &Vec<char>) -> (rows: Vec<Vec<char>>)
    ensures
        rows@.len() == split_slash(field@).len(),
        forall|i: int| 0 <= i < rows@.len() ==> #[trigger] rows@[i]@ == split_slash(field@)[i],
{
    let ghost s = field@;
    let mut rows: Vec<Vec<char>> = Vec::new();
    let ghost mut done: Seq<Seq<char>> = Seq::empty();
    let mut cur: Vec<char> = Vec::new();
    let ghost mut start: int = 0;
    let mut i: usize = 0;
    proof {
        assert(s.skip(0) =~= s);
        assert(cur@ =~= s.subrange(0, 0));
        assert(done + split_slash(s) =~= split_slash(s));
    }
    while i < field.len()
        invariant
            s == field@,
            0 <= start <= i,
            i <= s.len(),
            cur@ == s.subrange(start, i as int),
            forall|j: int| start <= j < i ==> #[trigger] s[j] != '/',
            split_slash(s) == done + split_slash(s.skip(start)),
            rows@.len() == done.len(),
            forall|j: int| 0 <= j < done.len() ==> #[trigger] rows@[j]@ == done[j],
        decreases s.len() - i,
    {
        let c = field[i];
        if c == '/' {
            proof {
                lemma_split_slash_run(s, start, i as int);
                done = done.push(cur@);
            }
            rows.push(cur);
            cur = Vec::new();
            i = i + 1;
            proof {
                start = i as int;
                assert(cur@ =~= s.subrange(start, i as int));
                assert(split_slash(s) =~= done + split_slash(s.skip(start)));
            }
        } else {
            cur.push(c);
            proof {
                assert(s.subrange(start, i as int + 1) =~= s.subrange(start, i as int).push(
                    s[i as int],
                ));
            }
            i = i + 1;
        }
    }
    proof {
        lemma_split_slash_run(s, start, s.len() as int);
        done = done.push(cur@);
        assert(split_slash(s) =~= done);
    }
    rows.push(cur);
    rows
}

/// Parses one rank string into the cells it denotes.
fn parse_rank(row: &Vec<char>) -> (r: Option<Vec<Piece>>)
    ensures
        r is Some <==> rank_cells(row@) is Some,
        r matches Some(cells) ==> rank_cells(row@) == Some(cells@),
{
    let ghost s = row@;
    let mut cells: Vec<Piece> = Vec::new();
    let mut j: usize = 0;
    proof {
        assert(s.skip(0) =~= s);
        if rank_cells(s) is Some {
            assert(Seq::<Piece>::empty() + rank_cells(s)->Some_0 =~= rank_cells(s)->Some_0);
        }
    }
    while j < row.len()
        invariant
            s == row@,
            j <= s.len(),
            rank_cells(s) == glue_cells(cells@, rank_cells(s.skip(j as int))),
        decreases s.len() - j,
    {
        proof {
            assert(s.skip(j as int)[0] == s[j as int]);
            assert(s.skip(j as int).skip(1) =~= s.skip(j as int + 1));
        }
        let c = row[j];
        match run_digit_of(c) {
            Some(n) => {
                let ghost cells0 = cells@;
                let mut t: u8 = 0;
                while t < n
                    invariant
                        t <= n,
                        cells@ == cells0 + empties(t as nat),
                    decreases n - t,
                {
                    cells.push(Piece::Empty);
                    proof {
                        assert(cells@ =~= cells0 + empties((t + 1) as nat));
                    }
                    t = t + 1;
                }
                proof {
                    if rank_cells(s.skip(j as int + 1)) is Some {
                        let rest = rank_cells(s.skip(j as int + 1))->Some_0;
                        assert(cells0 + (empties(run_val(c) as nat) + rest) =~= cells@ + rest);
                    }
                }
            },
            None => {
                match char_to_piece(c) {
                    Some(p) => {
                        cells.push(p);
                        proof {
                            if rank_cells(s.skip(j as int + 1)) is Some {
                                let rest = rank_cells(s.skip(j as int + 1))->Some_0;
                                let cells0 = cells@.drop_last();
                                assert(cells0 + (seq![p] + rest) =~= cells@ + rest);
                            }
                        }
                    },
                    None => {
                        return None;
                    },
                }
            },
        }
        j = j + 1;
    }
    proof {
        assert(s.skip(s.len() as int) =~= Seq::<char>::empty());
        assert(rank_cells(s) == Some(cells@ + Seq::<Piece>::empty()));
        assert(cells@ + Seq::<Piece>::empty() =~= cells@);
    }
    Some(cells)
}

/// Parses a board field into the flat 64-cell grid it denotes.
fn parse_board_field(field: &Vec<char>) -> (r: Option<Vec<Piece>>)
    ensures
        r is Some <==> valid_board_field(field@),
        r matches Some(b) ==> b@ == board_of_field(field@) && b@.len() == 64,
{
    let ghost srows = split_slash(field@);
    let rows = split_rows(field);
    if rows.len() != 8 {
        return None;
    }
    let mut board: Vec<Piece> = Vec::new();
    let mut i: usize = 0;
    while i < 8
        invariant
            srows == split_slash(field@),
            srows.len() == 8,
            rows@.len() == 8,
            forall|j: int| 0 <= j < 8 ==> #[trigger] rows@[j]@ == srows[j],
            i <= 8,
            board@.len() == 8 * i,
            forall|j: int| 0 <= j < i ==> valid_rank_field(#[trigger] srows[j]),
            rows_cells(srows, 0) == board@ + rows_cells(srows, i as int),
        decreases 8 - i,
    {
        let parsed = parse_rank(&rows[i]);
        match parsed {
            Some(mut cells) => {
                if cells.len() != 8 {
                    return None;
                }
                proof {
                    assert(cells_of_rank(srows[i as int]) == cells@);
                    assert(rows_cells(srows, i as int) == cells@ + rows_cells(srows, i as int + 1));
                    assert(board@ + (cells@ + rows_cells(srows, i as int + 1)) =~= (board@ + cells@)
                        + rows_cells(srows, i as int + 1));
                }
                board.append(&mut cells);
            },
            None => {
                return None;
            },
        }
        i = i + 1;
    }
    proof {
        assert(rows_cells(srows, 8) =~= Seq::<Piece>::empty());
        assert(board@ =~= rows_cells(srows, 0));
    }
    Some(board)
}

/// Parses a clock field into its `u32` value.
fn parse_u32(field: &Vec<char>) -> (r: Option<u32>)
    ensures
        r is Some <==> valid_clock_field(field@),
        r matches Some(n) ==> n == dec_val(field@),
{
    let ghost s = field@;
    if field.len() == 0 {
        return None;
    }
    let mut acc: u64 = 0;
    let mut i: usize = 0;
    while i < field.len()
        invariant
            s == field@,
            i <= s.len(),
            forall|j: int| 0 <= j < i ==> is_dec_digit(#[trigger] s[j]),
            acc == dec_val(s.take(i as int)),
            acc <= u32::MAX,
        decreases s.len() - i,
    {
        let c = field[i];
        let d = match dec_digit_of(c) {
            Some(d) => d,
            None => {
                return None;
            },
        };
        acc = acc * 10 + d as u64;
        proof {
            assert(s.take(i as int + 1).drop_last() =~= s.take(i as int));
            assert(s.take(i as int + 1).last() == s[i as int]);
        }
        i = i + 1;
        if acc > 0xffff_ffff {
            proof {
                lemma_dec_val_prefix_le(s, i as int);
            }
            return None;
        }
    }
    proof {
        assert(s.take(s.len() as int) =~= s);
    }
    Some(acc as u32)
}

/// Parses a castling field: each right letter found grants its right.
fn parse_castling(field: &Vec<char>) -> (r: CastlingRights)
    ensures
        r == rights_of_field(field@),
{
    let ghost s = field@;
    let mut wk = false;
    let mut wq = false;
    let mut bk = false;
    let mut bq = false;
    let mut i: usize = 0;
    while i < field.len()
        invariant
            s == field@,
            i <= s.len(),
            wk == exists|j: int| 0 <= j < i && #[trigger] s[j] == 'K',
            wq == exists|j: int| 0 <= j < i && #[trigger] s[j] == 'Q',
            bk == exists|j: int| 0 <= j < i && #[trigger] s[j] == 'k',
            bq == exists|j: int| 0 <= j < i && #[trigger] s[j] == 'q',
        decreases s.len() - i,
    {
        let c = field[i];
        if c == 'K' {
            wk = true;
        } else if c == 'Q' {
            wq = true;
        } else if c == 'k' {
            bk = true;
        } else if c == 'q' {
            bq = true;
        }
        i = i + 1;
    }
    CastlingRights {
        white_kingside: wk,
        white_queenside: wq,
        black_kingside: bk,
        black_queenside: bq,
    }
}

/// Parses an en-passant field's square part.
fn parse_ep_square(field: &Vec<char>) -> (r: Option<Square>)
    ensures
        r is Some <==> valid_square_chars(field@),
        r matches Some(sq) ==> sq == square_of_chars(field@),
{
    if field.len() < 2 {
        return None;
    }
    let letter = field[0];
    let number = field[1];
    let rank: u8 = if number == '8' {
        0
    } else if number == '7' {
        1
    } else if number == '6' {
        2
    } else if number == '5' {
        3
    } else if number == '4' {
        4
    } else if number == '3' {
        5
    } else if number == '2' {
        6
    } else if number == '1' {
        7
    } else {
        return None;
    };
    let file: u8 = if letter == 'a' || letter == 'A' {
        0
    } else if letter == 'b' || letter == 'B' {
        1
    } else if letter == 'c' || letter == 'C' {
        2
    } else if letter == 'd' || letter == 'D' {
        3
    } else if letter == 'e' || letter == 'E' {
        4
    } else if letter == 'f' || letter == 'F' {
        5
    } else if letter == 'g' || letter == 'G' {
        6
    } else if letter == 'h' || letter == 'H' {
        7
    } else {
        return None;
    };
    Some(Square(rank, file))
}

/// Appends the board-field letter of an occupied cell.
fn append_piece_char(out: &mut String, p: Piece)
    requires
        p matches Piece::Occupied(_, _),
    ensures
        final (out)@ == old(out)@ + seq![char_of_piece(p)],
{
    proof {
        reveal_strlit("P");
        reveal_strlit("N");
        reveal_strlit("B");
        reveal_strlit("R");
        reveal_strlit("Q");
        reveal_strlit("K");
        reveal_strlit("p");
        reveal_strlit("n");
        reveal_strlit("b");
        reveal_strlit("r");
        reveal_strlit("q");
        reveal_strlit("k");
    }
    match p {
        Piece::Occupied(PieceKind::Pawn, Color::White) => out.append("P"),
        Piece::Occupied(PieceKind::Knight, Color::White) => out.append("N"),
        Piece::Occupied(PieceKind::Bishop, Color::White) => out.append("B"),
        Piece::Occupied(PieceKind::Rook, Color::White) => out.append("R"),
        Piece::Occupied(PieceKind::Queen, Color::White) => out.append("Q"),
        Piece::Occupied(PieceKind::King, Color::White) => out.append("K"),
        Piece::Occupied(PieceKind::Pawn, Color::Black) => out.append("p"),
        Piece::Occupied(PieceKind::Knight, Color::Black) => out.append("n"),
        Piece::Occupied(PieceKind::Bishop, Color::Black) => out.append("b"),
        Piece::Occupied(PieceKind::Rook, Color::Black) => out.append("r"),
        Piece::Occupied(PieceKind::Queen, Color::Black) => out.append("q"),
        Piece::Occupied(PieceKind::King, Color::Black) => out.append("k"),
        Piece::Empty => {
            proof {
                assert(false);
            }
        },
    }
}

/// Appends the digit of a run length in [1, 8].
fn append_run_digit(out: &mut String, n: u8)
    requires
        1 <= n <= 8,
    ensures
        final (out)@ == old(out)@ + seq![run_digit(n as int)],
{
    proof {
        reveal_strlit("1");
        reveal_strlit("2");
        reveal_strlit("3");
        reveal_strlit("4");
        reveal_strlit("5");
        reveal_strlit("6");
        reveal_strlit("7");
        reveal_strlit("8");
    }
    if n == 1 {
        out.append("1");
    } else if n == 2 {
        out.append("2");
    } else if n == 3 {
        out.append("3");
    } else if n == 4 {
        out.append("4");
    } else if n == 5 {
        out.append("5");
    } else if n == 6 {
        out.append("6");
    } else if n == 7 {
        out.append("7");
    } else {
        out.append("8");
    }
}

/// Appends the digit character of a value in [0, 9].
fn append_dec_digit(out: &mut String, d: u32)
    requires
        d <= 9,
    ensures
        final (out)@ == old(out)@ + seq![dec_digit_char(d as int)],
{
    proof {
        reveal_strlit("0");
        reveal_strlit("1");
        reveal_strlit("2");
        reveal_strlit("3");
        reveal_strlit("4");
        reveal_strlit("5");
        reveal_strlit("6");
        reveal_strlit("7");
        reveal_strlit("8");
        reveal_strlit("9");
    }
    if d == 0 {
        out.append("0");
    } else if d == 1 {
        out.append("1");
    } else if d == 2 {
        out.append("2");
    } else if d == 3 {
        out.append("3");
    } else if d == 4 {
        out.append("4");
    } else if d == 5 {
        out.append("5");
    } else if d == 6 {
        out.append("6");
    } else if d == 7 {
        out.append("7");
    } else if d == 8 {
        out.append("8");
    } else {
        out.append("9");
    }
}

/// Appends the decimal numeral of a number.
fn append_decimal(out: &mut String, n: u32)
    ensures
        final (out)@ == old(out)@ + dec_chars(n as int),
    decreases n,
{
    if n < 10 {
        append_dec_digit(out, n);
    } else {
        append_decimal(out, n / 10);
        append_dec_digit(out, n % 10);
        proof {
            assert(out@ =~= old(out)@ + dec_chars(n as int));
        }
    }
}

impl BoardState {
    /// Parses a six-field interchange string into a position. A failed
    /// parse returns only the error kind and no partial position.
    pub fn parse_fen(fen_str: &str) -> (r: Result<BoardState, ParseFenError>)
        ensures
            r is Ok <==> valid_fen(fen_str@),
            r matches Ok(pos) ==> {
                &&& pos.wf()
                &&& pos.board@ == board_of_field(ws_tokens(fen_str@)[0])
                &&& pos.turn == turn_of_field(ws_tokens(fen_str@)[1])
                &&& pos.castling_rights == rights_of_field(ws_tokens(fen_str@)[2])
                &&& pos.en_passant == ep_of_field(ws_tokens(fen_str@)[3])
                &&& pos.halfmove_clock == dec_val(ws_tokens(fen_str@)[4])
                &&& pos.fullmoves == dec_val(ws_tokens(fen_str@)[5])
            },
            r matches Err(e) ==> e == fen_error(fen_str@),
    {
        let ghost s = fen_str@;
        let ghost t = ws_tokens(s);
        let chars = str_chars(fen_str);
        let toks = tokenize(&chars);
        if toks.len() != 6 {
            return Err(ParseFenError::BoardInvalid);
        }
        let board = match parse_board_field(&toks[0]) {
            Some(b) => b,
            None => {
                return Err(ParseFenError::BoardInvalid);
            },
        };
        let turn_tok = &toks[1];
        let turn: Color = if turn_tok.len() != 1 {
            return Err(ParseFenError::TurnInvalid);
        } else {
            let c = turn_tok[0];
            if c == 'w' || c == 'W' {
                Color::White
            } else if c == 'b' || c == 'B' {
                Color::Black
            } else {
                return Err(ParseFenError::TurnInvalid);
            }
        };
        let castling_rights = parse_castling(&toks[2]);
        let ep_tok = &toks[3];
        let en_passant: Option<Square> = if ep_tok.len() == 1 && ep_tok[0] == '-' {
            proof {
                assert(ep_tok@ =~= seq!['-']);
            }
            None
        } else {
            proof {
                assert(ep_tok@ != seq!['-']);
            }
            match parse_ep_square(ep_tok) {
                Some(sq) => {
                    if sq.0 == 2 || sq.0 == 5 {
                        Some(sq)
                    } else {
                        return Err(ParseFenError::EnPassantInvalid);
                    }
                },
                None => {
                    return Err(ParseFenError::EnPassantInvalid);
                },
            }
        };
        let halfmove_clock = match parse_u32(&toks[4]) {
            Some(n) => n,
            None => {
                return Err(ParseFenError::ClockInvalid);
            },
        };
        let fullmoves = match parse_u32(&toks[5]) {
            Some(n) => n,
            None => {
                return Err(ParseFenError::ClockInvalid);
            },
        };
        Ok(
            BoardState {
                board,
                turn,
                castling_rights,
                en_passant,
                halfmove_clock,
                fullmoves,
            },
        )
    }

    /// Exports the position as the six-field interchange string.
    pub fn export_to_fen(&self) -> (r: String)
        requires
            self.wf(),
        ensures
            r@ == fen_of(*self),
    {
        proof {
            reveal_strlit(" ");
            reveal_strlit("/");
            reveal_strlit("w");
            reveal_strlit("b");
            reveal_strlit("K");
            reveal_strlit("Q");
            reveal_strlit("k");
            reveal_strlit("q");
            reveal_strlit("-");
        }
        let mut out = String::new();
        let mut r: usize = 0;
        while r < 8
            invariant
                self.wf(),
                r <= 8,
                board_field(self.board@) == out@ + board_field_from(self.board@, r as int),
            decreases 8 - r,
        {
            proof {
                reveal_strlit("/");
            }
            let ghost row = row_cells(self.board@, r as int);
            let ghost out_row_start = out@;
            let ghost b = self.board@;
            let mut f: usize = 0;
            let mut pending: u8 = 0;
            let ghost mut emitted: Seq<char> = Seq::empty();
            proof {
                assert(row.skip(0) =~= row);
            }
            while f < 8
                invariant
                    self.wf(),
                    r < 8,
                    f <= 8,
                    pending <= f,
                    b == self.board@,
                    row == row_cells(b, r as int),
                    out@ == out_row_start + emitted,
                    rank_field(row) == emitted + rle_aux(row.skip(f as int), pending as int),
                decreases 8 - f,
            {
                proof {
                    assert(row.skip(f as int)[0] == b[8 * (r as int) + f]);
                    assert(row.skip(f as int).skip(1) =~= row.skip(f as int + 1));
                }
                let p = self.board[r * 8 + f];
                if matches!(p, Piece::Empty) {
                    pending = pending + 1;
                } else {
                    if pending > 0 {
                        append_run_digit(&mut out, pending);
                        proof {
                            emitted = emitted + pending_digits(pending as int);
                        }
                        pending = 0;
                    }
                    append_piece_char(&mut out, p);
                    proof {
                        emitted = emitted + seq![char_of_piece(p)];
                        assert(rank_field(row) =~= emitted + rle_aux(
                            row.skip(f as int + 1),
                            0,
                        ));
                    }
                }
                f = f + 1;
            }
            proof {
                assert(row.skip(8) =~= Seq::<Piece>::empty());
            }
            if pending > 0 {
                append_run_digit(&mut out, pending);
                proof {
                    emitted = emitted + pending_digits(pending as int);
                }
            }
            proof {
                assert(out@ =~= out_row_start + rank_field(row));
            }
            if r < 7 {
                out.append("/");
            }
            r = r + 1;
            proof {
                assert(board_field(b) =~= out@ + board_field_from(b, r as int));
            }
        }
        out.append(" ");
        match self.turn {
            Color::White => out.append("w"),
            Color::Black => out.append("b"),
        }
        out.append(" ");
        let cr = self.castling_rights;
        if !(cr.white_kingside || cr.white_queenside || cr.black_kingside || cr.black_queenside) {
            out.append("-");
        } else {
            if cr.white_kingside {
                out.append("K");
            }
            if cr.white_queenside {
                out.append("Q");
            }
            if cr.black_kingside {
                out.append("k");
            }
            if cr.black_queenside {
                out.append("q");
            }
        }
        out.append(" ");
        match self.en_passant {
            Some(sq) => {
                match crate::coord::convert_to_text_notation(&sq) {
                    Ok(t) => out.append(t.as_str()),
                    Err(_) => {
                        proof {
                            assert(false);
                        }
                    },
                }
            },
            None => out.append("-"),
        }
        out.append(" ");
        append_decimal(&mut out, self.halfmove_clock);
        out.append(" ");
        append_decimal(&mut out, self.fullmoves);
        proof {
            assert(out@ =~= fen_of(*self));
        }
        out
    }
}

/// A character the board field may hold: a run digit or a piece letter.
pub open spec fn is_board_char(c: char) -> bool {
    is_run_digit(c) || piece_of_char(c) is Some
}

/// No character of the string is whitespace.
pub open spec fn no_ws(s: Seq<char>) -> bool {
    forall|i: int| 0 <= i < s.len() ==> !is_ws(#[trigger] s[i])
}

/// Board-field characters are neither whitespace nor separators.
proof fn lemma_board_char_props(c: char)
    requires
        is_board_char(c),
    ensures
        !is_ws(c),
        c != '/',
{
}

/// Concatenation preserves freedom from whitespace.
proof fn lemma_no_ws_concat(a: Seq<char>, b: Seq<char>)
    requires
        no_ws(a),
        no_ws(b),
    ensures
        no_ws(a + b),
{
    assert forall|i: int| 0 <= i < (a + b).len() implies !is_ws((a + b)[i]) by {
        if i < a.len() {
            assert((a + b)[i] == a[i]);
        } else {
            assert((a + b)[i] == b[i - a.len()]);
        }
    }
}

/// Run-length encoding inverts: parsing the encoding of a short run of
/// cells, with a pending count carried in, yields the pending empties and
/// those cells; and the encoding uses board-field characters only.
proof fn lemma_rle_rank(cells: Seq<Piece>, pending: int)
    requires
        0 <= pending,
        cells.len() + pending <= 8,
    ensures
        rank_cells(rle_aux(cells, pending)) == Some(empties(pending as nat) + cells),
        forall|i: int|
            0 <= i < rle_aux(cells, pending).len() ==> is_board_char(
                #[trigger] rle_aux(cells, pending)[i],
            ),
    decreases cells.len(),
{
    let out = rle_aux(cells, pending);
    if cells.len() == 0 {
        if pending == 0 {
            assert(out =~= Seq::<char>::empty());
            assert(empties(0) + cells =~= Seq::<Piece>::empty());
        } else {
            assert(out == seq![run_digit(pending)]);
            assert(out[0] == run_digit(pending));
            assert(is_run_digit(run_digit(pending)));
            assert(out.skip(1) =~= Seq::<char>::empty());
            assert(rank_cells(Seq::<char>::empty()) == Some(Seq::<Piece>::empty()));
            assert(rank_cells(out) == Some(
                empties(run_val(run_digit(pending)) as nat) + Seq::<Piece>::empty(),
            ));
            assert(empties(run_val(run_digit(pending)) as nat) + Seq::<Piece>::empty()
                =~= empties(pending as nat) + cells);
        }
    } else if cells[0] == Piece::Empty {
        lemma_rle_rank(cells.skip(1), pending + 1);
        assert(out == rle_aux(cells.skip(1), pending + 1));
        assert(empties((pending + 1) as nat) + cells.skip(1) =~= empties(pending as nat) + cells);
    } else {
        lemma_rle_rank(cells.skip(1), 0);
        let ch = char_of_piece(cells[0]);
        let tail = rle_aux(cells.skip(1), 0);
        assert(empties(0) + cells.skip(1) =~= cells.skip(1));
        assert(rank_cells(tail) == Some(cells.skip(1)));
        let one = seq![ch] + tail;
        assert(one[0] == ch);
        assert(one.skip(1) =~= tail);
        assert(piece_of_char(ch) == Some(cells[0]));
        assert(!is_run_digit(ch));
        assert(rank_cells(one) == Some(seq![cells[0]] + cells.skip(1)));
        assert(seq![cells[0]] + cells.skip(1) =~= cells);
        if pending == 0 {
            assert(out =~= one);
            assert(empties(0) + cells =~= cells);
        } else {
            assert(out =~= seq![run_digit(pending)] + one);
            let full = seq![run_digit(pending)] + one;
            assert(full[0] == run_digit(pending));
            assert(is_run_digit(run_digit(pending)));
            assert(full.skip(1) =~= one);
            assert(rank_cells(full) == Some(empties(run_val(run_digit(pending)) as nat) + cells));
            assert(empties(run_val(run_digit(pending)) as nat) + cells =~= empties(
                pending as nat,
            ) + cells);
        }
        assert forall|i: int| 0 <= i < out.len() implies is_board_char(out[i]) by {
            let pd = pending_digits(pending);
            assert(out == pd + seq![ch] + tail);
            if i < pd.len() {
                assert(out[i] == run_digit(pending));
            } else if i == pd.len() {
                assert(out[i] == ch);
            } else {
                assert(out[i] == tail[i - pd.len() - 1]);
            }
        }
    }
}

/// A rank of a well-formed board round-trips through its rank string.
proof fn lemma_rank_field_round_trip(row: Seq<Piece>)
    requires
        row.len() == 8,
    ensures
        valid_rank_field(rank_field(row)),
        cells_of_rank(rank_field(row)) == row,
        forall|i: int|
            0 <= i < rank_field(row).len() ==> is_board_char(#[trigger] rank_field(row)[i]),
        rank_field(row).len() >= 1,
        no_ws(rank_field(row)),
{
    lemma_rle_rank(row, 0);
    assert(empties(0) + row =~= row);
    if rank_field(row).len() == 0 {
        assert(rank_field(row) =~= Seq::<char>::empty());
        assert(rank_cells(rank_field(row)) == Some(Seq::<Piece>::empty()));
    }
    assert forall|i: int| 0 <= i < rank_field(row).len() implies !is_ws(rank_field(row)[i]) by {
        lemma_board_char_props(rank_field(row)[i]);
    }
}

/// The board field of a well-formed board splits back into its eight rank
/// strings; and it is non-empty and whitespace-free.
proof fn lemma_board_field_parts(b: Seq<Piece>, r: int)
    requires
        b.len() == 64,
        0 <= r <= 7,
    ensures
        split_slash(board_field_from(b, r)).len() == 8 - r,
        forall|i: int|
            0 <= i < 8 - r ==> #[trigger] split_slash(board_field_from(b, r))[i] == rank_field(
                row_cells(b, r + i),
            ),
        board_field_from(b, r).len() >= 1,
        no_ws(board_field_from(b, r)),
    decreases 8 - r,
{
    let rf = rank_field(row_cells(b, r));
    lemma_rank_field_round_trip(row_cells(b, r));
    let s = board_field_from(b, r);
    if r == 7 {
        assert(s == rf);
        assert forall|j: int| 0 <= j < rf.len() implies #[trigger] rf[j] != '/' by {
            lemma_board_char_props(rf[j]);
        }
        lemma_split_slash_run(rf, 0, rf.len() as int);
        assert(rf.skip(0) =~= rf);
        assert(rf.subrange(0, rf.len() as int) =~= rf);
        assert(split_slash(s) == seq![rf]);
    } else {
        lemma_board_field_parts(b, r + 1);
        let rest = board_field_from(b, r + 1);
        assert(s == rf + seq!['/'] + rest);
        assert forall|j: int| 0 <= j < rf.len() implies #[trigger] s[j] != '/' by {
            assert(s[j] == rf[j]);
            lemma_board_char_props(rf[j]);
        }
        assert(s[rf.len() as int] == '/');
        lemma_split_slash_run(s, 0, rf.len() as int);
        assert(s.skip(0) =~= s);
        assert(s.subrange(0, rf.len() as int) =~= rf);
        assert(s.skip(rf.len() as int + 1) =~= rest);
        assert(split_slash(s) == seq![rf] + split_slash(rest));
        assert forall|i: int| 0 <= i < 8 - r implies #[trigger] split_slash(s)[i] == rank_field(
            row_cells(b, r + i),
        ) by {
            if i == 0 {
                assert(split_slash(s)[0] == rf);
            } else {
                assert(split_slash(s)[i] == split_slash(rest)[i - 1]);
            }
        }
        lemma_no_ws_concat(rf, seq!['/']);
        assert(no_ws(seq!['/'])) by {
            assert(seq!['/'][0] == '/');
        }
        lemma_no_ws_concat(rf + seq!['/'], rest);
        assert(s =~= (rf + seq!['/']) + rest);
    }
}

/// The cells a board field's rows denote, row `i` on, are the matching
/// tail of the board they were exported from.
proof fn lemma_rows_cells_assemble(b: Seq<Piece>, rows: Seq<Seq<char>>, i: int)
    requires
        b.len() == 64,
        rows.len() == 8,
        0 <= i <= 8,
        forall|j: int| 0 <= j < 8 ==> #[trigger] rows[j] == rank_field(row_cells(b, j)),
    ensures
        rows_cells(rows, i) == b.subrange(8 * i, 64),
    decreases 8 - i,
{
    if i == 8 {
        assert(b.subrange(64, 64) =~= Seq::<Piece>::empty());
    } else {
        lemma_rows_cells_assemble(b, rows, i + 1);
        lemma_rank_field_round_trip(row_cells(b, i));
        assert(cells_of_rank(rows[i]) == row_cells(b, i));
        assert(row_cells(b, i) + b.subrange(8 * (i + 1), 64) =~= b.subrange(8 * i, 64));
    }
}

/// A concatenation holds a character exactly when one of its halves does.
proof fn lemma_contains_concat(a: Seq<char>, b: Seq<char>, c: char)
    ensures
        contains_char(a + b, c) <==> (contains_char(a, c) || contains_char(b, c)),
{
    if contains_char(a + b, c) {
        let i = choose|i: int| 0 <= i < (a + b).len() && (a + b)[i] == c;
        if i < a.len() {
            assert(a[i] == c);
        } else {
            assert(b[i - a.len()] == c);
        }
    }
    if contains_char(a, c) {
        let i = choose|i: int| 0 <= i < a.len() && a[i] == c;
        assert((a + b)[i] == c);
    }
    if contains_char(b, c) {
        let i = choose|i: int| 0 <= i < b.len() && b[i] == c;
        assert((a + b)[i + a.len()] == c);
    }
}

/// A one-character string holds exactly that character.
proof fn lemma_contains_singleton(x: char, c: char)
    ensures
        contains_char(seq![x], c) <==> x == c,
{
    if x == c {
        assert(seq![x][0] == c);
    }
    if contains_char(seq![x], c) {
        let i = choose|i: int| 0 <= i < seq![x].len() && seq![x][i] == c;
        assert(seq![x][i] == x);
    }
}

/// The empty string holds no character.
proof fn lemma_contains_empty(c: char)
    ensures
        !contains_char(Seq::<char>::empty(), c),
{
    if contains_char(Seq::<char>::empty(), c) {
        let i = choose|i: int| 0 <= i < Seq::<char>::empty().len() && Seq::<char>::empty()[i] == c;
    }
}

/// One right's letter within the castling field reports exactly that
/// right, whichever other rights stand beside it.
proof fn lemma_castling_contains(cr: CastlingRights, c: char)
    requires
        c == 'K' || c == 'Q' || c == 'k' || c == 'q',
    ensures
        contains_char(castling_field(cr), c) <==> (match c {
            'K' => cr.white_kingside,
            'Q' => cr.white_queenside,
            'k' => cr.black_kingside,
            _ => cr.black_queenside,
        }),
{
    let p1: Seq<char> = if cr.white_kingside {
        seq!['K']
    } else {
        Seq::<char>::empty()
    };
    let p2: Seq<char> = if cr.white_queenside {
        seq!['Q']
    } else {
        Seq::<char>::empty()
    };
    let p3: Seq<char> = if cr.black_kingside {
        seq!['k']
    } else {
        Seq::<char>::empty()
    };
    let p4: Seq<char> = if cr.black_queenside {
        seq!['q']
    } else {
        Seq::<char>::empty()
    };
    lemma_contains_singleton('K', c);
    lemma_contains_singleton('Q', c);
    lemma_contains_singleton('k', c);
    lemma_contains_singleton('q', c);
    lemma_contains_singleton('-', c);
    lemma_contains_empty(c);
    if !(cr.white_kingside || cr.white_queenside || cr.black_kingside || cr.black_queenside) {
        assert(castling_field(cr) == seq!['-']);
    } else {
        assert(castling_field(cr) == p1 + p2 + p3 + p4);
        lemma_contains_concat(p1, p2, c);
        lemma_contains_concat(p1 + p2, p3, c);
        lemma_contains_concat(p1 + p2 + p3, p4, c);
    }
}

/// The castling field round-trips: parsing the exported field grants
/// exactly the rights that were held.
proof fn lemma_castling_round_trip(cr: CastlingRights)
    ensures
        rights_of_field(castling_field(cr)) == cr,
{
    lemma_castling_contains(cr, 'K');
    lemma_castling_contains(cr, 'Q');
    lemma_castling_contains(cr, 'k');
    lemma_castling_contains(cr, 'q');
}

/// The castling field is non-empty and whitespace-free.
proof fn lemma_castling_field_chars(cr: CastlingRights)
    ensures
        castling_field(cr).len() >= 1,
        no_ws(castling_field(cr)),
{
    let f = castling_field(cr);
    assert forall|i: int| 0 <= i < f.len() implies !is_ws(f[i]) by {
        assert(contains_char(f, f[i]));
        lemma_castling_contains(cr, 'K');
        if is_ws(f[i]) {
            let p1: Seq<char> = if cr.white_kingside {
                seq!['K']
            } else {
                Seq::<char>::empty()
            };
            let p2: Seq<char> = if cr.white_queenside {
                seq!['Q']
            } else {
                Seq::<char>::empty()
            };
            let p3: Seq<char> = if cr.black_kingside {
                seq!['k']
            } else {
                Seq::<char>::empty()
            };
            let p4: Seq<char> = if cr.black_queenside {
                seq!['q']
            } else {
                Seq::<char>::empty()
            };
            if f == seq!['-'] {
                assert(f[i] == '-');
            } else {
                assert(f == p1 + p2 + p3 + p4);
                if i < p1.len() {
                    assert(f[i] == 'K');
                } else if i < p1.len() + p2.len() {
                    assert(f[i] == 'Q');
                } else if i < p1.len() + p2.len() + p3.len() {
                    assert(f[i] == 'k');
                } else {
                    assert(f[i] == 'q');
                }
            }
        }
    }
}

/// Decimal numerals round-trip: the numeral of `n` is a non-empty digit
/// string whose value is `n` again.
proof fn lemma_dec_chars_val(n: int)
    requires
        0 <= n,
    ensures
        dec_chars(n).len() >= 1,
        forall|i: int| 0 <= i < dec_chars(n).len() ==> is_dec_digit(#[trigger] dec_chars(n)[i]),
        dec_val(dec_chars(n)) == n,
        no_ws(dec_chars(n)),
    decreases n,
{
    assert(dec_val(Seq::<char>::empty()) == 0);
    if n < 10 {
        assert(dec_chars(n) == seq![dec_digit_char(n)]);
        assert(dec_chars(n).drop_last() =~= Seq::<char>::empty());
        assert(dec_chars(n).last() == dec_digit_char(n));
        assert(dec_val(dec_chars(n)) == dec_val(Seq::<char>::empty()) * 10 + dec_digit_val(
            dec_digit_char(n),
        ));
    } else {
        lemma_dec_chars_val(n / 10);
        let hi = dec_chars(n / 10);
        let dc = dec_chars(n);
        assert(dc == hi + seq![dec_digit_char(n % 10)]);
        assert(dc.drop_last() =~= hi);
        assert(dc.last() == dec_digit_char(n % 10));
        assert(dec_val(dc) == dec_val(hi) * 10 + dec_digit_val(dec_digit_char(n % 10)));
        assert(dec_digit_val(dec_digit_char(n % 10)) == n % 10);
        assert(n / 10 * 10 + n % 10 == n);
        assert forall|i: int| 0 <= i < dc.len() implies is_dec_digit(dc[i]) by {
            if i < hi.len() {
                assert(dc[i] == hi[i]);
            } else {
                assert(dc[i] == dec_digit_char(n % 10));
            }
        }
    }
    assert forall|i: int| 0 <= i < dec_chars(n).len() implies !is_ws(dec_chars(n)[i]) by {
        assert(is_dec_digit(dec_chars(n)[i]));
    }
}

/// A single whitespace-free word followed by a space tokenizes to that
/// word and then the tokens of the remainder.
proof fn lemma_tokens_sep(a: Seq<char>, rest: Seq<char>)
    requires
        a.len() >= 1,
        no_ws(a),
    ensures
        ws_tokens(a + seq![' '] + rest) == seq![a] + ws_tokens(rest),
{
    let s = a + seq![' '] + rest;
    assert forall|j: int| 0 <= j < a.len() implies !is_ws(#[trigger] s[j]) by {
        assert(s[j] == a[j]);
    }
    assert(s[a.len() as int] == ' ');
    lemma_ws_tokens_word(s, 0, a.len() as int);
    assert(s.skip(0) =~= s);
    assert(s.subrange(0, a.len() as int) =~= a);
    let after = s.skip(a.len() as int);
    assert(after[0] == ' ');
    assert(after.skip(1) =~= rest);
    assert(ws_tokens(after) == ws_tokens(rest));
    assert(seq![s.subrange(0, a.len() as int)] =~= seq![a]);
}

/// A lone whitespace-free word tokenizes to itself.
proof fn lemma_tokens_single(a: Seq<char>)
    requires
        a.len() >= 1,
        no_ws(a),
    ensures
        ws_tokens(a) == seq![a],
{
    lemma_ws_tokens_word(a, 0, a.len() as int);
    assert(a.skip(0) =~= a);
    assert(a.subrange(0, a.len() as int) =~= a);
    assert(a.skip(a.len() as int) =~= Seq::<char>::empty());
    assert(ws_tokens(Seq::<char>::empty()) == Seq::<Seq<char>>::empty());
    assert(seq![a.subrange(0, a.len() as int)] =~= seq![a]);
    assert(seq![a] + Seq::<Seq<char>>::empty() =~= seq![a]);
}

/// The en-passant field is non-empty, whitespace-free, and `-` exactly
/// when no target is held.
proof fn lemma_ep_field_chars(ep: Option<Square>)
    requires
        match ep {
            Some(sq) => (sq.0 == 2 || sq.0 == 5) && sq.1 <= 7,
            None => true,
        },
    ensures
        ep_field(ep).len() >= 1,
        no_ws(ep_field(ep)),
        ep matches Some(sq) ==> ep_field(ep) != seq!['-'],
{
    match ep {
        None => {
            assert(seq!['-'][0] == '-');
        },
        Some(sq) => {
            let f = square_chars(sq);
            assert(f.len() == 2);
            assert(f[0] == crate::coord::letter_of_file(sq.1 as int));
            assert(f[1] == crate::coord::digit_of_rank(sq.0 as int));
            assert(!is_ws(f[0]));
            assert(!is_ws(f[1]));
            assert forall|i: int| 0 <= i < f.len() implies !is_ws(f[i]) by {
                assert(i == 0 || i == 1);
            }
        },
    }
}

/// Exporting a well-formed position and parsing the result reproduces
/// the position, field for field: the interchange string is valid and
/// every component parses back to what was exported.
#[verifier::rlimit(100)]
pub proof fn lemma_parse_export_round_trip(pos: BoardState)
    requires
        pos.wf(),
    ensures
        valid_fen(fen_of(pos)),
        ws_tokens(fen_of(pos)).len() == 6,
        board_of_field(ws_tokens(fen_of(pos))[0]) == pos.board@,
        turn_of_field(ws_tokens(fen_of(pos))[1]) == pos.turn,
        rights_of_field(ws_tokens(fen_of(pos))[2]) == pos.castling_rights,
        ep_of_field(ws_tokens(fen_of(pos))[3]) == pos.en_passant,
        dec_val(ws_tokens(fen_of(pos))[4]) == pos.halfmove_clock,
        dec_val(ws_tokens(fen_of(pos))[5]) == pos.fullmoves,
{
    let b = pos.board@;
    let bf = board_field(b);
    let tf = turn_field(pos.turn);
    let cf = castling_field(pos.castling_rights);
    let ef = ep_field(pos.en_passant);
    let hf = dec_chars(pos.halfmove_clock as int);
    let ff = dec_chars(pos.fullmoves as int);
    lemma_board_field_parts(b, 0);
    lemma_castling_field_chars(pos.castling_rights);
    lemma_ep_field_chars(pos.en_passant);
    lemma_dec_chars_val(pos.halfmove_clock as int);
    lemma_dec_chars_val(pos.fullmoves as int);
    assert(tf.len() == 1 && no_ws(tf)) by {
        assert(tf[0] == 'w' || tf[0] == 'b');
        assert forall|i: int| 0 <= i < tf.len() implies !is_ws(tf[i]) by {
            assert(i == 0);
        }
    }
    // Tokenization: peel the six fields off one separator at a time.
    let s = fen_of(pos);
    let r2 = cf + seq![' '] + ef + seq![' '] + hf + seq![' '] + ff;
    let r1 = tf + seq![' '] + r2;
    assert(s =~= bf + seq![' '] + r1);
    lemma_tokens_sep(bf, r1);
    assert(r1 =~= tf + seq![' '] + r2);
    lemma_tokens_sep(tf, r2);
    let r3 = ef + seq![' '] + hf + seq![' '] + ff;
    assert(r2 =~= cf + seq![' '] + r3);
    lemma_tokens_sep(cf, r3);
    let r4 = hf + seq![' '] + ff;
    assert(r3 =~= ef + seq![' '] + r4);
    lemma_tokens_sep(ef, r4);
    assert(r4 =~= hf + seq![' '] + ff);
    lemma_tokens_sep(hf, ff);
    lemma_tokens_single(ff);
    let t = ws_tokens(s);
    assert(t =~= seq![bf, tf, cf, ef, hf, ff]);
    // Board field: the eight ranks round-trip and reassemble the grid.
    let rows = split_slash(bf);
    assert(rows.len() == 8);
    assert forall|j: int| 0 <= j < 8 implies #[trigger] rows[j] == rank_field(row_cells(b, j)) by {
        assert(split_slash(board_field_from(b, 0))[j] == rank_field(row_cells(b, 0 + j)));
    }
    assert forall|j: int| 0 <= j < 8 implies valid_rank_field(#[trigger] rows[j]) by {
        lemma_rank_field_round_trip(row_cells(b, j));
    }
    lemma_rows_cells_assemble(b, rows, 0);
    assert(b.subrange(0, 64) =~= b);
    // Castling, en-passant, clocks.
    lemma_castling_round_trip(pos.castling_rights);
    match pos.en_passant {
        None => {},
        Some(sq) => {
            crate::coord::lemma_square_round_trip(sq);
        },
    }
}

} // verus!
