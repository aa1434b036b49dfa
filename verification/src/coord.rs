//! Coordinate codec: algebraic square notation ("e4") to and from the
//! canonical (rank, file) representation, plus relative-offset arithmetic.
//!
//! Canonical convention: rank 0 is the 8th rank, rank 7 the 1st rank;
//! file 0 is file a, file 7 is file h. So (0, 0) is a8.
use vstd::prelude::*;

verus! {

/// A board square as (rank, file), each meant to lie in [0, 7].
#[derive(Clone, Copy, Debug, PartialEq, Eq, Structural)]
pub struct Square(pub u8, pub u8);

/// A candidate step relative to a square: `x` is the rank delta,
/// `y` the file delta.
#[derive(Clone, Copy, Debug, PartialEq, Eq, Structural)]
pub struct RelMov {
    pub x: i8,
    pub y: i8,
}

/// Failure kinds of [`convert_str_to_u8`].
#[derive(Clone, Copy, Debug, PartialEq, Eq, Structural)]
pub enum ConvertStrToU8Error {
    LetterOutOfRange,
    ArgumentTooShort,
    ArgumentIsNotConvertibleToNumber,
}

/// Failure kinds of [`convert_to_text_notation`].
#[derive(Clone, Copy, Debug, PartialEq, Eq, Structural)]
pub enum ConvertSquareToStrError {
    IncorrectHorizontalInput,
    IncorrectVerticalInput,
}

/// Both coordinates lie on the 8x8 board.
pub open spec fn square_in_range(sq: Square) -> bool {
    sq.0 <= 7 && sq.1 <= 7
}

/// The character is a file letter a-h, either case.
pub open spec fn is_file_letter(c: char) -> bool {
    ||| c == 'a' || c == 'A'
    ||| c == 'b' || c == 'B'
    ||| c == 'c' || c == 'C'
    ||| c == 'd' || c == 'D'
    ||| c == 'e' || c == 'E'
    ||| c == 'f' || c == 'F'
    ||| c == 'g' || c == 'G'
    ||| c == 'h' || c == 'H'
}

/// File index denoted by a file letter.
pub open spec fn file_of_letter(c: char) -> int {
    if c == 'a' || c == 'A' {
        0
    } else if c == 'b' || c == 'B' {
        1
    } else if c == 'c' || c == 'C' {
        2
    } else if c == 'd' || c == 'D' {
        3
    } else if c == 'e' || c == 'E' {
        4
    } else if c == 'f' || c == 'F' {
        5
    } else if c == 'g' || c == 'G' {
        6
    } else {
        7
    }
}

/// Lower-case file letter for a file index in [0, 7].
pub open spec fn letter_of_file(f: int) -> char {
    if f == 0 {
        'a'
    } else if f == 1 {
        'b'
    } else if f == 2 {
        'c'
    } else if f == 3 {
        'd'
    } else if f == 4 {
        'e'
    } else if f == 5 {
        'f'
    } else if f == 6 {
        'g'
    } else {
        'h'
    }
}

/// The lower-case form of a file letter.
pub open spec fn lower_file_letter(c: char) -> char {
    if c == 'A' {
        'a'
    } else if c == 'B' {
        'b'
    } else if c == 'C' {
        'c'
    } else if c == 'D' {
        'd'
    } else if c == 'E' {
        'e'
    } else if c == 'F' {
        'f'
    } else if c == 'G' {
        'g'
    } else if c == 'H' {
        'h'
    } else {
        c
    }
}

/// The character is a rank digit 1-8.
pub open spec fn is_rank_digit(c: char) -> bool {
    ||| c == '1'
    ||| c == '2'
    ||| c == '3'
    ||| c == '4'
    ||| c == '5'
    ||| c == '6'
    ||| c == '7'
    ||| c == '8'
}

/// Rank index denoted by a rank digit (digit 8 names rank 0).
pub open spec fn rank_of_digit(c: char) -> int {
    if c == '8' {
        0
    } else if c == '7' {
        1
    } else if c == '6' {
        2
    } else if c == '5' {
        3
    } else if c == '4' {
        4
    } else if c == '3' {
        5
    } else if c == '2' {
        6
    } else {
        7
    }
}

/// Digit character naming a rank index in [0, 7] (rank 0 is the 8th rank).
pub open spec fn digit_of_rank(r: int) -> char {
    if r == 0 {
        '8'
    } else if r == 1 {
        '7'
    } else if r == 2 {
        '6'
    } else if r == 3 {
        '5'
    } else if r == 4 {
        '4'
    } else if r == 5 {
        '3'
    } else if r == 6 {
        '2'
    } else {
        '1'
    }
}

/// The character is a decimal digit.
pub open spec fn is_dec_digit(c: char) -> bool {
    ||| c == '0'
    ||| c == '1'
    ||| c == '2'
    ||| c == '3'
    ||| c == '4'
    ||| c == '5'
    ||| c == '6'
    ||| c == '7'
    ||| c == '8'
    ||| c == '9'
}

/// A string denotes a square when its first character is a file letter and
/// its second a rank digit 1-8; further characters are ignored.
pub open spec fn valid_square_chars(s: Seq<char>) -> bool {
    s.len() >= 2 && is_file_letter(s[0]) && is_rank_digit(s[1])
}

/// The square denoted by a valid square string.
pub open spec fn square_of_chars(s: Seq<char>) -> Square {
    Square(rank_of_digit(s[1]) as u8, file_of_letter(s[0]) as u8)
}

/// The canonical two-character text form of an in-range square.
pub open spec fn square_chars(sq: Square) -> Seq<char> {
    seq![letter_of_file(sq.1 as int), digit_of_rank(sq.0 as int)]
}

/// The square an offset leads to from a square, if it stays on the board.
pub open spec fn offset_target(square: Square, offset: RelMov) -> Option<Square> {
    let r = square.0 as int + offset.x as int;
    let f = square.1 as int + offset.y as int;
    if 0 <= r <= 7 && 0 <= f <= 7 {
        Some(Square(r as u8, f as u8))
    } else {
        None
    }
}

/// Parses algebraic notation such as "e4" into the canonical square,
/// where (0, 0) is a8.
pub fn convert_str_to_u8(square: &str) -> (r: Result<Square, ConvertStrToU8Error>)
    ensures
        r is Ok <==> valid_square_chars(square@),
        valid_square_chars(square@) ==> r == Ok::<Square, ConvertStrToU8Error>(
            square_of_chars(square@),
        ),
        square@.len() < 2 ==> r == Err::<Square, ConvertStrToU8Error>(
            ConvertStrToU8Error::ArgumentTooShort,
        ),
        square@.len() >= 2 && !is_dec_digit(square@[1]) ==> r == Err::<
            Square,
            ConvertStrToU8Error,
        >(ConvertStrToU8Error::ArgumentIsNotConvertibleToNumber),
        square@.len() >= 2 && is_dec_digit(square@[1]) && !is_file_letter(square@[0]) ==> r
            == Err::<Square, ConvertStrToU8Error>(ConvertStrToU8Error::LetterOutOfRange),
        square@.len() >= 2 && is_dec_digit(square@[1]) && is_file_letter(square@[0])
            && !is_rank_digit(square@[1]) ==> r == Err::<Square, ConvertStrToU8Error>(
            ConvertStrToU8Error::ArgumentIsNotConvertibleToNumber,
        ),
{
    let n = square.unicode_len();
    if n < 2 {
        return Err(ConvertStrToU8Error::ArgumentTooShort);
    }
    let letter = square.get_char(0);
    let number = square.get_char(1);
    let numeric = number == '0' || number == '1' || number == '2' || number == '3' || number == '4'
        || number == '5' || number == '6' || number == '7' || number == '8' || number == '9';
    if !numeric {
        return Err(ConvertStrToU8Error::ArgumentIsNotConvertibleToNumber);
    }
    let vertical: u8 = if letter == 'a' || letter == 'A' {
        0
    } else if letter == 'b' || letter == 'B' {
        1
    } else if letter == 'c' || letter == 'C' {
        2
    } else if letter == 'd' || letter == 'D' {
        3
    } else if letter == 'e' || letter == 'E' {
        4
    } else if letter == 'f' || letter == 'F' {
        5
    } else if letter == 'g' || letter == 'G' {
        6
    } else if letter == 'h' || letter == 'H' {
        7
    } else {
        return Err(ConvertStrToU8Error::LetterOutOfRange);
    };
    let horizontal: u8 = if number == '8' {
        0
    } else if number == '7' {
        1
    } else if number == '6' {
        2
    } else if number == '5' {
        3
    } else if number == '4' {
        4
    } else if number == '3' {
        5
    } else if number == '2' {
        6
    } else if number == '1' {
        7
    } else {
        // A decimal digit outside the rank range 1-8, i.e. '0' or '9'.
        return Err(ConvertStrToU8Error::ArgumentIsNotConvertibleToNumber);
    };
    Ok(Square(horizontal, vertical))
}

/// Formats a canonical square, where (0, 0) is a8, as algebraic
/// notation such as "d3".
pub fn convert_to_text_notation(square: &Square) -> (r: Result<String, ConvertSquareToStrError>)
    ensures
        r is Ok <==> square_in_range(*square),
        square.1 > 7 ==> r == Err::<String, ConvertSquareToStrError>(
            ConvertSquareToStrError::IncorrectHorizontalInput,
        ),
        square.1 <= 7 && square.0 > 7 ==> r == Err::<String, ConvertSquareToStrError>(
            ConvertSquareToStrError::IncorrectVerticalInput,
        ),
        r matches Ok(t) ==> t@ == square_chars(*square),
{
    if square.1 > 7 {
        return Err(ConvertSquareToStrError::IncorrectHorizontalInput);
    }
    if square.0 > 7 {
        return Err(ConvertSquareToStrError::IncorrectVerticalInput);
    }
    let mut text = String::new();
    if square.1 == 0 {
        text.append("a");
    } else if square.1 == 1 {
        text.append("b");
    } else if square.1 == 2 {
        text.append("c");
    } else if square.1 == 3 {
        text.append("d");
    } else if square.1 == 4 {
        text.append("e");
    } else if square.1 == 5 {
        text.append("f");
    } else if square.1 == 6 {
        text.append("g");
    } else {
        text.append("h");
    }
    if square.0 == 0 {
        text.append("8");
    } else if square.0 == 1 {
        text.append("7");
    } else if square.0 == 2 {
        text.append("6");
    } else if square.0 == 3 {
        text.append("5");
    } else if square.0 == 4 {
        text.append("4");
    } else if square.0 == 5 {
        text.append("3");
    } else if square.0 == 6 {
        text.append("2");
    } else {
        text.append("1");
    }
    proof {
        reveal_strlit("a");
        reveal_strlit("b");
        reveal_strlit("c");
        reveal_strlit("d");
        reveal_strlit("e");
        reveal_strlit("f");
        reveal_strlit("g");
        reveal_strlit("h");
        reveal_strlit("1");
        reveal_strlit("2");
        reveal_strlit("3");
        reveal_strlit("4");
        reveal_strlit("5");
        reveal_strlit("6");
        reveal_strlit("7");
        reveal_strlit("8");
        assert(text@ =~= square_chars(*square));
    }
    Ok(text)
}

/// Adds an offset to a square; `None` when the sum leaves the 8x8 board.
/// This is an in-bounds check only, not an occupancy check.
pub fn get_relative_coords(square: Square, offset: RelMov) -> (r: Option<Square>)
    ensures
        r == offset_target(square, offset),
{
    let rank: i32 = square.0 as i32 + offset.x as i32;
    let file: i32 = square.1 as i32 + offset.y as i32;
    if rank < 0 || rank > 7 || file < 0 || file > 7 {
        None
    } else {
        Some(Square(rank as u8, file as u8))
    }
}

/// Parsing the canonical text form of an in-range square gives the square
/// back: `parseSquare(formatSquare(sq)) == sq`.
pub proof fn lemma_square_round_trip(sq: Square)
    requires
        square_in_range(sq),
    ensures
        valid_square_chars(square_chars(sq)),
        square_of_chars(square_chars(sq)) == sq,
{
}

/// Formatting a parsed square normalizes any valid square string to the
/// canonical two-character form: the lower-cased file letter then the
/// same rank digit.
pub proof fn lemma_square_normalize(s: Seq<char>)
    requires
        valid_square_chars(s),
    ensures
        square_in_range(square_of_chars(s)),
        square_chars(square_of_chars(s)) == seq![lower_file_letter(s[0]), s[1]],
{
    assert(square_chars(square_of_chars(s)) =~= seq![lower_file_letter(s[0]), s[1]]);
}

} // verus!
