use chess_core::coord::convert_str_to_u8;
use chess_core::coord::convert_to_text_notation;
use chess_core::coord::get_relative_coords;
use chess_core::coord::ConvertSquareToStrError;
use chess_core::coord::ConvertStrToU8Error;
use chess_core::coord::RelMov;
use chess_core::coord::Square;

#[test]
fn test_convert_str_to_u8() {
    let temp = convert_str_to_u8("a8").ok().unwrap();
    assert_eq!((temp.0, temp.1), (0, 0));
    let temp = convert_str_to_u8("h1").ok().unwrap();
    assert_eq!((temp.0, temp.1), (7, 7));
    let temp = convert_str_to_u8("e4").ok().unwrap();
    assert_eq!((temp.0, temp.1), (4, 4));
}

#[test]
fn test_convert_to_text_notation() {
    assert_eq!(convert_to_text_notation(&Square(0, 0)).ok().unwrap(), "a8");
    assert_eq!(convert_to_text_notation(&Square(7, 7)).ok().unwrap(), "h1");
    assert_eq!(convert_to_text_notation(&Square(4, 4)).ok().unwrap(), "e4");
}

#[test]
fn parse_square_is_case_insensitive_and_ignores_trailing() {
    assert_eq!(convert_str_to_u8("E4").ok().unwrap(), Square(4, 4));
    assert_eq!(convert_str_to_u8("H8").ok().unwrap(), Square(0, 7));
    assert_eq!(convert_str_to_u8("e4xyz").ok().unwrap(), Square(4, 4));
}

#[test]
fn parse_square_errors() {
    assert_eq!(
        convert_str_to_u8("").err().unwrap(),
        ConvertStrToU8Error::ArgumentTooShort
    );
    assert_eq!(
        convert_str_to_u8("e").err().unwrap(),
        ConvertStrToU8Error::ArgumentTooShort
    );
    assert_eq!(
        convert_str_to_u8("e!").err().unwrap(),
        ConvertStrToU8Error::ArgumentIsNotConvertibleToNumber
    );
    assert_eq!(
        convert_str_to_u8("e0").err().unwrap(),
        ConvertStrToU8Error::ArgumentIsNotConvertibleToNumber
    );
    assert_eq!(
        convert_str_to_u8("e9").err().unwrap(),
        ConvertStrToU8Error::ArgumentIsNotConvertibleToNumber
    );
    assert_eq!(
        convert_str_to_u8("z4").err().unwrap(),
        ConvertStrToU8Error::LetterOutOfRange
    );
    // The letter is judged once the second character is a decimal digit,
    // even one outside the rank range 1-8.
    assert_eq!(
        convert_str_to_u8("z0").err().unwrap(),
        ConvertStrToU8Error::LetterOutOfRange
    );
    assert_eq!(
        convert_str_to_u8("z9").err().unwrap(),
        ConvertStrToU8Error::LetterOutOfRange
    );
    // A non-digit second character is reported before the letter.
    assert_eq!(
        convert_str_to_u8("z!").err().unwrap(),
        ConvertStrToU8Error::ArgumentIsNotConvertibleToNumber
    );
}

#[test]
fn format_square_errors() {
    assert_eq!(
        convert_to_text_notation(&Square(0, 8)).err().unwrap(),
        ConvertSquareToStrError::IncorrectHorizontalInput
    );
    assert_eq!(
        convert_to_text_notation(&Square(8, 0)).err().unwrap(),
        ConvertSquareToStrError::IncorrectVerticalInput
    );
}

#[test]
fn square_round_trip_all_squares() {
    for rank in 0u8..8 {
        for file in 0u8..8 {
            let text = convert_to_text_notation(&Square(rank, file)).ok().unwrap();
            let back = convert_str_to_u8(&text).ok().unwrap();
            assert_eq!(back, Square(rank, file));
        }
    }
}

#[test]
fn format_normalizes_parsed_text() {
    let sq = convert_str_to_u8("C6").ok().unwrap();
    assert_eq!(convert_to_text_notation(&sq).ok().unwrap(), "c6");
}

#[test]
fn relative_coords_in_and_out_of_bounds() {
    assert_eq!(
        get_relative_coords(Square(4, 4), RelMov { x: -1, y: 2 }),
        Some(Square(3, 6))
    );
    assert_eq!(get_relative_coords(Square(0, 0), RelMov { x: -1, y: 0 }), None);
    assert_eq!(get_relative_coords(Square(7, 7), RelMov { x: 0, y: 1 }), None);
}
