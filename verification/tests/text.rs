use roon_api::text::{
    begins_with, chars_of, contains_text, index_of, index_past, parse_signed, parse_unsigned,
    same_text, split_text, to_decimal, ParseIntError,
};

#[test]
fn numbers_are_written_and_read_back() {
    for n in [0usize, 7, 10, 99, 100, 12345, usize::MAX] {
        assert_eq!(to_decimal(n), n.to_string());
        assert_eq!(parse_unsigned(&to_decimal(n)), Some(n));
    }
}

#[test]
fn unsigned_numbers_are_parsed_as_by_the_standard_library() {
    let texts = [
        "", "+", "-", "0", "+5", "-5", "--5", "++5", "007", "12a", " 1", "1 ",
        "18446744073709551615", "18446744073709551616", "99999999999999999999999", "\u{0665}",
    ];
    for text in texts {
        assert_eq!(parse_unsigned(text), text.parse::<usize>().ok(), "{}", text);
    }
}

#[test]
fn signed_numbers_are_parsed_as_by_the_standard_library() {
    let texts = [
        "", "+", "-", "0", "-0", "+5", "-5", "2147483647", "2147483648", "-2147483648",
        "-2147483649", "12a", "9999999999a", "a", "-a", "99999999999", "-99999999999",
    ];
    for text in texts {
        let expected = match text.parse::<i32>() {
            Ok(n) => Ok(n),
            Err(e) => Err(format!("{:?}", e.kind())),
        };
        let found = match parse_signed(text) {
            Ok(n) => Ok(n),
            Err(ParseIntError::Empty) => Err("Empty".to_string()),
            Err(ParseIntError::InvalidDigit) => Err("InvalidDigit".to_string()),
            Err(ParseIntError::PosOverflow) => Err("PosOverflow".to_string()),
            Err(ParseIntError::NegOverflow) => Err("NegOverflow".to_string()),
        };
        assert_eq!(found, expected, "{}", text);
    }
}

#[test]
fn texts_are_split_at_each_separator() {
    assert_eq!(split_text("a:b::c", ':'), vec!["a", "b", "", "c"]);
    assert_eq!(split_text("", ':'), vec![""]);
    assert_eq!(split_text(":", ':'), vec!["", ""]);
    assert_eq!(split_text("\u{e4}\n\u{1f3b5}", '\n'), vec!["\u{e4}", "\u{1f3b5}"]);
}

#[test]
fn parts_of_texts_are_found() {
    assert!(contains_text("subscribe_status:1:2", "status:1"));
    assert!(contains_text("abc", ""));
    assert!(contains_text("", ""));
    assert!(!contains_text("abc", "abcd"));
    assert!(!contains_text("abc", "ac"));
    assert!(same_text("\u{e4}", "\u{e4}"));
    assert!(!same_text("a", "ab"));
    assert!(begins_with(&chars_of("MOO/1"), "MOO/"));
    assert!(!begins_with(&chars_of("MOO"), "MOO/"));
    assert_eq!(index_of(&chars_of("a/b/c"), '/', 2), 3);
    assert_eq!(index_of(&chars_of("abc"), '/', 0), 3);
    assert_eq!(index_past(&chars_of("//a/"), '/', 0), 2);
}
