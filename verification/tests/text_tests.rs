use mysz_core::utils::location::Location;
use mysz_core::utils::text::{debug_quoted, i64_to_string, parse_i64, spaces_string, split_lines, usize_to_string};
use mysz_core::utils::toident::to_ident;
use mysz_core::lexing::lexing::{Token, TokenType};

#[test]
fn reads_signed_integers_as_std_does() {
    for s in ["0", "+17", "-17", "9223372036854775807", "-9223372036854775808", "", "-", "1a", "9223372036854775808", "-9223372036854775809", "99999999999999999999999"] {
        assert_eq!(parse_i64(s), s.parse::<i64>().ok(), "{}", s);
    }
}

#[test]
fn writes_integers_in_decimal() {
    assert_eq!(usize_to_string(0), "0");
    assert_eq!(usize_to_string(1234567), "1234567");
    assert_eq!(i64_to_string(i64::MIN), i64::MIN.to_string());
    assert_eq!(i64_to_string(-5), "-5");
}

#[test]
fn splits_lines_as_std_does() {
    for s in ["", "a", "a\n", "a\n\nb", "a\r\nb\r", "\n", "x\r\n\r\n"] {
        let expected: Vec<String> = s.lines().map(|l| l.to_string()).collect();
        assert_eq!(split_lines(s), expected, "{:?}", s);
    }
}

#[test]
fn quotes_and_pads() {
    assert_eq!(debug_quoted("a\"b\n"), "\"a\\\"b\\n\"");
    assert_eq!(spaces_string(3), "   ");
    assert_eq!(spaces_string(0), "");
}

#[test]
fn tokens_become_identifiers() {
    let t = Token { ttype: TokenType::Identifier, location: Location::new(2, 3, "f"), value: "v".to_string() };
    let id = to_ident(Some(t)).unwrap();
    assert_eq!(id.value, "v");
    assert_eq!(id.location.line, 2);
    assert!(to_ident(None).is_none());
}

#[test]
fn locations_are_written_with_line_and_column() {
    assert_eq!(Location::new(3, 9, "f").to_text(), "li = 3, co = 9");
}
