use mysz_core::lexing::lexer::{LexError, Lexer};
use mysz_core::lexing::lexing::{token_type_name, Token, TokenType};
use mysz_core::utils::location::Location;

fn lex_ok(src: &str) -> Vec<Token> {
    let mut lx = Lexer::new(src.to_string());
    assert!(lx.lex().is_ok());
    lx.tokens
}

fn kinds(tokens: &[Token]) -> Vec<TokenType> {
    tokens.iter().map(|t| t.ttype).collect()
}

#[test]
fn lexes_an_assignment() {
    let toks = lex_ok("var x = 42;");
    assert_eq!(
        kinds(&toks),
        vec![
            TokenType::VarKeyword,
            TokenType::Identifier,
            TokenType::Assign,
            TokenType::IntLiteral,
            TokenType::SemiColon
        ]
    );
    assert_eq!(toks[1].value, "x");
    assert_eq!(toks[3].value, "42");
    assert_eq!((toks[3].location.line, toks[3].location.col), (0, 8));
}

#[test]
fn lexes_two_character_operators() {
    let toks = lex_ok("a == b != c <= d >= e :: f : g < h > i ! j");
    let ops: Vec<TokenType> = kinds(&toks).into_iter().filter(|k| *k != TokenType::Identifier).collect();
    assert_eq!(
        ops,
        vec![
            TokenType::Equals,
            TokenType::NotEquals,
            TokenType::LessThanEquals,
            TokenType::GreaterThanEquals,
            TokenType::DoubleColon,
            TokenType::Colon,
            TokenType::LessThan,
            TokenType::GreaterThan,
            TokenType::Not
        ]
    );
    assert_eq!(toks[1].value, "==");
    assert_eq!(toks[9].value, "::");
}

#[test]
fn lexes_keywords_and_the_deref_sign() {
    let toks = lex_ok("fn pub use for return extern true false struct sizeof if else while break ^ *");
    assert_eq!(
        kinds(&toks),
        vec![
            TokenType::FnKeyword,
            TokenType::PubKeyword,
            TokenType::UseKeyword,
            TokenType::ForKeyword,
            TokenType::ReturnKeyword,
            TokenType::ExternKeyword,
            TokenType::True,
            TokenType::False,
            TokenType::StructKeyword,
            TokenType::SizeOfKeyword,
            TokenType::IfKeyword,
            TokenType::ElseKeyword,
            TokenType::WhileKeyword,
            TokenType::Identifier,
            TokenType::Star,
            TokenType::Multiply
        ]
    );
}

#[test]
fn lexes_strings_chars_and_lines() {
    let toks = lex_ok("\"hi there\"\n'a' '\\n'");
    assert_eq!(toks[0].ttype, TokenType::StringLiteral);
    assert_eq!(toks[0].value, "hi there");
    assert_eq!(toks[1].ttype, TokenType::CharLiteral);
    assert_eq!(toks[1].value, "a");
    assert_eq!((toks[1].location.line, toks[1].location.col), (1, 0));
    assert_eq!(toks[2].value, "\n");
}

#[test]
fn unterminated_string_runs_to_the_end() {
    let toks = lex_ok("\"abc");
    assert_eq!(toks.len(), 1);
    assert_eq!(toks[0].value, "abc");
}

#[test]
fn skips_comments() {
    let toks = lex_ok("a // rest of line\nb //' many\nlines '// c / d");
    assert_eq!(
        kinds(&toks),
        vec![
            TokenType::Identifier,
            TokenType::Identifier,
            TokenType::Identifier,
            TokenType::Divide,
            TokenType::Identifier
        ]
    );
    assert_eq!(toks[2].value, "c");
}

#[test]
fn reports_an_unterminated_comment() {
    let mut lx = Lexer::new("x //' never closed".to_string());
    match lx.lex() {
        Err(LexError::UnterminatedComment { location }) => {
            assert_eq!((location.line, location.col), (0, 18));
        }
        other => panic!("unexpected {:?}", other),
    }
    assert_eq!(lx.tokens.len(), 1);
}

#[test]
fn reports_bad_character_literals() {
    let mut lx = Lexer::new("'\\q'".to_string());
    match lx.lex() {
        Err(LexError::UnknownEscapeSequence { ch, .. }) => assert_eq!(ch, 'q'),
        other => panic!("unexpected {:?}", other),
    }
    let mut lx = Lexer::new("'ab'".to_string());
    assert!(matches!(lx.lex(), Err(LexError::UnterminatedCharLiteral { .. })));
    let mut lx = Lexer::new("'".to_string());
    match lx.lex() {
        Err(LexError::UnexpectedEof { context, .. }) => assert_eq!(context, "character literal"),
        other => panic!("unexpected {:?}", other),
    }
    let mut lx = Lexer::new("'\\".to_string());
    match lx.lex() {
        Err(LexError::UnexpectedEof { context, .. }) => assert_eq!(context, "escape sequence"),
        other => panic!("unexpected {:?}", other),
    }
}

#[test]
fn writes_lex_errors() {
    let mut lx = Lexer::with_file("'ab'".to_string(), "m.mysz");
    let err = lx.lex().unwrap_err();
    assert_eq!(
        err.to_text(),
        "Unterminated character literal at Location { line: 0, col: 0, file: \"m.mysz\" }"
    );
    let mut lx = Lexer::new("'\\q'".to_string());
    let err = lx.lex().unwrap_err();
    assert_eq!(
        err.to_text(),
        "Unknown escape sequence '\\q' at Location { line: 0, col: 0, file: \"\" }"
    );
}

#[test]
fn writes_tokens_and_kinds() {
    let t = Token {
        ttype: TokenType::IntLiteral,
        location: Location::new(3, 4, "f"),
        value: "7".to_string(),
    };
    assert_eq!(t.to_text(), "Token { Type: IntLiteral, Location: (3, 4), Value: 7 }");
    assert_eq!(token_type_name(TokenType::DoubleColon), "DoubleColon");
    assert_eq!(format!("{:?}", TokenType::GreaterThanEquals), token_type_name(TokenType::GreaterThanEquals));
}

#[test]
fn lexing_stops_inside_a_multibyte_character() {
    let toks = lex_ok("12\u{0663}x");
    assert_eq!(toks.len(), 1);
    assert_eq!(toks[0].ttype, TokenType::IntLiteral);
    assert_eq!(toks[0].value, "12\u{0663}");
}

#[test]
fn locations_carry_the_file() {
    let mut lx = Lexer::with_file("a\n  b".to_string(), "src/x.mysz");
    assert!(lx.lex().is_ok());
    assert_eq!(lx.tokens[1].location.file, "src/x.mysz");
    assert_eq!((lx.tokens[1].location.line, lx.tokens[1].location.col), (1, 2));
}
