use minicc::lexer::{Lexer, LexerError};
use minicc::token::TokenKind;

fn tokenize(source: &str) -> Result<Vec<minicc::token::Token>, LexerError> {
    let mut lexer = Lexer::from(String::from(source));
    lexer.tokenize()
}

#[test]
fn int_literal_alone() {
    let tokens = tokenize("67").unwrap();
    assert_eq!(tokens.len(), 1);
    assert_eq!(tokens[0].kind, TokenKind::IntLiteral(67));
    assert_eq!(tokens[0].line, 1);
    assert_eq!(tokens[0].column, 1);
}

#[test]
fn int_literal_zero() {
    let tokens = tokenize("0").unwrap();
    assert_eq!(tokens.len(), 1);
    assert_eq!(tokens[0].kind, TokenKind::IntLiteral(0));
    assert_eq!(tokens[0].line, 1);
    assert_eq!(tokens[0].column, 1);
}

#[test]
fn int_literal_largest() {
    let tokens = tokenize("9223372036854775807").unwrap();
    assert_eq!(tokens.len(), 1);
    assert_eq!(tokens[0].kind, TokenKind::IntLiteral(i64::MAX));
}

#[test]
fn int_literal_overflow_fails() {
    let result = tokenize("9223372036854775808");
    assert!(matches!(
        result,
        Err(LexerError::UnexpectedChar { character: '8', line: 1, column: 1 })
    ));
}

#[test]
fn int_literal_leading_zeros() {
    let tokens = tokenize("000000000000000000000042").unwrap();
    assert_eq!(tokens.len(), 1);
    assert_eq!(tokens[0].kind, TokenKind::IntLiteral(42));
}

#[test]
fn two_return_statements() {
    let tokens = tokenize("return 67;\nreturn 0;").unwrap();
    let kinds: Vec<&TokenKind> = tokens.iter().map(|t| &t.kind).collect();
    assert_eq!(
        kinds,
        vec![
            &TokenKind::Return,
            &TokenKind::IntLiteral(67),
            &TokenKind::Semicolon,
            &TokenKind::Return,
            &TokenKind::IntLiteral(0),
            &TokenKind::Semicolon,
        ]
    );
    assert_eq!(tokens[3].line, 2);
    assert_eq!(tokens[3].column, 1);
}

#[test]
fn digit_then_letter_fails() {
    let result = tokenize("12a");
    assert!(matches!(
        result,
        Err(LexerError::UnexpectedChar { character: 'a', line: 1, column: 1 })
    ));
}

#[test]
fn unknown_symbol_fails() {
    let result = tokenize("@");
    assert!(matches!(
        result,
        Err(LexerError::UnknownToken { character: '@', line: 1, column: 1 })
    ));
}

#[test]
fn unknown_symbol_position() {
    let result = tokenize("return\n  #");
    assert!(matches!(
        result,
        Err(LexerError::UnknownToken { character: '#', line: 2, column: 3 })
    ));
}

#[test]
fn empty_input_gives_no_tokens() {
    assert_eq!(tokenize("").unwrap().len(), 0);
    assert_eq!(tokenize("  \t\r\n ").unwrap().len(), 0);
}

#[test]
fn keywords_are_classified() {
    let tokens = tokenize("return function int var if else while break continue").unwrap();
    let kinds: Vec<&TokenKind> = tokens.iter().map(|t| &t.kind).collect();
    assert_eq!(
        kinds,
        vec![
            &TokenKind::Return,
            &TokenKind::Function,
            &TokenKind::IntType,
            &TokenKind::Var,
            &TokenKind::If,
            &TokenKind::Else,
            &TokenKind::While,
            &TokenKind::Break,
            &TokenKind::Continue,
        ]
    );
}

#[test]
fn identifiers_keep_their_text() {
    let tokens = tokenize("returnx _tmp a1_b").unwrap();
    assert_eq!(tokens[0].kind, TokenKind::Identifier(String::from("returnx")));
    assert_eq!(tokens[1].kind, TokenKind::Identifier(String::from("_tmp")));
    assert_eq!(tokens[2].kind, TokenKind::Identifier(String::from("a1_b")));
}

#[test]
fn operators_and_punctuation() {
    let tokens = tokenize("( ) { } ; , + - * / = < > !").unwrap();
    let kinds: Vec<&TokenKind> = tokens.iter().map(|t| &t.kind).collect();
    assert_eq!(
        kinds,
        vec![
            &TokenKind::LeftParentheses,
            &TokenKind::RightParentheses,
            &TokenKind::LeftBrace,
            &TokenKind::RightBrace,
            &TokenKind::Semicolon,
            &TokenKind::Comma,
            &TokenKind::Plus,
            &TokenKind::Minus,
            &TokenKind::Star,
            &TokenKind::Slash,
            &TokenKind::Equal,
            &TokenKind::LessThan,
            &TokenKind::GreaterThan,
            &TokenKind::Not,
        ]
    );
}

#[test]
fn two_character_operators() {
    let tokens = tokenize("== != <= >= && ||").unwrap();
    let kinds: Vec<&TokenKind> = tokens.iter().map(|t| &t.kind).collect();
    assert_eq!(
        kinds,
        vec![
            &TokenKind::DoubleEqual,
            &TokenKind::NotEqual,
            &TokenKind::LessEqual,
            &TokenKind::GreaterEqual,
            &TokenKind::And,
            &TokenKind::Or,
        ]
    );
}

#[test]
fn lone_ampersand_fails() {
    assert!(matches!(
        tokenize("&"),
        Err(LexerError::UnknownToken { character: '&', line: 1, column: 1 })
    ));
}

#[test]
fn equal_at_end_of_input() {
    let tokens = tokenize("a =").unwrap();
    assert_eq!(tokens[1].kind, TokenKind::Equal);
}

#[test]
fn columns_track_token_starts() {
    let tokens = tokenize("ab + 12").unwrap();
    assert_eq!(tokens[0].column, 1);
    assert_eq!(tokens[1].column, 4);
    assert_eq!(tokens[2].column, 6);
}

#[test]
fn next_token_reports_end_of_input() {
    let mut lexer = Lexer::from(String::from("  "));
    assert!(matches!(lexer.next_token(), Err(LexerError::EndOfInput)));
}

#[test]
fn unicode_whitespace_is_skipped() {
    let tokens = tokenize("return\u{000B}1;\u{00A0}\u{2003}return\u{000C}2;").unwrap();
    let kinds: Vec<&TokenKind> = tokens.iter().map(|t| &t.kind).collect();
    assert_eq!(
        kinds,
        vec![
            &TokenKind::Return,
            &TokenKind::IntLiteral(1),
            &TokenKind::Semicolon,
            &TokenKind::Return,
            &TokenKind::IntLiteral(2),
            &TokenKind::Semicolon,
        ]
    );
}

#[test]
fn unicode_whitespace_only_gives_no_tokens() {
    assert_eq!(tokenize("\u{000B}\u{000C}\u{00A0}\u{2028}\u{3000}").unwrap().len(), 0);
}

#[test]
fn unicode_letter_identifier() {
    let tokens = tokenize("caf\u{00E9}").unwrap();
    assert_eq!(tokens.len(), 1);
    assert_eq!(
        tokens[0].kind,
        TokenKind::Identifier(String::from("caf\u{00E9}"))
    );
}

#[test]
fn digit_then_unicode_letter_fails() {
    let result = tokenize("1\u{00E9}");
    assert!(matches!(
        result,
        Err(LexerError::UnexpectedChar { character: '\u{00E9}', line: 1, column: 1 })
    ));
}
