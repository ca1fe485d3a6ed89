use tinyc::lexer::Lexer;
use tinyc::types::{Token, TokenKind};

fn lex_str(src: &str) -> Vec<Token> {
    let chars: Vec<char> = src.chars().collect();
    let mut lexer = Lexer::new(&chars);
    lexer.lex()
}

fn kinds_and_values(tokens: &[Token]) -> Vec<(TokenKind, String)> {
    tokens.iter().map(|t| (t.kind.clone(), t.value.clone())).collect()
}

#[test]
fn whitespace_only_input_lexes_to_nothing() {
    assert!(lex_str("").is_empty());
    assert!(lex_str("   \t\n\r  ").is_empty());
    assert!(lex_str("\u{A0}\u{2003}\n").is_empty());
}

#[test]
fn include_angle_lexes_to_expected_tokens() {
    let got = kinds_and_values(&lex_str("#include <stdio.h>"));
    let want = vec![
        (TokenKind::Hash, "#".to_string()),
        (TokenKind::StrLit, "include".to_string()),
        (TokenKind::LessThan, "<".to_string()),
        (TokenKind::StrLit, "stdio".to_string()),
        (TokenKind::Dot, ".".to_string()),
        (TokenKind::StrLit, "h".to_string()),
        (TokenKind::GraThan, ">".to_string()),
    ];
    assert_eq!(got, want);
}

#[test]
fn letters_and_digits_split_into_runs() {
    let got = kinds_and_values(&lex_str("abc123def 42"));
    let want = vec![
        (TokenKind::StrLit, "abc".to_string()),
        (TokenKind::Numeric, "123".to_string()),
        (TokenKind::StrLit, "def".to_string()),
        (TokenKind::Numeric, "42".to_string()),
    ];
    assert_eq!(got, want);
}

#[test]
fn quoted_string_is_one_value_without_quotes() {
    let got = kinds_and_values(&lex_str("\"foo.h\" x"));
    let want = vec![
        (TokenKind::StrVal, "foo.h".to_string()),
        (TokenKind::StrLit, "x".to_string()),
    ];
    assert_eq!(got, want);
}

#[test]
fn unterminated_string_runs_to_end_of_input() {
    let got = kinds_and_values(&lex_str("\"abc d"));
    assert_eq!(got, vec![(TokenKind::StrVal, "abc d".to_string())]);
}

#[test]
fn empty_quoted_string_is_an_empty_value() {
    let got = kinds_and_values(&lex_str("\"\""));
    assert_eq!(got, vec![(TokenKind::StrVal, String::new())]);
}

#[test]
fn every_punctuation_character_has_its_kind() {
    let got: Vec<TokenKind> = lex_str("(){}:,;=+-*/.#<>").iter().map(|t| t.kind.clone()).collect();
    let want = vec![
        TokenKind::OpenPar,
        TokenKind::ClosPar,
        TokenKind::OpenBlk,
        TokenKind::ClosBlk,
        TokenKind::Colon,
        TokenKind::Comma,
        TokenKind::Semicolon,
        TokenKind::Equal,
        TokenKind::PluSymb,
        TokenKind::MinSymb,
        TokenKind::MulSymb,
        TokenKind::DivSymb,
        TokenKind::Dot,
        TokenKind::Hash,
        TokenKind::LessThan,
        TokenKind::GraThan,
    ];
    assert_eq!(got, want);
}

#[test]
fn unknown_characters_are_skipped_and_recorded() {
    let chars: Vec<char> = "a @ b $".chars().collect();
    let mut lexer = Lexer::new(&chars);
    let tokens = lexer.lex();
    let got = kinds_and_values(&tokens);
    assert_eq!(
        got,
        vec![(TokenKind::StrLit, "a".to_string()), (TokenKind::StrLit, "b".to_string())]
    );
    assert_eq!(lexer.skipped(), &vec!['@', '$']);
}

#[test]
fn unicode_letters_and_digits_form_runs() {
    let got = kinds_and_values(&lex_str("héllo ٣٤"));
    assert_eq!(
        got,
        vec![
            (TokenKind::StrLit, "héllo".to_string()),
            (TokenKind::Numeric, "٣٤".to_string()),
        ]
    );
}

#[test]
fn lexing_twice_yields_nothing_more() {
    let chars: Vec<char> = "int x".chars().collect();
    let mut lexer = Lexer::new(&chars);
    assert_eq!(lexer.lex().len(), 2);
    assert!(lexer.lex().is_empty());
}
