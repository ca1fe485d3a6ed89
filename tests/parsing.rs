use tinyc::ast::{ASTNode, AST};
use tinyc::lexer::Lexer;
use tinyc::parse_source;
use tinyc::parser::{parse_int, text_is, ParseError, Parser};
use tinyc::types::{Token, TokenKind, Type};

fn parse_str(src: &str) -> Result<AST, ParseError> {
    let chars: Vec<char> = src.chars().collect();
    parse_source(&chars)
}

fn drain(mut ast: AST) -> Vec<ASTNode> {
    let mut out = Vec::new();
    while let Some(n) = ast.next() {
        out.push(n);
    }
    out
}

fn nodes_of(src: &str) -> Vec<ASTNode> {
    drain(parse_str(src).expect("source should parse"))
}

fn err_of(src: &str) -> ParseError {
    match parse_str(src) {
        Ok(_) => panic!("source should not parse: {src}"),
        Err(e) => e,
    }
}

#[test]
fn include_angle_parses_to_include_node() {
    assert_eq!(
        nodes_of("#include <stdio.h>"),
        vec![ASTNode::Include("stdio.h".to_string()), ASTNode::EOF]
    );
}

#[test]
fn include_quoted_parses_to_include_node() {
    assert_eq!(
        nodes_of("#include \"foo.h\""),
        vec![ASTNode::Include("foo.h".to_string()), ASTNode::EOF]
    );
}

#[test]
fn include_path_with_directories() {
    assert_eq!(
        nodes_of("#include <sys/types.h>"),
        vec![ASTNode::Include("sys/types.h".to_string()), ASTNode::EOF]
    );
}

#[test]
fn main_returning_zero_parses_to_func_decl() {
    let want = ASTNode::FuncDecl {
        name: "main".to_string(),
        params: vec![],
        ret_type: Type::INT,
        body: vec![
            Box::new(ASTNode::Return(Box::new(ASTNode::IntLit(0)))),
            Box::new(ASTNode::Semicolon),
        ],
    };
    assert_eq!(nodes_of("int main(void){return 0;}"), vec![want, ASTNode::EOF]);
}

#[test]
fn empty_parameter_list_is_accepted() {
    let want = ASTNode::FuncDecl {
        name: "f".to_string(),
        params: vec![],
        ret_type: Type::INT,
        body: vec![],
    };
    assert_eq!(nodes_of("int f() {}"), vec![want, ASTNode::EOF]);
}

#[test]
fn call_arguments_follow_each_other() {
    let want = ASTNode::FuncDecl {
        name: "main".to_string(),
        params: vec![],
        ret_type: Type::INT,
        body: vec![
            Box::new(ASTNode::FunCall {
                name: "printf".to_string(),
                args: vec![
                    Box::new(ASTNode::StrVal("hi".to_string())),
                    Box::new(ASTNode::IntLit(7)),
                ],
            }),
            Box::new(ASTNode::Semicolon),
        ],
    };
    assert_eq!(nodes_of("int main(void){ printf(\"hi\" 7); }"), vec![want, ASTNode::EOF]);
}

#[test]
fn empty_input_parses_to_end_marker_only() {
    assert_eq!(nodes_of(""), vec![ASTNode::EOF]);
    assert_eq!(nodes_of("  \n "), vec![ASTNode::EOF]);
}

#[test]
fn literal_beyond_i32_is_fatal() {
    assert_eq!(err_of("int main(void){return 2147483648;}"), ParseError::IntLiteralOutOfRange);
    assert_eq!(err_of("int main(void){return 99999999999999999999;}"), ParseError::IntLiteralOutOfRange);
}

#[test]
fn largest_i32_literal_parses() {
    let want = ASTNode::FuncDecl {
        name: "main".to_string(),
        params: vec![],
        ret_type: Type::INT,
        body: vec![
            Box::new(ASTNode::Return(Box::new(ASTNode::IntLit(2147483647)))),
            Box::new(ASTNode::Semicolon),
        ],
    };
    assert_eq!(nodes_of("int main(void){return 2147483647;}"), vec![want, ASTNode::EOF]);
}

#[test]
fn missing_close_paren_in_params_is_fatal() {
    assert_eq!(
        err_of("int main(void{return 0;}"),
        ParseError::UnexpectedToken { expected: TokenKind::ClosPar, found: TokenKind::OpenBlk }
    );
}

#[test]
fn named_parameter_is_fatal() {
    assert_eq!(err_of("int f(int x){}"), ParseError::UnsupportedParams);
}

#[test]
fn declaration_without_paren_is_fatal() {
    assert_eq!(err_of("int x;"), ParseError::ExpectedFunctionDecl);
}

#[test]
fn declaration_without_name_is_fatal() {
    assert_eq!(
        err_of("int 5"),
        ParseError::UnexpectedToken { expected: TokenKind::StrLit, found: TokenKind::Numeric }
    );
}

#[test]
fn missing_body_brace_is_fatal() {
    assert_eq!(
        err_of("int f(void) return"),
        ParseError::UnexpectedToken { expected: TokenKind::OpenBlk, found: TokenKind::StrLit }
    );
}

#[test]
fn unclosed_body_is_fatal() {
    assert_eq!(err_of("int main(void){return 0;"), ParseError::UnexpectedEof);
}

#[test]
fn define_directive_is_fatal() {
    assert_eq!(err_of("#define X 1"), ParseError::DefineUnsupported);
}

#[test]
fn unknown_directive_is_fatal() {
    assert_eq!(err_of("#pragma once"), ParseError::InvalidDirective);
    assert_eq!(err_of("#include 5"), ParseError::InvalidDirective);
}

#[test]
fn directive_without_name_is_fatal() {
    assert_eq!(
        err_of("# <x>"),
        ParseError::UnexpectedToken { expected: TokenKind::StrLit, found: TokenKind::LessThan }
    );
}

#[test]
fn bad_path_token_is_fatal() {
    assert_eq!(err_of("#include <std-io.h>"), ParseError::InvalidFilePath);
}

#[test]
fn unclosed_angle_path_is_fatal() {
    assert_eq!(err_of("#include <stdio.h"), ParseError::UnexpectedEof);
}

#[test]
fn unsupported_primary_is_fatal() {
    assert_eq!(err_of("+"), ParseError::UnsupportedPrimary(TokenKind::PluSymb));
}

#[test]
fn call_on_string_value_is_fatal() {
    assert_eq!(err_of("\"x\"();"), ParseError::ExpectedCallName);
}

#[test]
fn expression_at_end_of_input_is_fatal() {
    assert_eq!(err_of("foo"), ParseError::UnexpectedEof);
    assert_eq!(err_of("foo();"), ParseError::UnexpectedEof);
}

#[test]
fn non_ascii_digits_are_an_invalid_literal() {
    assert_eq!(err_of("int main(void){return ٣;}"), ParseError::InvalidIntLiteral);
}

#[test]
fn parse_int_reads_decimal_values() {
    assert_eq!(parse_int("0"), Ok(0));
    assert_eq!(parse_int("007"), Ok(7));
    assert_eq!(parse_int("12345"), Ok(12345));
    assert_eq!(parse_int("2147483647"), Ok(2147483647));
    assert_eq!(parse_int("2147483648"), Err(ParseError::IntLiteralOutOfRange));
    assert_eq!(parse_int(""), Err(ParseError::InvalidIntLiteral));
    assert_eq!(parse_int("12a"), Err(ParseError::InvalidIntLiteral));
    assert_eq!(parse_int("-1"), Err(ParseError::InvalidIntLiteral));
}

#[test]
fn text_is_compares_characters() {
    assert!(text_is("int", "int"));
    assert!(!text_is("int", "in"));
    assert!(!text_is("int", "Int"));
    assert!(text_is("", ""));
}

#[test]
fn parser_accepts_handmade_tokens() {
    let tok = |kind: TokenKind, value: &str| Token { kind, value: value.to_string() };
    let tokens = vec![
        tok(TokenKind::Hash, "#"),
        tok(TokenKind::StrLit, "include"),
        tok(TokenKind::StrVal, "a.h"),
    ];
    let parser = Parser::new(tokens);
    let ast = parser.parse().expect("tokens should parse");
    assert_eq!(drain(ast), vec![ASTNode::Include("a.h".to_string()), ASTNode::EOF]);
}

#[test]
fn lexer_then_parser_matches_parse_source() {
    let src = "#include <stdio.h> int main(void){ printf(\"x\"); return 0; }";
    let chars: Vec<char> = src.chars().collect();
    let mut lexer = Lexer::new(&chars);
    let parser = Parser::new(lexer.lex());
    let a = drain(parser.parse().expect("should parse"));
    let b = nodes_of(src);
    assert_eq!(a, b);
    assert_eq!(a.len(), 3);
}

#[test]
fn ast_push_and_next_are_fifo() {
    let mut ast = AST::new();
    assert_eq!(ast.next(), None);
    ast.push(ASTNode::IntLit(1));
    ast.push(ASTNode::Semicolon);
    assert_eq!(ast.next(), Some(ASTNode::IntLit(1)));
    assert_eq!(ast.next(), Some(ASTNode::Semicolon));
    assert_eq!(ast.next(), None);
}
