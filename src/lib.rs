//! A front end for a small subset of C: a lexer, a recursive-descent parser
//! that builds an abstract syntax tree, and an interpreter scaffold that
//! resolves header inclusions against a fixed table of headers.
//!
//! Lexing and interpretation never fail: what they cannot handle they skip
//! and report. Parsing stops at the first structural mismatch and returns
//! the error instead of a tree.
use vstd::prelude::*;

pub mod ast;
pub mod libc;
pub mod lexer;
pub mod parser;
pub mod runtime;
pub mod types;

use crate::ast::AST;
use crate::lexer::{Lexer, lex_tokens};
use crate::parser::{ParseError, Parser, program};

verus! {

/// Lexes and parses a whole source text.
pub fn parse_source(src: &[char]) -> (r: Result<AST, ParseError>)
    ensures
        match r {
            Ok(a) => program(lex_tokens(src@)) == Ok::<Seq<crate::ast::Node>, ParseError>(a@),
            Err(e) => program(lex_tokens(src@)) == Err::<Seq<crate::ast::Node>, ParseError>(e),
        },
{
    let mut lexer = Lexer::new(src);
    let tokens = lexer.lex();
    proof {
        assert(crate::types::tokens_view(tokens@) =~= lex_tokens(src@));
    }
    let parser = Parser::new(tokens);
    parser.parse()
}

} // verus!
