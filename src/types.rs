//! Tokens, token kinds, types and function parameters.
use vstd::prelude::*;

verus! {

/// The value types of the language: one integer type for now.
#[derive(Clone, Copy, Debug, PartialEq, Eq, Structural)]
pub enum Type {
    INT,
}

/// A named, typed parameter of a function declaration.
#[derive(Clone, Debug, PartialEq)]
pub struct FuncParam {
    pub ttype: Type,
    pub name: String,
}

/// A lexical unit: its kind and the text it was made from.
#[derive(Clone, Debug)]
pub struct Token {
    pub kind: TokenKind,
    pub value: String,
}

/// The lexical categories. `StrLit` is a run of letters (an identifier or a
/// keyword), `StrVal` the text between two double quotes, `Numeric` a run of
/// digits; the others are single punctuation characters.
#[derive(Clone, Copy, Debug, PartialEq, Eq, Structural)]
pub enum TokenKind {
    StrLit,
    StrVal,
    Numeric,
    PluSymb,
    MinSymb,
    MulSymb,
    DivSymb,
    OpenPar,
    ClosPar,
    OpenBlk,
    ClosBlk,
    Colon,
    Comma,
    Equal,
    Semicolon,
    Dot,
    Hash,
    LessThan,
    GraThan,
}

impl View for Token {
    type V = (TokenKind, Seq<char>);

    open spec fn view(&self) -> (TokenKind, Seq<char>) {
        (self.kind, self.value@)
    }
}

/// The abstract view of a token sequence.
pub open spec fn tokens_view(v: Seq<Token>) -> Seq<(TokenKind, Seq<char>)> {
    v.map_values(|t: Token| t@)
}

} // verus!
