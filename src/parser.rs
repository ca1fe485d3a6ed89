//! The recursive-descent parser: turns a token sequence into an AST.
//!
//! Each parsing function reads from a position in the token sequence and
//! either fails, or yields what it parsed with the position after it. The
//! spec functions below state the grammar over the token model; the
//! methods of `Parser` are proved to compute exactly them.
use vstd::prelude::*;
use crate::ast::{AST, ASTNode, Node, nodes_view, lemma_nodes_view_push};
use crate::types::{FuncParam, Token, TokenKind, Type, tokens_view};

verus! {

/// Why parsing stopped. Parsing fails on the first structural mismatch.
#[derive(Clone, Copy, Debug, PartialEq, Eq, Structural)]
pub enum ParseError {
    /// The input ended where a token was needed.
    UnexpectedEof,
    /// A token of one kind was needed and another was found.
    UnexpectedToken { expected: TokenKind, found: TokenKind },
    /// A type and a name were not followed by `(`.
    ExpectedFunctionDecl,
    /// A parameter list was neither `void` nor empty.
    UnsupportedParams,
    /// A directive other than the two known ones, or a malformed one.
    InvalidDirective,
    /// A token in an angle-bracket path that is not a name, `/` or `.`.
    InvalidFilePath,
    /// `#define`, which is not supported.
    DefineUnsupported,
    /// A token that cannot begin an expression.
    UnsupportedPrimary(TokenKind),
    /// A numeric token that is not a run of ASCII decimal digits.
    InvalidIntLiteral,
    /// A numeric token whose value exceeds the 32-bit signed range.
    IntLiteralOutOfRange,
    /// A call whose callee is not a name.
    ExpectedCallName,
}

pub type Tok = (TokenKind, Seq<char>);

/// The type that a keyword names, if it names one.
pub open spec fn decl_type(name: Seq<char>) -> Option<Type> {
    if name == "int"@ {
        Some(Type::INT)
    } else {
        None
    }
}

pub open spec fn is_ascii_digit(c: char) -> bool {
    '0' <= c <= '9'
}

pub open spec fn all_ascii_digits(s: Seq<char>) -> bool {
    forall|k: int| 0 <= k < s.len() ==> is_ascii_digit(#[trigger] s[k])
}

/// The decimal value of a string of ASCII digits.
pub open spec fn digits_value(s: Seq<char>) -> nat
    decreases s.len(),
{
    if s.len() == 0 {
        0
    } else {
        digits_value(s.subrange(0, s.len() - 1)) * 10 + ((s[s.len() - 1] as u32) - ('0' as u32)) as nat
    }
}

/// The value of an integer literal: a non-empty run of ASCII digits whose
/// value fits in `i32`.
pub open spec fn int_literal(s: Seq<char>) -> Result<i32, ParseError> {
    if s.len() == 0 || !all_ascii_digits(s) {
        Err(ParseError::InvalidIntLiteral)
    } else if digits_value(s) > i32::MAX {
        Err(ParseError::IntLiteralOutOfRange)
    } else {
        Ok(digits_value(s) as i32)
    }
}

/// A primary expression: a name, a string value, an integer literal or `;`.
pub open spec fn prim_spec(t: Seq<Tok>, i: int) -> Result<(Node, int), ParseError> {
    if i < 0 || i >= t.len() {
        Err(ParseError::UnexpectedEof)
    } else {
        let v = t[i].1;
        match t[i].0 {
            TokenKind::StrLit => Ok((Node::StrLit(v), i + 1)),
            TokenKind::StrVal => Ok((Node::StrVal(v), i + 1)),
            TokenKind::Numeric => match int_literal(v) {
                Ok(n) => Ok((Node::IntLit(n), i + 1)),
                Err(e) => Err(e),
            },
            TokenKind::Semicolon => Ok((Node::Semicolon, i + 1)),
            k => Err(ParseError::UnsupportedPrimary(k)),
        }
    }
}

/// An expression: a primary expression, which becomes the callee of a call
/// when `(` follows it. The arguments follow one another up to `)` with no
/// separator between them. The token after the expression must exist.
pub open spec fn expr_spec(t: Seq<Tok>, i: int) -> Result<(Node, int), ParseError>
    decreases t.len() - i, 4int,
{
    match prim_spec(t, i) {
        Err(e) => Err(e),
        Ok((p, j)) => if j >= t.len() {
            Err(ParseError::UnexpectedEof)
        } else if t[j].0 == TokenKind::OpenPar {
            match args_spec(t, j + 1) {
                Err(e) => Err(e),
                Ok((args, k)) => match p {
                    Node::StrLit(name) => Ok((Node::FunCall { name, args }, k)),
                    _ => Err(ParseError::ExpectedCallName),
                },
            }
        } else {
            Ok((p, j))
        },
    }
}

/// The arguments of a call from `i` up to and past the closing `)`.
pub open spec fn args_spec(t: Seq<Tok>, i: int) -> Result<(Seq<Node>, int), ParseError>
    decreases t.len() - i, 5int,
{
    if i < 0 || i >= t.len() {
        Err(ParseError::UnexpectedEof)
    } else if t[i].0 == TokenKind::ClosPar {
        Ok((Seq::empty(), i + 1))
    } else {
        match expr_spec(t, i) {
            Err(e) => Err(e),
            Ok((a, j)) => if i < j <= t.len() {
                match args_spec(t, j) {
                    Err(e) => Err(e),
                    Ok((rest, k)) => Ok((seq![a] + rest, k)),
                }
            } else {
                Err(ParseError::UnexpectedEof)
            },
        }
    }
}

/// A statement: a directive after `#`, a declaration after a type keyword,
/// a return after `return`, or else an expression.
pub open spec fn stmt_spec(t: Seq<Tok>, i: int) -> Result<(Node, int), ParseError>
    decreases t.len() - i, 5int,
{
    if i < 0 || i >= t.len() {
        Err(ParseError::UnexpectedEof)
    } else if t[i].0 == TokenKind::Hash {
        directive_spec(t, i + 1)
    } else if t[i].0 == TokenKind::StrLit && decl_type(t[i].1) is Some {
        decl_spec(t, i + 1, decl_type(t[i].1)->0)
    } else if t[i].1 == "return"@ {
        match expr_spec(t, i + 1) {
            Err(e) => Err(e),
            Ok((e, j)) => Ok((Node::Return(Box::new(e)), j)),
        }
    } else {
        expr_spec(t, i)
    }
}

/// A declaration after its type keyword: a name, `(`, and the rest of a
/// function declaration.
pub open spec fn decl_spec(t: Seq<Tok>, i: int, ret_type: Type) -> Result<(Node, int), ParseError>
    decreases t.len() - i, 0int,
{
    if i < 0 || i >= t.len() {
        Err(ParseError::UnexpectedEof)
    } else if t[i].0 != TokenKind::StrLit {
        Err(ParseError::UnexpectedToken { expected: TokenKind::StrLit, found: t[i].0 })
    } else if i + 1 >= t.len() {
        Err(ParseError::UnexpectedEof)
    } else if t[i + 1].0 != TokenKind::OpenPar {
        Err(ParseError::ExpectedFunctionDecl)
    } else {
        decl_func_spec(t, i + 2, ret_type, t[i].1)
    }
}

/// The parameter list after `(`: `void )` or `)`.
pub open spec fn params_spec(t: Seq<Tok>, i: int) -> Result<int, ParseError> {
    if i < 0 || i >= t.len() {
        Err(ParseError::UnexpectedEof)
    } else if t[i].1 == "void"@ {
        if i + 1 >= t.len() {
            Err(ParseError::UnexpectedEof)
        } else if t[i + 1].0 != TokenKind::ClosPar {
            Err(ParseError::UnexpectedToken { expected: TokenKind::ClosPar, found: t[i + 1].0 })
        } else {
            Ok(i + 2)
        }
    } else if t[i].1 == ")"@ {
        Ok(i + 1)
    } else {
        Err(ParseError::UnsupportedParams)
    }
}

/// A function declaration after its `(`: parameters, then a body in braces.
pub open spec fn decl_func_spec(t: Seq<Tok>, i: int, ret_type: Type, name: Seq<char>) -> Result<
    (Node, int),
    ParseError,
>
    decreases t.len() - i, 0int,
{
    match params_spec(t, i) {
        Err(e) => Err(e),
        Ok(j) => if j >= t.len() {
            Err(ParseError::UnexpectedEof)
        } else if t[j].0 != TokenKind::OpenBlk {
            Err(ParseError::UnexpectedToken { expected: TokenKind::OpenBlk, found: t[j].0 })
        } else {
            match body_spec(t, j + 1) {
                Err(e) => Err(e),
                Ok((body, k)) => Ok(
                    (Node::FuncDecl { name, params: Seq::empty(), ret_type, body }, k),
                ),
            }
        },
    }
}

/// The statements of a body from `i` up to and past the closing `}`.
pub open spec fn body_spec(t: Seq<Tok>, i: int) -> Result<(Seq<Node>, int), ParseError>
    decreases t.len() - i, 6int,
{
    if i < 0 || i >= t.len() {
        Err(ParseError::UnexpectedEof)
    } else if t[i].0 == TokenKind::ClosBlk {
        Ok((Seq::empty(), i + 1))
    } else {
        match stmt_spec(t, i) {
            Err(e) => Err(e),
            Ok((s, j)) => if i < j <= t.len() {
                match body_spec(t, j) {
                    Err(e) => Err(e),
                    Ok((rest, k)) => Ok((seq![s] + rest, k)),
                }
            } else {
                Err(ParseError::UnexpectedEof)
            },
        }
    }
}

/// A directive after `#`.
pub open spec fn directive_spec(t: Seq<Tok>, i: int) -> Result<(Node, int), ParseError> {
    if i < 0 || i >= t.len() {
        Err(ParseError::UnexpectedEof)
    } else if t[i].0 != TokenKind::StrLit {
        Err(ParseError::UnexpectedToken { expected: TokenKind::StrLit, found: t[i].0 })
    } else if t[i].1 == "include"@ {
        header_spec(t, i + 1)
    } else if t[i].1 == "define"@ {
        Err(ParseError::DefineUnsupported)
    } else {
        Err(ParseError::InvalidDirective)
    }
}

/// The operand of an inclusion: `<` path `>`, or a string value.
pub open spec fn header_spec(t: Seq<Tok>, i: int) -> Result<(Node, int), ParseError> {
    if i < 0 || i >= t.len() {
        Err(ParseError::UnexpectedEof)
    } else if t[i].0 == TokenKind::LessThan {
        match path_spec(t, i + 1) {
            Err(e) => Err(e),
            Ok((p, k)) => Ok((Node::Include(p), k)),
        }
    } else if t[i].0 == TokenKind::StrVal {
        Ok((Node::Include(t[i].1), i + 1))
    } else {
        Err(ParseError::InvalidDirective)
    }
}

/// An angle-bracket path from `i` up to and past `>`: the texts of its
/// names, `/` and `.` tokens, joined.
pub open spec fn path_spec(t: Seq<Tok>, i: int) -> Result<(Seq<char>, int), ParseError>
    decreases t.len() - i,
{
    if i < 0 || i >= t.len() {
        Err(ParseError::UnexpectedEof)
    } else if t[i].0 == TokenKind::GraThan {
        Ok((Seq::empty(), i + 1))
    } else if t[i].0 == TokenKind::StrLit || t[i].0 == TokenKind::DivSymb || t[i].0 == TokenKind::Dot {
        match path_spec(t, i + 1) {
            Err(e) => Err(e),
            Ok((rest, k)) => Ok((t[i].1 + rest, k)),
        }
    } else {
        Err(ParseError::InvalidFilePath)
    }
}

/// The statements from `i` to the end of the input, followed by the end
/// marker.
pub open spec fn program_from(t: Seq<Tok>, i: int) -> Result<Seq<Node>, ParseError>
    decreases t.len() - i,
{
    if i < 0 || i >= t.len() {
        Ok(seq![Node::Eof])
    } else {
        match stmt_spec(t, i) {
            Err(e) => Err(e),
            Ok((s, j)) => if i < j <= t.len() {
                match program_from(t, j) {
                    Err(e) => Err(e),
                    Ok(rest) => Ok(seq![s] + rest),
                }
            } else {
                Err(ParseError::UnexpectedEof)
            },
        }
    }
}

/// The program that a whole token sequence parses to.
pub open spec fn program(t: Seq<Tok>) -> Result<Seq<Node>, ParseError> {
    program_from(t, 0)
}

/// A numeric token whose digits denote a value beyond the 32-bit signed
/// range.
pub open spec fn out_of_range_literal(tok: Tok) -> bool {
    tok.0 == TokenKind::Numeric && int_literal(tok.1) == Err::<i32, ParseError>(ParseError::IntLiteralOutOfRange)
}

/// No token in `t[i..j]` is an out-of-range literal.
pub open spec fn in_range_between(t: Seq<Tok>, i: int, j: int) -> bool {
    forall|m: int| i <= m < j ==> !out_of_range_literal(#[trigger] t[m])
}

/// A token sequence that holds an out-of-range numeric literal anywhere
/// does not parse: every token is consumed by some rule, and the only rule
/// that accepts a numeric token reads its value.
pub proof fn lemma_out_of_range_literal_fails(t: Seq<Tok>, k: int)
    requires
        0 <= k < t.len(),
        out_of_range_literal(t[k]),
    ensures
        program(t) is Err,
{
    lemma_program_in_range(t, 0);
}

proof fn lemma_keyword_in_range(v: Seq<char>)
    requires
        v == "return"@ || v == "void"@ || v == ")"@,
    ensures
        !out_of_range_literal((TokenKind::Numeric, v)),
{
    reveal_strlit("return");
    reveal_strlit("void");
    reveal_strlit(")");
    assert(!is_ascii_digit(v[0]));
}

proof fn lemma_program_in_range(t: Seq<Tok>, i: int)
    requires
        0 <= i <= t.len(),
    ensures
        program_from(t, i) is Ok ==> in_range_between(t, i, t.len() as int),
    decreases t.len() - i,
{
    if i < t.len() {
        lemma_stmt_in_range(t, i);
        if let Ok((_, j)) = stmt_spec(t, i) {
            if i < j <= t.len() {
                lemma_program_in_range(t, j);
            }
        }
    }
}

proof fn lemma_prim_in_range(t: Seq<Tok>, i: int)
    ensures
        prim_spec(t, i) matches Ok((_, j)) ==> j == i + 1 && in_range_between(t, i, j),
{
}

proof fn lemma_expr_in_range(t: Seq<Tok>, i: int)
    requires
        0 <= i <= t.len(),
    ensures
        expr_spec(t, i) matches Ok((_, j)) ==> i < j <= t.len() && in_range_between(t, i, j),
    decreases t.len() - i, 4int,
{
    lemma_prim_in_range(t, i);
    if let Ok((_, j)) = prim_spec(t, i) {
        if j < t.len() && t[j].0 == TokenKind::OpenPar {
            lemma_args_in_range(t, j + 1);
        }
    }
}

proof fn lemma_args_in_range(t: Seq<Tok>, i: int)
    requires
        0 <= i <= t.len(),
    ensures
        args_spec(t, i) matches Ok((_, j)) ==> i < j <= t.len() && in_range_between(t, i, j),
    decreases t.len() - i, 5int,
{
    if i < t.len() && t[i].0 != TokenKind::ClosPar {
        lemma_expr_in_range(t, i);
        if let Ok((_, j)) = expr_spec(t, i) {
            if i < j <= t.len() {
                lemma_args_in_range(t, j);
            }
        }
    }
}

proof fn lemma_stmt_in_range(t: Seq<Tok>, i: int)
    requires
        0 <= i <= t.len(),
    ensures
        stmt_spec(t, i) matches Ok((_, j)) ==> i < j <= t.len() && in_range_between(t, i, j),
    decreases t.len() - i, 5int,
{
    if i < t.len() {
        if t[i].0 == TokenKind::Hash {
            lemma_directive_in_range(t, i + 1);
        } else if t[i].0 == TokenKind::StrLit && decl_type(t[i].1) is Some {
            lemma_decl_in_range(t, i + 1, decl_type(t[i].1)->0);
        } else if t[i].1 == "return"@ {
            lemma_keyword_in_range(t[i].1);
            lemma_expr_in_range(t, i + 1);
        } else {
            lemma_expr_in_range(t, i);
        }
    }
}

proof fn lemma_decl_in_range(t: Seq<Tok>, i: int, ret_type: Type)
    requires
        0 <= i <= t.len(),
    ensures
        decl_spec(t, i, ret_type) matches Ok((_, j)) ==> i < j <= t.len() && in_range_between(t, i, j),
    decreases t.len() - i, 0int,
{
    if i + 1 < t.len() && t[i].0 == TokenKind::StrLit && t[i + 1].0 == TokenKind::OpenPar {
        lemma_decl_func_in_range(t, i + 2, ret_type, t[i].1);
    }
}

proof fn lemma_decl_func_in_range(t: Seq<Tok>, i: int, ret_type: Type, name: Seq<char>)
    requires
        0 <= i <= t.len(),
    ensures
        decl_func_spec(t, i, ret_type, name) matches Ok((_, j)) ==> i < j <= t.len() && in_range_between(
            t,
            i,
            j,
        ),
    decreases t.len() - i, 0int,
{
    if let Ok(j) = params_spec(t, i) {
        lemma_keyword_in_range(t[i].1);
        if j < t.len() && t[j].0 == TokenKind::OpenBlk {
            lemma_body_in_range(t, j + 1);
        }
    }
}

proof fn lemma_body_in_range(t: Seq<Tok>, i: int)
    requires
        0 <= i <= t.len(),
    ensures
        body_spec(t, i) matches Ok((_, j)) ==> i < j <= t.len() && in_range_between(t, i, j),
    decreases t.len() - i, 6int,
{
    if i < t.len() && t[i].0 != TokenKind::ClosBlk {
        lemma_stmt_in_range(t, i);
        if let Ok((_, j)) = stmt_spec(t, i) {
            if i < j <= t.len() {
                lemma_body_in_range(t, j);
            }
        }
    }
}

proof fn lemma_directive_in_range(t: Seq<Tok>, i: int)
    requires
        0 <= i <= t.len(),
    ensures
        directive_spec(t, i) matches Ok((_, j)) ==> i < j <= t.len() && in_range_between(t, i, j),
{
    if i + 1 < t.len() && t[i + 1].0 == TokenKind::LessThan {
        lemma_path_in_range(t, i + 2);
    }
}

proof fn lemma_path_in_range(t: Seq<Tok>, i: int)
    requires
        0 <= i <= t.len(),
    ensures
        path_spec(t, i) matches Ok((_, j)) ==> i < j <= t.len() && in_range_between(t, i, j),
    decreases t.len() - i,
{
    if i < t.len() && t[i].0 != TokenKind::GraThan {
        lemma_path_in_range(t, i + 1);
    }
}

/// The model of a node result.
pub open spec fn node_result(r: Result<(ASTNode, usize), ParseError>) -> Result<(Node, int), ParseError> {
    match r {
        Ok((n, j)) => Ok((n@, j as int)),
        Err(e) => Err(e),
    }
}

/// Whether two strings hold the same characters.
pub fn text_is(s: &str, lit: &str) -> (r: bool)
    ensures
        r == (s@ == lit@),
{
    let n = s.unicode_len();
    let m = lit.unicode_len();
    if n != m {
        return false;
    }
    let mut i: usize = 0;
    while i < n
        invariant
            n == s@.len(),
            m == lit@.len(),
            n == m,
            i <= n,
            forall|k: int| 0 <= k < i ==> s@[k] == lit@[k],
        decreases n - i,
    {
        if s.get_char(i) != lit.get_char(i) {
            return false;
        }
        i = i + 1;
    }
    proof {
        assert(s@ =~= lit@);
    }
    true
}

proof fn lemma_digits_value_prefix(s: Seq<char>, i: int)
    requires
        0 <= i <= s.len(),
    ensures
        digits_value(s.subrange(0, i)) <= digits_value(s),
    decreases s.len() - i,
{
    if i < s.len() {
        lemma_digits_value_prefix(s, i + 1);
        assert(s.subrange(0, i + 1).subrange(0, i) =~= s.subrange(0, i));
    } else {
        assert(s.subrange(0, i) =~= s);
    }
}

/// Reads an integer literal: a non-empty run of ASCII digits whose value
/// fits in `i32`.
pub fn parse_int(s: &str) -> (r: Result<i32, ParseError>)
    ensures
        r == int_literal(s@),
{
    let n = s.unicode_len();
    if n == 0 {
        return Err(ParseError::InvalidIntLiteral);
    }
    let mut i: usize = 0;
    while i < n
        invariant
            n == s@.len(),
            i <= n,
            forall|k: int| 0 <= k < i ==> is_ascii_digit(#[trigger] s@[k]),
        decreases n - i,
    {
        let c = s.get_char(i);
        if !('0' <= c && c <= '9') {
            return Err(ParseError::InvalidIntLiteral);
        }
        i = i + 1;
    }
    let mut v: u64 = 0;
    i = 0;
    while i < n
        invariant
            n == s@.len(),
            i <= n,
            all_ascii_digits(s@),
            v == digits_value(s@.subrange(0, i as int)),
            v <= i32::MAX,
        decreases n - i,
    {
        let c = s.get_char(i);
        let d = (c as u32 - '0' as u32) as u64;
        proof {
            assert(is_ascii_digit(s@[i as int]));
            assert(s@.subrange(0, i + 1).subrange(0, i as int) =~= s@.subrange(0, i as int));
        }
        v = v * 10 + d;
        i = i + 1;
        if v > i32::MAX as u64 {
            proof {
                lemma_digits_value_prefix(s@, i as int);
            }
            return Err(ParseError::IntLiteralOutOfRange);
        }
    }
    proof {
        assert(s@.subrange(0, n as int) =~= s@);
    }
    Ok(v as i32)
}

/// A parser over an owned token sequence, read through position cursors.
pub struct Parser {
    tokens: Vec<Token>,
}

impl Parser {
    /// The tokens being parsed.
    pub closed spec fn toks(&self) -> Seq<Tok> {
        tokens_view(self.tokens@)
    }

    pub fn new(tokens: Vec<Token>) -> (r: Self)
        ensures
            r.toks() == tokens_view(tokens@),
    {
        Self { tokens }
    }

    /// Parses the whole token sequence into a program that ends with the
    /// end marker, or fails on the first structural mismatch.
    pub fn parse(&self) -> (r: Result<AST, ParseError>)
        ensures
            match r {
                Ok(a) => program(self.toks()) == Ok::<Seq<Node>, ParseError>(a@),
                Err(e) => program(self.toks()) == Err::<Seq<Node>, ParseError>(e),
            },
    {
        let ghost t = self.toks();
        let mut ast = AST::new();
        let mut pos: usize = 0;
        while !self.eof(pos)
            invariant
                t == self.toks(),
                pos <= self.tokens@.len(),
                program(t) == match program_from(t, pos as int) {
                    Ok(rest) => Ok(ast@ + rest),
                    Err(e) => Err(e),
                },
            decreases self.tokens@.len() - pos,
        {
            match self.parse_stmt(pos) {
                Err(e) => {
                    return Err(e);
                },
                Ok((node, next)) => {
                    let ghost before = ast@;
                    ast.push(node);
                    proof {
                        if let Ok(rest) = program_from(t, next as int) {
                            assert(before + (seq![node@] + rest) =~= ast@ + rest);
                        }
                    }
                    pos = next;
                },
            }
        }
        let ghost before = ast@;
        ast.push(ASTNode::EOF);
        proof {
            assert(before + seq![Node::Eof] =~= ast@);
        }
        Ok(ast)
    }

    fn parse_stmt(&self, pos: usize) -> (r: Result<(ASTNode, usize), ParseError>)
        requires
            pos <= self.tokens@.len(),
        ensures
            node_result(r) == stmt_spec(self.toks(), pos as int),
            r matches Ok((_, j)) ==> pos < j <= self.tokens@.len(),
        decreases self.tokens@.len() - pos, 5int,
    {
        let (at, next) = match self.eat(pos) {
            Ok(x) => x,
            Err(e) => {
                return Err(e);
            },
        };
        if at.kind == TokenKind::Hash {
            return self.parse_deretive(next);
        }
        if at.kind == TokenKind::StrLit && self.is_decl(at.value.as_str()) {
            return self.parse_decl(at, next);
        }
        if text_is(at.value.as_str(), "return") {
            return self.parse_return(next);
        }
        self.parse_expr(pos)
    }

    fn parse_expr(&self, pos: usize) -> (r: Result<(ASTNode, usize), ParseError>)
        requires
            pos <= self.tokens@.len(),
        ensures
            node_result(r) == expr_spec(self.toks(), pos as int),
            r matches Ok((_, j)) ==> pos < j <= self.tokens@.len(),
        decreases self.tokens@.len() - pos, 4int,
    {
        self.parse_func_call(pos)
    }

    fn parse_func_call(&self, pos: usize) -> (r: Result<(ASTNode, usize), ParseError>)
        requires
            pos <= self.tokens@.len(),
        ensures
            node_result(r) == expr_spec(self.toks(), pos as int),
            r matches Ok((_, j)) ==> pos < j <= self.tokens@.len(),
        decreases self.tokens@.len() - pos, 3int,
    {
        let ghost t = self.toks();
        let (func, p) = match self.parse_prim_expr(pos) {
            Ok(x) => x,
            Err(e) => {
                return Err(e);
            },
        };
        let (at, after) = match self.eat(p) {
            Ok(x) => x,
            Err(e) => {
                return Err(e);
            },
        };
        if at.kind == TokenKind::OpenPar {
            let mut args: Vec<Box<ASTNode>> = Vec::new();
            let mut q: usize = after;
            loop
                invariant
                    t == self.toks(),
                    pos < q <= self.tokens@.len(),
                    p + 1 <= q,
                    p < self.tokens@.len(),
                    after == p + 1,
                    prim_spec(t, pos as int) == Ok::<(Node, int), ParseError>((func@, p as int)),
                    t[p as int].0 == TokenKind::OpenPar,
                    args_spec(t, p + 1) == match args_spec(t, q as int) {
                        Ok((rest, k)) => Ok((nodes_view(args@) + rest, k)),
                        Err(e) => Err(e),
                    },
                ensures
                    t == self.toks(),
                    pos < q < self.tokens@.len(),
                    t[q as int].0 == TokenKind::ClosPar,
                    args_spec(t, p + 1) == Ok::<(Seq<Node>, int), ParseError>((nodes_view(args@), q + 1)),
                decreases self.tokens@.len() - q,
            {
                let tok = match self.at(q) {
                    Ok(tok) => tok,
                    Err(e) => {
                        proof {
                            assert(args_spec(t, q as int) == Err::<(Seq<Node>, int), ParseError>(e));
                        }
                        return Err(e);
                    },
                };
                if tok.kind == TokenKind::ClosPar {
                    proof {
                        assert(nodes_view(args@) + Seq::<Node>::empty() =~= nodes_view(args@));
                    }
                    break;
                }
                let (arg, next) = match self.parse_expr(q) {
                    Ok(x) => x,
                    Err(e) => {
                        proof {
                            assert(args_spec(t, q as int) == Err::<(Seq<Node>, int), ParseError>(e));
                        }
                        return Err(e);
                    },
                };
                let ghost before = args@;
                args.push(Box::new(arg));
                proof {
                    lemma_nodes_view_push(before, Box::new(arg));
                    if let Ok((rest, k)) = args_spec(t, next as int) {
                        assert(nodes_view(before) + (seq![arg@] + rest) =~= nodes_view(args@) + rest);
                    }
                }
                q = next;
            }
            let (_, end) = match self.eat_kind(TokenKind::ClosPar, q) {
                Ok(x) => x,
                Err(e) => {
                    return Err(e);
                },
            };
            let name = match self.get_strlit_val(func) {
                Ok(name) => name,
                Err(e) => {
                    return Err(e);
                },
            };
            return Ok((ASTNode::FunCall { name, args }, end));
        }
        Ok((func, p))
    }

    fn parse_return(&self, pos: usize) -> (r: Result<(ASTNode, usize), ParseError>)
        requires
            pos <= self.tokens@.len(),
        ensures
            node_result(r) == match expr_spec(self.toks(), pos as int) {
                Err(e) => Err(e),
                Ok((e, j)) => Ok((Node::Return(Box::new(e)), j)),
            },
            r matches Ok((_, j)) ==> pos < j <= self.tokens@.len(),
        decreases self.tokens@.len() - pos, 5int,
    {
        match self.parse_expr(pos) {
            Ok((e, j)) => Ok((ASTNode::Return(Box::new(e)), j)),
            Err(e) => Err(e),
        }
    }

    fn parse_decl(&self, prev_tok: &Token, pos: usize) -> (r: Result<(ASTNode, usize), ParseError>)
        requires
            pos <= self.tokens@.len(),
            decl_type(prev_tok.value@) is Some,
        ensures
            node_result(r) == decl_spec(self.toks(), pos as int, decl_type(prev_tok.value@)->0),
            r matches Ok((_, j)) ==> pos < j <= self.tokens@.len(),
        decreases self.tokens@.len() - pos, 0int,
    {
        let (at, next) = match self.eat_kind(TokenKind::StrLit, pos) {
            Ok(x) => x,
            Err(e) => {
                return Err(e);
            },
        };
        let (open, after) = match self.eat(next) {
            Ok(x) => x,
            Err(e) => {
                return Err(e);
            },
        };
        match open.kind {
            TokenKind::OpenPar => self.parse_decl_func(
                self.str2type(prev_tok.value.as_str()),
                at.value.clone(),
                after,
            ),
            _ => Err(ParseError::ExpectedFunctionDecl),
        }
    }

    fn parse_decl_func(&self, ret_type: Type, name: String, pos: usize) -> (r: Result<
        (ASTNode, usize),
        ParseError,
    >)
        requires
            pos <= self.tokens@.len(),
        ensures
            node_result(r) == decl_func_spec(self.toks(), pos as int, ret_type, name@),
            r matches Ok((_, j)) ==> pos < j <= self.tokens@.len(),
        decreases self.tokens@.len() - pos, 0int,
    {
        let ghost t = self.toks();
        let (params, p) = match self.parse_decl_func_params(pos) {
            Ok(x) => x,
            Err(e) => {
                return Err(e);
            },
        };
        let (_, start) = match self.eat_kind(TokenKind::OpenBlk, p) {
            Ok(x) => x,
            Err(e) => {
                return Err(e);
            },
        };
        let mut body: Vec<Box<ASTNode>> = Vec::new();
        let mut q: usize = start;
        loop
            invariant
                t == self.toks(),
                pos < q <= self.tokens@.len(),
                start <= q,
                p < self.tokens@.len(),
                start == p + 1,
                params_spec(t, pos as int) == Ok::<int, ParseError>(p as int),
                t[p as int].0 == TokenKind::OpenBlk,
                params@ == Seq::<FuncParam>::empty(),
                body_spec(t, start as int) == match body_spec(t, q as int) {
                    Ok((rest, k)) => Ok((nodes_view(body@) + rest, k)),
                    Err(e) => Err(e),
                },
            ensures
                t == self.toks(),
                pos < q < self.tokens@.len(),
                t[q as int].0 == TokenKind::ClosBlk,
                params@ == Seq::<FuncParam>::empty(),
                body_spec(t, start as int) == Ok::<(Seq<Node>, int), ParseError>((nodes_view(body@), q + 1)),
            decreases self.tokens@.len() - q,
        {
            let tok = match self.at(q) {
                Ok(tok) => tok,
                Err(e) => {
                    proof {
                        assert(body_spec(t, q as int) == Err::<(Seq<Node>, int), ParseError>(e));
                    }
                    return Err(e);
                },
            };
            if tok.kind == TokenKind::ClosBlk {
                proof {
                    assert(nodes_view(body@) + Seq::<Node>::empty() =~= nodes_view(body@));
                }
                break;
            }
            let (stmt, next) = match self.parse_stmt(q) {
                Ok(x) => x,
                Err(e) => {
                    proof {
                        assert(body_spec(t, q as int) == Err::<(Seq<Node>, int), ParseError>(e));
                    }
                    return Err(e);
                },
            };
            let ghost before = body@;
            body.push(Box::new(stmt));
            proof {
                lemma_nodes_view_push(before, Box::new(stmt));
                if let Ok((rest, k)) = body_spec(t, next as int) {
                    assert(nodes_view(before) + (seq![stmt@] + rest) =~= nodes_view(body@) + rest);
                }
            }
            q = next;
        }
        let (_, end) = match self.eat_kind(TokenKind::ClosBlk, q) {
            Ok(x) => x,
            Err(e) => {
                return Err(e);
            },
        };
        Ok((ASTNode::FuncDecl { name, params, ret_type, body }, end))
    }

    fn parse_decl_func_params(&self, pos: usize) -> (r: Result<(Vec<FuncParam>, usize), ParseError>)
        requires
            pos <= self.tokens@.len(),
        ensures
            match r {
                Ok((ps, j)) => ps@ == Seq::<FuncParam>::empty() && params_spec(self.toks(), pos as int)
                    == Ok::<int, ParseError>(j as int) && pos < j <= self.tokens@.len(),
                Err(e) => params_spec(self.toks(), pos as int) == Err::<int, ParseError>(e),
            },
    {
        let (at, next) = match self.eat(pos) {
            Ok(x) => x,
            Err(e) => {
                return Err(e);
            },
        };
        if text_is(at.value.as_str(), "void") {
            let (_, end) = match self.eat_kind(TokenKind::ClosPar, next) {
                Ok(x) => x,
                Err(e) => {
                    return Err(e);
                },
            };
            return Ok((Vec::new(), end));
        }
        if text_is(at.value.as_str(), ")") {
            return Ok((Vec::new(), next));
        }
        Err(ParseError::UnsupportedParams)
    }

    fn parse_deretive(&self, pos: usize) -> (r: Result<(ASTNode, usize), ParseError>)
        requires
            pos <= self.tokens@.len(),
        ensures
            node_result(r) == directive_spec(self.toks(), pos as int),
            r matches Ok((_, j)) ==> pos < j <= self.tokens@.len(),
    {
        let (at, next) = match self.eat_kind(TokenKind::StrLit, pos) {
            Ok(x) => x,
            Err(e) => {
                return Err(e);
            },
        };
        if text_is(at.value.as_str(), "include") {
            return self.parse_deretive_include(next);
        }
        if text_is(at.value.as_str(), "define") {
            return self.parse_deretive_define();
        }
        Err(ParseError::InvalidDirective)
    }

    fn parse_deretive_include(&self, pos: usize) -> (r: Result<(ASTNode, usize), ParseError>)
        requires
            pos <= self.tokens@.len(),
        ensures
            node_result(r) == header_spec(self.toks(), pos as int),
            r matches Ok((_, j)) ==> pos < j <= self.tokens@.len(),
    {
        let ghost t = self.toks();
        let (at, next) = match self.eat(pos) {
            Ok(x) => x,
            Err(e) => {
                return Err(e);
            },
        };
        let mut filepath = String::new();
        match at.kind {
            TokenKind::LessThan => {
                let mut q: usize = next;
                loop
                    invariant
                        t == self.toks(),
                        next <= q <= self.tokens@.len(),
                        next == pos + 1,
                        t[pos as int].0 == TokenKind::LessThan,
                        path_spec(t, next as int) == match path_spec(t, q as int) {
                            Ok((rest, k)) => Ok((filepath@ + rest, k)),
                            Err(e) => Err(e),
                        },
                    ensures
                        t == self.toks(),
                        next <= q < self.tokens@.len(),
                        next == pos + 1,
                        t[q as int].0 == TokenKind::GraThan,
                        path_spec(t, next as int) == Ok::<(Seq<char>, int), ParseError>((filepath@, q + 1)),
                    decreases self.tokens@.len() - q,
                {
                    let (x, after) = match self.eat(q) {
                        Ok(x) => x,
                        Err(e) => {
                            proof {
                                assert(path_spec(t, q as int) == Err::<(Seq<char>, int), ParseError>(e));
                            }
                            return Err(e);
                        },
                    };
                    if x.kind == TokenKind::GraThan {
                        proof {
                            assert(filepath@ + Seq::<char>::empty() =~= filepath@);
                        }
                        break;
                    }
                    match x.kind {
                        TokenKind::StrLit | TokenKind::DivSymb | TokenKind::Dot => {
                            let ghost before = filepath@;
                            filepath.append(x.value.as_str());
                            proof {
                                if let Ok((rest, k)) = path_spec(t, after as int) {
                                    assert(before + (x.value@ + rest) =~= filepath@ + rest);
                                }
                            }
                        },
                        _ => {
                            proof {
                                assert(path_spec(t, q as int) == Err::<(Seq<char>, int), ParseError>(
                                    ParseError::InvalidFilePath,
                                ));
                            }
                            return Err(ParseError::InvalidFilePath);
                        },
                    }
                    q = after;
                }
                let (_, end) = match self.eat_kind(TokenKind::GraThan, q) {
                    Ok(x) => x,
                    Err(e) => {
                        return Err(e);
                    },
                };
                Ok((ASTNode::Include(filepath), end))
            },
            TokenKind::StrVal => {
                filepath.append(at.value.as_str());
                proof {
                    assert(filepath@ =~= at.value@);
                }
                Ok((ASTNode::Include(filepath), next))
            },
            _ => Err(ParseError::InvalidDirective),
        }
    }

    fn parse_deretive_define(&self) -> (r: Result<(ASTNode, usize), ParseError>)
        ensures
            r matches Err(e) && e == ParseError::DefineUnsupported,
    {
        Err(ParseError::DefineUnsupported)
    }

    fn parse_prim_expr(&self, pos: usize) -> (r: Result<(ASTNode, usize), ParseError>)
        requires
            pos <= self.tokens@.len(),
        ensures
            node_result(r) == prim_spec(self.toks(), pos as int),
            r matches Ok((_, j)) ==> j == pos + 1 && j <= self.tokens@.len(),
    {
        let (at, next) = match self.eat(pos) {
            Ok(x) => x,
            Err(e) => {
                return Err(e);
            },
        };
        match at.kind {
            TokenKind::StrLit => Ok((ASTNode::StrLit(at.value.clone()), next)),
            TokenKind::StrVal => Ok((ASTNode::StrVal(at.value.clone()), next)),
            TokenKind::Numeric => match parse_int(at.value.as_str()) {
                Ok(n) => Ok((ASTNode::IntLit(n), next)),
                Err(e) => Err(e),
            },
            TokenKind::Semicolon => Ok((ASTNode::Semicolon, next)),
            k => Err(ParseError::UnsupportedPrimary(k)),
        }
    }

    /// Consumes the token at `pos`, which must be of the given kind.
    fn eat_kind(&self, kind: TokenKind, pos: usize) -> (r: Result<(&Token, usize), ParseError>)
        ensures
            pos >= self.tokens@.len() ==> (r matches Err(e) && e == ParseError::UnexpectedEof),
            pos < self.tokens@.len() && self.toks()[pos as int].0 != kind ==> (r matches Err(e) && e
                == (ParseError::UnexpectedToken { expected: kind, found: self.toks()[pos as int].0 })),
            pos < self.tokens@.len() && self.toks()[pos as int].0 == kind ==> (r matches Ok((tok, j))
                && tok@ == self.toks()[pos as int] && j == pos + 1),
    {
        let tok = match self.at(pos) {
            Ok(tok) => tok,
            Err(e) => {
                return Err(e);
            },
        };
        if tok.kind != kind {
            return Err(ParseError::UnexpectedToken { expected: kind, found: tok.kind });
        }
        self.eat(pos)
    }

    /// The token at `pos`, without consuming it.
    fn at(&self, pos: usize) -> (r: Result<&Token, ParseError>)
        ensures
            pos >= self.tokens@.len() ==> (r matches Err(e) && e == ParseError::UnexpectedEof),
            pos < self.tokens@.len() ==> (r matches Ok(tok) && tok@ == self.toks()[pos as int]),
    {
        if self.eof(pos) {
            return Err(ParseError::UnexpectedEof);
        }
        Ok(&self.tokens[pos])
    }

    /// Consumes the token at `pos`.
    fn eat(&self, pos: usize) -> (r: Result<(&Token, usize), ParseError>)
        ensures
            pos >= self.tokens@.len() ==> (r matches Err(e) && e == ParseError::UnexpectedEof),
            pos < self.tokens@.len() ==> (r matches Ok((tok, j)) && tok@ == self.toks()[pos as int] && j
                == pos + 1),
    {
        if pos >= self.tokens.len() {
            return Err(ParseError::UnexpectedEof);
        }
        Ok((&self.tokens[pos], pos + 1))
    }

    fn eof(&self, pos: usize) -> (r: bool)
        ensures
            r == (pos >= self.tokens@.len()),
    {
        pos >= self.tokens.len()
    }

    fn is_decl(&self, x: &str) -> (r: bool)
        ensures
            r == decl_type(x@) is Some,
    {
        text_is(x, "int")
    }

    fn str2type(&self, s: &str) -> (r: Type)
        requires
            decl_type(s@) is Some,
        ensures
            decl_type(s@) == Some(r),
    {
        Type::INT
    }

    fn get_strlit_val(&self, strlit: ASTNode) -> (r: Result<String, ParseError>)
        ensures
            match strlit@ {
                Node::StrLit(v) => r matches Ok(s) && s@ == v,
                _ => r == Err::<String, ParseError>(ParseError::ExpectedCallName),
            },
    {
        if let ASTNode::StrLit(value) = strlit {
            return Ok(value);
        }
        Err(ParseError::ExpectedCallName)
    }
}

} // verus!
