//! The lexer: turns a character sequence into a token sequence.
use vstd::prelude::*;
use crate::types::{Token, TokenKind, tokens_view};

verus! {

/// Whether `char::is_alphabetic` holds of a character (Unicode `Alphabetic`).
pub uninterp spec fn alphabetic(c: char) -> bool;

/// Whether `char::is_numeric` holds of a character (Unicode numeric classes).
pub uninterp spec fn numeric(c: char) -> bool;

/// Whether `char::is_whitespace` holds of a character (Unicode `White_Space`).
pub uninterp spec fn whitespace(c: char) -> bool;

/// Relies on `char::is_alphabetic`: the answer depends on the character alone.
pub assume_specification[ char::is_alphabetic ](c: char) -> (r: bool)
    ensures
        r == alphabetic(c),
;

/// Relies on `char::is_numeric`: the answer depends on the character alone.
pub assume_specification[ char::is_numeric ](c: char) -> (r: bool)
    ensures
        r == numeric(c),
;

/// Relies on `char::is_whitespace`: the answer depends on the character alone.
pub assume_specification[ char::is_whitespace ](c: char) -> (r: bool)
    ensures
        r == whitespace(c),
;

/// Relies on `String::push`: appends one character at the end.
pub assume_specification[ String::push ](s: &mut String, ch: char)
    ensures
        final(s)@ == old(s)@.push(ch),
;

/// The kinds of character runs that form one token.
#[derive(Clone, Copy, Debug, PartialEq, Eq, Structural)]
pub enum Run {
    Letters,
    Digits,
    Unquoted,
}

pub open spec fn in_run(c: char, run: Run) -> bool {
    match run {
        Run::Letters => alphabetic(c),
        Run::Digits => numeric(c),
        Run::Unquoted => c != '"',
    }
}

/// The end of the longest run of `run` characters that starts at `i`.
pub open spec fn run_end(s: Seq<char>, i: int, run: Run) -> int
    decreases s.len() - i,
{
    if 0 <= i < s.len() && in_run(s[i], run) {
        run_end(s, i + 1, run)
    } else {
        i
    }
}

pub proof fn lemma_run_end(s: Seq<char>, i: int, run: Run)
    requires
        0 <= i <= s.len(),
    ensures
        i <= run_end(s, i, run) <= s.len(),
        i < s.len() && in_run(s[i], run) ==> i < run_end(s, i, run),
        forall|k: int| i <= k < run_end(s, i, run) ==> in_run(#[trigger] s[k], run),
        run_end(s, i, run) < s.len() ==> !in_run(s[run_end(s, i, run)], run),
    decreases s.len() - i,
{
    if i < s.len() && in_run(s[i], run) {
        lemma_run_end(s, i + 1, run);
    }
}

/// The token kind of a single punctuation character, if it is one.
pub open spec fn single_char_kind(c: char) -> Option<TokenKind> {
    if c == '(' {
        Some(TokenKind::OpenPar)
    } else if c == ')' {
        Some(TokenKind::ClosPar)
    } else if c == '{' {
        Some(TokenKind::OpenBlk)
    } else if c == '}' {
        Some(TokenKind::ClosBlk)
    } else if c == ':' {
        Some(TokenKind::Colon)
    } else if c == ',' {
        Some(TokenKind::Comma)
    } else if c == ';' {
        Some(TokenKind::Semicolon)
    } else if c == '=' {
        Some(TokenKind::Equal)
    } else if c == '+' {
        Some(TokenKind::PluSymb)
    } else if c == '-' {
        Some(TokenKind::MinSymb)
    } else if c == '*' {
        Some(TokenKind::MulSymb)
    } else if c == '/' {
        Some(TokenKind::DivSymb)
    } else if c == '.' {
        Some(TokenKind::Dot)
    } else if c == '#' {
        Some(TokenKind::Hash)
    } else if c == '<' {
        Some(TokenKind::LessThan)
    } else if c == '>' {
        Some(TokenKind::GraThan)
    } else {
        None
    }
}

/// Lexing `s` from position `i`: the tokens produced and the characters
/// skipped because no token starts with them.
///
/// Whitespace separates tokens; a run of letters is a `StrLit`, a run of
/// digits a `Numeric`; a double quote starts a `StrVal` holding everything up
/// to the next double quote (or to the end of the input, if none follows);
/// each punctuation character is a token of its own.
pub open spec fn lex_from(s: Seq<char>, i: int) -> (Seq<(TokenKind, Seq<char>)>, Seq<char>)
    decreases s.len() - i,
{
    if i < 0 || i >= s.len() {
        (Seq::empty(), Seq::empty())
    } else if whitespace(s[i]) {
        lex_from(s, i + 1)
    } else if alphabetic(s[i]) {
        let j = run_end(s, i, Run::Letters);
        proof {
            lemma_run_end(s, i, Run::Letters);
        }
        let rest = lex_from(s, j);
        (seq![(TokenKind::StrLit, s.subrange(i, j))] + rest.0, rest.1)
    } else if numeric(s[i]) {
        let j = run_end(s, i, Run::Digits);
        proof {
            lemma_run_end(s, i, Run::Digits);
        }
        let rest = lex_from(s, j);
        (seq![(TokenKind::Numeric, s.subrange(i, j))] + rest.0, rest.1)
    } else if s[i] == '"' {
        let j = run_end(s, i + 1, Run::Unquoted);
        proof {
            lemma_run_end(s, i + 1, Run::Unquoted);
        }
        let next = if j < s.len() { j + 1 } else { j };
        let rest = lex_from(s, next);
        (seq![(TokenKind::StrVal, s.subrange(i + 1, j))] + rest.0, rest.1)
    } else if let Some(k) = single_char_kind(s[i]) {
        let rest = lex_from(s, i + 1);
        (seq![(k, seq![s[i]])] + rest.0, rest.1)
    } else {
        let rest = lex_from(s, i + 1);
        (rest.0, seq![s[i]] + rest.1)
    }
}

/// The tokens of a whole input.
pub open spec fn lex_tokens(s: Seq<char>) -> Seq<(TokenKind, Seq<char>)> {
    lex_from(s, 0).0
}

/// The characters of a whole input that no token starts with.
pub open spec fn lex_skipped(s: Seq<char>) -> Seq<char> {
    lex_from(s, 0).1
}

/// Input made of whitespace alone lexes to no tokens and skips nothing.
pub proof fn lemma_whitespace_lexes_to_nothing(s: Seq<char>)
    requires
        forall|k: int| 0 <= k < s.len() ==> whitespace(#[trigger] s[k]),
    ensures
        lex_tokens(s) == Seq::<(TokenKind, Seq<char>)>::empty(),
        lex_skipped(s) == Seq::<char>::empty(),
{
    lemma_whitespace_from(s, 0);
}

proof fn lemma_whitespace_from(s: Seq<char>, i: int)
    requires
        0 <= i <= s.len(),
        forall|k: int| 0 <= k < s.len() ==> whitespace(#[trigger] s[k]),
    ensures
        lex_from(s, i) == (Seq::<(TokenKind, Seq<char>)>::empty(), Seq::<char>::empty()),
    decreases s.len() - i,
{
    if i < s.len() {
        lemma_whitespace_from(s, i + 1);
    }
}

/// A lexer over a borrowed character stream, with a cursor into it.
pub struct Lexer<'a> {
    stream: &'a [char],
    pos: usize,
    tokens: Vec<Token>,
    skipped: Vec<char>,
}

impl<'a> Lexer<'a> {
    /// The characters being lexed.
    pub closed spec fn input(&self) -> Seq<char> {
        self.stream@
    }

    /// The position of the next character to lex.
    pub closed spec fn cursor(&self) -> int {
        self.pos as int
    }

    /// The tokens produced so far.
    pub closed spec fn produced(&self) -> Seq<(TokenKind, Seq<char>)> {
        tokens_view(self.tokens@)
    }

    /// The characters skipped so far.
    pub closed spec fn skipped_view(&self) -> Seq<char> {
        self.skipped@
    }

    pub closed spec fn wf(&self) -> bool {
        self.pos <= self.stream@.len()
    }

    pub fn new(stream: &'a [char]) -> (r: Self)
        ensures
            r.wf(),
            r.input() == stream@,
            r.cursor() == 0,
            r.produced() == Seq::<(TokenKind, Seq<char>)>::empty(),
            r.skipped_view() == Seq::<char>::empty(),
    {
        let r = Self { stream: stream, pos: 0, tokens: Vec::new(), skipped: Vec::new() };
        proof {
            assert(tokens_view(r.tokens@) =~= Seq::empty());
        }
        r
    }

    /// The characters skipped so far, each once, in input order.
    pub fn skipped(&self) -> (r: &Vec<char>)
        ensures
            r@ == self.skipped_view(),
    {
        &self.skipped
    }

    /// Lexes the rest of the input and hands out every token produced.
    pub fn lex(&mut self) -> (r: Vec<Token>)
        requires
            old(self).wf(),
        ensures
            final(self).wf(),
            final(self).input() == old(self).input(),
            final(self).cursor() == old(self).input().len(),
            final(self).produced() == Seq::<(TokenKind, Seq<char>)>::empty(),
            tokens_view(r@) == old(self).produced() + lex_from(old(self).input(), old(self).cursor()).0,
            final(self).skipped_view() == old(self).skipped_view() + lex_from(old(self).input(), old(self).cursor()).1,
    {
        let ghost s = self.stream@;
        let ghost goal = lex_from(s, self.pos as int);
        let ghost toks0 = tokens_view(self.tokens@);
        let ghost skip0 = self.skipped@;
        loop
            invariant
                self.wf(),
                self.stream@ == s,
                goal == lex_from(s, old(self).pos as int),
                toks0 == tokens_view(old(self).tokens@),
                skip0 == old(self).skipped@,
                toks0 + goal.0 == tokens_view(self.tokens@) + lex_from(s, self.pos as int).0,
                skip0 + goal.1 == self.skipped@ + lex_from(s, self.pos as int).1,
            ensures
                self.wf(),
                self.stream@ == s,
                self.pos == s.len(),
                toks0 + goal.0 == tokens_view(self.tokens@),
                skip0 + goal.1 == self.skipped@,
            decreases s.len() - self.pos,
        {
            self.trim_left();
            if self.pos == self.stream.len() {
                proof {
                    assert(lex_from(s, self.pos as int).0 =~= Seq::empty());
                    assert(lex_from(s, self.pos as int).1 =~= Seq::empty());
                    assert(tokens_view(self.tokens@) + lex_from(s, self.pos as int).0 =~= tokens_view(self.tokens@));
                    assert(self.skipped@ + lex_from(s, self.pos as int).1 =~= self.skipped@);
                }
                break;
            }
            let c = self.stream[self.pos];
            let ghost i = self.pos as int;
            let ghost toks1 = tokens_view(self.tokens@);
            let ghost rest = lex_from(s, i);
            if c.is_alphabetic() {
                proof {
                    lemma_run_end(s, i, Run::Letters);
                }
                let buf = self.chop_while(Run::Letters);
                self.push_token(Token { kind: TokenKind::StrLit, value: buf });
                proof {
                    assert(toks1 + rest.0 =~= tokens_view(self.tokens@) + lex_from(s, self.pos as int).0);
                }
                continue;
            }
            if c.is_numeric() {
                proof {
                    lemma_run_end(s, i, Run::Digits);
                }
                let buf = self.chop_while(Run::Digits);
                self.push_token(Token { kind: TokenKind::Numeric, value: buf });
                proof {
                    assert(toks1 + rest.0 =~= tokens_view(self.tokens@) + lex_from(s, self.pos as int).0);
                }
                continue;
            }
            if c == '"' {
                self.chop(1);
                proof {
                    lemma_run_end(s, i + 1, Run::Unquoted);
                }
                let buf = self.chop_while(Run::Unquoted);
                if self.pos < self.stream.len() {
                    self.chop(1);
                }
                self.push_token(Token { kind: TokenKind::StrVal, value: buf });
                proof {
                    assert(toks1 + rest.0 =~= tokens_view(self.tokens@) + lex_from(s, self.pos as int).0);
                }
                continue;
            }
            if self.extr_sgl_char_tkn() {
                proof {
                    assert(toks1 + rest.0 =~= tokens_view(self.tokens@) + lex_from(s, self.pos as int).0);
                }
                continue;
            }
            let ghost skip1 = self.skipped@;
            self.skipped.push(c);
            self.pos = self.pos + 1;
            proof {
                assert(skip1 + rest.1 =~= self.skipped@ + lex_from(s, self.pos as int).1);
            }
        }
        let mut r = Vec::new();
        core::mem::swap(&mut r, &mut self.tokens);
        proof {
            assert(tokens_view(self.tokens@) =~= Seq::empty());
        }
        r
    }

    /// Lexes one punctuation character, if the next character is one.
    fn extr_sgl_char_tkn(&mut self) -> (r: bool)
        requires
            old(self).wf(),
            old(self).pos < old(self).stream@.len(),
        ensures
            final(self).wf(),
            final(self).stream == old(self).stream,
            final(self).skipped == old(self).skipped,
            r == single_char_kind(old(self).stream@[old(self).pos as int]) is Some,
            r ==> final(self).pos == old(self).pos + 1 && tokens_view(final(self).tokens@)
                == tokens_view(old(self).tokens@).push(
                (
                    single_char_kind(old(self).stream@[old(self).pos as int])->0,
                    seq![old(self).stream@[old(self).pos as int]],
                ),
            ),
            !r ==> *final(self) == *old(self),
    {
        match single_char_token(self.stream[self.pos]) {
            Some(kind) => {
                let buf = self.chop(1);
                self.push_token(Token { kind, value: buf });
                proof {
                    assert(buf@ =~= seq![old(self).stream@[old(self).pos as int]]);
                }
                true
            },
            None => false,
        }
    }

    /// Takes the longest run of `run` characters at the cursor.
    fn chop_while(&mut self, run: Run) -> (r: String)
        requires
            old(self).wf(),
        ensures
            final(self).wf(),
            final(self).stream == old(self).stream,
            final(self).tokens == old(self).tokens,
            final(self).skipped == old(self).skipped,
            final(self).pos == run_end(old(self).stream@, old(self).pos as int, run),
            r@ == old(self).stream@.subrange(old(self).pos as int, final(self).pos as int),
    {
        proof {
            lemma_run_end(self.stream@, self.pos as int, run);
        }
        let mut n: usize = self.pos;
        while n < self.stream.len() && in_run_exec(self.stream[n], run)
            invariant
                self.wf(),
                self.pos <= n <= self.stream@.len(),
                run_end(self.stream@, n as int, run) == run_end(self.stream@, self.pos as int, run),
            decreases self.stream@.len() - n,
        {
            n = n + 1;
        }
        self.chop(n - self.pos)
    }

    /// Takes the next `n` characters.
    fn chop(&mut self, n: usize) -> (r: String)
        requires
            old(self).wf(),
            old(self).pos + n <= old(self).stream@.len(),
        ensures
            final(self).wf(),
            final(self).stream == old(self).stream,
            final(self).tokens == old(self).tokens,
            final(self).skipped == old(self).skipped,
            final(self).pos == old(self).pos + n,
            r@ == old(self).stream@.subrange(old(self).pos as int, old(self).pos + n),
    {
        let mut buf = String::new();
        let _len = self.stream.len();
        let end = self.pos + n;
        while self.pos < end
            invariant
                old(self).pos <= self.pos <= end <= self.stream@.len(),
                self.stream == old(self).stream,
                self.tokens == old(self).tokens,
                self.skipped == old(self).skipped,
                end == old(self).pos + n,
                buf@ == self.stream@.subrange(old(self).pos as int, self.pos as int),
            decreases end - self.pos,
        {
            buf.push(self.stream[self.pos]);
            self.pos = self.pos + 1;
            proof {
                assert(buf@ =~= self.stream@.subrange(old(self).pos as int, self.pos as int));
            }
        }
        buf
    }

    /// Skips whitespace at the cursor; returns how many characters it skipped.
    fn trim_left(&mut self) -> (r: usize)
        requires
            old(self).wf(),
        ensures
            final(self).wf(),
            final(self).stream == old(self).stream,
            final(self).tokens == old(self).tokens,
            final(self).skipped == old(self).skipped,
            final(self).pos == old(self).pos + r,
            lex_from(final(self).stream@, final(self).pos as int) == lex_from(old(self).stream@, old(self).pos as int),
            final(self).pos < final(self).stream@.len() ==> !whitespace(final(self).stream@[final(self).pos as int]),
    {
        let mut n: usize = 0;
        while self.pos < self.stream.len() && self.stream[self.pos].is_whitespace()
            invariant
                self.wf(),
                self.stream == old(self).stream,
                self.tokens == old(self).tokens,
                self.skipped == old(self).skipped,
                self.pos == old(self).pos + n,
                lex_from(self.stream@, self.pos as int) == lex_from(old(self).stream@, old(self).pos as int),
            decreases self.stream@.len() - self.pos,
        {
            self.pos = self.pos + 1;
            n = n + 1;
        }
        n
    }

    fn push_token(&mut self, lexeme: Token)
        ensures
            final(self).stream == old(self).stream,
            final(self).pos == old(self).pos,
            final(self).skipped == old(self).skipped,
            tokens_view(final(self).tokens@) == tokens_view(old(self).tokens@).push(lexeme@),
    {
        self.tokens.push(lexeme);
        proof {
            assert(tokens_view(self.tokens@) =~= tokens_view(old(self).tokens@).push(lexeme@));
        }
    }
}

/// Whether a character belongs to a run of the given kind.
fn in_run_exec(c: char, run: Run) -> (r: bool)
    ensures
        r == in_run(c, run),
{
    match run {
        Run::Letters => c.is_alphabetic(),
        Run::Digits => c.is_numeric(),
        Run::Unquoted => c != '"',
    }
}

/// The token kind of a single punctuation character, if it is one.
pub fn single_char_token(c: char) -> (r: Option<TokenKind>)
    ensures
        r == single_char_kind(c),
{
    match c {
        '(' => Some(TokenKind::OpenPar),
        ')' => Some(TokenKind::ClosPar),
        '{' => Some(TokenKind::OpenBlk),
        '}' => Some(TokenKind::ClosBlk),
        ':' => Some(TokenKind::Colon),
        ',' => Some(TokenKind::Comma),
        ';' => Some(TokenKind::Semicolon),
        '=' => Some(TokenKind::Equal),
        '+' => Some(TokenKind::PluSymb),
        '-' => Some(TokenKind::MinSymb),
        '*' => Some(TokenKind::MulSymb),
        '/' => Some(TokenKind::DivSymb),
        '.' => Some(TokenKind::Dot),
        '#' => Some(TokenKind::Hash),
        '<' => Some(TokenKind::LessThan),
        '>' => Some(TokenKind::GraThan),
        _ => None,
    }
}

} // verus!
