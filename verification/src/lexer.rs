//! Splitting source bytes into tokens.
//!
//! The lexer reads ASCII source: blanks, line terminators, identifiers and
//! the keywords of the expression grammar, decimal numbers, regular
//! expression literals and punctuators. Any other byte is malformed input.

pub mod stream;
pub mod token;

use vstd::prelude::*;
use crate::lexer::token::{BinToken, Token, TokenType, stream_wf, tiles_at};
use crate::span::Span;

verus! {

/// Sets of bytes that form runs inside one token.
#[derive(Clone, Copy, Debug, PartialEq, Eq, Structural)]
pub enum ByteClass {
    /// Space, tab, vertical tab and form feed.
    Blank,
    /// ASCII letters, digits, `_` and `$`.
    IdentPart,
    /// ASCII decimal digits.
    Digit,
}

impl ByteClass {
    pub open spec fn spec_contains(self, b: u8) -> bool {
        match self {
            ByteClass::Blank => b == 0x20 || b == 0x09 || b == 0x0B || b == 0x0C,
            ByteClass::IdentPart => is_ident_start(b) || (0x30 <= b <= 0x39),
            ByteClass::Digit => 0x30 <= b <= 0x39,
        }
    }

    #[verifier::when_used_as_spec(spec_contains)]
    pub fn contains(self, b: u8) -> (r: bool)
        ensures
            r == self.spec_contains(b),
    {
        match self {
            ByteClass::Blank => b == 0x20 || b == 0x09 || b == 0x0B || b == 0x0C,
            ByteClass::IdentPart => starts_ident(b) || (0x30 <= b && b <= 0x39),
            ByteClass::Digit => 0x30 <= b && b <= 0x39,
        }
    }
}

/// ASCII letters, `_` and `$`.
pub open spec fn is_ident_start(b: u8) -> bool {
    (0x41 <= b <= 0x5A) || (0x61 <= b <= 0x7A) || b == 0x5F || b == 0x24
}

/// `\n` or `\r`.
pub open spec fn is_line_terminator(b: u8) -> bool {
    b == 0x0A || b == 0x0D
}

#[verifier::when_used_as_spec(is_ident_start)]
pub fn starts_ident(b: u8) -> (r: bool)
    ensures
        r == is_ident_start(b),
{
    (0x41 <= b && b <= 0x5A) || (0x61 <= b && b <= 0x7A) || b == 0x5F || b == 0x24
}

/// The end of the longest run of bytes of `class` that starts at `p`.
pub open spec fn run_end(src: Seq<u8>, p: int, class: ByteClass) -> int
    decreases src.len() - p,
{
    if 0 <= p < src.len() && class.spec_contains(src[p]) {
        run_end(src, p + 1, class)
    } else {
        p
    }
}

/// `run_end` is the first position at or after `p` that is outside the
/// source or holds a byte outside `class`.
pub proof fn lemma_run_end(src: Seq<u8>, p: int, class: ByteClass)
    requires
        0 <= p <= src.len(),
    ensures
        p <= run_end(src, p, class) <= src.len(),
        forall|i: int| p <= i < run_end(src, p, class) ==> class.spec_contains(#[trigger] src[i]),
        run_end(src, p, class) < src.len() ==> !class.spec_contains(
            src[run_end(src, p, class)],
        ),
    decreases src.len() - p,
{
    if p < src.len() && class.spec_contains(src[p]) {
        lemma_run_end(src, p + 1, class);
    }
}

/// Where a regular expression body that is being read at `p` ends: the
/// position just behind its closing `/`. A backslash takes the next byte
/// with it. `None` when the line or the source ends first.
pub open spec fn regex_body_end(src: Seq<u8>, p: int) -> Option<int>
    decreases src.len() - p,
{
    if p < 0 || p >= src.len() || is_line_terminator(src[p]) {
        None
    } else if src[p] == 0x2F {
        Some(p + 1)
    } else if src[p] == 0x5C {
        if p + 1 < src.len() && !is_line_terminator(src[p + 1]) {
            regex_body_end(src, p + 2)
        } else {
            None
        }
    } else {
        regex_body_end(src, p + 1)
    }
}

pub proof fn lemma_regex_body_end(src: Seq<u8>, p: int)
    requires
        0 <= p,
    ensures
        regex_body_end(src, p) matches Some(e) ==> p < e <= src.len(),
    decreases src.len() - p,
{
    if p >= src.len() || is_line_terminator(src[p]) {
    } else if src[p] == 0x2F {
    } else if src[p] == 0x5C {
        if p + 1 < src.len() && !is_line_terminator(src[p + 1]) {
            lemma_regex_body_end(src, p + 2);
        }
    } else {
        lemma_regex_body_end(src, p + 1);
    }
}

/// What a word made of identifier bytes is: one of the keywords `true`,
/// `false`, `null`, `this`, `delete`, `void`, `typeof`, or an identifier.
pub open spec fn word_type(w: Seq<u8>) -> TokenType {
    if w.len() == 4 && w[0] == 0x74 && w[1] == 0x72 && w[2] == 0x75 && w[3] == 0x65 {
        TokenType::True
    } else if w.len() == 5 && w[0] == 0x66 && w[1] == 0x61 && w[2] == 0x6C && w[3] == 0x73
        && w[4] == 0x65 {
        TokenType::False
    } else if w.len() == 4 && w[0] == 0x6E && w[1] == 0x75 && w[2] == 0x6C && w[3] == 0x6C {
        TokenType::Null
    } else if w.len() == 4 && w[0] == 0x74 && w[1] == 0x68 && w[2] == 0x69 && w[3] == 0x73 {
        TokenType::This
    } else if w.len() == 6 && w[0] == 0x64 && w[1] == 0x65 && w[2] == 0x6C && w[3] == 0x65
        && w[4] == 0x74 && w[5] == 0x65 {
        TokenType::Delete
    } else if w.len() == 4 && w[0] == 0x76 && w[1] == 0x6F && w[2] == 0x69 && w[3] == 0x64 {
        TokenType::Void
    } else if w.len() == 6 && w[0] == 0x74 && w[1] == 0x79 && w[2] == 0x70 && w[3] == 0x65
        && w[4] == 0x6F && w[5] == 0x66 {
        TokenType::Typeof
    } else {
        TokenType::Identifier
    }
}

/// The token whose lexeme is `[start, end)`.
pub open spec fn token_of(token_type: TokenType, start: int, end: int) -> Token {
    Token { token_type, lexeme: Span { start: start as usize, end: end as usize } }
}

/// Where a number that starts at `p` ends: a run of digits, and a fraction
/// behind it where a `.` is followed by a digit.
pub open spec fn number_end(src: Seq<u8>, p: int) -> int {
    let whole = run_end(src, p, ByteClass::Digit);
    if whole + 1 < src.len() && src[whole] == 0x2E && ByteClass::Digit.spec_contains(
        src[whole + 1],
    ) {
        run_end(src, whole + 1, ByteClass::Digit)
    } else {
        whole
    }
}

/// The token that starts at byte `p`, or `None` where no token can start
/// there. `regex_ok` tells whether a `/` opens a regular expression.
#[verifier::opaque]
pub open spec fn token_at(src: Seq<u8>, p: int, regex_ok: bool) -> Option<Token>
    recommends
        0 <= p < src.len(),
{
    let b = src[p];
    let two = p + 1 < src.len() && src[p + 1] == b;
    if ByteClass::Blank.spec_contains(b) {
        Some(token_of(TokenType::Whitespace, p, run_end(src, p, ByteClass::Blank)))
    } else if b == 0x0D {
        Some(
            token_of(
                TokenType::Linebreak,
                p,
                if p + 1 < src.len() && src[p + 1] == 0x0A {
                    p + 2
                } else {
                    p + 1
                },
            ),
        )
    } else if b == 0x0A {
        Some(token_of(TokenType::Linebreak, p, p + 1))
    } else if is_ident_start(b) {
        let end = run_end(src, p, ByteClass::IdentPart);
        Some(token_of(word_type(src.subrange(p, end)), p, end))
    } else if ByteClass::Digit.spec_contains(b) {
        Some(token_of(TokenType::Number, p, number_end(src, p)))
    } else if b == 0x2B {
        if two {
            Some(token_of(TokenType::Increment, p, p + 2))
        } else {
            Some(token_of(TokenType::BinOp(BinToken::Add), p, p + 1))
        }
    } else if b == 0x2D {
        if two {
            Some(token_of(TokenType::Decrement, p, p + 2))
        } else {
            Some(token_of(TokenType::BinOp(BinToken::Subtract), p, p + 1))
        }
    } else if b == 0x2F {
        if regex_ok {
            match regex_body_end(src, p + 1) {
                Some(e) => Some(
                    token_of(TokenType::Regex, p, run_end(src, e, ByteClass::IdentPart)),
                ),
                None => None,
            }
        } else {
            Some(token_of(TokenType::BinOp(BinToken::Divide), p, p + 1))
        }
    } else {
        match punctuator(b) {
            Some(t) => Some(token_of(t, p, p + 1)),
            None => None,
        }
    }
}

/// The one-byte tokens that no longer token starts with.
pub open spec fn punctuator(b: u8) -> Option<TokenType> {
    if b == 0x2A {
        Some(TokenType::BinOp(BinToken::Multiply))
    } else if b == 0x25 {
        Some(TokenType::BinOp(BinToken::Modulo))
    } else if b == 0x7E {
        Some(TokenType::BitwiseNot)
    } else if b == 0x21 {
        Some(TokenType::LogicalNot)
    } else if b == 0x28 {
        Some(TokenType::ParenOpen)
    } else if b == 0x29 {
        Some(TokenType::ParenClose)
    } else if b == 0x5B {
        Some(TokenType::BracketOpen)
    } else if b == 0x5D {
        Some(TokenType::BracketClose)
    } else if b == 0x2E {
        Some(TokenType::Period)
    } else if b == 0x2C {
        Some(TokenType::Comma)
    } else if b == 0x3B {
        Some(TokenType::Semicolon)
    } else {
        None
    }
}

/// Whether a `/` behind a token of type `t` opens a regular expression,
/// given whether one would have done so in front of it. Whitespace and the
/// update operators leave the answer as it was.
pub open spec fn regex_ok_after(regex_ok: bool, t: TokenType) -> bool {
    if t.spec_is_whitespace() || t.spec_is_update_op() {
        regex_ok
    } else {
        !t.spec_ends_operand()
    }
}

/// Every token covers at least one byte and stays inside the source.
pub proof fn lemma_token_at_bounds(src: Seq<u8>, p: int, regex_ok: bool)
    requires
        0 <= p < src.len() <= usize::MAX,
    ensures
        token_at(src, p, regex_ok) matches Some(t) ==> t.lexeme.start == p && p < t.lexeme.end
            <= src.len() && t.token_type != TokenType::EOF,
{
    reveal(token_at);
    lemma_run_end(src, p, ByteClass::Blank);
    lemma_run_end(src, p, ByteClass::IdentPart);
    lemma_run_end(src, p, ByteClass::Digit);
    let whole = run_end(src, p, ByteClass::Digit);
    if whole + 1 < src.len() {
        lemma_run_end(src, whole + 1, ByteClass::Digit);
    }
    if src[p] == 0x2F && regex_ok {
        lemma_regex_body_end(src, p + 1);
        if let Some(e) = regex_body_end(src, p + 1) {
            lemma_run_end(src, e, ByteClass::IdentPart);
        }
    }
}

/// The tokens of `src` from byte `p` on, closed by the `EOF` token, or the
/// position of the first byte at which no token can start.
pub open spec fn lex_from(src: Seq<u8>, p: int, regex_ok: bool) -> Result<Seq<Token>, int>
    decreases src.len() - p,
    when 0 <= p && src.len() <= usize::MAX
{
    if p >= src.len() {
        Ok(seq![token_of(TokenType::EOF, src.len() as int, src.len() as int)])
    } else {
        match token_at(src, p, regex_ok) {
            None => Err(p),
            Some(t) => {
                proof {
                    lemma_token_at_bounds(src, p, regex_ok);
                }
                match lex_from(src, t.lexeme.end as int, regex_ok_after(regex_ok, t.token_type)) {
                    Ok(rest) => Ok(seq![t] + rest),
                    Err(e) => Err(e),
                }
            },
        }
    }
}

/// The token stream of a whole source.
pub open spec fn spec_tokenize(src: Seq<u8>) -> Result<Seq<Token>, int> {
    lex_from(src, 0, true)
}

/// What `lex_from` yields from `p` on tiles `[p, len)` and ends in `EOF`; an
/// error position lies inside the source.
pub proof fn lemma_lex_from(src: Seq<u8>, p: int, regex_ok: bool)
    requires
        0 <= p <= src.len() <= usize::MAX,
    ensures
        match lex_from(src, p, regex_ok) {
            Ok(ts) => {
                &&& ts.len() >= 1
                &&& ts[0].lexeme.start == p
                &&& ts.last() == token_of(TokenType::EOF, src.len() as int, src.len() as int)
                &&& forall|i: int| 0 <= i < ts.len() - 1 ==> #[trigger] tiles_at(ts, i)
            },
            Err(e) => p <= e < src.len(),
        },
    decreases src.len() - p,
{
    if p < src.len() {
        lemma_token_at_bounds(src, p, regex_ok);
        if let Some(t) = token_at(src, p, regex_ok) {
            let q = t.lexeme.end as int;
            let next_ok = regex_ok_after(regex_ok, t.token_type);
            lemma_lex_from(src, q, next_ok);
            if let Ok(rest) = lex_from(src, q, next_ok) {
                let ts = seq![t] + rest;
                assert(ts[0] == t);
                assert(ts.last() == rest.last());
                assert forall|i: int| 0 <= i < ts.len() - 1 implies #[trigger] tiles_at(ts, i) by {
                    if i > 0 {
                        assert(ts[i] == rest[i - 1]);
                        assert(tiles_at(rest, i - 1));
                    }
                    assert(ts[i + 1] == rest[i]);
                }
            }
        }
    }
}

/// A source that lexes gives a well-formed stream.
pub proof fn lemma_tokenize_wf(src: Seq<u8>)
    requires
        src.len() <= usize::MAX,
    ensures
        spec_tokenize(src) matches Ok(ts) ==> stream_wf(ts, src.len()),
        spec_tokenize(src) matches Err(e) ==> 0 <= e < src.len(),
{
    lemma_lex_from(src, 0, true);
}

/// Reads the run of bytes of `class` that starts at `start`.
fn scan_run(src: &[u8], start: usize, class: ByteClass) -> (end: usize)
    requires
        start <= src.len(),
    ensures
        end == run_end(src@, start as int, class),
        start <= end <= src.len(),
{
    let mut i: usize = start;
    while i < src.len() && class.contains(src[i])
        invariant
            start <= i <= src.len(),
            run_end(src@, start as int, class) == run_end(src@, i as int, class),
        decreases src.len() - i,
    {
        i += 1;
    }
    i
}

/// Reads a regular expression body from `start`, the byte behind the
/// opening `/`.
fn scan_regex_body(src: &[u8], start: usize) -> (end: Option<usize>)
    requires
        start <= src.len(),
    ensures
        match end {
            Some(e) => regex_body_end(src@, start as int) == Some(e as int) && start < e
                <= src.len(),
            None => regex_body_end(src@, start as int) is None,
        },
{
    let mut i: usize = start;
    loop
        invariant
            start <= i <= src.len(),
            regex_body_end(src@, start as int) == regex_body_end(src@, i as int),
        decreases src.len() - i,
    {
        if i >= src.len() {
            return None;
        }
        let b = src[i];
        if b == 0x0A || b == 0x0D {
            return None;
        } else if b == 0x2F {
            return Some(i + 1);
        } else if b == 0x5C {
            if i + 1 < src.len() && src[i + 1] != 0x0A && src[i + 1] != 0x0D {
                i += 2;
            } else {
                return None;
            }
        } else {
            i += 1;
        }
    }
}

/// Tells a keyword from an identifier.
fn classify_word(src: &[u8], start: usize, end: usize) -> (t: TokenType)
    requires
        start < end <= src.len(),
    ensures
        t == word_type(src@.subrange(start as int, end as int)),
{
    let ghost w = src@.subrange(start as int, end as int);
    let n = end - start;
    assert(w.len() == n);
    assert(forall|i: int| 0 <= i < n ==> w[i] == src@[start + i]);
    if n == 4 {
        let (a, b, c, d) = (src[start], src[start + 1], src[start + 2], src[start + 3]);
        if a == 0x74 && b == 0x72 && c == 0x75 && d == 0x65 {
            TokenType::True
        } else if a == 0x6E && b == 0x75 && c == 0x6C && d == 0x6C {
            TokenType::Null
        } else if a == 0x74 && b == 0x68 && c == 0x69 && d == 0x73 {
            TokenType::This
        } else if a == 0x76 && b == 0x6F && c == 0x69 && d == 0x64 {
            TokenType::Void
        } else {
            TokenType::Identifier
        }
    } else if n == 5 {
        if src[start] == 0x66 && src[start + 1] == 0x61 && src[start + 2] == 0x6C && src[start
            + 3] == 0x73 && src[start + 4] == 0x65 {
            TokenType::False
        } else {
            TokenType::Identifier
        }
    } else if n == 6 {
        let (a, b, c) = (src[start], src[start + 1], src[start + 2]);
        let (d, e, f) = (src[start + 3], src[start + 4], src[start + 5]);
        if a == 0x64 && b == 0x65 && c == 0x6C && d == 0x65 && e == 0x74 && f == 0x65 {
            TokenType::Delete
        } else if a == 0x74 && b == 0x79 && c == 0x70 && d == 0x65 && e == 0x6F && f == 0x66 {
            TokenType::Typeof
        } else {
            TokenType::Identifier
        }
    } else {
        TokenType::Identifier
    }
}

fn punctuator_of(b: u8) -> (r: Option<TokenType>)
    ensures
        r == punctuator(b),
{
    if b == 0x2A {
        Some(TokenType::BinOp(BinToken::Multiply))
    } else if b == 0x25 {
        Some(TokenType::BinOp(BinToken::Modulo))
    } else if b == 0x7E {
        Some(TokenType::BitwiseNot)
    } else if b == 0x21 {
        Some(TokenType::LogicalNot)
    } else if b == 0x28 {
        Some(TokenType::ParenOpen)
    } else if b == 0x29 {
        Some(TokenType::ParenClose)
    } else if b == 0x5B {
        Some(TokenType::BracketOpen)
    } else if b == 0x5D {
        Some(TokenType::BracketClose)
    } else if b == 0x2E {
        Some(TokenType::Period)
    } else if b == 0x2C {
        Some(TokenType::Comma)
    } else if b == 0x3B {
        Some(TokenType::Semicolon)
    } else {
        None
    }
}

/// Lexes the token that starts at byte `p`.
pub fn lex_token(src: &[u8], p: usize, regex_ok: bool) -> (r: Option<Token>)
    requires
        p < src.len(),
    ensures
        r == token_at(src@, p as int, regex_ok),
        r matches Some(t) ==> t.lexeme.start == p && p < t.lexeme.end <= src.len(),
{
    proof {
        reveal(token_at);
        lemma_token_at_bounds(src@, p as int, regex_ok);
    }
    let b = src[p];
    let two = p + 1 < src.len() && src[p + 1] == b;
    if ByteClass::Blank.contains(b) {
        let end = scan_run(src, p, ByteClass::Blank);
        Some(Token::new(TokenType::Whitespace, p, end))
    } else if b == 0x0D {
        let end = if p + 1 < src.len() && src[p + 1] == 0x0A {
            p + 2
        } else {
            p + 1
        };
        Some(Token::new(TokenType::Linebreak, p, end))
    } else if b == 0x0A {
        Some(Token::new(TokenType::Linebreak, p, p + 1))
    } else if starts_ident(b) {
        let end = scan_run(src, p, ByteClass::IdentPart);
        Some(Token::new(classify_word(src, p, end), p, end))
    } else if ByteClass::Digit.contains(b) {
        let whole = scan_run(src, p, ByteClass::Digit);
        let end = if whole < src.len() && src.len() - whole > 1 && src[whole] == 0x2E
            && ByteClass::Digit.contains(src[whole + 1]) {
            scan_run(src, whole + 1, ByteClass::Digit)
        } else {
            whole
        };
        Some(Token::new(TokenType::Number, p, end))
    } else if b == 0x2B {
        if two {
            Some(Token::new(TokenType::Increment, p, p + 2))
        } else {
            Some(Token::new(TokenType::BinOp(BinToken::Add), p, p + 1))
        }
    } else if b == 0x2D {
        if two {
            Some(Token::new(TokenType::Decrement, p, p + 2))
        } else {
            Some(Token::new(TokenType::BinOp(BinToken::Subtract), p, p + 1))
        }
    } else if b == 0x2F {
        if regex_ok {
            match scan_regex_body(src, p + 1) {
                Some(e) => {
                    let end = scan_run(src, e, ByteClass::IdentPart);
                    Some(Token::new(TokenType::Regex, p, end))
                },
                None => None,
            }
        } else {
            Some(Token::new(TokenType::BinOp(BinToken::Divide), p, p + 1))
        }
    } else {
        match punctuator_of(b) {
            Some(t) => Some(Token::new(t, p, p + 1)),
            None => None,
        }
    }
}

/// `lex_from` with the tokens of an earlier stretch in front.
pub open spec fn lex_after(done: Seq<Token>, rest: Result<Seq<Token>, int>) -> Result<
    Seq<Token>,
    int,
> {
    match rest {
        Ok(ts) => Ok(done + ts),
        Err(e) => Err(e),
    }
}

/// Lexes a whole source. On success the stream is well formed and ends in
/// `EOF`; on failure the result is the offset of the first byte at which no
/// token can start.
pub fn tokenize(src: &[u8]) -> (r: Result<Vec<Token>, usize>)
    ensures
        match r {
            Ok(ts) => spec_tokenize(src@) == Ok::<Seq<Token>, int>(ts@) && stream_wf(
                ts@,
                src@.len(),
            ),
            Err(e) => spec_tokenize(src@) == Err::<Seq<Token>, int>(e as int) && e < src.len(),
        },
{
    let mut tokens: Vec<Token> = Vec::new();
    let mut p: usize = 0;
    let mut regex_ok = true;
    proof {
        lemma_tokenize_wf(src@);
        if let Ok(all) = lex_from(src@, 0, true) {
            assert(Seq::<Token>::empty() + all =~= all);
        }
    }
    while p < src.len()
        invariant
            p <= src.len(),
            spec_tokenize(src@) == lex_after(tokens@, lex_from(src@, p as int, regex_ok)),
        decreases src.len() - p,
    {
        match lex_token(src, p, regex_ok) {
            None => {
                return Err(p);
            },
            Some(t) => {
                proof {
                    let next = lex_from(src@, t.lexeme.end as int, regex_ok_after(regex_ok, t.token_type));
                    if let Ok(rest) = next {
                        assert(tokens@ + (seq![t] + rest) =~= tokens@.push(t) + rest);
                    }
                }
                tokens.push(t);
                regex_ok = if t.token_type.is_whitespace() || t.token_type.is_update_op() {
                    regex_ok
                } else {
                    !t.token_type.ends_operand()
                };
                p = t.lexeme.end;
            },
        }
    }
    proof {
        assert(tokens@ + seq![token_of(TokenType::EOF, src@.len() as int, src@.len() as int)]
            =~= tokens@.push(token_of(TokenType::EOF, src@.len() as int, src@.len() as int)));
    }
    tokens.push(Token::new(TokenType::EOF, src.len(), src.len()));
    Ok(tokens)
}

} // verus!
