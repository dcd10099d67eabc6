//! A cursor over the tokens of one source.
//!
//! The stream is lexed once. The cursor only moves forward, one token at a
//! time or over a stretch of whitespace, and looking ahead does not move it.

use vstd::prelude::*;
use crate::lexer::tokenize;
use crate::lexer::spec_tokenize;
use crate::lexer::token::{Token, TokenType, stream_wf, tiles_at};
use crate::span::Span;

verus! {

/// Token `i` of `ts`; behind the end a stream stays at `EOF`.
pub open spec fn token_at(ts: Seq<Token>, i: int) -> Token {
    if 0 <= i < ts.len() {
        ts[i]
    } else {
        Token { token_type: TokenType::EOF, lexeme: Span { start: 0, end: 0 } }
    }
}

/// The first index at or after `pos` whose token is not whitespace. Line
/// terminators count as whitespace only when `leading` is set.
pub open spec fn skip_whitespace(ts: Seq<Token>, pos: int, leading: bool) -> int
    decreases ts.len() - pos,
{
    let t = token_at(ts, pos).token_type;
    if 0 <= pos < ts.len() && (t == TokenType::Whitespace || (leading && t
        == TokenType::Linebreak)) {
        skip_whitespace(ts, pos + 1, leading)
    } else {
        pos
    }
}

/// The source range from the start of token `from` to the start of token
/// `to`.
pub open spec fn span_between(ts: Seq<Token>, from: int, to: int) -> Span {
    Span { start: token_at(ts, from).lexeme.start, end: token_at(ts, to).lexeme.start }
}

/// Whether a line terminator stands among the tokens `from..to`.
pub open spec fn linebreak_between(ts: Seq<Token>, from: int, to: int) -> bool {
    exists|i: int| from <= i < to && (#[trigger] token_at(ts, i)).token_type == TokenType::Linebreak
}

/// Where the cursor stands after one step forward from `pos`: on the next
/// token. At `EOF` it stays.
pub open spec fn step(ts: Seq<Token>, pos: int) -> int {
    if token_at(ts, pos).token_type == TokenType::EOF {
        pos
    } else {
        pos + 1
    }
}

/// `skip_whitespace` moves forward, stays inside the stream, passes only
/// whitespace, and stops at a token that is none.
pub proof fn lemma_skip_whitespace(ts: Seq<Token>, pos: int, leading: bool)
    ensures
        pos <= skip_whitespace(ts, pos, leading),
        0 <= pos <= ts.len() ==> skip_whitespace(ts, pos, leading) <= ts.len(),
        forall|i: int|
            pos <= i < skip_whitespace(ts, pos, leading) ==> (#[trigger] token_at(
                ts,
                i,
            )).token_type == TokenType::Whitespace || (leading && token_at(ts, i).token_type
                == TokenType::Linebreak),
        token_at(ts, skip_whitespace(ts, pos, leading)).token_type != TokenType::Whitespace,
        leading ==> token_at(ts, skip_whitespace(ts, pos, leading)).token_type
            != TokenType::Linebreak,
    decreases ts.len() - pos,
{
    let t = token_at(ts, pos).token_type;
    if 0 <= pos < ts.len() && (t == TokenType::Whitespace || (leading && t
        == TokenType::Linebreak)) {
        lemma_skip_whitespace(ts, pos + 1, leading);
    }
}

/// In a well-formed stream, skipping whitespace from a token of the stream
/// ends on a token of the stream.
pub proof fn lemma_skip_in_stream(ts: Seq<Token>, len: nat, pos: int, leading: bool)
    requires
        stream_wf(ts, len),
        0 <= pos < ts.len(),
    ensures
        pos <= skip_whitespace(ts, pos, leading) < ts.len(),
{
    lemma_skip_whitespace(ts, pos, leading);
    if skip_whitespace(ts, pos, leading) == ts.len() {
        assert(token_at(ts, ts.len() - 1).token_type == TokenType::EOF);
    }
}

pub struct TokenStream {
    tokens: Vec<Token>,
    pos: usize,
    source_len: usize,
}

impl TokenStream {
    /// The tokens of the source, closed by `EOF`.
    pub closed spec fn tokens(&self) -> Seq<Token> {
        self.tokens@
    }

    /// The index of the current token.
    pub closed spec fn cursor(&self) -> int {
        self.pos as int
    }

    /// The length of the source in bytes.
    pub closed spec fn source_len(&self) -> nat {
        self.source_len as nat
    }

    /// The stream is well formed and the cursor is on one of its tokens.
    pub open spec fn wf(&self) -> bool {
        &&& stream_wf(self.tokens(), self.source_len())
        &&& 0 <= self.cursor() < self.tokens().len() <= usize::MAX
    }

    /// `self` reads the same tokens as `before`.
    pub open spec fn continues(&self, before: &TokenStream) -> bool {
        &&& self.tokens() == before.tokens()
        &&& self.source_len() == before.source_len()
    }

    /// Lexes `source` and puts the cursor on the first token. Fails with
    /// the offset of the first malformed token if the source does not lex.
    pub fn new(source: &[u8]) -> (r: Result<TokenStream, usize>)
        ensures
            match r {
                Ok(s) => {
                    &&& spec_tokenize(source@) == Ok::<Seq<Token>, int>(s.tokens())
                    &&& s.wf()
                    &&& s.source_len() == source@.len()
                    &&& s.cursor() == 0
                },
                Err(e) => spec_tokenize(source@) == Err::<Seq<Token>, int>(e as int) && e
                    < source@.len() && e < usize::MAX,
            },
    {
        match tokenize(source) {
            Ok(tokens) => {
                let count: usize = tokens.len();
                assert(count == tokens@.len());
                Ok(TokenStream { tokens, pos: 0, source_len: source.len() })
            },
            Err(offset) => Err(offset),
        }
    }

    /// The token under the cursor.
    pub fn current(&self) -> (t: Token)
        requires
            self.wf(),
        ensures
            t == token_at(self.tokens(), self.cursor()),
    {
        self.tokens[self.pos]
    }

    /// The token `n` places behind the current one, if the stream is that
    /// long. Looking ahead leaves the stream as it is.
    pub fn peek(&self, n: usize) -> (t: Option<Token>)
        requires
            self.wf(),
        ensures
            t == if self.cursor() + n < self.tokens().len() {
                Some(token_at(self.tokens(), self.cursor() + n))
            } else {
                None::<Token>
            },
    {
        if n < self.tokens.len() - self.pos {
            Some(self.tokens[self.pos + n])
        } else {
            None
        }
    }

    /// Moves the cursor one token forward. At `EOF` the cursor stays.
    pub fn advance(&mut self)
        requires
            old(self).wf(),
        ensures
            final(self).wf(),
            final(self).continues(old(self)),
            final(self).cursor() == step(old(self).tokens(), old(self).cursor()),
    {
        if self.tokens.len() - self.pos > 1 {
            proof {
                assert(tiles_at(self.tokens@, self.pos as int));
            }
            self.pos = self.pos + 1;
        }
    }

    /// Moves the cursor over the whitespace it stands on, and over line
    /// terminators too if `leading` is set. Returns the source range that
    /// was passed.
    pub fn whitespace(&mut self, leading: bool) -> (s: Span)
        requires
            old(self).wf(),
        ensures
            final(self).wf(),
            final(self).continues(old(self)),
            final(self).cursor() == skip_whitespace(
                old(self).tokens(),
                old(self).cursor(),
                leading,
            ),
            s == span_between(old(self).tokens(), old(self).cursor(), final(self).cursor()),
    {
        let start = self.tokens[self.pos].lexeme.start;
        let ghost ts = self.tokens@;
        let ghost from = self.pos as int;
        loop
            invariant
                self.wf(),
                self.continues(old(self)),
                ts == old(self).tokens(),
                from == old(self).cursor(),
                skip_whitespace(ts, from, leading) == skip_whitespace(ts, self.pos as int, leading),
                start == token_at(ts, from).lexeme.start,
            ensures
                self.pos as int == skip_whitespace(ts, from, leading),
            decreases self.tokens.len() - self.pos,
        {
            let t = self.tokens[self.pos].token_type;
            let blank = match t {
                TokenType::Whitespace => true,
                TokenType::Linebreak => leading,
                _ => false,
            };
            if !blank {
                break ;
            }
            self.pos = self.pos + 1;
        }
        Span::new(start, self.tokens[self.pos].lexeme.start)
    }
}

} // verus!
