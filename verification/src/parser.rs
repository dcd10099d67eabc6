//! The parser: a token stream, the state of the scope being parsed, and
//! the diagnostics collected so far. The subparsers turn tokens into
//! expression nodes.

pub mod cst;
pub mod error;
pub mod grammar;
pub mod laws;
pub mod subparsers;

use vstd::prelude::*;
use vstd::string::*;
use crate::diagnostic::{DiagnosticView, ParserDiagnostic, lemma_deep_view_push};
use crate::lexer::spec_tokenize;
use crate::lexer::stream::{TokenStream, linebreak_between, step, token_at};
use crate::lexer::token::{Token, TokenType};
use crate::parser::error::{malformed_token, malformed_token_error};
use crate::parser::cst::expr::Expr;
use crate::parser::grammar::{Input, Outcome};
use crate::span::Span;

verus! {

/// What the parser knows of the scope it is in.
#[derive(Clone, Copy, Debug, PartialEq, Eq, Structural)]
pub struct ParserState {
    /// The directive that switched strict mode on, if one did.
    pub strict: Option<Span>,
}

pub struct Parser {
    pub lexer: TokenStream,
    pub file_id: usize,
    /// Whether diagnostics of errors that a subparser recovered from are
    /// dropped by the caller. The expression subparsers keep all of theirs.
    pub discard_recovered: bool,
    /// The diagnostics collected so far, oldest first.
    pub errors: Vec<ParserDiagnostic>,
    pub state: ParserState,
}

impl Parser {
    /// The token stream is well formed.
    pub open spec fn wf(&self) -> bool {
        self.lexer.wf()
    }

    /// The index of the current token.
    pub open spec fn cursor(&self) -> int {
        self.lexer.cursor()
    }

    /// What the subparsers read.
    pub open spec fn input(&self) -> Input {
        Input {
            tokens: self.lexer.tokens(),
            strict: self.state.strict is Some,
            file_id: self.file_id,
        }
    }

    /// `self` is `before` after some parsing: nothing but the cursor and
    /// the collected diagnostics may differ.
    pub open spec fn continues(&self, before: &Parser) -> bool {
        &&& self.lexer.continues(&before.lexer)
        &&& self.file_id == before.file_id
        &&& self.discard_recovered == before.discard_recovered
        &&& self.state == before.state
    }

    /// The number of tokens from the cursor on; it is what every subparser
    /// makes smaller.
    pub open spec fn remaining(&self) -> int {
        self.lexer.tokens().len() - self.lexer.cursor()
    }

    /// `self` is what a parse that started in `before` and ended as `out`
    /// leaves behind, and `r` is what it returns: the cursor is where `out`
    /// puts it, the diagnostics of `out` are added behind those that were
    /// there, and nothing else has changed.
    pub open spec fn parsed(
        &self,
        before: &Parser,
        r: Result<Expr, ParserDiagnostic>,
        out: Outcome,
    ) -> bool {
        &&& self.wf()
        &&& self.continues(before)
        &&& self.cursor() == out.pos
        &&& self.errors.deep_view() == before.errors.deep_view() + out.diags
        &&& match r {
            Ok(e) => out.result == Ok::<Expr, DiagnosticView>(e),
            Err(d) => out.result == Err::<Expr, DiagnosticView>(d@),
        }
    }

    /// Lexes `source` and puts the cursor on its first token. Fails with a
    /// diagnostic on the first malformed token if the source does not lex.
    pub fn with_source(source: &str, file_id: usize, discard_recovered: bool) -> (r: Result<
        Parser,
        ParserDiagnostic,
    >)
        ensures
            match r {
                Ok(p) => {
                    &&& spec_tokenize(source.spec_bytes()) == Ok::<Seq<Token>, int>(
                        p.lexer.tokens(),
                    )
                    &&& p.wf()
                    &&& p.lexer.source_len() == source.spec_bytes().len()
                    &&& p.cursor() == 0
                    &&& p.file_id == file_id
                    &&& p.discard_recovered == discard_recovered
                    &&& p.errors@.len() == 0
                    &&& p.state.strict is None
                },
                Err(d) => {
                    &&& spec_tokenize(source.spec_bytes()) matches Err(e)
                    &&& d@ == malformed_token(file_id, e as usize)
                },
            },
    {
        match TokenStream::new(source.as_bytes()) {
            Ok(lexer) => Ok(
                Parser {
                    lexer,
                    file_id,
                    discard_recovered,
                    errors: Vec::new(),
                    state: ParserState { strict: None },
                },
            ),
            Err(offset) => Err(malformed_token_error(file_id, offset)),
        }
    }

    /// The token under the cursor.
    pub fn cur_tok(&self) -> (t: Token)
        requires
            self.wf(),
        ensures
            t == self.input().tok(self.cursor()),
    {
        self.lexer.current()
    }

    /// Looks ahead, without moving the cursor, for the next token that is
    /// not whitespace. Returns that token, and whether a line terminator
    /// stands between the cursor and it.
    pub fn lookahead(&self) -> (r: (Token, bool))
        requires
            self.wf(),
        ensures
            r.0 == self.input().tok(self.input().skip(self.cursor(), true)),
            r.1 == self.input().linebreak_between(
                self.cursor(),
                self.input().skip(self.cursor(), true),
            ),
    {
        let ghost ts = self.lexer.tokens();
        let ghost pos = self.cursor();
        let mut next = self.lexer.current();
        let mut had_linebreak = false;
        let mut n: usize = 0;
        while next.token_type.is_whitespace()
            invariant
                self.wf(),
                ts == self.lexer.tokens(),
                pos == self.cursor(),
                pos + n < ts.len(),
                next == token_at(ts, pos + n),
                self.input().skip(pos, true) == self.input().skip(pos + n, true),
                had_linebreak == linebreak_between(ts, pos, pos + n),
            decreases ts.len() - pos - n,
        {
            proof {
                assert(token_at(ts, ts.len() - 1).token_type == TokenType::EOF);
                if next.token_type == TokenType::Linebreak {
                    assert(token_at(ts, pos + n).token_type == TokenType::Linebreak);
                    assert(linebreak_between(ts, pos, pos + n + 1));
                } else if linebreak_between(ts, pos, pos + n + 1) {
                    let i = choose|i: int|
                        pos <= i < pos + n + 1 && (#[trigger] token_at(ts, i)).token_type
                            == TokenType::Linebreak;
                    assert(pos <= i < pos + n);
                }
            }
            if next.token_type == TokenType::Linebreak {
                had_linebreak = true;
            }
            n = n + 1;
            next = match self.lexer.peek(n) {
                Some(t) => t,
                None => next,
            };
        }
        (next, had_linebreak)
    }

    /// Adds a diagnostic behind those collected so far.
    pub fn push_error(&mut self, d: ParserDiagnostic)
        ensures
            final(self).lexer == old(self).lexer,
            final(self).file_id == old(self).file_id,
            final(self).discard_recovered == old(self).discard_recovered,
            final(self).state == old(self).state,
            final(self).errors.deep_view() == old(self).errors.deep_view().push(d@),
    {
        self.errors.push(d);
        proof {
            lemma_deep_view_push(old(self).errors@, self.errors@, d);
        }
    }

    /// Whether the parser is in strict mode.
    pub fn is_strict(&self) -> (b: bool)
        ensures
            b == self.input().strict,
    {
        self.state.strict.is_some()
    }

    /// Moves the cursor one token forward and, if asked to, on to the next
    /// token that is not whitespace. At `EOF` the cursor stays.
    pub fn advance_lexer(&mut self, skip_whitespace: bool)
        requires
            old(self).wf(),
        ensures
            final(self).wf(),
            final(self).continues(old(self)),
            final(self).errors == old(self).errors,
            final(self).cursor() == if skip_whitespace {
                old(self).input().skip(step(old(self).input().tokens, old(self).cursor()), true)
            } else {
                step(old(self).input().tokens, old(self).cursor())
            },
    {
        self.lexer.advance();
        if skip_whitespace {
            self.lexer.whitespace(true);
        }
    }

    /// Moves the cursor over the whitespace it stands on, and over line
    /// terminators too if `leading` is set. Returns the source range that
    /// was passed.
    pub fn whitespace(&mut self, leading: bool) -> (s: Span)
        requires
            old(self).wf(),
        ensures
            final(self).wf(),
            final(self).continues(old(self)),
            final(self).errors == old(self).errors,
            final(self).cursor() == old(self).input().skip(old(self).cursor(), leading),
            s == old(self).input().between(old(self).cursor(), final(self).cursor()),
    {
        self.lexer.whitespace(leading)
    }
}

} // verus!
