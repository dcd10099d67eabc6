//! Left-hand-side expressions: a primary expression and the property
//! accesses behind it.

use vstd::prelude::*;
use crate::diagnostic::ParserDiagnostic;
use crate::lexer::stream::lemma_skip_in_stream;
use crate::lexer::token::TokenType;
use crate::parser::Parser;
use crate::parser::cst::expr::{Expr, LiteralExpr, LiteralWhitespace, MemberExpr};
use crate::parser::error::expected_identifier_error;
use crate::parser::grammar::Input;
use crate::span::Span;

verus! {

impl Parser {
    /// Parses a left-hand-side expression.
    pub fn parse_lhs_expr(&mut self, leading: Option<Span>) -> (r: Result<Expr, ParserDiagnostic>)
        requires
            old(self).wf(),
        ensures
            final(self).parsed(old(self), r, old(self).input().lhs(old(self).cursor(), leading)),
        decreases old(self).remaining(), 1int,
    {
        proof {
            reveal(Input::lhs);
        }
        match self.parse_primary_expr(leading) {
            Err(e) => Err(e),
            Ok(object) => {
                let ghost first = self.errors.deep_view();
                let r = self.parse_members(object);
                assert(first + Seq::empty() =~= first);
                r
            },
        }
    }

    /// Takes in the property accesses behind `object`, which ends at the
    /// cursor: `.name`, as often as the next token that is not whitespace
    /// is a `.`. Fails where a `.` is not followed by an identifier.
    pub fn parse_members(&mut self, object: Expr) -> (r: Result<Expr, ParserDiagnostic>)
        requires
            old(self).wf(),
        ensures
            final(self).parsed(
                old(self),
                r,
                old(self).input().members(old(self).cursor(), object),
            ),
            old(self).input().members(old(self).cursor(), object).diags.len() == 0,
    {
        let ghost input = self.input();
        let ghost start = self.cursor();
        let ghost len = self.lexer.source_len();
        let mut node = object;
        loop
            invariant
                self.wf(),
                self.continues(old(self)),
                self.errors == old(self).errors,
                input == old(self).input(),
                input == self.input(),
                start == old(self).cursor(),
                len == self.lexer.source_len(),
                input.members(start, object) == input.members(self.cursor(), node),
            decreases self.remaining(),
        {
            let ghost pos = self.cursor();
            let ghost errors = self.errors.deep_view();
            proof {
                reveal(Input::members);
                assert(errors + Seq::empty() =~= errors);
                lemma_skip_in_stream(input.tokens, len, pos, true);
            }
            let (dot, _) = self.lookahead();
            if dot.token_type != TokenType::Period {
                return Ok(node);
            }
            let before = self.whitespace(true);
            self.advance_lexer(false);
            proof {
                lemma_skip_in_stream(input.tokens, len, self.cursor(), true);
            }
            let after = self.whitespace(true);
            let name = self.cur_tok();
            if name.token_type != TokenType::Identifier {
                return Err(expected_identifier_error(self.file_id, dot.lexeme, name));
            }
            self.advance_lexer(false);
            proof {
                lemma_skip_in_stream(input.tokens, len, self.cursor(), false);
            }
            let trailing = self.whitespace(false);
            let span = Span::new(node.span().start, name.lexeme.end);
            node =
            Expr::Member(
                MemberExpr {
                    span,
                    object: Box::new(node),
                    property: LiteralExpr {
                        span: name.lexeme,
                        whitespace: LiteralWhitespace {
                            before: Span::new(name.lexeme.start, name.lexeme.start),
                            after: trailing,
                        },
                    },
                    whitespace: LiteralWhitespace { before, after },
                },
            );
        }
    }
}

} // verus!
