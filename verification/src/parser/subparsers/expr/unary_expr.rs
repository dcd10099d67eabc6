//! Unary and update expressions.

use vstd::prelude::*;
use crate::diagnostic::ParserDiagnostic;
use crate::lexer::stream::lemma_skip_in_stream;
use crate::lexer::token::TokenType;
use crate::parser::Parser;
use crate::parser::cst::expr::{Expr, LiteralWhitespace, UnaryExpr, UpdateExpr};
use crate::parser::error::{identifier_deletion_error, invalid_target_error};
use crate::parser::grammar::Input;
use crate::span::Span;

verus! {

impl Parser {
    /// Parses a unary expression. `leading` is the whitespace in front of
    /// it if the caller has consumed that already, and `None` if it is
    /// still to be consumed.
    ///
    /// An operand that is no valid target of `++` or `--`, and `delete` on
    /// an identifier in strict mode, do not fail the parse: the node is
    /// built all the same and one diagnostic is collected. The parse fails
    /// only where no expression can be read at all.
    pub fn parse_unary_expr(&mut self, leading: Option<Span>) -> (r: Result<
        Expr,
        ParserDiagnostic,
    >)
        requires
            old(self).wf(),
        ensures
            final(self).parsed(
                old(self),
                r,
                old(self).input().unary(old(self).cursor(), leading),
            ),
            old(self).input().adjoins(old(self).cursor(), leading) ==> (r matches Ok(e) ==> {
                &&& e.covers(
                    old(self).input().lead(old(self).cursor(), leading).start as int,
                    final(self).input().offset(final(self).cursor()),
                )
                &&& final(self).errors.deep_view() == old(self).errors.deep_view() + old(
                    self,
                ).input().violations(e)
            }),
        decreases old(self).remaining(), 2int,
    {
        let ghost input = self.input();
        let ghost pos = self.cursor();
        let ghost len = self.lexer.source_len();
        let ghost errors = self.errors.deep_view();
        proof {
            reveal(Input::unary);
            lemma_skip_in_stream(input.tokens, len, pos, true);
            if input.adjoins(pos, leading) {
                input.lemma_unary_sound(len, pos, leading);
            }
        }
        let leading_whitespace = match leading {
            Some(l) => l,
            None => self.whitespace(true),
        };
        let ghost p0 = self.cursor();
        let t = self.cur_tok();

        if t.token_type.is_update_op() {
            // Advance over the token
            self.advance_lexer(false);
            proof {
                lemma_skip_in_stream(input.tokens, len, p0 + 1, false);
            }
            let after = self.whitespace(false);
            let object = match self.parse_unary_expr(None) {
                Err(e) => {
                    return Err(e);
                },
                Ok(object) => object,
            };
            let ghost inner = self.errors.deep_view();
            let end = object.span().end;
            if !object.is_valid_assign_target() {
                let err = invalid_target_error(
                    self.file_id,
                    true,
                    t.token_type,
                    t.lexeme,
                    object.span(),
                );
                self.push_error(err);
            } else {
                assert(inner + Seq::empty() =~= inner);
            }
            assert(self.errors.deep_view() =~= errors + (input.unary(
                input.skip(p0 + 1, false),
                None,
            ).diags + input.target_check(true, t, object)));
            return Ok(
                Expr::Update(
                    UpdateExpr {
                        span: Span::new(t.lexeme.start, end),
                        prefix: true,
                        object: Box::new(object),
                        op: t.token_type,
                        whitespace: LiteralWhitespace { before: leading_whitespace, after },
                    },
                ),
            );
        }
        if t.token_type.is_unary_op() {
            self.advance_lexer(false);
            proof {
                lemma_skip_in_stream(input.tokens, len, p0 + 1, false);
            }
            let after = self.whitespace(false);
            let object = match self.parse_unary_expr(None) {
                Err(e) => {
                    return Err(e);
                },
                Ok(object) => object,
            };
            let ghost inner = self.errors.deep_view();
            let end = object.span().end;
            let deletes = match t.token_type {
                TokenType::Delete => true,
                _ => false,
            };
            let identifier = match object {
                Expr::Identifier(_) => true,
                _ => false,
            };
            if self.is_strict() && deletes && identifier {
                let err = identifier_deletion_error(self.file_id, object.span());
                self.push_error(err);
            } else {
                assert(inner + Seq::empty() =~= inner);
            }
            assert(self.errors.deep_view() =~= errors + (input.unary(
                input.skip(p0 + 1, false),
                None,
            ).diags + input.deletion_check(t, object)));
            return Ok(
                Expr::Unary(
                    UnaryExpr {
                        span: Span::new(t.lexeme.start, end),
                        object: Box::new(object),
                        op: t.token_type,
                        whitespace: LiteralWhitespace { before: leading_whitespace, after },
                    },
                ),
            );
        }
        let object = match self.parse_lhs_expr(Some(leading_whitespace)) {
            Err(e) => {
                return Err(e);
            },
            Ok(object) => object,
        };
        let ghost inner = self.errors.deep_view();
        let ghost q = self.cursor();
        let start = object.span().start;
        proof {
            lemma_skip_in_stream(input.tokens, len, q, true);
        }

        // A linebreak between an expression and a postfix update is not
        // allowed: the operand stands alone then.
        let (next, had_linebreak) = self.lookahead();
        if !next.token_type.is_update_op() || had_linebreak {
            return Ok(object);
        }
        let before = self.whitespace(true);
        let op = self.cur_tok();
        self.advance_lexer(false);
        proof {
            lemma_skip_in_stream(input.tokens, len, self.cursor(), false);
        }
        let after = self.whitespace(false);

        if !object.is_valid_assign_target() {
            let err = invalid_target_error(
                self.file_id,
                false,
                op.token_type,
                op.lexeme,
                object.span(),
            );
            self.push_error(err);
        } else {
            assert(inner + Seq::empty() =~= inner);
        }
        assert(self.errors.deep_view() =~= errors + (input.lhs(p0, Some(leading_whitespace)).diags
            + input.target_check(false, op, object)));
        Ok(
            Expr::Update(
                UpdateExpr {
                    span: Span::new(start, op.lexeme.end),
                    prefix: false,
                    object: Box::new(object),
                    op: op.token_type,
                    whitespace: LiteralWhitespace { before, after },
                },
            ),
        )
    }
}

} // verus!
