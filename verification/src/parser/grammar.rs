//! What the subparsers compute, as functions of the token stream.
//!
//! A parse starts at a cursor, an index into the stream, and gives a result,
//! the cursor behind what it consumed, and the diagnostics it collected on
//! the way.

use vstd::prelude::*;
use crate::diagnostic::DiagnosticView;
use crate::lexer::stream::{
    lemma_skip_whitespace,
    linebreak_between,
    skip_whitespace,
    span_between,
    token_at,
};
use crate::lexer::token::{Token, TokenType};
use crate::parser::cst::expr::{
    Expr,
    GroupingExpr,
    LiteralExpr,
    LiteralWhitespace,
    MemberExpr,
    UnaryExpr,
    UpdateExpr,
};
use crate::parser::error::{
    expected_expression,
    expected_identifier,
    identifier_deletion,
    invalid_target,
    unterminated_group,
};
use crate::span::Span;

verus! {

/// What a parse reads: the tokens, whether strict mode is on, and the file
/// that diagnostics are attributed to.
pub struct Input {
    pub tokens: Seq<Token>,
    pub strict: bool,
    pub file_id: usize,
}

/// How a parse ends.
pub struct Outcome {
    /// The node, or the error that stopped the parse.
    pub result: Result<Expr, DiagnosticView>,
    /// The cursor afterwards.
    pub pos: int,
    /// The diagnostics collected, oldest first.
    pub diags: Seq<DiagnosticView>,
}

impl Input {
    /// Token `i` of the stream.
    pub open spec fn tok(self, i: int) -> Token {
        token_at(self.tokens, i)
    }

    /// The first index at or after `pos` whose token is not whitespace.
    /// Line terminators count as whitespace only when `leading` is set.
    pub open spec fn skip(self, pos: int, leading: bool) -> int {
        skip_whitespace(self.tokens, pos, leading)
    }

    /// The source range of the tokens from index `from` up to index `to`.
    pub open spec fn between(self, from: int, to: int) -> Span {
        span_between(self.tokens, from, to)
    }

    /// Whether a line terminator stands among the tokens `from..to`.
    pub open spec fn linebreak_between(self, from: int, to: int) -> bool {
        linebreak_between(self.tokens, from, to)
    }

    /// Where a parse that is handed `leading` starts to read tokens: at the
    /// cursor when the leading whitespace was consumed before, behind the
    /// whitespace at the cursor otherwise.
    pub open spec fn start(self, pos: int, leading: Option<Span>) -> int {
        match leading {
            Some(_) => pos,
            None => self.skip(pos, true),
        }
    }

    /// The whitespace in front of the first token of such a parse.
    pub open spec fn lead(self, pos: int, leading: Option<Span>) -> Span {
        match leading {
            Some(l) => l,
            None => self.between(pos, self.skip(pos, true)),
        }
    }

    /// The single-token expression that token `t` is, if it is one.
    pub open spec fn literal_of(t: TokenType, l: LiteralExpr) -> Option<Expr> {
        match t {
            TokenType::This => Some(Expr::This(l)),
            TokenType::Number => Some(Expr::Number(l)),
            TokenType::Null => Some(Expr::Null(l)),
            TokenType::Regex => Some(Expr::Regex(l)),
            TokenType::Identifier => Some(Expr::Identifier(l)),
            TokenType::True => Some(Expr::True(l)),
            TokenType::False => Some(Expr::False(l)),
            _ => None,
        }
    }

    /// The diagnostics that an update operator adds for its operand: one
    /// if the operand is no valid assignment target, none otherwise.
    pub open spec fn target_check(
        self,
        prefix: bool,
        op: Token,
        object: Expr,
    ) -> Seq<DiagnosticView> {
        if object.spec_is_valid_assign_target() {
            Seq::empty()
        } else {
            seq![
                invalid_target(
                    self.file_id,
                    prefix,
                    op.token_type,
                    op.lexeme,
                    object.spec_span(),
                ),
            ]
        }
    }

    /// The diagnostics that a unary operator adds for its operand: one for
    /// `delete` on an identifier in strict mode, none otherwise.
    pub open spec fn deletion_check(self, op: Token, object: Expr) -> Seq<DiagnosticView> {
        if self.strict && op.token_type == TokenType::Delete && object is Identifier {
            seq![identifier_deletion(self.file_id, object.spec_span())]
        } else {
            Seq::empty()
        }
    }

    /// The outcome of a parenthesised expression whose `(` is token `p0`
    /// and has `whitespace` around it, given the outcome `inner` of the
    /// expression behind it: the group if a `)` follows, with the
    /// whitespace in front of the `)` and behind it on its line; an error
    /// on the token that stands there otherwise.
    pub open spec fn group_of(self, p0: int, whitespace: LiteralWhitespace, inner: Outcome) -> Outcome {
        let k = self.skip(inner.pos, true);
        let close = self.tok(k);
        let k1 = k + 1;
        let k2 = self.skip(k1, false);
        match inner.result {
            Err(_) => inner,
            Ok(e) => if close.token_type == TokenType::ParenClose {
                Outcome {
                    result: Ok(
                        Expr::Grouping(
                            GroupingExpr {
                                span: Span {
                                    start: self.tok(p0).lexeme.start,
                                    end: close.lexeme.end,
                                },
                                expr: Box::new(e),
                                opening_paren_whitespace: whitespace,
                                closing_paren_whitespace: LiteralWhitespace {
                                    before: self.between(inner.pos, k),
                                    after: self.between(k1, k2),
                                },
                            },
                        ),
                    ),
                    pos: k2,
                    diags: inner.diags,
                }
            } else {
                Outcome {
                    result: Err(unterminated_group(self.file_id, self.tok(p0).lexeme, close)),
                    pos: k,
                    diags: inner.diags,
                }
            },
        }
    }

    /// A primary expression at `pos`: a single-token expression with the
    /// whitespace behind it on its line, or a parenthesised expression.
    /// Any other token is an error, and nothing but the leading whitespace
    /// is consumed.
    #[verifier::opaque]
    pub open spec fn primary(self, pos: int, leading: Option<Span>) -> Outcome
        decreases self.tokens.len() - pos, 0int,
    {
        let p0 = self.start(pos, leading);
        let t = self.tok(p0);
        let p2 = self.skip(p0 + 1, false);
        let whitespace = LiteralWhitespace {
            before: self.lead(pos, leading),
            after: self.between(p0 + 1, p2),
        };
        if let Some(e) = Self::literal_of(t.token_type, LiteralExpr { span: t.lexeme, whitespace }) {
            Outcome { result: Ok(e), pos: p2, diags: Seq::empty() }
        } else if t.token_type == TokenType::ParenOpen {
            proof {
                self.lemma_skip(pos, true);
                self.lemma_skip(p0 + 1, false);
            }
            self.group_of(p0, whitespace, self.unary(p2, None))
        } else {
            Outcome { result: Err(expected_expression(self.file_id, t)), pos: p0, diags: Seq::empty() }
        }
    }

    /// The property accesses behind `object`, which ends at `pos`: as long
    /// as the next token that is not whitespace is a `.`, the `.` and the
    /// identifier behind it are taken in. A `.` without an identifier
    /// behind it is an error.
    #[verifier::opaque]
    pub open spec fn members(self, pos: int, object: Expr) -> Outcome
        decreases self.tokens.len() - pos,
    {
        let k = self.skip(pos, true);
        let dot = self.tok(k);
        let k1 = k + 1;
        let k2 = self.skip(k1, true);
        let name = self.tok(k2);
        let k3 = k2 + 1;
        let k4 = self.skip(k3, false);
        if dot.token_type != TokenType::Period {
            Outcome { result: Ok(object), pos, diags: Seq::empty() }
        } else if name.token_type != TokenType::Identifier {
            Outcome {
                result: Err(expected_identifier(self.file_id, dot.lexeme, name)),
                pos: k2,
                diags: Seq::empty(),
            }
        } else {
            proof {
                self.lemma_skip(pos, true);
                self.lemma_skip(k1, true);
                self.lemma_skip(k3, false);
            }
            self.members(
                k4,
                Expr::Member(
                    MemberExpr {
                        span: Span { start: object.spec_span().start, end: name.lexeme.end },
                        object: Box::new(object),
                        property: LiteralExpr {
                            span: name.lexeme,
                            whitespace: LiteralWhitespace {
                                before: self.between(k2, k2),
                                after: self.between(k3, k4),
                            },
                        },
                        whitespace: LiteralWhitespace {
                            before: self.between(pos, k),
                            after: self.between(k1, k2),
                        },
                    },
                ),
            )
        }
    }

    /// The outcome of a left-hand-side expression, given the outcome
    /// `first` of its primary expression: the property accesses behind it
    /// are taken in.
    pub open spec fn lhs_of(self, first: Outcome) -> Outcome {
        match first.result {
            Err(_) => first,
            Ok(e) => {
                let rest = self.members(first.pos, e);
                Outcome { result: rest.result, pos: rest.pos, diags: first.diags + rest.diags }
            },
        }
    }

    /// A left-hand-side expression: a primary expression and the property
    /// accesses behind it.
    #[verifier::opaque]
    pub open spec fn lhs(self, pos: int, leading: Option<Span>) -> Outcome
        decreases self.tokens.len() - pos, 1int,
    {
        self.lhs_of(self.primary(pos, leading))
    }

    /// The outcome of a prefix operator, token `p0` with `whitespace` around
    /// it, given the outcome `inner` of its operand. The node is an update
    /// expression for `++` and `--` and a unary expression otherwise; it
    /// runs from the operator to the end of the operand. The operand's
    /// check adds its diagnostic, if any, behind those of the operand.
    pub open spec fn prefix_of(self, p0: int, whitespace: LiteralWhitespace, inner: Outcome) -> Outcome {
        let t = self.tok(p0);
        match inner.result {
            Err(_) => inner,
            Ok(object) => {
                let span = Span { start: t.lexeme.start, end: object.spec_span().end };
                if t.token_type.spec_is_update_op() {
                    Outcome {
                        result: Ok(
                            Expr::Update(
                                UpdateExpr {
                                    span,
                                    prefix: true,
                                    object: Box::new(object),
                                    op: t.token_type,
                                    whitespace,
                                },
                            ),
                        ),
                        pos: inner.pos,
                        diags: inner.diags + self.target_check(true, t, object),
                    }
                } else {
                    Outcome {
                        result: Ok(
                            Expr::Unary(
                                UnaryExpr {
                                    span,
                                    object: Box::new(object),
                                    op: t.token_type,
                                    whitespace,
                                },
                            ),
                        ),
                        pos: inner.pos,
                        diags: inner.diags + self.deletion_check(t, object),
                    }
                }
            },
        }
    }

    /// Whether a postfix operator is taken in behind an operand that ends
    /// at `pos`: the next token that is not whitespace is `++` or `--`, and
    /// no line terminator stands in front of it.
    pub open spec fn postfix_follows(self, pos: int) -> bool {
        let k = self.skip(pos, true);
        self.tok(k).token_type.spec_is_update_op() && !self.linebreak_between(pos, k)
    }

    /// The outcome of an expression that may carry a postfix operator,
    /// given the outcome `operand` of its left-hand side. If an operator
    /// follows, it is taken in with the whitespace around it, the node
    /// runs from the start of the operand to the end of the operator, and
    /// the target check adds its diagnostic, if any. If none follows, the
    /// operand is the outcome and the cursor stays behind it.
    pub open spec fn postfix_of(self, operand: Outcome) -> Outcome {
        let k = self.skip(operand.pos, true);
        let op = self.tok(k);
        let k1 = k + 1;
        let k2 = self.skip(k1, false);
        match operand.result {
            Err(_) => operand,
            Ok(object) => if !self.postfix_follows(operand.pos) {
                operand
            } else {
                Outcome {
                    result: Ok(
                        Expr::Update(
                            UpdateExpr {
                                span: Span { start: object.spec_span().start, end: op.lexeme.end },
                                prefix: false,
                                object: Box::new(object),
                                op: op.token_type,
                                whitespace: LiteralWhitespace {
                                    before: self.between(operand.pos, k),
                                    after: self.between(k1, k2),
                                },
                            },
                        ),
                    ),
                    pos: k2,
                    diags: operand.diags + self.target_check(false, op, object),
                }
            },
        }
    }

    /// A unary expression at `pos`.
    ///
    /// Behind `++`, `--`, `delete`, `void`, `typeof`, `+`, `-`, `~` or `!`
    /// it is that operator, the whitespace behind it on its line, and a
    /// unary expression as operand. Otherwise it is a left-hand-side
    /// expression, with a postfix `++` or `--` if one follows on the same
    /// line.
    #[verifier::opaque]
    pub open spec fn unary(self, pos: int, leading: Option<Span>) -> Outcome
        decreases self.tokens.len() - pos, 2int,
    {
        let p0 = self.start(pos, leading);
        let lead = self.lead(pos, leading);
        let t = self.tok(p0);
        let p2 = self.skip(p0 + 1, false);
        proof {
            self.lemma_skip(pos, true);
            self.lemma_skip(p0 + 1, false);
        }
        if t.token_type.spec_is_update_op() || t.token_type.spec_is_unary_op() {
            self.prefix_of(
                p0,
                LiteralWhitespace { before: lead, after: self.between(p0 + 1, p2) },
                self.unary(p2, None),
            )
        } else {
            self.postfix_of(self.lhs(p0, Some(lead)))
        }
    }

    /// An expression. Unary expressions are the widest production of this
    /// grammar.
    pub open spec fn expr(self, pos: int, leading: Option<Span>) -> Outcome {
        self.unary(pos, leading)
    }

    /// `skip` moves forward and stays inside the stream.
    pub proof fn lemma_skip(self, pos: int, leading: bool)
        ensures
            pos <= self.skip(pos, leading),
            0 <= pos <= self.tokens.len() ==> self.skip(pos, leading) <= self.tokens.len(),
            self.tok(self.skip(pos, leading)).token_type != TokenType::Whitespace,
            leading ==> self.tok(self.skip(pos, leading)).token_type != TokenType::Linebreak,
    {
        lemma_skip_whitespace(self.tokens, pos, leading);
    }
}

} // verus!
