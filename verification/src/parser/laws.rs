//! What holds of every parse.
//!
//! The laws are stated of the grammar functions; the subparsers return
//! exactly what those functions say, so the laws hold of them too.

use vstd::prelude::*;
use crate::diagnostic::DiagnosticView;
use crate::lexer::stream::lemma_skip_in_stream;
use crate::lexer::token::{TokenType, lemma_stream_ordered, stream_wf, tiles_at};
use crate::parser::cst::expr::{
    Expr,
    GroupingExpr,
    LiteralExpr,
    LiteralWhitespace,
    MemberExpr,
    UnaryExpr,
    UpdateExpr,
    lemma_covers_ordered,
    lemma_text_round_trip,
};
use crate::parser::error::{identifier_deletion, invalid_target};
use crate::parser::grammar::{Input, Outcome};
use crate::span::Span;

verus! {

impl Input {
    /// The byte offset at which token `i` starts.
    pub open spec fn offset(self, i: int) -> int {
        self.tok(i).lexeme.start as int
    }

    /// Leading whitespace that a caller hands in lies directly in front of
    /// the token under the cursor.
    pub open spec fn adjoins(self, pos: int, leading: Option<Span>) -> bool {
        leading matches Some(l) ==> l.start <= l.end && l.end == self.offset(pos)
    }

    /// The diagnostics that the semantic checks of the parser give for a
    /// tree, in the order in which a parse collects them: those of an
    /// operand before that of its operator. There is one for each update
    /// operator whose operand is no valid target, one for each `delete` of
    /// an identifier in strict mode, and no other.
    pub open spec fn violations(self, e: Expr) -> Seq<DiagnosticView>
        decreases e,
    {
        match e {
            Expr::Member(m) => self.violations(*m.object),
            Expr::Unary(u) => self.violations(*u.object) + (if self.strict && u.op
                == TokenType::Delete && *u.object is Identifier {
                seq![identifier_deletion(self.file_id, u.object.spec_span())]
            } else {
                Seq::empty()
            }),
            Expr::Update(u) => self.violations(*u.object) + (if u.object.spec_is_valid_assign_target() {
                Seq::empty()
            } else {
                seq![
                    invalid_target(
                        self.file_id,
                        u.prefix,
                        u.op,
                        u.whitespace.token(),
                        u.object.spec_span(),
                    ),
                ]
            }),
            Expr::Grouping(g) => self.violations(*g.expr),
            _ => Seq::empty(),
        }
    }

    /// What holds of a parse that started at `pos` with `leading` and ended
    /// as `out`: the cursor has not moved back and is on a token; and if a
    /// node came out, the cursor has passed at least one token, the node
    /// covers the source from the start of its leading whitespace to the
    /// new cursor, and the diagnostics collected are those of the node's
    /// violations.
    pub open spec fn sound(self, pos: int, leading: Option<Span>, out: Outcome) -> bool {
        &&& pos <= out.pos < self.tokens.len()
        &&& out.result matches Ok(e) ==> {
            &&& self.start(pos, leading) < out.pos
            &&& e.covers(self.lead(pos, leading).start as int, self.offset(out.pos))
            &&& out.diags == self.violations(e)
        }
    }

    /// Offsets grow along a well-formed stream, and a token ends where the
    /// next one starts.
    pub proof fn lemma_offsets(self, len: nat, i: int, j: int)
        requires
            stream_wf(self.tokens, len),
            0 <= i <= j < self.tokens.len(),
        ensures
            0 <= self.offset(i) <= self.offset(j) <= len,
            i < j ==> self.offset(i) < self.offset(j),
            i < j ==> self.tok(i).lexeme.end == self.offset(i + 1),
            i < j ==> self.tok(i).token_type != TokenType::EOF,
    {
        lemma_stream_ordered(self.tokens, len, i, j);
        if i < j {
            assert(tiles_at(self.tokens, i));
            lemma_stream_ordered(self.tokens, len, i + 1, j);
        }
    }

    /// A token that is not `EOF` is not the last of a well-formed stream.
    pub proof fn lemma_not_last(self, len: nat, i: int)
        requires
            stream_wf(self.tokens, len),
            0 <= i < self.tokens.len(),
            self.tok(i).token_type != TokenType::EOF,
        ensures
            i + 1 < self.tokens.len(),
    {
    }

    /// The leading whitespace of a parse is a range that ends at the first
    /// token of the parse.
    pub proof fn lemma_lead(self, len: nat, pos: int, leading: Option<Span>)
        requires
            stream_wf(self.tokens, len),
            0 <= pos < self.tokens.len(),
            self.adjoins(pos, leading),
        ensures
            pos <= self.start(pos, leading) < self.tokens.len(),
            self.lead(pos, leading).start <= self.lead(pos, leading).end,
            self.lead(pos, leading).end == self.offset(self.start(pos, leading)),
    {
        lemma_skip_in_stream(self.tokens, len, pos, true);
        self.lemma_offsets(len, pos, self.start(pos, leading));
    }

    /// `primary` is sound.
    pub proof fn lemma_primary_sound(self, len: nat, pos: int, leading: Option<Span>)
        requires
            stream_wf(self.tokens, len),
            0 <= pos < self.tokens.len(),
            self.adjoins(pos, leading),
        ensures
            self.sound(pos, leading, self.primary(pos, leading)),
        decreases self.tokens.len() - pos, 0int,
    {
        reveal(Input::primary);
        reveal(Input::lhs);
        reveal(Input::unary);
        self.lemma_lead(len, pos, leading);
        let p0 = self.start(pos, leading);
        let lead = self.lead(pos, leading);
        let lo = lead.start as int;
        let t = self.tok(p0);
        let p1 = p0 + 1;
        let p2 = self.skip(p1, false);
        let out = self.primary(pos, leading);
        let whitespace = LiteralWhitespace { before: lead, after: self.between(p1, p2) };
        let l = LiteralExpr { span: t.lexeme, whitespace };
        if t.token_type != TokenType::EOF {
            self.lemma_not_last(len, p0);
            lemma_skip_in_stream(self.tokens, len, p1, false);
            self.lemma_offsets(len, p0, p1);
            self.lemma_offsets(len, p1, p2);
            assert(whitespace.tiles(lo, self.offset(p2)));
            assert(whitespace.token() == t.lexeme);
        }
        if let Some(e) = Self::literal_of(t.token_type, l) {
            assert(out.result == Ok::<Expr, DiagnosticView>(e));
            assert(e.literal() == Some(l));
            assert(l.covers(lo, self.offset(p2)));
            assert(e.covers(lo, self.offset(p2)));
            assert(self.violations(e) == Seq::<DiagnosticView>::empty());
        } else if t.token_type == TokenType::ParenOpen {
            self.lemma_unary_sound(len, p2, None);
            let inner = self.unary(p2, None);
            lemma_skip_in_stream(self.tokens, len, p2, true);
            if let Ok(e) = inner.result {
                let k = self.skip(inner.pos, true);
                lemma_skip_in_stream(self.tokens, len, inner.pos, true);
                self.lemma_offsets(len, inner.pos, k);
                let close = self.tok(k);
                if close.token_type == TokenType::ParenClose {
                    self.lemma_not_last(len, k);
                    let k1 = k + 1;
                    let k2 = self.skip(k1, false);
                    lemma_skip_in_stream(self.tokens, len, k1, false);
                    self.lemma_offsets(len, k, k1);
                    self.lemma_offsets(len, k1, k2);
                    let closing = LiteralWhitespace {
                        before: self.between(inner.pos, k),
                        after: self.between(k1, k2),
                    };
                    let g = Expr::Grouping(
                        GroupingExpr {
                            span: Span { start: t.lexeme.start, end: close.lexeme.end },
                            expr: Box::new(e),
                            opening_paren_whitespace: whitespace,
                            closing_paren_whitespace: closing,
                        },
                    );
                    assert(out.result == Ok::<Expr, DiagnosticView>(g));
                    assert(out.pos == k2);
                    assert(closing.tiles(self.offset(inner.pos), self.offset(k2)));
                    assert(closing.token() == close.lexeme);
                    assert(e.covers(self.offset(p2), self.offset(inner.pos)));
                    assert(g.covers(lo, self.offset(k2)));
                    assert(self.violations(g) == self.violations(e));
                } else {
                    assert(out.result is Err);
                    assert(out.pos == k);
                }
            } else {
                assert(out == inner);
            }
        } else {
            assert(out.result is Err);
            assert(out.pos == p0);
        }
    }

    /// `members` is sound: it adds no diagnostic, and what comes out covers
    /// what `object` covered and the property accesses behind it.
    pub proof fn lemma_members_sound(self, len: nat, pos: int, object: Expr, lo: int)
        requires
            stream_wf(self.tokens, len),
            0 <= pos < self.tokens.len(),
            object.covers(lo, self.offset(pos)),
        ensures
            pos <= self.members(pos, object).pos < self.tokens.len(),
            self.members(pos, object).diags == Seq::<DiagnosticView>::empty(),
            self.members(pos, object).result matches Ok(e) ==> e.covers(
                lo,
                self.offset(self.members(pos, object).pos),
            ) && self.violations(e) == self.violations(object),
        decreases self.tokens.len() - pos,
    {
        reveal(Input::members);
        let out = self.members(pos, object);
        let k = self.skip(pos, true);
        lemma_skip_in_stream(self.tokens, len, pos, true);
        self.lemma_offsets(len, pos, k);
        let dot = self.tok(k);
        if dot.token_type == TokenType::Period {
            self.lemma_not_last(len, k);
            let k1 = k + 1;
            let k2 = self.skip(k1, true);
            lemma_skip_in_stream(self.tokens, len, k1, true);
            self.lemma_offsets(len, k, k1);
            self.lemma_offsets(len, k1, k2);
            let name = self.tok(k2);
            if name.token_type == TokenType::Identifier {
                self.lemma_not_last(len, k2);
                let k3 = k2 + 1;
                let k4 = self.skip(k3, false);
                lemma_skip_in_stream(self.tokens, len, k3, false);
                self.lemma_offsets(len, k2, k3);
                self.lemma_offsets(len, k3, k4);
                let whitespace = LiteralWhitespace {
                    before: self.between(pos, k),
                    after: self.between(k1, k2),
                };
                let property = LiteralExpr {
                    span: name.lexeme,
                    whitespace: LiteralWhitespace {
                        before: self.between(k2, k2),
                        after: self.between(k3, k4),
                    },
                };
                let m = Expr::Member(
                    MemberExpr {
                        span: Span { start: object.spec_span().start, end: name.lexeme.end },
                        object: Box::new(object),
                        property,
                        whitespace,
                    },
                );
                assert(out == self.members(k4, m));
                assert(whitespace.tiles(self.offset(pos), self.offset(k2)));
                assert(property.whitespace.tiles(self.offset(k2), self.offset(k4)));
                assert(property.covers(self.offset(k2), self.offset(k4)));
                assert(m.covers(lo, self.offset(k4)));
                assert(self.violations(m) == self.violations(object));
                self.lemma_members_sound(len, k4, m, lo);
            } else {
                assert(out.result is Err);
                assert(out.pos == k2);
            }
        } else {
            assert(out.result == Ok::<Expr, DiagnosticView>(object));
            assert(out.pos == pos);
        }
    }

    /// `lhs` is sound.
    pub proof fn lemma_lhs_sound(self, len: nat, pos: int, leading: Option<Span>)
        requires
            stream_wf(self.tokens, len),
            0 <= pos < self.tokens.len(),
            self.adjoins(pos, leading),
        ensures
            self.sound(pos, leading, self.lhs(pos, leading)),
        decreases self.tokens.len() - pos, 1int,
    {
        reveal(Input::primary);
        reveal(Input::lhs);
        reveal(Input::unary);
        self.lemma_primary_sound(len, pos, leading);
        let first = self.primary(pos, leading);
        let out = self.lhs(pos, leading);
        match first.result {
            Ok(e) => {
                self.lemma_members_sound(len, first.pos, e, self.lead(pos, leading).start as int);
                let rest = self.members(first.pos, e);
                assert(first.diags + Seq::<DiagnosticView>::empty() =~= first.diags);
                assert(out.result == rest.result);
                assert(out.pos == rest.pos);
                assert(out.diags == first.diags);
            },
            Err(_) => {
                assert(out == first);
            },
        }
    }

    /// `unary` is sound.
    pub proof fn lemma_unary_sound(self, len: nat, pos: int, leading: Option<Span>)
        requires
            stream_wf(self.tokens, len),
            0 <= pos < self.tokens.len(),
            self.adjoins(pos, leading),
        ensures
            self.sound(pos, leading, self.unary(pos, leading)),
        decreases self.tokens.len() - pos, 2int,
    {
        reveal(Input::primary);
        reveal(Input::lhs);
        reveal(Input::unary);
        self.lemma_lead(len, pos, leading);
        let p0 = self.start(pos, leading);
        let lead = self.lead(pos, leading);
        let lo = lead.start as int;
        let t = self.tok(p0);
        let p1 = p0 + 1;
        let p2 = self.skip(p1, false);
        let out = self.unary(pos, leading);
        let whitespace = LiteralWhitespace { before: lead, after: self.between(p1, p2) };
        if t.token_type.spec_is_update_op() || t.token_type.spec_is_unary_op() {
            self.lemma_not_last(len, p0);
            lemma_skip_in_stream(self.tokens, len, p1, false);
            lemma_skip_in_stream(self.tokens, len, p2, true);
            self.lemma_offsets(len, p0, p1);
            self.lemma_offsets(len, p1, p2);
            self.lemma_unary_sound(len, p2, None);
            let inner = self.unary(p2, None);
            assert(whitespace.tiles(lo, self.offset(p2)));
            assert(whitespace.token() == t.lexeme);
            match inner.result {
                Ok(object) => {
                    assert(object.covers(self.offset(p2), self.offset(inner.pos)));
                    let span = Span { start: t.lexeme.start, end: object.spec_span().end };
                    if t.token_type.spec_is_update_op() {
                        let e = Expr::Update(
                            UpdateExpr {
                                span,
                                prefix: true,
                                object: Box::new(object),
                                op: t.token_type,
                                whitespace,
                            },
                        );
                        assert(out.result == Ok::<Expr, DiagnosticView>(e));
                        assert(e.covers(lo, self.offset(inner.pos)));
                        assert(self.violations(e) == inner.diags + self.target_check(
                            true,
                            t,
                            object,
                        ));
                    } else {
                        let e = Expr::Unary(
                            UnaryExpr {
                                span,
                                object: Box::new(object),
                                op: t.token_type,
                                whitespace,
                            },
                        );
                        assert(out.result == Ok::<Expr, DiagnosticView>(e));
                        assert(e.covers(lo, self.offset(inner.pos)));
                        assert(self.violations(e) == inner.diags + self.deletion_check(t, object));
                    }
                },
                Err(_) => {
                    assert(out == inner);
                },
            }
        } else {
            self.lemma_lhs_sound(len, p0, Some(lead));
            let operand = self.lhs(p0, Some(lead));
            match operand.result {
                Ok(object) => {
                    let k = self.skip(operand.pos, true);
                    lemma_skip_in_stream(self.tokens, len, operand.pos, true);
                    self.lemma_offsets(len, operand.pos, k);
                    let op = self.tok(k);
                    if op.token_type.spec_is_update_op() && !self.linebreak_between(
                        operand.pos,
                        k,
                    ) {
                        self.lemma_not_last(len, k);
                        let k1 = k + 1;
                        let k2 = self.skip(k1, false);
                        lemma_skip_in_stream(self.tokens, len, k1, false);
                        self.lemma_offsets(len, k, k1);
                        self.lemma_offsets(len, k1, k2);
                        let around = LiteralWhitespace {
                            before: self.between(operand.pos, k),
                            after: self.between(k1, k2),
                        };
                        let e = Expr::Update(
                            UpdateExpr {
                                span: Span { start: object.spec_span().start, end: op.lexeme.end },
                                prefix: false,
                                object: Box::new(object),
                                op: op.token_type,
                                whitespace: around,
                            },
                        );
                        assert(out.result == Ok::<Expr, DiagnosticView>(e));
                        assert(out.pos == k2);
                        assert(around.tiles(self.offset(operand.pos), self.offset(k2)));
                        assert(around.token() == op.lexeme);
                        assert(object.covers(lo, self.offset(operand.pos)));
                        assert(e.covers(lo, self.offset(k2)));
                        assert(self.violations(e) == operand.diags + self.target_check(
                            false,
                            op,
                            object,
                        ));
                    } else {
                        assert(out == operand);
                    }
                },
                Err(_) => {
                    assert(out == operand);
                },
            }
        }
    }

    /// Lossless reconstruction. Whatever expression a parse returns, the
    /// text of the tree (for every token in order, the whitespace before
    /// it, the token and the whitespace after it) is exactly the source
    /// from the start of the leading whitespace to the new cursor.
    pub proof fn lemma_parse_reads_back_source(
        self,
        src: Seq<u8>,
        pos: int,
        leading: Option<Span>,
    )
        requires
            stream_wf(self.tokens, src.len()),
            0 <= pos < self.tokens.len(),
            self.adjoins(pos, leading),
        ensures
            self.expr(pos, leading).result matches Ok(e) ==> e.text(src) == src.subrange(
                self.lead(pos, leading).start as int,
                self.offset(self.expr(pos, leading).pos),
            ),
    {
        self.lemma_unary_sound(src.len(), pos, leading);
        let out = self.unary(pos, leading);
        if let Ok(e) = out.result {
            self.lemma_offsets(src.len(), out.pos, out.pos);
            lemma_covers_ordered(e, self.lead(pos, leading).start as int, self.offset(out.pos));
            lemma_text_round_trip(
                e,
                src,
                self.lead(pos, leading).start as int,
                self.offset(out.pos),
            );
        }
    }

    /// One diagnostic for each violation, and none else. The diagnostics
    /// that a successful parse collects are those of the update operators
    /// in the tree whose operand is no valid target and of the `delete`s
    /// of an identifier in strict mode, one each; so there are at most as
    /// many as the tree has operators.
    pub proof fn lemma_diagnostics_are_violations(self, len: nat, pos: int, leading: Option<Span>)
        requires
            stream_wf(self.tokens, len),
            0 <= pos < self.tokens.len(),
            self.adjoins(pos, leading),
        ensures
            self.expr(pos, leading).result matches Ok(e) ==> self.expr(pos, leading).diags
                == self.violations(e),
    {
        self.lemma_unary_sound(len, pos, leading);
    }

    /// A check that fails does not fail the parse. Behind a prefix
    /// operator the parse succeeds exactly if the parse of the operand
    /// does, whatever the operand is; the operator adds one diagnostic if
    /// its check fails and none if it passes.
    pub proof fn lemma_prefix_check_is_not_fatal(self, pos: int, leading: Option<Span>)
        requires
            self.tok(self.start(pos, leading)).token_type.spec_is_update_op() || self.tok(
                self.start(pos, leading),
            ).token_type.spec_is_unary_op(),
        ensures
            ({
                let p0 = self.start(pos, leading);
                let t = self.tok(p0);
                let inner = self.unary(self.skip(p0 + 1, false), None);
                let out = self.unary(pos, leading);
                &&& out.result is Ok <==> inner.result is Ok
                &&& out.pos == inner.pos
                &&& inner.result matches Ok(object) ==> {
                    &&& t.token_type.spec_is_update_op() ==> (out.result matches Ok(
                        Expr::Update(u),
                    ) && u.prefix && u.op == t.token_type && *u.object == object)
                    &&& !t.token_type.spec_is_update_op() ==> (out.result matches Ok(
                        Expr::Unary(u),
                    ) && u.op == t.token_type && *u.object == object)
                    &&& out.diags.len() == inner.diags.len() + if t.token_type.spec_is_update_op() {
                        if object.spec_is_valid_assign_target() {
                            0nat
                        } else {
                            1nat
                        }
                    } else {
                        if self.strict && t.token_type == TokenType::Delete && object is Identifier {
                            1nat
                        } else {
                            0nat
                        }
                    }
                }
            }),
    {
        reveal(Input::primary);
        reveal(Input::lhs);
        reveal(Input::unary);
    }

    /// Line terminators suppress a postfix operator. Where the expression
    /// starts with no prefix operator and a line terminator stands between
    /// its left-hand side and the next token that is not whitespace, the
    /// left-hand side alone is the outcome: even if that token is `++` or
    /// `--` it is not consumed, and the cursor stays in front of it.
    pub proof fn lemma_linebreak_suppresses_postfix(self, pos: int, leading: Option<Span>)
        requires
            !self.tok(self.start(pos, leading)).token_type.spec_is_update_op(),
            !self.tok(self.start(pos, leading)).token_type.spec_is_unary_op(),
            self.linebreak_between(
                self.lhs(self.start(pos, leading), Some(self.lead(pos, leading))).pos,
                self.skip(
                    self.lhs(self.start(pos, leading), Some(self.lead(pos, leading))).pos,
                    true,
                ),
            ),
        ensures
            self.unary(pos, leading) == self.lhs(
                self.start(pos, leading),
                Some(self.lead(pos, leading)),
            ),
            self.unary(pos, leading).pos <= self.skip(self.unary(pos, leading).pos, true),
    {
        reveal(Input::primary);
        reveal(Input::lhs);
        reveal(Input::unary);
        self.lemma_skip(self.unary(pos, leading).pos, true);
    }

    /// A postfix operator on the same line is taken in. Where the
    /// left-hand side parses and the next token that is not whitespace is
    /// `++` or `--` with no line terminator in front of it, the outcome is
    /// a postfix update of the left-hand side that runs from the start of
    /// the operand to the end of the operator, and the cursor stands
    /// behind the operator and the whitespace on its line.
    pub proof fn lemma_postfix_on_same_line(self, pos: int, leading: Option<Span>)
        requires
            !self.tok(self.start(pos, leading)).token_type.spec_is_update_op(),
            !self.tok(self.start(pos, leading)).token_type.spec_is_unary_op(),
            self.lhs(self.start(pos, leading), Some(self.lead(pos, leading))).result is Ok,
            self.postfix_follows(
                self.lhs(self.start(pos, leading), Some(self.lead(pos, leading))).pos,
            ),
        ensures
            ({
                let operand = self.lhs(self.start(pos, leading), Some(self.lead(pos, leading)));
                let k = self.skip(operand.pos, true);
                let out = self.unary(pos, leading);
                &&& out.result matches Ok(Expr::Update(u))
                &&& !u.prefix
                &&& u.op == self.tok(k).token_type
                &&& operand.result == Ok::<Expr, DiagnosticView>(*u.object)
                &&& u.span.start == u.object.spec_span().start
                &&& u.span.end == self.tok(k).lexeme.end
                &&& out.pos == self.skip(k + 1, false)
            }),
    {
        reveal(Input::primary);
        reveal(Input::lhs);
        reveal(Input::unary);
    }
}

} // verus!
