//! Expression nodes.
//!
//! Every token of an expression is kept with the whitespace around it, so
//! the source text can be put together again from the tree alone.

use vstd::prelude::*;
use crate::lexer::token::TokenType;
use crate::span::Span;

verus! {

/// The whitespace on both sides of one token. `before` ends where the token
/// starts, and `after` starts where the token ends.
#[derive(Clone, Copy, Debug, PartialEq, Eq, Structural, Hash)]
pub struct LiteralWhitespace {
    pub before: Span,
    pub after: Span,
}

impl LiteralWhitespace {
    /// The span of the token that the whitespace surrounds.
    pub open spec fn token(self) -> Span {
        Span { start: self.before.end, end: self.after.start }
    }

    /// The whitespace and its token lie in order and fill `[lo, hi)`
    /// without a gap; the token is not empty.
    pub open spec fn tiles(self, lo: int, hi: int) -> bool {
        &&& self.before.start == lo
        &&& self.before.start <= self.before.end
        &&& self.before.end < self.after.start
        &&& self.after.start <= self.after.end
        &&& self.after.end == hi
    }

    /// The text before the token, the token, and the text after it.
    pub open spec fn text(self, src: Seq<u8>) -> Seq<u8> {
        self.before.text(src) + self.token().text(src) + self.after.text(src)
    }
}

/// An expression that is a single token: an identifier or a literal.
#[derive(Clone, Copy, Debug, PartialEq, Eq, Structural, Hash)]
pub struct LiteralExpr {
    pub span: Span,
    pub whitespace: LiteralWhitespace,
}

/// A prefix operator and its operand. The span runs from the operator to
/// the end of the operand.
#[derive(Debug, PartialEq, Eq)]
pub struct UnaryExpr {
    pub span: Span,
    pub object: Box<Expr>,
    pub op: TokenType,
    /// The whitespace around the operator.
    pub whitespace: LiteralWhitespace,
}

/// `++` or `--` in front of or behind its operand.
#[derive(Debug, PartialEq, Eq)]
pub struct UpdateExpr {
    pub span: Span,
    pub prefix: bool,
    pub object: Box<Expr>,
    pub op: TokenType,
    /// The whitespace around the operator.
    pub whitespace: LiteralWhitespace,
}

/// An expression in parentheses. The span runs from `(` to `)`.
#[derive(Debug, PartialEq, Eq)]
pub struct GroupingExpr {
    pub span: Span,
    pub expr: Box<Expr>,
    pub opening_paren_whitespace: LiteralWhitespace,
    pub closing_paren_whitespace: LiteralWhitespace,
}

/// `object.property`.
#[derive(Debug, PartialEq, Eq)]
pub struct MemberExpr {
    pub span: Span,
    pub object: Box<Expr>,
    pub property: LiteralExpr,
    /// The whitespace around the `.`.
    pub whitespace: LiteralWhitespace,
}

#[derive(Debug, PartialEq, Eq)]
pub enum Expr {
    This(LiteralExpr),
    Number(LiteralExpr),
    Null(LiteralExpr),
    Regex(LiteralExpr),
    Identifier(LiteralExpr),
    True(LiteralExpr),
    False(LiteralExpr),
    Member(MemberExpr),
    Unary(UnaryExpr),
    Update(UpdateExpr),
    Grouping(GroupingExpr),
}

impl LiteralExpr {
    /// The node fills `[lo, hi)` and its span is exactly its token.
    pub open spec fn covers(self, lo: int, hi: int) -> bool {
        &&& self.whitespace.tiles(lo, hi)
        &&& self.span == self.whitespace.token()
    }
}

impl Expr {
    /// The payload of a single-token expression.
    pub open spec fn literal(self) -> Option<LiteralExpr> {
        match self {
            Expr::This(l) => Some(l),
            Expr::Number(l) => Some(l),
            Expr::Null(l) => Some(l),
            Expr::Regex(l) => Some(l),
            Expr::Identifier(l) => Some(l),
            Expr::True(l) => Some(l),
            Expr::False(l) => Some(l),
            _ => None,
        }
    }

    /// The source range of the node, without the whitespace around it.
    pub open spec fn spec_span(&self) -> Span {
        match *self {
            Expr::Member(m) => m.span,
            Expr::Unary(u) => u.span,
            Expr::Update(u) => u.span,
            Expr::Grouping(g) => g.span,
            _ => self.literal().unwrap().span,
        }
    }

    /// Whether the expression may stand on the left of an assignment or
    /// under an update operator. The variant alone decides: identifiers and
    /// member accesses may, everything else may not.
    pub open spec fn spec_is_valid_assign_target(&self) -> bool {
        *self is Identifier || *self is Member
    }

    /// The tokens of the expression and the whitespace kept with them fill
    /// `[lo, hi)` in order and without a gap, and every node's span runs
    /// from the start of its first token to the end of its last.
    pub open spec fn covers(self, lo: int, hi: int) -> bool
        decreases self,
    {
        match self {
            Expr::Member(m) => {
                &&& m.object.covers(lo, m.whitespace.before.start as int)
                &&& m.whitespace.tiles(
                    m.whitespace.before.start as int,
                    m.whitespace.after.end as int,
                )
                &&& m.property.covers(m.whitespace.after.end as int, hi)
                &&& m.span.start == m.object.spec_span().start
                &&& m.span.end == m.property.span.end
            },
            Expr::Unary(u) => {
                &&& u.whitespace.tiles(lo, u.whitespace.after.end as int)
                &&& u.object.covers(u.whitespace.after.end as int, hi)
                &&& u.span.start == u.whitespace.token().start
                &&& u.span.end == u.object.spec_span().end
            },
            Expr::Update(u) => if u.prefix {
                &&& u.whitespace.tiles(lo, u.whitespace.after.end as int)
                &&& u.object.covers(u.whitespace.after.end as int, hi)
                &&& u.span.start == u.whitespace.token().start
                &&& u.span.end == u.object.spec_span().end
            } else {
                &&& u.object.covers(lo, u.whitespace.before.start as int)
                &&& u.whitespace.tiles(u.whitespace.before.start as int, hi)
                &&& u.span.start == u.object.spec_span().start
                &&& u.span.end == u.whitespace.token().end
            },
            Expr::Grouping(g) => {
                &&& g.opening_paren_whitespace.tiles(
                    lo,
                    g.opening_paren_whitespace.after.end as int,
                )
                &&& g.expr.covers(
                    g.opening_paren_whitespace.after.end as int,
                    g.closing_paren_whitespace.before.start as int,
                )
                &&& g.closing_paren_whitespace.tiles(
                    g.closing_paren_whitespace.before.start as int,
                    hi,
                )
                &&& g.span.start == g.opening_paren_whitespace.token().start
                &&& g.span.end == g.closing_paren_whitespace.token().end
            },
            _ => self.literal().unwrap().covers(lo, hi),
        }
    }

    /// The source text that the tree stands for: for every token in order,
    /// the whitespace before it, the token, and the whitespace after it.
    pub open spec fn text(self, src: Seq<u8>) -> Seq<u8>
        decreases self,
    {
        match self {
            Expr::Member(m) => m.object.text(src) + m.whitespace.text(src)
                + m.property.whitespace.text(src),
            Expr::Unary(u) => u.whitespace.text(src) + u.object.text(src),
            Expr::Update(u) => if u.prefix {
                u.whitespace.text(src) + u.object.text(src)
            } else {
                u.object.text(src) + u.whitespace.text(src)
            },
            Expr::Grouping(g) => g.opening_paren_whitespace.text(src) + g.expr.text(src)
                + g.closing_paren_whitespace.text(src),
            _ => self.literal().unwrap().whitespace.text(src),
        }
    }

    #[verifier::when_used_as_spec(spec_span)]
    pub fn span(&self) -> (s: Span)
        ensures
            s == self.spec_span(),
    {
        match self {
            Expr::This(l) => l.span,
            Expr::Number(l) => l.span,
            Expr::Null(l) => l.span,
            Expr::Regex(l) => l.span,
            Expr::Identifier(l) => l.span,
            Expr::True(l) => l.span,
            Expr::False(l) => l.span,
            Expr::Member(m) => m.span,
            Expr::Unary(u) => u.span,
            Expr::Update(u) => u.span,
            Expr::Grouping(g) => g.span,
        }
    }

    #[verifier::when_used_as_spec(spec_is_valid_assign_target)]
    pub fn is_valid_assign_target(&self) -> (b: bool)
        ensures
            b == self.spec_is_valid_assign_target(),
    {
        match self {
            Expr::Identifier(_) => true,
            Expr::Member(_) => true,
            _ => false,
        }
    }
}

/// A well-formed piece of whitespace with its token reads back the bytes
/// of the range it fills.
pub proof fn lemma_whitespace_text(ws: LiteralWhitespace, src: Seq<u8>, lo: int, hi: int)
    requires
        ws.tiles(lo, hi),
        0 <= lo,
        hi <= src.len(),
    ensures
        ws.text(src) == src.subrange(lo, hi),
{
    assert(ws.text(src) =~= src.subrange(lo, hi));
}

/// A covered range is a range: it does not end before it starts, and the
/// node's span lies inside it.
pub proof fn lemma_covers_ordered(e: Expr, lo: int, hi: int)
    requires
        e.covers(lo, hi),
    ensures
        lo <= e.spec_span().start < e.spec_span().end <= hi,
    decreases e,
{
    match e {
        Expr::Member(m) => {
            lemma_covers_ordered(*m.object, lo, m.whitespace.before.start as int);
        },
        Expr::Unary(u) => {
            lemma_covers_ordered(*u.object, u.whitespace.after.end as int, hi);
        },
        Expr::Update(u) => {
            if u.prefix {
                lemma_covers_ordered(*u.object, u.whitespace.after.end as int, hi);
            } else {
                lemma_covers_ordered(*u.object, lo, u.whitespace.before.start as int);
            }
        },
        Expr::Grouping(g) => {
            lemma_covers_ordered(
                *g.expr,
                g.opening_paren_whitespace.after.end as int,
                g.closing_paren_whitespace.before.start as int,
            );
        },
        _ => {},
    }
}

/// Lossless reconstruction: the text of a tree that covers `[lo, hi)` is
/// exactly the bytes of the source in that range.
pub proof fn lemma_text_round_trip(e: Expr, src: Seq<u8>, lo: int, hi: int)
    requires
        e.covers(lo, hi),
        0 <= lo,
        hi <= src.len(),
    ensures
        e.text(src) == src.subrange(lo, hi),
    decreases e,
{
    lemma_covers_ordered(e, lo, hi);
    match e {
        Expr::Member(m) => {
            let a = m.whitespace.before.start as int;
            let b = m.whitespace.after.end as int;
            lemma_covers_ordered(*m.object, lo, a);
            lemma_text_round_trip(*m.object, src, lo, a);
            lemma_whitespace_text(m.whitespace, src, a, b);
            lemma_whitespace_text(m.property.whitespace, src, b, hi);
            assert(src.subrange(lo, a) + src.subrange(a, b) + src.subrange(b, hi)
                =~= src.subrange(lo, hi));
        },
        Expr::Unary(u) => {
            let a = u.whitespace.after.end as int;
            lemma_covers_ordered(*u.object, a, hi);
            lemma_text_round_trip(*u.object, src, a, hi);
            lemma_whitespace_text(u.whitespace, src, lo, a);
            assert(src.subrange(lo, a) + src.subrange(a, hi) =~= src.subrange(lo, hi));
        },
        Expr::Update(u) => {
            if u.prefix {
                let a = u.whitespace.after.end as int;
                lemma_covers_ordered(*u.object, a, hi);
                lemma_text_round_trip(*u.object, src, a, hi);
                lemma_whitespace_text(u.whitespace, src, lo, a);
                assert(src.subrange(lo, a) + src.subrange(a, hi) =~= src.subrange(lo, hi));
            } else {
                let a = u.whitespace.before.start as int;
                lemma_covers_ordered(*u.object, lo, a);
                lemma_text_round_trip(*u.object, src, lo, a);
                lemma_whitespace_text(u.whitespace, src, a, hi);
                assert(src.subrange(lo, a) + src.subrange(a, hi) =~= src.subrange(lo, hi));
            }
        },
        Expr::Grouping(g) => {
            let a = g.opening_paren_whitespace.after.end as int;
            let b = g.closing_paren_whitespace.before.start as int;
            lemma_covers_ordered(*g.expr, a, b);
            lemma_text_round_trip(*g.expr, src, a, b);
            lemma_whitespace_text(g.opening_paren_whitespace, src, lo, a);
            lemma_whitespace_text(g.closing_paren_whitespace, src, b, hi);
            assert(src.subrange(lo, a) + src.subrange(a, b) + src.subrange(b, hi)
                =~= src.subrange(lo, hi));
        },
        _ => {
            lemma_whitespace_text(e.literal().unwrap().whitespace, src, lo, hi);
        },
    }
}

} // verus!
