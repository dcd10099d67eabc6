//! The tokens the lexer hands to the parser.

use vstd::prelude::*;
use crate::span::Span;

verus! {

/// Binary operator tokens. `Add` and `Subtract` double as unary operators.
#[derive(Clone, Copy, Debug, PartialEq, Eq, Structural, Hash)]
pub enum BinToken {
    Add,
    Subtract,
    Multiply,
    Divide,
    Modulo,
}

#[derive(Clone, Copy, Debug, PartialEq, Eq, Structural, Hash)]
pub enum TokenType {
    /// A run of blanks on one line.
    Whitespace,
    /// One line terminator.
    Linebreak,
    /// The end of the source; always the last token of a stream.
    EOF,
    Identifier,
    Number,
    Regex,
    True,
    False,
    Null,
    This,
    Delete,
    Void,
    Typeof,
    Increment,
    Decrement,
    BinOp(BinToken),
    BitwiseNot,
    LogicalNot,
    ParenOpen,
    ParenClose,
    BracketOpen,
    BracketClose,
    Period,
    Comma,
    Semicolon,
}

impl TokenType {
    /// Tokens that separate meaningful tokens without being one themselves.
    pub open spec fn spec_is_whitespace(self) -> bool {
        self == TokenType::Whitespace || self == TokenType::Linebreak
    }

    /// `++` or `--`.
    pub open spec fn spec_is_update_op(self) -> bool {
        self == TokenType::Increment || self == TokenType::Decrement
    }

    /// The operators that form a plain unary expression:
    /// `delete`, `void`, `typeof`, `+`, `-`, `~` and `!`.
    pub open spec fn spec_is_unary_op(self) -> bool {
        self == TokenType::Delete || self == TokenType::Void || self == TokenType::Typeof
            || self == TokenType::BinOp(BinToken::Add) || self == TokenType::BinOp(
            BinToken::Subtract,
        ) || self == TokenType::BitwiseNot || self == TokenType::LogicalNot
    }

    /// Tokens after which a `/` divides instead of opening a regular
    /// expression: the ones that can end an operand.
    pub open spec fn spec_ends_operand(self) -> bool {
        self == TokenType::Identifier || self == TokenType::Number || self == TokenType::Regex
            || self == TokenType::True || self == TokenType::False || self == TokenType::Null
            || self == TokenType::This || self == TokenType::ParenClose || self
            == TokenType::BracketClose
    }

    #[verifier::when_used_as_spec(spec_is_whitespace)]
    pub fn is_whitespace(self) -> (b: bool)
        ensures
            b == self.spec_is_whitespace(),
    {
        match self {
            TokenType::Whitespace | TokenType::Linebreak => true,
            _ => false,
        }
    }

    #[verifier::when_used_as_spec(spec_is_update_op)]
    pub fn is_update_op(self) -> (b: bool)
        ensures
            b == self.spec_is_update_op(),
    {
        match self {
            TokenType::Increment | TokenType::Decrement => true,
            _ => false,
        }
    }

    #[verifier::when_used_as_spec(spec_is_unary_op)]
    pub fn is_unary_op(self) -> (b: bool)
        ensures
            b == self.spec_is_unary_op(),
    {
        match self {
            TokenType::Delete | TokenType::Void | TokenType::Typeof | TokenType::BitwiseNot
            | TokenType::LogicalNot => true,
            TokenType::BinOp(op) => match op {
                BinToken::Add | BinToken::Subtract => true,
                _ => false,
            },
            _ => false,
        }
    }

    #[verifier::when_used_as_spec(spec_ends_operand)]
    pub fn ends_operand(self) -> (b: bool)
        ensures
            b == self.spec_ends_operand(),
    {
        match self {
            TokenType::Identifier | TokenType::Number | TokenType::Regex | TokenType::True
            | TokenType::False | TokenType::Null | TokenType::This | TokenType::ParenClose
            | TokenType::BracketClose => true,
            _ => false,
        }
    }
}

/// A token: what it is and which bytes of the source it covers.
#[derive(Clone, Copy, Debug, PartialEq, Eq, Structural, Hash)]
pub struct Token {
    pub token_type: TokenType,
    pub lexeme: Span,
}

impl Token {
    pub fn new(token_type: TokenType, start: usize, end: usize) -> (t: Token)
        ensures
            t == (Token { token_type, lexeme: Span { start, end } }),
    {
        Token { token_type, lexeme: Span { start, end } }
    }
}

/// Token `i` of `ts` is a real token that covers at least one byte and ends
/// where the next one starts.
pub open spec fn tiles_at(ts: Seq<Token>, i: int) -> bool {
    &&& ts[i].token_type != TokenType::EOF
    &&& ts[i].lexeme.start < ts[i].lexeme.end
    &&& ts[i].lexeme.end == ts[i + 1].lexeme.start
}

/// A token stream is well formed over a source of `len` bytes when its
/// lexemes tile `[0, len)` in order and it ends in its only `EOF` token,
/// an empty one that sits at `len`.
pub open spec fn stream_wf(ts: Seq<Token>, len: nat) -> bool {
    &&& ts.len() >= 1
    &&& ts[0].lexeme.start == 0
    &&& ts.last().token_type == TokenType::EOF
    &&& ts.last().lexeme.start == len
    &&& ts.last().lexeme.end == len
    &&& forall|i: int| 0 <= i < ts.len() - 1 ==> #[trigger] tiles_at(ts, i)
}

/// In a well-formed stream the tokens lie in source order and inside the
/// source.
pub proof fn lemma_stream_ordered(ts: Seq<Token>, len: nat, i: int, j: int)
    requires
        stream_wf(ts, len),
        0 <= i <= j < ts.len(),
    ensures
        ts[i].lexeme.start <= ts[j].lexeme.start,
        ts[i].lexeme.end <= ts[j].lexeme.end,
        ts[j].lexeme.start <= ts[j].lexeme.end <= len,
    decreases ts.len() - i,
{
    if j < ts.len() - 1 {
        assert(tiles_at(ts, j));
        lemma_stream_ordered(ts, len, j + 1, ts.len() - 1);
    }
    if i < j {
        assert(tiles_at(ts, i));
        lemma_stream_ordered(ts, len, i + 1, j);
    }
}

} // verus!
