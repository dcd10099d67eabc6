//! The diagnostics of the parser, each as a view and as the function that
//! builds it.

use vstd::prelude::*;
use crate::diagnostic::{Diagnostic, DiagnosticKind, DiagnosticView, ParserDiagnostic};
use crate::lexer::token::{Token, TokenType};
use crate::span::Span;

verus! {

/// The source holds a byte at `offset` at which no token can start.
pub open spec fn malformed_token(file_id: usize, offset: usize) -> DiagnosticView {
    DiagnosticView::bare(
        DiagnosticKind::MalformedToken,
        file_id,
        None,
        "Malformed token"@,
    ).with_primary(
        Span { start: offset, end: (offset + 1) as usize },
        "No token can start here"@,
    )
}

/// `found` stands where an expression has to start.
pub open spec fn expected_expression(file_id: usize, found: Token) -> DiagnosticView {
    DiagnosticView::bare(
        DiagnosticKind::ExpectedExpression,
        file_id,
        None,
        "Expected an expression"@,
    ).with_primary(found.lexeme, "This token cannot start an expression"@)
}

/// The parenthesis at `open` is not closed where `found` stands.
pub open spec fn unterminated_group(file_id: usize, open: Span, found: Token) -> DiagnosticView {
    DiagnosticView::bare(
        DiagnosticKind::UnterminatedGroup,
        file_id,
        None,
        "Unterminated grouping expression"@,
    ).with_secondary(open, "The group is opened here"@).with_primary(
        found.lexeme,
        "Expected a closing parenthesis here"@,
    )
}

/// The `.` at `dot` is followed by `found`, which is no property name.
pub open spec fn expected_identifier(file_id: usize, dot: Span, found: Token) -> DiagnosticView {
    DiagnosticView::bare(
        DiagnosticKind::ExpectedIdentifier,
        file_id,
        None,
        "Expected a property name"@,
    ).with_secondary(dot, "The property access starts here"@).with_primary(
        found.lexeme,
        "Expected an identifier here"@,
    )
}

/// The title of the diagnostic for an update operator on a bad operand.
pub open spec fn invalid_target_title(prefix: bool, op: TokenType) -> Seq<char> {
    if prefix {
        if op == TokenType::Increment {
            "Invalid left hand side expression for prefix Increment"@
        } else {
            "Invalid left hand side expression for prefix Decrement"@
        }
    } else {
        if op == TokenType::Increment {
            "Invalid left hand side expression for postfix Increment"@
        } else {
            "Invalid left hand side expression for postfix Decrement"@
        }
    }
}

/// The text of the label on the operator in that diagnostic.
pub open spec fn invalid_target_note(prefix: bool, op: TokenType) -> Seq<char> {
    if prefix {
        if op == TokenType::Increment {
            "Prefix Increment operation used here"@
        } else {
            "Prefix Decrement operation used here"@
        }
    } else {
        if op == TokenType::Increment {
            "Postfix Increment used here"@
        } else {
            "Postfix Decrement used here"@
        }
    }
}

/// The operand at `target` of the update operator `op`, which stands at
/// `op_span`, cannot be assigned to. The operator gets the secondary label
/// and the operand the primary one.
pub open spec fn invalid_target(
    file_id: usize,
    prefix: bool,
    op: TokenType,
    op_span: Span,
    target: Span,
) -> DiagnosticView {
    DiagnosticView::bare(
        DiagnosticKind::InvalidTargetExpression,
        file_id,
        None,
        invalid_target_title(prefix, op),
    ).with_secondary(op_span, invalid_target_note(prefix, op)).with_primary(
        target,
        "Not a valid expression for the operator"@,
    )
}

/// `delete` is applied to the identifier at `ident` in strict mode.
pub open spec fn identifier_deletion(file_id: usize, ident: Span) -> DiagnosticView {
    DiagnosticView::bare(
        DiagnosticKind::IdentifierDeletion,
        file_id,
        None,
        "`delete` cannot be applied to identifiers in strict mode code"@,
    ).with_primary(ident, "Attempting to delete this identifier is invalid"@).with_help(
        "Help: `delete` is used to delete object properties"@,
    )
}

pub fn malformed_token_error(file_id: usize, offset: usize) -> (d: ParserDiagnostic)
    requires
        offset < usize::MAX,
    ensures
        d@ == malformed_token(file_id, offset),
{
    Diagnostic::error(DiagnosticKind::MalformedToken, file_id, "Malformed token").primary(
        Span::new(offset, offset + 1),
        "No token can start here",
    )
}

pub fn expected_expression_error(file_id: usize, found: Token) -> (d: ParserDiagnostic)
    ensures
        d@ == expected_expression(file_id, found),
{
    Diagnostic::error(
        DiagnosticKind::ExpectedExpression,
        file_id,
        "Expected an expression",
    ).primary(found.lexeme, "This token cannot start an expression")
}

pub fn unterminated_group_error(file_id: usize, open: Span, found: Token) -> (d:
    ParserDiagnostic)
    ensures
        d@ == unterminated_group(file_id, open, found),
{
    Diagnostic::error(
        DiagnosticKind::UnterminatedGroup,
        file_id,
        "Unterminated grouping expression",
    ).secondary(open, "The group is opened here").primary(
        found.lexeme,
        "Expected a closing parenthesis here",
    )
}

pub fn expected_identifier_error(file_id: usize, dot: Span, found: Token) -> (d:
    ParserDiagnostic)
    ensures
        d@ == expected_identifier(file_id, dot, found),
{
    Diagnostic::error(
        DiagnosticKind::ExpectedIdentifier,
        file_id,
        "Expected a property name",
    ).secondary(dot, "The property access starts here").primary(
        found.lexeme,
        "Expected an identifier here",
    )
}

pub fn invalid_target_error(
    file_id: usize,
    prefix: bool,
    op: TokenType,
    op_span: Span,
    target: Span,
) -> (d: ParserDiagnostic)
    ensures
        d@ == invalid_target(file_id, prefix, op, op_span, target),
{
    let increment = match op {
        TokenType::Increment => true,
        _ => false,
    };
    let (title, note) = if prefix {
        if increment {
            (
                "Invalid left hand side expression for prefix Increment",
                "Prefix Increment operation used here",
            )
        } else {
            (
                "Invalid left hand side expression for prefix Decrement",
                "Prefix Decrement operation used here",
            )
        }
    } else {
        if increment {
            ("Invalid left hand side expression for postfix Increment", "Postfix Increment used here")
        } else {
            ("Invalid left hand side expression for postfix Decrement", "Postfix Decrement used here")
        }
    };
    Diagnostic::error(DiagnosticKind::InvalidTargetExpression, file_id, title).secondary(
        op_span,
        note,
    ).primary(target, "Not a valid expression for the operator")
}

pub fn identifier_deletion_error(file_id: usize, ident: Span) -> (d: ParserDiagnostic)
    ensures
        d@ == identifier_deletion(file_id, ident),
{
    Diagnostic::error(
        DiagnosticKind::IdentifierDeletion,
        file_id,
        "`delete` cannot be applied to identifiers in strict mode code",
    ).primary(ident, "Attempting to delete this identifier is invalid").help(
        "Help: `delete` is used to delete object properties",
    )
}

} // verus!
