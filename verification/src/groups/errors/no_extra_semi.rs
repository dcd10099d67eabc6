//! Disallow unneeded semicolons.
//!
//! Unneeded semicolons are often caused by typing mistakes. They are not
//! an error, but they confuse a reader. This rule reports empty statements,
//! but for those that stand where the grammar asks for a statement, as the
//! body of a loop does.

use vstd::prelude::*;
use crate::diagnostic::{DiagnosticKind, DiagnosticView};
use crate::rule::{CstRule, RuleCtx};
use crate::syntax::{SyntaxKind, SyntaxNode, SyntaxTree};

verus! {

#[derive(Clone, Copy, Debug, Default, PartialEq, Eq)]
pub struct NoExtraSemi {}

/// The kinds of node under which an empty statement is a body and no
/// mistake: the loops, `if`, labelled statements and `with`.
pub open spec fn allows_empty_stmt(kind: SyntaxKind) -> bool {
    kind == SyntaxKind::FOR_STMT || kind == SyntaxKind::FOR_IN_STMT || kind
        == SyntaxKind::FOR_OF_STMT || kind == SyntaxKind::WHILE_STMT || kind
        == SyntaxKind::DO_WHILE_STMT || kind == SyntaxKind::IF_STMT || kind
        == SyntaxKind::LABELLED_STMT || kind == SyntaxKind::WITH_STMT
}

/// Whether node `id` of `tree` is an empty statement that nothing asks
/// for: it has no parent, or a parent of a kind that does not allow one.
pub open spec fn is_extra_semi(tree: &SyntaxTree, id: int) -> bool {
    &&& tree.kind_of(id) == SyntaxKind::EMPTY_STMT
    &&& tree.parent_of(id) matches Some(p) ==> !allows_empty_stmt(tree.kind_of(p))
}

/// The diagnostic for the unneeded semicolon at node `id`.
pub open spec fn extra_semi(tree: &SyntaxTree, id: int, file_id: usize) -> DiagnosticView {
    DiagnosticView::bare(
        DiagnosticKind::RuleViolation,
        file_id,
        Some("no-extra-semi"@),
        "Unnecessary semicolon"@,
    ).with_primary(tree.span_of(id), "help: delete this semicolon"@)
}

#[verifier::when_used_as_spec(allows_empty_stmt)]
pub fn is_allowed_parent(kind: SyntaxKind) -> (b: bool)
    ensures
        b == allows_empty_stmt(kind),
{
    match kind {
        SyntaxKind::FOR_STMT
        | SyntaxKind::FOR_IN_STMT
        | SyntaxKind::FOR_OF_STMT
        | SyntaxKind::WHILE_STMT
        | SyntaxKind::DO_WHILE_STMT
        | SyntaxKind::IF_STMT
        | SyntaxKind::LABELLED_STMT
        | SyntaxKind::WITH_STMT => true,
        _ => false,
    }
}

impl CstRule for NoExtraSemi {
    open spec fn spec_name(&self) -> Seq<char> {
        "no-extra-semi"@
    }

    /// One diagnostic on the node if it is an unneeded semicolon, and none
    /// otherwise.
    open spec fn findings(&self, tree: &SyntaxTree, id: int, file_id: usize, verbose: bool) -> Seq<
        DiagnosticView,
    > {
        if is_extra_semi(tree, id) {
            seq![extra_semi(tree, id, file_id)]
        } else {
            Seq::empty()
        }
    }

    fn name(&self) -> (n: &'static str)
        ensures
            n@ == "no-extra-semi"@,
    {
        "no-extra-semi"
    }

    /// Reports the node if it is an empty statement whose parent does not
    /// ask for a statement, or that has no parent; and reports nothing
    /// otherwise.
    fn check_node(&self, node: &SyntaxNode, ctx: &mut RuleCtx) -> (r: Option<()>)
        ensures
            r is None,
            final(ctx).diagnostics.deep_view() == if is_extra_semi(&node.tree(), node.id()) {
                old(ctx).diagnostics.deep_view().push(
                    extra_semi(&node.tree(), node.id(), old(ctx).file_id),
                )
            } else {
                old(ctx).diagnostics.deep_view()
            },
    {
        let ghost before = ctx.diagnostics.deep_view();
        let orphan = match node.parent() {
            Some(parent) => !is_allowed_parent(parent.kind()),
            None => true,
        };
        let empty = match node.kind() {
            SyntaxKind::EMPTY_STMT => true,
            _ => false,
        };
        if empty && orphan {
            let err = ctx.err(self.name(), "Unnecessary semicolon").primary(
                node.text_range(),
                "help: delete this semicolon",
            );
            ctx.add_err(err);
            assert(before.push(err@) =~= before + seq![err@]);
        } else {
            assert(before + Seq::<DiagnosticView>::empty() =~= before);
        }
        None
    }
}

} // verus!
