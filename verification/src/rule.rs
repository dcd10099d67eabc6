//! Analysis rules and the walk that hands every node of a tree to them.
//!
//! A rule looks at one node at a time and may add diagnostics; it cannot
//! change the tree, nor see what other rules found. The walk visits the
//! nodes in pre-order and runs every rule on each node, in the order in
//! which the rules were registered.

use vstd::prelude::*;
use vstd::seq_lib::lemma_multiset_commutative;
use crate::diagnostic::{Diagnostic, DiagnosticView, lemma_deep_view_push};
use crate::syntax::{SyntaxNode, SyntaxTree};

verus! {

/// What a rule is handed besides the node: the file its diagnostics are
/// attributed to, a setting of the run that is passed through to the rules
/// as it is, the name of the rule that is being run, and the diagnostics
/// collected so far, to which a rule may add.
pub struct RuleCtx {
    pub file_id: usize,
    pub verbose: bool,
    /// The name of the rule that is being run; the walk sets it before it
    /// hands a node to a rule.
    pub rule: &'static str,
    pub diagnostics: Vec<Diagnostic>,
}

impl RuleCtx {
    /// A context that has collected nothing yet.
    pub fn new(file_id: usize, verbose: bool) -> (ctx: RuleCtx)
        ensures
            ctx.file_id == file_id,
            ctx.verbose == verbose,
            ctx.rule@ == ""@,
            ctx.diagnostics.deep_view() == Seq::<DiagnosticView>::empty(),
    {
        let ctx = RuleCtx { file_id, verbose, rule: "", diagnostics: Vec::new() };
        assert(ctx.diagnostics.deep_view() =~= Seq::<DiagnosticView>::empty());
        ctx
    }

    /// Starts a diagnostic of the rule called `code`.
    pub fn err(&self, code: &str, message: &str) -> (d: Diagnostic)
        ensures
            d@ == DiagnosticView::bare(
                crate::diagnostic::DiagnosticKind::RuleViolation,
                self.file_id,
                Some(code@),
                message@,
            ),
    {
        Diagnostic::for_rule(self.file_id, code, message)
    }

    /// Starts a diagnostic of the rule that is being run.
    pub fn err_here(&self, message: &str) -> (d: Diagnostic)
        ensures
            d@ == DiagnosticView::bare(
                crate::diagnostic::DiagnosticKind::RuleViolation,
                self.file_id,
                Some(self.rule@),
                message@,
            ),
    {
        Diagnostic::for_rule(self.file_id, self.rule, message)
    }

    /// Adds a diagnostic behind those collected so far.
    pub fn add_err(&mut self, d: Diagnostic)
        ensures
            final(self).file_id == old(self).file_id,
            final(self).verbose == old(self).verbose,
            final(self).rule == old(self).rule,
            final(self).diagnostics.deep_view() == old(self).diagnostics.deep_view().push(d@),
    {
        self.diagnostics.push(d);
        proof {
            lemma_deep_view_push(old(self).diagnostics@, self.diagnostics@, d);
        }
    }
}

/// An analysis rule.
///
/// What a rule reports for a node is a function of the rule, the tree, the
/// node and the settings of the run: `findings`. When a rule is handed a
/// node, the context names that rule as the one that is being run. `check_node` adds exactly
/// those diagnostics behind the ones collected before and changes nothing
/// else, whatever it returns; a rule that stops early on a node returns
/// `None`, and the walk goes on with the next rule all the same.
pub trait CstRule {
    /// The name by which the rule is known.
    open spec fn spec_name(&self) -> Seq<char> {
        Seq::empty()
    }

    /// What the rule reports for node `id` of `tree`. A rule that does not
    /// say reports nothing.
    open spec fn findings(&self, tree: &SyntaxTree, id: int, file_id: usize, verbose: bool) -> Seq<
        DiagnosticView,
    > {
        Seq::empty()
    }

    fn name(&self) -> (n: &'static str)
        ensures
            n@ == self.spec_name(),
    ;

    fn check_node(&self, node: &SyntaxNode, ctx: &mut RuleCtx) -> (r: Option<()>)
        requires
            node.wf(),
            old(ctx).rule@ == self.spec_name(),
        ensures
            final(ctx).file_id == old(ctx).file_id,
            final(ctx).verbose == old(ctx).verbose,
            final(ctx).rule == old(ctx).rule,
            final(ctx).diagnostics.deep_view() == old(ctx).diagnostics.deep_view() + self.findings(
                &node.tree(),
                node.id(),
                old(ctx).file_id,
                old(ctx).verbose,
            ),
    ;
}

/// What the rules report for one node: the findings of each rule, in the
/// order of the rules.
pub open spec fn node_findings(
    rules: Seq<Box<dyn CstRule>>,
    tree: &SyntaxTree,
    id: int,
    file_id: usize,
    verbose: bool,
) -> Seq<DiagnosticView>
    decreases rules.len(),
{
    if rules.len() == 0 {
        Seq::empty()
    } else {
        node_findings(rules.drop_last(), tree, id, file_id, verbose) + rules.last().findings(
            tree,
            id,
            file_id,
            verbose,
        )
    }
}

/// What the rules report for the nodes `order`, visited in that order.
pub open spec fn walk_findings(
    rules: Seq<Box<dyn CstRule>>,
    tree: &SyntaxTree,
    order: Seq<int>,
    file_id: usize,
    verbose: bool,
) -> Seq<DiagnosticView>
    decreases order.len(),
{
    if order.len() == 0 {
        Seq::empty()
    } else {
        walk_findings(rules, tree, order.drop_last(), file_id, verbose) + node_findings(
            rules,
            tree,
            order.last(),
            file_id,
            verbose,
        )
    }
}

/// The rule that the context names when `rules` have been run, given the
/// name `before` that it held: the last of the rules, if there is one.
pub open spec fn rule_after(rules: Seq<Box<dyn CstRule>>, before: Seq<char>) -> Seq<char> {
    if rules.len() == 0 {
        before
    } else {
        rules.last().spec_name()
    }
}

/// Visiting one stretch of nodes after another reports what each stretch
/// reports, one after the other.
pub proof fn lemma_walk_concat(
    rules: Seq<Box<dyn CstRule>>,
    tree: &SyntaxTree,
    a: Seq<int>,
    b: Seq<int>,
    file_id: usize,
    verbose: bool,
)
    ensures
        walk_findings(rules, tree, a + b, file_id, verbose) == walk_findings(
            rules,
            tree,
            a,
            file_id,
            verbose,
        ) + walk_findings(rules, tree, b, file_id, verbose),
    decreases b.len(),
{
    if b.len() == 0 {
        assert(a + b =~= a);
        assert(walk_findings(rules, tree, a, file_id, verbose) + Seq::<DiagnosticView>::empty()
            =~= walk_findings(rules, tree, a, file_id, verbose));
    } else {
        assert((a + b).drop_last() =~= a + b.drop_last());
        assert((a + b).last() == b.last());
        lemma_walk_concat(rules, tree, a, b.drop_last(), file_id, verbose);
        let x = walk_findings(rules, tree, a, file_id, verbose);
        let y = walk_findings(rules, tree, b.drop_last(), file_id, verbose);
        let z = node_findings(rules, tree, b.last(), file_id, verbose);
        assert((x + y) + z =~= x + (y + z));
    }
}

/// Visiting one node reports what the rules report for it.
pub proof fn lemma_walk_one(
    rules: Seq<Box<dyn CstRule>>,
    tree: &SyntaxTree,
    id: int,
    file_id: usize,
    verbose: bool,
)
    ensures
        walk_findings(rules, tree, seq![id], file_id, verbose) == node_findings(
            rules,
            tree,
            id,
            file_id,
            verbose,
        ),
{
    let one = seq![id];
    assert(one.drop_last() =~= Seq::<int>::empty());
    assert(one.last() == id);
    let n = node_findings(rules, tree, id, file_id, verbose);
    assert(Seq::<DiagnosticView>::empty() + n =~= n);
    assert(walk_findings(rules, tree, one.drop_last(), file_id, verbose) == Seq::<
        DiagnosticView,
    >::empty());
}

/// Rules registered behind others report behind them and change nothing of
/// what the others report for a node.
pub proof fn lemma_node_findings_concat(
    a: Seq<Box<dyn CstRule>>,
    b: Seq<Box<dyn CstRule>>,
    tree: &SyntaxTree,
    id: int,
    file_id: usize,
    verbose: bool,
)
    ensures
        node_findings(a + b, tree, id, file_id, verbose) == node_findings(
            a,
            tree,
            id,
            file_id,
            verbose,
        ) + node_findings(b, tree, id, file_id, verbose),
    decreases b.len(),
{
    let x = node_findings(a, tree, id, file_id, verbose);
    if b.len() == 0 {
        assert(a + b =~= a);
        assert(x + Seq::<DiagnosticView>::empty() =~= x);
    } else {
        assert((a + b).drop_last() =~= a + b.drop_last());
        assert((a + b).last() == b.last());
        lemma_node_findings_concat(a, b.drop_last(), tree, id, file_id, verbose);
        let y = node_findings(b.drop_last(), tree, id, file_id, verbose);
        let z = b.last().findings(tree, id, file_id, verbose);
        assert((x + y) + z =~= x + (y + z));
    }
}

/// Rule independence. Running the rules `a` and the rules `b` together
/// over the same nodes reports, as a collection, what `a` alone reports
/// together with what `b` alone reports: no rule suppresses or adds to
/// the findings of another.
pub proof fn lemma_rules_are_independent(
    a: Seq<Box<dyn CstRule>>,
    b: Seq<Box<dyn CstRule>>,
    tree: &SyntaxTree,
    order: Seq<int>,
    file_id: usize,
    verbose: bool,
)
    ensures
        walk_findings(a + b, tree, order, file_id, verbose).to_multiset() == walk_findings(
            a,
            tree,
            order,
            file_id,
            verbose,
        ).to_multiset().add(walk_findings(b, tree, order, file_id, verbose).to_multiset()),
    decreases order.len(),
{
    let both = walk_findings(a + b, tree, order, file_id, verbose);
    let left = walk_findings(a, tree, order, file_id, verbose);
    let right = walk_findings(b, tree, order, file_id, verbose);
    if order.len() == 0 {
        lemma_multiset_commutative(left, right);
        assert(left + right =~= both);
    } else {
        let init = order.drop_last();
        let id = order.last();
        lemma_rules_are_independent(a, b, tree, init, file_id, verbose);
        lemma_node_findings_concat(a, b, tree, id, file_id, verbose);
        let wab = walk_findings(a + b, tree, init, file_id, verbose);
        let wa = walk_findings(a, tree, init, file_id, verbose);
        let wb = walk_findings(b, tree, init, file_id, verbose);
        let na = node_findings(a, tree, id, file_id, verbose);
        let nb = node_findings(b, tree, id, file_id, verbose);
        lemma_multiset_commutative(wab, na + nb);
        lemma_multiset_commutative(na, nb);
        lemma_multiset_commutative(wa, na);
        lemma_multiset_commutative(wb, nb);
        assert(both.to_multiset() =~= left.to_multiset().add(right.to_multiset()));
    }
}

/// Runs every rule on one node, in the order of the rules. What a rule
/// returns is not looked at: a rule that stops early does not keep the
/// rules behind it from running.
pub fn check_rules(rules: &Vec<Box<dyn CstRule>>, node: &SyntaxNode, ctx: &mut RuleCtx)
    requires
        node.wf(),
    ensures
        final(ctx).file_id == old(ctx).file_id,
        final(ctx).verbose == old(ctx).verbose,
        final(ctx).rule@ == rule_after(rules@, old(ctx).rule@),
        final(ctx).diagnostics.deep_view() == old(ctx).diagnostics.deep_view() + node_findings(
            rules@,
            &node.tree(),
            node.id(),
            old(ctx).file_id,
            old(ctx).verbose,
        ),
{
    let ghost before = ctx.diagnostics.deep_view();
    let ghost tree = node.tree();
    let mut r: usize = 0;
    proof {
        assert(before + Seq::<DiagnosticView>::empty() =~= before);
    }
    while r < rules.len()
        invariant
            r <= rules.len(),
            node.wf(),
            tree == node.tree(),
            ctx.file_id == old(ctx).file_id,
            ctx.verbose == old(ctx).verbose,
            ctx.rule@ == rule_after(rules@.take(r as int), old(ctx).rule@),
            before == old(ctx).diagnostics.deep_view(),
            ctx.diagnostics.deep_view() == before + node_findings(
                rules@.take(r as int),
                &tree,
                node.id(),
                ctx.file_id,
                ctx.verbose,
            ),
        decreases rules.len() - r,
    {
        ctx.rule = rules[r].name();
        let _ = rules[r].check_node(node, ctx);
        proof {
            let done = rules@.take(r as int);
            let next = rules@.take(r + 1);
            assert(next.drop_last() =~= done);
            assert(next.last() == rules@[r as int]);
            let x = node_findings(done, &tree, node.id(), ctx.file_id, ctx.verbose);
            let y = rules@[r as int].findings(&tree, node.id(), ctx.file_id, ctx.verbose);
            assert((before + x) + y =~= before + (x + y));
        }
        r = r + 1;
    }
    proof {
        assert(rules@.take(rules.len() as int) =~= rules@);
    }
}

/// Runs the rules on `node` and on all that is under it, in pre-order.
pub fn run_subtree(rules: &Vec<Box<dyn CstRule>>, node: SyntaxNode, ctx: &mut RuleCtx)
    requires
        node.wf(),
    ensures
        final(ctx).file_id == old(ctx).file_id,
        final(ctx).verbose == old(ctx).verbose,
        final(ctx).rule@ == rule_after(rules@, old(ctx).rule@),
        final(ctx).diagnostics.deep_view() == old(ctx).diagnostics.deep_view() + walk_findings(
            rules@,
            &node.tree(),
            node.tree().preorder(node.id()),
            old(ctx).file_id,
            old(ctx).verbose,
        ),
    decreases node.tree().spec_len() - node.id(),
{
    let ghost before = ctx.diagnostics.deep_view();
    let ghost tree = node.tree();
    let ghost id = node.id();
    let ghost file_id = ctx.file_id;
    let ghost verbose = ctx.verbose;
    let ghost here = node_findings(rules@, &tree, id, file_id, verbose);
    check_rules(rules, &node, ctx);
    let n = node.child_count();
    let mut j: usize = 0;
    let ghost mut done: Seq<int> = Seq::empty();
    proof {
        assert(done + tree.preorder_from(id, 0) =~= tree.preorder_from(id, 0));
        assert((before + here) + Seq::<DiagnosticView>::empty() =~= before + here);
    }
    while j < n
        invariant
            j <= n,
            node.wf(),
            tree == node.tree(),
            id == node.id(),
            n == tree.children_of(id).len(),
            ctx.file_id == file_id,
            ctx.verbose == verbose,
            ctx.rule@ == rule_after(rules@, old(ctx).rule@),
            done + tree.preorder_from(id, j as int) == tree.preorder_from(id, 0),
            ctx.diagnostics.deep_view() == (before + here) + walk_findings(
                rules@,
                &tree,
                done,
                file_id,
                verbose,
            ),
        decreases n - j,
    {
        match node.child(j) {
            Some(c) => {
                run_subtree(rules, c, ctx);
                proof {
                    let sub = tree.preorder(c.id());
                    lemma_walk_concat(rules@, &tree, done, sub, file_id, verbose);
                    let x = walk_findings(rules@, &tree, done, file_id, verbose);
                    let y = walk_findings(rules@, &tree, sub, file_id, verbose);
                    assert(((before + here) + x) + y =~= (before + here) + (x + y));
                    assert((done + sub) + tree.preorder_from(id, j + 1) =~= done + (sub
                        + tree.preorder_from(id, j + 1)));
                    done = done + sub;
                }
            },
            None => {},
        }
        j = j + 1;
    }
    proof {
        assert(tree.preorder_from(id, n as int) =~= Seq::<int>::empty());
        assert(done + Seq::<int>::empty() =~= done);
        lemma_walk_one(rules@, &tree, id, file_id, verbose);
        lemma_walk_concat(rules@, &tree, seq![id], done, file_id, verbose);
        let x = walk_findings(rules@, &tree, done, file_id, verbose);
        assert((before + here) + x =~= before + (here + x));
    }
}

/// Runs the rules on every node of `tree`, in pre-order from the root, and
/// returns what they report, in the order in which it was reported.
pub fn run_rules(rules: &Vec<Box<dyn CstRule>>, tree: &SyntaxTree, file_id: usize, verbose: bool) -> (r:
    Vec<Diagnostic>)
    requires
        tree.wf(),
    ensures
        r.deep_view() == walk_findings(rules@, tree, tree.preorder(0), file_id, verbose),
{
    let mut ctx = RuleCtx::new(file_id, verbose);
    run_subtree(rules, tree.root(), &mut ctx);
    proof {
        let all = walk_findings(rules@, tree, tree.preorder(0), file_id, verbose);
        assert(Seq::<DiagnosticView>::empty() + all =~= all);
    }
    ctx.diagnostics
}

} // verus!
