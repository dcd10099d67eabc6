use rslint::diagnostic::order::sort_for_presentation;
use rslint::diagnostic::{Diagnostic, DiagnosticKind};
use rslint::groups::errors::no_extra_semi::{is_allowed_parent, NoExtraSemi};
use rslint::rule::{check_rules, run_rules, run_subtree, CstRule, RuleCtx};
use rslint::span::Span;
use rslint::syntax::{SyntaxKind, SyntaxNode, SyntaxTree};

/// A rule that reports every node of one kind, to see where the walk goes.
struct Mark {
    kind: SyntaxKind,
    label: &'static str,
}

impl CstRule for Mark {
    fn name(&self) -> &'static str {
        "mark"
    }

    fn check_node(&self, node: &SyntaxNode, ctx: &mut RuleCtx) -> Option<()> {
        if node.kind() != self.kind {
            return None;
        }
        let d = ctx
            .err(self.name(), self.label)
            .primary(node.text_range(), "here");
        ctx.add_err(d);
        Some(())
    }
}

/// A rule that reports every node at all.
struct Trace;

impl CstRule for Trace {
    fn name(&self) -> &'static str {
        "trace"
    }

    fn check_node(&self, node: &SyntaxNode, ctx: &mut RuleCtx) -> Option<()> {
        let d = ctx.err_here("visited").primary(node.text_range(), "here");
        ctx.add_err(d);
        None
    }
}

fn no_extra_semi() -> Vec<Box<dyn CstRule>> {
    vec![Box::new(NoExtraSemi::default())]
}

/// `;`
fn bare_semicolon() -> SyntaxTree {
    let mut tree = SyntaxTree::new(SyntaxKind::SCRIPT, Span::new(0, 1));
    tree.add_child(0, SyntaxKind::EMPTY_STMT, Span::new(0, 1)).unwrap();
    tree
}

/// `if (foo) { ; }`
fn semicolon_in_if_block() -> SyntaxTree {
    let mut tree = SyntaxTree::new(SyntaxKind::SCRIPT, Span::new(0, 14));
    let stmt = tree.add_child(0, SyntaxKind::IF_STMT, Span::new(0, 14)).unwrap();
    let cond = tree.add_child(stmt, SyntaxKind::CONDITION, Span::new(3, 8)).unwrap();
    tree.add_child(cond, SyntaxKind::NAME_REF, Span::new(4, 7)).unwrap();
    let block = tree.add_child(stmt, SyntaxKind::BLOCK_STMT, Span::new(9, 14)).unwrap();
    tree.add_child(block, SyntaxKind::EMPTY_STMT, Span::new(11, 12)).unwrap();
    tree
}

/// `for(;;);`
fn empty_for_body() -> SyntaxTree {
    let mut tree = SyntaxTree::new(SyntaxKind::SCRIPT, Span::new(0, 8));
    let stmt = tree.add_child(0, SyntaxKind::FOR_STMT, Span::new(0, 8)).unwrap();
    tree.add_child(stmt, SyntaxKind::EMPTY_STMT, Span::new(7, 8)).unwrap();
    tree
}

#[test]
fn bare_semicolon_is_reported() {
    let found = run_rules(&no_extra_semi(), &bare_semicolon(), 2, false);
    assert_eq!(found.len(), 1);
    let d = &found[0];
    assert_eq!(d.kind, DiagnosticKind::RuleViolation);
    assert_eq!(d.file_id, 2);
    assert_eq!(d.rule.as_deref(), Some("no-extra-semi"));
    assert_eq!(d.title, "Unnecessary semicolon");
    let primary = d.primary.as_ref().unwrap();
    assert_eq!(primary.span, Span::new(0, 1));
    assert_eq!(primary.message, "help: delete this semicolon");
    assert!(d.secondary.is_empty());
    assert_eq!(d.help, None);
}

#[test]
fn semicolon_in_if_block_is_reported() {
    let found = run_rules(&no_extra_semi(), &semicolon_in_if_block(), 0, false);
    assert_eq!(found.len(), 1);
    assert_eq!(found[0].primary.as_ref().unwrap().span, Span::new(11, 12));
}

#[test]
fn empty_for_body_is_not_reported() {
    let found = run_rules(&no_extra_semi(), &empty_for_body(), 0, false);
    assert!(found.is_empty());
}

#[test]
fn semicolons_in_classes_are_reported() {
    // class Foo { ; }
    let mut tree = SyntaxTree::new(SyntaxKind::SCRIPT, Span::new(0, 15));
    let class = tree.add_child(0, SyntaxKind::CLASS_DECL, Span::new(0, 15)).unwrap();
    tree.add_child(class, SyntaxKind::NAME, Span::new(6, 9)).unwrap();
    let body = tree.add_child(class, SyntaxKind::CLASS_BODY, Span::new(10, 15)).unwrap();
    tree.add_child(body, SyntaxKind::EMPTY_STMT, Span::new(12, 13)).unwrap();
    assert_eq!(run_rules(&no_extra_semi(), &tree, 0, false).len(), 1);

    // class Foo {}
    let mut tree = SyntaxTree::new(SyntaxKind::SCRIPT, Span::new(0, 12));
    let class = tree.add_child(0, SyntaxKind::CLASS_DECL, Span::new(0, 12)).unwrap();
    tree.add_child(class, SyntaxKind::NAME, Span::new(6, 9)).unwrap();
    tree.add_child(class, SyntaxKind::CLASS_BODY, Span::new(10, 12)).unwrap();
    assert!(run_rules(&no_extra_semi(), &tree, 0, false).is_empty());
}

#[test]
fn every_allowed_parent() {
    let allowed = [
        SyntaxKind::FOR_STMT,
        SyntaxKind::FOR_IN_STMT,
        SyntaxKind::FOR_OF_STMT,
        SyntaxKind::WHILE_STMT,
        SyntaxKind::DO_WHILE_STMT,
        SyntaxKind::IF_STMT,
        SyntaxKind::LABELLED_STMT,
        SyntaxKind::WITH_STMT,
    ];
    for kind in allowed {
        assert!(is_allowed_parent(kind));
        let mut tree = SyntaxTree::new(kind, Span::new(0, 5));
        tree.add_child(0, SyntaxKind::EMPTY_STMT, Span::new(4, 5)).unwrap();
        assert!(run_rules(&no_extra_semi(), &tree, 0, false).is_empty());
    }
    let others = [
        SyntaxKind::SCRIPT,
        SyntaxKind::MODULE,
        SyntaxKind::BLOCK_STMT,
        SyntaxKind::EMPTY_STMT,
        SyntaxKind::CLASS_BODY,
        SyntaxKind::FN_DECL,
    ];
    for kind in others {
        assert!(!is_allowed_parent(kind));
        let mut tree = SyntaxTree::new(kind, Span::new(0, 5));
        tree.add_child(0, SyntaxKind::EMPTY_STMT, Span::new(4, 5)).unwrap();
        let expected = if kind == SyntaxKind::EMPTY_STMT { 2 } else { 1 };
        assert_eq!(run_rules(&no_extra_semi(), &tree, 0, false).len(), expected);
    }
}

#[test]
fn an_empty_statement_without_parent_is_reported() {
    let tree = SyntaxTree::new(SyntaxKind::EMPTY_STMT, Span::new(0, 1));
    assert_eq!(run_rules(&no_extra_semi(), &tree, 0, false).len(), 1);
}

#[test]
fn the_rule_has_a_name() {
    assert_eq!(NoExtraSemi::default().name(), "no-extra-semi");
}

#[test]
fn the_rule_adds_behind_what_is_there() {
    let tree = bare_semicolon();
    let mut ctx = RuleCtx::new(5, true);
    ctx.add_err(Diagnostic::error(DiagnosticKind::ExpectedExpression, 5, "earlier"));
    let r = NoExtraSemi::default().check_node(&tree.node(1).unwrap(), &mut ctx);
    assert_eq!(r, None);
    assert_eq!(ctx.diagnostics.len(), 2);
    assert_eq!(ctx.diagnostics[0].title, "earlier");
    assert_eq!(ctx.diagnostics[1].title, "Unnecessary semicolon");
    assert_eq!(ctx.file_id, 5);
    assert!(ctx.verbose);
    NoExtraSemi::default().check_node(&tree.root(), &mut ctx);
    assert_eq!(ctx.diagnostics.len(), 2);
}

/// SCRIPT(0..20) [ BLOCK(0..10) [ EMPTY(1..2), BLOCK(3..9) [ EMPTY(4..5) ] ],
///                 EMPTY(12..13), IF(14..20) [ EMPTY(19..20) ] ]
/// The nodes are added level by level, so their indices are not in
/// pre-order.
fn bushy() -> SyntaxTree {
    let mut tree = SyntaxTree::new(SyntaxKind::SCRIPT, Span::new(0, 20));
    let block = tree.add_child(0, SyntaxKind::BLOCK_STMT, Span::new(0, 10)).unwrap();
    tree.add_child(0, SyntaxKind::EMPTY_STMT, Span::new(12, 13)).unwrap();
    let stmt = tree.add_child(0, SyntaxKind::IF_STMT, Span::new(14, 20)).unwrap();
    tree.add_child(block, SyntaxKind::EMPTY_STMT, Span::new(1, 2)).unwrap();
    let inner = tree.add_child(block, SyntaxKind::BLOCK_STMT, Span::new(3, 9)).unwrap();
    tree.add_child(stmt, SyntaxKind::EMPTY_STMT, Span::new(19, 20)).unwrap();
    tree.add_child(inner, SyntaxKind::EMPTY_STMT, Span::new(4, 5)).unwrap();
    tree
}

fn starts(found: &[Diagnostic]) -> Vec<usize> {
    found
        .iter()
        .map(|d| d.primary.as_ref().unwrap().span.start)
        .collect()
}

#[test]
fn the_walk_is_in_pre_order_and_sees_every_node_once() {
    let tree = bushy();
    let rules: Vec<Box<dyn CstRule>> = vec![Box::new(Trace)];
    let found = run_rules(&rules, &tree, 0, false);
    let spans: Vec<(usize, usize)> = found
        .iter()
        .map(|d| {
            let s = d.primary.as_ref().unwrap().span;
            (s.start, s.end)
        })
        .collect();
    assert_eq!(
        spans,
        vec![
            (0, 20),
            (0, 10),
            (1, 2),
            (3, 9),
            (4, 5),
            (12, 13),
            (14, 20),
            (19, 20)
        ]
    );
    assert_eq!(found.len(), tree.len());
}

#[test]
fn findings_come_in_the_order_of_the_walk() {
    let found = run_rules(&no_extra_semi(), &bushy(), 0, false);
    assert_eq!(starts(&found), vec![1, 4, 12]);
}

#[test]
fn rules_do_not_disturb_each_other() {
    let tree = bushy();
    let first: Vec<Box<dyn CstRule>> = vec![Box::new(NoExtraSemi::default())];
    let second: Vec<Box<dyn CstRule>> = vec![Box::new(Mark {
        kind: SyntaxKind::EMPTY_STMT,
        label: "empty statement",
    })];
    let both: Vec<Box<dyn CstRule>> = vec![
        Box::new(NoExtraSemi::default()),
        Box::new(Mark {
            kind: SyntaxKind::EMPTY_STMT,
            label: "empty statement",
        }),
    ];
    let alone_first = run_rules(&first, &tree, 0, false);
    let alone_second = run_rules(&second, &tree, 0, false);
    let together = run_rules(&both, &tree, 0, false);
    assert_eq!(alone_first.len(), 3);
    assert_eq!(alone_second.len(), 4);
    assert_eq!(together.len(), 7);
    // Each rule's findings are there, in its own order.
    let of_first: Vec<Diagnostic> = together
        .iter()
        .filter(|d| d.rule.as_deref() == Some("no-extra-semi"))
        .cloned()
        .collect();
    let of_second: Vec<Diagnostic> = together
        .iter()
        .filter(|d| d.rule.as_deref() == Some("mark"))
        .cloned()
        .collect();
    assert_eq!(of_first, alone_first);
    assert_eq!(of_second, alone_second);
    // On one node the rules report in the order in which they are registered.
    assert_eq!(together[0].rule.as_deref(), Some("no-extra-semi"));
    assert_eq!(together[1].rule.as_deref(), Some("mark"));
    assert_eq!(together[0].primary, alone_first[0].primary);
}

#[test]
fn a_rule_that_stops_early_does_not_stop_the_others() {
    let tree = bare_semicolon();
    // `Mark` returns `None` on the root, `Trace` returns `None` always.
    let rules: Vec<Box<dyn CstRule>> = vec![
        Box::new(Mark {
            kind: SyntaxKind::EMPTY_STMT,
            label: "empty statement",
        }),
        Box::new(Trace),
        Box::new(NoExtraSemi::default()),
    ];
    let found = run_rules(&rules, &tree, 0, false);
    let names: Vec<&str> = found.iter().map(|d| d.rule.as_deref().unwrap()).collect();
    assert_eq!(names, vec!["trace", "mark", "trace", "no-extra-semi"]);
}

#[test]
fn the_context_names_the_rule_that_runs() {
    let tree = bare_semicolon();
    let rules: Vec<Box<dyn CstRule>> = vec![Box::new(NoExtraSemi::default()), Box::new(Trace)];
    let mut ctx = RuleCtx::new(0, false);
    assert_eq!(ctx.rule, "");
    check_rules(&rules, &tree.root(), &mut ctx);
    assert_eq!(ctx.rule, "trace");
    assert_eq!(ctx.diagnostics.len(), 1);
    assert_eq!(ctx.diagnostics[0].rule.as_deref(), Some("trace"));
    let none: Vec<Box<dyn CstRule>> = Vec::new();
    let mut ctx = RuleCtx::new(0, false);
    run_subtree(&none, tree.root(), &mut ctx);
    assert_eq!(ctx.rule, "");
}

#[test]
fn no_rules_no_findings() {
    let rules: Vec<Box<dyn CstRule>> = Vec::new();
    assert!(run_rules(&rules, &bushy(), 0, false).is_empty());
}

#[test]
fn one_node_and_one_subtree() {
    let tree = bushy();
    let rules: Vec<Box<dyn CstRule>> = vec![Box::new(Trace)];
    let mut ctx = RuleCtx::new(0, false);
    check_rules(&rules, &tree.node(1).unwrap(), &mut ctx);
    assert_eq!(starts(&ctx.diagnostics), vec![0]);
    let mut ctx = RuleCtx::new(0, false);
    run_subtree(&rules, tree.node(1).unwrap(), &mut ctx);
    assert_eq!(starts(&ctx.diagnostics), vec![0, 1, 3, 4]);
}

#[test]
fn building_a_tree() {
    let mut tree = SyntaxTree::new(SyntaxKind::MODULE, Span::new(0, 9));
    assert_eq!(tree.len(), 1);
    assert_eq!(tree.add_child(1, SyntaxKind::NAME, Span::new(0, 1)), None);
    assert_eq!(tree.len(), 1);
    assert_eq!(tree.add_child(0, SyntaxKind::EXPR_STMT, Span::new(0, 4)), Some(1));
    assert_eq!(tree.add_child(0, SyntaxKind::EXPR_STMT, Span::new(5, 9)), Some(2));
    assert_eq!(tree.add_child(1, SyntaxKind::NAME_REF, Span::new(0, 3)), Some(3));
    assert_eq!(tree.len(), 4);

    let root = tree.root();
    assert_eq!(root.index(), 0);
    assert_eq!(root.kind(), SyntaxKind::MODULE);
    assert_eq!(root.text_range(), Span::new(0, 9));
    assert!(root.parent().is_none());
    assert_eq!(root.child_count(), 2);
    assert_eq!(root.child(0).unwrap().index(), 1);
    assert_eq!(root.child(1).unwrap().index(), 2);
    assert!(root.child(2).is_none());

    let leaf = tree.node(3).unwrap();
    assert_eq!(leaf.kind(), SyntaxKind::NAME_REF);
    assert_eq!(leaf.text_range(), Span::new(0, 3));
    assert_eq!(leaf.child_count(), 0);
    let parent = leaf.parent().unwrap();
    assert_eq!(parent.index(), 1);
    assert_eq!(parent.kind(), SyntaxKind::EXPR_STMT);
    assert_eq!(parent.parent().unwrap().index(), 0);
    assert!(tree.node(4).is_none());
}

#[test]
fn building_a_diagnostic() {
    let d = Diagnostic::error(DiagnosticKind::ExpectedExpression, 1, "title");
    assert_eq!(d.kind, DiagnosticKind::ExpectedExpression);
    assert_eq!(d.file_id, 1);
    assert_eq!(d.rule, None);
    assert_eq!(d.title, "title");
    assert_eq!(d.primary, None);
    assert!(d.secondary.is_empty());
    assert_eq!(d.help, None);
    assert_eq!(d.primary_start(), 0);

    let d = d
        .secondary(Span::new(1, 2), "first")
        .primary(Span::new(7, 9), "main")
        .secondary(Span::new(3, 4), "second")
        .help("do this");
    assert_eq!(d.title, "title");
    assert_eq!(d.primary.as_ref().unwrap().span, Span::new(7, 9));
    assert_eq!(d.primary.as_ref().unwrap().message, "main");
    assert_eq!(d.secondary.len(), 2);
    assert_eq!(d.secondary[0].span, Span::new(1, 2));
    assert_eq!(d.secondary[0].message, "first");
    assert_eq!(d.secondary[1].span, Span::new(3, 4));
    assert_eq!(d.secondary[1].message, "second");
    assert_eq!(d.help.as_deref(), Some("do this"));
    assert_eq!(d.primary_start(), 7);

    let d = d.primary(Span::new(2, 3), "other");
    assert_eq!(d.primary.as_ref().unwrap().span, Span::new(2, 3));
    assert_eq!(d.secondary.len(), 2);

    let r = Diagnostic::for_rule(4, "some-rule", "found");
    assert_eq!(r.kind, DiagnosticKind::RuleViolation);
    assert_eq!(r.file_id, 4);
    assert_eq!(r.rule.as_deref(), Some("some-rule"));
    assert_eq!(r.title, "found");

    let ctx = RuleCtx::new(6, false);
    let e = ctx.err("a-rule", "text");
    assert_eq!(e, Diagnostic::for_rule(6, "a-rule", "text"));
}

fn at(start: usize, title: &str) -> Diagnostic {
    Diagnostic::error(DiagnosticKind::RuleViolation, 0, title).primary(Span::new(start, start + 1), "")
}

#[test]
fn presentation_is_by_offset_and_stable() {
    let reported = vec![
        at(5, "a"),
        at(2, "b"),
        at(5, "c"),
        Diagnostic::error(DiagnosticKind::RuleViolation, 0, "d"),
        at(2, "e"),
        at(9, "f"),
        at(0, "g"),
        at(5, "h"),
    ];
    let sorted = sort_for_presentation(reported);
    let titles: Vec<&str> = sorted.iter().map(|d| d.title.as_str()).collect();
    assert_eq!(titles, vec!["d", "g", "b", "e", "a", "c", "h", "f"]);
    let keys: Vec<usize> = sorted.iter().map(|d| d.primary_start()).collect();
    assert_eq!(keys, vec![0, 0, 2, 2, 5, 5, 5, 9]);
}

#[test]
fn presentation_of_few() {
    assert!(sort_for_presentation(Vec::new()).is_empty());
    let one = sort_for_presentation(vec![at(3, "x")]);
    assert_eq!(one, vec![at(3, "x")]);
    let sorted = sort_for_presentation(vec![at(1, "x"), at(2, "y"), at(3, "z")]);
    assert_eq!(sorted, vec![at(1, "x"), at(2, "y"), at(3, "z")]);
    let reversed = sort_for_presentation(vec![at(3, "z"), at(2, "y"), at(1, "x")]);
    assert_eq!(reversed, vec![at(1, "x"), at(2, "y"), at(3, "z")]);
}

#[test]
fn parser_diagnostics_in_presentation_order() {
    // The operand's diagnostic is collected first, though it lies behind
    // the outer operator's target in the source.
    let mut parser = rslint::parser::Parser::with_source("(--5)++", 0, true).unwrap();
    parser.parse_unary_expr(None).unwrap();
    assert_eq!(starts(&parser.errors), vec![3, 0]);
    let sorted = sort_for_presentation(parser.errors);
    assert_eq!(starts(&sorted), vec![0, 3]);
}
