//! Structured reports of what is wrong with a piece of source.
//!
//! A diagnostic is built once and never changed afterwards. Its texts are
//! strings, so contracts speak of a diagnostic through its view, in which
//! every text is a sequence of characters.

pub mod order;

use vstd::prelude::*;
use crate::span::Span;

verus! {

/// The closed set of things a diagnostic can report.
#[derive(Clone, Copy, Debug, PartialEq, Eq, Structural, Hash)]
pub enum DiagnosticKind {
    /// The source holds bytes that form no token.
    MalformedToken,
    /// A token that cannot start an expression stands where one is needed.
    ExpectedExpression,
    /// A `(` or `[` is never closed.
    UnterminatedGroup,
    /// A `.` is not followed by a property name.
    ExpectedIdentifier,
    /// The operand of `++` or `--` cannot be assigned to.
    InvalidTargetExpression,
    /// `delete` is applied to a bare identifier in strict mode.
    IdentifierDeletion,
    /// An analysis rule found something.
    RuleViolation,
}

/// A span with a text that explains it.
#[derive(Clone, Debug, PartialEq, Eq, Hash)]
pub struct Label {
    pub span: Span,
    pub message: String,
}

pub struct LabelView {
    pub span: Span,
    pub message: Seq<char>,
}

impl View for Label {
    type V = LabelView;

    open spec fn view(&self) -> LabelView {
        LabelView { span: self.span, message: self.message@ }
    }
}

impl DeepView for Label {
    type V = LabelView;

    open spec fn deep_view(&self) -> LabelView {
        self@
    }
}

/// A report: what kind of problem, where, and what to do about it.
#[derive(Clone, Debug, PartialEq, Eq, Hash)]
pub struct Diagnostic {
    pub kind: DiagnosticKind,
    /// The file the spans point into.
    pub file_id: usize,
    /// The name of the rule that reported it; `None` for the parser.
    pub rule: Option<String>,
    pub title: String,
    pub primary: Option<Label>,
    pub secondary: Vec<Label>,
    pub help: Option<String>,
}

/// The diagnostics the parser itself returns or collects.
pub type ParserDiagnostic = Diagnostic;

pub struct DiagnosticView {
    pub kind: DiagnosticKind,
    pub file_id: usize,
    pub rule: Option<Seq<char>>,
    pub title: Seq<char>,
    pub primary: Option<LabelView>,
    pub secondary: Seq<LabelView>,
    pub help: Option<Seq<char>>,
}

impl DiagnosticView {
    /// A diagnostic that has a title and nothing else yet.
    pub open spec fn bare(
        kind: DiagnosticKind,
        file_id: usize,
        rule: Option<Seq<char>>,
        title: Seq<char>,
    ) -> DiagnosticView {
        DiagnosticView {
            kind,
            file_id,
            rule,
            title,
            primary: None,
            secondary: Seq::empty(),
            help: None,
        }
    }

    pub open spec fn with_primary(self, span: Span, message: Seq<char>) -> DiagnosticView {
        DiagnosticView { primary: Some(LabelView { span, message }), ..self }
    }

    pub open spec fn with_secondary(self, span: Span, message: Seq<char>) -> DiagnosticView {
        DiagnosticView { secondary: self.secondary.push(LabelView { span, message }), ..self }
    }

    pub open spec fn with_help(self, message: Seq<char>) -> DiagnosticView {
        DiagnosticView { help: Some(message), ..self }
    }

    /// Where the diagnostic points: the start of its primary span, or the
    /// start of the file when it has none.
    pub open spec fn primary_start(self) -> nat {
        match self.primary {
            Some(l) => l.span.start as nat,
            None => 0,
        }
    }
}

impl View for Diagnostic {
    type V = DiagnosticView;

    open spec fn view(&self) -> DiagnosticView {
        DiagnosticView {
            kind: self.kind,
            file_id: self.file_id,
            rule: match self.rule {
                Some(r) => Some(r@),
                None => None,
            },
            title: self.title@,
            primary: match self.primary {
                Some(l) => Some(l@),
                None => None,
            },
            secondary: self.secondary.deep_view(),
            help: match self.help {
                Some(h) => Some(h@),
                None => None,
            },
        }
    }
}

impl DeepView for Diagnostic {
    type V = DiagnosticView;

    open spec fn deep_view(&self) -> DiagnosticView {
        self@
    }
}

/// Pushing onto a vector of diagnostics pushes the view.
pub proof fn lemma_deep_view_push<T: DeepView>(s: Seq<T>, pushed: Seq<T>, x: T)
    requires
        pushed == s.push(x),
    ensures
        Seq::new(pushed.len(), |i: int| pushed[i].deep_view()) == Seq::new(
            s.len(),
            |i: int| s[i].deep_view(),
        ).push(x.deep_view()),
{
    assert(Seq::new(pushed.len(), |i: int| pushed[i].deep_view()) =~= Seq::new(
        s.len(),
        |i: int| s[i].deep_view(),
    ).push(x.deep_view()));
}

impl Diagnostic {
    /// A diagnostic of the parser with a title and nothing else yet.
    pub fn error(kind: DiagnosticKind, file_id: usize, title: &str) -> (d: Diagnostic)
        ensures
            d@ == DiagnosticView::bare(kind, file_id, None, title@),
    {
        let d = Diagnostic {
            kind,
            file_id,
            rule: None,
            title: title.to_owned(),
            primary: None,
            secondary: Vec::new(),
            help: None,
        };
        assert(d.secondary.deep_view() =~= Seq::empty());
        d
    }

    /// A diagnostic that the rule called `rule` reports.
    pub fn for_rule(file_id: usize, rule: &str, title: &str) -> (d: Diagnostic)
        ensures
            d@ == DiagnosticView::bare(
                DiagnosticKind::RuleViolation,
                file_id,
                Some(rule@),
                title@,
            ),
    {
        let d = Diagnostic {
            kind: DiagnosticKind::RuleViolation,
            file_id,
            rule: Some(rule.to_owned()),
            title: title.to_owned(),
            primary: None,
            secondary: Vec::new(),
            help: None,
        };
        assert(d.secondary.deep_view() =~= Seq::empty());
        d
    }

    /// Sets the primary label.
    pub fn primary(self, span: Span, message: &str) -> (d: Diagnostic)
        ensures
            d@ == self@.with_primary(span, message@),
    {
        Diagnostic {
            kind: self.kind,
            file_id: self.file_id,
            rule: self.rule,
            title: self.title,
            primary: Some(Label { span, message: message.to_owned() }),
            secondary: self.secondary,
            help: self.help,
        }
    }

    /// Adds a secondary label behind those already there.
    pub fn secondary(self, span: Span, message: &str) -> (d: Diagnostic)
        ensures
            d@ == self@.with_secondary(span, message@),
    {
        let ghost before = self.secondary@;
        let label = Label { span, message: message.to_owned() };
        let mut labels = self.secondary;
        labels.push(label);
        proof {
            lemma_deep_view_push(before, labels@, label);
        }
        Diagnostic {
            kind: self.kind,
            file_id: self.file_id,
            rule: self.rule,
            title: self.title,
            primary: self.primary,
            secondary: labels,
            help: self.help,
        }
    }

    /// Sets the help text.
    pub fn help(self, message: &str) -> (d: Diagnostic)
        ensures
            d@ == self@.with_help(message@),
    {
        Diagnostic {
            kind: self.kind,
            file_id: self.file_id,
            rule: self.rule,
            title: self.title,
            primary: self.primary,
            secondary: self.secondary,
            help: Some(message.to_owned()),
        }
    }

    /// The offset by which diagnostics are ordered for presentation.
    pub fn primary_start(&self) -> (n: usize)
        ensures
            n == self@.primary_start(),
    {
        match &self.primary {
            Some(l) => l.span.start,
            None => 0,
        }
    }
}

} // verus!
