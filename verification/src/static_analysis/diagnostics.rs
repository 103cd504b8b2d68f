//! Diagnostics and collections of them.

use crate::filtering::kept;
use crate::parser::ast::Span;
use crate::sorting::{
    ascending, lemma_sorted_ascending, lemma_sorted_permutes, sort, sorted, Ranked,
};
use crate::static_analysis::rules::{pointed_at, RuleViolation, Severity};
use vstd::prelude::*;

verus! {

/// A finding about a place in a source.
#[derive(Debug, Clone, PartialEq)]
pub struct Diagnostic {
    pub message: String,
    pub span: Span,
    pub severity: Severity,
    pub code: Option<String>,
    pub source: String,
    pub related_information: Vec<DiagnosticRelatedInformation>,
}

/// Another place that bears on a diagnostic.
#[derive(Debug, Clone, PartialEq)]
pub struct DiagnosticRelatedInformation {
    pub span: Span,
    pub message: String,
}

impl Diagnostic {
    /// The diagnostic that reports a rule violation: the violation's
    /// message, span and severity, the rule's id as code, and this
    /// library as source.
    pub fn from_violation(violation: RuleViolation) -> (d: Diagnostic)
        ensures
            d.message == violation.message,
            d.span == violation.span,
            d.severity == violation.severity,
            d.code == Some(violation.rule_id),
            d.source@ == "ifs-parser"@,
            d.related_information@.len() == 0,
    {
        Diagnostic {
            message: violation.message,
            span: violation.span,
            severity: violation.severity,
            code: Some(violation.rule_id),
            source: "ifs-parser".to_owned(),
            related_information: Vec::new(),
        }
    }
}

/// Orders diagnostics by the line, then the column, at which they start.
pub struct ByStart;

impl Ranked<ByStart> for Diagnostic {
    open spec fn precedes(&self, other: &Self) -> bool {
        self.span.start.line < other.span.start.line || (self.span.start.line
            == other.span.start.line && self.span.start.column < other.span.start.column)
    }

    fn is_before(&self, other: &Self) -> (b: bool) {
        self.span.start.line < other.span.start.line || (self.span.start.line
            == other.span.start.line && self.span.start.column < other.span.start.column)
    }
}

/// Ordering by start ranks by levels.
pub proof fn lemma_by_start_ranks()
    ensures
        crate::sorting::ranks_by_levels::<ByStart, Diagnostic>(),
{
}

/// The diagnostics of severity `severity`.
pub open spec fn of_severity(severity: Severity) -> spec_fn(Diagnostic) -> bool {
    |d: Diagnostic| d.severity == severity
}

/// The elements of `s` whose place in `choices` holds `true`.
pub open spec fn chosen<T>(s: Seq<T>, choices: Seq<bool>) -> Seq<T>
    decreases s.len(),
{
    if s.len() == 0 || choices.len() != s.len() {
        Seq::empty()
    } else if choices.last() {
        chosen(s.drop_last(), choices.drop_last()).push(s.last())
    } else {
        chosen(s.drop_last(), choices.drop_last())
    }
}

/// Diagnostics in the order in which they were added.
#[derive(Debug, Clone)]
pub struct DiagnosticCollection {
    diagnostics: Vec<Diagnostic>,
}

impl View for DiagnosticCollection {
    type V = Seq<Diagnostic>;

    closed spec fn view(&self) -> Seq<Diagnostic> {
        self.diagnostics@
    }
}

impl DiagnosticCollection {
    /// An empty collection.
    pub fn new() -> (r: DiagnosticCollection)
        ensures
            r@.len() == 0,
    {
        DiagnosticCollection { diagnostics: Vec::new() }
    }

    /// Adds a diagnostic at the end.
    pub fn add(&mut self, diagnostic: Diagnostic)
        ensures
            final(self)@ == old(self)@.push(diagnostic),
    {
        self.diagnostics.push(diagnostic);
    }

    /// Adds diagnostics at the end, in their order.
    pub fn add_all(&mut self, diagnostics: Vec<Diagnostic>)
        ensures
            final(self)@ == old(self)@ + diagnostics@,
    {
        let mut rest = diagnostics;
        self.diagnostics.append(&mut rest);
    }

    /// All diagnostics.
    pub fn all(&self) -> (r: &Vec<Diagnostic>)
        ensures
            r@ == self@,
    {
        &self.diagnostics
    }

    /// The diagnostics of severity `severity`, in their order.
    pub fn by_severity(&self, severity: Severity) -> (r: Vec<&Diagnostic>)
        ensures
            pointed_at(r@) == kept(self@, of_severity(severity)),
    {
        let mut out: Vec<&Diagnostic> = Vec::new();
        let mut i: usize = 0;
        assert(self.diagnostics@.take(0) =~= Seq::<Diagnostic>::empty());
        assert(pointed_at(out@) =~= kept(self.diagnostics@.take(0), of_severity(severity)));
        while i < self.diagnostics.len()
            invariant
                i <= self.diagnostics.len(),
                pointed_at(out@) == kept(self.diagnostics@.take(i as int), of_severity(severity)),
            decreases self.diagnostics.len() - i,
        {
            assert(self.diagnostics@.take(i + 1).drop_last() =~= self.diagnostics@.take(i as int));
            if self.diagnostics[i].severity == severity {
                let ghost before = pointed_at(out@);
                out.push(&self.diagnostics[i]);
                assert(pointed_at(out@) =~= before.push(self.diagnostics@[i as int]));
            }
            i += 1;
        }
        assert(self.diagnostics@.take(self.diagnostics@.len() as int) =~= self.diagnostics@);
        out
    }

    /// The number of errors.
    pub fn error_count(&self) -> (n: usize)
        ensures
            n == kept(self@, of_severity(Severity::Error)).len(),
    {
        let found = self.by_severity(Severity::Error);
        assert(pointed_at(found@).len() == found@.len());
        found.len()
    }

    /// The number of warnings.
    pub fn warning_count(&self) -> (n: usize)
        ensures
            n == kept(self@, of_severity(Severity::Warning)).len(),
    {
        let found = self.by_severity(Severity::Warning);
        assert(pointed_at(found@).len() == found@.len());
        found.len()
    }

    /// Whether the collection holds an error.
    pub fn has_errors(&self) -> (b: bool)
        ensures
            b == (kept(self@, of_severity(Severity::Error)).len() > 0),
    {
        self.error_count() > 0
    }

    /// Orders the diagnostics by the position at which they start;
    /// diagnostics that start at the same position keep their order.
    pub fn sort_by_position(&mut self)
        ensures
            final(self)@ == sorted::<ByStart, Diagnostic>(old(self)@),
            ascending::<ByStart, Diagnostic>(final(self)@),
            final(self)@.to_multiset() == old(self)@.to_multiset(),
    {
        let mut taken: Vec<Diagnostic> = Vec::new();
        std::mem::swap(&mut self.diagnostics, &mut taken);
        proof {
            lemma_by_start_ranks();
            lemma_sorted_ascending::<ByStart, Diagnostic>(taken@);
            lemma_sorted_permutes::<ByStart, Diagnostic>(taken@);
        }
        self.diagnostics = sort::<ByStart, Diagnostic>(taken);
    }

    /// The diagnostics that `predicate` accepts, in their order: there is a
    /// choice for every diagnostic that `predicate` may return for it, and
    /// the result holds the diagnostics chosen.
    pub fn filter<F>(&self, predicate: F) -> (r: Vec<&Diagnostic>) where F: Fn(&Diagnostic) -> bool
        requires
            forall|d: &Diagnostic| #[trigger] predicate.requires((d,)),
        ensures
            exists|choices: Seq<bool>|
                choices.len() == self@.len() && (forall|k: int|
                    0 <= k < self@.len() ==> predicate.ensures((&#[trigger] self@[k],), choices[k]))
                    && pointed_at(r@) == chosen(self@, choices),
    {
        let mut out: Vec<&Diagnostic> = Vec::new();
        let ghost mut choices: Seq<bool> = Seq::empty();
        let mut i: usize = 0;
        assert(self.diagnostics@.take(0) =~= Seq::<Diagnostic>::empty());
        assert(pointed_at(out@) =~= chosen(self.diagnostics@.take(0), choices));
        while i < self.diagnostics.len()
            invariant
                i <= self.diagnostics.len(),
                choices.len() == i,
                forall|d: &Diagnostic| #[trigger] predicate.requires((d,)),
                forall|k: int|
                    0 <= k < i ==> predicate.ensures((&#[trigger] self.diagnostics@[k],), choices[k]),
                pointed_at(out@) == chosen(self.diagnostics@.take(i as int), choices),
            decreases self.diagnostics.len() - i,
        {
            let d = &self.diagnostics[i];
            let accepted = predicate(d);
            let ghost before = pointed_at(out@);
            let ghost earlier = choices;
            proof {
                choices = choices.push(accepted);
                assert(self.diagnostics@.take(i + 1).drop_last() =~= self.diagnostics@.take(
                    i as int,
                ));
                assert(choices.drop_last() =~= earlier);
            }
            if accepted {
                out.push(d);
                assert(pointed_at(out@) =~= before.push(self.diagnostics@[i as int]));
            }
            i += 1;
        }
        proof {
            assert(self.diagnostics@.take(self.diagnostics@.len() as int) =~= self.diagnostics@);
            assert(choices.len() == self@.len());
            assert(forall|k: int|
                0 <= k < self@.len() ==> predicate.ensures((&#[trigger] self@[k],), choices[k]));
            assert(pointed_at(out@) == chosen(self@, choices));
        }
        out
    }
}

} // verus!
