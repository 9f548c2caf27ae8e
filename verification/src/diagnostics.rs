//! Findings: one lint match with its location, severity and message, and the
//! deterministic order in which findings are reported.

use vstd::prelude::*;
use crate::ast::Span;
use crate::text::{lex_lt, lemma_lex_asym, lemma_lex_irrefl, lemma_lex_total, lemma_lex_trans};

verus! {

/// How serious a finding is.
#[derive(Clone, Copy, Debug, PartialEq, Eq, Structural)]
pub enum Severity {
    Info,
    Warning,
    Error,
}

/// One lint rule match. Created by the matcher; only its severity may later
/// be replaced by the resolver's override map.
#[derive(Debug)]
pub struct Finding {
    pub rule_name: String,
    pub severity: Severity,
    pub span: Span,
    pub message: String,
}

/// The mathematical content of a finding, with strings as character
/// sequences. All engine contracts speak of findings through this view.
pub ghost struct FindingView {
    pub rule_name: Seq<char>,
    pub severity: Severity,
    pub span: Span,
    pub message: Seq<char>,
}

impl View for Finding {
    type V = FindingView;

    open spec fn view(&self) -> FindingView {
        FindingView {
            rule_name: self.rule_name@,
            severity: self.severity,
            span: self.span,
            message: self.message@,
        }
    }
}

impl DeepView for Finding {
    type V = FindingView;

    open spec fn deep_view(&self) -> FindingView {
        self.view()
    }
}

/// Two findings count as the same diagnostic: same rule and same span.
pub open spec fn fkey_eq(a: FindingView, b: FindingView) -> bool {
    a.rule_name == b.rule_name && a.span == b.span
}

/// The report order: by start position, then rule name, then end position.
/// On distinct keys it is total, so the sorted order is unique.
pub open spec fn fkey_lt(a: FindingView, b: FindingView) -> bool {
    if a.span.start_line != b.span.start_line {
        a.span.start_line < b.span.start_line
    } else if a.span.start_col != b.span.start_col {
        a.span.start_col < b.span.start_col
    } else if a.rule_name != b.rule_name {
        lex_lt(a.rule_name, b.rule_name)
    } else if a.span.end_line != b.span.end_line {
        a.span.end_line < b.span.end_line
    } else {
        a.span.end_col < b.span.end_col
    }
}

/// Keys are comparable or equal.
pub proof fn lemma_fkey_total(a: FindingView, b: FindingView)
    ensures
        fkey_lt(a, b) || fkey_lt(b, a) || fkey_eq(a, b),
{
    lemma_lex_total(a.rule_name, b.rule_name);
}

/// Strict order excludes key equality.
pub proof fn lemma_fkey_asym(a: FindingView, b: FindingView)
    ensures
        !(fkey_lt(a, b) && fkey_lt(b, a)),
        fkey_lt(a, b) ==> !fkey_eq(a, b),
{
    lemma_lex_asym(a.rule_name, b.rule_name);
    lemma_lex_irrefl(a.rule_name);
}

/// The order is transitive.
pub proof fn lemma_fkey_trans(a: FindingView, b: FindingView, c: FindingView)
    ensures
        fkey_lt(a, b) && fkey_lt(b, c) ==> fkey_lt(a, c),
{
    lemma_lex_trans(a.rule_name, b.rule_name, c.rule_name);
    lemma_lex_asym(a.rule_name, b.rule_name);
    lemma_lex_asym(b.rule_name, c.rule_name);
    lemma_lex_asym(a.rule_name, c.rule_name);
    lemma_lex_irrefl(a.rule_name);
    lemma_lex_irrefl(b.rule_name);
    lemma_lex_irrefl(c.rule_name);
}

/// Decides whether two findings are the same diagnostic.
pub fn fkey_eq_exec(a: &Finding, b: &Finding) -> (r: bool)
    ensures
        r == fkey_eq(a@, b@),
{
    crate::text::str_eq_str(a.rule_name.as_str(), b.rule_name.as_str()) && a.span == b.span
}

/// Decides the report order on two findings.
pub fn fkey_lt_exec(a: &Finding, b: &Finding) -> (r: bool)
    ensures
        r == fkey_lt(a@, b@),
{
    if a.span.start_line != b.span.start_line {
        return a.span.start_line < b.span.start_line;
    }
    if a.span.start_col != b.span.start_col {
        return a.span.start_col < b.span.start_col;
    }
    if !crate::text::str_eq_str(a.rule_name.as_str(), b.rule_name.as_str()) {
        return crate::text::str_lt(a.rule_name.as_str(), b.rule_name.as_str());
    }
    if a.span.end_line != b.span.end_line {
        return a.span.end_line < b.span.end_line;
    }
    a.span.end_col < b.span.end_col
}

/// A fresh finding equal in view to the given one.
pub fn copy_finding(f: &Finding) -> (r: Finding)
    ensures
        r@ == f@,
{
    Finding {
        rule_name: f.rule_name.clone(),
        severity: f.severity,
        span: f.span,
        message: f.message.clone(),
    }
}

} // verus!
