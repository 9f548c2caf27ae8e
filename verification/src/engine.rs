//! The run itself: rule selection, the per-file pipeline (scan, aggregate,
//! resolve), and the deterministic merge of per-file reports by path. Each
//! file's pipeline depends only on its own tree and the shared read-only
//! rules and configuration, so files may be analyzed in any order — the
//! merge buffers and orders the reports regardless of completion order.

use vstd::prelude::*;
use vstd::string::StringExecFns;
use crate::aggregate::{aggregate, aggregate_spec, distinct_keys, lemma_aggregate_props};
use crate::ast::{AstNode, Span, pos_le};
use crate::diagnostics::{Finding, FindingView, Severity};
use crate::matcher::{scan, scan_spec};
use crate::resolve::{
    DirectiveView,
    SeverityOverride,
    SuppressionDirective,
    lemma_resolve_preserves_distinct,
    name_in,
    resolve,
    resolve_spec,
};
use crate::rules::{LintError, Rule, RuleRegistry, RuleView, copy_rule};
use crate::text::{lex_lt, str_lt};

verus! {

/// A run's configuration: which rules are enabled (absent means all),
/// severity overrides by rule name, and suppression directives.
pub struct Config {
    pub enabled_rules: Option<Vec<String>>,
    pub severity_overrides: Vec<SeverityOverride>,
    pub suppression_directives: Vec<SuppressionDirective>,
}

/// The mathematical content of a configuration.
pub ghost struct ConfigView {
    pub enabled_rules: Option<Seq<Seq<char>>>,
    pub severity_overrides: Seq<crate::resolve::OverrideView>,
    pub suppression_directives: Seq<DirectiveView>,
}

impl View for Config {
    type V = ConfigView;

    open spec fn view(&self) -> ConfigView {
        ConfigView {
            enabled_rules: self.enabled_rules.deep_view(),
            severity_overrides: self.severity_overrides.deep_view(),
            suppression_directives: self.suppression_directives.deep_view(),
        }
    }
}

/// A rule is enabled unless the configuration names a set of enabled rules
/// that leaves it out.
pub open spec fn rule_enabled(cv: ConfigView, name: Seq<char>) -> bool {
    match cv.enabled_rules {
        Option::None => true,
        Option::Some(names) => name_in(names, name),
    }
}

/// The enabled rules, in registration order.
pub open spec fn enabled_rules_spec(rules: Seq<RuleView>, cv: ConfigView) -> Seq<RuleView>
    decreases rules.len(),
{
    if rules.len() == 0 {
        Seq::empty()
    } else {
        enabled_rules_spec(rules.drop_last(), cv) + (if rule_enabled(cv, rules.last().name) {
            seq![rules.last()]
        } else {
            Seq::empty()
        })
    }
}

/// Hands out the rules not explicitly disabled, in registration order, so
/// that diagnostic ordering is reproducible across runs.
pub fn get_enabled_rules(registry: &RuleRegistry, config: &Config) -> (out: Vec<Rule>)
    ensures
        out.deep_view() == enabled_rules_spec(registry.rules_seq(), config@),
{
    let ghost rsq = registry.rules_seq();
    let n = registry.rule_count();
    let mut out: Vec<Rule> = Vec::new();
    proof {
        assert(rsq.take(0) =~= Seq::<RuleView>::empty());
        assert(out.deep_view() =~= enabled_rules_spec(rsq.take(0), config@));
    }
    let mut i: usize = 0;
    while i < n
        invariant
            i <= n,
            n == rsq.len(),
            rsq == registry.rules_seq(),
            out.deep_view() == enabled_rules_spec(rsq.take(i as int), config@),
        decreases n - i,
    {
        let r = registry.rule_at(i);
        let on = match &config.enabled_rules {
            Option::None => true,
            Option::Some(names) => {
                let m = names.len();
                let mut k: usize = 0;
                let mut found = false;
                while k < m
                    invariant
                        k <= m,
                        m == names@.len(),
                        r@ == rsq[i as int],
                        found ==> name_in(names.deep_view(), r@.name),
                        !found ==> forall|q: int| 0 <= q < k ==> names.deep_view()[q] != r@.name,
                    decreases m - k,
                {
                    if crate::text::str_eq_str(names[k].as_str(), r.name.as_str()) {
                        proof {
                            assert(names.deep_view()[k as int] == r@.name);
                        }
                        found = true;
                    }
                    k = k + 1;
                }
                found
            },
        };
        proof {
            assert(on == rule_enabled(config@, rsq[i as int].name));
        }
        if on {
            let ghost pre = out;
            let rc = copy_rule(r);
            out.push(rc);
            proof {
                crate::views::lemma_push_deep_view(pre, out, rc);
            }
        }
        proof {
            assert(rsq.take(i + 1).drop_last() =~= rsq.take(i as int));
            assert(rsq.take(i + 1).last() == rsq[i as int]);
            assert(out.deep_view() =~= enabled_rules_spec(rsq.take(i + 1), config@));
        }
        i = i + 1;
    }
    proof {
        assert(rsq.take(n as int) =~= rsq);
    }
    out
}

/// A span that does not end before it starts.
pub open spec fn span_wf(s: Span) -> bool {
    pos_le(s.start_line, s.start_col, s.end_line, s.end_col)
}

/// A well-formed configuration: every suppression span is ordered, and no
/// rule name is overridden twice.
pub open spec fn config_wf(cv: ConfigView) -> bool {
    (forall|i: int|
        0 <= i < cv.suppression_directives.len() ==> span_wf(
            #[trigger] cv.suppression_directives[i].span,
        )) && (forall|i: int, j: int|
        0 <= i < j < cv.severity_overrides.len() ==> cv.severity_overrides[i].rule_name
            != cv.severity_overrides[j].rule_name)
}

/// Checks the configuration before any file is scanned. Fails exactly on a
/// malformed configuration: a suppression span that ends before it starts,
/// or two overrides for one rule name.
pub fn validate_config(config: &Config) -> (r: Result<(), LintError>)
    ensures
        match r {
            Ok(()) => config_wf(config@),
            Err(e) => !config_wf(config@) && (match e {
                LintError::BadConfig { reason } => true,
                _ => false,
            }),
        },
{
    let nd = config.suppression_directives.len();
    let mut i: usize = 0;
    while i < nd
        invariant
            i <= nd,
            nd == config.suppression_directives@.len(),
            forall|j: int|
                0 <= j < i ==> span_wf(#[trigger] config@.suppression_directives[j].span),
        decreases nd - i,
    {
        let s = &config.suppression_directives[i].span;
        let ok = s.start_line < s.end_line || (s.start_line == s.end_line && s.start_col
            <= s.end_col);
        if !ok {
            proof {
                assert(!span_wf(config@.suppression_directives[i as int].span));
            }
            return Err(
                LintError::BadConfig {
                    reason: String::from_str("suppression span ends before it starts"),
                },
            );
        }
        i = i + 1;
    }
    let no = config.severity_overrides.len();
    let mut a: usize = 0;
    while a < no
        invariant
            a <= no,
            no == config.severity_overrides@.len(),
            forall|j: int|
                0 <= j < config@.suppression_directives.len() ==> span_wf(
                    #[trigger] config@.suppression_directives[j].span,
                ),
            forall|x: int, y: int|
                0 <= x < y < no && x < a ==> config@.severity_overrides[x].rule_name
                    != config@.severity_overrides[y].rule_name,
        decreases no - a,
    {
        let mut b: usize = a + 1;
        while b < no
            invariant
                a < b <= no || (a + 1 == b && b > no),
                a < no,
                no == config.severity_overrides@.len(),
                forall|y: int|
                    a < y < b ==> config@.severity_overrides[a as int].rule_name
                        != config@.severity_overrides[y].rule_name,
            decreases no - b,
        {
            if crate::text::str_eq_str(
                config.severity_overrides[a].rule_name.as_str(),
                config.severity_overrides[b].rule_name.as_str(),
            ) {
                proof {
                    assert(config@.severity_overrides[a as int].rule_name
                        == config@.severity_overrides[b as int].rule_name);
                }
                return Err(
                    LintError::BadConfig { reason: String::from_str("rule overridden twice") },
                );
            }
            b = b + 1;
        }
        a = a + 1;
    }
    Ok(())
}

/// The final diagnostics of one tree under one configuration: scan with the
/// enabled rules, aggregate, then resolve suppressions and overrides.
pub open spec fn analyze_spec(ast: AstNode, rules: Seq<RuleView>, cv: ConfigView) -> Seq<
    FindingView,
> {
    resolve_spec(
        aggregate_spec(scan_spec(ast, enabled_rules_spec(rules, cv))),
        cv.suppression_directives,
        cv.severity_overrides,
    )
}

/// Runs the whole pipeline on one tree: scan, aggregate, resolve.
pub fn analyze_file(ast_root: &AstNode, registry: &RuleRegistry, config: &Config) -> (out: Vec<
    Finding,
>)
    ensures
        out.deep_view() == analyze_spec(*ast_root, registry.rules_seq(), config@),
{
    let rules = get_enabled_rules(registry, config);
    let raw = scan(ast_root, &rules);
    let deduped = aggregate(&raw);
    resolve(&deduped, &config.suppression_directives, &config.severity_overrides)
}

/// Determinism: the pipeline's output is a function of the tree, the rules
/// and the configuration alone, so two runs over the same input produce
/// identical ordered findings.
pub proof fn lemma_pipeline_deterministic(
    ast: AstNode,
    rules: Seq<RuleView>,
    cv: ConfigView,
    out1: Seq<FindingView>,
    out2: Seq<FindingView>,
)
    requires
        out1 == analyze_spec(ast, rules, cv),
        out2 == analyze_spec(ast, rules, cv),
    ensures
        out1 == out2,
{
}

/// No duplicate findings: no two findings in a file's final output share
/// the same rule name and span.
pub proof fn lemma_no_duplicate_findings(ast: AstNode, rules: Seq<RuleView>, cv: ConfigView)
    ensures
        distinct_keys(analyze_spec(ast, rules, cv)),
{
    let raw = scan_spec(ast, enabled_rules_spec(rules, cv));
    lemma_aggregate_props(raw);
    lemma_resolve_preserves_distinct(
        aggregate_spec(raw),
        cv.suppression_directives,
        cv.severity_overrides,
    );
}

/// What the external parser produced for one file: a tree, or the reason
/// parsing failed, passed through unmodified.
pub enum ParseOutcome {
    Parsed(AstNode),
    Failed(String),
}

/// One file handed to a run: its path and its parse outcome.
pub struct FileInput {
    pub path: String,
    pub parse: ParseOutcome,
}

/// The mathematical content of a parse outcome.
pub ghost enum ParseOutcomeView {
    Parsed(AstNode),
    Failed(Seq<char>),
}

/// The mathematical content of a file input.
pub ghost struct FileInputView {
    pub path: Seq<char>,
    pub parse: ParseOutcomeView,
}

impl View for FileInput {
    type V = FileInputView;

    open spec fn view(&self) -> FileInputView {
        FileInputView {
            path: self.path@,
            parse: match self.parse {
                ParseOutcome::Parsed(ast) => ParseOutcomeView::Parsed(ast),
                ParseOutcome::Failed(reason) => ParseOutcomeView::Failed(reason@),
            },
        }
    }
}

impl DeepView for FileInput {
    type V = FileInputView;

    open spec fn deep_view(&self) -> FileInputView {
        self.view()
    }
}

/// One file's diagnostics in a run's output.
pub struct FileReport {
    pub path: String,
    pub findings: Vec<Finding>,
}

/// The mathematical content of a file report.
pub ghost struct ReportView {
    pub path: Seq<char>,
    pub findings: Seq<FindingView>,
}

impl View for FileReport {
    type V = ReportView;

    open spec fn view(&self) -> ReportView {
        ReportView { path: self.path@, findings: self.findings.deep_view() }
    }
}

impl DeepView for FileReport {
    type V = ReportView;

    open spec fn deep_view(&self) -> ReportView {
        self.view()
    }
}

/// The structural diagnostic recording a parse failure: a single finding
/// under the reserved rule name, at the file's start, carrying the parser's
/// reason.
pub open spec fn parse_failure_view(reason: Seq<char>) -> FindingView {
    FindingView {
        rule_name: "parse_error"@,
        severity: Severity::Error,
        span: Span { start_line: 0, start_col: 0, end_line: 0, end_col: 0 },
        message: reason,
    }
}

/// One file's diagnostics: the pipeline's output for a parsed tree, or the
/// structural parse-failure diagnostic. A failed parse never aborts the
/// sibling files of a run.
pub open spec fn file_findings_spec(fi: FileInputView, rules: Seq<RuleView>, cv: ConfigView) -> Seq<
    FindingView,
> {
    match fi.parse {
        ParseOutcomeView::Parsed(ast) => analyze_spec(ast, rules, cv),
        ParseOutcomeView::Failed(reason) => seq![parse_failure_view(reason)],
    }
}

/// The report of one file.
pub open spec fn report_of(fi: FileInputView, rules: Seq<RuleView>, cv: ConfigView) -> ReportView {
    ReportView { path: fi.path, findings: file_findings_spec(fi, rules, cv) }
}

/// A report inserted before the first report whose path orders after it;
/// equal paths keep their arrival order.
pub open spec fn report_insert(acc: Seq<ReportView>, r: ReportView) -> Seq<ReportView>
    decreases acc.len(),
{
    if acc.len() == 0 {
        seq![r]
    } else if lex_lt(r.path, acc.first().path) {
        seq![r] + acc
    } else {
        seq![acc.first()] + report_insert(acc.drop_first(), r)
    }
}

/// The merged output of a run: one report per file, ordered by path,
/// whatever order the per-file results arrive in.
pub open spec fn merge_spec(files: Seq<FileInputView>, rules: Seq<RuleView>, cv: ConfigView) -> Seq<
    ReportView,
>
    decreases files.len(),
{
    if files.len() == 0 {
        Seq::empty()
    } else {
        report_insert(
            merge_spec(files.drop_last(), rules, cv),
            report_of(files.last(), rules, cv),
        )
    }
}

/// When the insert position is known, the report insert is an insert at
/// that position.
pub proof fn lemma_report_insert_at(acc: Seq<ReportView>, r: ReportView, j: int)
    requires
        0 <= j <= acc.len(),
        forall|k: int| 0 <= k < j ==> !lex_lt(r.path, acc[k].path),
        j < acc.len() ==> lex_lt(r.path, acc[j].path),
    ensures
        report_insert(acc, r) =~= acc.insert(j, r),
    decreases acc.len(),
{
    if acc.len() == 0 {
        assert(report_insert(acc, r) =~= acc.insert(0, r));
    } else if j == 0 {
        assert(lex_lt(r.path, acc.first().path));
        assert(report_insert(acc, r) =~= seq![r] + acc);
        assert(seq![r] + acc =~= acc.insert(0, r));
    } else {
        assert(!lex_lt(r.path, acc.first().path));
        let d = acc.drop_first();
        assert forall|k: int| 0 <= k < j - 1 implies !lex_lt(r.path, d[k].path) by {
            assert(d[k] == acc[k + 1]);
        }
        if j - 1 < d.len() {
            assert(d[j - 1] == acc[j]);
        }
        lemma_report_insert_at(d, r, j - 1);
        assert(report_insert(acc, r) =~= seq![acc.first()] + d.insert(j - 1, r));
        assert(seq![acc.first()] + d.insert(j - 1, r) =~= acc.insert(j, r));
    }
}

/// Reports stand in ascending path order (equal paths may repeat).
pub open spec fn reports_sorted(s: Seq<ReportView>) -> bool {
    forall|i: int, j: int| 0 <= i < j < s.len() ==> !lex_lt(s[j].path, s[i].path)
}

/// Inserting keeps reports sorted by path.
pub proof fn lemma_report_insert_sorted(acc: Seq<ReportView>, r: ReportView)
    requires
        reports_sorted(acc),
    ensures
        reports_sorted(report_insert(acc, r)),
        report_insert(acc, r).len() == acc.len() + 1,
    decreases acc.len(),
{
    let res = report_insert(acc, r);
    if acc.len() == 0 {
    } else if lex_lt(r.path, acc.first().path) {
        assert(res =~= seq![r] + acc);
        assert forall|i: int, j: int| 0 <= i < j < res.len() implies !lex_lt(
            res[j].path,
            res[i].path,
        ) by {
            if i == 0 {
                assert(res[j] == acc[j - 1]);
                if lex_lt(acc[j - 1].path, r.path) {
                    crate::text::lemma_lex_trans(acc[j - 1].path, r.path, acc[0].path);
                    if j > 1 {
                        assert(!lex_lt(acc[j - 1].path, acc[0].path));
                    }
                    crate::text::lemma_lex_asym(r.path, acc[0].path);
                }
            } else {
                assert(res[i] == acc[i - 1] && res[j] == acc[j - 1]);
            }
        }
    } else {
        let d = acc.drop_first();
        assert forall|i: int, j: int| 0 <= i < j < d.len() implies !lex_lt(
            d[j].path,
            d[i].path,
        ) by {
            assert(d[i] == acc[i + 1] && d[j] == acc[j + 1]);
        }
        lemma_report_insert_sorted(d, r);
        let rest = report_insert(d, r);
        assert(res =~= seq![acc.first()] + rest);
        assert forall|x: int| 0 <= x < rest.len() implies !lex_lt(rest[x].path, acc[0].path) by {
            lemma_report_insert_elems(d, r, x);
            if rest[x] == r {
                crate::text::lemma_lex_asym(r.path, acc[0].path);
            } else {
                let k = choose|k: int| 0 <= k < d.len() && d[k] == rest[x];
                assert(d[k] == acc[k + 1]);
                assert(!lex_lt(acc[k + 1].path, acc[0].path));
            }
        }
        assert forall|i: int, j: int| 0 <= i < j < res.len() implies !lex_lt(
            res[j].path,
            res[i].path,
        ) by {
            if i == 0 {
                assert(res[j] == rest[j - 1]);
            } else {
                assert(res[i] == rest[i - 1] && res[j] == rest[j - 1]);
            }
        }
    }
}

/// Every element of an insert result is the inserted report or one of the
/// originals.
pub proof fn lemma_report_insert_elems(acc: Seq<ReportView>, r: ReportView, x: int)
    requires
        0 <= x < report_insert(acc, r).len(),
    ensures
        report_insert(acc, r)[x] == r || acc.contains(report_insert(acc, r)[x]),
    decreases acc.len(),
{
    let res = report_insert(acc, r);
    if acc.len() == 0 {
    } else if lex_lt(r.path, acc.first().path) {
        assert(res =~= seq![r] + acc);
        if x > 0 {
            assert(res[x] == acc[x - 1]);
            assert(acc.contains(res[x]));
        }
    } else {
        let d = acc.drop_first();
        let rest = report_insert(d, r);
        assert(res =~= seq![acc.first()] + rest);
        if x == 0 {
            assert(acc.contains(acc[0]));
        } else {
            lemma_report_insert_elems(d, r, x - 1);
            if rest[x - 1] == r {
            } else {
                let k = choose|k: int| 0 <= k < d.len() && d[k] == rest[x - 1];
                assert(d[k] == acc[k + 1]);
                assert(acc.contains(acc[k + 1]));
            }
        }
    }
}

/// The merged output is sorted by path.
pub proof fn lemma_merge_sorted(files: Seq<FileInputView>, rules: Seq<RuleView>, cv: ConfigView)
    ensures
        reports_sorted(merge_spec(files, rules, cv)),
        merge_spec(files, rules, cv).len() == files.len(),
    decreases files.len(),
{
    if files.len() > 0 {
        lemma_merge_sorted(files.drop_last(), rules, cv);
        lemma_report_insert_sorted(
            merge_spec(files.drop_last(), rules, cv),
            report_of(files.last(), rules, cv),
        );
    }
}

/// Analyzes a set of files under one registry and configuration. Fails only
/// on a malformed configuration, before any file is scanned. Otherwise every
/// file yields a report — a parse failure becomes that file's single
/// structural diagnostic — and the reports are merged in path order,
/// whatever order the files were given in.
pub fn analyze_files(
    files: &Vec<FileInput>,
    registry: &RuleRegistry,
    config: &Config,
) -> (r: Result<Vec<FileReport>, LintError>)
    ensures
        match r {
            Ok(reports) => config_wf(config@) && reports.deep_view() == merge_spec(
                files.deep_view(),
                registry.rules_seq(),
                config@,
            ) && reports_sorted(reports.deep_view()) && reports.deep_view().len()
                == files.deep_view().len(),
            Err(e) => !config_wf(config@) && (match e {
                LintError::BadConfig { reason } => true,
                _ => false,
            }),
        },
{
    match validate_config(config) {
        Ok(()) => (),
        Err(e) => {
            return Err(e);
        },
    }
    let ghost fdv = files.deep_view();
    let ghost rsq = registry.rules_seq();
    let ghost cv = config@;
    let n = files.len();
    let mut out: Vec<FileReport> = Vec::new();
    proof {
        assert(fdv.take(0) =~= Seq::<FileInputView>::empty());
        assert(out.deep_view() =~= merge_spec(fdv.take(0), rsq, cv));
    }
    let mut i: usize = 0;
    while i < n
        invariant
            i <= n,
            n == files@.len(),
            fdv == files.deep_view(),
            rsq == registry.rules_seq(),
            cv == config@,
            out.deep_view() == merge_spec(fdv.take(i as int), rsq, cv),
        decreases n - i,
    {
        let fi = &files[i];
        proof {
            assert(fi@ == fdv[i as int]);
        }
        let findings = match &fi.parse {
            ParseOutcome::Parsed(ast) => analyze_file(ast, registry, config),
            ParseOutcome::Failed(reason) => {
                let mut v: Vec<Finding> = Vec::new();
                let pf = Finding {
                    rule_name: String::from_str("parse_error"),
                    severity: Severity::Error,
                    span: Span { start_line: 0, start_col: 0, end_line: 0, end_col: 0 },
                    message: reason.clone(),
                };
                proof {
                    assert(pf@ == parse_failure_view(reason@));
                }
                v.push(pf);
                proof {
                    assert(v.deep_view() =~= seq![parse_failure_view(reason@)]);
                }
                v
            },
        };
        let report = FileReport { path: fi.path.clone(), findings };
        proof {
            assert(report@ == report_of(fdv[i as int], rsq, cv));
        }
        let ghost acc = out.deep_view();
        let mut j: usize = 0;
        while j < out.len() && !str_lt(report.path.as_str(), out[j].path.as_str())
            invariant
                j <= out@.len(),
                acc == out.deep_view(),
                report@ == report_of(fdv[i as int], rsq, cv),
                i < fdv.len(),
                forall|q: int| 0 <= q < j ==> !lex_lt(report@.path, acc[q].path),
            decreases out@.len() - j,
        {
            j = j + 1;
        }
        let ghost pre = out;
        let ghost rv = report;
        out.insert(j, report);
        proof {
            crate::views::lemma_insert_deep_view(pre, out, j as int, rv);
            lemma_report_insert_at(acc, rv@, j as int);
            assert(out.deep_view() =~= report_insert(acc, rv@));
            assert(fdv.take(i + 1).drop_last() =~= fdv.take(i as int));
            assert(fdv.take(i + 1).last() == fdv[i as int]);
            assert(out.deep_view() =~= merge_spec(fdv.take(i + 1), rsq, cv));
        }
        i = i + 1;
    }
    proof {
        assert(fdv.take(n as int) =~= fdv);
        lemma_merge_sorted(fdv, rsq, cv);
    }
    Ok(out)
}

} // verus!
