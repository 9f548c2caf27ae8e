//! The severity/suppression resolver: drops findings covered by a
//! suppression directive, and replaces severities according to the override
//! map. Suppression goes by strict span containment, never by line
//! proximity.

use vstd::prelude::*;
use crate::ast::{Span, span_contains, span_contains_exec};
use crate::diagnostics::{Finding, FindingView, Severity, fkey_eq};
use crate::aggregate::distinct_keys;

verus! {

/// An annotation silencing rules over a span. An empty rule set silences
/// every rule there.
pub struct SuppressionDirective {
    pub span: Span,
    pub rule_names: Vec<String>,
}

/// The mathematical content of a suppression directive.
pub ghost struct DirectiveView {
    pub span: Span,
    pub rule_names: Seq<Seq<char>>,
}

impl View for SuppressionDirective {
    type V = DirectiveView;

    open spec fn view(&self) -> DirectiveView {
        DirectiveView { span: self.span, rule_names: self.rule_names.deep_view() }
    }
}

impl DeepView for SuppressionDirective {
    type V = DirectiveView;

    open spec fn deep_view(&self) -> DirectiveView {
        self.view()
    }
}

/// One entry of the severity override map.
pub struct SeverityOverride {
    pub rule_name: String,
    pub severity: Severity,
}

/// The mathematical content of an override entry.
pub ghost struct OverrideView {
    pub rule_name: Seq<char>,
    pub severity: Severity,
}

impl View for SeverityOverride {
    type V = OverrideView;

    open spec fn view(&self) -> OverrideView {
        OverrideView { rule_name: self.rule_name@, severity: self.severity }
    }
}

impl DeepView for SeverityOverride {
    type V = OverrideView;

    open spec fn deep_view(&self) -> OverrideView {
        self.view()
    }
}

/// `name` occurs in `names`.
pub open spec fn name_in(names: Seq<Seq<char>>, name: Seq<char>) -> bool {
    exists|i: int| 0 <= i < names.len() && names[i] == name
}

/// The directive silences this finding: its span contains the finding's
/// span entirely, and its rule set is empty or names the finding's rule.
pub open spec fn covers(d: DirectiveView, f: FindingView) -> bool {
    span_contains(d.span, f.span) && (d.rule_names.len() == 0 || name_in(
        d.rule_names,
        f.rule_name,
    ))
}

/// Some directive silences this finding.
pub open spec fn suppressed(f: FindingView, ds: Seq<DirectiveView>) -> bool {
    exists|i: int| 0 <= i < ds.len() && covers(ds[i], f)
}

/// The findings not silenced by any directive, in their given order.
pub open spec fn filter_suppressed(fs: Seq<FindingView>, ds: Seq<DirectiveView>) -> Seq<
    FindingView,
>
    decreases fs.len(),
{
    if fs.len() == 0 {
        Seq::empty()
    } else {
        filter_suppressed(fs.drop_last(), ds) + (if suppressed(fs.last(), ds) {
            Seq::empty()
        } else {
            seq![fs.last()]
        })
    }
}

/// The first override for this rule name, if any.
pub open spec fn override_lookup(ovs: Seq<OverrideView>, name: Seq<char>) -> Option<Severity>
    decreases ovs.len(),
{
    if ovs.len() == 0 {
        None
    } else if ovs.first().rule_name == name {
        Some(ovs.first().severity)
    } else {
        override_lookup(ovs.drop_first(), name)
    }
}

/// The finding with its severity overridden, when the map names its rule;
/// nothing else of the finding changes.
pub open spec fn apply_override(f: FindingView, ovs: Seq<OverrideView>) -> FindingView {
    match override_lookup(ovs, f.rule_name) {
        Some(sev) => FindingView {
            rule_name: f.rule_name,
            severity: sev,
            span: f.span,
            message: f.message,
        },
        None => f,
    }
}

/// The override map applied to every finding.
pub open spec fn apply_overrides(fs: Seq<FindingView>, ovs: Seq<OverrideView>) -> Seq<FindingView> {
    fs.map_values(|f: FindingView| apply_override(f, ovs))
}

/// The resolver's result: suppressed findings dropped, then the override
/// map applied to the rest.
pub open spec fn resolve_spec(
    fs: Seq<FindingView>,
    ds: Seq<DirectiveView>,
    ovs: Seq<OverrideView>,
) -> Seq<FindingView> {
    apply_overrides(filter_suppressed(fs, ds), ovs)
}

/// Suppression is exact: a finding survives the suppression stage if and
/// only if it was present and no directive covers it. In particular a
/// directive for one rule over a span removes exactly that rule's findings
/// with spans inside it, and none of any other rule.
pub proof fn lemma_suppression_exact(fs: Seq<FindingView>, ds: Seq<DirectiveView>)
    ensures
        forall|x: FindingView| #![trigger filter_suppressed(fs, ds).contains(x)]
            filter_suppressed(fs, ds).contains(x) <==> (fs.contains(x) && !suppressed(x, ds)),
    decreases fs.len(),
{
    let res = filter_suppressed(fs, ds);
    if fs.len() == 0 {
        assert forall|x: FindingView| res.contains(x) implies (fs.contains(x) && !suppressed(
            x,
            ds,
        )) by {
            let i = choose|i: int| 0 <= i < res.len() && res[i] == x;
        }
    } else {
        lemma_suppression_exact(fs.drop_last(), ds);
        let prev = filter_suppressed(fs.drop_last(), ds);
        let f = fs.last();
        assert forall|x: FindingView| fs.drop_last().contains(x) implies fs.contains(x) by {
            let i = choose|i: int| 0 <= i < fs.drop_last().len() && fs.drop_last()[i] == x;
            assert(fs[i] == x);
        }
        assert(fs.contains(f)) by {
            assert(fs[fs.len() - 1] == f);
        }
        assert forall|x: FindingView| res.contains(x) implies (fs.contains(x) && !suppressed(
            x,
            ds,
        )) by {
            let i = choose|i: int| 0 <= i < res.len() && res[i] == x;
            if i < prev.len() {
                assert(prev[i] == x);
                assert(prev.contains(x));
                assert(filter_suppressed(fs.drop_last(), ds).contains(x));
            } else {
                assert(x == f);
            }
        }
        assert forall|x: FindingView| (fs.contains(x) && !suppressed(x, ds)) implies res.contains(
            x,
        ) by {
            let i = choose|i: int| 0 <= i < fs.len() && fs[i] == x;
            if i < fs.len() - 1 {
                assert(fs.drop_last()[i] == x);
                assert(fs.drop_last().contains(x));
                assert(filter_suppressed(fs.drop_last(), ds).contains(x));
                let k = choose|k: int| 0 <= k < prev.len() && prev[k] == x;
                assert(res[k] == x);
            } else {
                assert(x == f);
                assert(!suppressed(f, ds));
                assert(res[res.len() - 1] == f);
            }
        }
    }
}

/// Applying the same override map twice yields the same severities as
/// applying it once: the first application never changes a rule name, so
/// the second looks up the same entries.
pub proof fn lemma_override_idempotent(fs: Seq<FindingView>, ovs: Seq<OverrideView>)
    ensures
        apply_overrides(apply_overrides(fs, ovs), ovs) == apply_overrides(fs, ovs),
{
    let once = apply_overrides(fs, ovs);
    assert forall|i: int| 0 <= i < once.len() implies apply_overrides(once, ovs)[i] == once[i] by {
        assert(once[i] == apply_override(fs[i], ovs));
        assert(once[i].rule_name == fs[i].rule_name);
    }
    assert(apply_overrides(once, ovs) =~= once);
}

/// The resolver never introduces a duplicate (rule, span) key: overrides
/// keep keys, and suppression only removes findings.
pub proof fn lemma_resolve_preserves_distinct(
    fs: Seq<FindingView>,
    ds: Seq<DirectiveView>,
    ovs: Seq<OverrideView>,
)
    requires
        distinct_keys(fs),
    ensures
        distinct_keys(resolve_spec(fs, ds, ovs)),
    decreases fs.len(),
{
    let filtered = filter_suppressed(fs, ds);
    assert(distinct_keys(filtered)) by {
        lemma_filter_distinct(fs, ds);
    }
    let res = resolve_spec(fs, ds, ovs);
    assert forall|i: int, j: int| 0 <= i < j < res.len() implies !fkey_eq(res[i], res[j]) by {
        assert(res[i] == apply_override(filtered[i], ovs));
        assert(res[j] == apply_override(filtered[j], ovs));
        assert(res[i].rule_name == filtered[i].rule_name && res[i].span == filtered[i].span);
        assert(res[j].rule_name == filtered[j].rule_name && res[j].span == filtered[j].span);
        assert(!fkey_eq(filtered[i], filtered[j]));
    }
}

/// Filtering a sequence with pairwise-distinct keys keeps the keys
/// pairwise distinct.
proof fn lemma_filter_distinct(fs: Seq<FindingView>, ds: Seq<DirectiveView>)
    requires
        distinct_keys(fs),
    ensures
        distinct_keys(filter_suppressed(fs, ds)),
    decreases fs.len(),
{
    if fs.len() > 0 {
        let prev = filter_suppressed(fs.drop_last(), ds);
        let f = fs.last();
        assert(distinct_keys(fs.drop_last())) by {
            assert forall|i: int, j: int|
                0 <= i < j < fs.drop_last().len() implies !fkey_eq(
                fs.drop_last()[i],
                fs.drop_last()[j],
            ) by {
                assert(fs.drop_last()[i] == fs[i] && fs.drop_last()[j] == fs[j]);
            }
        }
        lemma_filter_distinct(fs.drop_last(), ds);
        lemma_suppression_exact(fs.drop_last(), ds);
        let res = filter_suppressed(fs, ds);
        assert forall|i: int, j: int| 0 <= i < j < res.len() implies !fkey_eq(res[i], res[j]) by {
            if j < prev.len() {
                assert(res[i] == prev[i] && res[j] == prev[j]);
            } else {
                assert(res[j] == f);
                assert(res[i] == prev[i]);
                assert(prev.contains(prev[i]));
                assert(filter_suppressed(fs.drop_last(), ds).contains(prev[i]));
                let k = choose|k: int|
                    0 <= k < fs.drop_last().len() && fs.drop_last()[k] == prev[i];
                assert(fs[k] == prev[i]);
                assert(!fkey_eq(fs[k], fs[fs.len() - 1]));
            }
        }
    }
}

/// Decides whether `name` occurs in `names`.
fn name_in_exec(names: &Vec<String>, name: &str) -> (r: bool)
    ensures
        r == name_in(names.deep_view(), name@),
{
    let n = names.len();
    let mut i: usize = 0;
    let mut found = false;
    while i < n
        invariant
            i <= n,
            n == names@.len(),
            found ==> name_in(names.deep_view(), name@),
            !found ==> forall|j: int| 0 <= j < i ==> names.deep_view()[j] != name@,
        decreases n - i,
    {
        if crate::text::str_eq_str(names[i].as_str(), name) {
            proof {
                assert(names.deep_view()[i as int] == name@);
            }
            found = true;
        }
        i = i + 1;
    }
    found
}

/// Decides whether some directive silences the finding.
fn suppressed_exec(f: &Finding, ds: &Vec<SuppressionDirective>) -> (r: bool)
    ensures
        r == suppressed(f@, ds.deep_view()),
{
    let n = ds.len();
    let mut i: usize = 0;
    let mut hit = false;
    while i < n
        invariant
            i <= n,
            n == ds@.len(),
            hit ==> suppressed(f@, ds.deep_view()),
            !hit ==> forall|j: int| 0 <= j < i ==> !covers(ds.deep_view()[j], f@),
        decreases n - i,
    {
        let d = &ds[i];
        let c = span_contains_exec(&d.span, &f.span) && (d.rule_names.len() == 0 || name_in_exec(
            &d.rule_names,
            f.rule_name.as_str(),
        ));
        proof {
            assert(c == covers(ds.deep_view()[i as int], f@));
        }
        if c {
            hit = true;
        }
        i = i + 1;
    }
    hit
}

/// Looks up the first override for this rule name.
fn override_lookup_exec(ovs: &Vec<SeverityOverride>, name: &str) -> (r: Option<Severity>)
    ensures
        r == override_lookup(ovs.deep_view(), name@),
{
    let n = ovs.len();
    proof {
        assert(ovs.deep_view().skip(0) =~= ovs.deep_view());
    }
    let mut i: usize = 0;
    while i < n
        invariant
            i <= n,
            n == ovs@.len(),
            override_lookup(ovs.deep_view(), name@) == override_lookup(
                ovs.deep_view().skip(i as int),
                name@,
            ),
            forall|j: int| 0 <= j < i ==> ovs.deep_view()[j].rule_name != name@,
        decreases n - i,
    {
        let hit = crate::text::str_eq_str(ovs[i].rule_name.as_str(), name);
        proof {
            let dv = ovs.deep_view();
            assert(dv.skip(i as int).first() == dv[i as int]);
            assert(dv.skip(i as int).drop_first() =~= dv.skip(i + 1));
        }
        if hit {
            return Some(ovs[i].severity);
        }
        i = i + 1;
    }
    None
}

/// Resolves the findings: every finding covered by a suppression directive
/// is dropped; every survivor whose rule is named in the override map gets
/// that severity, and every other survivor keeps its own. Order is kept.
pub fn resolve(
    findings: &Vec<Finding>,
    suppressions: &Vec<SuppressionDirective>,
    severity_overrides: &Vec<SeverityOverride>,
) -> (out: Vec<Finding>)
    ensures
        out.deep_view() == resolve_spec(
            findings.deep_view(),
            suppressions.deep_view(),
            severity_overrides.deep_view(),
        ),
{
    let ghost fdv = findings.deep_view();
    let ghost ddv = suppressions.deep_view();
    let ghost odv = severity_overrides.deep_view();
    let n = findings.len();
    let mut out: Vec<Finding> = Vec::new();
    proof {
        assert(fdv.take(0) =~= Seq::<FindingView>::empty());
        assert(out.deep_view() =~= resolve_spec(fdv.take(0), ddv, odv));
    }
    let mut i: usize = 0;
    while i < n
        invariant
            i <= n,
            n == findings@.len(),
            fdv == findings.deep_view(),
            ddv == suppressions.deep_view(),
            odv == severity_overrides.deep_view(),
            out.deep_view() == resolve_spec(fdv.take(i as int), ddv, odv),
        decreases n - i,
    {
        let f = &findings[i];
        proof {
            assert(f@ == fdv[i as int]);
        }
        if !suppressed_exec(f, suppressions) {
            let sev = match override_lookup_exec(severity_overrides, f.rule_name.as_str()) {
                Some(s) => s,
                None => f.severity,
            };
            let nf = Finding {
                rule_name: f.rule_name.clone(),
                severity: sev,
                span: f.span,
                message: f.message.clone(),
            };
            proof {
                assert(nf@ == apply_override(fdv[i as int], odv));
            }
            let ghost pre = out;
            out.push(nf);
            proof {
                crate::views::lemma_push_deep_view(pre, out, nf);
            }
        }
        proof {
            let t1 = fdv.take(i + 1);
            assert(t1.drop_last() =~= fdv.take(i as int));
            assert(t1.last() == fdv[i as int]);
            let filt0 = filter_suppressed(fdv.take(i as int), ddv);
            let filt1 = filter_suppressed(t1, ddv);
            if suppressed(fdv[i as int], ddv) {
                assert(filt1 =~= filt0);
            } else {
                assert(filt1 =~= filt0.push(fdv[i as int]));
            }
            assert(out.deep_view() =~= resolve_spec(t1, ddv, odv));
        }
        i = i + 1;
    }
    proof {
        assert(fdv.take(n as int) =~= fdv);
    }
    out
}

} // verus!
