//! The finding aggregator: drops findings whose (rule, span) key was already
//! seen, and sorts the rest into the deterministic report order. Overlapping
//! findings of distinct rules are all kept.

use vstd::prelude::*;
use crate::diagnostics::{
    Finding,
    FindingView,
    copy_finding,
    fkey_eq,
    fkey_eq_exec,
    fkey_lt,
    fkey_lt_exec,
    lemma_fkey_asym,
    lemma_fkey_total,
    lemma_fkey_trans,
};

verus! {

/// Some finding in `s` has the same (rule, span) key as `f`.
pub open spec fn contains_key(s: Seq<FindingView>, f: FindingView) -> bool {
    exists|i: int| 0 <= i < s.len() && fkey_eq(s[i], f)
}

/// The findings are in strictly ascending report order.
pub open spec fn sorted_strict(s: Seq<FindingView>) -> bool {
    forall|i: int, j: int| 0 <= i < j < s.len() ==> fkey_lt(s[i], s[j])
}

/// No two findings share a (rule, span) key.
pub open spec fn distinct_keys(s: Seq<FindingView>) -> bool {
    forall|i: int, j: int| 0 <= i < j < s.len() ==> !fkey_eq(s[i], s[j])
}

/// `f` inserted before the first element it precedes in report order.
pub open spec fn sorted_insert(s: Seq<FindingView>, f: FindingView) -> Seq<FindingView>
    decreases s.len(),
{
    if s.len() == 0 {
        seq![f]
    } else if fkey_lt(f, s.first()) {
        seq![f] + s
    } else {
        seq![s.first()] + sorted_insert(s.drop_first(), f)
    }
}

/// One aggregation step: keep the first finding of each key.
pub open spec fn agg_step(acc: Seq<FindingView>, f: FindingView) -> Seq<FindingView> {
    if contains_key(acc, f) {
        acc
    } else {
        sorted_insert(acc, f)
    }
}

/// The aggregated findings: processed left to right, the first finding of
/// each key kept and placed at its position in report order.
pub open spec fn aggregate_spec(s: Seq<FindingView>) -> Seq<FindingView>
    decreases s.len(),
{
    if s.len() == 0 {
        Seq::empty()
    } else {
        agg_step(aggregate_spec(s.drop_last()), s.last())
    }
}

/// Inserting a fresh key into a strictly sorted sequence keeps it strictly
/// sorted, and adds exactly that element.
pub proof fn lemma_sorted_insert(s: Seq<FindingView>, f: FindingView)
    requires
        sorted_strict(s),
        !contains_key(s, f),
    ensures
        sorted_strict(sorted_insert(s, f)),
        sorted_insert(s, f).len() == s.len() + 1,
        forall|x: FindingView| #![trigger sorted_insert(s, f).contains(x)]
            sorted_insert(s, f).contains(x) <==> (s.contains(x) || x == f),
    decreases s.len(),
{
    let res = sorted_insert(s, f);
    if s.len() == 0 {
        assert(res =~= seq![f]);
        assert(res.contains(f)) by {
            assert(res[0] == f);
        }
        assert forall|x: FindingView| res.contains(x) implies (s.contains(x) || x == f) by {
            let i = choose|i: int| 0 <= i < res.len() && res[i] == x;
            assert(i == 0);
        }
    } else if fkey_lt(f, s.first()) {
        assert(res =~= seq![f] + s);
        assert forall|i: int, j: int| 0 <= i < j < res.len() implies fkey_lt(res[i], res[j]) by {
            if i == 0 {
                assert(res[j] == s[j - 1]);
                if j > 1 {
                    assert(fkey_lt(s[0], s[j - 1]));
                    lemma_fkey_trans(f, s[0], s[j - 1]);
                } else {
                    assert(res[j] == s.first());
                }
            } else {
                assert(res[i] == s[i - 1] && res[j] == s[j - 1]);
                assert(fkey_lt(s[i - 1], s[j - 1]));
            }
        }
        assert forall|x: FindingView| res.contains(x) implies (s.contains(x) || x == f) by {
            let i = choose|i: int| 0 <= i < res.len() && res[i] == x;
            if i > 0 {
                assert(s[i - 1] == x);
                assert(s.contains(x));
            }
        }
        assert forall|x: FindingView| (s.contains(x) || x == f) implies res.contains(x) by {
            if s.contains(x) {
                let i = choose|i: int| 0 <= i < s.len() && s[i] == x;
                assert(res[i + 1] == x);
            } else {
                assert(res[0] == x);
            }
        }
    } else {
        let d = s.drop_first();
        assert forall|i: int, j: int| 0 <= i < j < d.len() implies fkey_lt(d[i], d[j]) by {
            assert(d[i] == s[i + 1] && d[j] == s[j + 1]);
            assert(fkey_lt(s[i + 1], s[j + 1]));
        }
        assert(!contains_key(d, f)) by {
            if contains_key(d, f) {
                let i = choose|i: int| 0 <= i < d.len() && fkey_eq(d[i], f);
                assert(d[i] == s[i + 1]);
                assert(fkey_eq(s[i + 1], f));
            }
        }
        lemma_sorted_insert(d, f);
        let rest = sorted_insert(d, f);
        assert(res =~= seq![s.first()] + rest);
        assert(!fkey_eq(s[0], f)) by {
            assert(0 <= 0 < s.len());
        }
        assert(fkey_lt(s[0], f)) by {
            lemma_fkey_total(f, s[0]);
        }
        assert forall|x: FindingView| rest.contains(x) implies fkey_lt(s[0], x) by {
            if d.contains(x) {
                let k = choose|k: int| 0 <= k < d.len() && d[k] == x;
                assert(d[k] == s[k + 1]);
                assert(fkey_lt(s[0], s[k + 1]));
            } else {
                assert(x == f);
            }
        }
        assert forall|i: int, j: int| 0 <= i < j < res.len() implies fkey_lt(res[i], res[j]) by {
            if i == 0 {
                assert(res[j] == rest[j - 1]);
                assert(rest.contains(rest[j - 1]));
            } else {
                assert(res[i] == rest[i - 1] && res[j] == rest[j - 1]);
                assert(fkey_lt(rest[i - 1], rest[j - 1]));
            }
        }
        assert forall|x: FindingView| res.contains(x) implies (s.contains(x) || x == f) by {
            let i = choose|i: int| 0 <= i < res.len() && res[i] == x;
            if i == 0 {
                assert(s[0] == x);
                assert(s.contains(x));
            } else {
                assert(rest[i - 1] == x);
                assert(rest.contains(x));
                if d.contains(x) {
                    let k = choose|k: int| 0 <= k < d.len() && d[k] == x;
                    assert(s[k + 1] == x);
                    assert(s.contains(x));
                }
            }
        }
        assert forall|x: FindingView| (s.contains(x) || x == f) implies res.contains(x) by {
            if s.contains(x) {
                let i = choose|i: int| 0 <= i < s.len() && s[i] == x;
                if i == 0 {
                    assert(res[0] == x);
                } else {
                    assert(d[i - 1] == x);
                    assert(d.contains(x));
                    assert(sorted_insert(d, f).contains(x));
                    let k = choose|k: int| 0 <= k < rest.len() && rest[k] == x;
                    assert(res[k + 1] == x);
                }
            } else {
                assert(sorted_insert(d, f).contains(x));
                let k = choose|k: int| 0 <= k < rest.len() && rest[k] == x;
                assert(res[k + 1] == x);
            }
        }
    }
}

/// When the insert position is known — everything before `j` precedes `f`,
/// and `f` precedes the element at `j` — the sorted insert is an insert at
/// `j`.
pub proof fn lemma_sorted_insert_at(s: Seq<FindingView>, f: FindingView, j: int)
    requires
        0 <= j <= s.len(),
        forall|k: int| 0 <= k < j ==> !fkey_lt(f, s[k]),
        j < s.len() ==> fkey_lt(f, s[j]),
    ensures
        sorted_insert(s, f) =~= s.insert(j, f),
    decreases s.len(),
{
    if s.len() == 0 {
        assert(sorted_insert(s, f) =~= s.insert(0, f));
    } else if j == 0 {
        assert(fkey_lt(f, s.first()));
        assert(sorted_insert(s, f) =~= seq![f] + s);
        assert(seq![f] + s =~= s.insert(0, f));
    } else {
        assert(!fkey_lt(f, s.first()));
        let d = s.drop_first();
        assert forall|k: int| 0 <= k < j - 1 implies !fkey_lt(f, d[k]) by {
            assert(d[k] == s[k + 1]);
        }
        if j - 1 < d.len() {
            assert(d[j - 1] == s[j]);
        }
        lemma_sorted_insert_at(d, f, j - 1);
        assert(sorted_insert(s, f) =~= seq![s.first()] + d.insert(j - 1, f));
        assert(seq![s.first()] + d.insert(j - 1, f) =~= s.insert(j, f));
    }
}

/// The aggregated sequence is strictly sorted, has no duplicate keys, keeps
/// a finding for every key of the input, and invents nothing: every element
/// of the output occurs in the input.
pub proof fn lemma_aggregate_props(s: Seq<FindingView>)
    ensures
        sorted_strict(aggregate_spec(s)),
        distinct_keys(aggregate_spec(s)),
        forall|g: FindingView| contains_key(aggregate_spec(s), g) <==> contains_key(s, g),
        forall|x: FindingView| aggregate_spec(s).contains(x) ==> s.contains(x),
    decreases s.len(),
{
    let res = aggregate_spec(s);
    if s.len() == 0 {
        assert forall|g: FindingView| contains_key(res, g) implies contains_key(s, g) by {
            let i = choose|i: int| 0 <= i < res.len() && fkey_eq(res[i], g);
        }
    } else {
        let acc = aggregate_spec(s.drop_last());
        let f = s.last();
        lemma_aggregate_props(s.drop_last());
        assert forall|g: FindingView| contains_key(s.drop_last(), g) implies contains_key(
            s,
            g,
        ) by {
            let i = choose|i: int| 0 <= i < s.drop_last().len() && fkey_eq(s.drop_last()[i], g);
            assert(s.drop_last()[i] == s[i]);
        }
        assert forall|x: FindingView| s.drop_last().contains(x) implies s.contains(x) by {
            let i = choose|i: int| 0 <= i < s.drop_last().len() && s.drop_last()[i] == x;
            assert(s[i] == x);
        }
        assert(s.contains(f)) by {
            assert(s[s.len() - 1] == f);
        }
        assert(contains_key(s, f)) by {
            assert(fkey_eq(s[s.len() - 1], f));
        }
        if contains_key(acc, f) {
            assert(res == acc);
            assert forall|g: FindingView| contains_key(s, g) implies contains_key(res, g) by {
                let i = choose|i: int| 0 <= i < s.len() && fkey_eq(s[i], g);
                if i < s.len() - 1 {
                    assert(s.drop_last()[i] == s[i]);
                    assert(contains_key(s.drop_last(), g));
                } else {
                    let k = choose|k: int| 0 <= k < acc.len() && fkey_eq(acc[k], f);
                    assert(fkey_eq(acc[k], g));
                }
            }
        } else {
            lemma_sorted_insert(acc, f);
            assert(res == sorted_insert(acc, f));
            assert(distinct_keys(res)) by {
                assert forall|i: int, j: int| 0 <= i < j < res.len() implies !fkey_eq(
                    res[i],
                    res[j],
                ) by {
                    assert(fkey_lt(res[i], res[j]));
                    lemma_fkey_asym(res[i], res[j]);
                }
            }
            assert forall|g: FindingView| contains_key(res, g) implies contains_key(s, g) by {
                let i = choose|i: int| 0 <= i < res.len() && fkey_eq(res[i], g);
                assert(res.contains(res[i]));
                if acc.contains(res[i]) {
                    let k = choose|k: int| 0 <= k < acc.len() && acc[k] == res[i];
                    assert(contains_key(acc, g));
                } else {
                    assert(res[i] == f);
                    assert(fkey_eq(s[s.len() - 1], g));
                }
            }
            assert forall|g: FindingView| contains_key(s, g) implies contains_key(res, g) by {
                let i = choose|i: int| 0 <= i < s.len() && fkey_eq(s[i], g);
                if i < s.len() - 1 {
                    assert(s.drop_last()[i] == s[i]);
                    assert(contains_key(s.drop_last(), g));
                    let k = choose|k: int| 0 <= k < acc.len() && fkey_eq(acc[k], g);
                    assert(acc.contains(acc[k]));
                    assert(sorted_insert(acc, f).contains(acc[k]));
                    let m = choose|m: int| 0 <= m < res.len() && res[m] == acc[k];
                    assert(fkey_eq(res[m], g));
                } else {
                    assert(fkey_eq(f, g));
                    assert(sorted_insert(acc, f).contains(f));
                    let m = choose|m: int| 0 <= m < res.len() && res[m] == f;
                    assert(fkey_eq(res[m], g));
                }
            }
            assert forall|x: FindingView| res.contains(x) implies s.contains(x) by {
                if acc.contains(x) {
                } else {
                    assert(x == f);
                }
            }
        }
    }
}

/// Distinct keys in ascending key order: deduplicates by (rule, span),
/// keeping the first finding of each key, and sorts by start position, rule
/// name and end position. Nothing else is dropped and nothing is invented.
pub fn aggregate(raw_findings: &Vec<Finding>) -> (out: Vec<Finding>)
    ensures
        out.deep_view() == aggregate_spec(raw_findings.deep_view()),
        sorted_strict(out.deep_view()),
        distinct_keys(out.deep_view()),
        forall|g: FindingView|
            contains_key(out.deep_view(), g) <==> contains_key(raw_findings.deep_view(), g),
        forall|x: FindingView| out.deep_view().contains(x) ==> raw_findings.deep_view().contains(x),
{
    let ghost rdv = raw_findings.deep_view();
    let n = raw_findings.len();
    let mut out: Vec<Finding> = Vec::new();
    proof {
        assert(rdv.take(0) =~= Seq::<FindingView>::empty());
        assert(out.deep_view() =~= aggregate_spec(rdv.take(0)));
    }
    let mut i: usize = 0;
    while i < n
        invariant
            i <= n,
            n == raw_findings@.len(),
            rdv == raw_findings.deep_view(),
            out.deep_view() == aggregate_spec(rdv.take(i as int)),
        decreases n - i,
    {
        let ghost acc = out.deep_view();
        proof {
            lemma_aggregate_props(rdv.take(i as int));
        }
        let f = &raw_findings[i];
        proof {
            assert(f@ == rdv[i as int]);
        }
        let m = out.len();
        let mut dup = false;
        let mut k: usize = 0;
        while k < m
            invariant
                k <= m,
                m == out@.len(),
                acc == out.deep_view(),
                i < rdv.len(),
                f@ == rdv[i as int],
                dup ==> contains_key(acc, f@),
                !dup ==> forall|q: int| 0 <= q < k ==> !fkey_eq(acc[q], f@),
            decreases m - k,
        {
            if fkey_eq_exec(&out[k], f) {
                proof {
                    assert(fkey_eq(acc[k as int], f@));
                }
                dup = true;
            }
            k = k + 1;
        }
        if !dup {
            proof {
                assert(!contains_key(acc, f@));
            }
            let mut j: usize = 0;
            while j < out.len() && !fkey_lt_exec(f, &out[j])
                invariant
                    j <= out@.len(),
                    acc == out.deep_view(),
                    i < rdv.len(),
                    f@ == rdv[i as int],
                    forall|q: int| 0 <= q < j ==> !fkey_lt(f@, acc[q]),
                decreases out@.len() - j,
            {
                j = j + 1;
            }
            let ghost pre = out;
            let fc = copy_finding(f);
            out.insert(j, fc);
            proof {
                crate::views::lemma_insert_deep_view(pre, out, j as int, fc);
                lemma_sorted_insert_at(acc, f@, j as int);
                assert(out.deep_view() =~= sorted_insert(acc, f@));
            }
        }
        proof {
            assert(rdv.take(i + 1).drop_last() =~= rdv.take(i as int));
            assert(rdv.take(i + 1).last() == rdv[i as int]);
            assert(out.deep_view() =~= aggregate_spec(rdv.take(i + 1)));
        }
        i = i + 1;
    }
    proof {
        assert(rdv.take(n as int) =~= rdv);
        lemma_aggregate_props(rdv);
    }
    out
}

} // verus!
