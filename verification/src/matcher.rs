//! The matcher engine: one depth-first, pre-order traversal of the tree,
//! evaluating every rule's pattern predicate at every node. Each rule yields
//! zero or one finding per node, so the whole scan is O(nodes * rules).

use vstd::prelude::*;
use crate::ast::{ArmPat, AstNode, BinOp, NodeKind, node_eq, node_eq_exec};
use crate::diagnostics::{Finding, FindingView};
use crate::rules::{Pattern, PatternView, Rule, RuleView};

verus! {

/// The operator is a comparison.
pub open spec fn is_cmp(op: BinOp) -> bool {
    match op {
        BinOp::Eq => true,
        BinOp::Ne => true,
        BinOp::Lt => true,
        BinOp::Le => true,
        BinOp::Gt => true,
        BinOp::Ge => true,
        _ => false,
    }
}

/// The node is the integer literal `v`.
pub open spec fn is_int_lit(n: AstNode, v: i64) -> bool {
    match n.kind {
        NodeKind::IntLit(x) => x == v,
        _ => false,
    }
}

/// The node is a call of the method `name`.
pub open spec fn is_method_named(n: AstNode, name: Seq<char>) -> bool {
    match n.kind {
        NodeKind::MethodCall(m) => m@ == name,
        _ => false,
    }
}

/// The node is a boolean literal.
pub open spec fn is_bool_lit(n: AstNode) -> bool {
    match n.kind {
        NodeKind::BoolLit(_) => true,
        _ => false,
    }
}

/// The node produces a bare boolean literal: either one directly, or a block
/// holding exactly one.
pub open spec fn is_bool_outcome(n: AstNode) -> bool {
    match n.kind {
        NodeKind::BoolLit(_) => true,
        NodeKind::Block => n.children@.len() == 1 && is_bool_lit(n.children@[0]),
        _ => false,
    }
}

/// The node is an `if` without an else-branch.
pub open spec fn is_if_no_else(n: AstNode) -> bool {
    match n.kind {
        NodeKind::If => n.children@.len() == 2,
        _ => false,
    }
}

/// The node's only statement is an `if` without an else: either it is one
/// itself, or it is a block holding exactly one.
pub open spec fn is_only_stmt_if(n: AstNode) -> bool {
    is_if_no_else(n) || (match n.kind {
        NodeKind::Block => n.children@.len() == 1 && is_if_no_else(n.children@[0]),
        _ => false,
    })
}

/// The node is an arm testing a boolean literal pattern.
pub open spec fn is_bool_arm(n: AstNode) -> bool {
    match n.kind {
        NodeKind::Arm(p) => p == ArmPat::LitTrue || p == ArmPat::LitFalse,
        _ => false,
    }
}

/// The node is an arm with the given pattern whose body is a bare boolean
/// literal.
pub open spec fn is_arm_bool_body(n: AstNode, p: ArmPat) -> bool {
    match n.kind {
        NodeKind::Arm(q) => q == p && n.children@.len() == 1 && is_bool_outcome(n.children@[0]),
        _ => false,
    }
}

/// The node is an empty block.
pub open spec fn is_empty_block(n: AstNode) -> bool {
    match n.kind {
        NodeKind::Block => n.children@.len() == 0,
        _ => false,
    }
}

/// The node is a wildcard arm whose body is an empty block.
pub open spec fn is_empty_wildcard_arm(n: AstNode) -> bool {
    match n.kind {
        NodeKind::Arm(p) => p == ArmPat::Wildcard && n.children@.len() == 1 && is_empty_block(
            n.children@[0],
        ),
        _ => false,
    }
}

/// Whether the pattern matches at this node. A pure function of the pattern
/// and the node's subtree, so the same scan always yields the same findings.
pub open spec fn pat_matches(p: PatternView, n: AstNode) -> bool {
    match p {
        PatternView::CmpIdenticalOperands => match n.kind {
            NodeKind::Binary(op) => is_cmp(op) && n.children@.len() == 2 && node_eq(
                n.children@[0],
                n.children@[1],
            ),
            _ => false,
        },
        PatternView::BinWithIntLit { op, lit } => match n.kind {
            NodeKind::Binary(o) => o == op && n.children@.len() == 2 && (is_int_lit(
                n.children@[0],
                lit,
            ) || is_int_lit(n.children@[1], lit)),
            _ => false,
        },
        PatternView::MethodCmpInt { method, lit } => match n.kind {
            NodeKind::Binary(o) => is_cmp(o) && n.children@.len() == 2 && ((is_method_named(
                n.children@[0],
                method,
            ) && is_int_lit(n.children@[1], lit)) || (is_int_lit(n.children@[0], lit)
                && is_method_named(n.children@[1], method))),
            _ => false,
        },
        PatternView::MethodChain { first, second } => is_method_named(n, second)
            && n.children@.len() >= 1 && is_method_named(n.children@[0], first),
        PatternView::MethodWithIntArg { method, arg } => is_method_named(n, method)
            && n.children@.len() == 2 && is_int_lit(n.children@[1], arg),
        PatternView::MethodNamed { name } => is_method_named(n, name),
        PatternView::IfBoolBranches => match n.kind {
            NodeKind::If => n.children@.len() == 3 && is_bool_outcome(n.children@[1])
                && is_bool_outcome(n.children@[2]),
            _ => false,
        },
        PatternView::CollapsibleIf => is_if_no_else(n) && is_only_stmt_if(n.children@[1]),
        PatternView::MatchOnBoolArms => match n.kind {
            NodeKind::Match => n.children@.len() >= 3 && (forall|i: int|
                1 <= i < n.children@.len() ==> is_bool_arm(#[trigger] n.children@[i])),
            _ => false,
        },
        PatternView::OptionMatchToBool => match n.kind {
            NodeKind::Match => n.children@.len() == 3 && is_arm_bool_body(
                n.children@[1],
                ArmPat::SomePat,
            ) && is_arm_bool_body(n.children@[2], ArmPat::NonePat),
            _ => false,
        },
        PatternView::SingleArmMatch => match n.kind {
            NodeKind::Match => n.children@.len() == 3 && (match n.children@[1].kind {
                NodeKind::Arm(q) => q != ArmPat::Wildcard,
                _ => false,
            }) && is_empty_wildcard_arm(n.children@[2]),
            _ => false,
        },
    }
}

/// Decides whether the node is a call of the named method.
fn is_method_named_exec(n: &AstNode, name: &str) -> (r: bool)
    ensures
        r == is_method_named(*n, name@),
{
    match &n.kind {
        NodeKind::MethodCall(m) => crate::text::str_eq_str(m.as_str(), name),
        _ => false,
    }
}

/// Decides whether the node is the integer literal `v`.
fn is_int_lit_exec(n: &AstNode, v: i64) -> (r: bool)
    ensures
        r == is_int_lit(*n, v),
{
    match &n.kind {
        NodeKind::IntLit(x) => *x == v,
        _ => false,
    }
}

/// Decides whether the node produces a bare boolean literal.
fn is_bool_outcome_exec(n: &AstNode) -> (r: bool)
    ensures
        r == is_bool_outcome(*n),
{
    match &n.kind {
        NodeKind::BoolLit(_) => true,
        NodeKind::Block => n.children.len() == 1 && (match &n.children[0].kind {
            NodeKind::BoolLit(_) => true,
            _ => false,
        }),
        _ => false,
    }
}

/// Decides whether the node is an `if` without an else-branch.
fn is_if_no_else_exec(n: &AstNode) -> (r: bool)
    ensures
        r == is_if_no_else(*n),
{
    match &n.kind {
        NodeKind::If => n.children.len() == 2,
        _ => false,
    }
}

/// Decides whether the node is an arm with the given pattern whose body is a
/// bare boolean literal.
fn is_arm_bool_body_exec(n: &AstNode, p: ArmPat) -> (r: bool)
    ensures
        r == is_arm_bool_body(*n, p),
{
    match &n.kind {
        NodeKind::Arm(q) => *q == p && n.children.len() == 1 && is_bool_outcome_exec(
            &n.children[0],
        ),
        _ => false,
    }
}

/// Decides whether the pattern matches at this node.
pub fn pat_matches_exec(p: &Pattern, n: &AstNode) -> (r: bool)
    ensures
        r == pat_matches(p@, *n),
{
    match p {
        Pattern::CmpIdenticalOperands => match &n.kind {
            NodeKind::Binary(op) => {
                let c = match op {
                    BinOp::Eq => true,
                    BinOp::Ne => true,
                    BinOp::Lt => true,
                    BinOp::Le => true,
                    BinOp::Gt => true,
                    BinOp::Ge => true,
                    _ => false,
                };
                c && n.children.len() == 2 && node_eq_exec(&n.children[0], &n.children[1])
            },
            _ => false,
        },
        Pattern::BinWithIntLit { op, lit } => match &n.kind {
            NodeKind::Binary(o) => *o == *op && n.children.len() == 2 && (is_int_lit_exec(
                &n.children[0],
                *lit,
            ) || is_int_lit_exec(&n.children[1], *lit)),
            _ => false,
        },
        Pattern::MethodCmpInt { method, lit } => match &n.kind {
            NodeKind::Binary(o) => {
                let c = match o {
                    BinOp::Eq => true,
                    BinOp::Ne => true,
                    BinOp::Lt => true,
                    BinOp::Le => true,
                    BinOp::Gt => true,
                    BinOp::Ge => true,
                    _ => false,
                };
                c && n.children.len() == 2 && ((is_method_named_exec(
                    &n.children[0],
                    method.as_str(),
                ) && is_int_lit_exec(&n.children[1], *lit)) || (is_int_lit_exec(
                    &n.children[0],
                    *lit,
                ) && is_method_named_exec(&n.children[1], method.as_str())))
            },
            _ => false,
        },
        Pattern::MethodChain { first, second } => is_method_named_exec(n, second.as_str())
            && n.children.len() >= 1 && is_method_named_exec(&n.children[0], first.as_str()),
        Pattern::MethodWithIntArg { method, arg } => is_method_named_exec(n, method.as_str())
            && n.children.len() == 2 && is_int_lit_exec(&n.children[1], *arg),
        Pattern::MethodNamed { name } => is_method_named_exec(n, name.as_str()),
        Pattern::IfBoolBranches => match &n.kind {
            NodeKind::If => n.children.len() == 3 && is_bool_outcome_exec(&n.children[1])
                && is_bool_outcome_exec(&n.children[2]),
            _ => false,
        },
        Pattern::CollapsibleIf => {
            if !is_if_no_else_exec(n) {
                false
            } else {
                let c1 = &n.children[1];
                if is_if_no_else_exec(c1) {
                    true
                } else {
                    match &c1.kind {
                        NodeKind::Block => c1.children.len() == 1 && is_if_no_else_exec(
                            &c1.children[0],
                        ),
                        _ => false,
                    }
                }
            }
        },
        Pattern::MatchOnBoolArms => match &n.kind {
            NodeKind::Match => {
                let len = n.children.len();
                if len < 3 {
                    false
                } else {
                    let mut i: usize = 1;
                    let mut ok = true;
                    while i < len
                        invariant
                            1 <= i <= len,
                            len == n.children@.len(),
                            n.kind matches NodeKind::Match,
                            ok == (forall|k: int|
                                1 <= k < i ==> is_bool_arm(#[trigger] n.children@[k])),
                        decreases len - i,
                    {
                        let arm_ok = match &n.children[i].kind {
                            NodeKind::Arm(q) => *q == ArmPat::LitTrue || *q == ArmPat::LitFalse,
                            _ => false,
                        };
                        ok = ok && arm_ok;
                        i = i + 1;
                    }
                    ok
                }
            },
            _ => false,
        },
        Pattern::OptionMatchToBool => match &n.kind {
            NodeKind::Match => n.children.len() == 3 && is_arm_bool_body_exec(
                &n.children[1],
                ArmPat::SomePat,
            ) && is_arm_bool_body_exec(&n.children[2], ArmPat::NonePat),
            _ => false,
        },
        Pattern::SingleArmMatch => match &n.kind {
            NodeKind::Match => n.children.len() == 3 && (match &n.children[1].kind {
                NodeKind::Arm(q) => *q != ArmPat::Wildcard,
                _ => false,
            }) && (match &n.children[2].kind {
                NodeKind::Arm(p) => *p == ArmPat::Wildcard && n.children[2].children.len() == 1
                    && (match &n.children[2].children[0].kind {
                    NodeKind::Block => n.children[2].children[0].children.len() == 0,
                    _ => false,
                }),
                _ => false,
            }),
            _ => false,
        },
    }
}

/// The finding a rule produces at a node: the rule's name and default
/// severity, the node's span, and the rule's description as the message.
pub open spec fn mk_finding(r: RuleView, n: AstNode) -> FindingView {
    FindingView {
        rule_name: r.name,
        severity: r.default_severity,
        span: n.span,
        message: r.description,
    }
}

/// The findings produced at one node, in rule order.
pub open spec fn node_findings(n: AstNode, rules: Seq<RuleView>) -> Seq<FindingView>
    decreases rules.len(),
{
    if rules.len() == 0 {
        Seq::empty()
    } else {
        node_findings(n, rules.drop_last()) + (if pat_matches(rules.last().pattern, n) {
            seq![mk_finding(rules.last(), n)]
        } else {
            Seq::empty()
        })
    }
}

/// The raw findings of a whole subtree: this node's findings first, then
/// each child's in source order (a pre-order traversal).
pub open spec fn scan_spec(n: AstNode, rules: Seq<RuleView>) -> Seq<FindingView>
    decreases n,
{
    node_findings(n, rules) + scan_children(n.children@, rules)
}

/// The raw findings of a sequence of subtrees, in order.
pub open spec fn scan_children(s: Seq<AstNode>, rules: Seq<RuleView>) -> Seq<FindingView>
    decreases s,
{
    if s.len() == 0 {
        Seq::empty()
    } else {
        scan_children(s.drop_last(), rules) + scan_spec(s.last(), rules)
    }
}

/// Appends the subtree's raw findings to `out`.
fn scan_into(n: &AstNode, rules: &Vec<Rule>, out: &mut Vec<Finding>)
    ensures
        final(out).deep_view() == old(out).deep_view() + scan_spec(*n, rules.deep_view()),
    decreases *n,
{
    let ghost base = out.deep_view();
    let nr = rules.len();
    let mut j: usize = 0;
    proof {
        assert(rules.deep_view().take(0) =~= Seq::<RuleView>::empty());
        assert(base + node_findings(*n, rules.deep_view().take(0)) =~= base);
    }
    while j < nr
        invariant
            j <= nr,
            nr == rules@.len(),
            out.deep_view() == base + node_findings(*n, rules.deep_view().take(j as int)),
        decreases nr - j,
    {
        let ghost pre_rules = rules.deep_view().take(j as int);
        if pat_matches_exec(&rules[j].pattern, n) {
            let ghost pre = *out;
            let f = Finding {
                rule_name: rules[j].name.clone(),
                severity: rules[j].default_severity,
                span: n.span,
                message: rules[j].description.clone(),
            };
            proof {
                assert(f@ == mk_finding(rules.deep_view()[j as int], *n));
            }
            out.push(f);
            proof {
                crate::views::lemma_push_deep_view(pre, *out, f);
            }
        }
        proof {
            let rv = rules.deep_view();
            assert(rv.take(j + 1).drop_last() =~= rv.take(j as int));
            assert(rv.take(j + 1).last() == rv[j as int]);
            assert(out.deep_view() =~= base + node_findings(*n, rv.take(j + 1)));
        }
        j = j + 1;
    }
    proof {
        assert(rules.deep_view().take(nr as int) =~= rules.deep_view());
    }
    let nc = n.children.len();
    let mut i: usize = 0;
    proof {
        assert(n.children@.take(0) =~= Seq::<AstNode>::empty());
        assert(out.deep_view() =~= base + node_findings(*n, rules.deep_view()) + scan_children(
            n.children@.take(0),
            rules.deep_view(),
        ));
    }
    while i < nc
        invariant
            i <= nc,
            nc == n.children@.len(),
            out.deep_view() == base + node_findings(*n, rules.deep_view()) + scan_children(
                n.children@.take(i as int),
                rules.deep_view(),
            ),
        decreases nc - i,
    {
        scan_into(&n.children[i], rules, out);
        proof {
            let cs = n.children@;
            assert(cs.take(i + 1).drop_last() =~= cs.take(i as int));
            assert(cs.take(i + 1).last() == cs[i as int]);
            assert(out.deep_view() =~= base + node_findings(*n, rules.deep_view())
                + scan_children(cs.take(i + 1), rules.deep_view()));
        }
        i = i + 1;
    }
    proof {
        assert(n.children@.take(nc as int) =~= n.children@);
    }
}

/// The number of nodes in a subtree.
pub open spec fn node_count(n: AstNode) -> nat
    decreases n,
{
    1 + count_children(n.children@)
}

/// The number of nodes in a sequence of subtrees.
pub open spec fn count_children(s: Seq<AstNode>) -> nat
    decreases s,
{
    if s.len() == 0 {
        0
    } else {
        count_children(s.drop_last()) + node_count(s.last())
    }
}

/// One more subtree adds its own node count.
proof fn lemma_count_children_take(s: Seq<AstNode>, i: int)
    requires
        0 <= i < s.len(),
    ensures
        count_children(s.take(i + 1)) == count_children(s.take(i)) + node_count(s[i]),
{
    assert(s.take(i + 1).drop_last() =~= s.take(i));
    assert(s.take(i + 1).last() == s[i]);
}

/// A prefix never counts more nodes than the whole.
proof fn lemma_count_children_le(s: Seq<AstNode>, i: int)
    requires
        0 <= i <= s.len(),
    ensures
        count_children(s.take(i)) <= count_children(s),
    decreases s.len() - i,
{
    if i == s.len() {
        assert(s.take(i) =~= s);
    } else {
        lemma_count_children_take(s, i);
        lemma_count_children_le(s, i + 1);
    }
}

/// Appends the subtree's raw findings while fuel lasts, spending one unit
/// per node. Returns whether the whole subtree was visited.
fn scan_budget_into(n: &AstNode, rules: &Vec<Rule>, out: &mut Vec<Finding>, fuel: &mut u64) -> (complete:
    bool)
    ensures
        complete == (*old(fuel) >= node_count(*n)),
        complete ==> *final(fuel) == *old(fuel) - node_count(*n),
        complete ==> final(out).deep_view() == old(out).deep_view() + scan_spec(
            *n,
            rules.deep_view(),
        ),
    decreases *n,
{
    if *fuel == 0 {
        return false;
    }
    *fuel = *fuel - 1;
    let ghost base = out.deep_view();
    let ghost fuel0 = *fuel;
    let nr = rules.len();
    let mut j: usize = 0;
    proof {
        assert(rules.deep_view().take(0) =~= Seq::<RuleView>::empty());
        assert(base + node_findings(*n, rules.deep_view().take(0)) =~= base);
    }
    while j < nr
        invariant
            j <= nr,
            nr == rules@.len(),
            *fuel == fuel0,
            out.deep_view() == base + node_findings(*n, rules.deep_view().take(j as int)),
        decreases nr - j,
    {
        if pat_matches_exec(&rules[j].pattern, n) {
            let ghost pre = *out;
            let f = Finding {
                rule_name: rules[j].name.clone(),
                severity: rules[j].default_severity,
                span: n.span,
                message: rules[j].description.clone(),
            };
            proof {
                assert(f@ == mk_finding(rules.deep_view()[j as int], *n));
            }
            out.push(f);
            proof {
                crate::views::lemma_push_deep_view(pre, *out, f);
            }
        }
        proof {
            let rv = rules.deep_view();
            assert(rv.take(j + 1).drop_last() =~= rv.take(j as int));
            assert(rv.take(j + 1).last() == rv[j as int]);
            assert(out.deep_view() =~= base + node_findings(*n, rv.take(j + 1)));
        }
        j = j + 1;
    }
    proof {
        assert(rules.deep_view().take(nr as int) =~= rules.deep_view());
    }
    let nc = n.children.len();
    let mut i: usize = 0;
    proof {
        assert(n.children@.take(0) =~= Seq::<AstNode>::empty());
        assert(out.deep_view() =~= base + node_findings(*n, rules.deep_view()) + scan_children(
            n.children@.take(0),
            rules.deep_view(),
        ));
    }
    while i < nc
        invariant
            i <= nc,
            nc == n.children@.len(),
            fuel0 + 1 == *old(fuel),
            *fuel == fuel0 - count_children(n.children@.take(i as int)),
            fuel0 >= count_children(n.children@.take(i as int)),
            out.deep_view() == base + node_findings(*n, rules.deep_view()) + scan_children(
                n.children@.take(i as int),
                rules.deep_view(),
            ),
        decreases nc - i,
    {
        let ghost fuel_before = *fuel;
        let ok = scan_budget_into(&n.children[i], rules, out, fuel);
        if !ok {
            proof {
                lemma_count_children_take(n.children@, i as int);
                lemma_count_children_le(n.children@, i + 1);
                assert(fuel_before < node_count(n.children@[i as int]));
                assert(*old(fuel) < node_count(*n));
            }
            return false;
        }
        proof {
            let cs = n.children@;
            lemma_count_children_take(cs, i as int);
            assert(cs.take(i + 1).drop_last() =~= cs.take(i as int));
            assert(cs.take(i + 1).last() == cs[i as int]);
            assert(out.deep_view() =~= base + node_findings(*n, rules.deep_view())
                + scan_children(cs.take(i + 1), rules.deep_view()));
        }
        i = i + 1;
    }
    proof {
        assert(n.children@.take(nc as int) =~= n.children@);
    }
    true
}

/// Scans under a node budget: between subtree visits the traversal checks
/// whether the budget is spent, and if so stops cooperatively. The boolean
/// says whether the scan is complete; when it is, the findings are exactly
/// those of an unbounded scan, and otherwise the findings gathered so far
/// are handed back with the incomplete marker.
pub fn scan_with_budget(ast_root: &AstNode, rules: &Vec<Rule>, budget: u64) -> (r: (
    Vec<Finding>,
    bool,
))
    ensures
        r.1 == (budget >= node_count(*ast_root)),
        r.1 ==> r.0.deep_view() == scan_spec(*ast_root, rules.deep_view()),
{
    let mut out: Vec<Finding> = Vec::new();
    let mut fuel = budget;
    proof {
        assert(out.deep_view() =~= Seq::<FindingView>::empty());
    }
    let complete = scan_budget_into(ast_root, rules, &mut out, &mut fuel);
    proof {
        if complete {
            assert(out.deep_view() =~= scan_spec(*ast_root, rules.deep_view()));
        }
    }
    (out, complete)
}

/// Scans the tree: one pre-order depth-first traversal, evaluating every
/// rule at every node. Returns the raw findings in traversal order.
pub fn scan(ast_root: &AstNode, rules: &Vec<Rule>) -> (out: Vec<Finding>)
    ensures
        out.deep_view() == scan_spec(*ast_root, rules.deep_view()),
{
    let mut out: Vec<Finding> = Vec::new();
    proof {
        assert(out.deep_view() =~= Seq::<FindingView>::empty());
    }
    scan_into(ast_root, rules, &mut out);
    proof {
        assert(out.deep_view() =~= scan_spec(*ast_root, rules.deep_view()));
    }
    out
}

} // verus!
