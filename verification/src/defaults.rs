//! The rule set the engine ships with: one rule per supported pattern
//! shape, named after the idiom each one flags.

use vstd::prelude::*;
use vstd::string::StringExecFns;
use crate::ast::BinOp;
use crate::diagnostics::Severity;
use crate::rules::{Pattern, PatternView, Rule, RuleView};

verus! {

/// A rule view assembled from its parts.
pub open spec fn named_rule(
    name: Seq<char>,
    description: Seq<char>,
    sev: Severity,
    pattern: PatternView,
) -> RuleView {
    RuleView { name: name, description: description, default_severity: sev, pattern: pattern }
}

/// The stock rules, in their fixed registration order.
pub open spec fn default_rules_spec() -> Seq<RuleView> {
    seq![
        named_rule(
            "eq_op"@,
            "identical expressions on both sides of a comparison"@,
            Severity::Warning,
            PatternView::CmpIdenticalOperands,
        ),
        named_rule(
            "erasing_op"@,
            "multiplying by zero always yields zero"@,
            Severity::Warning,
            PatternView::BinWithIntLit { op: BinOp::Mul, lit: 0 },
        ),
        named_rule(
            "bad_bit_mask"@,
            "masking with zero always yields zero"@,
            Severity::Warning,
            PatternView::BinWithIntLit { op: BinOp::BitAnd, lit: 0 },
        ),
        named_rule(
            "len_zero"@,
            "comparing len() with zero instead of using is_empty()"@,
            Severity::Warning,
            PatternView::MethodCmpInt { method: "len"@, lit: 0 },
        ),
        named_rule(
            "needless_bool"@,
            "an if that spells out the boolean it already has"@,
            Severity::Warning,
            PatternView::IfBoolBranches,
        ),
        named_rule(
            "collapsible_if"@,
            "nested ifs that can be collapsed into one"@,
            Severity::Info,
            PatternView::CollapsibleIf,
        ),
        named_rule(
            "match_bool"@,
            "a match on a boolean where an if would do"@,
            Severity::Info,
            PatternView::MatchOnBoolArms,
        ),
        named_rule(
            "redundant_pattern_matching"@,
            "a match that spells out is_some"@,
            Severity::Warning,
            PatternView::OptionMatchToBool,
        ),
        named_rule(
            "single_match"@,
            "a match with a single meaningful arm where if let would do"@,
            Severity::Info,
            PatternView::SingleArmMatch,
        ),
        named_rule(
            "search_is_some"@,
            "find(..).is_some() where any(..) would do"@,
            Severity::Warning,
            PatternView::MethodChain { first: "find"@, second: "is_some"@ },
        ),
        named_rule(
            "manual_filter_map"@,
            "a filter followed by map where filter_map would do"@,
            Severity::Warning,
            PatternView::MethodChain { first: "filter"@, second: "map"@ },
        ),
        named_rule(
            "iter_nth_zero"@,
            "nth(0) where first() would do"@,
            Severity::Warning,
            PatternView::MethodWithIntArg { method: "nth"@, arg: 0 },
        ),
        named_rule(
            "redundant_clone"@,
            "a clone that may not be needed"@,
            Severity::Info,
            PatternView::MethodNamed { name: "clone"@ },
        ),
    ]
}

/// Builds the stock rules, in the order `default_rules_spec` fixes.
pub fn default_rules() -> (out: Vec<Rule>)
    ensures
        out.deep_view() == default_rules_spec(),
{
    let mut out: Vec<Rule> = Vec::new();
    out.push(
        Rule {
            name: String::from_str("eq_op"),
            description: String::from_str("identical expressions on both sides of a comparison"),
            default_severity: Severity::Warning,
            pattern: Pattern::CmpIdenticalOperands,
        },
    );
    out.push(
        Rule {
            name: String::from_str("erasing_op"),
            description: String::from_str("multiplying by zero always yields zero"),
            default_severity: Severity::Warning,
            pattern: Pattern::BinWithIntLit { op: BinOp::Mul, lit: 0 },
        },
    );
    out.push(
        Rule {
            name: String::from_str("bad_bit_mask"),
            description: String::from_str("masking with zero always yields zero"),
            default_severity: Severity::Warning,
            pattern: Pattern::BinWithIntLit { op: BinOp::BitAnd, lit: 0 },
        },
    );
    out.push(
        Rule {
            name: String::from_str("len_zero"),
            description: String::from_str("comparing len() with zero instead of using is_empty()"),
            default_severity: Severity::Warning,
            pattern: Pattern::MethodCmpInt { method: String::from_str("len"), lit: 0 },
        },
    );
    out.push(
        Rule {
            name: String::from_str("needless_bool"),
            description: String::from_str("an if that spells out the boolean it already has"),
            default_severity: Severity::Warning,
            pattern: Pattern::IfBoolBranches,
        },
    );
    out.push(
        Rule {
            name: String::from_str("collapsible_if"),
            description: String::from_str("nested ifs that can be collapsed into one"),
            default_severity: Severity::Info,
            pattern: Pattern::CollapsibleIf,
        },
    );
    out.push(
        Rule {
            name: String::from_str("match_bool"),
            description: String::from_str("a match on a boolean where an if would do"),
            default_severity: Severity::Info,
            pattern: Pattern::MatchOnBoolArms,
        },
    );
    out.push(
        Rule {
            name: String::from_str("redundant_pattern_matching"),
            description: String::from_str("a match that spells out is_some"),
            default_severity: Severity::Warning,
            pattern: Pattern::OptionMatchToBool,
        },
    );
    out.push(
        Rule {
            name: String::from_str("single_match"),
            description: String::from_str(
                "a match with a single meaningful arm where if let would do",
            ),
            default_severity: Severity::Info,
            pattern: Pattern::SingleArmMatch,
        },
    );
    out.push(
        Rule {
            name: String::from_str("search_is_some"),
            description: String::from_str("find(..).is_some() where any(..) would do"),
            default_severity: Severity::Warning,
            pattern: Pattern::MethodChain {
                first: String::from_str("find"),
                second: String::from_str("is_some"),
            },
        },
    );
    out.push(
        Rule {
            name: String::from_str("manual_filter_map"),
            description: String::from_str("a filter followed by map where filter_map would do"),
            default_severity: Severity::Warning,
            pattern: Pattern::MethodChain {
                first: String::from_str("filter"),
                second: String::from_str("map"),
            },
        },
    );
    out.push(
        Rule {
            name: String::from_str("iter_nth_zero"),
            description: String::from_str("nth(0) where first() would do"),
            default_severity: Severity::Warning,
            pattern: Pattern::MethodWithIntArg { method: String::from_str("nth"), arg: 0 },
        },
    );
    out.push(
        Rule {
            name: String::from_str("redundant_clone"),
            description: String::from_str("a clone that may not be needed"),
            default_severity: Severity::Info,
            pattern: Pattern::MethodNamed { name: String::from_str("clone") },
        },
    );
    proof {
        assert(out.deep_view() =~= default_rules_spec());
    }
    out
}

} // verus!
