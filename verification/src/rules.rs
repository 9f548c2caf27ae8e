//! Lint rules: a closed set of structural pattern shapes, rule metadata, and
//! the registry that holds the rules in a stable registration order.

use vstd::prelude::*;
use crate::ast::BinOp;
use crate::diagnostics::Severity;

verus! {

/// The closed set of pattern shapes a rule predicate can take. Each shape is
/// a pure structural test on one node and its subtree.
pub enum Pattern {
    /// A comparison whose two operands are structurally identical.
    CmpIdenticalOperands,
    /// A binary expression with the given operator and an integer-literal
    /// operand of the given value on either side.
    BinWithIntLit { op: BinOp, lit: i64 },
    /// A comparison between a call of the named method and an integer
    /// literal of the given value, in either order.
    MethodCmpInt { method: String, lit: i64 },
    /// A call of `second` whose receiver is a call of `first`.
    MethodChain { first: String, second: String },
    /// A call of the named method with exactly one argument, the given
    /// integer literal.
    MethodWithIntArg { method: String, arg: i64 },
    /// Any call of the named method.
    MethodNamed { name: String },
    /// An `if` whose two branches are both boolean-literal outcomes.
    IfBoolBranches,
    /// An `if` without an else whose only nested statement is again an `if`
    /// without an else.
    CollapsibleIf,
    /// A `match` whose arms all test boolean literal patterns.
    MatchOnBoolArms,
    /// A `match` of `Some`/`None` arms that both produce boolean literals.
    OptionMatchToBool,
    /// A `match` with one meaningful arm and a wildcard arm with an empty
    /// body.
    SingleArmMatch,
}

/// The mathematical content of a pattern, with strings as character
/// sequences.
pub ghost enum PatternView {
    CmpIdenticalOperands,
    BinWithIntLit { op: BinOp, lit: i64 },
    MethodCmpInt { method: Seq<char>, lit: i64 },
    MethodChain { first: Seq<char>, second: Seq<char> },
    MethodWithIntArg { method: Seq<char>, arg: i64 },
    MethodNamed { name: Seq<char> },
    IfBoolBranches,
    CollapsibleIf,
    MatchOnBoolArms,
    OptionMatchToBool,
    SingleArmMatch,
}

impl View for Pattern {
    type V = PatternView;

    open spec fn view(&self) -> PatternView {
        match self {
            Pattern::CmpIdenticalOperands => PatternView::CmpIdenticalOperands,
            Pattern::BinWithIntLit { op, lit } => PatternView::BinWithIntLit {
                op: *op,
                lit: *lit,
            },
            Pattern::MethodCmpInt { method, lit } => PatternView::MethodCmpInt {
                method: method@,
                lit: *lit,
            },
            Pattern::MethodChain { first, second } => PatternView::MethodChain {
                first: first@,
                second: second@,
            },
            Pattern::MethodWithIntArg { method, arg } => PatternView::MethodWithIntArg {
                method: method@,
                arg: *arg,
            },
            Pattern::MethodNamed { name } => PatternView::MethodNamed { name: name@ },
            Pattern::IfBoolBranches => PatternView::IfBoolBranches,
            Pattern::CollapsibleIf => PatternView::CollapsibleIf,
            Pattern::MatchOnBoolArms => PatternView::MatchOnBoolArms,
            Pattern::OptionMatchToBool => PatternView::OptionMatchToBool,
            Pattern::SingleArmMatch => PatternView::SingleArmMatch,
        }
    }
}

impl DeepView for Pattern {
    type V = PatternView;

    open spec fn deep_view(&self) -> PatternView {
        self.view()
    }
}

/// One lint rule: a stable unique name, a description used as the finding
/// message, a default severity, and a pattern. Immutable once registered.
pub struct Rule {
    pub name: String,
    pub description: String,
    pub default_severity: Severity,
    pub pattern: Pattern,
}

/// The mathematical content of a rule.
pub ghost struct RuleView {
    pub name: Seq<char>,
    pub description: Seq<char>,
    pub default_severity: Severity,
    pub pattern: PatternView,
}

impl View for Rule {
    type V = RuleView;

    open spec fn view(&self) -> RuleView {
        RuleView {
            name: self.name@,
            description: self.description@,
            default_severity: self.default_severity,
            pattern: self.pattern@,
        }
    }
}

impl DeepView for Rule {
    type V = RuleView;

    open spec fn deep_view(&self) -> RuleView {
        self.view()
    }
}

/// A fresh pattern equal in view to the given one.
pub fn copy_pattern(p: &Pattern) -> (r: Pattern)
    ensures
        r@ == p@,
{
    match p {
        Pattern::CmpIdenticalOperands => Pattern::CmpIdenticalOperands,
        Pattern::BinWithIntLit { op, lit } => Pattern::BinWithIntLit { op: *op, lit: *lit },
        Pattern::MethodCmpInt { method, lit } => Pattern::MethodCmpInt {
            method: method.clone(),
            lit: *lit,
        },
        Pattern::MethodChain { first, second } => Pattern::MethodChain {
            first: first.clone(),
            second: second.clone(),
        },
        Pattern::MethodWithIntArg { method, arg } => Pattern::MethodWithIntArg {
            method: method.clone(),
            arg: *arg,
        },
        Pattern::MethodNamed { name } => Pattern::MethodNamed { name: name.clone() },
        Pattern::IfBoolBranches => Pattern::IfBoolBranches,
        Pattern::CollapsibleIf => Pattern::CollapsibleIf,
        Pattern::MatchOnBoolArms => Pattern::MatchOnBoolArms,
        Pattern::OptionMatchToBool => Pattern::OptionMatchToBool,
        Pattern::SingleArmMatch => Pattern::SingleArmMatch,
    }
}

/// A fresh rule equal in view to the given one.
pub fn copy_rule(r: &Rule) -> (out: Rule)
    ensures
        out@ == r@,
{
    Rule {
        name: r.name.clone(),
        description: r.description.clone(),
        default_severity: r.default_severity,
        pattern: copy_pattern(&r.pattern),
    }
}

/// A setup or configuration failure. Parse failures are per-file and are
/// reported inside that file's diagnostics instead.
#[derive(Debug)]
pub enum LintError {
    /// A rule with this name was already registered.
    DuplicateRule { name: String },
    /// The configuration is malformed, for the stated reason.
    BadConfig { reason: String },
}

/// A registered rule name occurs in `rules`.
pub open spec fn rules_contain_name(rules: Seq<RuleView>, name: Seq<char>) -> bool {
    exists|i: int| 0 <= i < rules.len() && rules[i].name == name
}

/// All rule names in `rules` are distinct.
pub open spec fn rule_names_unique(rules: Seq<RuleView>) -> bool {
    forall|i: int, j: int| 0 <= i < j < rules.len() ==> rules[i].name != rules[j].name
}

/// The registry of available rules, in registration order. The order is part
/// of the contract: enabled rules are handed out in this stable order, so
/// diagnostic output is reproducible across runs.
pub struct RuleRegistry {
    rules: Vec<Rule>,
}

impl RuleRegistry {
    /// The registered rules, in registration order.
    pub closed spec fn rules_seq(&self) -> Seq<RuleView> {
        self.rules.deep_view()
    }

    /// A well-formed registry holds no two rules of the same name.
    pub open spec fn wf(&self) -> bool {
        rule_names_unique(self.rules_seq())
    }

    /// An empty registry.
    pub fn new() -> (r: Self)
        ensures
            r.rules_seq() =~= Seq::<RuleView>::empty(),
            r.wf(),
    {
        let rules: Vec<Rule> = Vec::new();
        RuleRegistry { rules }
    }

    /// How many rules are registered.
    pub fn rule_count(&self) -> (n: usize)
        ensures
            n == self.rules_seq().len(),
    {
        self.rules.len()
    }

    /// The rule at a position, in registration order.
    pub fn rule_at(&self, i: usize) -> (r: &Rule)
        requires
            i < self.rules_seq().len(),
        ensures
            r@ == self.rules_seq()[i as int],
    {
        &self.rules[i]
    }

    /// Registers a rule. Fails, and leaves the registry unchanged, exactly
    /// when a rule of the same name is already present.
    pub fn register(&mut self, rule: Rule) -> (r: Result<(), LintError>)
        ensures
            match r {
                Ok(()) => !rules_contain_name(old(self).rules_seq(), rule@.name)
                    && final(self).rules_seq() == old(self).rules_seq().push(rule@),
                Err(e) => rules_contain_name(old(self).rules_seq(), rule@.name)
                    && final(self).rules_seq() == old(self).rules_seq() && (match e {
                    LintError::DuplicateRule { name } => name@ == rule@.name,
                    _ => false,
                }),
            },
            old(self).wf() ==> final(self).wf(),
    {
        let n = self.rules.len();
        let mut i: usize = 0;
        while i < n
            invariant
                i <= n,
                n == self.rules_seq().len(),
                self.rules_seq() == self.rules.deep_view(),
                forall|j: int| 0 <= j < i ==> self.rules_seq()[j].name != rule@.name,
            decreases n - i,
        {
            if crate::text::str_eq_str(self.rules[i].name.as_str(), rule.name.as_str()) {
                proof {
                    assert(self.rules_seq()[i as int].name == rule@.name);
                }
                return Err(LintError::DuplicateRule { name: rule.name });
            }
            i = i + 1;
        }
        let ghost pre = self.rules;
        let ghost rv = rule;
        self.rules.push(rule);
        proof {
            crate::views::lemma_push_deep_view(pre, self.rules, rv);
        }
        Ok(())
    }
}

} // verus!
