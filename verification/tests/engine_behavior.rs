//! Behavior of the engine pipeline: scanning, aggregation, suppression,
//! overrides, and the multi-file merge.

use lintcore::ast::{ArmPat, AstNode, BinOp, NodeKind, Span};
use lintcore::defaults::default_rules;
use lintcore::diagnostics::{Finding, Severity};
use lintcore::engine::{
    analyze_file, analyze_files, get_enabled_rules, validate_config, Config, FileInput,
    ParseOutcome,
};
use lintcore::matcher::scan;
use lintcore::aggregate::aggregate;
use lintcore::resolve::{resolve, SeverityOverride, SuppressionDirective};
use lintcore::rules::{LintError, Pattern, Rule, RuleRegistry};

fn sp(sl: u32, sc: u32, el: u32, ec: u32) -> Span {
    Span {
        start_line: sl,
        start_col: sc,
        end_line: el,
        end_col: ec,
    }
}

fn node(kind: NodeKind, span: Span, children: Vec<AstNode>) -> AstNode {
    AstNode {
        kind,
        span,
        children,
    }
}

fn ident(name: &str, span: Span) -> AstNode {
    node(NodeKind::Ident(name.to_string()), span, vec![])
}

fn default_registry() -> RuleRegistry {
    let mut reg = RuleRegistry::new();
    for r in default_rules() {
        if reg.register(r).is_err() {
            panic!("default rules must have distinct names");
        }
    }
    reg
}

fn empty_config() -> Config {
    Config {
        enabled_rules: None,
        severity_overrides: vec![],
        suppression_directives: vec![],
    }
}

/// `x == x` at a known span.
fn eq_op_node(span: Span) -> AstNode {
    node(
        NodeKind::Binary(BinOp::Eq),
        span,
        vec![
            ident("x", sp(span.start_line, span.start_col, span.start_line, span.start_col)),
            ident("x", sp(span.start_line, span.end_col, span.start_line, span.end_col)),
        ],
    )
}

/// `v.len() == 0` at a known span.
fn len_zero_node(span: Span) -> AstNode {
    let recv = ident("v", sp(span.start_line, span.start_col, span.start_line, span.start_col));
    let call = node(
        NodeKind::MethodCall("len".to_string()),
        sp(span.start_line, span.start_col, span.start_line, span.start_col + 7),
        vec![recv],
    );
    let zero = node(
        NodeKind::IntLit(0),
        sp(span.start_line, span.end_col, span.start_line, span.end_col),
        vec![],
    );
    node(NodeKind::Binary(BinOp::Eq), span, vec![call, zero])
}

#[test]
fn eq_op_yields_exactly_one_warning() {
    let reg = default_registry();
    let cfg = empty_config();
    let ast = eq_op_node(sp(1, 1, 1, 6));
    let out = analyze_file(&ast, &reg, &cfg);
    assert_eq!(out.len(), 1);
    assert_eq!(out[0].rule_name, "eq_op");
    assert_eq!(out[0].severity, Severity::Warning);
    assert_eq!(out[0].span, sp(1, 1, 1, 6));
}

#[test]
fn len_zero_yields_one_finding() {
    let reg = default_registry();
    let cfg = empty_config();
    let ast = len_zero_node(sp(1, 1, 1, 12));
    let out = analyze_file(&ast, &reg, &cfg);
    assert_eq!(out.len(), 1);
    assert_eq!(out[0].rule_name, "len_zero");
}

#[test]
fn is_empty_yields_no_finding() {
    let reg = default_registry();
    let cfg = empty_config();
    let recv = ident("v", sp(1, 1, 1, 1));
    let ast = node(
        NodeKind::MethodCall("is_empty".to_string()),
        sp(1, 1, 1, 12),
        vec![recv],
    );
    let out = analyze_file(&ast, &reg, &cfg);
    assert_eq!(out.len(), 0);
}

#[test]
fn identical_runs_give_identical_output() {
    let reg = default_registry();
    let cfg = empty_config();
    let ast = node(
        NodeKind::Block,
        sp(1, 0, 9, 0),
        vec![eq_op_node(sp(2, 1, 2, 6)), len_zero_node(sp(3, 1, 3, 12))],
    );
    let a = analyze_file(&ast, &reg, &cfg);
    let b = analyze_file(&ast, &reg, &cfg);
    assert_eq!(a.len(), b.len());
    for i in 0..a.len() {
        assert_eq!(a[i].rule_name, b[i].rule_name);
        assert_eq!(a[i].severity, b[i].severity);
        assert_eq!(a[i].span, b[i].span);
        assert_eq!(a[i].message, b[i].message);
    }
}

#[test]
fn duplicate_findings_are_merged() {
    // Two structurally separate nodes carrying the same span produce the
    // same (rule, span) key; only one survives aggregation.
    let reg = default_registry();
    let cfg = empty_config();
    let ast = node(
        NodeKind::Block,
        sp(1, 0, 9, 0),
        vec![eq_op_node(sp(2, 1, 2, 6)), eq_op_node(sp(2, 1, 2, 6))],
    );
    let out = analyze_file(&ast, &reg, &cfg);
    assert_eq!(out.len(), 1);
    assert_eq!(out[0].rule_name, "eq_op");
}

#[test]
fn findings_are_sorted_by_position_then_rule() {
    let reg = default_registry();
    let cfg = empty_config();
    // len_zero at line 5, eq_op at line 2: output must order by line.
    let ast = node(
        NodeKind::Block,
        sp(1, 0, 9, 0),
        vec![len_zero_node(sp(5, 1, 5, 12)), eq_op_node(sp(2, 1, 2, 6))],
    );
    let out = analyze_file(&ast, &reg, &cfg);
    assert_eq!(out.len(), 2);
    assert_eq!(out[0].rule_name, "eq_op");
    assert_eq!(out[1].rule_name, "len_zero");
    // Same start position: rule names decide, alphabetically.
    let ast2 = node(
        NodeKind::Block,
        sp(1, 0, 9, 0),
        vec![len_zero_node(sp(2, 1, 2, 12)), eq_op_node(sp(2, 1, 2, 6))],
    );
    let out2 = analyze_file(&ast2, &reg, &cfg);
    assert_eq!(out2.len(), 2);
    assert_eq!(out2[0].rule_name, "eq_op");
    assert_eq!(out2[1].rule_name, "len_zero");
}

#[test]
fn suppression_with_empty_rule_set_removes_all_inside() {
    let reg = default_registry();
    let cfg = Config {
        enabled_rules: None,
        severity_overrides: vec![],
        suppression_directives: vec![SuppressionDirective {
            span: sp(1, 0, 9, 0),
            rule_names: vec![],
        }],
    };
    let ast = node(
        NodeKind::Block,
        sp(1, 0, 9, 0),
        vec![eq_op_node(sp(2, 1, 2, 6)), len_zero_node(sp(3, 1, 3, 12))],
    );
    let out = analyze_file(&ast, &reg, &cfg);
    assert_eq!(out.len(), 0);
}

#[test]
fn suppression_removes_exactly_the_named_rule_inside_its_span() {
    let reg = default_registry();
    let cfg = Config {
        enabled_rules: None,
        severity_overrides: vec![],
        suppression_directives: vec![SuppressionDirective {
            span: sp(2, 0, 3, 99),
            rule_names: vec!["eq_op".to_string()],
        }],
    };
    let ast = node(
        NodeKind::Block,
        sp(1, 0, 9, 0),
        vec![
            eq_op_node(sp(2, 1, 2, 6)),       // suppressed: eq_op inside the span
            len_zero_node(sp(3, 1, 3, 12)),   // kept: a different rule
            eq_op_node(sp(7, 1, 7, 6)),       // kept: outside the span
        ],
    );
    let out = analyze_file(&ast, &reg, &cfg);
    assert_eq!(out.len(), 2);
    assert_eq!(out[0].rule_name, "len_zero");
    assert_eq!(out[0].span, sp(3, 1, 3, 12));
    assert_eq!(out[1].rule_name, "eq_op");
    assert_eq!(out[1].span, sp(7, 1, 7, 6));
}

#[test]
fn severity_override_applies_and_is_idempotent() {
    let reg = default_registry();
    let cfg = empty_config();
    let ast = eq_op_node(sp(1, 1, 1, 6));
    let rules = get_enabled_rules(&reg, &cfg);
    let raw = scan(&ast, &rules);
    let agg = aggregate(&raw);
    let sups: Vec<SuppressionDirective> = vec![];
    let ovs = vec![SeverityOverride {
        rule_name: "eq_op".to_string(),
        severity: Severity::Error,
    }];
    let once = resolve(&agg, &sups, &ovs);
    assert_eq!(once.len(), 1);
    assert_eq!(once[0].severity, Severity::Error);
    let twice = resolve(&once, &sups, &ovs);
    assert_eq!(twice.len(), once.len());
    for i in 0..once.len() {
        assert_eq!(twice[i].rule_name, once[i].rule_name);
        assert_eq!(twice[i].severity, once[i].severity);
        assert_eq!(twice[i].span, once[i].span);
    }
}

#[test]
fn unnamed_rule_keeps_default_severity() {
    let reg = default_registry();
    let cfg = Config {
        enabled_rules: None,
        severity_overrides: vec![SeverityOverride {
            rule_name: "len_zero".to_string(),
            severity: Severity::Info,
        }],
        suppression_directives: vec![],
    };
    let ast = node(
        NodeKind::Block,
        sp(1, 0, 9, 0),
        vec![eq_op_node(sp(2, 1, 2, 6)), len_zero_node(sp(3, 1, 3, 12))],
    );
    let out = analyze_file(&ast, &reg, &cfg);
    assert_eq!(out.len(), 2);
    assert_eq!(out[0].rule_name, "eq_op");
    assert_eq!(out[0].severity, Severity::Warning);
    assert_eq!(out[1].rule_name, "len_zero");
    assert_eq!(out[1].severity, Severity::Info);
}

#[test]
fn merged_output_is_sorted_by_path_regardless_of_input_order() {
    let reg = default_registry();
    let cfg = empty_config();
    // File A has 3 findings, file B has 1; B is handed in first.
    let ast_a = node(
        NodeKind::Block,
        sp(1, 0, 9, 0),
        vec![
            eq_op_node(sp(2, 1, 2, 6)),
            eq_op_node(sp(3, 1, 3, 6)),
            len_zero_node(sp(4, 1, 4, 12)),
        ],
    );
    let ast_b = node(NodeKind::Block, sp(1, 0, 9, 0), vec![eq_op_node(sp(5, 1, 5, 6))]);
    let files = vec![
        FileInput {
            path: "b.rs".to_string(),
            parse: ParseOutcome::Parsed(ast_b),
        },
        FileInput {
            path: "a.rs".to_string(),
            parse: ParseOutcome::Parsed(ast_a),
        },
    ];
    let reports = match analyze_files(&files, &reg, &cfg) {
        Ok(r) => r,
        Err(_) => panic!("configuration is well-formed"),
    };
    assert_eq!(reports.len(), 2);
    assert_eq!(reports[0].path, "a.rs");
    assert_eq!(reports[0].findings.len(), 3);
    assert_eq!(reports[1].path, "b.rs");
    assert_eq!(reports[1].findings.len(), 1);
}

#[test]
fn parse_failure_becomes_structural_diagnostic_and_run_continues() {
    let reg = default_registry();
    let cfg = empty_config();
    let files = vec![
        FileInput {
            path: "bad.rs".to_string(),
            parse: ParseOutcome::Failed("unexpected token".to_string()),
        },
        FileInput {
            path: "good.rs".to_string(),
            parse: ParseOutcome::Parsed(eq_op_node(sp(1, 1, 1, 6))),
        },
    ];
    let reports = match analyze_files(&files, &reg, &cfg) {
        Ok(r) => r,
        Err(_) => panic!("configuration is well-formed"),
    };
    assert_eq!(reports.len(), 2);
    assert_eq!(reports[0].path, "bad.rs");
    assert_eq!(reports[0].findings.len(), 1);
    assert_eq!(reports[0].findings[0].rule_name, "parse_error");
    assert_eq!(reports[0].findings[0].severity, Severity::Error);
    assert_eq!(reports[0].findings[0].message, "unexpected token");
    assert_eq!(reports[1].path, "good.rs");
    assert_eq!(reports[1].findings.len(), 1);
}

#[test]
fn duplicate_rule_registration_fails_and_keeps_registry() {
    let mut reg = RuleRegistry::new();
    let mk = || Rule {
        name: "eq_op".to_string(),
        description: "identical operands".to_string(),
        default_severity: Severity::Warning,
        pattern: Pattern::CmpIdenticalOperands,
    };
    assert!(reg.register(mk()).is_ok());
    match reg.register(mk()) {
        Err(LintError::DuplicateRule { name }) => assert_eq!(name, "eq_op"),
        _ => panic!("second registration under the same name must fail"),
    }
    assert_eq!(reg.rule_count(), 1);
}

#[test]
fn malformed_config_is_rejected_before_any_file() {
    let reg = default_registry();
    // An override map naming one rule twice is ambiguous.
    let cfg = Config {
        enabled_rules: None,
        severity_overrides: vec![
            SeverityOverride {
                rule_name: "eq_op".to_string(),
                severity: Severity::Error,
            },
            SeverityOverride {
                rule_name: "eq_op".to_string(),
                severity: Severity::Info,
            },
        ],
        suppression_directives: vec![],
    };
    let files = vec![FileInput {
        path: "a.rs".to_string(),
        parse: ParseOutcome::Parsed(eq_op_node(sp(1, 1, 1, 6))),
    }];
    match analyze_files(&files, &reg, &cfg) {
        Err(LintError::BadConfig { .. }) => {}
        _ => panic!("duplicate override entries must be rejected"),
    }
    // A suppression span that ends before it starts is malformed.
    let cfg2 = Config {
        enabled_rules: None,
        severity_overrides: vec![],
        suppression_directives: vec![SuppressionDirective {
            span: sp(5, 0, 2, 0),
            rule_names: vec![],
        }],
    };
    assert!(validate_config(&cfg2).is_err());
    assert!(validate_config(&empty_config()).is_ok());
}

#[test]
fn disabled_rules_are_not_consulted() {
    let reg = default_registry();
    let cfg = Config {
        enabled_rules: Some(vec!["len_zero".to_string()]),
        severity_overrides: vec![],
        suppression_directives: vec![],
    };
    let ast = node(
        NodeKind::Block,
        sp(1, 0, 9, 0),
        vec![eq_op_node(sp(2, 1, 2, 6)), len_zero_node(sp(3, 1, 3, 12))],
    );
    let out = analyze_file(&ast, &reg, &cfg);
    assert_eq!(out.len(), 1);
    assert_eq!(out[0].rule_name, "len_zero");
    let rules = get_enabled_rules(&reg, &cfg);
    assert_eq!(rules.len(), 1);
    assert_eq!(rules[0].name, "len_zero");
}

#[test]
fn overlapping_distinct_rules_are_both_kept() {
    // `(x & 0) == (x & 0)`: eq_op fires at the comparison and bad_bit_mask
    // at each operand; none of the three findings hides another.
    let reg = default_registry();
    let cfg = empty_config();
    let mask = |s: Span| {
        node(
            NodeKind::Binary(BinOp::BitAnd),
            s,
            vec![ident("x", s), node(NodeKind::IntLit(0), s, vec![])],
        )
    };
    let cmp = node(
        NodeKind::Binary(BinOp::Eq),
        sp(1, 1, 1, 16),
        vec![mask(sp(1, 1, 1, 7)), mask(sp(1, 10, 1, 16))],
    );
    let out = analyze_file(&cmp, &reg, &cfg);
    let names: Vec<&str> = out.iter().map(|f| f.rule_name.as_str()).collect();
    // Same start position for the comparison and its left operand: the rule
    // name breaks the tie, and "bad_bit_mask" orders before "eq_op".
    assert_eq!(names, vec!["bad_bit_mask", "eq_op", "bad_bit_mask"]);
}

#[test]
fn match_shapes_are_recognized() {
    let reg = default_registry();
    let cfg = empty_config();
    // match b { true => .., false => .. }
    let arm_t = node(
        NodeKind::Arm(ArmPat::LitTrue),
        sp(2, 1, 2, 9),
        vec![node(NodeKind::IntLit(1), sp(2, 5, 2, 9), vec![])],
    );
    let arm_f = node(
        NodeKind::Arm(ArmPat::LitFalse),
        sp(3, 1, 3, 9),
        vec![node(NodeKind::IntLit(0), sp(3, 5, 3, 9), vec![])],
    );
    let m = node(
        NodeKind::Match,
        sp(1, 1, 4, 1),
        vec![ident("b", sp(1, 7, 1, 7)), arm_t, arm_f],
    );
    let out = analyze_file(&m, &reg, &cfg);
    assert_eq!(out.len(), 1);
    assert_eq!(out[0].rule_name, "match_bool");
    // match x { Some(_) => true, None => false }
    let arm_some = node(
        NodeKind::Arm(ArmPat::SomePat),
        sp(2, 1, 2, 16),
        vec![node(NodeKind::BoolLit(true), sp(2, 12, 2, 16), vec![])],
    );
    let arm_none = node(
        NodeKind::Arm(ArmPat::NonePat),
        sp(3, 1, 3, 14),
        vec![node(NodeKind::BoolLit(false), sp(3, 9, 3, 14), vec![])],
    );
    let m2 = node(
        NodeKind::Match,
        sp(1, 1, 4, 1),
        vec![ident("x", sp(1, 7, 1, 7)), arm_some, arm_none],
    );
    let out2 = analyze_file(&m2, &reg, &cfg);
    assert_eq!(out2.len(), 1);
    assert_eq!(out2[0].rule_name, "redundant_pattern_matching");
}

#[test]
fn method_chain_shapes_are_recognized() {
    let reg = default_registry();
    let cfg = empty_config();
    // v.iter().find(..).is_some()
    let iter_call = node(
        NodeKind::MethodCall("iter".to_string()),
        sp(1, 1, 1, 8),
        vec![ident("v", sp(1, 1, 1, 1))],
    );
    let find_call = node(
        NodeKind::MethodCall("find".to_string()),
        sp(1, 1, 1, 16),
        vec![iter_call],
    );
    let is_some_call = node(
        NodeKind::MethodCall("is_some".to_string()),
        sp(1, 1, 1, 26),
        vec![find_call],
    );
    let out = analyze_file(&is_some_call, &reg, &cfg);
    assert_eq!(out.len(), 1);
    assert_eq!(out[0].rule_name, "search_is_some");
    // v.iter().nth(0)
    let iter2 = node(
        NodeKind::MethodCall("iter".to_string()),
        sp(1, 1, 1, 8),
        vec![ident("v", sp(1, 1, 1, 1))],
    );
    let nth = node(
        NodeKind::MethodCall("nth".to_string()),
        sp(1, 1, 1, 15),
        vec![iter2, node(NodeKind::IntLit(0), sp(1, 14, 1, 14), vec![])],
    );
    let out2 = analyze_file(&nth, &reg, &cfg);
    assert_eq!(out2.len(), 1);
    assert_eq!(out2[0].rule_name, "iter_nth_zero");
}

#[test]
fn if_shapes_are_recognized() {
    let reg = default_registry();
    let cfg = empty_config();
    // if x { true } else { false }
    let then_b = node(
        NodeKind::Block,
        sp(1, 8, 1, 14),
        vec![node(NodeKind::BoolLit(true), sp(1, 10, 1, 13), vec![])],
    );
    let else_b = node(
        NodeKind::Block,
        sp(1, 21, 1, 28),
        vec![node(NodeKind::BoolLit(false), sp(1, 23, 1, 27), vec![])],
    );
    let iff = node(
        NodeKind::If,
        sp(1, 1, 1, 28),
        vec![ident("x", sp(1, 4, 1, 4)), then_b, else_b],
    );
    let out = analyze_file(&iff, &reg, &cfg);
    assert_eq!(out.len(), 1);
    assert_eq!(out[0].rule_name, "needless_bool");
    // if a { if b { .. } }: collapsible
    let inner = node(
        NodeKind::If,
        sp(2, 5, 4, 5),
        vec![
            ident("b", sp(2, 8, 2, 8)),
            node(NodeKind::Block, sp(2, 10, 4, 5), vec![]),
        ],
    );
    let outer_then = node(NodeKind::Block, sp(1, 8, 5, 1), vec![inner]);
    let outer = node(
        NodeKind::If,
        sp(1, 1, 5, 1),
        vec![ident("a", sp(1, 4, 1, 4)), outer_then],
    );
    let out2 = analyze_file(&outer, &reg, &cfg);
    assert_eq!(out2.len(), 1);
    assert_eq!(out2[0].rule_name, "collapsible_if");
}

#[test]
fn budgeted_scan_marks_incomplete_runs() {
    let reg = default_registry();
    let cfg = empty_config();
    let rules = get_enabled_rules(&reg, &cfg);
    let ast = node(
        NodeKind::Block,
        sp(1, 0, 9, 0),
        vec![
            eq_op_node(sp(2, 1, 2, 6)),
            eq_op_node(sp(3, 1, 3, 6)),
            eq_op_node(sp(4, 1, 4, 6)),
        ],
    );
    let full = scan(&ast, &rules);
    // 10 nodes in all: the block, three comparisons, six identifiers.
    let (complete_out, complete) = lintcore::matcher::scan_with_budget(&ast, &rules, 10);
    assert!(complete);
    assert_eq!(complete_out.len(), full.len());
    let (partial_out, done) = lintcore::matcher::scan_with_budget(&ast, &rules, 4);
    assert!(!done);
    assert!(partial_out.len() < full.len());
}

#[test]
fn aggregate_keeps_first_of_each_key() {
    let sups: Vec<SuppressionDirective> = vec![];
    let ovs: Vec<SeverityOverride> = vec![];
    let raw = vec![
        Finding {
            rule_name: "eq_op".to_string(),
            severity: Severity::Warning,
            span: sp(1, 1, 1, 6),
            message: "first".to_string(),
        },
        Finding {
            rule_name: "eq_op".to_string(),
            severity: Severity::Warning,
            span: sp(1, 1, 1, 6),
            message: "second".to_string(),
        },
    ];
    let agg = aggregate(&raw);
    assert_eq!(agg.len(), 1);
    assert_eq!(agg[0].message, "first");
    let resolved = resolve(&agg, &sups, &ovs);
    assert_eq!(resolved.len(), 1);
    assert_eq!(resolved[0].message, "first");
}
