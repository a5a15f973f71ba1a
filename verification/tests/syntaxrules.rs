use svlint::event::{Locate, NodeEvent, NodeKind, SyntaxNode, SyntaxRuleResult, Variable};
use svlint::syntaxrules::identifier_matches_filename::{module_name_matches, IdentifierMatchesFilename};
use svlint::syntaxrules::implicit_case_default::ImplicitCaseDefault;
use svlint::syntaxrules::parameter_in_package::ParameterInPackage;

fn loc(offset: usize, line: u32) -> Locate {
    Locate { offset, line, len: 1 }
}

fn enter(kind: NodeKind) -> NodeEvent {
    NodeEvent::Enter(SyntaxNode { kind, locate: Some(loc(0, 1)) })
}

fn leave(kind: NodeKind) -> NodeEvent {
    NodeEvent::Leave(SyntaxNode { kind, locate: Some(loc(0, 1)) })
}

fn module(identifier: &str, path: Option<&str>) -> NodeKind {
    NodeKind::ModuleDeclaration { identifier: identifier.to_string(), path: path.map(|p| p.to_string()) }
}

fn var(name: &str, offset: usize, line: u32) -> Option<Variable> {
    Some(Variable { name: name.to_string(), locate: loc(offset, line) })
}

fn assign(name: &str, offset: usize, line: u32) -> NodeKind {
    NodeKind::BlockingAssignment { variable: var(name, offset, line) }
}

fn declare(name: &str, offset: usize, line: u32) -> NodeKind {
    NodeKind::BlockItemDeclaration { variable: var(name, offset, line) }
}

fn run_case_default(events: Vec<NodeEvent>) -> Vec<SyntaxRuleResult> {
    let mut rule = ImplicitCaseDefault::new();
    events
        .iter()
        .map(|e| {
            assert!(rule.admits(e));
            rule.check(e)
        })
        .filter(|r| *r != SyntaxRuleResult::Pass)
        .collect()
}

#[test]
fn module_in_file_of_its_name_passes() {
    let mut rule = IdentifierMatchesFilename::new();
    assert_eq!(rule.check(&enter(module("Bar", Some("some/path/to/Bar.sv")))), SyntaxRuleResult::Pass);
    assert_eq!(rule.check(&enter(module("Bar", Some("Bar.sv")))), SyntaxRuleResult::Pass);
    assert_eq!(rule.check(&enter(module("Bar", Some("/abs/Bar.sv/")))), SyntaxRuleResult::Pass);
    assert_eq!(rule.check(&enter(module("Bar", Some("./Bar.sv/.")))), SyntaxRuleResult::Pass);
}

#[test]
fn module_in_other_file_fails() {
    let mut rule = IdentifierMatchesFilename::new();
    assert_eq!(rule.check(&enter(module("Foo", Some("some/path/to/Bar.sv")))), SyntaxRuleResult::Fail);
    assert_eq!(rule.check(&enter(module("Bar", Some("some/path/to/Bar.v")))), SyntaxRuleResult::Fail);
    assert_eq!(rule.check(&enter(module("Bar", Some("some/path/to/bar.sv")))), SyntaxRuleResult::Fail);
    assert_eq!(rule.check(&enter(module("Bar", Some("Bar.sv/..")))), SyntaxRuleResult::Fail);
    assert_eq!(rule.check(&enter(module("Bar", Some("/")))), SyntaxRuleResult::Fail);
    assert_eq!(rule.check(&enter(module("Bar", Some("")))), SyntaxRuleResult::Fail);
    assert_eq!(rule.check(&enter(module("Bar", None))), SyntaxRuleResult::Fail);
}

#[test]
fn only_one_extension_is_removed() {
    assert!(!module_name_matches("Bar", "dir/Bar.sv.sv"));
    assert!(module_name_matches("Bar.sv", "dir/Bar.sv.sv"));
    let mut rule = IdentifierMatchesFilename::new();
    assert_eq!(rule.check(&enter(module("Bar", Some("some/path/to/Bar.sv.sv")))), SyntaxRuleResult::Fail);
    assert!(module_name_matches("", "dir/.sv"));
}

#[test]
fn identifier_rule_ignores_other_events() {
    let mut rule = IdentifierMatchesFilename::new();
    assert_eq!(rule.check(&leave(module("Foo", Some("Bar.sv")))), SyntaxRuleResult::Pass);
    assert_eq!(rule.check(&enter(NodeKind::Other)), SyntaxRuleResult::Pass);
    assert_eq!(rule.check(&enter(NodeKind::AlwaysConstruct)), SyntaxRuleResult::Pass);
}

#[test]
fn identifier_rule_texts() {
    let rule = IdentifierMatchesFilename::new();
    assert_eq!(rule.name(), "identifier_matches_filename");
    assert_eq!(
        rule.hint(),
        "Ensure that the module name matches the file name. module Bar should be in some/path/to/Bar.sv"
    );
    assert_eq!(rule.reason(), "The module name does not match the file name.");
}

#[test]
fn parameter_in_package_fails_at_the_parameter() {
    let mut rule = ParameterInPackage::new();
    let at = loc(42, 3);
    assert_eq!(
        rule.check(&enter(NodeKind::PackageDeclaration { parameter: Some(at) })),
        SyntaxRuleResult::FailLocate(at)
    );
    assert_eq!(rule.check(&enter(NodeKind::PackageDeclaration { parameter: None })), SyntaxRuleResult::Pass);
    assert_eq!(
        rule.check(&leave(NodeKind::PackageDeclaration { parameter: Some(at) })),
        SyntaxRuleResult::Pass
    );
    assert_eq!(rule.check(&enter(module("a", None))), SyntaxRuleResult::Pass);
}

#[test]
fn parameter_rule_texts() {
    let rule = ParameterInPackage::new();
    assert_eq!(rule.name(), "parameter_in_package");
    assert_eq!(rule.hint(), "Replace `parameter` keyword with `localparam`.");
    assert_eq!(rule.reason(), "In a package, `localparam` properly describes the non-overridable semantics.");
}

// always_comb begin y = 0; case (x) 1: y = 1; endcase end
#[test]
fn default_set_at_the_top_passes() {
    let r = run_case_default(vec![
        enter(NodeKind::AlwaysConstruct),
        enter(assign("y", 20, 2)),
        leave(assign("y", 20, 2)),
        enter(NodeKind::CaseItemNondefault),
        enter(assign("y", 40, 4)),
        leave(assign("y", 40, 4)),
        leave(NodeKind::CaseItemNondefault),
        leave(NodeKind::AlwaysConstruct),
    ]);
    assert!(r.is_empty());
}

// always_comb begin case (x) 1: y = 1; default: y = 0; endcase end
#[test]
fn default_item_for_the_variable_passes() {
    let r = run_case_default(vec![
        enter(NodeKind::AlwaysConstruct),
        enter(NodeKind::CaseItemNondefault),
        enter(assign("y", 40, 3)),
        leave(NodeKind::CaseItemNondefault),
        enter(NodeKind::CaseItemDefault),
        enter(assign("y", 60, 4)),
        leave(NodeKind::CaseItemDefault),
        leave(NodeKind::AlwaysConstruct),
    ]);
    assert!(r.is_empty());
}

// always_comb begin case (x) 1: y = 1; default: x = 0; endcase end
#[test]
fn default_item_for_another_variable_fails() {
    let r = run_case_default(vec![
        enter(NodeKind::AlwaysConstruct),
        enter(NodeKind::CaseItemNondefault),
        enter(assign("y", 40, 3)),
        leave(NodeKind::CaseItemNondefault),
        enter(NodeKind::CaseItemDefault),
        enter(assign("x", 60, 4)),
        leave(NodeKind::CaseItemDefault),
        leave(NodeKind::AlwaysConstruct),
    ]);
    assert_eq!(r, vec![SyntaxRuleResult::FailLocate(loc(40, 3))]);
}

#[test]
fn only_the_first_variable_of_a_default_item_counts() {
    let r = run_case_default(vec![
        enter(NodeKind::AlwaysConstruct),
        enter(NodeKind::CaseItemNondefault),
        enter(assign("a", 10, 2)),
        enter(assign("b", 20, 2)),
        leave(NodeKind::CaseItemNondefault),
        enter(NodeKind::CaseItemDefault),
        enter(assign("a", 30, 3)),
        enter(assign("b", 40, 3)),
        leave(NodeKind::CaseItemDefault),
        leave(NodeKind::AlwaysConstruct),
    ]);
    assert_eq!(r, vec![SyntaxRuleResult::FailLocate(loc(20, 2))]);
}

#[test]
fn assignments_under_conditions_are_no_defaults() {
    let r = run_case_default(vec![
        enter(NodeKind::AlwaysConstruct),
        enter(NodeKind::ConditionalStatement),
        enter(assign("y", 10, 2)),
        leave(NodeKind::ConditionalStatement),
        enter(NodeKind::CaseItemNondefault),
        enter(assign("y", 30, 3)),
        leave(NodeKind::CaseItemNondefault),
        leave(NodeKind::AlwaysConstruct),
    ]);
    assert_eq!(r, vec![SyntaxRuleResult::FailLocate(loc(30, 3))]);
}

#[test]
fn declarations_at_the_top_are_defaults() {
    let r = run_case_default(vec![
        enter(NodeKind::AlwaysConstruct),
        enter(declare("y", 10, 2)),
        enter(NodeKind::CaseItemNondefault),
        enter(assign("y", 30, 3)),
        leave(NodeKind::CaseItemNondefault),
        leave(NodeKind::AlwaysConstruct),
    ]);
    assert!(r.is_empty());
}

#[test]
fn each_always_construct_is_judged_alone() {
    let r = run_case_default(vec![
        enter(NodeKind::AlwaysConstruct),
        enter(assign("y", 10, 2)),
        leave(NodeKind::AlwaysConstruct),
        enter(NodeKind::AlwaysConstruct),
        enter(NodeKind::CaseItemNondefault),
        enter(assign("y", 30, 5)),
        leave(NodeKind::CaseItemNondefault),
        leave(NodeKind::AlwaysConstruct),
    ]);
    assert_eq!(r, vec![SyntaxRuleResult::FailLocate(loc(30, 5))]);
}

#[test]
fn the_latest_assignment_of_a_variable_is_reported() {
    let r = run_case_default(vec![
        enter(NodeKind::AlwaysConstruct),
        enter(NodeKind::CaseItemNondefault),
        enter(assign("z", 10, 2)),
        enter(assign("y", 20, 2)),
        leave(NodeKind::CaseItemNondefault),
        enter(NodeKind::CaseItemNondefault),
        enter(assign("z", 30, 3)),
        leave(NodeKind::CaseItemNondefault),
        leave(NodeKind::AlwaysConstruct),
    ]);
    assert_eq!(r, vec![SyntaxRuleResult::FailLocate(loc(30, 3))]);
}

#[test]
fn assignments_outside_always_are_ignored() {
    let r = run_case_default(vec![
        enter(NodeKind::CaseItemNondefault),
        enter(assign("y", 10, 2)),
        leave(NodeKind::CaseItemNondefault),
        enter(NodeKind::AlwaysConstruct),
        leave(NodeKind::AlwaysConstruct),
    ]);
    assert!(r.is_empty());
}

#[test]
fn case_default_admits_only_named_variables() {
    let mut rule = ImplicitCaseDefault::new();
    let bare_decl = enter(NodeKind::BlockItemDeclaration { variable: None });
    let bare_assign = enter(NodeKind::BlockingAssignment { variable: None });
    assert!(rule.admits(&bare_decl));
    rule.check(&enter(NodeKind::AlwaysConstruct));
    assert!(!rule.admits(&bare_decl));
    assert!(rule.admits(&bare_assign));
    rule.check(&enter(NodeKind::CaseItemNondefault));
    assert!(!rule.admits(&bare_assign));
}

#[test]
fn case_default_rule_texts() {
    let rule = ImplicitCaseDefault::new();
    assert_eq!(rule.name(), "implicit_case_default");
    assert_eq!(rule.hint(), "Signal driven in `case` statement does not have a default value.");
    assert_eq!(rule.reason(), "Default values ensure that signals are never metastable.");
}

// always_comb begin y = 0; case (a) 1: begin case (b) 2: y = 1; endcase z = 1; end endcase end
#[test]
fn an_assignment_after_a_nested_case_is_still_in_the_item() {
    let r = run_case_default(vec![
        enter(NodeKind::AlwaysConstruct),
        enter(assign("y", 10, 2)),
        enter(NodeKind::CaseItemNondefault),
        enter(NodeKind::CaseItemNondefault),
        enter(assign("y", 30, 3)),
        leave(NodeKind::CaseItemNondefault),
        enter(assign("z", 50, 4)),
        leave(NodeKind::CaseItemNondefault),
        leave(NodeKind::AlwaysConstruct),
    ]);
    assert_eq!(r, vec![SyntaxRuleResult::FailLocate(loc(50, 4))]);
}

// always_comb begin case (a) 1: case (b) default: y = 0; endcase endcase end
#[test]
fn a_default_nested_in_a_case_item_counts_as_a_default() {
    let r = run_case_default(vec![
        enter(NodeKind::AlwaysConstruct),
        enter(NodeKind::CaseItemNondefault),
        enter(NodeKind::CaseItemDefault),
        enter(assign("y", 30, 3)),
        leave(NodeKind::CaseItemDefault),
        leave(NodeKind::CaseItemNondefault),
        leave(NodeKind::AlwaysConstruct),
    ]);
    assert!(r.is_empty());
}
