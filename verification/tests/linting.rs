use svlint::config::Config;
use svlint::define::Defines;
use svlint::event::{Locate, NodeEvent, NodeKind, SyntaxNode, Variable};
use svlint::linter::Linter;
use svlint::opt::{sources, Filelist, Opt};
use svlint::run::LintRun;

fn loc(offset: usize) -> Locate {
    Locate { offset, line: 1, len: 1 }
}

fn enter(kind: NodeKind) -> NodeEvent {
    NodeEvent::Enter(SyntaxNode { kind, locate: Some(loc(7)) })
}

fn leave(kind: NodeKind) -> NodeEvent {
    NodeEvent::Leave(SyntaxNode { kind, locate: Some(loc(7)) })
}

fn comment(text: &str) -> NodeEvent {
    enter(NodeKind::Comment { text: text.to_string() })
}

fn bad_module() -> NodeEvent {
    enter(NodeKind::ModuleDeclaration { identifier: "a".to_string(), path: Some("b.sv".to_string()) })
}

fn package_with_parameter() -> NodeEvent {
    enter(NodeKind::PackageDeclaration { parameter: Some(loc(99)) })
}

fn opt() -> Opt {
    Opt {
        files: vec!["a.sv".to_string()],
        filelist: vec![],
        defines: vec![],
        includes: vec!["inc".to_string()],
        config: ".svlint.toml".to_string(),
        plugins: vec![],
        ignore_include: false,
        single: false,
        silent: false,
        verbose: false,
        github_actions: false,
        update_config: false,
        example: false,
    }
}

#[test]
fn config_switches() {
    let c = Config::new();
    assert!(!c.rules.identifier_matches_filename && !c.rules.implicit_case_default && !c.rules.parameter_in_package);
    let c = c.enable_all();
    assert!(c.rules.identifier_matches_filename && c.rules.implicit_case_default && c.rules.parameter_in_package);
}

#[test]
fn only_configured_rules_report() {
    let mut config = Config::new();
    config.rules.parameter_in_package = true;
    let mut linter = Linter::new(&config);
    assert!(linter.check(&bad_module()).is_empty());
    let failed = linter.check(&package_with_parameter());
    assert_eq!(failed.len(), 1);
    assert_eq!(failed[0].name, "parameter_in_package");
    assert_eq!(failed[0].hint, "Replace `parameter` keyword with `localparam`.");
    assert_eq!(failed[0].locate, Some(loc(99)));
}

#[test]
fn failures_without_a_place_are_at_the_node() {
    let mut linter = Linter::new(&Config::new().enable_all());
    let failed = linter.check(&bad_module());
    assert_eq!(failed.len(), 1);
    assert_eq!(failed[0].name, "identifier_matches_filename");
    assert_eq!(failed[0].reason, "The module name does not match the file name.");
    assert_eq!(failed[0].locate, Some(loc(7)));
}

#[test]
fn control_comments_switch_rules_off_and_on() {
    let mut linter = Linter::new(&Config::new().enable_all());
    let c = linter.control("/* svlint off identifier_matches_filename */").unwrap();
    assert!(!c.enable);
    assert_eq!(c.rule, "identifier_matches_filename");
    assert!(linter.check(&bad_module()).is_empty());
    assert_eq!(linter.check(&package_with_parameter()).len(), 1);
    assert!(linter.control("/* svlint on identifier_matches_filename */").unwrap().enable);
    assert_eq!(linter.check(&bad_module()).len(), 1);
}

#[test]
fn control_comments_for_unknown_rules_do_nothing() {
    let mut config = Config::new();
    config.rules.parameter_in_package = true;
    let mut linter = Linter::new(&config);
    assert!(linter.control("/* svlint off identifier_matches_filename */").is_none());
    assert!(linter.control("/* svlint off no_such_rule */").is_none());
    assert!(linter.control("// plain comment").is_none());
    assert_eq!(linter.check(&package_with_parameter()).len(), 1);
}

#[test]
fn a_run_passes_only_when_every_file_passes() {
    let mut run = LintRun::new(&Config::new().enable_all());
    run.start_file();
    let (control, failed) = run.event(&comment("/* svlint off identifier_matches_filename */"));
    assert_eq!(control.unwrap().rule, "identifier_matches_filename");
    assert!(failed.is_empty());
    assert!(run.event(&bad_module()).1.is_empty());
    assert!(run.finish_file());
    run.start_file();
    assert!(run.event(&comment("/* svlint on identifier_matches_filename */")).0.is_some());
    assert_eq!(run.event(&bad_module()).1.len(), 1);
    assert!(!run.finish_file());
    run.start_file();
    assert!(run.finish_file());
    assert!(!run.passed());
}

#[test]
fn a_file_that_does_not_parse_fails() {
    let mut run = LintRun::new(&Config::new());
    run.start_file();
    run.parse_failed();
    assert!(!run.finish_file());
    assert!(!run.passed());
}

#[test]
fn the_case_default_rule_runs_inside_the_linter() {
    let mut run = LintRun::new(&Config::new().enable_all());
    run.start_file();
    let y = |o: usize| Some(Variable { name: "y".to_string(), locate: loc(o) });
    let events = vec![
        enter(NodeKind::AlwaysConstruct),
        enter(NodeKind::CaseItemNondefault),
        enter(NodeKind::BlockingAssignment { variable: y(30) }),
        leave(NodeKind::CaseItemNondefault),
        leave(NodeKind::AlwaysConstruct),
    ];
    let mut failures = Vec::new();
    for e in events.iter() {
        assert!(run.admits(e));
        failures.extend(run.event(e).1);
    }
    assert_eq!(failures.len(), 1);
    assert_eq!(failures[0].name, "implicit_case_default");
    assert_eq!(failures[0].locate, Some(loc(30)));
}

#[test]
fn without_file_lists_the_options_name_the_sources() {
    let o = opt();
    let mut d = Defines::new();
    let lists = vec![Filelist { files: vec!["x.sv".to_string()], incdirs: vec![], defines: vec![] }];
    let (files, includes) = sources(&o, &lists, &mut d);
    assert_eq!(files, vec!["a.sv".to_string()]);
    assert_eq!(includes, vec!["inc".to_string()]);
    assert!(d.into_entries().is_empty());
}

#[test]
fn file_lists_add_their_sources_after_the_options() {
    let mut o = opt();
    o.filelist = vec!["l.f".to_string()];
    let mut d = Defines::new();
    let lists = vec![
        Filelist {
            files: vec!["x.sv".to_string()],
            incdirs: vec!["i1".to_string()],
            defines: vec![("D".to_string(), Some("=1".to_string()))],
        },
        Filelist { files: vec!["y.sv".to_string(), "z.sv".to_string()], incdirs: vec![], defines: vec![] },
    ];
    let (files, includes) = sources(&o, &lists, &mut d);
    assert_eq!(files, vec!["a.sv", "x.sv", "y.sv", "z.sv"]);
    assert_eq!(includes, vec!["inc", "i1"]);
    assert_eq!(d.into_entries(), vec![("D".to_string(), Some("1".to_string()))]);
}

#[test]
fn an_off_comment_holds_until_the_on_comment() {
    let mut run = LintRun::new(&Config::new().enable_all());
    run.start_file();
    assert!(run.event(&comment("/* svlint off identifier_matches_filename */")).0.is_some());
    assert!(run.event(&bad_module()).1.is_empty());
    assert!(run.event(&comment("// other")).0.is_none());
    assert!(run.event(&comment("/* svlint off parameter_in_package */")).0.is_some());
    assert!(run.event(&bad_module()).1.is_empty());
    assert!(run.event(&package_with_parameter()).1.is_empty());
    assert!(run.finish_file());
    run.start_file();
    assert!(run.event(&comment("/* svlint on identifier_matches_filename */")).0.is_some());
    assert_eq!(run.event(&bad_module()).1.len(), 1);
    assert!(run.event(&package_with_parameter()).1.is_empty());
    assert!(!run.finish_file());
    assert!(!run.passed());
}
