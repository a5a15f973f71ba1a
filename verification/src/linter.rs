//! The linter: the rules that the configuration switches on, each of which a
//! control comment can switch off and on again, run over the events of a walk.

use vstd::prelude::*;
use crate::config::Config;
use crate::control::{control_comment, control_in, ControlComment};
use crate::event::{Locate, NodeEvent, SyntaxRuleResult};
use crate::syntaxrules::identifier_matches_filename::{
    identifier_matches_filename_result,
    IdentifierMatchesFilename,
};
use crate::syntaxrules::implicit_case_default::{
    case_default_admits,
    case_default_initial,
    case_default_step,
    CaseDefaultState,
    ImplicitCaseDefault,
};
use crate::syntaxrules::parameter_in_package::{parameter_in_package_result, ParameterInPackage};

verus! {

/// A rule and what it remembers.
pub enum RuleState {
    IdentifierMatchesFilename,
    ImplicitCaseDefault(CaseDefaultState),
    ParameterInPackage,
}

/// A rule of the linter.
pub enum Rule {
    IdentifierMatchesFilename(IdentifierMatchesFilename),
    ImplicitCaseDefault(ImplicitCaseDefault),
    ParameterInPackage(ParameterInPackage),
}

impl View for Rule {
    type V = RuleState;

    open spec fn view(&self) -> RuleState {
        match self {
            Rule::IdentifierMatchesFilename(_) => RuleState::IdentifierMatchesFilename,
            Rule::ImplicitCaseDefault(r) => RuleState::ImplicitCaseDefault(r@),
            Rule::ParameterInPackage(_) => RuleState::ParameterInPackage,
        }
    }
}

pub open spec fn rule_name(r: RuleState) -> Seq<char> {
    match r {
        RuleState::IdentifierMatchesFilename => "identifier_matches_filename"@,
        RuleState::ImplicitCaseDefault(_) => "implicit_case_default"@,
        RuleState::ParameterInPackage => "parameter_in_package"@,
    }
}

pub open spec fn rule_hint(r: RuleState) -> Seq<char> {
    match r {
        RuleState::IdentifierMatchesFilename => "Ensure that the module name matches the file name. module Bar should be in some/path/to/Bar.sv"@,
        RuleState::ImplicitCaseDefault(_) => "Signal driven in `case` statement does not have a default value."@,
        RuleState::ParameterInPackage => "Replace `parameter` keyword with `localparam`."@,
    }
}

pub open spec fn rule_reason(r: RuleState) -> Seq<char> {
    match r {
        RuleState::IdentifierMatchesFilename => "The module name does not match the file name."@,
        RuleState::ImplicitCaseDefault(_) => "Default values ensure that signals are never metastable."@,
        RuleState::ParameterInPackage => "In a package, `localparam` properly describes the non-overridable semantics."@,
    }
}

pub open spec fn rule_admits(r: RuleState, event: NodeEvent) -> bool {
    match r {
        RuleState::ImplicitCaseDefault(s) => case_default_admits(s, event),
        _ => true,
    }
}

pub open spec fn rule_step(r: RuleState, event: NodeEvent) -> (RuleState, SyntaxRuleResult) {
    match r {
        RuleState::IdentifierMatchesFilename => (r, identifier_matches_filename_result(event)),
        RuleState::ImplicitCaseDefault(s) => {
            let (t, res) = case_default_step(s, event);
            (RuleState::ImplicitCaseDefault(t), res)
        },
        RuleState::ParameterInPackage => (r, parameter_in_package_result(event)),
    }
}

impl Rule {
    pub fn admits(&self, event: &NodeEvent) -> (r: bool)
        ensures
            r == rule_admits(self@, *event),
    {
        match self {
            Rule::ImplicitCaseDefault(rule) => rule.admits(event),
            _ => true,
        }
    }

    pub fn check(&mut self, event: &NodeEvent) -> (r: SyntaxRuleResult)
        requires
            rule_admits(old(self)@, *event),
        ensures
            (final(self)@, r) == rule_step(old(self)@, *event),
    {
        match self {
            Rule::IdentifierMatchesFilename(rule) => rule.check(event),
            Rule::ImplicitCaseDefault(rule) => rule.check(event),
            Rule::ParameterInPackage(rule) => rule.check(event),
        }
    }

    pub fn name(&self) -> (r: String)
        ensures
            r@ == rule_name(self@),
    {
        match self {
            Rule::IdentifierMatchesFilename(rule) => rule.name(),
            Rule::ImplicitCaseDefault(rule) => rule.name(),
            Rule::ParameterInPackage(rule) => rule.name(),
        }
    }

    pub fn hint(&self) -> (r: String)
        ensures
            r@ == rule_hint(self@),
    {
        match self {
            Rule::IdentifierMatchesFilename(rule) => rule.hint(),
            Rule::ImplicitCaseDefault(rule) => rule.hint(),
            Rule::ParameterInPackage(rule) => rule.hint(),
        }
    }

    pub fn reason(&self) -> (r: String)
        ensures
            r@ == rule_reason(self@),
    {
        match self {
            Rule::IdentifierMatchesFilename(rule) => rule.reason(),
            Rule::ImplicitCaseDefault(rule) => rule.reason(),
            Rule::ParameterInPackage(rule) => rule.reason(),
        }
    }
}

/// A failure that a rule reported: the rule's name, hint and reason, and the
/// place of the failure where it has one.
#[derive(Debug)]
pub struct LintFailed {
    pub name: String,
    pub hint: String,
    pub reason: String,
    pub locate: Option<Locate>,
}

pub open spec fn failed_view(f: LintFailed) -> (Seq<char>, Seq<char>, Seq<char>, Option<Locate>) {
    (f.name@, f.hint@, f.reason@, f.locate)
}

/// The rules that a configuration switches on, in a fixed order, each in its
/// initial state and switched on for control comments.
pub open spec fn configured_rules(config: Config) -> Seq<(RuleState, bool)> {
    let a: Seq<(RuleState, bool)> = if config.rules.identifier_matches_filename {
        seq![(RuleState::IdentifierMatchesFilename, true)]
    } else {
        seq![]
    };
    let b: Seq<(RuleState, bool)> = if config.rules.implicit_case_default {
        seq![(RuleState::ImplicitCaseDefault(case_default_initial()), true)]
    } else {
        seq![]
    };
    let c: Seq<(RuleState, bool)> = if config.rules.parameter_in_package {
        seq![(RuleState::ParameterInPackage, true)]
    } else {
        seq![]
    };
    a + b + c
}

/// Every rule that is switched on can take `event`.
pub open spec fn linter_admits(rules: Seq<(RuleState, bool)>, event: NodeEvent) -> bool {
    forall|i: int| 0 <= i < rules.len() && (#[trigger] rules[i]).1 ==> rule_admits(rules[i].0, event)
}

/// The rules after `event`: each rule that is switched on takes it; the others
/// are left as they are.
pub open spec fn linter_next(rules: Seq<(RuleState, bool)>, event: NodeEvent) -> Seq<(RuleState, bool)> {
    Seq::new(
        rules.len(),
        |i: int|
            if rules[i].1 {
                (rule_step(rules[i].0, event).0, true)
            } else {
                rules[i]
            },
    )
}

/// The failures that the rules that are switched on report for `event`, in
/// the order of the rules; a failure without a place of its own is reported at
/// `node_locate`, the place of the event's node.
pub open spec fn linter_failures(rules: Seq<(RuleState, bool)>, event: NodeEvent, node_locate: Option<Locate>) -> Seq<
    (Seq<char>, Seq<char>, Seq<char>, Option<Locate>),
>
    decreases rules.len(),
{
    if rules.len() == 0 {
        seq![]
    } else {
        let rest = linter_failures(rules.drop_last(), event, node_locate);
        let r = rules.last().0;
        if !rules.last().1 {
            rest
        } else {
            match rule_step(r, event).1 {
                SyntaxRuleResult::Pass => rest,
                SyntaxRuleResult::Fail => rest.push((rule_name(r), rule_hint(r), rule_reason(r), node_locate)),
                SyntaxRuleResult::FailLocate(loc) => rest.push(
                    (rule_name(r), rule_hint(r), rule_reason(r), Some(loc)),
                ),
            }
        }
    }
}

/// The rules after a comment with text `text`: a control comment naming a rule
/// of the linter switches that rule on or off; any other comment changes nothing.
pub open spec fn linter_control(rules: Seq<(RuleState, bool)>, text: Seq<char>) -> Seq<(RuleState, bool)> {
    match control_in(text) {
        Some((enable, name)) => Seq::new(
            rules.len(),
            |i: int|
                if rule_name(rules[i].0) == name {
                    (rules[i].0, enable)
                } else {
                    rules[i]
                },
        ),
        None => rules,
    }
}

/// A control comment in `text` names a rule of the linter.
pub open spec fn control_applies(rules: Seq<(RuleState, bool)>, text: Seq<char>) -> bool {
    match control_in(text) {
        Some((_, name)) => exists|i: int| 0 <= i < rules.len() && rule_name(#[trigger] rules[i].0) == name,
        None => false,
    }
}

/// The linter: its rules, and for each whether control comments leave it switched on.
pub struct Linter {
    rules: Vec<Rule>,
    ctl_enabled: Vec<bool>,
}

impl View for Linter {
    type V = Seq<(RuleState, bool)>;

    closed spec fn view(&self) -> Seq<(RuleState, bool)> {
        Seq::new(self.rules@.len(), |i: int| (self.rules@[i]@, self.ctl_enabled@[i]))
    }
}

impl Linter {
    closed spec fn wf(&self) -> bool {
        self.rules@.len() == self.ctl_enabled@.len()
    }

    /// A linter with the rules that `config` switches on.
    pub fn new(config: &Config) -> (r: Linter)
        ensures
            r@ == configured_rules(*config),
            r.well_formed(),
    {
        let mut rules: Vec<Rule> = Vec::new();
        let mut ctl_enabled: Vec<bool> = Vec::new();
        if config.rules.identifier_matches_filename {
            rules.push(Rule::IdentifierMatchesFilename(IdentifierMatchesFilename::new()));
            ctl_enabled.push(true);
        }
        if config.rules.implicit_case_default {
            rules.push(Rule::ImplicitCaseDefault(ImplicitCaseDefault::new()));
            ctl_enabled.push(true);
        }
        if config.rules.parameter_in_package {
            rules.push(Rule::ParameterInPackage(ParameterInPackage::new()));
            ctl_enabled.push(true);
        }
        let r = Linter { rules, ctl_enabled };
        assert(r@ =~= configured_rules(*config));
        r
    }

    /// The linter's rules are in step with their switches.
    pub closed spec fn well_formed(&self) -> bool {
        self.wf()
    }

    /// Whether every rule that is switched on can take `event`.
    pub fn admits(&self, event: &NodeEvent) -> (r: bool)
        requires
            self.well_formed(),
        ensures
            r == linter_admits(self@, *event),
    {
        let mut i: usize = 0;
        while i < self.rules.len()
            invariant
                self.wf(),
                0 <= i <= self.rules.len(),
                forall|j: int| 0 <= j < i && (#[trigger] self@[j]).1 ==> rule_admits(self@[j].0, *event),
            decreases self.rules.len() - i,
        {
            if self.ctl_enabled[i] && !self.rules[i].admits(event) {
                assert(self@[i as int].1 && !rule_admits(self@[i as int].0, *event));
                return false;
            }
            i += 1;
        }
        true
    }

    /// Runs every rule that is switched on over `event` and gives the failures
    /// they report, in the order of the rules.
    pub fn check(&mut self, event: &NodeEvent) -> (r: Vec<LintFailed>)
        requires
            old(self).well_formed(),
            linter_admits(old(self)@, *event),
        ensures
            final(self).well_formed(),
            final(self)@ == linter_next(old(self)@, *event),
            r@.map_values(|f: LintFailed| failed_view(f)) == linter_failures(old(self)@, *event, event_locate(*event)),
    {
        let ghost start = self@;
        let node_locate = match event {
            NodeEvent::Enter(node) => node.locate,
            NodeEvent::Leave(node) => node.locate,
        };
        let mut failed: Vec<LintFailed> = Vec::new();
        let mut i: usize = 0;
        while i < self.rules.len()
            invariant
                self.wf(),
                0 <= i <= self.rules.len(),
                self.rules.len() == start.len(),
                linter_admits(start, *event),
                node_locate == event_locate(*event),
                forall|j: int| 0 <= j < i ==> #[trigger] self@[j] == linter_next(start, *event)[j],
                forall|j: int| i <= j < start.len() ==> #[trigger] self@[j] == start[j],
                failed@.map_values(|f: LintFailed| failed_view(f)) == linter_failures(start.take(i as int), *event, node_locate),
            decreases self.rules.len() - i,
        {
            assert(start.take(i + 1).drop_last() =~= start.take(i as int));
            assert(start.take(i + 1).last() == start[i as int]);
            let ghost fv = failed@.map_values(|f: LintFailed| failed_view(f));
            assert(self@[i as int] == start[i as int]);
            if self.ctl_enabled[i] {
                let ghost before = self.rules@;
                let ghost before_view = self@;
                assert(before_view[i as int] == start[i as int]);
                let mut rule = self.rules.remove(i);
                assert(rule@ == start[i as int].0);
                let result = rule.check(event);
                let name = rule.name();
                let hint = rule.hint();
                let reason = rule.reason();
                self.rules.insert(i, rule);
                assert(self.rules@ =~= before.update(i as int, rule));
                assert(self@[i as int] == linter_next(start, *event)[i as int]);
                assert forall|j: int| 0 <= j < start.len() && j != i implies #[trigger] self@[j] == before_view[j] by {
                    assert(self.rules@[j] == before[j]);
                }
                match result {
                    SyntaxRuleResult::Pass => {},
                    SyntaxRuleResult::Fail => {
                        failed.push(LintFailed { name, hint, reason, locate: node_locate });
                        assert(failed@.map_values(|f: LintFailed| failed_view(f)) =~= fv.push(
                            (rule_name(start[i as int].0), rule_hint(start[i as int].0), rule_reason(start[i as int].0), node_locate),
                        ));
                    },
                    SyntaxRuleResult::FailLocate(loc) => {
                        failed.push(LintFailed { name, hint, reason, locate: Some(loc) });
                        assert(failed@.map_values(|f: LintFailed| failed_view(f)) =~= fv.push(
                            (rule_name(start[i as int].0), rule_hint(start[i as int].0), rule_reason(start[i as int].0), Some(loc)),
                        ));
                    },
                }
            }
            i += 1;
        }
        assert(start.take(i as int) =~= start);
        assert(self@ =~= linter_next(start, *event));
        failed
    }
}

impl Linter {
    /// Reads the text of a comment: a control comment that names a rule of the
    /// linter switches that rule on or off, and is given back; any other comment
    /// changes nothing and gives `None`.
    pub fn control(&mut self, text: &str) -> (r: Option<ControlComment>)
        requires
            old(self).well_formed(),
        ensures
            final(self).well_formed(),
            final(self)@ == linter_control(old(self)@, text@),
            r is Some <==> control_applies(old(self)@, text@),
            r matches Some(c) ==> control_in(text@) == Some((c.enable, c.rule@)),
    {
        let ghost start = self@;
        let c = match control_comment(text) {
            Some(c) => c,
            None => {
                assert(self@ =~= linter_control(start, text@));
                return None;
            },
        };
        let ghost target = linter_control(start, text@);
        let mut found = false;
        let mut i: usize = 0;
        while i < self.rules.len()
            invariant
                self.wf(),
                0 <= i <= self.rules.len(),
                self.rules.len() == start.len(),
                control_in(text@) == Some((c.enable, c.rule@)),
                target == linter_control(start, text@),
                forall|j: int| 0 <= j < i ==> #[trigger] self@[j] == target[j],
                forall|j: int| i <= j < start.len() ==> #[trigger] self@[j] == start[j],
                found <==> exists|j: int| 0 <= j < i && rule_name(#[trigger] start[j].0) == c.rule@,
            decreases self.rules.len() - i,
        {
            let name = self.rules[i].name();
            assert(self@[i as int] == start[i as int]);
            if name == c.rule {
                let ghost before = self@;
                self.ctl_enabled.set(i, c.enable);
                found = true;
                assert forall|j: int| 0 <= j < start.len() && j != i implies #[trigger] self@[j] == before[j] by {}
            }
            assert(self@[i as int] == target[i as int]);
            i += 1;
        }
        assert(self@ =~= target);
        if found {
            Some(c)
        } else {
            None
        }
    }
}

/// The place of the node of an event.
pub open spec fn event_locate(event: NodeEvent) -> Option<Locate> {
    match event {
        NodeEvent::Enter(node) => node.locate,
        NodeEvent::Leave(node) => node.locate,
    }
}

} // verus!

verus! {

proof fn lemma_failures_from_enabled(rules: Seq<(RuleState, bool)>, event: NodeEvent, node_locate: Option<Locate>)
    ensures
        forall|k: int|
            0 <= k < linter_failures(rules, event, node_locate).len() ==> exists|j: int|
                0 <= j < rules.len() && rules[j].1 && #[trigger] linter_failures(rules, event, node_locate)[k].0
                    == rule_name(#[trigger] rules[j].0),
    decreases rules.len(),
{
    if rules.len() > 0 {
        let prefix = rules.drop_last();
        lemma_failures_from_enabled(prefix, event, node_locate);
        let f = linter_failures(rules, event, node_locate);
        let g = linter_failures(prefix, event, node_locate);
        assert forall|k: int| 0 <= k < f.len() implies exists|j: int|
            0 <= j < rules.len() && rules[j].1 && #[trigger] f[k].0 == rule_name(#[trigger] rules[j].0) by {
            if k < g.len() {
                assert(f[k] == g[k]);
                let j = choose|j: int| 0 <= j < prefix.len() && prefix[j].1 && g[k].0 == rule_name(prefix[j].0);
                assert(rules[j] == prefix[j]);
            } else {
                assert(rules[rules.len() - 1] == rules.last());
            }
        }
    }
}

/// A rule that control comments have switched off reports nothing: when every
/// rule is switched off, an event yields no failure and changes no rule.
pub proof fn law_switched_off_rules_are_silent(rules: Seq<(RuleState, bool)>, event: NodeEvent, node_locate: Option<Locate>)
    requires
        forall|j: int| 0 <= j < rules.len() ==> !(#[trigger] rules[j]).1,
    ensures
        linter_failures(rules, event, node_locate).len() == 0,
        linter_next(rules, event) == rules,
{
    lemma_failures_from_enabled(rules, event, node_locate);
    if linter_failures(rules, event, node_locate).len() > 0 {
        let j = choose|j: int| 0 <= j < rules.len() && rules[j].1 && #[trigger] linter_failures(rules, event, node_locate)[0].0 == rule_name(#[trigger] rules[j].0);
        assert(!rules[j].1);
    }
    assert(linter_next(rules, event) =~= rules);
}

/// After `/* svlint off name */`, no failure of the rule `name` is reported,
/// whatever the event, until a control comment switches it on again.
pub proof fn law_off_comment_silences(
    rules: Seq<(RuleState, bool)>,
    name: Seq<char>,
    event: NodeEvent,
    node_locate: Option<Locate>,
)
    requires
        name.len() > 0,
        forall|i: int| 0 <= i < name.len() ==> crate::control::is_name_char(#[trigger] name[i]),
    ensures
        forall|k: int|
            0 <= k < linter_failures(linter_control(rules, crate::control::control_text(false, name)), event, node_locate).len()
                ==> (#[trigger] linter_failures(linter_control(rules, crate::control::control_text(false, name)), event, node_locate)[k]).0
                != name,
{
    crate::control::law_control_comment_round_trip(false, name);
    let after = linter_control(rules, crate::control::control_text(false, name));
    lemma_failures_from_enabled(after, event, node_locate);
    let f = linter_failures(after, event, node_locate);
    assert forall|k: int| 0 <= k < f.len() implies (#[trigger] f[k]).0 != name by {
        let j = choose|j: int| 0 <= j < after.len() && after[j].1 && f[k].0 == rule_name(after[j].0);
        if rule_name(after[j].0) == name {
            assert(rule_name(rules[j].0) == name);
            assert(!after[j].1);
        }
    }
}

/// `/* svlint off name */` followed by `/* svlint on name */` leaves the
/// linter as it was when every rule called `name` was switched on.
pub proof fn law_off_then_on_restores(rules: Seq<(RuleState, bool)>, name: Seq<char>)
    requires
        name.len() > 0,
        forall|i: int| 0 <= i < name.len() ==> crate::control::is_name_char(#[trigger] name[i]),
        forall|j: int| 0 <= j < rules.len() && rule_name(#[trigger] rules[j].0) == name ==> rules[j].1,
    ensures
        linter_control(
            linter_control(rules, crate::control::control_text(false, name)),
            crate::control::control_text(true, name),
        ) == rules,
{
    crate::control::law_control_comment_round_trip(false, name);
    crate::control::law_control_comment_round_trip(true, name);
    let after = linter_control(
        linter_control(rules, crate::control::control_text(false, name)),
        crate::control::control_text(true, name),
    );
    assert(after =~= rules);
}

} // verus!

verus! {

/// Every rule called `name` is switched off.
pub open spec fn silenced(rules: Seq<(RuleState, bool)>, name: Seq<char>) -> bool {
    forall|j: int| 0 <= j < rules.len() && rule_name(#[trigger] rules[j].0) == name ==> !rules[j].1
}

proof fn lemma_step_keeps_name(r: RuleState, event: NodeEvent)
    ensures
        rule_name(rule_step(r, event).0) == rule_name(r),
{
}

/// While every rule called `name` is switched off, an event yields no failure
/// of `name`, and those rules stay switched off.
pub proof fn law_silenced_rule_reports_nothing(
    rules: Seq<(RuleState, bool)>,
    name: Seq<char>,
    event: NodeEvent,
    node_locate: Option<Locate>,
)
    requires
        silenced(rules, name),
    ensures
        forall|k: int|
            0 <= k < linter_failures(rules, event, node_locate).len() ==> (#[trigger] linter_failures(
                rules,
                event,
                node_locate,
            )[k]).0 != name,
        silenced(linter_next(rules, event), name),
{
    lemma_failures_from_enabled(rules, event, node_locate);
    let f = linter_failures(rules, event, node_locate);
    assert forall|k: int| 0 <= k < f.len() implies (#[trigger] f[k]).0 != name by {
        let j = choose|j: int| 0 <= j < rules.len() && rules[j].1 && f[k].0 == rule_name(rules[j].0);
    }
    let n = linter_next(rules, event);
    assert forall|j: int| 0 <= j < n.len() && rule_name(#[trigger] n[j].0) == name implies !n[j].1 by {
        lemma_step_keeps_name(rules[j].0, event);
    }
}

/// A comment that does not switch `name` on keeps the rules called `name` switched off.
pub proof fn law_control_keeps_silenced(rules: Seq<(RuleState, bool)>, name: Seq<char>, text: Seq<char>)
    requires
        silenced(rules, name),
        control_in(text) != Some((true, name)),
    ensures
        silenced(linter_control(rules, text), name),
{
}

/// A comment `/* svlint off name */` switches off every rule called `name`.
pub proof fn law_off_control_silences(rules: Seq<(RuleState, bool)>, name: Seq<char>, text: Seq<char>)
    requires
        control_in(text) == Some((false, name)),
    ensures
        silenced(linter_control(rules, text), name),
{
}

} // verus!

verus! {

spec fn switched_on_for(config: Config, r: RuleState) -> bool {
    match r {
        RuleState::IdentifierMatchesFilename => config.rules.identifier_matches_filename,
        RuleState::ImplicitCaseDefault(_) => config.rules.implicit_case_default,
        RuleState::ParameterInPackage => config.rules.parameter_in_package,
    }
}

pub open spec fn has_rule_of_kind(rules: Seq<(RuleState, bool)>, kind: int) -> bool {
    exists|i: int|
        0 <= i < rules.len() && match #[trigger] rules[i].0 {
            RuleState::IdentifierMatchesFilename => kind == 0,
            RuleState::ImplicitCaseDefault(_) => kind == 1,
            RuleState::ParameterInPackage => kind == 2,
        }
}

/// A linter holds exactly the rules that the configuration switches on: the
/// module-name rule (kind 0) when `identifier_matches_filename` is on, the
/// case-default rule (kind 1) when `implicit_case_default` is on, the package
/// rule (kind 2) when `parameter_in_package` is on, and no other; each rule is
/// there once, switched on, and the case-default rule starts with nothing
/// remembered.
pub proof fn law_configured_rules_follow_switches(config: Config)
    ensures
        has_rule_of_kind(configured_rules(config), 0) <==> config.rules.identifier_matches_filename,
        has_rule_of_kind(configured_rules(config), 1) <==> config.rules.implicit_case_default,
        has_rule_of_kind(configured_rules(config), 2) <==> config.rules.parameter_in_package,
        configured_rules(config).len() == (if config.rules.identifier_matches_filename { 1int } else { 0 })
            + (if config.rules.implicit_case_default { 1int } else { 0 }) + (if config.rules.parameter_in_package {
            1int
        } else {
            0
        }),
        forall|i: int| 0 <= i < configured_rules(config).len() ==> (#[trigger] configured_rules(config)[i]).1,
        forall|i: int|
            0 <= i < configured_rules(config).len() ==> ((#[trigger] configured_rules(config)[i]).0 matches RuleState::ImplicitCaseDefault(s)
                ==> s == case_default_initial()),
{
    let rules = configured_rules(config);
    let a: Seq<(RuleState, bool)> = if config.rules.identifier_matches_filename {
        seq![(RuleState::IdentifierMatchesFilename, true)]
    } else {
        seq![]
    };
    let b: Seq<(RuleState, bool)> = if config.rules.implicit_case_default {
        seq![(RuleState::ImplicitCaseDefault(case_default_initial()), true)]
    } else {
        seq![]
    };
    let c: Seq<(RuleState, bool)> = if config.rules.parameter_in_package {
        seq![(RuleState::ParameterInPackage, true)]
    } else {
        seq![]
    };
    assert(rules == a + b + c);
    assert forall|i: int| 0 <= i < rules.len() implies (i < a.len() ==> rules[i] == a[i]) && (a.len() <= i < a.len()
        + b.len() ==> rules[i] == b[i - a.len()]) && (a.len() + b.len() <= i ==> rules[i] == c[i - a.len()
        - b.len()]) by {}
    assert forall|i: int| 0 <= i < rules.len() implies switched_on_for(config, #[trigger] rules[i].0) by {
        if i < a.len() {
            assert(rules[i] == a[i]);
        } else if i < a.len() + b.len() {
            assert(rules[i] == b[i - a.len()]);
        } else {
            assert(rules[i] == c[i - a.len() - b.len()]);
        }
    }
    if config.rules.identifier_matches_filename {
        assert(rules[0] == a[0]);
        assert(rules[0].0 is IdentifierMatchesFilename);
    }
    if config.rules.implicit_case_default {
        assert(rules[a.len() as int] == b[0]);
        assert(rules[a.len() as int].0 is ImplicitCaseDefault);
    }
    if config.rules.parameter_in_package {
        assert(rules[(a.len() + b.len()) as int] == c[0]);
        assert(rules[(a.len() + b.len()) as int].0 is ParameterInPackage);
    }
    assert forall|k: int| 0 <= k < 3 && has_rule_of_kind(rules, k) implies (k == 0 ==> config.rules.identifier_matches_filename)
        && (k == 1 ==> config.rules.implicit_case_default) && (k == 2 ==> config.rules.parameter_in_package) by {
        let i = choose|i: int|
            0 <= i < rules.len() && match #[trigger] rules[i].0 {
                RuleState::IdentifierMatchesFilename => k == 0,
                RuleState::ImplicitCaseDefault(_) => k == 1,
                RuleState::ParameterInPackage => k == 2,
            };
        assert(switched_on_for(config, rules[i].0));
    }
}

} // verus!
