//! The decisions of a lint run over many files: the caller parses each file,
//! hands over the events of its walk, and reports what comes back.

use vstd::prelude::*;
use crate::config::Config;
use crate::control::ControlComment;
use crate::opt::{listed_files, names_view, Filelist, Opt};
use crate::event::{Locate, NodeEvent, NodeKind};
use crate::linter::{
    configured_rules,
    event_locate,
    failed_view,
    linter_admits,
    linter_control,
    linter_failures,
    linter_next,
    LintFailed,
    Linter,
    RuleState,
};

verus! {

/// Where a run stands: its rules, whether every file so far passed, and
/// whether the current file passes so far.
pub struct LintRunState {
    pub rules: Seq<(RuleState, bool)>,
    pub all_pass: bool,
    pub file_pass: bool,
}

/// The rules once the comment of an event, if it is one, has been read.
pub open spec fn rules_after_comment(rules: Seq<(RuleState, bool)>, event: NodeEvent) -> Seq<(RuleState, bool)> {
    match event {
        NodeEvent::Enter(node) => match node.kind {
            NodeKind::Comment { text } => linter_control(rules, text@),
            _ => rules,
        },
        _ => rules,
    }
}

/// The rules after an event: its comment, if it is one, is read, then every
/// rule that is switched on takes the event.
pub open spec fn event_rules(rules: Seq<(RuleState, bool)>, event: NodeEvent) -> Seq<(RuleState, bool)> {
    linter_next(rules_after_comment(rules, event), event)
}

/// The failures reported for an event, once its comment, if it is one, is read.
pub open spec fn event_failures(rules: Seq<(RuleState, bool)>, event: NodeEvent) -> Seq<
    (Seq<char>, Seq<char>, Seq<char>, Option<Locate>),
> {
    linter_failures(rules_after_comment(rules, event), event, event_locate(event))
}

/// A run after one event of the current file: a failure fails the file.
pub open spec fn run_event(st: LintRunState, event: NodeEvent) -> LintRunState {
    LintRunState {
        rules: event_rules(st.rules, event),
        file_pass: st.file_pass && event_failures(st.rules, event).len() == 0,
        ..st
    }
}

/// A run after a walk over the current file.
pub open spec fn run_walk(st: LintRunState, events: Seq<NodeEvent>) -> LintRunState
    decreases events.len(),
{
    if events.len() == 0 {
        st
    } else {
        run_event(run_walk(st, events.drop_last()), events.last())
    }
}

/// A run after one file: `Some` of the events of the walk over it, or `None`
/// where it could not be parsed. The file passes when no rule failed on it, and
/// a file that fails fails the run.
pub open spec fn run_file(st: LintRunState, walk: Option<Seq<NodeEvent>>) -> LintRunState {
    let started = LintRunState { file_pass: true, ..st };
    let done = match walk {
        Some(events) => run_walk(started, events),
        None => LintRunState { file_pass: false, ..started },
    };
    LintRunState { all_pass: done.all_pass && done.file_pass, ..done }
}

/// A run after the files, in order.
pub open spec fn run_files(st: LintRunState, walks: Seq<Option<Seq<NodeEvent>>>) -> LintRunState
    decreases walks.len(),
{
    if walks.len() == 0 {
        st
    } else {
        run_file(run_files(st, walks.drop_last()), walks.last())
    }
}

/// Whether a run of the configuration over the files passes.
pub open spec fn run_verdict(config: Config, walks: Seq<Option<Seq<NodeEvent>>>) -> bool {
    run_files(LintRunState { rules: configured_rules(config), all_pass: true, file_pass: true }, walks).all_pass
}

/// A lint run.
pub struct LintRun {
    linter: Linter,
    all_pass: bool,
    file_pass: bool,
}

impl View for LintRun {
    type V = LintRunState;

    closed spec fn view(&self) -> LintRunState {
        LintRunState { rules: self.linter@, all_pass: self.all_pass, file_pass: self.file_pass }
    }
}

impl LintRun {
    pub closed spec fn well_formed(&self) -> bool {
        self.linter.well_formed()
    }

    /// A run with the rules that `config` switches on, before any file.
    pub fn new(config: &Config) -> (r: LintRun)
        ensures
            r.well_formed(),
            r@ == (LintRunState { rules: configured_rules(*config), all_pass: true, file_pass: true }),
    {
        LintRun { linter: Linter::new(config), all_pass: true, file_pass: true }
    }

    /// Whether every rule that is switched on can take `event`.
    pub fn admits(&self, event: &NodeEvent) -> (r: bool)
        requires
            self.well_formed(),
        ensures
            r == linter_admits(self@.rules, *event),
    {
        self.linter.admits(event)
    }

    /// Begins a file: it passes until a rule fails on it.
    pub fn start_file(&mut self)
        ensures
            final(self).well_formed() == old(self).well_formed(),
            final(self)@ == (LintRunState { file_pass: true, ..old(self)@ }),
    {
        self.file_pass = true;
    }

    /// Takes one event of the walk over the current file: a comment is read as
    /// a possible control comment first (the one that applied is given back),
    /// then every rule that is switched on takes the event, and the failures they
    /// report are given back; a failure fails the file.
    pub fn event(&mut self, event: &NodeEvent) -> (r: (Option<ControlComment>, Vec<LintFailed>))
        requires
            old(self).well_formed(),
            linter_admits(old(self)@.rules, *event),
        ensures
            final(self).well_formed(),
            r.1@.map_values(|f: LintFailed| failed_view(f)) == event_failures(old(self)@.rules, *event),
            final(self)@ == run_event(old(self)@, *event),
            r.0 is Some <==> is_comment(*event) && crate::linter::control_applies(old(self)@.rules, event_comment(*event)),
            r.0 matches Some(c) ==> crate::control::control_in(event_comment(*event)) == Some((c.enable, c.rule@)),
    {
        let mut control = None;
        if let NodeEvent::Enter(node) = event {
            if let NodeKind::Comment { text } = &node.kind {
                control = self.linter.control(text.as_str());
            }
        }
        assert(self.linter@ == rules_after_comment(old(self)@.rules, *event));
        assert(linter_admits(self.linter@, *event)) by {
            assert forall|i: int| 0 <= i < self.linter@.len() && (#[trigger] self.linter@[i]).1 implies crate::linter::rule_admits(
                self.linter@[i].0,
                *event,
            ) by {
                if let NodeEvent::Enter(node) = *event {
                    if node.kind is Comment {
                    } else {
                        assert(self.linter@ == old(self)@.rules);
                    }
                } else {
                    assert(self.linter@ == old(self)@.rules);
                }
            }
        }
        let failed = self.linter.check(event);
        if failed.len() > 0 {
            self.file_pass = false;
        }
        (control, failed)
    }

    /// The current file could not be parsed: it fails.
    pub fn parse_failed(&mut self)
        ensures
            final(self).well_formed() == old(self).well_formed(),
            final(self)@ == (LintRunState { file_pass: false, ..old(self)@ }),
    {
        self.file_pass = false;
    }

    /// Ends the current file and tells whether it passed; a file that failed
    /// fails the run.
    pub fn finish_file(&mut self) -> (r: bool)
        ensures
            final(self).well_formed() == old(self).well_formed(),
            r == old(self)@.file_pass,
            final(self)@ == (LintRunState { all_pass: old(self)@.all_pass && old(self)@.file_pass, ..old(self)@ }),
    {
        self.all_pass = self.all_pass && self.file_pass;
        self.file_pass
    }

    /// Whether every file so far passed.
    pub fn passed(&self) -> (r: bool)
        ensures
            r == self@.all_pass,
    {
        self.all_pass
    }
}

/// The event enters a comment.
pub open spec fn is_comment(event: NodeEvent) -> bool {
    event matches NodeEvent::Enter(node) && node.kind is Comment
}

/// The text of the comment of an event, or nothing.
pub open spec fn event_comment(event: NodeEvent) -> Seq<char> {
    match event {
        NodeEvent::Enter(node) => match node.kind {
            NodeKind::Comment { text } => text@,
            _ => Seq::empty(),
        },
        _ => Seq::empty(),
    }
}

} // verus!

verus! {

/// The failures reported over a walk, event after event.
pub open spec fn walk_failures(st: LintRunState, events: Seq<NodeEvent>) -> Seq<
    (Seq<char>, Seq<char>, Seq<char>, Option<Locate>),
>
    decreases events.len(),
{
    if events.len() == 0 {
        seq![]
    } else {
        walk_failures(st, events.drop_last()) + event_failures(run_walk(st, events.drop_last()).rules, events.last())
    }
}

/// The event is a comment `/* svlint on name */`.
pub open spec fn switches_on(event: NodeEvent, name: Seq<char>) -> bool {
    is_comment(event) && crate::control::control_in(event_comment(event)) == Some((true, name))
}

/// A walk leaves the verdict on the earlier files as it was, and the current
/// file passes after it exactly when it passed before and no failure was
/// reported during the walk.
pub proof fn law_file_passes_without_failures(st: LintRunState, events: Seq<NodeEvent>)
    ensures
        run_walk(st, events).all_pass == st.all_pass,
        run_walk(st, events).file_pass == (st.file_pass && walk_failures(st, events).len() == 0),
    decreases events.len(),
{
    if events.len() > 0 {
        law_file_passes_without_failures(st, events.drop_last());
    }
}

/// Adding a file to a run never turns a failing run into a passing one.
pub proof fn law_appending_file_keeps_failure(
    st: LintRunState,
    walks: Seq<Option<Seq<NodeEvent>>>,
    walk: Option<Seq<NodeEvent>>,
)
    ensures
        run_files(st, walks.push(walk)).all_pass ==> run_files(st, walks).all_pass,
{
    assert(walks.push(walk).drop_last() =~= walks);
    let prev = run_files(st, walks);
    if let Some(events) = walk {
        law_file_passes_without_failures(LintRunState { file_pass: true, ..prev }, events);
    }
}

/// The files that a run lints: those of the options, then, where file lists
/// are given, those of the lists.
pub open spec fn lint_files(opt: Opt, lists: Seq<Filelist>) -> Seq<Seq<char>> {
    if opt.filelist.len() > 0 {
        names_view(opt.files) + listed_files(lists)
    } else {
        names_view(opt.files)
    }
}

/// The verdict of a run with options `opt`, when parsing a file gives the walk
/// `parse` of it (`None` where it does not parse).
pub open spec fn opt_verdict(
    opt: Opt,
    lists: Seq<Filelist>,
    config: Config,
    parse: spec_fn(Seq<char>) -> Option<Seq<NodeEvent>>,
) -> bool {
    run_verdict(config, lint_files(opt, lists).map_values(parse))
}

/// The options that only choose how results are shown (single-line results,
/// silence, verbose messages, annotation messages) never change the outcome:
/// two option sets that differ in those alone give the same verdict.
pub proof fn law_verdict_ignores_output_flags(
    opt1: Opt,
    opt2: Opt,
    lists: Seq<Filelist>,
    config: Config,
    parse: spec_fn(Seq<char>) -> Option<Seq<NodeEvent>>,
)
    requires
        opt1.files == opt2.files,
        opt1.filelist == opt2.filelist,
        opt1.defines == opt2.defines,
        opt1.includes == opt2.includes,
        opt1.config == opt2.config,
        opt1.plugins == opt2.plugins,
        opt1.ignore_include == opt2.ignore_include,
        opt1.update_config == opt2.update_config,
        opt1.example == opt2.example,
    ensures
        opt_verdict(opt1, lists, config, parse) == opt_verdict(opt2, lists, config, parse),
{
}

proof fn lemma_off_region(st: LintRunState, name: Seq<char>, events: Seq<NodeEvent>)
    requires
        events.len() > 0,
        is_comment(events[0]),
        crate::control::control_in(event_comment(events[0])) == Some((false, name)),
        forall|i: int| 1 <= i < events.len() ==> !switches_on(#[trigger] events[i], name),
    ensures
        crate::linter::silenced(run_walk(st, events).rules, name),
        forall|k: int|
            0 <= k < walk_failures(st, events).len() ==> (#[trigger] walk_failures(st, events)[k]).0 != name,
    decreases events.len(),
{
    let prefix = events.drop_last();
    let e = events.last();
    let before = run_walk(st, prefix);
    let rules1 = rules_after_comment(before.rules, e);
    if events.len() == 1 {
        assert(e == events[0]);
        if let NodeEvent::Enter(node) = e {
            if let NodeKind::Comment { text } = node.kind {
                crate::linter::law_off_control_silences(before.rules, name, text@);
            }
        }
    } else {
        assert forall|i: int| 1 <= i < prefix.len() implies !switches_on(#[trigger] prefix[i], name) by {
            assert(prefix[i] == events[i]);
        }
        assert(prefix[0] == events[0]);
        lemma_off_region(st, name, prefix);
        assert(e == events[events.len() - 1]);
        assert(!switches_on(e, name));
        if let NodeEvent::Enter(node) = e {
            if let NodeKind::Comment { text } = node.kind {
                crate::linter::law_control_keeps_silenced(before.rules, name, text@);
            }
        }
    }
    assert(crate::linter::silenced(rules1, name));
    crate::linter::law_silenced_rule_reports_nothing(rules1, name, e, event_locate(e));
    let w = walk_failures(st, events);
    let wp = walk_failures(st, prefix);
    let f = event_failures(before.rules, e);
    assert(w == wp + f);
    assert forall|k: int| 0 <= k < w.len() implies (#[trigger] w[k]).0 != name by {
        if k < wp.len() {
            assert(w[k] == wp[k]);
        } else {
            assert(w[k] == f[k - wp.len()]);
        }
    }
}

/// After `/* svlint off name */` in a file, the rule `name` reports nothing
/// for the rest of the walk until a comment `/* svlint on name */`: over a walk
/// that begins with the off comment and holds no such on comment, no failure
/// of `name` is reported, and the rule is still switched off at its end.
pub proof fn law_off_comment_silences_rest_of_walk(st: LintRunState, name: Seq<char>, events: Seq<NodeEvent>)
    requires
        events.len() > 0,
        is_comment(events[0]),
        crate::control::control_in(event_comment(events[0])) == Some((false, name)),
        forall|i: int| 1 <= i < events.len() ==> !switches_on(#[trigger] events[i], name),
    ensures
        crate::linter::silenced(run_walk(st, events).rules, name),
        forall|k: int|
            0 <= k < walk_failures(st, events).len() ==> (#[trigger] walk_failures(st, events)[k]).0 != name,
{
    lemma_off_region(st, name, events);
}

} // verus!

verus! {

/// A walk over `a` followed by `b` is the walk over `a`, then the walk over
/// `b` from where it left off; its failures are those of the two parts, in order.
pub proof fn law_walk_concatenation(st: LintRunState, a: Seq<NodeEvent>, b: Seq<NodeEvent>)
    ensures
        run_walk(st, a + b) == run_walk(run_walk(st, a), b),
        walk_failures(st, a + b) == walk_failures(st, a) + walk_failures(run_walk(st, a), b),
    decreases b.len(),
{
    if b.len() == 0 {
        assert(a + b =~= a);
        assert(walk_failures(st, a) + walk_failures(run_walk(st, a), b) =~= walk_failures(st, a));
    } else {
        assert((a + b).drop_last() =~= a + b.drop_last());
        assert((a + b).last() == b.last());
        law_walk_concatenation(st, a, b.drop_last());
        let mid = run_walk(st, a);
        assert(walk_failures(st, a + b) =~= walk_failures(st, a) + walk_failures(mid, b.drop_last())
            + event_failures(run_walk(mid, b.drop_last()).rules, b.last()));
    }
}

/// Over a whole file: when a comment `/* svlint off name */` stands at some
/// point of the walk and no `/* svlint on name */` follows it, every failure of
/// `name` in the file was reported before that comment.
pub proof fn law_off_comment_silences_rest_of_file(
    st: LintRunState,
    name: Seq<char>,
    before: Seq<NodeEvent>,
    after: Seq<NodeEvent>,
)
    requires
        after.len() > 0,
        is_comment(after[0]),
        crate::control::control_in(event_comment(after[0])) == Some((false, name)),
        forall|i: int| 1 <= i < after.len() ==> !switches_on(#[trigger] after[i], name),
    ensures
        walk_failures(st, before + after).take(walk_failures(st, before).len() as int) == walk_failures(st, before),
        forall|k: int|
            walk_failures(st, before).len() <= k < walk_failures(st, before + after).len() ==> (
            #[trigger] walk_failures(st, before + after)[k]).0 != name,
{
    law_walk_concatenation(st, before, after);
    let mid = run_walk(st, before);
    lemma_off_region(mid, name, after);
    let w = walk_failures(st, before + after);
    let wb = walk_failures(st, before);
    let wa = walk_failures(mid, after);
    assert(w.take(wb.len() as int) =~= wb);
    assert forall|k: int| wb.len() <= k < w.len() implies (#[trigger] w[k]).0 != name by {
        assert(w[k] == wa[k - wb.len()]);
    }
}

/// A file passes when its only failures would come from a rule that a
/// comment `/* svlint off name */` has switched off, with no `/* svlint on
/// name */` after it: if nothing fails before the comment and every failure
/// reported over the file is one of `name`, the file passes and the run keeps
/// its verdict.
pub proof fn law_file_with_silenced_rule_passes(
    st: LintRunState,
    name: Seq<char>,
    before: Seq<NodeEvent>,
    after: Seq<NodeEvent>,
)
    requires
        after.len() > 0,
        is_comment(after[0]),
        crate::control::control_in(event_comment(after[0])) == Some((false, name)),
        forall|i: int| 1 <= i < after.len() ==> !switches_on(#[trigger] after[i], name),
        walk_failures(LintRunState { file_pass: true, ..st }, before).len() == 0,
        forall|k: int|
            0 <= k < walk_failures(LintRunState { file_pass: true, ..st }, before + after).len() ==> (
            #[trigger] walk_failures(LintRunState { file_pass: true, ..st }, before + after)[k]).0 == name,
    ensures
        run_file(st, Some(before + after)).all_pass == st.all_pass,
{
    let started = LintRunState { file_pass: true, ..st };
    law_off_comment_silences_rest_of_file(started, name, before, after);
    let w = walk_failures(started, before + after);
    if w.len() > 0 {
        assert(w[0].0 == name);
        assert(w[0].0 != name);
    }
    law_file_passes_without_failures(started, before + after);
}

} // verus!
