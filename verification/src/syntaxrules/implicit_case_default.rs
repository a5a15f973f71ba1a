//! Every variable that a `case` item of an `always` construct assigns must have
//! a default value: one set unconditionally at the top of the construct (by an
//! assignment or a declaration outside any `case` item and any conditional
//! statement), or the first variable set in a `default` item. `case` items may
//! nest: an assignment belongs to every item that encloses it, so one inside a
//! `default` item that is nested in a `case` item is both a case-item
//! assignment and a default.

use vstd::prelude::*;
use crate::event::{Locate, NodeEvent, NodeKind, SyntaxRuleResult, Variable};

verus! {

/// What the rule remembers between events.
pub struct CaseDefaultState {
    /// Inside an `always` construct.
    pub under_always: bool,
    /// How many `case` items with a pattern enclose the current node.
    pub case_item_depth: u64,
    /// How many `default` items enclose the current node.
    pub case_default_depth: u64,
    /// The current `default` item has already given its variable a default.
    pub default_recorded: bool,
    /// How many conditional statements of the `always` construct enclose the current node.
    pub conditional_depth: u64,
    /// The variables that have a default value, each once.
    pub defaults: Seq<Seq<char>>,
    /// The variables that `case` items assign, each once, in the order of their
    /// first assignment, with the place of their latest assignment.
    pub case_vars: Seq<(Seq<char>, Locate)>,
}

/// One more enclosing item, counting no further than the largest `u64`.
pub open spec fn increment(d: u64) -> u64 {
    if d < u64::MAX {
        (d + 1) as u64
    } else {
        d
    }
}

/// One enclosing item fewer, counting no lower than zero.
pub open spec fn decrement(d: u64) -> u64 {
    if d > 0 {
        (d - 1) as u64
    } else {
        d
    }
}

/// The state before any event, and after each `always` construct.
pub open spec fn case_default_initial() -> CaseDefaultState {
    CaseDefaultState {
        under_always: false,
        case_item_depth: 0,
        case_default_depth: 0,
        default_recorded: false,
        conditional_depth: 0,
        defaults: Seq::empty(),
        case_vars: Seq::empty(),
    }
}

/// `names` with `name` added unless it is there already.
pub open spec fn insert_name(names: Seq<Seq<char>>, name: Seq<char>) -> Seq<Seq<char>> {
    if names.contains(name) {
        names
    } else {
        names.push(name)
    }
}

/// The index of the first entry of `vars` named `name`, if any.
pub open spec fn var_index(vars: Seq<(Seq<char>, Locate)>, name: Seq<char>) -> Option<int>
    decreases vars.len(),
{
    if vars.len() == 0 {
        None
    } else if vars.last().0 == name && var_index(vars.drop_last(), name) is None {
        Some(vars.len() - 1)
    } else {
        var_index(vars.drop_last(), name)
    }
}

/// `vars` after an assignment to `name` at `loc`: an entry for `name` keeps its
/// position and takes the new place; a new name goes at the end.
pub open spec fn record_case_var(vars: Seq<(Seq<char>, Locate)>, name: Seq<char>, loc: Locate) -> Seq<
    (Seq<char>, Locate),
> {
    match var_index(vars, name) {
        Some(i) => vars.update(i, (name, loc)),
        None => vars.push((name, loc)),
    }
}

/// The place of the first variable of `vars` that has no default, if any.
pub open spec fn first_uncovered(vars: Seq<(Seq<char>, Locate)>, defaults: Seq<Seq<char>>) -> Option<
    Locate,
>
    decreases vars.len(),
{
    if vars.len() == 0 {
        None
    } else if !defaults.contains(vars[0].0) {
        Some(vars[0].1)
    } else {
        first_uncovered(vars.drop_first(), defaults)
    }
}

/// The state after a declaration or a blocking assignment of `variable`.
pub open spec fn case_default_assign(s: CaseDefaultState, variable: Option<Variable>) -> CaseDefaultState {
    if !s.under_always {
        s
    } else {
        let d = default_assign(s, variable);
        if s.case_item_depth > 0 {
            match variable {
                Some(v) => CaseDefaultState { case_vars: record_case_var(d.case_vars, v.name@, v.locate), ..d },
                None => d,
            }
        } else if s.case_default_depth > 0 {
            d
        } else if s.conditional_depth == 0 {
            match variable {
                Some(v) => CaseDefaultState { defaults: insert_name(s.defaults, v.name@), ..s },
                None => s,
            }
        } else {
            s
        }
    }
}

/// The state after an assignment or declaration inside a `default` item: the
/// first variable of the item gets a default. An assignment in a `case` item
/// nested in a `default` item, or in a `default` item nested in a `case` item,
/// counts for both.
pub open spec fn default_assign(s: CaseDefaultState, variable: Option<Variable>) -> CaseDefaultState {
    if s.case_default_depth > 0 && !s.default_recorded && variable is Some {
        CaseDefaultState {
            defaults: insert_name(s.defaults, variable->0.name@),
            default_recorded: true,
            ..s
        }
    } else {
        s
    }
}

/// The events that the rule can take in state `s`: inside an `always` construct a
/// declaration must declare a variable, and inside a `case` item an assignment
/// must assign one.
pub open spec fn case_default_admits(s: CaseDefaultState, event: NodeEvent) -> bool {
    match event {
        NodeEvent::Enter(node) => s.under_always ==> match node.kind {
            NodeKind::BlockItemDeclaration { variable } => variable is Some,
            NodeKind::BlockingAssignment { variable } => s.case_item_depth > 0 ==> variable is Some,
            _ => true,
        },
        NodeEvent::Leave(_) => true,
    }
}

/// The next state and the result of one event.
pub open spec fn case_default_step(s: CaseDefaultState, event: NodeEvent) -> (CaseDefaultState, SyntaxRuleResult) {
    match event {
        NodeEvent::Enter(node) => match node.kind {
            NodeKind::AlwaysConstruct => (CaseDefaultState { under_always: true, ..s }, SyntaxRuleResult::Pass),
            NodeKind::CaseItemNondefault => (
                CaseDefaultState { case_item_depth: increment(s.case_item_depth), ..s },
                SyntaxRuleResult::Pass,
            ),
            NodeKind::CaseItemDefault => (
                CaseDefaultState {
                    case_default_depth: increment(s.case_default_depth),
                    default_recorded: false,
                    ..s
                },
                SyntaxRuleResult::Pass,
            ),
            NodeKind::ConditionalStatement => (
                if s.under_always && s.conditional_depth < u64::MAX {
                    CaseDefaultState { conditional_depth: (s.conditional_depth + 1) as u64, ..s }
                } else {
                    s
                },
                SyntaxRuleResult::Pass,
            ),
            NodeKind::BlockItemDeclaration { variable } => (case_default_assign(s, variable), SyntaxRuleResult::Pass),
            NodeKind::BlockingAssignment { variable } => (case_default_assign(s, variable), SyntaxRuleResult::Pass),
            _ => (s, SyntaxRuleResult::Pass),
        },
        NodeEvent::Leave(node) => match node.kind {
            NodeKind::AlwaysConstruct => (
                case_default_initial(),
                match first_uncovered(s.case_vars, s.defaults) {
                    Some(loc) => SyntaxRuleResult::FailLocate(loc),
                    None => SyntaxRuleResult::Pass,
                },
            ),
            NodeKind::CaseItemNondefault => (
                CaseDefaultState { case_item_depth: decrement(s.case_item_depth), ..s },
                SyntaxRuleResult::Pass,
            ),
            NodeKind::CaseItemDefault => (
                CaseDefaultState { case_default_depth: decrement(s.case_default_depth), ..s },
                SyntaxRuleResult::Pass,
            ),
            NodeKind::ConditionalStatement => (
                if s.under_always && s.conditional_depth > 0 {
                    CaseDefaultState { conditional_depth: (s.conditional_depth - 1) as u64, ..s }
                } else {
                    s
                },
                SyntaxRuleResult::Pass,
            ),
            _ => (s, SyntaxRuleResult::Pass),
        },
    }
}

/// The rule that signals driven in `case` items have a default value.
#[derive(Debug, Default)]
pub struct ImplicitCaseDefault {
    under_always_construct: bool,
    case_item_depth: u64,
    case_default_depth: u64,
    default_recorded: bool,
    conditional_depth: u64,
    lhs_default_vars: Vec<String>,
    case_item_vars: Vec<Variable>,
}

impl View for ImplicitCaseDefault {
    type V = CaseDefaultState;

    closed spec fn view(&self) -> CaseDefaultState {
        CaseDefaultState {
            under_always: self.under_always_construct,
            case_item_depth: self.case_item_depth,
            case_default_depth: self.case_default_depth,
            default_recorded: self.default_recorded,
            conditional_depth: self.conditional_depth,
            defaults: self.lhs_default_vars@.map_values(|s: String| s@),
            case_vars: self.case_item_vars@.map_values(|v: Variable| (v.name@, v.locate)),
        }
    }
}

/// The index of the first name in `names` equal to `name`.
fn name_position(names: &Vec<String>, name: &String) -> (r: Option<usize>)
    ensures
        r matches Some(i) ==> i < names.len() && names@[i as int]@ == name@,
        r is None ==> !names@.map_values(|s: String| s@).contains(name@),
{
    let mut i: usize = 0;
    while i < names.len()
        invariant
            0 <= i <= names.len(),
            forall|j: int| 0 <= j < i ==> names@[j]@ != name@,
        decreases names.len() - i,
    {
        if names[i] == *name {
            return Some(i);
        }
        i += 1;
    }
    let ghost m = names@.map_values(|s: String| s@);
    assert forall|j: int| 0 <= j < m.len() implies #[trigger] m[j] != name@ by {
        assert(m[j] == names@[j]@);
    }
    None
}

impl ImplicitCaseDefault {
    pub fn new() -> (r: Self)
        ensures
            r@ == case_default_initial(),
            case_default_wf(r@),
    {
        let r = ImplicitCaseDefault {
            under_always_construct: false,
            case_item_depth: 0,
            case_default_depth: 0,
            default_recorded: false,
            conditional_depth: 0,
            lhs_default_vars: Vec::new(),
            case_item_vars: Vec::new(),
        };
        assert(r@.defaults =~= Seq::<Seq<char>>::empty());
        assert(r@.case_vars =~= Seq::<(Seq<char>, Locate)>::empty());
        r
    }

    /// Whether the rule can take `event` now (see `case_default_admits`).
    pub fn admits(&self, event: &NodeEvent) -> (r: bool)
        ensures
            r == case_default_admits(self@, *event),
    {
        match event {
            NodeEvent::Enter(node) => {
                if !self.under_always_construct {
                    return true;
                }
                match &node.kind {
                    NodeKind::BlockItemDeclaration { variable } => variable.is_some(),
                    NodeKind::BlockingAssignment { variable } => self.case_item_depth == 0 || variable.is_some(),
                    _ => true,
                }
            },
            NodeEvent::Leave(_) => true,
        }
    }

    fn add_default(&mut self, name: &String)
        ensures
            final(self)@ == (CaseDefaultState { defaults: insert_name(old(self)@.defaults, name@), ..old(self)@ }),
    {
        let ghost old_defaults = self@.defaults;
        match name_position(&self.lhs_default_vars, name) {
            Some(i) => {
                assert(old_defaults[i as int] == name@);
            },
            None => {
                self.lhs_default_vars.push(name.clone());
                assert(self@.defaults =~= old_defaults.push(name@));
            },
        }
    }

    fn add_case_var(&mut self, v: &Variable)
        ensures
            final(self)@ == (CaseDefaultState {
                case_vars: record_case_var(old(self)@.case_vars, v.name@, v.locate),
                ..old(self)@
            }),
    {
        let ghost old_vars = self@.case_vars;
        let ghost s0 = self@;
        let mut i: usize = 0;
        while i < self.case_item_vars.len()
            invariant
                0 <= i <= self.case_item_vars.len(),
                s0 == old(self)@,
                self@ == s0,
                old_vars == s0.case_vars,
                old_vars == self.case_item_vars@.map_values(|v: Variable| (v.name@, v.locate)),
                forall|j: int| 0 <= j < i ==> old_vars[j].0 != v.name@,
            decreases self.case_item_vars.len() - i,
        {
            if self.case_item_vars[i].name == v.name {
                proof {
                    lemma_var_index_first(old_vars, v.name@, i as int);
                }
                let entry = Variable { name: v.name.clone(), locate: v.locate };
                self.case_item_vars.set(i, entry);
                assert(self@.case_vars =~= old_vars.update(i as int, (v.name@, v.locate)));
                return;
            }
            i += 1;
        }
        proof {
            lemma_var_index_none(old_vars, v.name@);
        }
        let entry = Variable { name: v.name.clone(), locate: v.locate };
        self.case_item_vars.push(entry);
        assert(self@.case_vars =~= old_vars.push((v.name@, v.locate)));
    }

    fn assign(&mut self, variable: &Option<Variable>)
        ensures
            final(self)@ == case_default_assign(old(self)@, *variable),
    {
        if !self.under_always_construct {
            return;
        }
        if self.case_default_depth > 0 && !self.default_recorded {
            if let Some(v) = variable {
                self.add_default(&v.name);
                self.default_recorded = true;
            }
        }
        if self.case_item_depth > 0 {
            if let Some(v) = variable {
                self.add_case_var(v);
            }
        } else if self.case_default_depth == 0 && self.conditional_depth == 0 {
            if let Some(v) = variable {
                self.add_default(&v.name);
            }
        }
    }

    /// The place of the first case-item variable without a default.
    fn uncovered(&self) -> (r: Option<Locate>)
        ensures
            r == first_uncovered(self@.case_vars, self@.defaults),
    {
        let ghost vars = self@.case_vars;
        let ghost defaults = self@.defaults;
        let mut i: usize = 0;
        assert(vars.skip(0) =~= vars);
        while i < self.case_item_vars.len()
            invariant
                0 <= i <= self.case_item_vars.len(),
                vars == self@.case_vars,
                defaults == self@.defaults,
                first_uncovered(vars, defaults) == first_uncovered(vars.skip(i as int), defaults),
            decreases self.case_item_vars.len() - i,
        {
            let found = name_position(&self.lhs_default_vars, &self.case_item_vars[i].name);
            assert(vars.skip(i as int)[0] == vars[i as int]);
            if found.is_none() {
                return Some(self.case_item_vars[i].locate);
            }
            proof {
                let k = found.unwrap();
                assert(defaults[k as int] == vars[i as int].0);
                assert(vars.skip(i as int).drop_first() =~= vars.skip(i + 1));
            }
            i += 1;
        }
        assert(vars.skip(i as int).len() == 0);
        None
    }

    fn reset(&mut self)
        ensures
            final(self)@ == case_default_initial(),
    {
        *self = ImplicitCaseDefault::new();
    }

    /// Checks one event. Leaving an `always` construct fails at the place of the
    /// first variable that a `case` item assigned and that has no default, and
    /// forgets the construct; every other event passes and updates what the
    /// rule remembers.
    pub fn check(&mut self, event: &NodeEvent) -> (r: SyntaxRuleResult)
        requires
            case_default_admits(old(self)@, *event),
        ensures
            (final(self)@, r) == case_default_step(old(self)@, *event),
            case_default_wf(old(self)@) ==> case_default_wf(final(self)@),
    {
        proof {
            if case_default_wf(old(self)@) {
                law_names_stay_unique(old(self)@, *event);
            }
        }
        match event {
            NodeEvent::Enter(node) => {
                match &node.kind {
                    NodeKind::AlwaysConstruct => {
                        self.under_always_construct = true;
                    },
                    NodeKind::CaseItemNondefault => {
                        if self.case_item_depth < u64::MAX {
                            self.case_item_depth = self.case_item_depth + 1;
                        }
                    },
                    NodeKind::CaseItemDefault => {
                        if self.case_default_depth < u64::MAX {
                            self.case_default_depth = self.case_default_depth + 1;
                        }
                        self.default_recorded = false;
                    },
                    NodeKind::ConditionalStatement => {
                        if self.under_always_construct && self.conditional_depth < u64::MAX {
                            self.conditional_depth = self.conditional_depth + 1;
                        }
                    },
                    NodeKind::BlockItemDeclaration { variable } => {
                        self.assign(variable);
                    },
                    NodeKind::BlockingAssignment { variable } => {
                        self.assign(variable);
                    },
                    _ => (),
                }
                SyntaxRuleResult::Pass
            },
            NodeEvent::Leave(node) => {
                match &node.kind {
                    NodeKind::AlwaysConstruct => {
                        let r = match self.uncovered() {
                            Some(loc) => SyntaxRuleResult::FailLocate(loc),
                            None => SyntaxRuleResult::Pass,
                        };
                        self.reset();
                        r
                    },
                    NodeKind::CaseItemNondefault => {
                        if self.case_item_depth > 0 {
                            self.case_item_depth = self.case_item_depth - 1;
                        }
                        SyntaxRuleResult::Pass
                    },
                    NodeKind::CaseItemDefault => {
                        if self.case_default_depth > 0 {
                            self.case_default_depth = self.case_default_depth - 1;
                        }
                        SyntaxRuleResult::Pass
                    },
                    NodeKind::ConditionalStatement => {
                        if self.under_always_construct && self.conditional_depth > 0 {
                            self.conditional_depth = self.conditional_depth - 1;
                        }
                        SyntaxRuleResult::Pass
                    },
                    _ => SyntaxRuleResult::Pass,
                }
            },
        }
    }

    pub fn name(&self) -> (r: String)
        ensures
            r@ == "implicit_case_default"@,
    {
        "implicit_case_default".to_string()
    }

    pub fn hint(&self) -> (r: String)
        ensures
            r@ == "Signal driven in `case` statement does not have a default value."@,
    {
        "Signal driven in `case` statement does not have a default value.".to_string()
    }

    pub fn reason(&self) -> (r: String)
        ensures
            r@ == "Default values ensure that signals are never metastable."@,
    {
        "Default values ensure that signals are never metastable.".to_string()
    }
}

proof fn lemma_var_index_first(vars: Seq<(Seq<char>, Locate)>, name: Seq<char>, i: int)
    requires
        0 <= i < vars.len(),
        vars[i].0 == name,
        forall|j: int| 0 <= j < i ==> vars[j].0 != name,
    ensures
        var_index(vars, name) == Some(i),
    decreases vars.len(),
{
    if i < vars.len() - 1 {
        lemma_var_index_first(vars.drop_last(), name, i);
    } else {
        lemma_var_index_none(vars.drop_last(), name);
    }
}

proof fn lemma_var_index_none(vars: Seq<(Seq<char>, Locate)>, name: Seq<char>)
    requires
        forall|j: int| 0 <= j < vars.len() ==> vars[j].0 != name,
    ensures
        var_index(vars, name) is None,
    decreases vars.len(),
{
    if vars.len() > 0 {
        lemma_var_index_none(vars.drop_last(), name);
    }
}

} // verus!

verus! {

proof fn lemma_first_uncovered(vars: Seq<(Seq<char>, Locate)>, defaults: Seq<Seq<char>>)
    ensures
        first_uncovered(vars, defaults) is None <==> forall|i: int|
            0 <= i < vars.len() ==> defaults.contains(#[trigger] vars[i].0),
        first_uncovered(vars, defaults) matches Some(loc) ==> exists|i: int|
            0 <= i < vars.len() && !defaults.contains(#[trigger] vars[i].0) && vars[i].1 == loc,
    decreases vars.len(),
{
    if vars.len() > 0 {
        let rest = vars.drop_first();
        lemma_first_uncovered(rest, defaults);
        assert forall|i: int| 0 < i < vars.len() implies vars[i] == rest[i - 1] by {}
        if defaults.contains(vars[0].0) {
            if first_uncovered(rest, defaults) is None {
                assert forall|i: int| 0 <= i < vars.len() implies defaults.contains(#[trigger] vars[i].0) by {
                    if i > 0 {
                        assert(vars[i] == rest[i - 1]);
                    }
                }
            } else {
                let loc = first_uncovered(rest, defaults)->0;
                let j = choose|j: int| 0 <= j < rest.len() && !defaults.contains(#[trigger] rest[j].0) && rest[j].1 == loc;
                assert(vars[j + 1] == rest[j]);
            }
        }
    }
}

/// The rule fails only when an `always` construct ends.
pub proof fn law_only_always_end_fails(s: CaseDefaultState, event: NodeEvent)
    ensures
        case_default_step(s, event).1 != SyntaxRuleResult::Pass ==> (event matches NodeEvent::Leave(node)
            && node.kind is AlwaysConstruct),
{
}

/// Leaving an `always` construct forgets it entirely: the rule is back in its
/// initial state, so one construct never affects the verdict on another.
pub proof fn law_always_end_forgets(s: CaseDefaultState, event: NodeEvent)
    requires
        event matches NodeEvent::Leave(node) && node.kind is AlwaysConstruct,
    ensures
        case_default_step(s, event).0 == case_default_initial(),
{
}

/// At the end of an `always` construct the rule passes exactly when every
/// variable that a `case` item assigned has a default; otherwise it fails at the
/// place of such a variable.
pub proof fn law_end_verdict(s: CaseDefaultState, event: NodeEvent)
    requires
        event matches NodeEvent::Leave(node) && node.kind is AlwaysConstruct,
    ensures
        case_default_step(s, event).1 == SyntaxRuleResult::Pass <==> forall|i: int|
            0 <= i < s.case_vars.len() ==> s.defaults.contains(#[trigger] s.case_vars[i].0),
        case_default_step(s, event).1 != SyntaxRuleResult::Pass ==> exists|i: int|
            0 <= i < s.case_vars.len() && !s.defaults.contains(#[trigger] s.case_vars[i].0)
                && case_default_step(s, event).1 == SyntaxRuleResult::FailLocate(s.case_vars[i].1),
{
    lemma_first_uncovered(s.case_vars, s.defaults);
}

/// A variable that has a default keeps it until the `always` construct ends.
pub proof fn law_defaults_persist(s: CaseDefaultState, event: NodeEvent, name: Seq<char>)
    requires
        s.defaults.contains(name),
        !(event matches NodeEvent::Leave(node) && node.kind is AlwaysConstruct),
    ensures
        case_default_step(s, event).0.defaults.contains(name),
{
    let t = case_default_step(s, event).0;
    if t.defaults != s.defaults {
        let k = choose|k: int| 0 <= k < s.defaults.len() && s.defaults[k] == name;
        assert(t.defaults[k] == name);
    }
}

/// A blocking assignment at the top of an `always` construct, outside every
/// `case` item and conditional statement, gives its variable a default.
pub proof fn law_top_assignment_is_default(s: CaseDefaultState, event: NodeEvent)
    requires
        s.under_always,
        s.case_item_depth == 0,
        s.case_default_depth == 0,
        s.conditional_depth == 0,
        event matches NodeEvent::Enter(node) && node.kind matches NodeKind::BlockingAssignment {
            variable: Some(v) }
        ,
    ensures
        event matches NodeEvent::Enter(node) && node.kind matches NodeKind::BlockingAssignment {
            variable: Some(v) }
            && case_default_step(s, event).0.defaults.contains(v.name@),
{
    if let NodeEvent::Enter(node) = event {
        if let NodeKind::BlockingAssignment { variable: Some(v) } = node.kind {
            let d = case_default_step(s, event).0.defaults;
            if !s.defaults.contains(v.name@) {
                assert(d[d.len() - 1] == v.name@);
            }
        }
    }
}

} // verus!

verus! {

/// The state after a sequence of events.
pub open spec fn case_default_run(s: CaseDefaultState, events: Seq<NodeEvent>) -> CaseDefaultState
    decreases events.len(),
{
    if events.len() == 0 {
        s
    } else {
        case_default_step(case_default_run(s, events.drop_last()), events.last()).0
    }
}

/// Within one `always` construct, a default is never lost: after any events
/// that do not end the construct, a variable that had a default still has it,
/// so the end of the construct never reports it.
pub proof fn law_default_kept_through_construct(s: CaseDefaultState, events: Seq<NodeEvent>, name: Seq<char>)
    requires
        s.defaults.contains(name),
        forall|i: int|
            0 <= i < events.len() ==> !(#[trigger] events[i] matches NodeEvent::Leave(node) && node.kind is AlwaysConstruct),
    ensures
        case_default_run(s, events).defaults.contains(name),
    decreases events.len(),
{
    if events.len() > 0 {
        let prefix = events.drop_last();
        assert forall|i: int| 0 <= i < prefix.len() implies !(#[trigger] prefix[i] matches NodeEvent::Leave(node)
            && node.kind is AlwaysConstruct) by {
            assert(prefix[i] == events[i]);
        }
        law_default_kept_through_construct(s, prefix, name);
        assert(events.last() == events[events.len() - 1]);
        law_defaults_persist(case_default_run(s, prefix), events.last(), name);
    }
}

} // verus!

verus! {

/// What the rule remembers names each variable once: no name is twice among
/// the defaults, and no name is twice among the case-item variables.
pub open spec fn case_default_wf(s: CaseDefaultState) -> bool {
    &&& s.defaults.no_duplicates()
    &&& forall|i: int, j: int|
        0 <= i < j < s.case_vars.len() ==> (#[trigger] s.case_vars[i]).0 != (#[trigger] s.case_vars[j]).0
}

proof fn lemma_var_index(vars: Seq<(Seq<char>, Locate)>, name: Seq<char>)
    ensures
        var_index(vars, name) matches Some(i) ==> 0 <= i < vars.len() && vars[i].0 == name,
        var_index(vars, name) is None ==> forall|j: int| 0 <= j < vars.len() ==> (#[trigger] vars[j]).0 != name,
    decreases vars.len(),
{
    if vars.len() > 0 {
        lemma_var_index(vars.drop_last(), name);
        assert forall|j: int| 0 <= j < vars.len() - 1 implies vars[j] == vars.drop_last()[j] by {}
    }
}

proof fn lemma_insert_name_unique(names: Seq<Seq<char>>, name: Seq<char>)
    requires
        names.no_duplicates(),
    ensures
        insert_name(names, name).no_duplicates(),
        insert_name(names, name).contains(name),
{
    if !names.contains(name) {
        let t = names.push(name);
        assert forall|i: int, j: int| 0 <= i < t.len() && 0 <= j < t.len() && i != j implies t[i] != t[j] by {
            if i == names.len() as int {
                assert(t[j] == names[j]);
            } else if j == names.len() as int {
                assert(t[i] == names[i]);
            } else {
                assert(t[i] == names[i] && t[j] == names[j]);
            }
        }
        assert(t[names.len() as int] == name);
    }
}

proof fn lemma_record_case_var_unique(vars: Seq<(Seq<char>, Locate)>, name: Seq<char>, loc: Locate)
    requires
        forall|i: int, j: int| 0 <= i < j < vars.len() ==> (#[trigger] vars[i]).0 != (#[trigger] vars[j]).0,
    ensures
        ({
            let t = record_case_var(vars, name, loc);
            forall|i: int, j: int| 0 <= i < j < t.len() ==> (#[trigger] t[i]).0 != (#[trigger] t[j]).0
        }),
{
    lemma_var_index(vars, name);
    let t = record_case_var(vars, name, loc);
    assert forall|i: int, j: int| 0 <= i < j < t.len() implies (#[trigger] t[i]).0 != (#[trigger] t[j]).0 by {
        match var_index(vars, name) {
            Some(k) => {
                assert(t[i].0 == vars[i].0);
                assert(t[j].0 == vars[j].0);
            },
            None => {
                if j == vars.len() as int {
                    assert(t[i] == vars[i]);
                } else {
                    assert(t[i] == vars[i] && t[j] == vars[j]);
                }
            },
        }
    }
}

/// The rule starts with every name once.
pub proof fn law_initial_names_unique()
    ensures
        case_default_wf(case_default_initial()),
{
}

/// Every event keeps each name once among the defaults and among the
/// case-item variables.
pub proof fn law_names_stay_unique(s: CaseDefaultState, event: NodeEvent)
    requires
        case_default_wf(s),
    ensures
        case_default_wf(case_default_step(s, event).0),
{
    if let NodeEvent::Enter(node) = event {
        let v = match node.kind {
            NodeKind::BlockItemDeclaration { variable } => variable,
            NodeKind::BlockingAssignment { variable } => variable,
            _ => None,
        };
        if let Some(x) = v {
            lemma_insert_name_unique(s.defaults, x.name@);
            lemma_record_case_var_unique(s.case_vars, x.name@, x.locate);
        }
    }
}

} // verus!

verus! {

/// Inside an `always` construct and inside a `case` item, a blocking
/// assignment or a declaration of `v`, at any depth of conditional statements,
/// leaves `v` among the case-item variables at the place of that assignment, and
/// every variable recorded before stays recorded.
pub proof fn law_case_item_assignment_is_recorded(s: CaseDefaultState, event: NodeEvent)
    requires
        s.under_always,
        s.case_item_depth > 0,
        event matches NodeEvent::Enter(node) && (node.kind matches NodeKind::BlockingAssignment {
            variable: Some(v) } || node.kind matches NodeKind::BlockItemDeclaration { variable: Some(v) }),
    ensures
        ({
            let t = case_default_step(s, event).0;
            let v = match event {
                NodeEvent::Enter(node) => match node.kind {
                    NodeKind::BlockingAssignment { variable } => variable->0,
                    NodeKind::BlockItemDeclaration { variable } => variable->0,
                    _ => arbitrary(),
                },
                _ => arbitrary(),
            };
            &&& exists|i: int| 0 <= i < t.case_vars.len() && t.case_vars[i] == (v.name@, v.locate)
            &&& forall|j: int|
                0 <= j < s.case_vars.len() ==> exists|i: int|
                    0 <= i < t.case_vars.len() && #[trigger] t.case_vars[i].0 == #[trigger] s.case_vars[j].0
        }),
{
    if let NodeEvent::Enter(node) = event {
        let var = match node.kind {
            NodeKind::BlockingAssignment { variable } => variable,
            NodeKind::BlockItemDeclaration { variable } => variable,
            _ => None,
        };
        let v = var->0;
        let t = case_default_step(s, event).0;
        lemma_var_index(s.case_vars, v.name@);
        match var_index(s.case_vars, v.name@) {
            Some(k) => {
                assert(t.case_vars[k] == (v.name@, v.locate));
                assert forall|j: int| 0 <= j < s.case_vars.len() implies exists|i: int|
                    0 <= i < t.case_vars.len() && #[trigger] t.case_vars[i].0 == #[trigger] s.case_vars[j].0 by {
                    assert(t.case_vars[j].0 == s.case_vars[j].0);
                }
            },
            None => {
                assert(t.case_vars[s.case_vars.len() as int] == (v.name@, v.locate));
                assert forall|j: int| 0 <= j < s.case_vars.len() implies exists|i: int|
                    0 <= i < t.case_vars.len() && #[trigger] t.case_vars[i].0 == #[trigger] s.case_vars[j].0 by {
                    assert(t.case_vars[j] == s.case_vars[j]);
                }
            },
        }
    }
}

/// A variable that a `case` item assigned and that never got a default makes
/// the end of the `always` construct fail.
pub proof fn law_uncovered_case_variable_fails(s: CaseDefaultState, event: NodeEvent, i: int)
    requires
        0 <= i < s.case_vars.len(),
        !s.defaults.contains(s.case_vars[i].0),
        event matches NodeEvent::Leave(node) && node.kind is AlwaysConstruct,
    ensures
        case_default_step(s, event).1 != SyntaxRuleResult::Pass,
{
    law_end_verdict(s, event);
}

} // verus!

verus! {

/// A variable recorded as assigned in a `case` item stays recorded until the
/// `always` construct ends, so the end of the construct judges it.
pub proof fn law_case_variables_persist(s: CaseDefaultState, event: NodeEvent, name: Seq<char>)
    requires
        exists|j: int| 0 <= j < s.case_vars.len() && s.case_vars[j].0 == name,
        !(event matches NodeEvent::Leave(node) && node.kind is AlwaysConstruct),
    ensures
        exists|i: int|
            0 <= i < case_default_step(s, event).0.case_vars.len() && case_default_step(s, event).0.case_vars[i].0
                == name,
{
    let j = choose|j: int| 0 <= j < s.case_vars.len() && s.case_vars[j].0 == name;
    let t = case_default_step(s, event).0;
    if let NodeEvent::Enter(node) = event {
        let var = match node.kind {
            NodeKind::BlockingAssignment { variable } => variable,
            NodeKind::BlockItemDeclaration { variable } => variable,
            _ => None,
        };
        if let Some(v) = var {
            lemma_record_keeps_names(s.case_vars, v.name@, v.locate);
        }
    }
    assert(t.case_vars[j].0 == name);
}

proof fn lemma_record_keeps_names(vars: Seq<(Seq<char>, Locate)>, name: Seq<char>, loc: Locate)
    ensures
        record_case_var(vars, name, loc).len() >= vars.len(),
        forall|j: int| 0 <= j < vars.len() ==> (#[trigger] record_case_var(vars, name, loc)[j]).0 == vars[j].0,
{
    lemma_var_index(vars, name);
}

} // verus!
