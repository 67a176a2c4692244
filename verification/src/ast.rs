use vstd::prelude::*;

verus! {

// ---------------------------------------------------------------------------
// Parsed form: transition targets are still state names.
// ---------------------------------------------------------------------------

/// One action inside a rule body, as parsed: an opaque host statement,
/// a transition to a named state, or a return carrying an optional opaque
/// value expression.
#[derive(Debug, Clone)]
pub enum Action {
    Host(String),
    Transition(String),
    Return(Option<String>),
}

/// Mathematical image of an `Action`.
pub enum ActionView {
    Host(Seq<char>),
    Transition(Seq<char>),
    Return(Option<Seq<char>>),
}

impl DeepView for Action {
    type V = ActionView;

    open spec fn deep_view(&self) -> ActionView {
        match self {
            Action::Host(s) => ActionView::Host(s@),
            Action::Transition(s) => ActionView::Transition(s@),
            Action::Return(v) => ActionView::Return(v.deep_view()),
        }
    }
}

impl View for Action {
    type V = ActionView;

    open spec fn view(&self) -> ActionView {
        self.deep_view()
    }
}

/// A named unit of conditional or unconditional logic within a state.
/// An else body may only be present together with a condition; the parser
/// refuses the combination and the validator checks it again.
#[derive(Debug, Clone)]
pub struct Rule {
    pub name: String,
    pub condition: Option<String>,
    pub body: Vec<Action>,
    pub else_body: Option<Vec<Action>>,
}

/// Mathematical image of a `Rule`.
pub struct RuleView {
    pub name: Seq<char>,
    pub condition: Option<Seq<char>>,
    pub body: Seq<ActionView>,
    pub else_body: Option<Seq<ActionView>>,
}

impl DeepView for Rule {
    type V = RuleView;

    open spec fn deep_view(&self) -> RuleView {
        RuleView {
            name: self.name@,
            condition: self.condition.deep_view(),
            body: self.body.deep_view(),
            else_body: self.else_body.deep_view(),
        }
    }
}

impl View for Rule {
    type V = RuleView;

    open spec fn view(&self) -> RuleView {
        self.deep_view()
    }
}

/// A named, ordered group of rules representing one phase of the machine.
#[derive(Debug, Clone)]
pub struct State {
    pub name: String,
    pub rules: Vec<Rule>,
}

/// Mathematical image of a `State`.
pub struct StateView {
    pub name: Seq<char>,
    pub rules: Seq<RuleView>,
}

impl DeepView for State {
    type V = StateView;

    open spec fn deep_view(&self) -> StateView {
        StateView { name: self.name@, rules: self.rules.deep_view() }
    }
}

impl View for State {
    type V = StateView;

    open spec fn view(&self) -> StateView {
        self.deep_view()
    }
}

/// An ordered sequence of states; the position of a state in the sequence is
/// the index that transitions resolve to.
#[derive(Debug, Clone)]
pub struct Program {
    pub states: Vec<State>,
}

/// Mathematical image of a `Program`.
pub struct ProgramView {
    pub states: Seq<StateView>,
}

impl DeepView for Program {
    type V = ProgramView;

    open spec fn deep_view(&self) -> ProgramView {
        ProgramView { states: self.states.deep_view() }
    }
}

impl View for Program {
    type V = ProgramView;

    open spec fn view(&self) -> ProgramView {
        self.deep_view()
    }
}

// ---------------------------------------------------------------------------
// Validated form: transition targets are resolved state indices.
// ---------------------------------------------------------------------------

/// One action of a validated program; the transition target is a concrete
/// index into the program's state sequence.
#[derive(Debug, Clone)]
pub enum ResolvedAction {
    Host(String),
    Transition(usize),
    Return(Option<String>),
}

/// Mathematical image of a `ResolvedAction`.
pub enum ResolvedActionView {
    Host(Seq<char>),
    Transition(int),
    Return(Option<Seq<char>>),
}

impl DeepView for ResolvedAction {
    type V = ResolvedActionView;

    open spec fn deep_view(&self) -> ResolvedActionView {
        match self {
            ResolvedAction::Host(s) => ResolvedActionView::Host(s@),
            ResolvedAction::Transition(t) => ResolvedActionView::Transition(*t as int),
            ResolvedAction::Return(v) => ResolvedActionView::Return(v.deep_view()),
        }
    }
}

impl View for ResolvedAction {
    type V = ResolvedActionView;

    open spec fn view(&self) -> ResolvedActionView {
        self.deep_view()
    }
}

/// A rule of a validated program.
#[derive(Debug, Clone)]
pub struct ResolvedRule {
    pub name: String,
    pub condition: Option<String>,
    pub body: Vec<ResolvedAction>,
    pub else_body: Option<Vec<ResolvedAction>>,
}

/// Mathematical image of a `ResolvedRule`.
pub struct ResolvedRuleView {
    pub name: Seq<char>,
    pub condition: Option<Seq<char>>,
    pub body: Seq<ResolvedActionView>,
    pub else_body: Option<Seq<ResolvedActionView>>,
}

impl DeepView for ResolvedRule {
    type V = ResolvedRuleView;

    open spec fn deep_view(&self) -> ResolvedRuleView {
        ResolvedRuleView {
            name: self.name@,
            condition: self.condition.deep_view(),
            body: self.body.deep_view(),
            else_body: self.else_body.deep_view(),
        }
    }
}

impl View for ResolvedRule {
    type V = ResolvedRuleView;

    open spec fn view(&self) -> ResolvedRuleView {
        self.deep_view()
    }
}

/// A state of a validated program.
#[derive(Debug, Clone)]
pub struct ResolvedState {
    pub name: String,
    pub rules: Vec<ResolvedRule>,
}

/// Mathematical image of a `ResolvedState`.
pub struct ResolvedStateView {
    pub name: Seq<char>,
    pub rules: Seq<ResolvedRuleView>,
}

impl DeepView for ResolvedState {
    type V = ResolvedStateView;

    open spec fn deep_view(&self) -> ResolvedStateView {
        ResolvedStateView { name: self.name@, rules: self.rules.deep_view() }
    }
}

impl View for ResolvedState {
    type V = ResolvedStateView;

    open spec fn view(&self) -> ResolvedStateView {
        self.deep_view()
    }
}

/// A program that passed validation: state names are pairwise distinct, rule
/// names are distinct within each state, every transition target is a state
/// index in range, and an else body only appears under a condition.
#[derive(Debug, Clone)]
pub struct ValidatedProgram {
    pub states: Vec<ResolvedState>,
}

/// Mathematical image of a `ValidatedProgram`.
pub struct ValidatedProgramView {
    pub states: Seq<ResolvedStateView>,
}

impl DeepView for ValidatedProgram {
    type V = ValidatedProgramView;

    open spec fn deep_view(&self) -> ValidatedProgramView {
        ValidatedProgramView { states: self.states.deep_view() }
    }
}

impl View for ValidatedProgram {
    type V = ValidatedProgramView;

    open spec fn view(&self) -> ValidatedProgramView {
        self.deep_view()
    }
}

// ---------------------------------------------------------------------------
// Well-formedness of the validated form, as the engine relies on it.
// ---------------------------------------------------------------------------

/// Every transition inside the action points at one of the `n` states.
pub open spec fn action_wf(a: ResolvedActionView, n: int) -> bool {
    match a {
        ResolvedActionView::Transition(t) => 0 <= t < n,
        _ => true,
    }
}

/// All actions of the rule's body and else body are well formed, and an else
/// body only appears together with a condition.
pub open spec fn rule_wf(r: ResolvedRuleView, n: int) -> bool {
    &&& forall|i: int| 0 <= i < r.body.len() ==> action_wf(#[trigger] r.body[i], n)
    &&& match r.else_body {
        Some(items) => {
            &&& r.condition is Some
            &&& forall|i: int| 0 <= i < items.len() ==> action_wf(#[trigger] items[i], n)
        },
        None => true,
    }
}

/// All rules of the state are well formed.
pub open spec fn state_wf(s: ResolvedStateView, n: int) -> bool {
    forall|i: int| 0 <= i < s.rules.len() ==> rule_wf(#[trigger] s.rules[i], n)
}

/// The structural facts about a validated program that the engine relies on:
/// every transition target is in range, and else bodies imply conditions.
pub open spec fn program_wf(p: ValidatedProgramView) -> bool {
    forall|i: int| 0 <= i < p.states.len() ==> state_wf(#[trigger] p.states[i], p.states.len() as int)
}

} // verus!
