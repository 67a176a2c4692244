use vstd::prelude::*;
use crate::ast::{
    Action, ActionView, Program, ProgramView, ResolvedAction, ResolvedActionView, ResolvedRule,
    ResolvedRuleView, ResolvedState, ResolvedStateView, Rule, RuleView, State, StateView,
    ValidatedProgram, ValidatedProgramView, action_wf, program_wf, rule_wf, state_wf,
};

verus! {

// ---------------------------------------------------------------------------
// Errors.
// ---------------------------------------------------------------------------

/// The first structural violation found in a parsed program. Validation
/// walks states in order; within a state it walks rules in order, and for
/// each rule checks its name, its else clause, its body and then its else
/// body.
#[derive(Debug, Clone)]
pub enum ValidationError {
    /// Two states carry the same name.
    DuplicateState { state: String },
    /// Two rules within one state carry the same name.
    DuplicateRule { state: String, rule: String },
    /// A transition names no declared state.
    UnknownTarget { state: String, rule: String, target: String },
    /// An else body is attached to a conditionless rule.
    ElseWithoutCondition { state: String, rule: String },
}

/// Mathematical image of a `ValidationError`.
pub enum ValidationErrorView {
    DuplicateState { state: Seq<char> },
    DuplicateRule { state: Seq<char>, rule: Seq<char> },
    UnknownTarget { state: Seq<char>, rule: Seq<char>, target: Seq<char> },
    ElseWithoutCondition { state: Seq<char>, rule: Seq<char> },
}

impl View for ValidationError {
    type V = ValidationErrorView;

    open spec fn view(&self) -> ValidationErrorView {
        match self {
            ValidationError::DuplicateState { state } => ValidationErrorView::DuplicateState {
                state: state@,
            },
            ValidationError::DuplicateRule { state, rule } => ValidationErrorView::DuplicateRule {
                state: state@,
                rule: rule@,
            },
            ValidationError::UnknownTarget { state, rule, target } => {
                ValidationErrorView::UnknownTarget { state: state@, rule: rule@, target: target@ }
            },
            ValidationError::ElseWithoutCondition { state, rule } => {
                ValidationErrorView::ElseWithoutCondition { state: state@, rule: rule@ }
            },
        }
    }
}

// ---------------------------------------------------------------------------
// The validation walk, stated mathematically.
// ---------------------------------------------------------------------------

/// The names of a program's states, in declaration order.
pub open spec fn state_names(p: ProgramView) -> Seq<Seq<char>> {
    p.states.map_values(|s: StateView| s.name)
}

/// The names of a state's rules, in declaration order.
pub open spec fn rule_names(rules: Seq<RuleView>) -> Seq<Seq<char>> {
    rules.map_values(|r: RuleView| r.name)
}

/// The position of the first occurrence of `x` in `names`, if any.
pub open spec fn name_index(names: Seq<Seq<char>>, x: Seq<char>) -> Option<int>
    decreases names.len(),
{
    if names.len() == 0 {
        None
    } else if names[0] == x {
        Some(0)
    } else {
        match name_index(names.drop_first(), x) {
            Some(i) => Some(i + 1),
            None => None,
        }
    }
}

/// Resolve the transitions of one action list against the declared state
/// names, or report the first unresolved target.
pub open spec fn resolve_actions(
    names: Seq<Seq<char>>,
    sname: Seq<char>,
    rname: Seq<char>,
    items: Seq<ActionView>,
) -> Result<Seq<ResolvedActionView>, ValidationErrorView>
    decreases items.len(),
{
    if items.len() == 0 {
        Ok(Seq::empty())
    } else {
        let head = match items[0] {
            ActionView::Host(t) => Ok(ResolvedActionView::Host(t)),
            ActionView::Return(v) => Ok(ResolvedActionView::Return(v)),
            ActionView::Transition(t) => match name_index(names, t) {
                Some(ix) => Ok(ResolvedActionView::Transition(ix)),
                None => Err(
                    ValidationErrorView::UnknownTarget { state: sname, rule: rname, target: t },
                ),
            },
        };
        match head {
            Ok(a) => match resolve_actions(names, sname, rname, items.drop_first()) {
                Ok(rest) => Ok(seq![a] + rest),
                Err(e) => Err(e),
            },
            Err(e) => Err(e),
        }
    }
}

/// Check one rule: its name against the rules already seen in this state,
/// the legality of its else clause, and the targets of its bodies.
pub open spec fn check_rule(
    names: Seq<Seq<char>>,
    sname: Seq<char>,
    seen: Seq<Seq<char>>,
    r: RuleView,
) -> Result<ResolvedRuleView, ValidationErrorView> {
    if seen.contains(r.name) {
        Err(ValidationErrorView::DuplicateRule { state: sname, rule: r.name })
    } else if r.else_body is Some && r.condition is None {
        Err(ValidationErrorView::ElseWithoutCondition { state: sname, rule: r.name })
    } else {
        match resolve_actions(names, sname, r.name, r.body) {
            Ok(body) => match r.else_body {
                Some(items) => match resolve_actions(names, sname, r.name, items) {
                    Ok(eb) => Ok(
                        ResolvedRuleView {
                            name: r.name,
                            condition: r.condition,
                            body,
                            else_body: Some(eb),
                        },
                    ),
                    Err(e) => Err(e),
                },
                None => Ok(
                    ResolvedRuleView {
                        name: r.name,
                        condition: r.condition,
                        body,
                        else_body: None,
                    },
                ),
            },
            Err(e) => Err(e),
        }
    }
}

/// Check a state's rules in order, accumulating the names already seen.
pub open spec fn check_rules(
    names: Seq<Seq<char>>,
    sname: Seq<char>,
    seen: Seq<Seq<char>>,
    rules: Seq<RuleView>,
) -> Result<Seq<ResolvedRuleView>, ValidationErrorView>
    decreases rules.len(),
{
    if rules.len() == 0 {
        Ok(Seq::empty())
    } else {
        match check_rule(names, sname, seen, rules[0]) {
            Ok(rr) => match check_rules(names, sname, seen.push(rules[0].name), rules.drop_first()) {
                Ok(rest) => Ok(seq![rr] + rest),
                Err(e) => Err(e),
            },
            Err(e) => Err(e),
        }
    }
}

/// Check the program's states in order, accumulating the names already seen.
pub open spec fn check_states(
    names: Seq<Seq<char>>,
    seen: Seq<Seq<char>>,
    states: Seq<StateView>,
) -> Result<Seq<ResolvedStateView>, ValidationErrorView>
    decreases states.len(),
{
    if states.len() == 0 {
        Ok(Seq::empty())
    } else {
        let st = states[0];
        if seen.contains(st.name) {
            Err(ValidationErrorView::DuplicateState { state: st.name })
        } else {
            match check_rules(names, st.name, Seq::empty(), st.rules) {
                Ok(rs) => match check_states(names, seen.push(st.name), states.drop_first()) {
                    Ok(rest) => Ok(seq![ResolvedStateView { name: st.name, rules: rs }] + rest),
                    Err(e) => Err(e),
                },
                Err(e) => Err(e),
            }
        }
    }
}

/// The whole validation walk: the program unchanged but with transition
/// targets resolved to indices, or the first structural violation.
pub open spec fn spec_validate(p: ProgramView) -> Result<
    ValidatedProgramView,
    ValidationErrorView,
> {
    match check_states(state_names(p), Seq::empty(), p.states) {
        Ok(ss) => Ok(ValidatedProgramView { states: ss }),
        Err(e) => Err(e),
    }
}

// ---------------------------------------------------------------------------
// Facts about the walk.
// ---------------------------------------------------------------------------

/// What `name_index` finds: the first occurrence, or nothing anywhere.
pub proof fn lemma_name_index_props(names: Seq<Seq<char>>, x: Seq<char>)
    ensures
        match name_index(names, x) {
            Some(i) => 0 <= i < names.len() && names[i] == x && forall|j: int|
                0 <= j < i ==> names[j] != x,
            None => forall|j: int| 0 <= j < names.len() ==> names[j] != x,
        },
    decreases names.len(),
{
    if names.len() > 0 && names[0] != x {
        lemma_name_index_props(names.drop_first(), x);
        match name_index(names.drop_first(), x) {
            Some(i) => {
                assert(names[i + 1] == names.drop_first()[i]);
                assert forall|j: int| 0 <= j < i + 1 implies names[j] != x by {
                    if j > 0 {
                        assert(names.drop_first()[j - 1] == names[j]);
                    }
                }
            },
            None => {
                assert forall|j: int| 0 <= j < names.len() implies names[j] != x by {
                    if j > 0 {
                        assert(names.drop_first()[j - 1] == names[j]);
                    }
                }
            },
        }
    }
}

/// A linear scan that stops at the first hit computes `name_index`.
proof fn lemma_name_index_at(names: Seq<Seq<char>>, x: Seq<char>, i: int)
    requires
        0 <= i < names.len(),
        names[i] == x,
        forall|j: int| 0 <= j < i ==> names[j] != x,
    ensures
        name_index(names, x) == Some(i),
    decreases i,
{
    if i > 0 {
        lemma_name_index_at(names.drop_first(), x, i - 1);
    }
}

proof fn lemma_name_index_none(names: Seq<Seq<char>>, x: Seq<char>)
    requires
        forall|j: int| 0 <= j < names.len() ==> names[j] != x,
    ensures
        name_index(names, x) is None,
{
    lemma_name_index_props(names, x);
    if name_index(names, x) is Some {
        assert(names[name_index(names, x)->Some_0] == x);
    }
}

/// Resolution only produces in-range targets and keeps the item count.
pub proof fn lemma_resolve_actions_wf(
    names: Seq<Seq<char>>,
    sname: Seq<char>,
    rname: Seq<char>,
    items: Seq<ActionView>,
)
    ensures
        match resolve_actions(names, sname, rname, items) {
            Ok(out) => out.len() == items.len() && forall|k: int|
                0 <= k < out.len() ==> action_wf(#[trigger] out[k], names.len() as int),
            Err(_) => true,
        },
    decreases items.len(),
{
    if items.len() > 0 {
        lemma_resolve_actions_wf(names, sname, rname, items.drop_first());
        if items[0] is Transition {
            lemma_name_index_props(names, items[0]->Transition_0);
        }
    }
}

/// A rule that passes its checks is well formed for the engine.
proof fn lemma_check_rule_wf(
    names: Seq<Seq<char>>,
    sname: Seq<char>,
    seen: Seq<Seq<char>>,
    r: RuleView,
)
    ensures
        match check_rule(names, sname, seen, r) {
            Ok(rr) => rule_wf(rr, names.len() as int),
            Err(_) => true,
        },
{
    lemma_resolve_actions_wf(names, sname, r.name, r.body);
    if r.else_body is Some {
        lemma_resolve_actions_wf(names, sname, r.name, r.else_body->Some_0);
    }
}

proof fn lemma_check_rules_wf(
    names: Seq<Seq<char>>,
    sname: Seq<char>,
    seen: Seq<Seq<char>>,
    rules: Seq<RuleView>,
)
    ensures
        match check_rules(names, sname, seen, rules) {
            Ok(rs) => rs.len() == rules.len() && forall|k: int|
                0 <= k < rs.len() ==> rule_wf(#[trigger] rs[k], names.len() as int),
            Err(_) => true,
        },
    decreases rules.len(),
{
    if rules.len() > 0 {
        lemma_check_rule_wf(names, sname, seen, rules[0]);
        lemma_check_rules_wf(names, sname, seen.push(rules[0].name), rules.drop_first());
    }
}

proof fn lemma_check_states_wf(names: Seq<Seq<char>>, seen: Seq<Seq<char>>, states: Seq<StateView>)
    ensures
        match check_states(names, seen, states) {
            Ok(ss) => ss.len() == states.len() && forall|k: int|
                0 <= k < ss.len() ==> state_wf(#[trigger] ss[k], names.len() as int),
            Err(_) => true,
        },
    decreases states.len(),
{
    if states.len() > 0 {
        lemma_check_rules_wf(names, states[0].name, Seq::empty(), states[0].rules);
        lemma_check_states_wf(names, seen.push(states[0].name), states.drop_first());
    }
}

/// A program that passes validation is well formed for the engine.
pub proof fn lemma_spec_validate_wf(p: ProgramView)
    ensures
        match spec_validate(p) {
            Ok(vp) => program_wf(vp) && vp.states.len() == p.states.len(),
            Err(_) => true,
        },
{
    lemma_check_states_wf(state_names(p), Seq::empty(), p.states);
}

// ---------------------------------------------------------------------------
// Validity stated declaratively, and the proof that the walk accepts exactly
// the valid programs.
// ---------------------------------------------------------------------------

/// Every transition inside the action names a declared state.
pub open spec fn action_targets_declared(names: Seq<Seq<char>>, a: ActionView) -> bool {
    match a {
        ActionView::Transition(t) => names.contains(t),
        _ => true,
    }
}

/// The rule's else clause sits under a condition and every transition of
/// its bodies names a declared state.
pub open spec fn rule_valid(names: Seq<Seq<char>>, r: RuleView) -> bool {
    &&& (r.else_body is Some ==> r.condition is Some)
    &&& forall|k: int|
        0 <= k < r.body.len() ==> action_targets_declared(names, #[trigger] r.body[k])
    &&& (r.else_body is Some ==> forall|k: int|
        0 <= k < r.else_body->Some_0.len() ==> action_targets_declared(
            names,
            #[trigger] r.else_body->Some_0[k],
        ))
}

/// The state's rule names are pairwise distinct and each rule is valid.
pub open spec fn state_valid(names: Seq<Seq<char>>, s: StateView) -> bool {
    &&& forall|a: int, b: int|
        0 <= a < b < s.rules.len() ==> (#[trigger] s.rules[a]).name != (#[trigger] s.rules[b]).name
    &&& forall|j: int| 0 <= j < s.rules.len() ==> rule_valid(names, #[trigger] s.rules[j])
}

/// The structural demands on a program, stated directly: state names
/// pairwise distinct, rule names distinct within each state, else clauses
/// only under conditions, every transition target declared.
pub open spec fn program_valid(p: ProgramView) -> bool {
    &&& forall|a: int, b: int|
        0 <= a < b < p.states.len() ==> (#[trigger] p.states[a]).name != (
        #[trigger] p.states[b]).name
    &&& forall|i: int|
        0 <= i < p.states.len() ==> state_valid(state_names(p), #[trigger] p.states[i])
}

proof fn lemma_name_index_contains(names: Seq<Seq<char>>, x: Seq<char>)
    ensures
        name_index(names, x) is Some <==> names.contains(x),
{
    lemma_name_index_props(names, x);
    match name_index(names, x) {
        Some(i) => {
            assert(names[i] == x);
        },
        None => {
            if names.contains(x) {
                let w = choose|w: int| 0 <= w < names.len() && names[w] == x;
                assert(names[w] == x);
            }
        },
    }
}

proof fn lemma_push_contains(seen: Seq<Seq<char>>, x: Seq<char>, y: Seq<char>)
    ensures
        seen.push(x).contains(y) <==> (seen.contains(y) || x == y),
{
    if seen.push(x).contains(y) {
        let w = choose|w: int| 0 <= w < seen.push(x).len() && seen.push(x)[w] == y;
        if w < seen.len() {
            assert(seen[w] == y);
        }
    }
    if seen.contains(y) {
        let w = choose|w: int| 0 <= w < seen.len() && seen[w] == y;
        assert(seen.push(x)[w] == y);
    }
    if x == y {
        assert(seen.push(x)[seen.len() as int] == y);
    }
}

proof fn lemma_resolve_actions_ok_iff(
    names: Seq<Seq<char>>,
    sname: Seq<char>,
    rname: Seq<char>,
    items: Seq<ActionView>,
)
    ensures
        resolve_actions(names, sname, rname, items) is Ok <==> forall|k: int|
            0 <= k < items.len() ==> action_targets_declared(names, #[trigger] items[k]),
    decreases items.len(),
{
    if items.len() > 0 {
        lemma_resolve_actions_ok_iff(names, sname, rname, items.drop_first());
        if items[0] is Transition {
            lemma_name_index_contains(names, items[0]->Transition_0);
        }
        if resolve_actions(names, sname, rname, items) is Ok {
            assert forall|k: int| 0 <= k < items.len() implies action_targets_declared(
                names,
                #[trigger] items[k],
            ) by {
                if k > 0 {
                    assert(items.drop_first()[k - 1] == items[k]);
                }
            }
        } else {
            if action_targets_declared(names, items[0]) {
                let kk = choose|kk: int|
                    0 <= kk < items.drop_first().len() && !action_targets_declared(
                        names,
                        #[trigger] items.drop_first()[kk],
                    );
                assert(items[kk + 1] == items.drop_first()[kk]);
                assert(!action_targets_declared(names, items[kk + 1]));
            }
        }
    }
}

proof fn lemma_check_rule_ok_iff(
    names: Seq<Seq<char>>,
    sname: Seq<char>,
    seen: Seq<Seq<char>>,
    r: RuleView,
)
    ensures
        check_rule(names, sname, seen, r) is Ok <==> (!seen.contains(r.name) && rule_valid(
            names,
            r,
        )),
{
    lemma_resolve_actions_ok_iff(names, sname, r.name, r.body);
    if r.else_body is Some {
        lemma_resolve_actions_ok_iff(names, sname, r.name, r.else_body->Some_0);
    }
}

proof fn lemma_check_rules_ok_iff(
    names: Seq<Seq<char>>,
    sname: Seq<char>,
    seen: Seq<Seq<char>>,
    rules: Seq<RuleView>,
)
    ensures
        check_rules(names, sname, seen, rules) is Ok <==> {
            &&& forall|a: int, b: int|
                0 <= a < b < rules.len() ==> (#[trigger] rules[a]).name != (
                #[trigger] rules[b]).name
            &&& forall|a: int| 0 <= a < rules.len() ==> !seen.contains((#[trigger] rules[a]).name)
            &&& forall|j: int| 0 <= j < rules.len() ==> rule_valid(names, #[trigger] rules[j])
        },
    decreases rules.len(),
{
    if rules.len() > 0 {
        let tail = rules.drop_first();
        lemma_check_rule_ok_iff(names, sname, seen, rules[0]);
        lemma_check_rules_ok_iff(names, sname, seen.push(rules[0].name), tail);
        assert forall|y: Seq<char>| true implies (seen.push(rules[0].name).contains(y) <==> (
        seen.contains(y) || rules[0].name == y)) by {
            lemma_push_contains(seen, rules[0].name, y);
        }
        assert(forall|a: int| 0 <= a < tail.len() ==> #[trigger] tail[a] == rules[a + 1]);
        if check_rules(names, sname, seen, rules) is Ok {
            assert forall|a: int, b: int| 0 <= a < b < rules.len() implies (
            #[trigger] rules[a]).name != (#[trigger] rules[b]).name by {
                if a > 0 {
                    assert(tail[a - 1] == rules[a]);
                    assert(tail[b - 1] == rules[b]);
                } else {
                    assert(tail[b - 1] == rules[b]);
                }
            }
            assert forall|a: int| 0 <= a < rules.len() implies !seen.contains(
                (#[trigger] rules[a]).name,
            ) by {
                if a > 0 {
                    assert(tail[a - 1] == rules[a]);
                }
            }
            assert forall|j: int| 0 <= j < rules.len() implies rule_valid(
                names,
                #[trigger] rules[j],
            ) by {
                if j > 0 {
                    assert(tail[j - 1] == rules[j]);
                }
            }
        } else {
            if !seen.contains(rules[0].name) && rule_valid(names, rules[0]) {
                // The head passed, so the tail walk failed: some demand
                // fails among the remaining rules.
                assert(check_rules(names, sname, seen.push(rules[0].name), tail) is Err);
                if (forall|a: int, b: int|
                    0 <= a < b < rules.len() ==> (#[trigger] rules[a]).name != (
                    #[trigger] rules[b]).name) && (forall|a: int|
                    0 <= a < rules.len() ==> !seen.contains((#[trigger] rules[a]).name)) && (
                forall|j: int| 0 <= j < rules.len() ==> rule_valid(names, #[trigger] rules[j])) {
                    assert forall|a: int, b: int| 0 <= a < b < tail.len() implies (
                    #[trigger] tail[a]).name != (#[trigger] tail[b]).name by {
                        assert(tail[a] == rules[a + 1]);
                        assert(tail[b] == rules[b + 1]);
                    }
                    assert forall|a: int| 0 <= a < tail.len() implies !seen.push(
                        rules[0].name,
                    ).contains((#[trigger] tail[a]).name) by {
                        assert(tail[a] == rules[a + 1]);
                        assert(!seen.contains(rules[a + 1].name));
                        assert(rules[0].name != rules[a + 1].name);
                    }
                    assert forall|j: int| 0 <= j < tail.len() implies rule_valid(
                        names,
                        #[trigger] tail[j],
                    ) by {
                        assert(tail[j] == rules[j + 1]);
                    }
                    assert(false);
                }
            }
        }
    }
}

proof fn lemma_check_states_ok_iff(
    names: Seq<Seq<char>>,
    seen: Seq<Seq<char>>,
    states: Seq<StateView>,
)
    ensures
        check_states(names, seen, states) is Ok <==> {
            &&& forall|a: int, b: int|
                0 <= a < b < states.len() ==> (#[trigger] states[a]).name != (
                #[trigger] states[b]).name
            &&& forall|a: int|
                0 <= a < states.len() ==> !seen.contains((#[trigger] states[a]).name)
            &&& forall|i: int| 0 <= i < states.len() ==> state_valid(names, #[trigger] states[i])
        },
    decreases states.len(),
{
    if states.len() > 0 {
        let tail = states.drop_first();
        lemma_check_rules_ok_iff(names, states[0].name, Seq::empty(), states[0].rules);
        lemma_check_states_ok_iff(names, seen.push(states[0].name), tail);
        assert forall|y: Seq<char>| true implies (seen.push(states[0].name).contains(y) <==> (
        seen.contains(y) || states[0].name == y)) by {
            lemma_push_contains(seen, states[0].name, y);
        }
        assert(forall|a: int| 0 <= a < tail.len() ==> #[trigger] tail[a] == states[a + 1]);
        if check_states(names, seen, states) is Ok {
            assert forall|a: int, b: int| 0 <= a < b < states.len() implies (
            #[trigger] states[a]).name != (#[trigger] states[b]).name by {
                if a > 0 {
                    assert(tail[a - 1] == states[a]);
                    assert(tail[b - 1] == states[b]);
                } else {
                    assert(tail[b - 1] == states[b]);
                }
            }
            assert forall|a: int| 0 <= a < states.len() implies !seen.contains(
                (#[trigger] states[a]).name,
            ) by {
                if a > 0 {
                    assert(tail[a - 1] == states[a]);
                }
            }
            assert forall|i: int| 0 <= i < states.len() implies state_valid(
                names,
                #[trigger] states[i],
            ) by {
                if i > 0 {
                    assert(tail[i - 1] == states[i]);
                }
            }
        } else {
            if !seen.contains(states[0].name) && state_valid(names, states[0]) {
                assert(check_states(names, seen.push(states[0].name), tail) is Err);
                if (forall|a: int, b: int|
                    0 <= a < b < states.len() ==> (#[trigger] states[a]).name != (
                    #[trigger] states[b]).name) && (forall|a: int|
                    0 <= a < states.len() ==> !seen.contains((#[trigger] states[a]).name)) && (
                forall|i: int| 0 <= i < states.len() ==> state_valid(names, #[trigger] states[i])) {
                    assert forall|a: int, b: int| 0 <= a < b < tail.len() implies (
                    #[trigger] tail[a]).name != (#[trigger] tail[b]).name by {
                        assert(tail[a] == states[a + 1]);
                        assert(tail[b] == states[b + 1]);
                    }
                    assert forall|a: int| 0 <= a < tail.len() implies !seen.push(
                        states[0].name,
                    ).contains((#[trigger] tail[a]).name) by {
                        assert(tail[a] == states[a + 1]);
                        assert(!seen.contains(states[a + 1].name));
                        assert(states[0].name != states[a + 1].name);
                    }
                    assert forall|i: int| 0 <= i < tail.len() implies state_valid(
                        names,
                        #[trigger] tail[i],
                    ) by {
                        assert(tail[i] == states[i + 1]);
                    }
                    assert(false);
                }
            }
        }
    }
}

/// The walk accepts exactly the programs that meet the declarative demands:
/// validation succeeds if and only if the program is valid.
pub proof fn lemma_validate_ok_iff_valid(p: ProgramView)
    ensures
        spec_validate(p) is Ok <==> program_valid(p),
{
    lemma_check_states_ok_iff(state_names(p), Seq::empty(), p.states);
}

/// Two states with one name never pass validation.
pub proof fn lemma_duplicate_state_rejected(p: ProgramView, a: int, b: int)
    requires
        0 <= a < b < p.states.len(),
        p.states[a].name == p.states[b].name,
    ensures
        spec_validate(p) is Err,
{
    lemma_validate_ok_iff_valid(p);
}

/// Two rules with one name inside one state never pass validation, whether
/// or not either rule could ever fire: the engine only takes programs that
/// passed, so no action of such a program ever executes.
pub proof fn lemma_duplicate_rule_rejected(p: ProgramView, si: int, a: int, b: int)
    requires
        0 <= si < p.states.len(),
        0 <= a < b < p.states[si].rules.len(),
        p.states[si].rules[a].name == p.states[si].rules[b].name,
    ensures
        spec_validate(p) is Err,
{
    lemma_validate_ok_iff_valid(p);
    if program_valid(p) {
        assert(state_valid(state_names(p), p.states[si]));
    }
}

// ---------------------------------------------------------------------------
// The executable validator.
// ---------------------------------------------------------------------------

fn clone_opt_string(v: &Option<String>) -> (r: Option<String>)
    ensures
        r.deep_view() == v.deep_view(),
{
    match v {
        Some(s) => Some(s.clone()),
        None => None,
    }
}

/// Does `name` occur among the first `upto` state names?
fn state_name_seen(p: &Program, upto: usize, name: &String) -> (b: bool)
    requires
        upto <= p@.states.len(),
    ensures
        b == state_names(p@).take(upto as int).contains(name@),
{
    let mut j: usize = 0;
    while j < upto
        invariant
            upto <= p@.states.len(),
            j <= upto,
            forall|k: int| 0 <= k < j ==> state_names(p@)[k] != name@,
        decreases upto - j,
    {
        if p.states[j].name.eq(name) {
            proof {
                assert(state_names(p@).take(upto as int)[j as int] == name@);
            }
            return true;
        }
        j = j + 1;
    }
    proof {
        if state_names(p@).take(upto as int).contains(name@) {
            let k = choose|k: int|
                0 <= k < upto && state_names(p@).take(upto as int)[k] == name@;
            assert(state_names(p@)[k] == name@);
        }
    }
    false
}

/// Does `name` occur among the first `upto` rule names of the state?
fn rule_name_seen(st: &State, upto: usize, name: &String) -> (b: bool)
    requires
        upto <= st@.rules.len(),
    ensures
        b == rule_names(st@.rules).take(upto as int).contains(name@),
{
    let mut j: usize = 0;
    while j < upto
        invariant
            upto <= st@.rules.len(),
            j <= upto,
            forall|k: int| 0 <= k < j ==> rule_names(st@.rules)[k] != name@,
        decreases upto - j,
    {
        if st.rules[j].name.eq(name) {
            proof {
                assert(rule_names(st@.rules).take(upto as int)[j as int] == name@);
            }
            return true;
        }
        j = j + 1;
    }
    proof {
        if rule_names(st@.rules).take(upto as int).contains(name@) {
            let k = choose|k: int|
                0 <= k < upto && rule_names(st@.rules).take(upto as int)[k] == name@;
            assert(rule_names(st@.rules)[k] == name@);
        }
    }
    false
}

/// The index of the state carrying `name`, scanning in declaration order.
fn find_state_index(p: &Program, name: &String) -> (r: Option<usize>)
    ensures
        match r {
            Some(ix) => name_index(state_names(p@), name@) == Some(ix as int),
            None => name_index(state_names(p@), name@) is None,
        },
{
    let ghost names = state_names(p@);
    let mut j: usize = 0;
    while j < p.states.len()
        invariant
            names == state_names(p@),
            j <= p@.states.len(),
            forall|k: int| 0 <= k < j ==> names[k] != name@,
        decreases p@.states.len() - j,
    {
        if p.states[j].name.eq(name) {
            proof {
                lemma_name_index_at(names, name@, j as int);
            }
            return Some(j);
        }
        j = j + 1;
    }
    proof {
        lemma_name_index_none(names, name@);
    }
    None
}

/// Resolve the transitions of one action list, or report the first
/// unresolved target.
fn resolve_action_list(p: &Program, sname: &String, rname: &String, items: &Vec<Action>) -> (r:
    Result<Vec<ResolvedAction>, ValidationError>)
    ensures
        match r {
            Ok(out) => resolve_actions(state_names(p@), sname@, rname@, items.deep_view()) == Ok::<
                _,
                ValidationErrorView,
            >(out.deep_view()),
            Err(e) => resolve_actions(state_names(p@), sname@, rname@, items.deep_view()) == Err::<
                Seq<ResolvedActionView>,
                _,
            >(e@),
        },
{
    let ghost names = state_names(p@);
    let ghost all = items.deep_view();
    let mut out: Vec<ResolvedAction> = Vec::new();
    let mut i: usize = 0;
    proof {
        assert(all.skip(0) =~= all);
    }
    while i < items.len()
        invariant
            names == state_names(p@),
            all == items.deep_view(),
            i <= items@.len(),
            resolve_actions(names, sname@, rname@, all) == match resolve_actions(
                names,
                sname@,
                rname@,
                all.skip(i as int),
            ) {
                Ok(rest) => Ok::<_, ValidationErrorView>(out.deep_view() + rest),
                Err(e) => Err(e),
            },
        decreases items@.len() - i,
    {
        proof {
            assert(all.skip(i as int)[0] == all[i as int]);
            assert(all.skip(i as int).drop_first() =~= all.skip(i as int + 1));
            assert(all[i as int] == items@[i as int].deep_view());
        }
        let ghost prev = out.deep_view();
        match &items[i] {
            Action::Host(t) => {
                out.push(ResolvedAction::Host(t.clone()));
            },
            Action::Return(v) => {
                out.push(ResolvedAction::Return(clone_opt_string(v)));
            },
            Action::Transition(t) => {
                match find_state_index(p, t) {
                    Some(ix) => {
                        out.push(ResolvedAction::Transition(ix));
                    },
                    None => {
                        return Err(
                            ValidationError::UnknownTarget {
                                state: sname.clone(),
                                rule: rname.clone(),
                                target: t.clone(),
                            },
                        );
                    },
                }
            },
        }
        proof {
            assert(out.deep_view() =~= prev.push(out.deep_view().last()));
            assert(forall|rest: Seq<ResolvedActionView>|
                (prev + (seq![out.deep_view().last()] + rest)) =~= (out.deep_view() + rest));
        }
        i = i + 1;
    }
    proof {
        assert(all.skip(all.len() as int) =~= Seq::<ActionView>::empty());
        assert(out.deep_view() + Seq::<ResolvedActionView>::empty() =~= out.deep_view());
    }
    Ok(out)
}

/// Validate a parsed program: states walked in order, each state's rules
/// walked in order; the first violation is reported and nothing runs. On
/// success the returned program is the input with every transition target
/// resolved to its state index, and it is well formed for the engine.
pub fn validate(p: &Program) -> (r: Result<ValidatedProgram, ValidationError>)
    ensures
        r is Ok <==> program_valid(p@),
        match r {
            Ok(vp) => spec_validate(p@) == Ok::<_, ValidationErrorView>(vp@) && program_wf(vp@)
                && vp@.states.len() == p@.states.len(),
            Err(e) => spec_validate(p@) == Err::<ValidatedProgramView, _>(e@),
        },
{
    proof {
        lemma_validate_ok_iff_valid(p@);
    }
    let ghost names = state_names(p@);
    let mut out_states: Vec<ResolvedState> = Vec::new();
    let mut i: usize = 0;
    proof {
        assert(p@.states.skip(0) =~= p@.states);
        assert(names.take(0) =~= Seq::<Seq<char>>::empty());
    }
    while i < p.states.len()
        invariant
            names == state_names(p@),
            i <= p@.states.len(),
            check_states(names, Seq::empty(), p@.states) == match check_states(
                names,
                names.take(i as int),
                p@.states.skip(i as int),
            ) {
                Ok(rest) => Ok::<_, ValidationErrorView>(out_states.deep_view() + rest),
                Err(e) => Err(e),
            },
        decreases p@.states.len() - i,
    {
        proof {
            lemma_validate_ok_iff_valid(p@);
            assert(p@.states.skip(i as int)[0] == p@.states[i as int]);
            assert(p@.states.skip(i as int).drop_first() =~= p@.states.skip(i as int + 1));
            assert(p@.states[i as int] == p.states@[i as int].deep_view());
            assert(names[i as int] == p@.states[i as int].name);
            assert(names.take(i as int).push(names[i as int]) =~= names.take(i as int + 1));
        }
        let st = &p.states[i];
        if state_name_seen(p, i, &st.name) {
            return Err(ValidationError::DuplicateState { state: st.name.clone() });
        }
        let ghost sname = st@.name;
        let mut out_rules: Vec<ResolvedRule> = Vec::new();
        let mut j: usize = 0;
        proof {
            assert(st@.rules.skip(0) =~= st@.rules);
            assert(rule_names(st@.rules).take(0) =~= Seq::<Seq<char>>::empty());
        }
        while j < st.rules.len()
            invariant
                names == state_names(p@),
                i < p@.states.len(),
                st@ == p@.states[i as int],
                sname == st@.name,
                j <= st@.rules.len(),
                !names.take(i as int).contains(sname),
                check_states(names, Seq::empty(), p@.states) == match check_states(
                    names,
                    names.take(i as int),
                    p@.states.skip(i as int),
                ) {
                    Ok(rest) => Ok::<_, ValidationErrorView>(out_states.deep_view() + rest),
                    Err(e) => Err(e),
                },
                check_rules(names, sname, Seq::empty(), st@.rules) == match check_rules(
                    names,
                    sname,
                    rule_names(st@.rules).take(j as int),
                    st@.rules.skip(j as int),
                ) {
                    Ok(rest) => Ok::<_, ValidationErrorView>(out_rules.deep_view() + rest),
                    Err(e) => Err(e),
                },
            decreases st@.rules.len() - j,
        {
            proof {
                lemma_validate_ok_iff_valid(p@);
                assert(p@.states.skip(i as int)[0] == p@.states[i as int]);
                assert(st@.rules.skip(j as int)[0] == st@.rules[j as int]);
                assert(st@.rules.skip(j as int).drop_first() =~= st@.rules.skip(j as int + 1));
                assert(st@.rules[j as int] == st.rules@[j as int].deep_view());
                assert(rule_names(st@.rules)[j as int] == st@.rules[j as int].name);
                assert(rule_names(st@.rules).take(j as int).push(rule_names(st@.rules)[j as int])
                    =~= rule_names(st@.rules).take(j as int + 1));
            }
            let rl = &st.rules[j];
            if rule_name_seen(st, j, &rl.name) {
                return Err(
                    ValidationError::DuplicateRule { state: st.name.clone(), rule: rl.name.clone() },
                );
            }
            if rl.else_body.is_some() && rl.condition.is_none() {
                return Err(
                    ValidationError::ElseWithoutCondition {
                        state: st.name.clone(),
                        rule: rl.name.clone(),
                    },
                );
            }
            let body = match resolve_action_list(p, &st.name, &rl.name, &rl.body) {
                Ok(b) => b,
                Err(e) => {
                    return Err(e);
                },
            };
            let else_body = match &rl.else_body {
                Some(eitems) => match resolve_action_list(p, &st.name, &rl.name, eitems) {
                    Ok(b) => Some(b),
                    Err(e) => {
                        return Err(e);
                    },
                },
                None => None,
            };
            let ghost prev_rules = out_rules.deep_view();
            out_rules.push(
                ResolvedRule {
                    name: rl.name.clone(),
                    condition: clone_opt_string(&rl.condition),
                    body,
                    else_body,
                },
            );
            proof {
                assert(out_rules.deep_view() =~= prev_rules.push(out_rules.deep_view().last()));
                assert(forall|rest: Seq<ResolvedRuleView>|
                    (prev_rules + (seq![out_rules.deep_view().last()] + rest)) =~= (
                    out_rules.deep_view() + rest));
            }
            j = j + 1;
        }
        proof {
            assert(st@.rules.skip(st@.rules.len() as int) =~= Seq::<RuleView>::empty());
            assert(out_rules.deep_view() + Seq::<ResolvedRuleView>::empty()
                =~= out_rules.deep_view());
        }
        let ghost prev_states = out_states.deep_view();
        out_states.push(ResolvedState { name: st.name.clone(), rules: out_rules });
        proof {
            assert(out_states.deep_view() =~= prev_states.push(out_states.deep_view().last()));
            assert(forall|rest: Seq<ResolvedStateView>|
                (prev_states + (seq![out_states.deep_view().last()] + rest)) =~= (
                out_states.deep_view() + rest));
        }
        i = i + 1;
    }
    proof {
        assert(p@.states.skip(p@.states.len() as int) =~= Seq::<StateView>::empty());
        assert(out_states.deep_view() + Seq::<ResolvedStateView>::empty()
            =~= out_states.deep_view());
        lemma_spec_validate_wf(p@);
    }
    Ok(ValidatedProgram { states: out_states })
}

} // verus!
