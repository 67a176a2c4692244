use vstd::prelude::*;
use crate::ast::{ResolvedActionView, ResolvedRuleView, ValidatedProgramView};

verus! {

// ---------------------------------------------------------------------------
// Events: everything the engine does is logged as a trace of these.
// ---------------------------------------------------------------------------

/// One observable step of a run. `state` and `rule` fields are indices into
/// the program. The engine returns the full sequence of events of a run, and
/// its contract says that the sequence is a legal history of the small-step
/// semantics below.
#[derive(Debug, Clone, Copy, PartialEq, Eq, Structural)]
pub enum Event {
    /// Control entered the state; its first-pass flag is freshly true.
    Enter { state: usize },
    /// The rule's body starts executing: its condition evaluated to true, or
    /// it is conditionless and this is the first pass since state entry.
    Fire { state: usize, rule: usize },
    /// The rule's else body starts executing: its condition evaluated to false.
    ElseFire { state: usize, rule: usize },
    /// The rule did nothing this pass: its condition evaluated to false and it
    /// has no else body, or it is conditionless and the first pass is over.
    Skip { state: usize, rule: usize },
    /// One opaque host statement of the rule's body or else body ran.
    Stmt { state: usize, rule: usize },
    /// A full pass over the state's rules completed; `fired` tells whether any
    /// rule interacted during the pass.
    PassEnd { state: usize, fired: bool },
    /// A transition action ran, abandoning the rest of the pass.
    Jump { state: usize, rule: usize, target: usize },
    /// A return action ran, halting the entire run.
    Ret { state: usize, rule: usize },
    /// The host failed to evaluate the rule's condition; the run halts.
    CondFail { state: usize, rule: usize },
    /// The host failed to execute a statement; the run halts.
    StmtFail { state: usize, rule: usize },
}

// ---------------------------------------------------------------------------
// Configurations of the small-step machine.
// ---------------------------------------------------------------------------

/// How a run ends.
pub enum RunResultView {
    /// A return action halted the run, carrying an optional opaque value.
    Returned { value: Option<Seq<char>> },
    /// Control fell off the last state with every condition settled.
    Exhausted,
    /// The host failed to evaluate the condition of the named rule.
    CondError { state: int, rule: int },
    /// The host failed to execute a statement of the named rule.
    StmtError { state: int, rule: int },
}

/// Where control stands inside the current state.
pub enum Phase {
    /// About to enter the state `target`.
    Entering { target: int },
    /// In a pass, about to consider the rule at `cursor`; `cursor` equal to
    /// the number of rules means the pass is complete.
    AtRule { cursor: int },
    /// Executing item `pos` of the rule's body (or else body).
    InBody { rule: int, in_else: bool, pos: int },
    /// The run has ended.
    Done { result: RunResultView },
}

/// A configuration of the execution engine: the current state index, the
/// first-pass flag (true until a full pass completes after state entry), the
/// interaction flag of the current pass, and the control phase.
pub struct Config {
    pub state: int,
    pub first_pass: bool,
    pub fired: bool,
    pub phase: Phase,
}

/// The canonical configuration about to enter state `t`.
pub open spec fn entering(t: int) -> Config {
    Config { state: t, first_pass: true, fired: false, phase: Phase::Entering { target: t } }
}

/// The canonical terminal configuration.
pub open spec fn done(r: RunResultView) -> Config {
    Config { state: 0, first_pass: true, fired: false, phase: Phase::Done { result: r } }
}

/// Before any event: a program with no states is exhausted at once; otherwise
/// control is about to enter state 0.
pub open spec fn init_config(p: ValidatedProgramView) -> Config {
    if p.states.len() == 0 {
        done(RunResultView::Exhausted)
    } else {
        entering(0)
    }
}

// ---------------------------------------------------------------------------
// The step relation.
// ---------------------------------------------------------------------------

/// The items a firing rule executes: its body, or its else body.
pub open spec fn rule_items(r: ResolvedRuleView, in_else: bool) -> Seq<ResolvedActionView> {
    if in_else {
        r.else_body->Some_0
    } else {
        r.body
    }
}

/// The control phase after `pos` items of a body of length `len` have run:
/// still inside the body, or past it, at the next rule of the pass.
pub open spec fn body_phase(rule: int, in_else: bool, pos: int, len: int) -> Phase {
    if pos < len {
        Phase::InBody { rule, in_else, pos }
    } else {
        Phase::AtRule { cursor: rule + 1 }
    }
}

/// One step of the engine at a rule boundary: which events may happen when
/// the pass stands before rule `cursor` of state `s`, and the configuration
/// each one leads to.
pub open spec fn step_at_rule(
    p: ValidatedProgramView,
    c: Config,
    cursor: int,
    e: Event,
) -> Option<Config> {
    let s = c.state;
    let rules = p.states[s].rules;
    if cursor < rules.len() {
        let r = rules[cursor];
        match r.condition {
            Some(_) => match e {
                // The host judged the condition true.
                Event::Fire { state, rule } if state == s && rule == cursor => Some(
                    Config {
                        fired: true,
                        phase: body_phase(cursor, false, 0, r.body.len() as int),
                        ..c
                    },
                ),
                // The host judged it false and an else body exists.
                Event::ElseFire { state, rule } if state == s && rule == cursor && r.else_body
                    is Some => Some(
                    Config {
                        phase: body_phase(cursor, true, 0, r.else_body->Some_0.len() as int),
                        ..c
                    },
                ),
                // The host judged it false and no else body exists.
                Event::Skip { state, rule } if state == s && rule == cursor && r.else_body
                    is None => Some(Config { phase: Phase::AtRule { cursor: cursor + 1 }, ..c }),
                // The host could not evaluate the condition.
                Event::CondFail { state, rule } if state == s && rule == cursor => Some(
                    done(RunResultView::CondError { state: s, rule: cursor }),
                ),
                _ => None,
            },
            None => match e {
                // A conditionless rule fires exactly on the first pass.
                Event::Fire { state, rule } if state == s && rule == cursor && c.first_pass
                    => Some(
                    Config {
                        fired: true,
                        phase: body_phase(cursor, false, 0, r.body.len() as int),
                        ..c
                    },
                ),
                Event::Skip { state, rule } if state == s && rule == cursor && !c.first_pass
                    => Some(Config { phase: Phase::AtRule { cursor: cursor + 1 }, ..c }),
                _ => None,
            },
        }
    } else {
        // The pass is complete.
        match e {
            Event::PassEnd { state, fired } if state == s && fired == c.fired => {
                if c.fired {
                    // Some rule interacted: run another pass; the first pass,
                    // if this was it, is over.
                    Some(
                        Config {
                            state: s,
                            first_pass: false,
                            fired: false,
                            phase: Phase::AtRule { cursor: 0 },
                        },
                    )
                } else {
                    // Fixed point: fall through, or end the run after the
                    // last state.
                    if s + 1 < p.states.len() {
                        Some(entering(s + 1))
                    } else {
                        Some(done(RunResultView::Exhausted))
                    }
                }
            },
            _ => None,
        }
    }
}

/// One step of the engine inside a rule body: the event executing item `pos`
/// and the configuration it leads to.
pub open spec fn step_in_body(
    p: ValidatedProgramView,
    c: Config,
    rule: int,
    in_else: bool,
    pos: int,
    e: Event,
) -> Option<Config> {
    let s = c.state;
    let rules = p.states[s].rules;
    if rule < rules.len() && (in_else ==> rules[rule].else_body is Some) {
        let items = rule_items(rules[rule], in_else);
        if 0 <= pos < items.len() {
            match items[pos] {
                ResolvedActionView::Host(_) => match e {
                    Event::Stmt { state, rule: er } if state == s && er == rule => Some(
                        Config { phase: body_phase(rule, in_else, pos + 1, items.len() as int), ..c },
                    ),
                    Event::StmtFail { state, rule: er } if state == s && er == rule => Some(
                        done(RunResultView::StmtError { state: s, rule }),
                    ),
                    _ => None,
                },
                ResolvedActionView::Transition(t) => match e {
                    Event::Jump { state, rule: er, target } if state == s && er == rule && target
                        == t => Some(entering(t)),
                    _ => None,
                },
                ResolvedActionView::Return(v) => match e {
                    Event::Ret { state, rule: er } if state == s && er == rule => Some(
                        done(RunResultView::Returned { value: v }),
                    ),
                    _ => None,
                },
            }
        } else {
            None
        }
    } else {
        None
    }
}

/// The step relation of the engine: from configuration `c`, event `e` is
/// legal exactly when the result is `Some`, and the result is the next
/// configuration. A terminal configuration admits no event.
pub open spec fn step(p: ValidatedProgramView, c: Config, e: Event) -> Option<Config> {
    match c.phase {
        Phase::Entering { target } => match e {
            Event::Enter { state } if state == target && 0 <= target < p.states.len() && c
                == entering(target) => Some(
                Config {
                    state: target,
                    first_pass: true,
                    fired: false,
                    phase: Phase::AtRule { cursor: 0 },
                },
            ),
            _ => None,
        },
        Phase::AtRule { cursor } => {
            if 0 <= c.state < p.states.len() && 0 <= cursor <= p.states[c.state].rules.len() {
                step_at_rule(p, c, cursor, e)
            } else {
                None
            }
        },
        Phase::InBody { rule, in_else, pos } => {
            if 0 <= c.state < p.states.len() {
                step_in_body(p, c, rule, in_else, pos, e)
            } else {
                None
            }
        },
        Phase::Done { .. } => None,
    }
}

// ---------------------------------------------------------------------------
// Traces.
// ---------------------------------------------------------------------------

/// The configuration reached by running the events of `t` in order from the
/// initial configuration; `None` if some event is illegal where it stands.
pub open spec fn run_to(p: ValidatedProgramView, t: Seq<Event>) -> Option<Config>
    decreases t.len(),
{
    if t.len() == 0 {
        Some(init_config(p))
    } else {
        match run_to(p, t.drop_last()) {
            Some(c) => step(p, c, t.last()),
            None => None,
        }
    }
}

/// `t` is a complete legal history of a run of `p` that ends with result `r`.
pub open spec fn trace_ok(p: ValidatedProgramView, t: Seq<Event>, r: RunResultView) -> bool {
    run_to(p, t) == Some(done(r))
}

/// The event concludes one begun pass: a full pass ends in `PassEnd`, and a
/// pass cut short ends in the transition, return or host failure that cut
/// it. Every pass the engine begins ends in exactly one such event.
pub open spec fn is_pass_finish(e: Event) -> bool {
    ||| e is PassEnd
    ||| e is Jump
    ||| e is Ret
    ||| e is CondFail
    ||| e is StmtFail
}

/// How many passes the trace has begun: each begun pass contributes exactly
/// one pass-finishing event, and where a run is cut off at a pass boundary
/// no pass is underway.
pub open spec fn passes_spent(t: Seq<Event>) -> int
    decreases t.len(),
{
    if t.len() == 0 {
        0
    } else {
        passes_spent(t.drop_last()) + if is_pass_finish(t.last()) {
            1int
        } else {
            0int
        }
    }
}

/// Pushing one event raises the pass count exactly when the event finishes
/// a pass.
pub broadcast proof fn lemma_passes_spent_push(t: Seq<Event>, e: Event)
    ensures
        #[trigger] passes_spent(t.push(e)) == passes_spent(t) + if is_pass_finish(e) {
            1int
        } else {
            0int
        },
{
    assert(t.push(e).drop_last() =~= t);
    assert(t.push(e).last() == e);
}

/// Folding one more event onto a trace steps the configuration it reaches.
pub broadcast proof fn lemma_run_to_push(p: ValidatedProgramView, t: Seq<Event>, e: Event)
    ensures
        #[trigger] run_to(p, t.push(e)) == match run_to(p, t) {
            Some(c) => step(p, c, e),
            None => None::<Config>,
        },
{
    assert(t.push(e).drop_last() =~= t);
    assert(t.push(e).last() == e);
}

/// A prefix of a legal trace is legal.
pub proof fn lemma_run_to_prefix(p: ValidatedProgramView, t: Seq<Event>, k: int)
    requires
        run_to(p, t) is Some,
        0 <= k <= t.len(),
    ensures
        run_to(p, t.take(k)) is Some,
    decreases t.len() - k,
{
    if k < t.len() {
        lemma_run_to_prefix(p, t, k + 1);
        assert(t.take(k + 1).drop_last() =~= t.take(k));
    } else {
        assert(t.take(k) =~= t);
    }
}

} // verus!
