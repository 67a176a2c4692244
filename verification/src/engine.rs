use vstd::prelude::*;
use crate::ast::{
    ResolvedAction, ValidatedProgram, action_wf, program_wf, rule_wf,
};
use crate::semantics::{
    Config, Event, Phase, RunResultView, body_phase, done, entering, passes_spent, rule_items,
    run_to, trace_ok,
};

verus! {

broadcast use {crate::semantics::lemma_run_to_push, crate::semantics::lemma_passes_spent_push};

// ---------------------------------------------------------------------------
// The host boundary.
// ---------------------------------------------------------------------------

/// The capability the embedding environment supplies: it evaluates rule
/// conditions to booleans and executes opaque statements, both against
/// whatever mutable data it owns. The engine never inspects that data; it
/// only hands over the texts and acts on the answers, so its own guarantees
/// hold for every host.
pub trait Host {
    /// Evaluate a rule condition against the current environment.
    fn eval_condition(&mut self, cond: &str) -> Result<bool, String>;

    /// Execute one opaque host statement against the current environment.
    fn exec_statement(&mut self, stmt: &str) -> Result<(), String>;
}

// ---------------------------------------------------------------------------
// Results.
// ---------------------------------------------------------------------------

/// How a run ended, when no host failure cut it short: a return action halted
/// it with an optional opaque value expression, or control fell off the last
/// state once every condition settled. Falling off the end is reported as
/// `Exhausted` rather than treated as an error.
#[derive(Debug, Clone, PartialEq, Eq)]
pub enum RunOutcome {
    Returned(Option<String>),
    Exhausted,
}

/// What `run` reports: the run finished with a result, or the caller's pass
/// budget ran out first. The budget is the cap a host layers around the
/// engine; the language itself has no timeout, and a program whose
/// conditions never settle would run passes forever.
#[derive(Debug)]
pub enum RunStatus {
    Finished { result: Result<RunOutcome, RunError> },
    OutOfPasses,
}

/// A failure surfaced by the host while evaluating a condition or executing
/// a statement, with enough context to locate the failing rule.
#[derive(Debug, Clone)]
pub struct RunError {
    pub state_index: usize,
    pub rule_index: usize,
    pub state: String,
    pub rule: String,
    pub during_condition: bool,
    pub detail: String,
}

/// The mathematical result a run's outcome stands for.
pub open spec fn result_view(r: Result<RunOutcome, RunError>) -> RunResultView {
    match r {
        Ok(RunOutcome::Returned(v)) => RunResultView::Returned { value: v.deep_view() },
        Ok(RunOutcome::Exhausted) => RunResultView::Exhausted,
        Err(e) => if e.during_condition {
            RunResultView::CondError { state: e.state_index as int, rule: e.rule_index as int }
        } else {
            RunResultView::StmtError { state: e.state_index as int, rule: e.rule_index as int }
        },
    }
}

/// The error's indices point into the program and its names are the names of
/// the state and rule at those indices.
pub open spec fn run_error_wf(p: crate::ast::ValidatedProgramView, e: RunError) -> bool {
    &&& 0 <= (e.state_index as int) < p.states.len()
    &&& e.state@ == p.states[e.state_index as int].name
    &&& 0 <= (e.rule_index as int) < p.states[e.state_index as int].rules.len()
    &&& e.rule@ == p.states[e.state_index as int].rules[e.rule_index as int].name
}

/// What executing one rule body reported back to the pass loop.
enum BodyOutcome {
    /// Every item ran; the pass continues with the next rule.
    Completed,
    /// A transition action ran; the pass is abandoned.
    Jumped { target: usize },
    /// A return action ran or the host failed; the run is over.
    Halted { result: Result<RunOutcome, RunError> },
}

/// What running one state to its fixed point reported back to the driver.
enum StateOutcome {
    /// A full pass produced no interaction; control falls through.
    Settled,
    /// A transition action ran; control moves to the target state.
    Jumped { target: usize },
    /// A return action ran or the host failed; the run is over.
    Halted { result: Result<RunOutcome, RunError> },
    /// The pass budget ran out before the state settled.
    OutOfPasses,
}

fn clone_opt_string(v: &Option<String>) -> (r: Option<String>)
    ensures
        r.deep_view() == v.deep_view(),
{
    match v {
        Some(s) => Some(s.clone()),
        None => None,
    }
}

// ---------------------------------------------------------------------------
// The engine.
// ---------------------------------------------------------------------------

/// Run the items of one rule body (or else body) in order, from the
/// configuration the firing event left behind.
fn exec_body<H: Host>(
    p: &ValidatedProgram,
    s: usize,
    r: usize,
    in_else: bool,
    host: &mut H,
    trace: &mut Vec<Event>,
) -> (o: BodyOutcome)
    requires
        program_wf(p@),
        (s as int) < p@.states.len(),
        (r as int) < p@.states[s as int].rules.len(),
        in_else ==> p@.states[s as int].rules[r as int].else_body is Some,
        run_to(p@, old(trace)@) is Some,
        ({
            let c = run_to(p@, old(trace)@)->Some_0;
            &&& c.state == s as int
            &&& c.phase == body_phase(
                r as int,
                in_else,
                0,
                rule_items(p@.states[s as int].rules[r as int], in_else).len() as int,
            )
        }),
    ensures
        ({
            let c0 = run_to(p@, old(trace)@)->Some_0;
            match o {
                BodyOutcome::Completed => {
                    &&& run_to(p@, final(trace)@) == Some(
                        Config {
                            state: s as int,
                            first_pass: c0.first_pass,
                            fired: c0.fired,
                            phase: Phase::AtRule { cursor: r as int + 1 },
                        },
                    )
                    &&& passes_spent(final(trace)@) == passes_spent(old(trace)@)
                },
                BodyOutcome::Jumped { target } => {
                    &&& (target as int) < p@.states.len()
                    &&& run_to(p@, final(trace)@) == Some(entering(target as int))
                    &&& passes_spent(final(trace)@) == passes_spent(old(trace)@) + 1
                },
                BodyOutcome::Halted { result } => {
                    &&& run_to(p@, final(trace)@) == Some(done(result_view(result)))
                    &&& !(result == Ok::<RunOutcome, RunError>(RunOutcome::Exhausted))
                    &&& result is Err ==> run_error_wf(p@, result->Err_0)
                    &&& passes_spent(final(trace)@) == passes_spent(old(trace)@) + 1
                },
            }
        }),
{
    let ghost c0 = run_to(p@, old(trace)@)->Some_0;
    let rule_ref = &p.states[s].rules[r];
    let items: &Vec<ResolvedAction> = if in_else {
        rule_ref.else_body.as_ref().unwrap()
    } else {
        &rule_ref.body
    };
    proof {
        assert(p@.states[s as int] == p.states@[s as int].deep_view());
        assert(p@.states[s as int].rules[r as int] == p.states@[s as int].rules@[
            r as int].deep_view());
        assert(items.deep_view() == rule_items(p@.states[s as int].rules[r as int], in_else));
        assert(rule_wf(p@.states[s as int].rules[r as int], p@.states.len() as int));
    }
    let mut pos: usize = 0;
    while pos < items.len()
        invariant
            program_wf(p@),
            (s as int) < p@.states.len(),
            (r as int) < p@.states[s as int].rules.len(),
            in_else ==> p@.states[s as int].rules[r as int].else_body is Some,
            items.deep_view() == rule_items(p@.states[s as int].rules[r as int], in_else),
            rule_wf(p@.states[s as int].rules[r as int], p@.states.len() as int),
            pos <= items.len(),
            passes_spent(trace@) == passes_spent(old(trace)@),
            run_to(p@, trace@) == Some(
                Config {
                    state: s as int,
                    first_pass: c0.first_pass,
                    fired: c0.fired,
                    phase: body_phase(r as int, in_else, pos as int, items@.len() as int),
                },
            ),
        decreases items@.len() - pos,
    {
        proof {
            assert(items.deep_view()[pos as int] == items@[pos as int].deep_view());
            assert(action_wf(items.deep_view()[pos as int], p@.states.len() as int));
        }
        match &items[pos] {
            ResolvedAction::Host(text) => {
                match host.exec_statement(text.as_str()) {
                    Ok(_) => {
                        trace.push(Event::Stmt { state: s, rule: r });
                        pos = pos + 1;
                    },
                    Err(d) => {
                        trace.push(Event::StmtFail { state: s, rule: r });
                        let err = RunError {
                            state_index: s,
                            rule_index: r,
                            state: p.states[s].name.clone(),
                            rule: p.states[s].rules[r].name.clone(),
                            during_condition: false,
                            detail: d,
                        };
                        return BodyOutcome::Halted { result: Err(err) };
                    },
                }
            },
            ResolvedAction::Transition(t) => {
                trace.push(Event::Jump { state: s, rule: r, target: *t });
                return BodyOutcome::Jumped { target: *t };
            },
            ResolvedAction::Return(v) => {
                trace.push(Event::Ret { state: s, rule: r });
                return BodyOutcome::Halted {
                    result: Ok(RunOutcome::Returned(clone_opt_string(v))),
                };
            },
        }
    }
    BodyOutcome::Completed
}

/// Drive one state to its fixed point: enter it, run pass after pass until a
/// full pass produces no interaction, a transition abandons it, or the run
/// halts.
fn run_state<H: Host>(
    p: &ValidatedProgram,
    s: usize,
    host: &mut H,
    trace: &mut Vec<Event>,
    fuel: &mut u64,
) -> (o: StateOutcome)
    requires
        program_wf(p@),
        (s as int) < p@.states.len(),
        run_to(p@, old(trace)@) == Some(entering(s as int)),
    ensures
        *final(fuel) <= *old(fuel),
        passes_spent(final(trace)@) - passes_spent(old(trace)@) == *old(fuel) - *final(fuel),
        match o {
            StateOutcome::Settled => *final(fuel) < *old(fuel) && run_to(p@, final(trace)@)
                == Some(
                if s as int + 1 < p@.states.len() {
                    entering(s as int + 1)
                } else {
                    done(RunResultView::Exhausted)
                },
            ),
            StateOutcome::Jumped { target } => *final(fuel) < *old(fuel) && (target as int)
                < p@.states.len() && run_to(p@, final(trace)@) == Some(entering(target as int)),
            StateOutcome::Halted { result } => {
                &&& *final(fuel) < *old(fuel)
                &&& run_to(p@, final(trace)@) == Some(done(result_view(result)))
                &&& !(result == Ok::<RunOutcome, RunError>(RunOutcome::Exhausted))
                &&& result is Err ==> run_error_wf(p@, result->Err_0)
            },
            StateOutcome::OutOfPasses => {
                &&& *final(fuel) == 0
                &&& ({
                    let c = run_to(p@, final(trace)@)->Some_0;
                    &&& run_to(p@, final(trace)@) is Some
                    &&& c.state == s as int
                    &&& c.phase == (Phase::AtRule { cursor: 0 })
                    &&& !c.fired
                })
            },
        },
{
    trace.push(Event::Enter { state: s });
    let mut first_pass = true;
    let nrules = p.states[s].rules.len();
    proof {
        assert(p@.states[s as int] == p.states@[s as int].deep_view());
    }
    loop
        invariant
            program_wf(p@),
            (s as int) < p@.states.len(),
            nrules == p@.states[s as int].rules.len(),
            *fuel <= *old(fuel),
            passes_spent(trace@) - passes_spent(old(trace)@) == *old(fuel) - *fuel,
            run_to(p@, trace@) == Some(
                Config {
                    state: s as int,
                    first_pass: first_pass,
                    fired: false,
                    phase: Phase::AtRule { cursor: 0 },
                },
            ),
        decreases *fuel,
    {
        if *fuel == 0 {
            return StateOutcome::OutOfPasses;
        }
        *fuel = *fuel - 1;
        let mut fired = false;
        let mut ri: usize = 0;
        while ri < nrules
            invariant
                program_wf(p@),
                (s as int) < p@.states.len(),
                nrules == p@.states[s as int].rules.len(),
                ri <= nrules,
                *fuel < *old(fuel),
                passes_spent(trace@) - passes_spent(old(trace)@) == *old(fuel) - *fuel - 1,
                run_to(p@, trace@) == Some(
                    Config {
                        state: s as int,
                        first_pass: first_pass,
                        fired: fired,
                        phase: Phase::AtRule { cursor: ri as int },
                    },
                ),
            decreases nrules - ri,
        {
            let rule_ref = &p.states[s].rules[ri];
            proof {
                assert(p@.states[s as int].rules[ri as int] == p.states@[s as int].rules@[
                    ri as int].deep_view());
            }
            match &rule_ref.condition {
                Some(cexpr) => {
                    match host.eval_condition(cexpr.as_str()) {
                        Ok(true) => {
                            trace.push(Event::Fire { state: s, rule: ri });
                            fired = true;
                            match exec_body(p, s, ri, false, host, trace) {
                                BodyOutcome::Completed => {},
                                BodyOutcome::Jumped { target } => {
                                    return StateOutcome::Jumped { target };
                                },
                                BodyOutcome::Halted { result } => {
                                    return StateOutcome::Halted { result };
                                },
                            }
                        },
                        Ok(false) => {
                            if rule_ref.else_body.is_some() {
                                trace.push(Event::ElseFire { state: s, rule: ri });
                                match exec_body(p, s, ri, true, host, trace) {
                                    BodyOutcome::Completed => {},
                                    BodyOutcome::Jumped { target } => {
                                        return StateOutcome::Jumped { target };
                                    },
                                    BodyOutcome::Halted { result } => {
                                        return StateOutcome::Halted { result };
                                    },
                                }
                            } else {
                                trace.push(Event::Skip { state: s, rule: ri });
                            }
                        },
                        Err(d) => {
                            trace.push(Event::CondFail { state: s, rule: ri });
                            let err = RunError {
                                state_index: s,
                                rule_index: ri,
                                state: p.states[s].name.clone(),
                                rule: p.states[s].rules[ri].name.clone(),
                                during_condition: true,
                                detail: d,
                            };
                            return StateOutcome::Halted { result: Err(err) };
                        },
                    }
                },
                None => {
                    if first_pass {
                        trace.push(Event::Fire { state: s, rule: ri });
                        fired = true;
                        match exec_body(p, s, ri, false, host, trace) {
                            BodyOutcome::Completed => {},
                            BodyOutcome::Jumped { target } => {
                                return StateOutcome::Jumped { target };
                            },
                            BodyOutcome::Halted { result } => {
                                return StateOutcome::Halted { result };
                            },
                        }
                    } else {
                        trace.push(Event::Skip { state: s, rule: ri });
                    }
                },
            }
            ri = ri + 1;
        }
        trace.push(Event::PassEnd { state: s, fired });
        if !fired {
            return StateOutcome::Settled;
        }
        first_pass = false;
    }
}

/// Interpret a validated program against the given host, running at most
/// `max_passes` rule passes in all. The returned trace is a legal history of
/// the small-step semantics; when the status is `Finished` it is complete
/// and ends in the returned result, so every guarantee proved of legal
/// traces holds of it: conditionless rules fire once per state entry,
/// transitions abandon the rest of their pass and re-arm the target state, a
/// return ends the run on the spot, and a pass without interaction leaves
/// the state.
///
/// A program whose conditions never settle runs passes until the budget is
/// spent and gets `OutOfPasses`; that is an authoring error of the program,
/// not of the engine, and the cap is the external kill mechanism the host
/// chooses. An `OutOfPasses` trace is evidence that the budget really was
/// spent: it holds exactly `max_passes` pass-finishing events and stops at
/// the boundary of the pass that was never begun.
pub fn run<H: Host>(p: &ValidatedProgram, host: &mut H, max_passes: u64) -> (res: (
    RunStatus,
    Vec<Event>,
))
    requires
        program_wf(p@),
    ensures
        match res.0 {
            RunStatus::Finished { result } => {
                &&& trace_ok(p@, res.1@, result_view(result))
                &&& result is Err ==> run_error_wf(p@, result->Err_0)
            },
            RunStatus::OutOfPasses => {
                &&& run_to(p@, res.1@) is Some
                &&& passes_spent(res.1@) == max_passes as int
                &&& ({
                    let c = run_to(p@, res.1@)->Some_0;
                    &&& 0 <= c.state < p@.states.len()
                    &&& c.phase == (Phase::AtRule { cursor: 0 })
                    &&& !c.fired
                })
            },
        },
{
    let mut trace: Vec<Event> = Vec::new();
    let mut fuel = max_passes;
    let n = p.states.len();
    proof {
        assert(trace@ =~= Seq::<Event>::empty());
    }
    if n == 0 {
        return (RunStatus::Finished { result: Ok(RunOutcome::Exhausted) }, trace);
    }
    let mut s: usize = 0;
    loop
        invariant
            program_wf(p@),
            n == p@.states.len(),
            0 < n,
            (s as int) < n as int,
            passes_spent(trace@) + fuel == max_passes as int,
            run_to(p@, trace@) == Some(entering(s as int)),
        decreases fuel,
    {
        match run_state(p, s, host, &mut trace, &mut fuel) {
            StateOutcome::Settled => {
                if s + 1 < n {
                    s = s + 1;
                } else {
                    return (RunStatus::Finished { result: Ok(RunOutcome::Exhausted) }, trace);
                }
            },
            StateOutcome::Jumped { target } => {
                s = target;
            },
            StateOutcome::Halted { result } => {
                return (RunStatus::Finished { result }, trace);
            },
            StateOutcome::OutOfPasses => {
                return (RunStatus::OutOfPasses, trace);
            },
        }
    }
}

} // verus!
