use banish::ast::ValidatedProgram;
use banish::engine::{run, RunOutcome, RunStatus};
use banish::eval_host::EvalHost;
use banish::parser::parse;
use banish::semantics::Event;
use banish::validator::validate;

fn compile(src: &str) -> ValidatedProgram {
    validate(&parse(src).expect("the source should parse")).expect("the program should validate")
}

fn fires_of(trace: &[Event], state: usize, rule: usize) -> usize {
    trace.iter().filter(|e| **e == Event::Fire { state, rule }).count()
}

#[test]
fn empty_program_is_exhausted_at_once() {
    let p = compile("");
    let mut host = EvalHost::new();
    let (status, trace) = run(&p, &mut host, 100);
    match status {
        RunStatus::Finished { result } => assert_eq!(result.unwrap(), RunOutcome::Exhausted),
        RunStatus::OutOfPasses => panic!("the empty program needs no passes"),
    }
    assert!(trace.is_empty());
}

#[test]
fn conditioned_rule_runs_to_its_fixed_point() {
    // The timer body must run exactly three times before control leaves
    // the first state.
    let p = compile("@red\n  timer ? ticks < 3 { ticks += 1 }\n@green\n");
    let mut host = EvalHost::new();
    assert!(host.set_int("ticks", 0));
    let (status, trace) = run(&p, &mut host, 100);
    match status {
        RunStatus::Finished { result } => assert_eq!(result.unwrap(), RunOutcome::Exhausted),
        RunStatus::OutOfPasses => panic!("the state settles after three passes"),
    }
    assert_eq!(host.get_int("ticks"), Some(3));
    assert_eq!(fires_of(&trace, 0, 0), 3);
    // Four passes over red: three that fire and the quiet one.
    let red_passes = trace.iter().filter(|e| matches!(e, Event::PassEnd { state: 0, .. })).count();
    assert_eq!(red_passes, 4);
}

#[test]
fn return_halts_the_whole_run_immediately() {
    // When the stop rule sees loop_count == 2, execution halts with no
    // value, even though another rule in yellow and a whole later state
    // are still pending.
    let p = compile(
        "@yellow\n  stop ? loop_count == 2 { return; }\n  after ? loop_count == 2 { witness = 1; }\n@later\n  mark ? { witness = 2; }\n",
    );
    let mut host = EvalHost::new();
    assert!(host.set_int("loop_count", 2));
    let (status, trace) = run(&p, &mut host, 100);
    match status {
        RunStatus::Finished { result } => {
            assert_eq!(result.unwrap(), RunOutcome::Returned(None))
        },
        RunStatus::OutOfPasses => panic!("the run returns on the first pass"),
    }
    assert_eq!(host.get_int("witness"), None);
    assert_eq!(trace.last(), Some(&Event::Ret { state: 0, rule: 0 }));
}

#[test]
fn returned_value_carries_the_expression_text() {
    let p = compile("@s\n  r ? { return ticks; }\n");
    let mut host = EvalHost::new();
    let (status, _) = run(&p, &mut host, 100);
    match status {
        RunStatus::Finished { result } => {
            assert_eq!(result.unwrap(), RunOutcome::Returned(Some(String::from("ticks"))))
        },
        RunStatus::OutOfPasses => panic!("the run returns on the first pass"),
    }
}

#[test]
fn conditionless_rule_fires_once_per_entry_and_rearms_on_reentry() {
    // a is entered twice: its conditionless rule fires once per entry,
    // not once per run.
    let p = compile(
        "@a\n  once ? { c += 1 }\n  go ? c == 1 { => @b; }\n@b\n  back ? c == 1 { c += 1; => @a; }\n",
    );
    let mut host = EvalHost::new();
    assert!(host.set_int("c", 0));
    let (status, trace) = run(&p, &mut host, 100);
    match status {
        RunStatus::Finished { result } => assert_eq!(result.unwrap(), RunOutcome::Exhausted),
        RunStatus::OutOfPasses => panic!("the program settles"),
    }
    assert_eq!(host.get_int("c"), Some(3));
    assert_eq!(fires_of(&trace, 0, 0), 2);
    let entries_of_a = trace.iter().filter(|e| **e == Event::Enter { state: 0 }).count();
    assert_eq!(entries_of_a, 2);
}

#[test]
fn else_body_runs_on_every_pass_where_the_condition_is_false() {
    // The never-true rule routes to its else body on each of the four
    // passes the state takes, not merely once.
    let p = compile("@s\n  work ? n < 3 { n += 1 }\n  probe ? false { n = 99; } !? { e += 1; }\n");
    let mut host = EvalHost::new();
    assert!(host.set_int("n", 0));
    assert!(host.set_int("e", 0));
    let (status, trace) = run(&p, &mut host, 100);
    match status {
        RunStatus::Finished { result } => assert_eq!(result.unwrap(), RunOutcome::Exhausted),
        RunStatus::OutOfPasses => panic!("the state settles after four passes"),
    }
    assert_eq!(host.get_int("n"), Some(3));
    assert_eq!(host.get_int("e"), Some(4));
    let else_fires = trace.iter().filter(|e| **e == Event::ElseFire { state: 0, rule: 1 }).count();
    assert_eq!(else_fires, 4);
    let skips = trace.iter().filter(|e| matches!(e, Event::Skip { state: 0, rule: 1 })).count();
    assert_eq!(skips, 0);
}

#[test]
fn transition_abandons_the_rest_of_pass_and_body() {
    // Nothing after the jump runs: neither the rest of the body nor the
    // later rule of the pass.
    let p = compile(
        "@a\n  jumper ? x == 0 { x = 1; => @b; leftover = 1; }\n  tail ? x == 1 { tail_ran = 1; }\n@b\n",
    );
    let mut host = EvalHost::new();
    assert!(host.set_int("x", 0));
    let (status, trace) = run(&p, &mut host, 100);
    match status {
        RunStatus::Finished { result } => assert_eq!(result.unwrap(), RunOutcome::Exhausted),
        RunStatus::OutOfPasses => panic!("the program settles"),
    }
    assert_eq!(host.get_int("x"), Some(1));
    assert_eq!(host.get_int("leftover"), None);
    assert_eq!(host.get_int("tail_ran"), None);
    // The jump is followed directly by the entry of the target state.
    let jump_pos = trace
        .iter()
        .position(|e| matches!(e, Event::Jump { state: 0, rule: 0, target: 1 }))
        .expect("the jump happens");
    assert_eq!(trace[jump_pos + 1], Event::Enter { state: 1 });
}

#[test]
fn never_settling_program_runs_out_of_passes() {
    let p = compile("@s\n  spin ? true { n += 1; }\n");
    let mut host = EvalHost::new();
    assert!(host.set_int("n", 0));
    let (status, trace) = run(&p, &mut host, 5);
    assert!(matches!(status, RunStatus::OutOfPasses));
    assert_eq!(host.get_int("n"), Some(5));
    // The trace is evidence that the budget really was spent: one
    // pass-finishing event per granted pass.
    let finished_passes = trace.iter().filter(|e| matches!(e, Event::PassEnd { .. })).count();
    assert_eq!(finished_passes, 5);
}

#[test]
fn condition_failure_names_the_state_and_rule() {
    let p = compile("@phase\n  broken ? nowhere_bound < 1 { n = 1; }\n");
    let mut host = EvalHost::new();
    let (status, trace) = run(&p, &mut host, 100);
    match status {
        RunStatus::Finished { result } => {
            let e = result.unwrap_err();
            assert_eq!(e.state, "phase");
            assert_eq!(e.rule, "broken");
            assert!(e.during_condition);
        },
        RunStatus::OutOfPasses => panic!("the failure comes on the first pass"),
    }
    assert_eq!(trace.last(), Some(&Event::CondFail { state: 0, rule: 0 }));
}

#[test]
fn statement_failure_names_the_state_and_rule() {
    let p = compile("@phase\n  seed ? { fresh += 1; }\n");
    let mut host = EvalHost::new();
    let (status, trace) = run(&p, &mut host, 100);
    match status {
        RunStatus::Finished { result } => {
            let e = result.unwrap_err();
            assert_eq!(e.state, "phase");
            assert_eq!(e.rule, "seed");
            assert!(!e.during_condition);
        },
        RunStatus::OutOfPasses => panic!("the failure comes on the first pass"),
    }
    assert_eq!(trace.last(), Some(&Event::StmtFail { state: 0, rule: 0 }));
    // The actions already executed keep their effects; nothing is rolled
    // back, and the failing statement bound nothing.
    assert_eq!(host.get_int("fresh"), None);
}

#[test]
fn return_inside_an_else_body_halts_globally() {
    // The return stands in an inner body (the else branch), yet it still
    // stops the whole run before any later rule or state.
    let p = compile(
        "@first\n  probe ? false { x = 1; } !? { return stopped; }\n  tail ? { mark = 1; }\n@second\n  other ? { mark = 2; }\n",
    );
    let mut host = EvalHost::new();
    let (status, trace) = run(&p, &mut host, 100);
    match status {
        RunStatus::Finished { result } => {
            assert_eq!(result.unwrap(), RunOutcome::Returned(Some(String::from("stopped"))))
        },
        RunStatus::OutOfPasses => panic!("the run returns on the first pass"),
    }
    assert_eq!(host.get_int("mark"), None);
    assert_eq!(trace.last(), Some(&Event::Ret { state: 0, rule: 0 }));
}

#[test]
fn conditionless_rule_with_empty_body_still_interacts_once() {
    // An empty body is still a firing: the first pass interacts, the
    // second is quiet, and control advances.
    let p = compile("@a\n  nop ? { }\n@b\n");
    let mut host = EvalHost::new();
    let (status, trace) = run(&p, &mut host, 100);
    match status {
        RunStatus::Finished { result } => assert_eq!(result.unwrap(), RunOutcome::Exhausted),
        RunStatus::OutOfPasses => panic!("the program settles in two passes"),
    }
    assert_eq!(fires_of(&trace, 0, 0), 1);
    let a_passes = trace.iter().filter(|e| matches!(e, Event::PassEnd { state: 0, .. })).count();
    assert_eq!(a_passes, 2);
}

#[test]
fn traffic_light_cycle_runs_twice_then_returns() {
    // Two full cycles: red counts to 3, yellow to 10, a reset jumps back to
    // red once, and the second time through the stop rule returns.
    let src = "\
@red\n\
  announce ? { ticks = 0; loop_count += 1; }\n\
  timer ? ticks < 3 { ticks += 1; }\n\
@yellow\n\
  timer ? ticks < 10 { ticks += 1; }\n\
  reset ? ticks == 10 && loop_count < 2 { => @red; }\n\
  stop ? ticks == 10 && loop_count == 2 { return; }\n";
    let p = compile(src);
    let mut host = EvalHost::new();
    assert!(host.set_int("ticks", 0));
    assert!(host.set_int("loop_count", 0));
    let (status, trace) = run(&p, &mut host, 1000);
    match status {
        RunStatus::Finished { result } => {
            assert_eq!(result.unwrap(), RunOutcome::Returned(None))
        },
        RunStatus::OutOfPasses => panic!("the example settles well within the budget"),
    }
    assert_eq!(host.get_int("loop_count"), Some(2));
    assert_eq!(host.get_int("ticks"), Some(10));
    let red_entries = trace.iter().filter(|e| **e == Event::Enter { state: 0 }).count();
    assert_eq!(red_entries, 2);
}
