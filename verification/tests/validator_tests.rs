use banish::ast::{Action, Program, ResolvedAction, Rule, State};
use banish::parser::parse;
use banish::validator::{validate, ValidationError};

fn parsed(src: &str) -> Program {
    parse(src).expect("the source should parse")
}

#[test]
fn targets_resolve_to_state_indices() {
    let p = parsed("@a\n r ? { => @c; }\n@b\n@c\n s ? { => @a; }\n");
    let vp = validate(&p).expect("the program should validate");
    match &vp.states[0].rules[0].body[0] {
        ResolvedAction::Transition(t) => assert_eq!(*t, 2),
        other => panic!("expected a transition, got {:?}", other),
    }
    match &vp.states[2].rules[0].body[0] {
        ResolvedAction::Transition(t) => assert_eq!(*t, 0),
        other => panic!("expected a transition, got {:?}", other),
    }
}

#[test]
fn names_and_bodies_carry_over() {
    let p = parsed("@a\n r ? go { x = 1; return done; }\n");
    let vp = validate(&p).expect("the program should validate");
    assert_eq!(vp.states[0].name, "a");
    assert_eq!(vp.states[0].rules[0].name, "r");
    assert_eq!(vp.states[0].rules[0].condition.as_deref(), Some("go"));
    match &vp.states[0].rules[0].body[1] {
        ResolvedAction::Return(v) => assert_eq!(v.as_deref(), Some("done")),
        other => panic!("expected a return, got {:?}", other),
    }
}

#[test]
fn duplicate_state_name_is_the_first_violation() {
    let p = parsed("@a\n@b\n@a\n");
    match validate(&p).unwrap_err() {
        ValidationError::DuplicateState { state } => assert_eq!(state, "a"),
        other => panic!("expected a duplicate state, got {:?}", other),
    }
}

#[test]
fn duplicate_rule_name_within_a_state() {
    let p = parsed("@a\n r ? { x = 1; }\n r ? go { x = 2; }\n");
    match validate(&p).unwrap_err() {
        ValidationError::DuplicateRule { state, rule } => {
            assert_eq!(state, "a");
            assert_eq!(rule, "r");
        },
        other => panic!("expected a duplicate rule, got {:?}", other),
    }
}

#[test]
fn same_rule_name_in_two_states_is_fine() {
    let p = parsed("@a\n r ? { x = 1; }\n@b\n r ? { x = 2; }\n");
    assert!(validate(&p).is_ok());
}

#[test]
fn unresolved_transition_target() {
    let p = parsed("@a\n r ? { => @nowhere; }\n");
    match validate(&p).unwrap_err() {
        ValidationError::UnknownTarget { state, rule, target } => {
            assert_eq!(state, "a");
            assert_eq!(rule, "r");
            assert_eq!(target, "nowhere");
        },
        other => panic!("expected an unknown target, got {:?}", other),
    }
}

#[test]
fn else_without_condition_on_a_hand_built_program() {
    // The parser refuses this shape outright; a program built directly
    // still has to be caught before anything runs.
    let p = Program {
        states: vec![State {
            name: String::from("a"),
            rules: vec![Rule {
                name: String::from("r"),
                condition: None,
                body: vec![Action::Host(String::from("x = 1"))],
                else_body: Some(vec![Action::Host(String::from("x = 2"))]),
            }],
        }],
    };
    match validate(&p).unwrap_err() {
        ValidationError::ElseWithoutCondition { state, rule } => {
            assert_eq!(state, "a");
            assert_eq!(rule, "r");
        },
        other => panic!("expected an illegal else, got {:?}", other),
    }
}

#[test]
fn target_in_an_else_body_is_resolved_and_checked() {
    let p = parsed("@a\n r ? go { x = 1; } !? { => @missing; }\n");
    match validate(&p).unwrap_err() {
        ValidationError::UnknownTarget { target, .. } => assert_eq!(target, "missing"),
        other => panic!("expected an unknown target, got {:?}", other),
    }
}

#[test]
fn validation_is_reported_before_any_execution() {
    // A duplicate rule that could never fire still blocks the run: the
    // validator refuses the program, so no engine and no host ever see it.
    let p = parsed("@a\n r ? false { x = 1; }\n r ? false { x = 2; }\n");
    assert!(validate(&p).is_err());
}
