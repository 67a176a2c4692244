use banish::ast::{Action, Program};
use banish::parser::parse;

fn ok(src: &str) -> Program {
    match parse(src) {
        Ok(p) => p,
        Err(e) => panic!("expected a parse, got error: {:?}", e.msg),
    }
}

#[test]
fn empty_source_is_an_empty_program() {
    let p = ok("");
    assert_eq!(p.states.len(), 0);
    let p = ok("   \n\t  ");
    assert_eq!(p.states.len(), 0);
}

#[test]
fn single_state_single_conditioned_rule() {
    let p = ok("@red\n  timer ? ticks < 3 {\n    ticks += 1\n  }\n");
    assert_eq!(p.states.len(), 1);
    assert_eq!(p.states[0].name, "red");
    assert_eq!(p.states[0].rules.len(), 1);
    let r = &p.states[0].rules[0];
    assert_eq!(r.name, "timer");
    assert_eq!(r.condition.as_deref(), Some("ticks < 3"));
    assert_eq!(r.body.len(), 1);
    match &r.body[0] {
        Action::Host(t) => assert_eq!(t, "ticks += 1"),
        other => panic!("expected a host statement, got {:?}", other),
    }
    assert!(r.else_body.is_none());
}

#[test]
fn conditionless_rule_has_no_condition() {
    let p = ok("@s\n  announce ? {\n    ticks = 0;\n    loop_count += 1;\n  }\n");
    let r = &p.states[0].rules[0];
    assert!(r.condition.is_none());
    assert_eq!(r.body.len(), 2);
    match &r.body[0] {
        Action::Host(t) => assert_eq!(t, "ticks = 0"),
        other => panic!("expected a host statement, got {:?}", other),
    }
    match &r.body[1] {
        Action::Host(t) => assert_eq!(t, "loop_count += 1"),
        other => panic!("expected a host statement, got {:?}", other),
    }
}

#[test]
fn else_clause_is_attached() {
    let p = ok("@s\n  reset ? ticks == 10 {\n    => @other;\n  } !? { return; }\n@other\n");
    let r = &p.states[0].rules[0];
    assert_eq!(r.condition.as_deref(), Some("ticks == 10"));
    match &r.body[0] {
        Action::Transition(t) => assert_eq!(t, "other"),
        other => panic!("expected a transition, got {:?}", other),
    }
    let eb = r.else_body.as_ref().expect("an else body");
    assert_eq!(eb.len(), 1);
    match &eb[0] {
        Action::Return(v) => assert!(v.is_none()),
        other => panic!("expected a return, got {:?}", other),
    }
}

#[test]
fn return_with_value_keeps_the_expression_text() {
    let p = ok("@s\n  r ? { return ticks + 1; }\n");
    match &p.states[0].rules[0].body[0] {
        Action::Return(v) => assert_eq!(v.as_deref(), Some("ticks + 1")),
        other => panic!("expected a return, got {:?}", other),
    }
}

#[test]
fn return_identifier_prefix_is_a_host_statement() {
    let p = ok("@s\n  r ? { returning = 1; }\n");
    match &p.states[0].rules[0].body[0] {
        Action::Host(t) => assert_eq!(t, "returning = 1"),
        other => panic!("expected a host statement, got {:?}", other),
    }
}

#[test]
fn statement_scan_keeps_quotes_and_braces() {
    let p = ok("@s\n  r ? { greet(\"hello; {world}\"); }\n");
    match &p.states[0].rules[0].body[0] {
        Action::Host(t) => assert_eq!(t, "greet(\"hello; {world}\")"),
        other => panic!("expected a host statement, got {:?}", other),
    }
}

#[test]
fn last_statement_needs_no_semicolon() {
    let p = ok("@s\n  r ? go { x += 1 }\n");
    match &p.states[0].rules[0].body[0] {
        Action::Host(t) => assert_eq!(t, "x += 1"),
        other => panic!("expected a host statement, got {:?}", other),
    }
}

#[test]
fn several_states_in_order() {
    let p = ok("@red\n a ? { x = 1; }\n@green\n b ? { x = 2; }\n@yellow\n");
    assert_eq!(p.states.len(), 3);
    assert_eq!(p.states[0].name, "red");
    assert_eq!(p.states[1].name, "green");
    assert_eq!(p.states[2].name, "yellow");
    assert_eq!(p.states[2].rules.len(), 0);
}

#[test]
fn condition_may_hold_a_quoted_brace() {
    // A brace inside double quotes is part of the condition; only a brace
    // outside quotes opens the body.
    let p = ok("@s\n  r ? tag == \"{\" { x = 1; }\n");
    let r = &p.states[0].rules[0];
    assert_eq!(r.condition.as_deref(), Some("tag == \"{\""));
    match &r.body[0] {
        Action::Host(t) => assert_eq!(t, "x = 1"),
        other => panic!("expected a host statement, got {:?}", other),
    }
}

#[test]
fn whitespace_is_free_between_tokens() {
    let p = ok("@s timer?ticks<3{ticks+=1}");
    let r = &p.states[0].rules[0];
    assert_eq!(r.name, "timer");
    assert_eq!(r.condition.as_deref(), Some("ticks<3"));
    match &r.body[0] {
        Action::Host(t) => assert_eq!(t, "ticks+=1"),
        other => panic!("expected a host statement, got {:?}", other),
    }
}

#[test]
fn else_without_condition_is_rejected() {
    let e = parse("@s\n  r ? { x = 1; } !? { x = 2; }\n").unwrap_err();
    assert!(e.msg.contains("else"));
}

#[test]
fn text_before_first_state_is_rejected() {
    let e = parse("x = 1;\n@s\n").unwrap_err();
    assert!(e.msg.contains("state header"));
    assert_eq!(e.line, Some(0));
}

#[test]
fn missing_question_mark_is_rejected() {
    assert!(parse("@s\n  r { x = 1; }\n").is_err());
}

#[test]
fn unterminated_body_is_rejected() {
    assert!(parse("@s\n  r ? { x = 1;").is_err());
}

#[test]
fn missing_body_after_condition_is_rejected() {
    let e = parse("@s\n  r ? ticks < 3\n").unwrap_err();
    assert!(e.msg.contains("rule body"));
}

#[test]
fn malformed_transition_is_rejected() {
    assert!(parse("@s\n  r ? { => green; }\n").is_err());
    assert!(parse("@s\n  r ? { => @green }\n").is_err());
}

#[test]
fn non_ascii_source_is_rejected() {
    let e = parse("@zustände\n").unwrap_err();
    assert!(e.msg.contains("ASCII"));
    assert_eq!(e.line, None);
}

#[test]
fn error_lines_count_newlines() {
    let e = parse("@s\n  a ? { x = 1; }\n  b { }\n").unwrap_err();
    assert_eq!(e.line, Some(2));
}

#[test]
fn syntax_error_constructors_keep_their_fields() {
    let e = banish::errors::SyntaxError::new(7, String::from("boom"), Some(String::from("f.bn")));
    assert_eq!(e.line, Some(7));
    assert_eq!(e.msg, "boom");
    assert_eq!(e.file.as_deref(), Some("f.bn"));
    let e = banish::errors::SyntaxError::lnew("quiet");
    assert_eq!(e.line, None);
    assert_eq!(e.msg, "quiet");
    assert!(e.file.is_none());
}
