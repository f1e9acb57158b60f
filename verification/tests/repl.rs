use kria::repl::{classify_meta, open_delimiter_depth, MetaCommand, ReplSession};
use kria::vm::Event;

fn drain(session: &mut ReplSession) -> (Vec<String>, String) {
    let mut out = Vec::new();
    for _ in 0..1000 {
        match session.run(100_000) {
            Event::Continue => {}
            Event::Print(s) => out.push(s),
            Event::Halt => return (out, "halt".to_string()),
            Event::Error(m) => return (out, format!("error: {}", m)),
            Event::Fault(m) => return (out, format!("fault: {}", m)),
            Event::Input { mask, prompt } => return (out, format!("input {} {}", mask, prompt)),
        }
    }
    panic!("the session did not finish");
}

#[test]
fn delimiter_depth_ignores_strings() {
    assert_eq!(open_delimiter_depth(r#"{ "}" "#), 1);
    assert_eq!(open_delimiter_depth("fn f() {\n  return 1\n}"), 0);
}

#[test]
fn delimiter_depth_counts_all_brackets_and_escapes() {
    assert_eq!(open_delimiter_depth("([{"), 3);
    assert_eq!(open_delimiter_depth("}"), -1);
    assert_eq!(open_delimiter_depth(r#""a\"{" ("#), 1);
    assert_eq!(open_delimiter_depth(""), 0);
}

#[test]
fn meta_commands_are_recognised() {
    assert!(matches!(classify_meta(":exit"), MetaCommand::Exit));
    assert!(matches!(classify_meta("  :quit  "), MetaCommand::Exit));
    assert!(matches!(classify_meta(":help"), MetaCommand::Help));
    assert!(matches!(classify_meta(":h"), MetaCommand::Help));
    assert!(matches!(classify_meta(":reset"), MetaCommand::Reset));
    match classify_meta(":frobnicate ") {
        MetaCommand::Unknown(t) => assert_eq!(t, ":frobnicate"),
        _ => panic!("expected an unknown command"),
    }
    assert!(matches!(classify_meta("print 1"), MetaCommand::NotMeta));
    assert!(matches!(classify_meta(" :x"), MetaCommand::NotMeta));
}

#[test]
fn session_keeps_globals_between_inputs() {
    let mut session = ReplSession::new();
    session.eval("set x = 10").unwrap();
    assert_eq!(drain(&mut session), (vec![], "halt".to_string()));
    session.eval("print(x + 5)").unwrap();
    assert_eq!(drain(&mut session), (vec!["15".to_string()], "halt".to_string()));
    session.eval("set x = x * 2\nprint(x)").unwrap();
    assert_eq!(drain(&mut session), (vec!["20".to_string()], "halt".to_string()));
}

#[test]
fn session_reset_forgets_variables() {
    let mut session = ReplSession::new();
    session.eval("set y = 3").unwrap();
    drain(&mut session);
    session.reset();
    session.eval("print(y)").unwrap();
    assert_eq!(drain(&mut session), (vec!["null".to_string()], "halt".to_string()));
}

#[test]
fn persistent_globals() {
    let mut session = ReplSession::new();
    session.eval("set x = 10").unwrap();
    session.eval("x + 5").unwrap();
    session.reset();
    session.eval("set y = 1").unwrap();
}

#[test]
fn bare_expressions_are_printed() {
    let mut session = ReplSession::new();
    session.eval("set x = 10").unwrap();
    assert_eq!(drain(&mut session), (vec![], "halt".to_string()));
    session.eval("x + 5").unwrap();
    assert_eq!(drain(&mut session), (vec!["15".to_string()], "halt".to_string()));
}

#[test]
fn session_reports_parse_errors() {
    let mut session = ReplSession::new();
    let r = session.eval("set = 5");
    assert_eq!(r, Err("Expected identifier after 'set'".to_string()));
    session.eval("print(1)").unwrap();
    assert_eq!(drain(&mut session), (vec!["1".to_string()], "halt".to_string()));
}

#[test]
fn session_defines_and_calls_functions() {
    let mut session = ReplSession::new();
    session.eval("fn twice(n) {\n  return n * 2\n}").unwrap();
    assert_eq!(drain(&mut session), (vec![], "halt".to_string()));
    session.eval("twice(21)").unwrap();
    assert_eq!(drain(&mut session), (vec!["42".to_string()], "halt".to_string()));
}
