use csml_engine::engine::{execute, Context, Event, EngineMsg, Hold, IndexInfo, MsgContent};
use csml_engine::parser::Parser;

fn hold_flow_source() -> &'static str {
    "start: {\n    say this_hold\n    say \"1\"\n    say \"2\"\n\n\n\n     say this_hold\n    do a = \"x\"\n    do b = \"y\"\n    say \"4\"\n    hold\n    do c = \"z\"\n    do d = \"w\"\n    do e = \"v\"\n    do f = \"u\"\n    do g = \"t\"\n    stop\n    do h = \"s\"\n    say \"3\"\n}\n"
}

fn render(m: &EngineMsg) -> String {
    match &m.content {
        MsgContent::Text(v) => String::from_utf8(v.clone()).unwrap(),
        MsgContent::Unset { var, interval, step, flow } => format!(
            "< {} > is used before it was saved in memory at line {}, column {} in step [{}] from flow [{}]",
            String::from_utf8(var.clone()).unwrap(),
            interval.line,
            interval.column,
            String::from_utf8(step.clone()).unwrap(),
            String::from_utf8(flow.clone()).unwrap(),
        ),
    }
}

fn run_hold_flow(hold: Option<Hold>) -> Vec<String> {
    let flow = Parser::parse_flow(hold_flow_source().as_bytes()).unwrap();
    let ctx = Context::new(
        Vec::new(),
        Vec::new(),
        None,
        hold,
        b"start".to_vec(),
        b"flow".to_vec(),
    );
    let event = Event::new(b"payload".to_vec(), b"".to_vec());
    let (msgs, _ctx2) = execute(&flow, &b"start".to_vec(), ctx, &event).unwrap();
    msgs.iter().map(render).collect()
}

fn hold_at(command_index: u64) -> Option<Hold> {
    Some(Hold::new(
        IndexInfo { command_index, loop_index: vec![] },
        b"{}".to_vec(),
        b"".to_vec(),
        b"".to_vec(),
    ))
}

#[test]
fn hold_test_none() {
    let msgs = run_hold_flow(None);
    assert_eq!(
        msgs,
        vec![
            "< this_hold > is used before it was saved in memory at line 2, column 5 in step [start] from flow [flow]".to_owned(),
            "1".to_owned(),
            "2".to_owned(),
            "< this_hold > is used before it was saved in memory at line 8, column 6 in step [start] from flow [flow]".to_owned(),
            "4".to_owned(),
        ]
    );
}

#[test]
fn hold_test_some_0() {
    let msgs = run_hold_flow(hold_at(0));
    assert_eq!(
        msgs,
        vec![
            "1".to_owned(),
            "2".to_owned(),
            "< this_hold > is used before it was saved in memory at line 8, column 6 in step [start] from flow [flow]".to_owned(),
            "4".to_owned(),
        ]
    );
}

#[test]
fn hold_test_some_5() {
    let msgs = run_hold_flow(hold_at(5));
    assert_eq!(msgs, vec!["4".to_owned()]);
}

#[test]
fn hold_test_some_12() {
    let msgs = run_hold_flow(hold_at(12));
    assert_eq!(msgs, Vec::<String>::new());
}

#[test]
fn hold_test_some_14() {
    let msgs = run_hold_flow(hold_at(14));
    assert_eq!(msgs, vec!["3".to_owned()]);
}

#[test]
fn hold_test_some_17() {
    let msgs = run_hold_flow(hold_at(17));
    assert_eq!(msgs, Vec::<String>::new());
}

#[test]
fn fresh_run_records_hold_at_directive() {
    let flow = Parser::parse_flow(hold_flow_source().as_bytes()).unwrap();
    let ctx = Context::new(
        Vec::new(),
        Vec::new(),
        None,
        None,
        b"start".to_vec(),
        b"flow".to_vec(),
    );
    let event = Event::new(b"payload".to_vec(), b"".to_vec());
    let (_msgs, ctx2) = execute(&flow, &b"start".to_vec(), ctx, &event).unwrap();
    let h = ctx2.hold.expect("fresh run must suspend at the hold directive");
    assert_eq!(h.index.command_index, 7);
    assert_eq!(h.index.loop_index, Vec::<u64>::new());
    assert_eq!(h.content, b"payload".to_vec());
    assert_eq!(h.step_id, b"start".to_vec());
    assert_eq!(h.flow_id, b"flow".to_vec());
}

#[test]
fn resume_consumes_hold() {
    // Resuming clears the stored hold; re-reaching the directive records a
    // fresh one.
    let msgs = run_hold_flow(hold_at(5));
    assert_eq!(msgs, vec!["4".to_owned()]);
    let flow = Parser::parse_flow(hold_flow_source().as_bytes()).unwrap();
    let ctx = Context::new(
        Vec::new(),
        Vec::new(),
        None,
        hold_at(17),
        b"start".to_vec(),
        b"flow".to_vec(),
    );
    let event = Event::new(b"payload".to_vec(), b"".to_vec());
    let (_msgs, ctx2) = execute(&flow, &b"start".to_vec(), ctx, &event).unwrap();
    assert!(ctx2.hold.is_none(), "a hold beyond the end is consumed, none is recorded");
}

#[test]
fn missing_step_is_fatal() {
    let flow = Parser::parse_flow(hold_flow_source().as_bytes()).unwrap();
    let ctx = Context::new(Vec::new(), Vec::new(), None, None, b"start".to_vec(), b"flow".to_vec());
    let event = Event::new(b"payload".to_vec(), b"".to_vec());
    let r = execute(&flow, &b"nowhere".to_vec(), ctx, &event);
    assert!(r.is_err());
}
