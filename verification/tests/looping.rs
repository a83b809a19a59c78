use csml_engine::engine::{
    execute, flow_weight_check, Context, Event, EngineMsg, Hold, IndexInfo, MsgContent,
};
use csml_engine::parser::Parser;

fn texts(msgs: &[EngineMsg]) -> Vec<String> {
    msgs.iter()
        .map(|m| match &m.content {
            MsgContent::Text(v) => String::from_utf8(v.clone()).unwrap(),
            MsgContent::Unset { var, .. } => {
                format!("unset:{}", String::from_utf8(var.clone()).unwrap())
            },
        })
        .collect()
}

fn run(src: &str, hold: Option<Hold>) -> (Vec<String>, Option<Hold>) {
    let flow = Parser::parse_flow(src.as_bytes()).unwrap();
    assert!(flow_weight_check(&flow), "a parsed flow this small is within the position limit");
    let ctx = Context::new(Vec::new(), Vec::new(), None, hold, b"start".to_vec(), b"flow".to_vec());
    let event = Event::new(b"ev".to_vec(), b"".to_vec());
    let (msgs, ctx2) = execute(&flow, &b"start".to_vec(), ctx, &event).unwrap();
    (texts(&msgs), ctx2.hold)
}

fn loop_src() -> &'static str {
    "start: {\n    foreach (x, i) in [\"a\", \"b\"] {\n        say x\n        say i\n    }\n    say \"done\"\n}\n"
}

#[test]
fn foreach_binds_item_and_index() {
    let (msgs, hold) = run(loop_src(), None);
    assert_eq!(msgs, vec!["a", "0", "b", "1", "done"]);
    assert!(hold.is_none());
}

#[test]
fn foreach_positions_are_increasing() {
    let flow = Parser::parse_flow(loop_src().as_bytes()).unwrap();
    let ctx = Context::new(Vec::new(), Vec::new(), None, None, b"start".to_vec(), b"flow".to_vec());
    let event = Event::new(b"ev".to_vec(), b"".to_vec());
    let (msgs, _) = execute(&flow, &b"start".to_vec(), ctx, &event).unwrap();
    for w in msgs.windows(2) {
        assert!(w[0].position.command_index < w[1].position.command_index);
    }
    // The two messages of the first iteration carry the iteration counter.
    assert_eq!(msgs[0].position.loop_index, vec![1]);
    assert_eq!(msgs[2].position.loop_index, vec![2]);
    assert_eq!(msgs[4].position.loop_index, Vec::<u64>::new());
}

#[test]
fn resume_distinguishes_loop_iterations() {
    // At the shared ordinal, a shorter counter stack (the suspension point
    // outside the loop) orders before the instruction inside the loop.
    let h = Hold::new(
        IndexInfo { command_index: 2, loop_index: vec![] },
        b"{}".to_vec(),
        b"".to_vec(),
        b"".to_vec(),
    );
    // The first iteration's bindings were skipped with it, so the surviving
    // read of `i` inside it is the recoverable used-before-saved error.
    let (msgs, _) = run(loop_src(), Some(h));
    assert_eq!(msgs, vec!["unset:i", "b", "1", "done"]);
    let h2 = Hold::new(
        IndexInfo { command_index: 2, loop_index: vec![1] },
        b"{}".to_vec(),
        b"".to_vec(),
        b"".to_vec(),
    );
    let (msgs2, _) = run(loop_src(), Some(h2));
    assert_eq!(msgs2, vec!["b", "1", "done"]);
}

#[test]
fn hold_inside_loop_records_iteration() {
    let src = "start: {\n    foreach (x) in [\"a\", \"b\"] {\n        say x\n        hold\n    }\n}\n";
    let (msgs, hold) = run(src, None);
    assert_eq!(msgs, vec!["a"]);
    let h = hold.expect("the loop body suspends");
    assert_eq!(h.index.command_index, 2);
    assert_eq!(h.index.loop_index, vec![1]);
    // Resuming from inside the first iteration continues with the second.
    let (msgs2, hold2) = run(src, Some(h));
    assert_eq!(msgs2, vec!["b"]);
    let h2 = hold2.expect("the second iteration suspends in turn");
    assert_eq!(h2.index.command_index, 4);
    assert_eq!(h2.index.loop_index, vec![2]);
}

#[test]
fn later_write_shadows_earlier() {
    let src = "start: {\n    do x = \"old\"\n    do x = \"new\"\n    say x\n}\n";
    let (msgs, _) = run(src, None);
    assert_eq!(msgs, vec!["new"]);
}

#[test]
fn empty_source_parses_to_empty_flow() {
    let flow = Parser::parse_flow(b"").unwrap();
    assert!(flow.flow_instructions.is_empty());
    let ctx = Context::new(Vec::new(), Vec::new(), None, None, b"start".to_vec(), b"flow".to_vec());
    let event = Event::new(b"ev".to_vec(), b"".to_vec());
    assert!(execute(&flow, &b"start".to_vec(), ctx, &event).is_err());
}

#[test]
fn resumed_outputs_sit_after_the_consumed_position() {
    let h = Hold::new(
        IndexInfo { command_index: 2, loop_index: vec![] },
        b"{}".to_vec(),
        b"".to_vec(),
        b"".to_vec(),
    );
    let flow = Parser::parse_flow(loop_src().as_bytes()).unwrap();
    let ctx = Context::new(
        Vec::new(),
        Vec::new(),
        None,
        Some(h),
        b"start".to_vec(),
        b"flow".to_vec(),
    );
    let event = Event::new(b"ev".to_vec(), b"".to_vec());
    let (msgs, _) = execute(&flow, &b"start".to_vec(), ctx, &event).unwrap();
    for m in &msgs {
        assert!(
            m.position.command_index > 2
                || (m.position.command_index == 2 && !m.position.loop_index.is_empty())
        );
    }
}

#[test]
fn fresh_runs_are_reproducible() {
    let (a, _) = run(loop_src(), None);
    let (b, _) = run(loop_src(), None);
    assert_eq!(a, b);
}

#[test]
fn memory_persists_into_updated_context() {
    let src = "start: {\n    do greet = \"hi\"\n    say greet\n}\n";
    let flow = Parser::parse_flow(src.as_bytes()).unwrap();
    let ctx = Context::new(Vec::new(), Vec::new(), None, None, b"start".to_vec(), b"flow".to_vec());
    let event = Event::new(b"ev".to_vec(), b"".to_vec());
    let (msgs, ctx2) = execute(&flow, &b"start".to_vec(), ctx, &event).unwrap();
    assert_eq!(texts(&msgs), vec!["hi"]);
    assert_eq!(ctx2.memory.len(), 1);
    assert_eq!(ctx2.memory[0].name, b"greet".to_vec());
    assert_eq!(ctx2.memory[0].value, b"hi".to_vec());
}
