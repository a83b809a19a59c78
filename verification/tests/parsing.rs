use csml_engine::ast::{Instr, InstructionType, ParseErrorKind, SimpleInstr};
use csml_engine::parser::Parser;

#[test]
fn parse_is_deterministic() {
    // Parsing the same source twice yields structurally identical flows.
    let src = "flow {\n    say \"hi\"\n}\nstart: {\n    do x = \"1\"\n    say x\n}\n";
    let a = Parser::parse_flow(src.as_bytes()).unwrap();
    let b = Parser::parse_flow(src.as_bytes()).unwrap();
    assert_eq!(a, b);
}

#[test]
fn parse_structure() {
    let src = "flow {\n    say \"hi\"\n}\nstart: {\n    do x = \"1\"\n    say x\n}\n";
    let f = Parser::parse_flow(src.as_bytes()).unwrap();
    assert_eq!(f.flow_instructions.len(), 2);
    assert_eq!(f.flow_instructions[0].instruction_type, InstructionType::StartFlow);
    assert_eq!(
        f.flow_instructions[1].instruction_type,
        InstructionType::NormalStep(b"start".to_vec())
    );
    assert_eq!(f.flow_instructions[1].actions.len(), 2);
    match &f.flow_instructions[1].actions[0] {
        Instr::Simple(SimpleInstr::DoSet(name, value, itv)) => {
            assert_eq!(name, &b"x".to_vec());
            assert_eq!(value, &b"1".to_vec());
            assert_eq!(itv.line, 5);
            assert_eq!(itv.column, 5);
        },
        other => panic!("unexpected instruction {:?}", other),
    }
}

#[test]
fn duplicate_step_fails() {
    // Two blocks with the same tag fail with the duplicate-step error at the
    // sentinel position, whichever occurrence is scanned first.
    let src = "start: {\n    say \"a\"\n}\nstart: {\n    say \"b\"\n}\n";
    let e = Parser::parse_flow(src.as_bytes()).unwrap_err();
    assert_eq!(e.kind, ParseErrorKind::StepDuplicate);
    assert_eq!(e.interval.line, 0);
    assert_eq!(e.interval.column, 0);
    let swapped = "start: {\n    say \"b\"\n}\nstart: {\n    say \"a\"\n}\n";
    let e2 = Parser::parse_flow(swapped.as_bytes()).unwrap_err();
    assert_eq!(e2.kind, ParseErrorKind::StepDuplicate);
}

#[test]
fn duplicate_start_flow_fails() {
    let src = "flow {\n}\nflow {\n}\n";
    let e = Parser::parse_flow(src.as_bytes()).unwrap_err();
    assert_eq!(e.kind, ParseErrorKind::StepDuplicate);
}

#[test]
fn incomplete_input_has_no_position() {
    let src = "start: {\n    say \"a\"\n";
    let e = Parser::parse_flow(src.as_bytes()).unwrap_err();
    assert_eq!(e.kind, ParseErrorKind::Incomplete);
    assert_eq!(e.interval.line, 0);
    assert_eq!(e.interval.column, 0);
}

#[test]
fn unexpected_token_is_positioned() {
    let src = "start: {\n    say \"a\"\n    ? broken\n}\n";
    let e = Parser::parse_flow(src.as_bytes()).unwrap_err();
    assert_eq!(e.kind, ParseErrorKind::Unexpected);
    assert_eq!(e.interval.line, 3);
    assert_eq!(e.interval.column, 5);
    assert_eq!(e.message(), "unexpected token".to_owned());
}

#[test]
fn parse_foreach_shape() {
    let src = "start: {\n    foreach (x, i) in [\"a\", \"b\", \"c\"] {\n        say x\n        say i\n    }\n}\n";
    let f = Parser::parse_flow(src.as_bytes()).unwrap();
    assert_eq!(f.flow_instructions.len(), 1);
    match &f.flow_instructions[0].actions[0] {
        Instr::Foreach(fe) => {
            assert_eq!(fe.var, b"x".to_vec());
            assert_eq!(fe.index_var, Some(b"i".to_vec()));
            assert_eq!(fe.items, vec![b"a".to_vec(), b"b".to_vec(), b"c".to_vec()]);
            assert_eq!(fe.body.len(), 2);
            assert_eq!(fe.range.start.line, 2);
            assert_eq!(fe.range.start.column, 5);
        },
        other => panic!("unexpected instruction {:?}", other),
    }
}
