use ir_cfg::shape::{classify, classify_instrs};
use ir_cfg::{Code, ConstOps, EffectOps, Instruction, Literal, RawInstruction, ShapeError, Type, ValueOps};

fn raw_empty() -> RawInstruction {
    RawInstruction {
        label: None,
        op: None,
        dest: None,
        dest_type: None,
        value: None,
        args: vec![],
        funcs: vec![],
        labels: vec![],
    }
}

fn raw_op(op: &str) -> RawInstruction {
    RawInstruction { op: Some(op.to_string()), ..raw_empty() }
}

#[test]
fn classifies_a_label_marker() {
    let raw = RawInstruction { label: Some("loop".to_string()), ..raw_empty() };
    assert_eq!(classify(&raw), Ok(Code::Label { label: "loop".to_string() }));
}

#[test]
fn classifies_a_constant() {
    let raw = RawInstruction {
        op: Some("const".to_string()),
        dest: Some("x".to_string()),
        dest_type: Some(Type::Int),
        value: Some(Literal::Int(4)),
        ..raw_empty()
    };
    assert_eq!(
        classify(&raw),
        Ok(Code::Instruction(Instruction::Constant {
            op: ConstOps::Const,
            dest: "x".to_string(),
            dest_type: Type::Int,
            value: Literal::Int(4),
        })),
    );
}

#[test]
fn constant_without_value_is_malformed() {
    let raw = RawInstruction {
        op: Some("const".to_string()),
        dest: Some("x".to_string()),
        dest_type: Some(Type::Bool),
        ..raw_empty()
    };
    assert_eq!(classify(&raw), Err(ShapeError::MalformedConstant));
}

#[test]
fn constant_with_operands_is_malformed() {
    let raw = RawInstruction {
        op: Some("const".to_string()),
        dest: Some("x".to_string()),
        dest_type: Some(Type::Int),
        value: Some(Literal::Int(1)),
        args: vec!["y".to_string()],
        ..raw_empty()
    };
    assert_eq!(classify(&raw), Err(ShapeError::MalformedConstant));
}

#[test]
fn classifies_a_value_operation() {
    let raw = RawInstruction {
        op: Some("add".to_string()),
        dest: Some("z".to_string()),
        dest_type: Some(Type::Int),
        args: vec!["x".to_string(), "y".to_string()],
        ..raw_empty()
    };
    assert_eq!(
        classify(&raw),
        Ok(Code::Instruction(Instruction::Value {
            op: ValueOps::Add,
            dest: Some("z".to_string()),
            dest_type: Some(Type::Int),
            args: vec!["x".to_string(), "y".to_string()],
            funcs: vec![],
            labels: vec![],
        })),
    );
}

#[test]
fn void_call_keeps_optional_destination_absent() {
    let raw = RawInstruction {
        op: Some("call".to_string()),
        funcs: vec!["helper".to_string()],
        ..raw_empty()
    };
    assert_eq!(
        classify(&raw),
        Ok(Code::Instruction(Instruction::Value {
            op: ValueOps::Call,
            dest: None,
            dest_type: None,
            args: vec![],
            funcs: vec!["helper".to_string()],
            labels: vec![],
        })),
    );
}

#[test]
fn classifies_an_effect_operation() {
    let raw = RawInstruction {
        op: Some("br".to_string()),
        args: vec!["cond".to_string()],
        labels: vec!["then".to_string(), "else".to_string()],
        ..raw_empty()
    };
    assert_eq!(
        classify(&raw),
        Ok(Code::Instruction(Instruction::Effect {
            op: EffectOps::Br,
            args: vec!["cond".to_string()],
            funcs: vec![],
            labels: vec!["then".to_string(), "else".to_string()],
        })),
    );
}

#[test]
fn recognizes_every_opcode_spelling() {
    let value_ops = [
        ("add", ValueOps::Add),
        ("mul", ValueOps::Mul),
        ("sub", ValueOps::Sub),
        ("div", ValueOps::Div),
        ("eq", ValueOps::Eq),
        ("lt", ValueOps::Lt),
        ("gt", ValueOps::Gt),
        ("le", ValueOps::Le),
        ("ge", ValueOps::Ge),
        ("not", ValueOps::Not),
        ("and", ValueOps::And),
        ("or", ValueOps::Or),
        ("call", ValueOps::Call),
        ("id", ValueOps::Id),
        ("alloc", ValueOps::Alloc),
        ("load", ValueOps::Load),
        ("ptradd", ValueOps::PtrAdd),
    ];
    for (spelling, op) in value_ops {
        match classify(&raw_op(spelling)) {
            Ok(Code::Instruction(Instruction::Value { op: got, .. })) => assert_eq!(got, op),
            other => panic!("{} classified as {:?}", spelling, other),
        }
    }
    let effect_ops = [
        ("jmp", EffectOps::Jmp),
        ("br", EffectOps::Br),
        ("ret", EffectOps::Ret),
        ("print", EffectOps::Print),
        ("nop", EffectOps::Nop),
        ("free", EffectOps::Free),
        ("store", EffectOps::Store),
    ];
    for (spelling, op) in effect_ops {
        match classify(&raw_op(spelling)) {
            Ok(Code::Instruction(Instruction::Effect { op: got, .. })) => assert_eq!(got, op),
            other => panic!("{} classified as {:?}", spelling, other),
        }
    }
}

#[test]
fn rejects_an_opcode_outside_every_vocabulary() {
    assert_eq!(classify(&raw_op("frobnicate")), Err(ShapeError::UnknownOpcode));
    assert_eq!(classify(&raw_op("")), Err(ShapeError::UnknownOpcode));
    assert_eq!(classify(&raw_op("Add")), Err(ShapeError::UnknownOpcode));
}

#[test]
fn rejects_an_item_with_neither_label_nor_opcode() {
    assert_eq!(classify(&raw_empty()), Err(ShapeError::MissingOpcode));
}

#[test]
fn classifies_a_stream_and_stops_at_the_first_error() {
    let good = vec![
        RawInstruction { label: Some("entry".to_string()), ..raw_empty() },
        raw_op("nop"),
        raw_op("ret"),
    ];
    let codes = classify_instrs(&good).unwrap();
    assert_eq!(codes.len(), 3);
    assert_eq!(codes[0], Code::Label { label: "entry".to_string() });

    let bad = vec![raw_op("nop"), raw_op("bogus"), raw_empty()];
    assert_eq!(classify_instrs(&bad), Err(ShapeError::UnknownOpcode));
}

#[test]
fn classified_stream_feeds_the_partitioner() {
    let raws = vec![
        RawInstruction { label: Some("top".to_string()), ..raw_empty() },
        RawInstruction {
            op: Some("br".to_string()),
            args: vec!["c".to_string()],
            labels: vec!["top".to_string(), "out".to_string()],
            ..raw_empty()
        },
        RawInstruction { label: Some("out".to_string()), ..raw_empty() },
        raw_op("ret"),
    ];
    let instrs = classify_instrs(&raws).unwrap();
    let f = ir_cfg::Function {
        name: "main".to_string(),
        args: vec![],
        return_type: None,
        instrs,
    };
    let (blocks, successors, _) = f.get_cfg();
    assert_eq!(blocks.len(), 2);
    assert_eq!(blocks[0].label, "top");
    assert_eq!(blocks[1].label, "out");
    assert_eq!(
        successors,
        vec![("top".to_string(), vec!["top".to_string(), "out".to_string()])],
    );
}
