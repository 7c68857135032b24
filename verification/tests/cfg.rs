use ir_cfg::{BasicBlock, Code, ConstOps, EffectOps, Function, Instruction, Literal, Type, ValueOps};

fn label(text: &str) -> Code {
    Code::Label { label: text.to_string() }
}

fn constant(dest: &str, value: i64) -> Code {
    Code::Instruction(Instruction::Constant {
        op: ConstOps::Const,
        dest: dest.to_string(),
        dest_type: Type::Int,
        value: Literal::Int(value),
    })
}

fn value_op(op: ValueOps, dest: &str, args: Vec<&str>) -> Code {
    Code::Instruction(Instruction::Value {
        op,
        dest: Some(dest.to_string()),
        dest_type: Some(Type::Int),
        args: args.into_iter().map(|a| a.to_string()).collect(),
        funcs: vec![],
        labels: vec![],
    })
}

fn effect(op: EffectOps, args: Vec<&str>, labels: Vec<&str>) -> Code {
    Code::Instruction(Instruction::Effect {
        op,
        args: args.into_iter().map(|a| a.to_string()).collect(),
        funcs: vec![],
        labels: labels.into_iter().map(|l| l.to_string()).collect(),
    })
}

fn func(name: &str, instrs: Vec<Code>) -> Function {
    Function { name: name.to_string(), args: vec![], return_type: None, instrs }
}

fn block_shapes(blocks: &[BasicBlock]) -> Vec<(String, Vec<usize>)> {
    blocks.iter().map(|b| (b.label.clone(), b.instrs.clone())).collect()
}

fn edge_map(entries: Vec<(&str, Vec<&str>)>) -> Vec<(String, Vec<String>)> {
    entries
        .into_iter()
        .map(|(k, ts)| (k.to_string(), ts.into_iter().map(|t| t.to_string()).collect()))
        .collect()
}

#[test]
fn straight_line_single_entry_block() {
    let f = func(
        "main",
        vec![
            constant("x", 4),
            constant("y", 2),
            value_op(ValueOps::Add, "z", vec!["x", "y"]),
            effect(EffectOps::Ret, vec![], vec![]),
        ],
    );
    let blocks = f.get_basic_blocks();
    assert_eq!(block_shapes(&blocks), vec![("entry".to_string(), vec![0, 1, 2, 3])]);
    let (successors, predecessors) = f.get_edges(&blocks);
    assert_eq!(successors, edge_map(vec![]));
    assert_eq!(predecessors, edge_map(vec![]));
}

#[test]
fn loop_and_exit_blocks() {
    let f = func(
        "main",
        vec![
            label("loop"),
            effect(EffectOps::Br, vec!["cond"], vec!["loop", "exit"]),
            label("exit"),
            effect(EffectOps::Ret, vec![], vec![]),
        ],
    );
    let blocks = f.get_basic_blocks();
    assert_eq!(
        block_shapes(&blocks),
        vec![("loop".to_string(), vec![1]), ("exit".to_string(), vec![3])],
    );
    let (successors, predecessors) = f.get_edges(&blocks);
    assert_eq!(successors, edge_map(vec![("loop", vec!["loop", "exit"])]));
    assert_eq!(
        predecessors,
        edge_map(vec![("loop", vec!["loop"]), ("exit", vec!["loop"])]),
    );
}

#[test]
fn no_terminator_falls_off_the_end() {
    let f = func(
        "main",
        vec![
            effect(EffectOps::Print, vec!["x"], vec![]),
            effect(EffectOps::Print, vec!["y"], vec![]),
        ],
    );
    let blocks = f.get_basic_blocks();
    assert_eq!(block_shapes(&blocks), vec![("entry".to_string(), vec![0, 1])]);
    let (successors, predecessors) = f.get_edges(&blocks);
    assert_eq!(successors, edge_map(vec![]));
    assert_eq!(predecessors, edge_map(vec![]));
}

#[test]
fn trailing_jump_synthesizes_empty_block() {
    let f = func("f", vec![effect(EffectOps::Jmp, vec![], vec!["next"])]);
    let blocks = f.get_basic_blocks();
    assert_eq!(
        block_shapes(&blocks),
        vec![("entry".to_string(), vec![0]), ("f_bb1".to_string(), vec![])],
    );
    let (successors, predecessors) = f.get_edges(&blocks);
    assert_eq!(successors, edge_map(vec![("entry", vec!["next"])]));
    assert_eq!(predecessors, edge_map(vec![("next", vec!["entry"])]));
}

#[test]
fn counts_add_ops_only() {
    let f = func(
        "main",
        vec![
            value_op(ValueOps::Add, "a", vec!["x", "y"]),
            value_op(ValueOps::Mul, "b", vec!["a", "a"]),
            value_op(ValueOps::Add, "c", vec!["b", "x"]),
            value_op(ValueOps::Add, "d", vec!["c", "y"]),
        ],
    );
    assert_eq!(f.count_add_ops(), 3);
    assert_eq!(f.count_value_ops(ValueOps::Mul), 1);
    assert_eq!(f.count_value_ops(ValueOps::Sub), 0);
}

#[test]
fn trailing_label_names_empty_block() {
    let f = func(
        "main",
        vec![effect(EffectOps::Print, vec!["x"], vec![]), label("end")],
    );
    let blocks = f.get_basic_blocks();
    assert_eq!(
        block_shapes(&blocks),
        vec![("entry".to_string(), vec![0]), ("end".to_string(), vec![])],
    );
    let (successors, predecessors) = f.get_edges(&blocks);
    assert_eq!(successors, edge_map(vec![("entry", vec!["end"])]));
    assert_eq!(predecessors, edge_map(vec![("end", vec!["entry"])]));
}

#[test]
fn empty_function_yields_no_blocks() {
    let f = func("main", vec![]);
    let blocks = f.get_basic_blocks();
    assert!(blocks.is_empty());
    let (successors, predecessors) = f.get_edges(&blocks);
    assert!(successors.is_empty());
    assert!(predecessors.is_empty());
}

#[test]
fn consecutive_labels_keep_only_the_last() {
    let f = func(
        "main",
        vec![label("first"), label("second"), effect(EffectOps::Ret, vec![], vec![])],
    );
    let blocks = f.get_basic_blocks();
    assert_eq!(block_shapes(&blocks), vec![("second".to_string(), vec![2])]);
}

#[test]
fn ret_between_instructions_synthesizes_label() {
    let f = func(
        "g",
        vec![effect(EffectOps::Ret, vec![], vec![]), constant("x", 1)],
    );
    let blocks = f.get_basic_blocks();
    assert_eq!(
        block_shapes(&blocks),
        vec![("entry".to_string(), vec![0]), ("g_bb1".to_string(), vec![1])],
    );
}

#[test]
fn trailing_ret_leaves_no_extra_block() {
    let f = func(
        "main",
        vec![constant("x", 1), effect(EffectOps::Ret, vec![], vec![])],
    );
    let blocks = f.get_basic_blocks();
    assert_eq!(block_shapes(&blocks), vec![("entry".to_string(), vec![0, 1])]);
}

#[test]
fn two_runs_agree_exactly() {
    let f = func(
        "main",
        vec![
            label("loop"),
            effect(EffectOps::Br, vec!["cond"], vec!["loop", "exit"]),
            label("exit"),
            effect(EffectOps::Ret, vec![], vec![]),
        ],
    );
    let blocks1 = f.get_basic_blocks();
    let blocks2 = f.get_basic_blocks();
    assert_eq!(blocks1, blocks2);
    let edges1 = f.get_edges(&blocks1);
    let edges2 = f.get_edges(&blocks2);
    assert_eq!(edges1, edges2);
}

#[test]
fn concatenated_blocks_reproduce_non_label_stream() {
    let f = func(
        "main",
        vec![
            constant("x", 1),
            label("a"),
            effect(EffectOps::Jmp, vec![], vec!["b"]),
            label("b"),
            constant("y", 2),
            effect(EffectOps::Print, vec!["y"], vec![]),
            label("tail"),
        ],
    );
    let blocks = f.get_basic_blocks();
    let mut concatenated: Vec<usize> = vec![];
    for b in &blocks {
        concatenated.extend(b.instrs.iter().copied());
    }
    let non_label_positions: Vec<usize> = (0..f.instrs.len())
        .filter(|&i| !matches!(f.instrs[i], Code::Label { .. }))
        .collect();
    assert_eq!(concatenated, non_label_positions);
}

#[test]
fn block_labels_are_unique() {
    let f = func(
        "main",
        vec![
            constant("x", 1),
            effect(EffectOps::Jmp, vec![], vec!["a"]),
            label("a"),
            effect(EffectOps::Br, vec!["c"], vec!["a", "b"]),
            constant("y", 2),
            label("b"),
            effect(EffectOps::Ret, vec![], vec![]),
        ],
    );
    let blocks = f.get_basic_blocks();
    for i in 0..blocks.len() {
        for j in (i + 1)..blocks.len() {
            assert_ne!(blocks[i].label, blocks[j].label);
        }
    }
}

#[test]
fn non_final_blocks_terminate_or_fall_through() {
    let f = func(
        "main",
        vec![
            constant("x", 1),
            label("mid"),
            constant("y", 2),
            label("tail"),
            effect(EffectOps::Print, vec!["y"], vec![]),
        ],
    );
    let blocks = f.get_basic_blocks();
    let (successors, _) = f.get_edges(&blocks);
    for j in 0..blocks.len() - 1 {
        let last_is_terminator = blocks[j]
            .instrs
            .last()
            .map(|&p| f.instrs[p].is_terminator())
            .unwrap_or(false);
        if !last_is_terminator {
            let entry = successors.iter().find(|(k, _)| *k == blocks[j].label);
            assert_eq!(
                entry.map(|(_, ts)| ts.clone()),
                Some(vec![blocks[j + 1].label.clone()]),
            );
        }
    }
}

#[test]
fn successor_and_predecessor_maps_are_dual() {
    let f = func(
        "main",
        vec![
            label("a"),
            effect(EffectOps::Br, vec!["c"], vec!["a", "b"]),
            label("b"),
            constant("x", 1),
            label("c"),
            effect(EffectOps::Jmp, vec![], vec!["a"]),
        ],
    );
    let blocks = f.get_basic_blocks();
    let (successors, predecessors) = f.get_edges(&blocks);
    for (src, targets) in &successors {
        for tgt in targets {
            let entry = predecessors.iter().find(|(k, _)| k == tgt);
            assert!(entry.map(|(_, ps)| ps.contains(src)).unwrap_or(false));
        }
    }
    for (tgt, sources) in &predecessors {
        for src in sources {
            let entry = successors.iter().find(|(k, _)| k == src);
            assert!(entry.map(|(_, ts)| ts.contains(tgt)).unwrap_or(false));
        }
    }
}

#[test]
fn ret_ignores_any_labels_it_carries() {
    let f = func(
        "main",
        vec![effect(EffectOps::Ret, vec![], vec!["x"]), label("x")],
    );
    let blocks = f.get_basic_blocks();
    let (successors, predecessors) = f.get_edges(&blocks);
    assert_eq!(successors, edge_map(vec![]));
    assert_eq!(predecessors, edge_map(vec![]));
}

#[test]
fn branch_may_repeat_a_target() {
    let f = func(
        "main",
        vec![label("top"), effect(EffectOps::Br, vec!["c"], vec!["top", "top"])],
    );
    let blocks = f.get_basic_blocks();
    let (successors, predecessors) = f.get_edges(&blocks);
    assert_eq!(successors, edge_map(vec![("top", vec!["top", "top"])]));
    assert_eq!(predecessors, edge_map(vec![("top", vec!["top", "top"])]));
}

#[test]
fn synthesized_labels_use_decimal_positions() {
    let mut instrs = vec![];
    for k in 0..11 {
        let target = format!("l{}", k);
        instrs.push(effect(EffectOps::Jmp, vec![], vec![target.as_str()]));
    }
    let f = func("g", instrs);
    let blocks = f.get_basic_blocks();
    assert_eq!(blocks.len(), 12);
    assert_eq!(blocks[0].label, "entry");
    assert_eq!(blocks[1].label, "g_bb1");
    assert_eq!(blocks[10].label, "g_bb10");
    assert_eq!(blocks[11].label, "g_bb11");
    assert!(blocks[11].instrs.is_empty());
}

#[test]
fn dot_output_sanitizes_and_keeps_missing_targets() {
    let f = func(
        "main",
        vec![label("a.b"), effect(EffectOps::Jmp, vec![], vec!["a.b"])],
    );
    let blocks = f.get_basic_blocks();
    let (successors, _) = f.get_edges(&blocks);
    let text = f.cfg_dot(&blocks, &successors);
    assert_eq!(
        text,
        "digraph main {\n\ta_b;\n\tmain_bb1;\n\ta_b -> a_b;\n}\n",
    );

    let g = func("g", vec![effect(EffectOps::Jmp, vec![], vec!["missing"])]);
    let gblocks = g.get_basic_blocks();
    let (gsucc, _) = g.get_edges(&gblocks);
    let gtext = g.cfg_dot(&gblocks, &gsucc);
    assert_eq!(
        gtext,
        "digraph g {\n\tentry;\n\tg_bb1;\n\tentry -> missing;\n}\n",
    );
}

#[test]
fn get_cfg_matches_separate_calls() {
    let f = func(
        "main",
        vec![
            label("loop"),
            effect(EffectOps::Br, vec!["cond"], vec!["loop", "exit"]),
            label("exit"),
            effect(EffectOps::Ret, vec![], vec![]),
        ],
    );
    let (blocks, successors, predecessors) = f.get_cfg();
    let blocks2 = f.get_basic_blocks();
    let (succ2, pred2) = f.get_edges(&blocks2);
    assert_eq!(blocks, blocks2);
    assert_eq!(successors, succ2);
    assert_eq!(predecessors, pred2);
}

#[test]
fn classifies_items_by_kind() {
    let l = label("spot");
    assert!(l.is_label());
    assert_eq!(l.get_label(), "spot");
    assert!(!l.is_terminator());

    let ret = effect(EffectOps::Ret, vec![], vec![]);
    assert!(!ret.is_label());
    assert_eq!(ret.get_label(), "");
    assert!(ret.is_terminator());
    assert!(!ret.is_jump());

    let jmp = effect(EffectOps::Jmp, vec![], vec!["a"]);
    assert!(jmp.is_terminator());
    assert!(jmp.is_jump());

    let br = effect(EffectOps::Br, vec!["c"], vec!["a", "b"]);
    assert!(br.is_terminator());
    assert!(br.is_jump());

    let print = effect(EffectOps::Print, vec!["x"], vec![]);
    assert!(!print.is_terminator());

    let add = value_op(ValueOps::Add, "z", vec!["x", "y"]);
    assert!(!add.is_terminator());
    assert!(!add.is_label());
}
