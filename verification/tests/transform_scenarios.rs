use wat_chop::instructions::{DataType, Instruction, LocalIndex, Opcode};
use wat_chop::module::{FuncParameter, Function, Module, Signature};
use wat_chop::transform::emit_transformed_wat;
use wat_chop::TransformError;

fn ins(op: Opcode, text: &str, idx: usize) -> Instruction {
    Instruction::new(op, text.to_string(), idx, Vec::new(), Vec::new())
}

fn utx_signature() -> Signature {
    Signature {
        parameters: vec![
            FuncParameter { id: None, val_type: DataType::I32 },
            FuncParameter { id: None, val_type: DataType::I32 },
            FuncParameter { id: None, val_type: DataType::I32 },
        ],
        results: vec![DataType::I32],
    }
}

fn func(name: &str, instructions: Vec<Instruction>) -> Function {
    Function::new(name.to_string(), utx_signature(), Vec::new(), instructions, Vec::new())
        .ok()
        .expect("function should build")
}

fn single_module(f: Function) -> Module {
    Module { functions: vec![f], module_members: Vec::new() }
}

fn has_line(out: &[String], text: &str) -> bool {
    out.iter().any(|l| l.trim() == text)
}

fn count_lines(out: &[String], text: &str) -> usize {
    out.iter().filter(|l| l.trim() == text).count()
}

#[test]
fn safe_load_is_not_split_under_elision() {
    // A load whose address comes straight from parameter 0 stays in place
    // when safe-split elision is on.
    let f = func(
        "foo",
        vec![
            ins(Opcode::LocalGet(LocalIndex::Num(0)), "local.get 0", 1),
            ins(Opcode::I32Load(0), "i32.load", 2),
            ins(Opcode::Return, "return", 3),
        ],
    );
    let e = emit_transformed_wat(&single_module(f), true, false).ok().expect("transform");
    assert_eq!(e.utx_function_names.len(), 1);
    assert_eq!(e.utx_function_names[0].1, "foo");
    assert!(has_line(&e.output, "i32.load"));
    assert!(!has_line(&e.output, "i32.store8 offset=63"));
    assert!(!e.output.iter().any(|l| l.contains("foo_1")));
}

#[test]
fn load_splits_without_elision() {
    let f = func(
        "foo",
        vec![
            ins(Opcode::LocalGet(LocalIndex::Num(0)), "local.get 0", 1),
            ins(Opcode::I32Load(0), "i32.load", 2),
            ins(Opcode::Return, "return", 3),
        ],
    );
    let e = emit_transformed_wat(&single_module(f), false, false).ok().expect("transform");
    // One split: the entry at table position 0, its continuation at 1.
    assert_eq!(e.utx_function_names.len(), 2);
    assert_eq!(e.utx_function_names[1].0, 2);
    assert_eq!(e.utx_function_names[1].1, "foo_1");
    // The suspension tail sets the needs-memory flag and returns index 2.
    assert!(has_line(&e.output, "i32.store8 offset=63"));
    assert!(has_line(&e.output, "i32.const 1"));
    assert!(has_line(&e.output, "i32.const 2"));
    // The deferred microtransaction restores the address and replays.
    let sig_at = e
        .output
        .iter()
        .position(|l| l.contains("(func $foo_1 "))
        .expect("deferred microtransaction emitted");
    let rest: Vec<String> = e.output[sig_at..].to_vec();
    assert!(has_line(&rest, "local.get $utx"));
    let loads = count_lines(&rest, "i32.load");
    assert!(loads >= 2, "replay reads the address, then the data");
}

#[test]
fn unsafe_address_still_splits_under_elision() {
    // The add clears safety, so elision does not apply.
    let f = func(
        "foo",
        vec![
            ins(Opcode::LocalGet(LocalIndex::Num(0)), "local.get 0", 1),
            ins(Opcode::I32Const, "i32.const 4", 2),
            ins(Opcode::I32Add, "i32.add", 3),
            ins(Opcode::I32Load(0), "i32.load", 4),
            ins(Opcode::Return, "return", 5),
        ],
    );
    let e = emit_transformed_wat(&single_module(f), true, false).ok().expect("transform");
    assert_eq!(e.utx_function_names.len(), 2);
    assert!(has_line(&e.output, "i32.store8 offset=63"));
}

#[test]
fn two_loads_two_entries_and_indices() {
    let f = func(
        "foo",
        vec![
            ins(Opcode::LocalGet(LocalIndex::Num(0)), "local.get 0", 1),
            ins(Opcode::I32Load(0), "i32.load", 2),
            ins(Opcode::Drop, "drop", 3),
            ins(Opcode::LocalGet(LocalIndex::Num(1)), "local.get 1", 4),
            ins(Opcode::I32Load(4), "i32.load offset=4", 5),
            ins(Opcode::Return, "return", 6),
        ],
    );
    let e = emit_transformed_wat(&single_module(f), false, false).ok().expect("transform");
    // Entry, first continuation, second continuation.
    assert_eq!(e.utx_function_names.len(), 3);
    assert_eq!(e.utx_function_names[1].0, 2);
    assert_eq!(e.utx_function_names[2].0, 5);
    assert!(has_line(&e.output, "i32.const 2"));
    assert!(has_line(&e.output, "i32.const 3"));
}

#[test]
fn same_offset_shares_entry() {
    // Two loads carrying the same source offset (possible only in synthetic
    // input) must share one table entry and one microtransaction.
    let f = func(
        "foo",
        vec![
            ins(Opcode::LocalGet(LocalIndex::Num(0)), "local.get 0", 1),
            ins(Opcode::I32Load(0), "i32.load", 5),
            ins(Opcode::Drop, "drop", 3),
            ins(Opcode::LocalGet(LocalIndex::Num(0)), "local.get 0", 4),
            ins(Opcode::I32Load(0), "i32.load", 5),
            ins(Opcode::Return, "return", 6),
        ],
    );
    let e = emit_transformed_wat(&single_module(f), false, false).ok().expect("transform");
    assert_eq!(e.utx_function_names.len(), 2);
}

#[test]
fn distinct_offsets_get_distinct_microtransactions() {
    let f = func(
        "foo",
        vec![
            ins(Opcode::LocalGet(LocalIndex::Num(0)), "local.get 0", 1),
            ins(Opcode::I32Load(0), "i32.load", 5),
            ins(Opcode::Drop, "drop", 3),
            ins(Opcode::LocalGet(LocalIndex::Num(0)), "local.get 0", 4),
            ins(Opcode::I32Load(0), "i32.load", 6),
            ins(Opcode::Return, "return", 7),
        ],
    );
    let e = emit_transformed_wat(&single_module(f), false, false).ok().expect("transform");
    assert_eq!(e.utx_function_names.len(), 3);
}

#[test]
fn block_split_defers_load_and_tail() {
    // (block local.get 0 i32.load end) i32.const 7
    let f = func(
        "foo",
        vec![
            ins(Opcode::Block(None), "block", 1),
            ins(Opcode::LocalGet(LocalIndex::Num(0)), "local.get 0", 2),
            ins(Opcode::I32Load(0), "i32.load", 3),
            ins(Opcode::End, "end", 4),
            ins(Opcode::I32Const, "i32.const 7", 5),
            ins(Opcode::Return, "return", 6),
        ],
    );
    let e = emit_transformed_wat(&single_module(f), false, false).ok().expect("transform");
    // Entry, the load's continuation, and the post-scope tail.
    assert_eq!(e.utx_function_names.len(), 3);
    assert_eq!(e.utx_function_names[1].1, "foo_1");
    assert_eq!(e.utx_function_names[2].1, "foo_2");
    // The tail is keyed by the matching end.
    assert_eq!(e.utx_function_names[2].0, 4);
    assert!(e.output.iter().any(|l| l.contains("(func $foo_1 ")));
    assert!(e.output.iter().any(|l| l.contains("(func $foo_2 ")));
    // The load's continuation re-opens the block.
    let sig_at = e.output.iter().position(|l| l.contains("(func $foo_1 ")).unwrap();
    assert!(e.output[sig_at..].iter().any(|l| l.trim() == "(block"));
    // The entry suspends with an explicit return inside the block.
    assert!(has_line(&e.output, "return"));
    assert!(has_line(&e.output, "i32.const 7"));
}

#[test]
fn block_label_is_preserved_in_restore() {
    let f = func(
        "foo",
        vec![
            ins(Opcode::Block(Some("exit".to_string())), "block $exit", 1),
            ins(Opcode::LocalGet(LocalIndex::Num(0)), "local.get 0", 2),
            ins(Opcode::I32Load(0), "i32.load", 3),
            ins(Opcode::End, "end", 4),
            ins(Opcode::Return, "return", 5),
        ],
    );
    let e = emit_transformed_wat(&single_module(f), false, false).ok().expect("transform");
    let sig_at = e.output.iter().position(|l| l.contains("(func $foo_1 ")).unwrap();
    assert!(e.output[sig_at..].iter().any(|l| l.trim() == "(block $exit"));
}

#[test]
fn unsupported_opcode_fails_the_build() {
    let r = Function::new(
        "foo".to_string(),
        utx_signature(),
        Vec::new(),
        vec![
            ins(Opcode::F32Const, "f32.const 1", 1),
            ins(Opcode::F32Const, "f32.const 2", 2),
            ins(Opcode::Unsupported("f32.add".to_string()), "f32.add", 3),
        ],
        Vec::new(),
    );
    match r {
        Err(TransformError::UnsupportedOpcode(m)) => assert_eq!(m, "f32.add"),
        _ => panic!("an unsupported opcode must be reported"),
    }
}

#[test]
fn ignored_function_passes_through_verbatim() {
    let f = Function::new(
        "plain".to_string(),
        Signature {
            parameters: vec![FuncParameter { id: None, val_type: DataType::I64 }],
            results: vec![DataType::I32],
        },
        Vec::new(),
        vec![ins(Opcode::Return, "return", 1)],
        vec!["(func $plain (param i64) (result i32)".to_string(), ")".to_string()],
    )
    .ok()
    .expect("function should build");
    assert!(f.ignore());
    let e = emit_transformed_wat(&single_module(f), false, false).ok().expect("transform");
    assert_eq!(e.utx_function_names.len(), 0);
    assert!(has_line(&e.output, "(func $plain (param i64) (result i32)"));
}

#[test]
fn module_members_pass_through() {
    let m = Module {
        functions: Vec::new(),
        module_members: vec!["(export \"run\" (func $foo))".to_string()],
    };
    let e = emit_transformed_wat(&m, false, false).ok().expect("transform");
    assert_eq!(e.output.first().unwrap(), "(module");
    assert_eq!(e.output.last().unwrap(), ")");
    assert!(has_line(&e.output, "(export \"run\" (func $foo))"));
}

#[test]
fn store_split_saves_value_and_address() {
    let f = func(
        "foo",
        vec![
            ins(Opcode::LocalGet(LocalIndex::Num(0)), "local.get 0", 1),
            ins(Opcode::LocalGet(LocalIndex::Num(1)), "local.get 1", 2),
            ins(Opcode::I32Store(8), "i32.store offset=8", 3),
            ins(Opcode::Return, "return", 4),
        ],
    );
    let e = emit_transformed_wat(&single_module(f), false, false).ok().expect("transform");
    assert_eq!(e.utx_function_names.len(), 2);
    assert!(has_line(&e.output, "local.set $i32_juggler"));
    assert!(has_line(&e.output, "local.set $address"));
    assert!(has_line(&e.output, "i32.const 8"));
    // The replay loads the value back from the state record and stores it.
    let sig_at = e.output.iter().position(|l| l.contains("(func $foo_1 ")).unwrap();
    let rest: Vec<String> = e.output[sig_at..].to_vec();
    assert!(has_line(&rest, "local.get $state"));
    assert!(has_line(&rest, "i32.store"));
}

#[test]
fn empty_stack_return_yields_null_constant() {
    let f = func(
        "foo",
        vec![
            ins(Opcode::Return, "return", 1),
        ],
    );
    let e = emit_transformed_wat(&single_module(f), false, true).ok().expect("transform");
    assert!(e.output.iter().any(|l| l.contains("i32.const 0")));
    assert!(e.output.iter().any(|l| l.contains(";; Return NULL")));
}

#[test]
fn annotations_dropped_without_explain() {
    let f = func(
        "foo",
        vec![
            ins(Opcode::Return, "return", 1),
        ],
    );
    let e = emit_transformed_wat(&single_module(f), false, false).ok().expect("transform");
    assert!(!e.output.iter().any(|l| l.contains(";;")));
}
