use wat_chop::config::{check_flag, parse_config};
use wat_chop::instructions::{
    index_is_param, index_of_scope_end, name_is_param, DataType, Instruction, LocalIndex,
    MemoryInstructionType, Opcode, StackEffect, StackValue,
};
use wat_chop::text::{indent_string, u64_to_string};
use wat_chop::TransformError;

fn ins(op: Opcode, text: &str) -> Instruction {
    Instruction::default(op, text.to_string())
}

#[test]
fn decimal_rendering() {
    assert_eq!(u64_to_string(0), "0");
    assert_eq!(u64_to_string(7), "7");
    assert_eq!(u64_to_string(42), "42");
    assert_eq!(u64_to_string(63), "63");
    assert_eq!(u64_to_string(18446744073709551615), "18446744073709551615");
}

#[test]
fn indentation_is_two_spaces_per_level() {
    assert_eq!(indent_string(0), "");
    assert_eq!(indent_string(1), "  ");
    assert_eq!(indent_string(3), "      ");
}

#[test]
fn data_type_mnemonics() {
    assert_eq!(DataType::I32.as_str(), "i32");
    assert_eq!(DataType::I64.as_str(), "i64");
    assert_eq!(DataType::F32.as_str(), "f32");
    assert_eq!(DataType::F64.as_str(), "f64");
}

#[test]
fn parameter_recognition() {
    assert!(index_is_param(0));
    assert!(index_is_param(2));
    assert!(!index_is_param(3));
    assert!(name_is_param("tx"));
    assert!(name_is_param("state"));
    assert!(!name_is_param("counter"));
}

#[test]
fn local_get_of_parameter_pushes_safe_value() {
    let mut stack: Vec<StackValue> = Vec::new();
    let eff = StackEffect::from_opcode(&Opcode::LocalGet(LocalIndex::Num(0)), &[])
        .ok()
        .expect("supported");
    eff.update_stack(&mut stack).ok().expect("no underflow");
    assert_eq!(stack.len(), 1);
    assert!(stack[0].is_safe);
    assert_eq!(stack[0].ty, DataType::I32);
}

#[test]
fn eqz_preserves_safety_and_add_clears_it() {
    let mut stack: Vec<StackValue> = Vec::new();
    let get = StackEffect::from_opcode(&Opcode::LocalGet(LocalIndex::Num(1)), &[]).unwrap();
    get.update_stack(&mut stack).unwrap();
    let eqz = StackEffect::from_opcode(&Opcode::I32Eqz, &[]).unwrap();
    eqz.update_stack(&mut stack).unwrap();
    assert!(stack[0].is_safe);
    let get2 = StackEffect::from_opcode(&Opcode::LocalGet(LocalIndex::Num(2)), &[]).unwrap();
    get2.update_stack(&mut stack).unwrap();
    let add = StackEffect::from_opcode(&Opcode::I32Add, &[]).unwrap();
    add.update_stack(&mut stack).unwrap();
    assert_eq!(stack.len(), 1);
    assert!(!stack[0].is_safe);
}

#[test]
fn local_get_reads_declared_local_types() {
    let locals = [DataType::I64];
    let eff = StackEffect::from_opcode(&Opcode::LocalGet(LocalIndex::Num(3)), &locals).unwrap();
    let mut stack: Vec<StackValue> = Vec::new();
    eff.update_stack(&mut stack).unwrap();
    assert_eq!(stack[0].ty, DataType::I64);
    assert!(!stack[0].is_safe);
}

#[test]
fn named_locals_default_to_i32_with_name_safety() {
    let eff = StackEffect::from_opcode(
        &Opcode::LocalGet(LocalIndex::Id("tx".to_string())),
        &[],
    )
    .unwrap();
    let mut stack: Vec<StackValue> = Vec::new();
    eff.update_stack(&mut stack).unwrap();
    assert_eq!(stack[0].ty, DataType::I32);
    assert!(stack[0].is_safe);
}

#[test]
fn unsupported_opcode_is_reported_by_the_classifier() {
    let r = StackEffect::from_opcode(&Opcode::Unsupported("memory.grow".to_string()), &[]);
    match r {
        Err(TransformError::UnsupportedOpcode(m)) => assert_eq!(m, "memory.grow"),
        _ => panic!("the classifier must reject an unsupported opcode"),
    }
}

#[test]
fn return_clears_the_stack() {
    let mut stack = vec![
        StackValue { ty: DataType::I32, is_safe: true },
        StackValue { ty: DataType::I64, is_safe: false },
    ];
    StackEffect::Return.update_stack(&mut stack).unwrap();
    assert!(stack.is_empty());
}

#[test]
fn update_stack_reports_underflow() {
    let mut stack: Vec<StackValue> = Vec::new();
    let add = StackEffect::from_opcode(&Opcode::I32Add, &[]).unwrap();
    match add.update_stack(&mut stack) {
        Err(TransformError::UnbalancedStack) => {},
        _ => panic!("popping an empty stack must fail"),
    }
}

#[test]
fn scope_end_is_found_and_balanced() {
    let seq1 = vec![ins(Opcode::End, "end")];
    assert_eq!(index_of_scope_end(&seq1).ok(), Some(0));
    let seq2 = vec![
        ins(Opcode::Block(None), "block"),
        ins(Opcode::I32Const, "i32.const 1"),
        ins(Opcode::End, "end"),
        ins(Opcode::End, "end"),
    ];
    assert_eq!(index_of_scope_end(&seq2).ok(), Some(3));
    let seq3 = vec![ins(Opcode::Block(None), "block"), ins(Opcode::End, "end")];
    match index_of_scope_end(&seq3) {
        Err(TransformError::UnbalancedScope) => {},
        _ => panic!("an unterminated scope must be reported"),
    }
}

#[test]
fn needs_split_honours_safety_and_elision() {
    let load = MemoryInstructionType::Load { ty: DataType::I32, offset: 0 };
    let safe_stack = vec![StackValue { ty: DataType::I32, is_safe: true }];
    let unsafe_stack = vec![StackValue { ty: DataType::I32, is_safe: false }];
    assert_eq!(load.needs_split(&safe_stack, true).ok(), Some(false));
    assert_eq!(load.needs_split(&unsafe_stack, true).ok(), Some(true));
    assert_eq!(load.needs_split(&safe_stack, false).ok(), Some(true));
    let store = MemoryInstructionType::Store { ty: DataType::I32, offset: 0 };
    let half_safe = vec![
        StackValue { ty: DataType::I32, is_safe: false },
        StackValue { ty: DataType::I32, is_safe: true },
    ];
    assert_eq!(store.needs_split(&half_safe, true).ok(), Some(true));
    let both_safe = vec![
        StackValue { ty: DataType::I32, is_safe: true },
        StackValue { ty: DataType::I32, is_safe: true },
    ];
    assert_eq!(store.needs_split(&both_safe, true).ok(), Some(false));
}

#[test]
fn parse_config_takes_path_and_flags() {
    let args = vec![
        "chopper".to_string(),
        "-p".to_string(),
        "input.wat".to_string(),
        "--skip-safe".to_string(),
    ];
    let c = parse_config(args).expect("a path is present");
    assert_eq!(c.file_path, "input.wat");
    assert!(c.print);
    assert!(c.skip_safe);
}

#[test]
fn parse_config_without_path_yields_nothing() {
    assert!(parse_config(vec!["chopper".to_string(), "-p".to_string()]).is_none());
    assert!(parse_config(Vec::new()).is_none());
}

#[test]
fn check_flag_removes_first_occurrence() {
    let mut args = vec!["-p".to_string(), "x".to_string()];
    assert!(check_flag(&mut args, "-p"));
    assert_eq!(args, vec!["x".to_string()]);
    assert!(!check_flag(&mut args, "-p"));
    assert_eq!(args, vec!["x".to_string()]);
}

#[test]
fn unclosed_block_is_an_unbalanced_scope() {
    let sig = wat_chop::module::Signature {
        parameters: vec![
            wat_chop::module::FuncParameter { id: None, val_type: DataType::I32 },
            wat_chop::module::FuncParameter { id: None, val_type: DataType::I32 },
            wat_chop::module::FuncParameter { id: None, val_type: DataType::I32 },
        ],
        results: vec![DataType::I32],
    };
    let r = wat_chop::module::Function::new(
        "foo".to_string(),
        sig,
        Vec::new(),
        vec![ins(Opcode::Block(None), "block"), ins(Opcode::Return, "return")],
        Vec::new(),
    );
    match r {
        Err(TransformError::UnbalancedScope) => {},
        _ => panic!("a body that leaves a block open must be rejected"),
    }
}

#[test]
fn stack_underflow_is_reported_at_build_time() {
    let sig = wat_chop::module::Signature {
        parameters: vec![
            wat_chop::module::FuncParameter { id: None, val_type: DataType::I32 },
            wat_chop::module::FuncParameter { id: None, val_type: DataType::I32 },
            wat_chop::module::FuncParameter { id: None, val_type: DataType::I32 },
        ],
        results: vec![DataType::I32],
    };
    let r = wat_chop::module::Function::new(
        "foo".to_string(),
        sig,
        Vec::new(),
        vec![ins(Opcode::I32Add, "i32.add", )],
        Vec::new(),
    );
    match r {
        Err(TransformError::UnbalancedStack) => {},
        _ => panic!("popping an empty stack must be rejected"),
    }
}

#[test]
fn line_lookup_by_byte_offset() {
    let lines: Vec<String> = vec!["(module".to_string(), "  (func)".to_string(), ")".to_string()];
    // Offsets 0..7 sit in the first line, 8..16 in the second, 17.. in the third.
    assert_eq!(wat_chop::text::get_line_from_offset(&lines, 0), 0);
    assert_eq!(wat_chop::text::get_line_from_offset(&lines, 7), 0);
    assert_eq!(wat_chop::text::get_line_from_offset(&lines, 8), 1);
    assert_eq!(wat_chop::text::get_line_from_offset(&lines, 16), 1);
    assert_eq!(wat_chop::text::get_line_from_offset(&lines, 17), 2);
    assert_eq!(wat_chop::text::get_line_from_offset(&lines, 999), 2);
}

#[test]
fn paren_counting_reports_extra_closers() {
    assert_eq!(wat_chop::text::count_parens("(export \"x\" (func 0)))"), 1);
    assert_eq!(wat_chop::text::count_parens("(global i32)"), 0);
    assert_eq!(wat_chop::text::count_parens(")))"), 3);
    assert_eq!(wat_chop::text::count_parens("((("), 0);
}
