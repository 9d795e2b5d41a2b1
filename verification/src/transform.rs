//! The instruction walk that emits each microtransaction's body, decides
//! where to split, and the top-level driver over a module's functions.

use vstd::prelude::*;
use vstd::string::StringExecFns;

use crate::emit::{
    spec_func_signature, spec_local_decl_lines, spec_local_save_lines, spec_reserved_local_lines,
    spec_save_desc, WatEmitter, MAX_SAVED_SLOTS,
};
use crate::instructions::{
    spec_instruction_type, BenignInstructionType, BlockInstructionType, DataType, Instruction,
    InstructionType,
};
use crate::module::{function_wf, instrs_ok, spec_ignore, Function, Module};
use crate::split::{ds_ok, ds_registered, handle_defered_split, setup_split, DeferredSplit};
use crate::text::{spec_indent, spec_line};
use crate::TransformError;

verus! {

/// The lines that open a transformed function: its microtransaction
/// signature, its own local declarations, and the reserved locals.
pub open spec fn spec_setup_func_lines(name: Seq<char>, locals: Seq<DataType>) -> Seq<Seq<char>> {
    seq![spec_indent(1) + spec_func_signature(name)] + spec_local_decl_lines(
        locals,
        locals.len() as int,
    ) + spec_reserved_local_lines()
}

/// Emits a microtransaction's signature and local declarations.
pub fn setup_func(name: &str, locals: &Vec<DataType>, transformer: &mut WatEmitter)
    ensures
        final(transformer).lines() == old(transformer).lines() + spec_setup_func_lines(
            name@,
            locals@,
        ),
        old(transformer).same_config(*final(transformer)),
        final(transformer).utx_function_names@ == old(transformer).utx_function_names@,
        final(transformer).const_refs@ == old(transformer).const_refs@,
        final(transformer).emitted_funcs@ == old(transformer).emitted_funcs@.push((name@, false)),
{
    transformer.emit_utx_func_signature(name);
    transformer.emit_locals(locals);
    proof {
        assert(transformer.lines() =~= old(transformer).lines() + spec_setup_func_lines(
            name@,
            locals@,
        ));
    }
}

/// Whether the instruction at `j` is a memory instruction that must split
/// under the given elision setting.
pub open spec fn splits_at(instrs: Seq<Instruction>, j: int, skip_safe_splits: bool) -> bool {
    spec_instruction_type(instrs[j].opcode) matches InstructionType::Memory(m)
        && m.spec_needs_split(instrs[j].stack@, skip_safe_splits)
}

/// No memory instruction in the sequence would force a split under the given
/// elision setting.
pub open spec fn no_split_needed(instrs: Seq<Instruction>, skip_safe_splits: bool) -> bool {
    forall|i: int| 0 <= i < instrs.len() ==> !splits_at(instrs, i, skip_safe_splits)
}

/// The position of the first instruction at or after `from` that must split;
/// the length when none must.
pub open spec fn first_split(instrs: Seq<Instruction>, skip_safe_splits: bool, from: int) -> int
    decreases instrs.len() - from,
{
    if from >= instrs.len() || from < 0 {
        instrs.len() as int
    } else if splits_at(instrs, from, skip_safe_splits) {
        from
    } else {
        first_split(instrs, skip_safe_splits, from + 1)
    }
}

/// `first_split` names the position it claims: everything before it stays,
/// and it splits unless it is the end.
pub proof fn lemma_first_split_is(
    instrs: Seq<Instruction>,
    skip_safe_splits: bool,
    from: int,
    i: int,
)
    requires
        0 <= from <= i <= instrs.len(),
        forall|j: int| from <= j < i ==> !splits_at(instrs, j, skip_safe_splits),
        i < instrs.len() ==> splits_at(instrs, i, skip_safe_splits),
    ensures
        first_split(instrs, skip_safe_splits, from) == i,
    decreases i - from,
{
    if from < i {
        lemma_first_split_is(instrs, skip_safe_splits, from + 1, i);
    }
}

/// The lines that walking one non-splitting instruction appends: the saved
/// state and the re-opened scope for a block, the closing parenthesis for an
/// end, the substituted null index before an empty-stack return, and the
/// instruction's own text otherwise.
pub open spec fn spec_instr_lines(ins: Instruction, locals: Seq<DataType>, ex: bool) -> Seq<
    Seq<char>,
> {
    match ins.opcode {
        crate::instructions::Opcode::Block(label) => {
            let lvl = (ins.scopes@.len() + 2) as nat;
            let pf: int = if ins.scopes@.len() > 0 {
                ins.scopes@.last().stack_start as int
            } else {
                0
            };
            (spec_save_desc(ins.stack@, pf, ins.stack@.len() as int, lvl)
                + spec_local_save_lines(locals, locals.len() as int, lvl)) + seq![
                spec_line(lvl, crate::split::spec_block_text(label), None, ex),
            ]
        },
        crate::instructions::Opcode::End => seq![
            spec_line(
                ((if ins.scopes@.len() > 0 {
                    ins.scopes@.len() - 1
                } else {
                    0
                }) + 2) as nat,
                ")"@,
                None,
                ex,
            ),
        ],
        crate::instructions::Opcode::Return => (if ins.stack@.len() == 0 {
            seq![
                spec_line(
                    (ins.scopes@.len() + 2) as nat,
                    "i32.const 0"@,
                    Some("Return NULL"@),
                    ex,
                ),
            ]
        } else {
            Seq::empty()
        }) + seq![spec_line((ins.scopes@.len() + 2) as nat, ins.raw_text@, None, ex)],
        _ => seq![spec_line((ins.scopes@.len() + 2) as nat, ins.raw_text@, None, ex)],
    }
}

/// The lines that walking the first `hi` instructions appends, in order.
pub open spec fn spec_body_lines(
    instrs: Seq<Instruction>,
    hi: int,
    locals: Seq<DataType>,
    ex: bool,
) -> Seq<Seq<char>>
    decreases hi,
{
    if hi <= 0 {
        Seq::empty()
    } else {
        spec_body_lines(instrs, hi - 1, locals, ex) + spec_instr_lines(
            instrs[hi - 1],
            locals,
            ex,
        )
    }
}

proof fn lemma_push2<A>(s: Seq<A>, a: A, b: A)
    ensures
        s.push(a).push(b) == s + (seq![a] + seq![b]),
{
    assert(s.push(a).push(b) =~= s + (seq![a] + seq![b]));
}

/// Walks `instructions`, emitting each one, handling block scopes and the
/// empty-stack return convention, until the first memory instruction that
/// needs a split hands the remainder to the splitter. When nothing splits,
/// the table is left untouched and nothing is deferred.
#[verifier::rlimit(100)]
#[verifier::spinoff_prover]
pub fn handle_instructions<'a>(
    name: &str,
    instructions: &'a [Instruction],
    locals: &'a Vec<DataType>,
    split_count: usize,
    transformer: &mut WatEmitter,
) -> (r: Result<Vec<DeferredSplit<'a>>, TransformError>)
    requires
        instrs_ok(instructions@),
        crate::module::splits_closable(instructions@),
        locals@.len() <= MAX_SAVED_SLOTS,
        split_count + 16 <= usize::MAX,
        old(transformer).wf(),
    ensures
        final(transformer).wf(),
        final(transformer).skip_safe_splits == old(transformer).skip_safe_splits,
        final(transformer).explain == old(transformer).explain,
        final(transformer).emitted_funcs@ == old(transformer).emitted_funcs@,
        old(transformer).lines().is_prefix_of(final(transformer).lines()),
        old(transformer).utx_function_names@.is_prefix_of(final(transformer).utx_function_names@),
        match r {
            Ok(v) => {
                &&& v@.len() <= 2
                &&& forall|i: int|
                    0 <= i < v@.len() ==> {
                        &&& ds_ok(#[trigger] v@[i])
                        &&& ds_registered(v@[i], *final(transformer))
                        &&& v@[i].instructions@.len() < instructions@.len()
                        &&& v@[i].locals@ == locals@
                    }
                &&& no_split_needed(instructions@, old(transformer).skip_safe_splits) ==> {
                    &&& v@.len() == 0
                    &&& final(transformer).utx_function_names@ == old(transformer).utx_function_names@
                }
                &&& ({
                    let k = first_split(instructions@, old(transformer).skip_safe_splits, 0);
                    let body = spec_body_lines(
                        instructions@,
                        k,
                        locals@,
                        old(transformer).explain,
                    );
                    &&& (k == instructions@.len() ==> {
                        &&& final(transformer).lines() == old(transformer).lines() + body + seq![
                            spec_indent(1) + ")"@,
                        ]
                        &&& v@.len() == 0
                        &&& final(transformer).utx_function_names@ == old(transformer).utx_function_names@
                    })
                    &&& (k < instructions@.len() ==> {
                        &&& (old(transformer).lines() + body).is_prefix_of(
                            final(transformer).lines(),
                        )
                        &&& exists|t: int|
                            0 <= t < final(transformer).utx_function_names@.len() && (
                            #[trigger] final(transformer).utx_function_names@[t]).0
                                == instructions@[k].index
                    })
                })
            },
            Err(_) => false,
        },
{
    let ghost ex = old(transformer).explain;
    let mut i: usize = 0;
    while i < instructions.len()
        invariant
            i <= instructions@.len(),
            instrs_ok(instructions@),
            crate::module::splits_closable(instructions@),
            locals@.len() <= MAX_SAVED_SLOTS,
            split_count + 16 <= usize::MAX,
            transformer.wf(),
            transformer.skip_safe_splits == old(transformer).skip_safe_splits,
            transformer.explain == old(transformer).explain,
            transformer.emitted_funcs@ == old(transformer).emitted_funcs@,
            transformer.const_refs@ == old(transformer).const_refs@,
            transformer.utx_function_names@ == old(transformer).utx_function_names@,
            ex == old(transformer).explain,
            transformer.lines() == old(transformer).lines() + spec_body_lines(
                instructions@,
                i as int,
                locals@,
                ex,
            ),
            forall|j: int|
                0 <= j < i ==> !splits_at(
                    instructions@,
                    j,
                    old(transformer).skip_safe_splits,
                ),
        decreases instructions@.len() - i,
    {
        let ins = &instructions[i];
        let ghost pre = transformer.lines();
        proof {
            assert(pre == old(transformer).lines() + spec_body_lines(
                instructions@,
                i as int,
                locals@,
                ex,
            ));
        }
        match InstructionType::from_opcode(&ins.opcode) {
            InstructionType::Memory(mem) => {
                let ghost at_top = *transformer;
                transformer.current_scope_level = ins.scopes.len();
                proof {
                    WatEmitter::lemma_wf_same_views(at_top, *transformer);
                    assert(transformer.wf());
                    assert(old(transformer).utx_function_names@.is_prefix_of(
                        transformer.utx_function_names@,
                    )) by {
                        assert(old(transformer).utx_function_names@
                            =~= transformer.utx_function_names@.subrange(
                            0,
                            old(transformer).utx_function_names@.len() as int,
                        ));
                    }
                }
                let needs = match mem.needs_split(&ins.stack, transformer.skip_safe_splits) {
                    Ok(b) => b,
                    Err(e) => {
                        // The snapshot always holds the operands of a memory
                        // instruction, so the check cannot underflow.
                        proof {
                            assert(false);
                        }
                        return Err(e);
                    },
                };
                if needs {
                    let suffix = vstd::slice::slice_subrange(
                        instructions,
                        i + 1,
                        instructions.len(),
                    );
                    proof {
                        crate::split::lemma_instrs_ok_subrange(
                            instructions@,
                            i + 1,
                            instructions@.len() as int,
                        );
                        crate::module::lemma_closable_subrange(instructions@, i + 1);
                    }
                    let ghost before = *transformer;
                    let result = setup_split(
                        name,
                        split_count,
                        suffix,
                        locals,
                        mem,
                        ins.index,
                        &ins.stack,
                        &ins.scopes,
                        transformer,
                    );
                    proof {
                        crate::split::lemma_prefix_trans(
                            old(transformer).lines(),
                            before.lines(),
                            transformer.lines(),
                        );
                        crate::split::lemma_prefix_trans(
                            old(transformer).utx_function_names@,
                            before.utx_function_names@,
                            transformer.utx_function_names@,
                        );
                        assert(old(transformer).utx_function_names@.is_prefix_of(
                            before.utx_function_names@,
                        )) by {
                            assert(old(transformer).utx_function_names@
                                =~= before.utx_function_names@.subrange(
                                0,
                                old(transformer).utx_function_names@.len() as int,
                            ));
                        }
                        assert(splits_at(
                            instructions@,
                            i as int,
                            old(transformer).skip_safe_splits,
                        ));
                        lemma_first_split_is(
                            instructions@,
                            old(transformer).skip_safe_splits,
                            0,
                            i as int,
                        );
                        assert((old(transformer).lines() + spec_body_lines(
                            instructions@,
                            i as int,
                            locals@,
                            ex,
                        )).is_prefix_of(transformer.lines()));
                    }
                    return result;
                }
                transformer.emit_instruction(ins.raw_text.as_str(), None);
            },
            InstructionType::Benign(ty) => {
                match ty {
                    BenignInstructionType::Block(bty) => {
                        match bty {
                            BlockInstructionType::Block(label) => {
                                // A block opens on the enclosing indent, after
                                // saving the enclosing scope's live values and
                                // the locals.
                                transformer.current_scope_level = ins.scopes.len();
                                let prev_stack_start: usize = if ins.scopes.len() > 0 {
                                    ins.scopes[ins.scopes.len() - 1].stack_start
                                } else {
                                    0
                                };
                                transformer.emit_save_stack(
                                    &ins.stack,
                                    prev_stack_start,
                                    true,
                                    locals,
                                );
                                match label {
                                    Some(id) => {
                                        let mut t = String::from_str("(block $");
                                        t.append(id.as_str());
                                        transformer.emit_instruction(t.as_str(), None);
                                    },
                                    None => {
                                        transformer.emit_instruction("(block", None);
                                    },
                                }
                            },
                            BlockInstructionType::End => {
                                transformer.current_scope_level = if ins.scopes.len() > 0 {
                                    ins.scopes.len() - 1
                                } else {
                                    0
                                };
                                transformer.emit_instruction(")", None);
                            },
                        }
                    },
                    BenignInstructionType::Return => {
                        transformer.current_scope_level = ins.scopes.len();
                        if ins.stack.len() == 0 {
                            transformer.emit_instruction("i32.const 0", Some("Return NULL"));
                        }
                        transformer.emit_instruction(ins.raw_text.as_str(), None);
                    },
                    BenignInstructionType::Other => {
                        transformer.current_scope_level = ins.scopes.len();
                        transformer.emit_instruction(ins.raw_text.as_str(), None);
                    },
                }
            },
        }
        proof {
            let il = spec_instr_lines(instructions@[i as int], locals@, ex);
            match instructions@[i as int].opcode {
                crate::instructions::Opcode::Block(label) => {
                    let lvl = (instructions@[i as int].scopes@.len() + 2) as nat;
                    let pf: int = if instructions@[i as int].scopes@.len() > 0 {
                        instructions@[i as int].scopes@.last().stack_start as int
                    } else {
                        0
                    };
                    let desc = spec_save_desc(
                        instructions@[i as int].stack@,
                        pf,
                        instructions@[i as int].stack@.len() as int,
                        lvl,
                    );
                    let loc = spec_local_save_lines(locals@, locals@.len() as int, lvl);
                    let bl = seq![
                        spec_line(lvl, crate::split::spec_block_text(label), None, ex),
                    ];
                    crate::split::lemma_push1(
                        (pre + desc) + loc,
                        spec_line(lvl, crate::split::spec_block_text(label), None, ex),
                    );
                    crate::split::lemma_assemble3(pre, desc, loc, bl);
                    assert(transformer.lines() == pre + il);
                },
                crate::instructions::Opcode::Return => {
                    if instructions@[i as int].stack@.len() == 0 {
                        lemma_push2(
                            pre,
                            spec_line(
                                (instructions@[i as int].scopes@.len() + 2) as nat,
                                "i32.const 0"@,
                                Some("Return NULL"@),
                                ex,
                            ),
                            spec_line(
                                (instructions@[i as int].scopes@.len() + 2) as nat,
                                instructions@[i as int].raw_text@,
                                None,
                                ex,
                            ),
                        );
                        assert(transformer.lines() == pre + il);
                    } else {
                        crate::split::lemma_push1(
                            pre,
                            spec_line(
                                (instructions@[i as int].scopes@.len() + 2) as nat,
                                instructions@[i as int].raw_text@,
                                None,
                                ex,
                            ),
                        );
                        assert(Seq::<Seq<char>>::empty() + seq![
                            spec_line(
                                (instructions@[i as int].scopes@.len() + 2) as nat,
                                instructions@[i as int].raw_text@,
                                None,
                                ex,
                            ),
                        ] =~= seq![
                            spec_line(
                                (instructions@[i as int].scopes@.len() + 2) as nat,
                                instructions@[i as int].raw_text@,
                                None,
                                ex,
                            ),
                        ]);
                        assert(transformer.lines() == pre + il);
                    }
                },
                _ => {
                    assert(transformer.lines() == pre.push(il[0]));
                    crate::split::lemma_push1(pre, il[0]);
                    assert(transformer.lines() == pre + il) by {
                        assert(seq![il[0]] =~= il);
                    }
                },
            }
            vstd::seq_lib::lemma_concat_associative(
                old(transformer).lines(),
                spec_body_lines(instructions@, i as int, locals@, ex),
                il,
            );
            assert(transformer.lines() == old(transformer).lines() + spec_body_lines(
                instructions@,
                i + 1,
                locals@,
                ex,
            ));
        }
        i = i + 1;
    }
    let ghost pre = transformer.lines();
    transformer.emit_end_func();
    proof {
        crate::split::lemma_push1(pre, spec_indent(1) + ")"@);
        lemma_first_split_is(
            instructions@,
            old(transformer).skip_safe_splits,
            0,
            instructions@.len() as int,
        );
        assert(old(transformer).lines().is_prefix_of(transformer.lines())) by {
            assert(old(transformer).lines() =~= transformer.lines().subrange(
                0,
                old(transformer).lines().len() as int,
            ));
        }
        assert(old(transformer).utx_function_names@.is_prefix_of(
            transformer.utx_function_names@,
        )) by {
            assert(old(transformer).utx_function_names@
                =~= transformer.utx_function_names@.subrange(
                0,
                old(transformer).utx_function_names@.len() as int,
            ));
        }
    }
    Ok(Vec::new())
}

/// Transforms one top-level function: an ignored one passes through
/// verbatim; any other gets a table entry at source offset zero, its
/// microtransaction header, and its walked body, and may defer splits.
pub fn handle_top_level_func<'a>(func: &'a Function, transformer: &mut WatEmitter) -> (r: Result<
    Vec<DeferredSplit<'a>>,
    TransformError,
>)
    requires
        function_wf(*func),
        old(transformer).wf(),
    ensures
        final(transformer).wf(),
        final(transformer).skip_safe_splits == old(transformer).skip_safe_splits,
        final(transformer).explain == old(transformer).explain,
        old(transformer).lines().is_prefix_of(final(transformer).lines()),
        old(transformer).utx_function_names@.is_prefix_of(final(transformer).utx_function_names@),
        final(transformer).emitted_funcs@ == old(transformer).emitted_funcs@.push(
            (func.name@, spec_ignore(func.signature)),
        ),
        spec_ignore(func.signature) ==> {
            &&& final(transformer).lines() == old(transformer).lines()
                + crate::emit::spec_raw_lines(func.raw_body@)
            &&& final(transformer).utx_function_names@ == old(transformer).utx_function_names@
            &&& r matches Ok(v) && v@.len() == 0
        },
        !spec_ignore(func.signature) ==> {
            &&& final(transformer).utx_function_names@.len() > old(transformer).utx_function_names@.len()
            &&& final(transformer).utx_function_names@[old(transformer).utx_function_names@.len() as int].0 == 0
            &&& final(transformer).utx_function_names@[old(transformer).utx_function_names@.len() as int].1@ == func.name@
            &&& (old(transformer).lines() + spec_setup_func_lines(
                func.name@,
                func.local_types@,
            )).is_prefix_of(final(transformer).lines())
            &&& ({
                let k = first_split(
                    func.instructions@,
                    old(transformer).skip_safe_splits,
                    0,
                );
                k < func.instructions@.len() ==> exists|t: int|
                    0 <= t < final(transformer).utx_function_names@.len() && (#[trigger] final(transformer).utx_function_names@[t]).0 == func.instructions@[k].index
            })
        },
        match r {
            Ok(v) => {
                &&& v@.len() <= 2
                &&& forall|i: int|
                    0 <= i < v@.len() ==> ds_ok(#[trigger] v@[i]) && ds_registered(
                        v@[i],
                        *final(transformer),
                    )
            },
            Err(_) => false,
        },
{
    if func.ignore() {
        let ghost pre = transformer.lines();
        transformer.emit_raw_function(func.name.as_str(), &func.raw_body);
        proof {
            crate::split::lemma_prefix_concat(pre, crate::emit::spec_raw_lines(func.raw_body@));
            assert(transformer.wf()) by {
                assert forall|k: int|
                    0 <= k < transformer.emitted_funcs@.len() && !transformer.emitted_funcs@[k].1
                        implies exists|t: int|
                    0 <= t < transformer.utx_function_names@.len() && (
                    #[trigger] transformer.utx_function_names@[t].1)@
                        == transformer.emitted_funcs@[k].0 by {
                    assert(transformer.emitted_funcs@[k] == old(transformer).emitted_funcs@[k]);
                }
            }
            assert(old(transformer).utx_function_names@.is_prefix_of(
                transformer.utx_function_names@,
            )) by {
                assert(old(transformer).utx_function_names@
                    =~= transformer.utx_function_names@.subrange(
                    0,
                    old(transformer).utx_function_names@.len() as int,
                ));
            }
        }
        return Ok(Vec::new());
    }
    // The entry microtransaction answers to table position of this push; its
    // name must be in the table before its header is emitted.
    let entry_name = func.name.clone();
    let ghost before_push = *transformer;
    transformer.push_table_entry(0, entry_name);
    proof {
        assert(transformer.wf()) by {
            assert forall|k: int|
                0 <= k < transformer.emitted_funcs@.len() && !transformer.emitted_funcs@[k].1
                    implies exists|t: int|
                0 <= t < transformer.utx_function_names@.len() && (
                #[trigger] transformer.utx_function_names@[t].1)@
                    == transformer.emitted_funcs@[k].0 by {
                let t0 = choose|t: int|
                    0 <= t < before_push.utx_function_names@.len() && (
                    #[trigger] before_push.utx_function_names@[t].1)@
                        == before_push.emitted_funcs@[k].0;
                assert(transformer.utx_function_names@[t0]
                    == before_push.utx_function_names@[t0]);
            }
            assert forall|i: int, j: int|
                0 <= i < j < transformer.utx_function_names@.len() && (
                #[trigger] transformer.utx_function_names@[j]).0 != 0 implies (
            #[trigger] transformer.utx_function_names@[i]).0
                != transformer.utx_function_names@[j].0 by {
                assert(j < before_push.utx_function_names@.len());
                assert(transformer.utx_function_names@[i]
                    == before_push.utx_function_names@[i]);
                assert(transformer.utx_function_names@[j]
                    == before_push.utx_function_names@[j]);
            }
        }
    }
    let ghost after_push = *transformer;
    setup_func(func.name.as_str(), &func.local_types, transformer);
    proof {
        assert(transformer.wf()) by {
            assert forall|k: int|
                0 <= k < transformer.emitted_funcs@.len() && !transformer.emitted_funcs@[k].1
                    implies exists|t: int|
                0 <= t < transformer.utx_function_names@.len() && (
                #[trigger] transformer.utx_function_names@[t].1)@
                    == transformer.emitted_funcs@[k].0 by {
                if k < after_push.emitted_funcs@.len() {
                    assert(transformer.emitted_funcs@[k] == after_push.emitted_funcs@[k]);
                } else {
                    let t0 = transformer.utx_function_names@.len() - 1;
                    assert((transformer.utx_function_names@[t0].1)@ == func.name@);
                }
            }
        }
    }
    let ghost mid = *transformer;
    proof {
        assert(mid.lines() == old(transformer).lines() + spec_setup_func_lines(
            func.name@,
            func.local_types@,
        ));
        assert(mid.utx_function_names@[old(transformer).utx_function_names@.len() as int].0
            == 0);
        assert(mid.utx_function_names@[old(transformer).utx_function_names@.len() as int].1@
            == func.name@);
    }
    let result = handle_instructions(
        func.name.as_str(),
        func.instructions.as_slice(),
        &func.local_types,
        0,
        transformer,
    );
    proof {
        let ol = old(transformer).utx_function_names@.len() as int;
        assert(transformer.utx_function_names@[ol] == mid.utx_function_names@[ol]) by {
            assert(mid.utx_function_names@ =~= transformer.utx_function_names@.subrange(
                0,
                mid.utx_function_names@.len() as int,
            ));
        }
        assert(old(transformer).lines().is_prefix_of(mid.lines())) by {
            assert(old(transformer).lines() =~= mid.lines().subrange(
                0,
                old(transformer).lines().len() as int,
            ));
        }
        crate::split::lemma_prefix_trans(old(transformer).lines(), mid.lines(), transformer.lines());
        assert(old(transformer).utx_function_names@.is_prefix_of(mid.utx_function_names@)) by {
            assert(old(transformer).utx_function_names@
                =~= mid.utx_function_names@.subrange(
                0,
                old(transformer).utx_function_names@.len() as int,
            ));
        }
        crate::split::lemma_prefix_trans(
            old(transformer).utx_function_names@,
            mid.utx_function_names@,
            transformer.utx_function_names@,
        );
    }
    result
}


/// Every function of the module has been through `Function::new`.
pub open spec fn module_wf(m: Module) -> bool {
    forall|i: int| 0 <= i < m.functions@.len() ==> function_wf(#[trigger] m.functions@[i])
}

/// What the transform owes each of the first `upto` functions: an ignored one
/// stands verbatim somewhere in the output; a transformed one has its entry
/// registered in the table at culprit offset zero and its microtransaction
/// header in the output.
pub open spec fn module_output_upto(m: Module, upto: int, e: WatEmitter) -> bool {
    forall|fi: int|
        0 <= fi < upto ==> {
            let f = #[trigger] m.functions@[fi];
            &&& (spec_ignore(f.signature) ==> exists|off: int|
                #![trigger e.lines().subrange(off, off + f.raw_body@.len() as int)]
                0 <= off && off + f.raw_body@.len() <= e.lines().len() && e.lines().subrange(
                    off,
                    off + f.raw_body@.len() as int,
                ) == crate::emit::spec_raw_lines(f.raw_body@))
            &&& (!spec_ignore(f.signature) ==> {
                &&& exists|t: int|
                    0 <= t < e.utx_function_names@.len() && (#[trigger] e.utx_function_names@[
                        t
                    ]).0 == 0 && e.utx_function_names@[t].1@ == f.name@
                &&& e.lines().contains(spec_indent(1) + spec_func_signature(f.name@))
            })
        }
}

/// The owed output survives appending more lines and more table entries.
proof fn lemma_module_output_monotone(m: Module, upto: int, a: WatEmitter, b: WatEmitter)
    requires
        module_output_upto(m, upto, a),
        a.lines().is_prefix_of(b.lines()),
        a.utx_function_names@.is_prefix_of(b.utx_function_names@),
    ensures
        module_output_upto(m, upto, b),
{
    assert forall|i: int| 0 <= i < a.lines().len() implies a.lines()[i] == b.lines()[i] by {
        assert(a.lines()[i] == b.lines().subrange(0, a.lines().len() as int)[i]);
    }
    assert forall|fi: int| 0 <= fi < upto implies {
        let f = #[trigger] m.functions@[fi];
        &&& (spec_ignore(f.signature) ==> exists|off: int|
            #![trigger b.lines().subrange(off, off + f.raw_body@.len() as int)]
            0 <= off && off + f.raw_body@.len() <= b.lines().len() && b.lines().subrange(
                off,
                off + f.raw_body@.len() as int,
            ) == crate::emit::spec_raw_lines(f.raw_body@))
        &&& (!spec_ignore(f.signature) ==> {
            &&& exists|t: int|
                0 <= t < b.utx_function_names@.len() && (#[trigger] b.utx_function_names@[t]).0
                    == 0 && b.utx_function_names@[t].1@ == f.name@
            &&& b.lines().contains(spec_indent(1) + spec_func_signature(f.name@))
        })
    } by {
        let f = m.functions@[fi];
        if spec_ignore(f.signature) {
            let off = choose|off: int|
                #![trigger a.lines().subrange(off, off + f.raw_body@.len() as int)]
                0 <= off && off + f.raw_body@.len() <= a.lines().len() && a.lines().subrange(
                    off,
                    off + f.raw_body@.len() as int,
                ) == crate::emit::spec_raw_lines(f.raw_body@);
            assert(b.lines().subrange(off, off + f.raw_body@.len() as int) =~= a.lines().subrange(
                off,
                off + f.raw_body@.len() as int,
            ));
        } else {
            let t = choose|t: int|
                0 <= t < a.utx_function_names@.len() && (#[trigger] a.utx_function_names@[t]).0
                    == 0 && a.utx_function_names@[t].1@ == f.name@;
            assert(b.utx_function_names@[t] == a.utx_function_names@.subrange(
                0,
                a.utx_function_names@.len() as int,
            )[t]);
            let sig = spec_indent(1) + spec_func_signature(f.name@);
            let ix = choose|ix: int| 0 <= ix < a.lines().len() && a.lines()[ix] == sig;
            assert(b.lines()[ix] == sig);
        }
    }
}

/// The termination measure of the split queue: each deferred split weighs
/// three to the power of its suffix length, so that handling one split can
/// pay for the at most two strictly shorter splits it defers.
pub open spec fn pow3(n: nat) -> nat
    decreases n,
{
    if n == 0 {
        1
    } else {
        3 * pow3((n - 1) as nat)
    }
}

pub open spec fn queue_measure(q: Seq<DeferredSplit>) -> nat
    decreases q.len(),
{
    if q.len() == 0 {
        0
    } else {
        pow3(q[0].instructions@.len()) + queue_measure(q.drop_first())
    }
}

proof fn lemma_pow3_pos(n: nat)
    ensures
        pow3(n) >= 1,
    decreases n,
{
    if n > 0 {
        lemma_pow3_pos((n - 1) as nat);
    }
}

proof fn lemma_pow3_le(m: nat, n: nat)
    requires
        m <= n,
    ensures
        pow3(m) <= pow3(n),
    decreases n,
{
    if m < n {
        lemma_pow3_le(m, (n - 1) as nat);
        lemma_pow3_pos((n - 1) as nat);
    }
}

proof fn lemma_queue_measure_concat(a: Seq<DeferredSplit>, b: Seq<DeferredSplit>)
    ensures
        queue_measure(a + b) == queue_measure(a) + queue_measure(b),
    decreases a.len(),
{
    if a.len() == 0 {
        assert(a + b =~= b);
    } else {
        assert((a + b).drop_first() =~= a.drop_first() + b);
        assert((a + b)[0] == a[0]);
        lemma_queue_measure_concat(a.drop_first(), b);
    }
}

/// Two deferred splits strictly shorter than `len` weigh strictly less than
/// one split of length `len`.
proof fn lemma_queue_measure_children(q: Seq<DeferredSplit>, len: nat)
    requires
        q.len() <= 2,
        forall|i: int| 0 <= i < q.len() ==> (#[trigger] q[i]).instructions@.len() < len,
    ensures
        queue_measure(q) < pow3(len),
{
    lemma_pow3_pos(len);
    if q.len() == 0 {
    } else {
        assert(q[0].instructions@.len() < len);
        assert(len >= 1);
        assert(pow3(len) == 3 * pow3((len - 1) as nat));
        lemma_pow3_le(q[0].instructions@.len(), (len - 1) as nat);
        lemma_pow3_pos((len - 1) as nat);
        assert(queue_measure(q) == pow3(q[0].instructions@.len()) + queue_measure(q.drop_first()));
        if q.len() == 1 {
            assert(q.drop_first().len() == 0);
            assert(queue_measure(q.drop_first()) == 0);
        } else {
            let q1 = q.drop_first();
            assert(q1[0] == q[1]);
            assert(q[1].instructions@.len() < len);
            lemma_pow3_le(q1[0].instructions@.len(), (len - 1) as nat);
            assert(queue_measure(q1) == pow3(q1[0].instructions@.len()) + queue_measure(
                q1.drop_first(),
            ));
            assert(q1.drop_first().len() == 0);
            assert(queue_measure(q1.drop_first()) == 0);
        }
    }
}

/// Transforms a whole module: emits each function (passthrough or chopped),
/// then drains the split queue, oldest first, until no deferred
/// microtransactions remain, then the verbatim module members. The resulting
/// emitter carries the full output, the microtransaction table, and the
/// guarantees of `WatEmitter::wf`: every emitted function header is a
/// passthrough or named in the table, every emitted continuation index
/// answers to a table entry, and no two split registrations share a culprit
/// source offset.
#[verifier::rlimit(100)]
#[verifier::spinoff_prover]
pub fn emit_transformed_wat<'a>(
    module: &'a Module,
    skip_safe_splits: bool,
    explain: bool,
) -> (r: Result<WatEmitter, TransformError>)
    requires
        module_wf(*module),
    ensures
        r matches Ok(e) && {
            &&& e.wf()
            &&& e.skip_safe_splits == skip_safe_splits
            &&& e.explain == explain
            &&& e.lines().len() >= 2
            &&& e.lines()[0] == "(module"@
            &&& e.lines().last() == ")"@
            &&& module_output_upto(*module, module.functions@.len() as int, e)
            &&& forall|j: int|
                0 <= j < module.module_members@.len() ==> e.lines().contains(
                    spec_indent(1) + (#[trigger] module.module_members@[j])@,
                )
        },
{
    let mut transformer = WatEmitter::new(skip_safe_splits, explain);
    transformer.emit_module();
    proof {
        assert(transformer.lines().len() == 1 && transformer.lines()[0] == "(module"@);
    }
    let mut splits: Vec<DeferredSplit<'a>> = Vec::new();
    let mut fi: usize = 0;
    while fi < module.functions.len()
        invariant
            fi <= module.functions@.len(),
            module_wf(*module),
            transformer.wf(),
            transformer.skip_safe_splits == skip_safe_splits,
            transformer.explain == explain,
            transformer.lines().len() >= 1,
            transformer.lines()[0] == "(module"@,
            module_output_upto(*module, fi as int, transformer),
            forall|i: int|
                0 <= i < splits@.len() ==> ds_ok(#[trigger] splits@[i]) && ds_registered(
                    splits@[i],
                    transformer,
                ),
        decreases module.functions@.len() - fi,
    {
        let f = &module.functions[fi];
        let ghost before = transformer;
        let new_splits = match handle_top_level_func(f, &mut transformer) {
            Ok(v) => v,
            Err(e) => {
                return Err(e);
            },
        };
        let mut new_splits = new_splits;
        proof {
            assert forall|i: int| 0 <= i < splits@.len() implies ds_registered(
                #[trigger] splits@[i],
                transformer,
            ) by {
                crate::split::lemma_registered_prefix(splits@[i], before, transformer);
            }
            lemma_module_output_monotone(*module, fi as int, before, transformer);
            assert(transformer.lines()[0] == before.lines()[0]) by {
                assert(before.lines()[0] == transformer.lines().subrange(
                    0,
                    before.lines().len() as int,
                )[0]);
            }
            let fv = module.functions@[fi as int];
            if spec_ignore(fv.signature) {
                let off = before.lines().len() as int;
                assert(transformer.lines().subrange(off, off + fv.raw_body@.len() as int)
                    =~= crate::emit::spec_raw_lines(fv.raw_body@));
            } else {
                let ot = before.utx_function_names@.len() as int;
                assert(transformer.utx_function_names@[ot].0 == 0
                    && transformer.utx_function_names@[ot].1@ == fv.name@);
                let pfx = before.lines() + spec_setup_func_lines(fv.name@, fv.local_types@);
                let sig = spec_indent(1) + spec_func_signature(fv.name@);
                assert(pfx[before.lines().len() as int] == sig);
                assert(transformer.lines()[before.lines().len() as int] == sig) by {
                    assert(pfx[before.lines().len() as int] == transformer.lines().subrange(
                        0,
                        pfx.len() as int,
                    )[before.lines().len() as int]);
                }
                assert(transformer.lines().contains(sig));
            }
            assert(module_output_upto(*module, fi + 1, transformer));
        }
        splits.append(&mut new_splits);
        fi = fi + 1;
    }
    // The fixed point: handling one deferred split may defer up to two more,
    // each resuming a strictly shorter instruction suffix.
    while splits.len() > 0
        invariant
            module_wf(*module),
            transformer.wf(),
            transformer.skip_safe_splits == skip_safe_splits,
            transformer.explain == explain,
            transformer.lines().len() >= 1,
            transformer.lines()[0] == "(module"@,
            module_output_upto(*module, module.functions@.len() as int, transformer),
            forall|i: int|
                0 <= i < splits@.len() ==> ds_ok(#[trigger] splits@[i]) && ds_registered(
                    splits@[i],
                    transformer,
                ),
        decreases queue_measure(splits@),
    {
        let ghost q0 = splits@;
        let split = splits.remove(0);
        proof {
            assert(splits@ =~= q0.drop_first());
            assert(queue_measure(q0) == pow3(split.instructions@.len()) + queue_measure(splits@));
        }
        let ghost before = transformer;
        let ghost rest = splits@;
        let new_splits = match handle_defered_split(split, &mut transformer) {
            Ok(v) => v,
            Err(e) => {
                return Err(e);
            },
        };
        let mut new_splits = new_splits;
        proof {
            assert forall|i: int| 0 <= i < splits@.len() implies ds_registered(
                #[trigger] splits@[i],
                transformer,
            ) by {
                crate::split::lemma_registered_prefix(splits@[i], before, transformer);
            }
            lemma_queue_measure_concat(rest, new_splits@);
            lemma_queue_measure_children(new_splits@, split.instructions@.len());
            lemma_module_output_monotone(
                *module,
                module.functions@.len() as int,
                before,
                transformer,
            );
            assert(transformer.lines()[0] == before.lines()[0]) by {
                assert(before.lines()[0] == transformer.lines().subrange(
                    0,
                    before.lines().len() as int,
                )[0]);
            }
        }
        splits.append(&mut new_splits);
        proof {
            assert(queue_measure(splits@) < queue_measure(q0));
        }
    }
    let mut mi: usize = 0;
    while mi < module.module_members.len()
        invariant
            mi <= module.module_members@.len(),
            module_wf(*module),
            transformer.wf(),
            transformer.skip_safe_splits == skip_safe_splits,
            transformer.explain == explain,
            transformer.lines().len() >= 1,
            transformer.lines()[0] == "(module"@,
            module_output_upto(*module, module.functions@.len() as int, transformer),
            forall|j: int|
                0 <= j < mi ==> transformer.lines().contains(
                    spec_indent(1) + (#[trigger] module.module_members@[j])@,
                ),
        decreases module.module_members@.len() - mi,
    {
        let ghost before = transformer;
        transformer.writeln(module.module_members[mi].as_str(), 1);
        proof {
            WatEmitter::lemma_wf_same_views(before, transformer);
            crate::split::lemma_prefix_push_self(before.lines(), transformer.lines().last());
            lemma_module_output_monotone(
                *module,
                module.functions@.len() as int,
                before,
                transformer,
            );
            assert(transformer.lines()[before.lines().len() as int] == spec_indent(1)
                + module.module_members@[mi as int]@);
            assert forall|j: int| 0 <= j < mi + 1 implies transformer.lines().contains(
                spec_indent(1) + (#[trigger] module.module_members@[j])@,
            ) by {
                if j < mi {
                    let e = spec_indent(1) + module.module_members@[j]@;
                    let ix = choose|ix: int|
                        0 <= ix < before.lines().len() && before.lines()[ix] == e;
                    assert(transformer.lines()[ix] == e);
                }
            }
        }
        mi = mi + 1;
    }
    let ghost before_end = transformer;
    transformer.emit_end_module();
    proof {
        WatEmitter::lemma_wf_same_views(before_end, transformer);
        crate::split::lemma_prefix_push_self(before_end.lines(), ")"@);
        lemma_module_output_monotone(
            *module,
            module.functions@.len() as int,
            before_end,
            transformer,
        );
        assert forall|j: int| 0 <= j < module.module_members@.len() implies transformer
            .lines().contains(spec_indent(1) + (#[trigger] module.module_members@[j])@) by {
            let e = spec_indent(1) + module.module_members@[j]@;
            let ix = choose|ix: int|
                0 <= ix < before_end.lines().len() && before_end.lines()[ix] == e;
            assert(transformer.lines()[ix] == e);
        }
        assert(transformer.lines()[0] == before_end.lines()[0]);
        assert(transformer.lines().last() == ")"@);
    }
    Ok(transformer)
}

} // verus!
