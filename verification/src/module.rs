//! The module model the transform works on: functions with their signatures,
//! local types, annotated instructions, and verbatim source lines, plus the
//! well-formedness that the abstract interpreter establishes.

use vstd::prelude::*;

use crate::emit::MAX_SAVED_SLOTS;
use crate::instructions::{DataType, Instruction};
use crate::interp::{annotate_instructions, spec_walk, walk_state};
use crate::TransformError;

verus! {

/// A sequence this long can be walked, sliced and indented without any
/// counter leaving `usize` or any saved-slot offset leaving `u64`. Nothing
/// larger fits an address space, since every element is wider than a byte.
pub open spec fn len_ok(n: nat) -> bool {
    n + 16 <= usize::MAX && n <= MAX_SAVED_SLOTS
}

/// Scope floors never decrease from the outermost scope inward.
pub open spec fn scopes_monotone(scopes: Seq<crate::instructions::Scope>) -> bool {
    forall|k1: int, k2: int|
        0 <= k1 <= k2 < scopes.len() ==> (#[trigger] scopes[k1]).stack_start <= (
        #[trigger] scopes[k2]).stack_start
}

/// The snapshot bounds every emitter call relies on; for a memory
/// instruction, a snapshot deep enough to hold its operands above the
/// innermost scope's floor, and scope floors ordered outermost to innermost.
pub open spec fn instr_ok(ins: Instruction) -> bool {
    &&& ins.stack@.len() <= MAX_SAVED_SLOTS
    &&& ins.scopes@.len() + 16 <= usize::MAX
    &&& scopes_monotone(ins.scopes@)
    &&& (crate::instructions::spec_instruction_type(ins.opcode)
        matches crate::instructions::InstructionType::Memory(m) ==> ins.stack@.len()
        >= m.spec_operands() && (ins.scopes@.len() > 0 ==> ins.scopes@.last().stack_start
        + m.spec_operands() <= ins.stack@.len()))
}

/// Some prefix of the sequence brings the nesting level (which starts at one,
/// inside an open scope) down to zero: a matching `end` can be found.
pub open spec fn suffix_closable(s: Seq<Instruction>) -> bool {
    exists|j: int|
        0 <= j <= s.len() && crate::instructions::spec_level_at(s, j) <= 0
}

/// Every memory instruction that sits inside a block can find the matching
/// `end` in the instructions after it.
pub open spec fn splits_closable(instrs: Seq<Instruction>) -> bool {
    forall|i: int|
        0 <= i < instrs.len() && (crate::instructions::spec_instruction_type(
            (#[trigger] instrs[i]).opcode,
        ) matches crate::instructions::InstructionType::Memory(_)) && instrs[i].scopes@.len() > 0
            ==> suffix_closable(instrs.subrange(i + 1, instrs.len() as int))
}

/// Closability survives taking a suffix that runs to the end.
pub proof fn lemma_closable_subrange(s: Seq<Instruction>, k: int)
    requires
        splits_closable(s),
        0 <= k <= s.len(),
    ensures
        splits_closable(s.subrange(k, s.len() as int)),
{
    let sub = s.subrange(k, s.len() as int);
    assert forall|i: int|
        0 <= i < sub.len() && (crate::instructions::spec_instruction_type(
            (#[trigger] sub[i]).opcode,
        ) matches crate::instructions::InstructionType::Memory(_)) && sub[i].scopes@.len() > 0
            implies suffix_closable(sub.subrange(i + 1, sub.len() as int)) by {
        assert(sub[i] == s[k + i]);
        assert(suffix_closable(s.subrange(k + i + 1, s.len() as int)));
        assert(sub.subrange(i + 1, sub.len() as int) =~= s.subrange(k + i + 1, s.len() as int));
    }
}

pub open spec fn instrs_ok(instrs: Seq<Instruction>) -> bool {
    &&& len_ok(instrs.len())
    &&& forall|i: int| 0 <= i < instrs.len() ==> instr_ok(#[trigger] instrs[i])
}

/// A fully walked and balanced instruction sequence can close every scope a
/// split leaves open: the matching `end` is always in the remainder.
pub proof fn lemma_walked_closable(instrs: Seq<Instruction>, locals: Seq<DataType>)
    requires
        spec_walk(instrs, locals, instrs.len() as int) is Ok,
        walk_state(instrs, locals, instrs.len() as int).1.len() == 0,
        forall|i: int|
            0 <= i < instrs.len() ==> (#[trigger] instrs[i]).scopes@ == walk_state(
                instrs,
                locals,
                i,
            ).1,
    ensures
        splits_closable(instrs),
{
    let n = instrs.len() as int;
    assert forall|i: int|
        0 <= i < instrs.len() && (crate::instructions::spec_instruction_type(
            (#[trigger] instrs[i]).opcode,
        ) matches crate::instructions::InstructionType::Memory(_)) && instrs[i].scopes@.len() > 0
            implies suffix_closable(instrs.subrange(i + 1, n)) by {
        crate::interp::lemma_walk_prefix_ok(instrs, locals, i + 1, n);
        assert(spec_walk(instrs, locals, i + 1) == crate::interp::spec_step(
            instrs[i].opcode,
            locals,
            walk_state(instrs, locals, i).0,
            walk_state(instrs, locals, i).1,
        ));
        assert(walk_state(instrs, locals, i + 1).1 == walk_state(instrs, locals, i).1);
        crate::interp::lemma_walk_depth_matches_level(instrs, locals, i + 1, n - (i + 1));
        let j = n - i - 1;
        assert(crate::instructions::spec_level_at(instrs.subrange(i + 1, n), j) <= 0);
    }
}

/// One parameter of a function's signature.
pub struct FuncParameter {
    pub id: Option<String>,
    pub val_type: DataType,
}

/// A function's type: its parameters and its result types.
pub struct Signature {
    pub parameters: Vec<FuncParameter>,
    pub results: Vec<DataType>,
}

/// A function as the transform sees it: its name, its signature, its local
/// types (not counting the three implicit parameter slots), its instructions
/// annotated by the abstract interpreter, and its verbatim source lines for
/// the passthrough case.
pub struct Function {
    pub name: String,
    pub signature: Signature,
    pub local_types: Vec<DataType>,
    pub instructions: Vec<Instruction>,
    pub raw_body: Vec<String>,
}

/// A module: its functions, and the verbatim single-line module members
/// (types, globals, data, exports) that pass through unchanged.
pub struct Module {
    pub functions: Vec<Function>,
    pub module_members: Vec<String>,
}

/// What `Function::new` establishes: the walk of the instructions succeeded
/// and left no scope open, every snapshot is exactly the walk's state before
/// that instruction, and all the machine-size bounds hold.
pub open spec fn function_wf(f: Function) -> bool {
    &&& splits_closable(f.instructions@)
    &&& len_ok(f.instructions@.len())
    &&& f.local_types@.len() <= MAX_SAVED_SLOTS
    &&& spec_walk(f.instructions@, f.local_types@, f.instructions@.len() as int) is Ok
    &&& walk_state(f.instructions@, f.local_types@, f.instructions@.len() as int).1.len() == 0
    &&& forall|i: int|
        0 <= i < f.instructions@.len() ==> {
            &&& (#[trigger] f.instructions@[i]).stack@ == walk_state(
                f.instructions@,
                f.local_types@,
                i,
            ).0
            &&& f.instructions@[i].scopes@ == walk_state(f.instructions@, f.local_types@, i).1
        }
    &&& instrs_ok(f.instructions@)
}

/// The microtransaction shape: at least three parameters, the first three of
/// type `i32`, and a single `i32` result. Anything else passes through the
/// transform unchanged.
pub open spec fn spec_ignore(sig: Signature) -> bool {
    !(sig.parameters@.len() >= 3 && sig.parameters@[0].val_type == DataType::I32
        && sig.parameters@[1].val_type == DataType::I32 && sig.parameters@[2].val_type
        == DataType::I32 && sig.results@.len() == 1 && sig.results@[0] == DataType::I32)
}

impl Function {
    /// Builds a function from its parsed parts, running the abstract
    /// interpreter over the instructions. Fails with the walk's first error:
    /// an unsupported opcode, an unbalanced stack, or an unbalanced scope —
    /// the latter also when the body leaves a block open.
    pub fn new(
        name: String,
        signature: Signature,
        local_types: Vec<DataType>,
        instructions: Vec<Instruction>,
        raw_body: Vec<String>,
    ) -> (r: Result<Function, TransformError>)
        requires
            instructions@.len() + 16 <= usize::MAX,
            instructions@.len() <= MAX_SAVED_SLOTS,
            local_types@.len() <= MAX_SAVED_SLOTS,
        ensures
            match r {
                Ok(f) => {
                    &&& function_wf(f)
                    &&& f.name == name
                    &&& f.signature == signature
                    &&& f.local_types@ == local_types@
                    &&& f.raw_body@ == raw_body@
                    &&& f.instructions@.len() == instructions@.len()
                    &&& forall|i: int|
                        0 <= i < instructions@.len() ==> {
                            &&& (#[trigger] f.instructions@[i]).opcode
                                == instructions@[i].opcode
                            &&& f.instructions@[i].raw_text == instructions@[i].raw_text
                            &&& f.instructions@[i].index == instructions@[i].index
                        }
                },
                Err(e) => {
                    spec_walk(instructions@, local_types@, instructions@.len() as int) matches Err(
                        e0,
                    ) && e == e0 || spec_walk(
                        instructions@,
                        local_types@,
                        instructions@.len() as int,
                    ) is Ok && e == TransformError::UnbalancedScope && walk_state(
                        instructions@,
                        local_types@,
                        instructions@.len() as int,
                    ).1.len() != 0
                },
            },
    {
        let ghost in_view = instructions@;
        let (annotated, depth) = match annotate_instructions(instructions, local_types.as_slice())
        {
            Ok(a) => a,
            Err(e) => {
                return Err(e);
            },
        };
        // A body that leaves a block open cannot be split soundly: the
        // matching `end` of some scope would be missing.
        if depth != 0 {
            return Err(TransformError::UnbalancedScope);
        }
        let f = Function { name, signature, local_types, instructions: annotated, raw_body };
        proof {
            let fi = f.instructions@;
            let lt = f.local_types@;
            let n = fi.len() as int;
            assert forall|i: int| 0 <= i <= n implies spec_walk(fi, lt, i) == spec_walk(
                in_view,
                lt,
                i,
            ) && spec_walk(in_view, lt, i) is Ok by {
                crate::interp::lemma_walk_opcode_congruence(fi, in_view, lt, i);
                crate::interp::lemma_walk_prefix_ok(in_view, lt, i, n);
            }
            assert(instrs_ok(fi)) by {
                assert forall|i: int| 0 <= i < n implies instr_ok(#[trigger] fi[i]) by {
                    crate::interp::lemma_walk_stack_len(in_view, lt, i);
                    crate::interp::lemma_walk_scopes_len(in_view, lt, i);
                    crate::interp::lemma_walk_scopes_monotone(in_view, lt, i);
                    crate::instructions::lemma_memory_effect_operands(fi[i].opcode, lt);
                    crate::interp::lemma_walk_prefix_ok(fi, lt, i + 1, n);
                    assert(spec_walk(fi, lt, i + 1) == crate::interp::spec_step(
                        fi[i].opcode,
                        lt,
                        walk_state(fi, lt, i).0,
                        walk_state(fi, lt, i).1,
                    ));
                }
            }
            assert(splits_closable(fi)) by {
                lemma_walked_closable(fi, lt);
            }
        }
        Ok(f)
    }

    /// Whether the function passes through the transform unchanged.
    pub fn ignore(&self) -> (r: bool)
        ensures
            r == spec_ignore(self.signature),
    {
        let p = &self.signature.parameters;
        let keep = p.len() >= 3 && matches!(p[0].val_type, DataType::I32) && matches!(
            p[1].val_type,
            DataType::I32,
        ) && matches!(p[2].val_type, DataType::I32) && self.signature.results.len() == 1
            && matches!(self.signature.results[0], DataType::I32);
        !keep
    }
}

} // verus!
