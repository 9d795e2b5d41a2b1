//! The abstract interpreter: walks a function's instructions, maintaining the
//! abstract operand stack and scope stack, and annotates every instruction
//! with the snapshots taken immediately before its effect.

use vstd::prelude::*;

use crate::instructions::{
    op_supported, spec_effect, DataType, Instruction, Opcode, Scope, ScopeType, StackEffect,
    StackValue,
};
use crate::TransformError;

verus! {

/// Whether applying `eff` would pop below the innermost scope's starting
/// depth. Only actual pops count: an instruction that removes nothing cannot
/// disturb values outside its scope.
pub open spec fn spec_floor_violated(
    eff: StackEffect,
    stack: Seq<StackValue>,
    scopes: Seq<Scope>,
) -> bool {
    match eff {
        StackEffect::Return => false,
        StackEffect::Normal { remove_n, .. } => remove_n > 0 && scopes.len() > 0 && stack.len()
            - remove_n < scopes.last().stack_start,
    }
}

/// One step of the abstract interpreter: `block` opens a scope at the current
/// depth, `end` closes one, and every other instruction applies its stack
/// effect, after the underflow checks.
pub open spec fn spec_step(
    op: Opcode,
    locals: Seq<DataType>,
    stack: Seq<StackValue>,
    scopes: Seq<Scope>,
) -> Result<(Seq<StackValue>, Seq<Scope>), TransformError> {
    match op {
        Opcode::Unsupported(s) => Err(TransformError::UnsupportedOpcode(s)),
        Opcode::Block(label) => if scopes.len() > 0 && stack.len() < scopes.last().stack_start {
            Err(TransformError::UnbalancedStack)
        } else {
            Ok(
                (
                    stack,
                    scopes.push(
                        Scope {
                            ty: ScopeType::Block,
                            name: label,
                            stack_start: stack.len() as usize,
                        },
                    ),
                ),
            )
        },
        Opcode::End => if scopes.len() == 0 {
            Err(TransformError::UnbalancedScope)
        } else {
            Ok((stack, scopes.drop_last()))
        },
        _ => {
            let eff = spec_effect(op, locals);
            if eff.spec_underflows(stack) {
                Err(TransformError::UnbalancedStack)
            } else if spec_floor_violated(eff, stack, scopes) {
                Err(TransformError::UnbalancedStack)
            } else {
                Ok((eff.spec_apply(stack), scopes))
            }
        },
    }
}

/// The interpreter state reached after the first `n` instructions, starting
/// from an empty stack and an empty scope stack; the first error, if any
/// prefix step fails.
pub open spec fn spec_walk(instrs: Seq<Instruction>, locals: Seq<DataType>, n: int) -> Result<
    (Seq<StackValue>, Seq<Scope>),
    TransformError,
>
    decreases n,
{
    if n <= 0 {
        Ok((Seq::empty(), Seq::empty()))
    } else {
        match spec_walk(instrs, locals, n - 1) {
            Err(e) => Err(e),
            Ok(st) => spec_step(instrs[n - 1].opcode, locals, st.0, st.1),
        }
    }
}

/// The state after the first `n` instructions, when the walk reaches it.
pub open spec fn walk_state(instrs: Seq<Instruction>, locals: Seq<DataType>, n: int) -> (
    Seq<StackValue>,
    Seq<Scope>,
) {
    match spec_walk(instrs, locals, n) {
        Ok(st) => st,
        Err(_) => (Seq::empty(), Seq::empty()),
    }
}

/// Once the walk fails, every longer prefix reports the same first error.
pub proof fn lemma_walk_err_persists(
    instrs: Seq<Instruction>,
    locals: Seq<DataType>,
    n: int,
    m: int,
)
    requires
        0 <= n <= m,
        spec_walk(instrs, locals, n) is Err,
    ensures
        spec_walk(instrs, locals, m) == spec_walk(instrs, locals, n),
    decreases m - n,
{
    if m > n {
        lemma_walk_err_persists(instrs, locals, n, m - 1);
    }
}

/// A successful walk covers every shorter prefix.
pub proof fn lemma_walk_prefix_ok(instrs: Seq<Instruction>, locals: Seq<DataType>, i: int, n: int)
    requires
        0 <= i <= n,
        spec_walk(instrs, locals, n) is Ok,
    ensures
        spec_walk(instrs, locals, i) is Ok,
    decreases n - i,
{
    if i < n {
        if spec_walk(instrs, locals, n - 1) is Err {
            assert(spec_walk(instrs, locals, n) is Err);
        }
        lemma_walk_prefix_ok(instrs, locals, i, n - 1);
    }
}

/// The abstract stack never grows by more than one slot per instruction.
pub proof fn lemma_walk_stack_len(instrs: Seq<Instruction>, locals: Seq<DataType>, n: int)
    requires
        0 <= n,
        spec_walk(instrs, locals, n) is Ok,
    ensures
        walk_state(instrs, locals, n).0.len() <= n,
    decreases n,
{
    if n > 0 {
        lemma_walk_stack_len(instrs, locals, n - 1);
    }
}

/// The scope stack never grows by more than one scope per instruction.
pub proof fn lemma_walk_scopes_len(instrs: Seq<Instruction>, locals: Seq<DataType>, n: int)
    requires
        0 <= n,
        spec_walk(instrs, locals, n) is Ok,
    ensures
        walk_state(instrs, locals, n).1.len() <= n,
    decreases n,
{
    if n > 0 {
        lemma_walk_scopes_len(instrs, locals, n - 1);
    }
}

/// A scope's starting depth never lies below an enclosing scope's: opening a
/// block below the enclosing floor is rejected as an underflow.
pub proof fn lemma_walk_scopes_monotone(instrs: Seq<Instruction>, locals: Seq<DataType>, n: int)
    requires
        0 <= n <= usize::MAX,
        spec_walk(instrs, locals, n) is Ok,
    ensures
        forall|k1: int, k2: int|
            0 <= k1 <= k2 < walk_state(instrs, locals, n).1.len() ==> (#[trigger] walk_state(
                instrs,
                locals,
                n,
            ).1[k1]).stack_start <= (#[trigger] walk_state(instrs, locals, n).1[k2]).stack_start,
    decreases n,
{
    if n > 0 {
        lemma_walk_prefix_ok(instrs, locals, n - 1, n);
        lemma_walk_scopes_monotone(instrs, locals, n - 1);
        lemma_walk_stack_len(instrs, locals, n - 1);
        let stack = walk_state(instrs, locals, n - 1).0;
        let prev = walk_state(instrs, locals, n - 1).1;
        let cur = walk_state(instrs, locals, n).1;
        assert(spec_walk(instrs, locals, n) == spec_step(
            instrs[n - 1].opcode,
            locals,
            stack,
            prev,
        ));
        assert forall|k1: int, k2: int| 0 <= k1 <= k2 < cur.len() implies (
        #[trigger] cur[k1]).stack_start <= (#[trigger] cur[k2]).stack_start by {
            match instrs[n - 1].opcode {
                Opcode::Block(_) => {
                    assert(prev.len() > 0 ==> stack.len() >= prev.last().stack_start);
                    assert(cur.len() == prev.len() + 1);
                    assert(cur[cur.len() - 1].stack_start == stack.len());
                    if k2 < cur.len() - 1 {
                        assert(cur[k1] == prev[k1] && cur[k2] == prev[k2]);
                    } else if k1 < cur.len() - 1 {
                        assert(cur[k1] == prev[k1]);
                        assert(prev[k1].stack_start <= prev[prev.len() - 1].stack_start);
                    }
                },
                Opcode::End => {
                    assert(cur[k1] == prev[k1] && cur[k2] == prev[k2]);
                },
                _ => {
                    assert(cur == prev);
                },
            }
        }
    }
}

/// Along a successful walk, the scope depth after `base + j` instructions
/// differs from the depth after `base` by exactly the nesting level that the
/// block and end opcodes in between account for.
pub proof fn lemma_walk_depth_matches_level(
    instrs: Seq<Instruction>,
    locals: Seq<DataType>,
    base: int,
    j: int,
)
    requires
        0 <= base,
        0 <= j,
        base + j <= instrs.len(),
        spec_walk(instrs, locals, base + j) is Ok,
    ensures
        walk_state(instrs, locals, base + j).1.len() == walk_state(instrs, locals, base).1.len()
            + crate::instructions::spec_level_at(
            instrs.subrange(base, instrs.len() as int),
            j,
        ) - 1,
    decreases j,
{
    let sub = instrs.subrange(base, instrs.len() as int);
    if j == 0 {
        assert(crate::instructions::spec_level_at(sub, 0) == 1);
    } else {
        lemma_walk_prefix_ok(instrs, locals, base + j - 1, base + j);
        lemma_walk_depth_matches_level(instrs, locals, base, j - 1);
        assert(sub[j - 1] == instrs[base + j - 1]);
        assert(spec_walk(instrs, locals, base + j) == spec_step(
            instrs[base + j - 1].opcode,
            locals,
            walk_state(instrs, locals, base + j - 1).0,
            walk_state(instrs, locals, base + j - 1).1,
        ));
    }
}

/// The walk reads nothing of an instruction but its opcode.
pub proof fn lemma_walk_opcode_congruence(
    a: Seq<Instruction>,
    b: Seq<Instruction>,
    locals: Seq<DataType>,
    n: int,
)
    requires
        0 <= n <= a.len(),
        a.len() == b.len(),
        forall|i: int| 0 <= i < a.len() ==> a[i].opcode == b[i].opcode,
    ensures
        spec_walk(a, locals, n) == spec_walk(b, locals, n),
    decreases n,
{
    if n > 0 {
        lemma_walk_opcode_congruence(a, b, locals, n - 1);
    }
}

/// An unsupported opcode is never passed over in silence: a walk that
/// succeeds has classified every instruction it covered.
pub proof fn lemma_unsupported_never_dropped(
    instrs: Seq<Instruction>,
    locals: Seq<DataType>,
    n: int,
)
    requires
        0 <= n,
        spec_walk(instrs, locals, n) is Ok,
    ensures
        forall|i: int| 0 <= i < n ==> op_supported(#[trigger] instrs[i].opcode),
    decreases n,
{
    if n > 0 {
        lemma_unsupported_never_dropped(instrs, locals, n - 1);
    }
}

/// An opcode that pops one slot, pushes one, and carries the popped slot's
/// safety flag into the pushed one.
pub open spec fn is_preserving_unary(op: Opcode, locals: Seq<DataType>) -> bool {
    op_supported(op) && (spec_effect(op, locals) matches StackEffect::Normal {
        remove_n: 1,
        add: Some(_),
        preserves_safety: true,
    })
}

/// Safety propagation: a value pushed by a `local.get` of a trusted parameter
/// and transformed only by safety-preserving unary operations is still on top
/// of the stack and still safe.
pub proof fn lemma_safety_propagation(
    instrs: Seq<Instruction>,
    locals: Seq<DataType>,
    lo: int,
    hi: int,
)
    requires
        0 <= lo < hi <= instrs.len(),
        spec_walk(instrs, locals, hi) is Ok,
        instrs[lo].opcode matches Opcode::LocalGet(idx) && crate::instructions::spec_param_safe(
            idx,
        ),
        forall|j: int| lo < j < hi ==> is_preserving_unary(#[trigger] instrs[j].opcode, locals),
    ensures
        walk_state(instrs, locals, hi).0.len() > 0,
        walk_state(instrs, locals, hi).0.last().is_safe,
    decreases hi - lo,
{
    if hi == lo + 1 {
        assert(spec_walk(instrs, locals, hi) == spec_step(
            instrs[lo].opcode,
            locals,
            walk_state(instrs, locals, lo).0,
            walk_state(instrs, locals, lo).1,
        ));
    } else {
        lemma_safety_propagation(instrs, locals, lo, hi - 1);
    }
}

/// With safe-split elision enabled, a load whose address was derived from a
/// trusted parameter through safety-preserving unary operations needs no
/// split.
pub proof fn lemma_safe_chain_elides_split(
    instrs: Seq<Instruction>,
    locals: Seq<DataType>,
    lo: int,
    hi: int,
    mem: crate::instructions::MemoryInstructionType,
)
    requires
        0 <= lo < hi <= instrs.len(),
        spec_walk(instrs, locals, hi) is Ok,
        instrs[lo].opcode matches Opcode::LocalGet(idx) && crate::instructions::spec_param_safe(
            idx,
        ),
        forall|j: int| lo < j < hi ==> is_preserving_unary(#[trigger] instrs[j].opcode, locals),
        mem matches crate::instructions::MemoryInstructionType::Load { .. },
    ensures
        !mem.spec_needs_split(walk_state(instrs, locals, hi).0, true),
{
    lemma_safety_propagation(instrs, locals, lo, hi);
}

/// Copies a stack snapshot, so that a deferred split owns its state.
pub fn copy_stack(v: &Vec<StackValue>) -> (r: Vec<StackValue>)
    ensures
        r@ == v@,
{
    let mut r: Vec<StackValue> = Vec::new();
    let mut i: usize = 0;
    while i < v.len()
        invariant
            i <= v@.len(),
            r@ == v@.take(i as int),
        decreases v@.len() - i,
    {
        r.push(v[i]);
        i = i + 1;
    }
    proof {
        assert(r@ =~= v@);
    }
    r
}

/// Copies the bottom `n` slots of a stack snapshot.
pub fn copy_prefix(v: &Vec<StackValue>, n: usize) -> (r: Vec<StackValue>)
    requires
        n <= v@.len(),
    ensures
        r@ == v@.take(n as int),
{
    let mut r: Vec<StackValue> = Vec::new();
    let mut i: usize = 0;
    while i < n
        invariant
            i <= n <= v@.len(),
            r@ == v@.take(i as int),
        decreases n - i,
    {
        r.push(v[i]);
        i = i + 1;
    }
    proof {
        assert(r@ =~= v@.take(n as int));
    }
    r
}

pub fn clone_opt_string(o: &Option<String>) -> (r: Option<String>)
    ensures
        r == *o,
{
    match o {
        None => None,
        Some(s) => Some(s.clone()),
    }
}

pub fn clone_scope(s: &Scope) -> (r: Scope)
    ensures
        r == *s,
{
    Scope { ty: s.ty, name: clone_opt_string(&s.name), stack_start: s.stack_start }
}

/// Copies a scope-stack snapshot, so that a deferred split owns its state.
pub fn clone_scopes(v: &Vec<Scope>) -> (r: Vec<Scope>)
    ensures
        r@ == v@,
{
    let mut r: Vec<Scope> = Vec::new();
    let mut i: usize = 0;
    while i < v.len()
        invariant
            i <= v@.len(),
            r@ == v@.take(i as int),
        decreases v@.len() - i,
    {
        r.push(clone_scope(&v[i]));
        i = i + 1;
    }
    proof {
        assert(r@ =~= v@);
    }
    r
}

/// Walks a function's instructions once, checking them against the supported
/// subset and the balance rules, and annotating each with the operand-stack
/// and scope-stack snapshots taken just before its effect. Fails with the
/// first error the walk meets.
pub fn annotate_instructions(instructions: Vec<Instruction>, local_types: &[DataType]) -> (r:
    Result<(Vec<Instruction>, usize), TransformError>)
    ensures
        match r {
            Ok((out, depth)) => {
                &&& spec_walk(instructions@, local_types@, instructions@.len() as int) is Ok
                &&& depth == walk_state(
                    instructions@,
                    local_types@,
                    instructions@.len() as int,
                ).1.len()
                &&& out@.len() == instructions@.len()
                &&& forall|i: int|
                    0 <= i < out@.len() ==> {
                        &&& (#[trigger] out@[i]).opcode == instructions@[i].opcode
                        &&& out@[i].raw_text == instructions@[i].raw_text
                        &&& out@[i].index == instructions@[i].index
                        &&& out@[i].stack@ == walk_state(instructions@, local_types@, i).0
                        &&& out@[i].scopes@ == walk_state(instructions@, local_types@, i).1
                    }
            },
            Err(e) => spec_walk(instructions@, local_types@, instructions@.len() as int) == Err::<
                (Seq<StackValue>, Seq<Scope>),
                TransformError,
            >(e),
        },
{
    let ghost orig = instructions@;
    let ghost glocals = local_types@;
    let mut rest = instructions;
    let mut out: Vec<Instruction> = Vec::new();
    let mut stack: Vec<StackValue> = Vec::new();
    let mut scopes: Vec<Scope> = Vec::new();
    while rest.len() > 0
        invariant
            orig == instructions@,
            glocals == local_types@,
            out@.len() + rest@.len() == orig.len(),
            forall|j: int| 0 <= j < rest@.len() ==> rest@[j] == orig[out@.len() + j],
            spec_walk(orig, glocals, out@.len() as int) == Ok::<
                (Seq<StackValue>, Seq<Scope>),
                TransformError,
            >((stack@, scopes@)),
            forall|i: int|
                0 <= i < out@.len() ==> {
                    &&& (#[trigger] out@[i]).opcode == orig[i].opcode
                    &&& out@[i].raw_text == orig[i].raw_text
                    &&& out@[i].index == orig[i].index
                    &&& out@[i].stack@ == walk_state(orig, glocals, i).0
                    &&& out@[i].scopes@ == walk_state(orig, glocals, i).1
                },
        decreases rest@.len(),
    {
        let ghost k = out@.len() as int;
        let ins = rest.remove(0);
        proof {
            assert(ins == orig[k]);
        }
        let Instruction { opcode, raw_text, index, stack: _snap0, scopes: _snap1 } = ins;
        let snap_stack = copy_stack(&stack);
        let snap_scopes = clone_scopes(&scopes);
        match &opcode {
            Opcode::Unsupported(s) => {
                let e = TransformError::UnsupportedOpcode(s.clone());
                proof {
                    assert(spec_walk(orig, glocals, k + 1) == Err::<
                        (Seq<StackValue>, Seq<Scope>),
                        TransformError,
                    >(e));
                    lemma_walk_err_persists(orig, glocals, k + 1, orig.len() as int);
                }
                return Err(e);
            },
            Opcode::Block(label) => {
                if scopes.len() > 0 && stack.len() < scopes[scopes.len() - 1].stack_start {
                    proof {
                        lemma_walk_err_persists(orig, glocals, k + 1, orig.len() as int);
                    }
                    return Err(TransformError::UnbalancedStack);
                }
                scopes.push(
                    Scope { ty: ScopeType::Block, name: clone_opt_string(label), stack_start: stack.len() },
                );
            },
            Opcode::End => {
                if scopes.len() == 0 {
                    proof {
                        lemma_walk_err_persists(orig, glocals, k + 1, orig.len() as int);
                    }
                    return Err(TransformError::UnbalancedScope);
                }
                let _closed = scopes.pop();
            },
            _ => {
                let eff = match StackEffect::from_opcode(&opcode, local_types) {
                    Ok(e) => e,
                    Err(e) => {
                        proof {
                            assert(false);
                        }
                        return Err(e);
                    },
                };
                let rn: usize = match &eff {
                    StackEffect::Normal { remove_n, .. } => *remove_n,
                    StackEffect::Return => 0,
                };
                let is_normal: bool = match &eff {
                    StackEffect::Normal { .. } => true,
                    StackEffect::Return => false,
                };
                if is_normal && stack.len() < rn {
                    proof {
                        lemma_walk_err_persists(orig, glocals, k + 1, orig.len() as int);
                    }
                    return Err(TransformError::UnbalancedStack);
                }
                if is_normal && rn > 0 && scopes.len() > 0 {
                    if stack.len() - rn < scopes[scopes.len() - 1].stack_start {
                        proof {
                            lemma_walk_err_persists(orig, glocals, k + 1, orig.len() as int);
                        }
                        return Err(TransformError::UnbalancedStack);
                    }
                }
                match eff.update_stack(&mut stack) {
                    Ok(()) => {},
                    Err(e) => {
                        proof {
                            assert(false);
                        }
                        return Err(e);
                    },
                }
            },
        }
        out.push(Instruction::new(opcode, raw_text, index, snap_stack, snap_scopes));
    }
    let depth = scopes.len();
    Ok((out, depth))
}

} // verus!
