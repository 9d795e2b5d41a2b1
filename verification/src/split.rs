//! Splitting at a memory instruction: the pre-split epilogue that suspends
//! the entry microtransaction, the deferred-split records, and the post-split
//! prelude that restores the saved state and replays the culprit.

use vstd::prelude::*;
use vstd::string::StringExecFns;

use crate::emit::{
    spec_juggler_get, spec_juggler_set, spec_restore_lines, spec_save_desc, spec_local_save_lines,
    WatEmitter, MAX_SAVED_SLOTS,
};
use crate::instructions::{
    index_of_scope_end, DataType, Instruction, MemoryInstructionType, Scope, StackValue,
};
use crate::interp::{clone_scopes, copy_prefix, copy_stack};
use crate::module::{instrs_ok, instr_ok};
use crate::text::{spec_indent, spec_line, spec_u64_digits, u64_to_string};
use crate::TransformError;

verus! {

/// Everything one deferred microtransaction must remember: its synthetic
/// name, the memory instruction to replay (none for a post-scope tail
/// continuation), the instruction suffix to resume, and owned snapshots of
/// the operand stack and scope stack at split time.
pub struct DeferredSplit<'a> {
    pub name: String,
    pub culprit: Option<MemoryInstructionType>,
    pub instructions: &'a [Instruction],
    pub stack: Vec<StackValue>,
    pub scopes: Vec<Scope>,
    pub locals: &'a Vec<DataType>,
}

/// The machine-size bounds a deferred split carries with it.
pub open spec fn ds_ok(ds: DeferredSplit) -> bool {
    &&& ds.stack@.len() <= MAX_SAVED_SLOTS
    &&& ds.scopes@.len() + 16 <= usize::MAX
    &&& scopes_wf(ds.stack@, ds.scopes@)
    &&& instrs_ok(ds.instructions@)
    &&& crate::module::splits_closable(ds.instructions@)
    &&& ds.locals@.len() <= MAX_SAVED_SLOTS
}

/// Whether the split's name is already in the microtransaction table.
pub open spec fn ds_registered(ds: DeferredSplit, e: WatEmitter) -> bool {
    exists|t: int|
        0 <= t < e.utx_function_names@.len() && (#[trigger] e.utx_function_names@[t].1)@
            == ds.name@
}

/// The synthetic name of the `n`-th split of `base`.
pub open spec fn spec_split_name(base: Seq<char>, n: nat) -> Seq<char> {
    base + "_"@ + spec_u64_digits(n)
}

/// The stack after the culprit's operands have been popped.
pub open spec fn spec_drop_operands(s: Seq<StackValue>, culprit: MemoryInstructionType) -> Seq<
    StackValue,
> {
    let n = culprit.spec_operands() as int;
    if s.len() >= n {
        s.take(s.len() - n)
    } else {
        s.take(0)
    }
}

/// The culprit-specific prologue of a load split: save the address, then
/// write address plus static offset into the transaction record.
pub open spec fn spec_load_prologue(offset: u64, lvl: nat, ex: bool) -> Seq<Seq<char>> {
    seq![
        spec_line(lvl, "local.set $address"@, Some("Save address for load"@), ex),
        spec_line(lvl, "local.get $utx"@, None, ex),
        spec_line(lvl, "local.get $address"@, None, ex),
        spec_line(
            lvl,
            "i32.const "@ + spec_u64_digits(offset as nat),
            Some("Convert =offset to value"@),
            ex,
        ),
        spec_line(lvl, "i32.add"@, None, ex),
        spec_line(lvl, "i32.store"@, None, ex),
    ]
}

/// The culprit-specific prologue of a store split: save value and address,
/// write the value into the value record, then the address into the
/// transaction record.
pub open spec fn spec_store_prologue(ty: DataType, offset: u64, lvl: nat, ex: bool) -> Seq<
    Seq<char>,
> {
    seq![
        spec_line(lvl, spec_juggler_set(ty), Some("Save value for store"@), ex),
        spec_line(lvl, "local.set $address"@, Some("Save address for store"@), ex),
        spec_line(lvl, "local.get $state"@, None, ex),
        spec_line(lvl, spec_juggler_get(ty), None, ex),
        spec_line(lvl, ty.spec_str() + ".store"@, None, ex),
        spec_line(lvl, "local.get $utx"@, None, ex),
        spec_line(lvl, "local.get $address"@, None, ex),
        spec_line(
            lvl,
            "i32.const "@ + spec_u64_digits(offset as nat),
            Some("Convert =offset to value"@),
            ex,
        ),
        spec_line(lvl, "i32.add"@, None, ex),
        spec_line(lvl, "i32.store"@, None, ex),
    ]
}

pub open spec fn spec_culprit_prologue(
    culprit: MemoryInstructionType,
    lvl: nat,
    ex: bool,
) -> Seq<Seq<char>> {
    match culprit {
        MemoryInstructionType::Load { offset, .. } => spec_load_prologue(offset, lvl, ex),
        MemoryInstructionType::Store { ty, offset } => spec_store_prologue(ty, offset, lvl, ex),
    }
}

/// The common suspension tail's first half: set the needs-memory-access flag
/// byte in the transaction record.
pub open spec fn spec_naddr_lines(lvl: nat, ex: bool) -> Seq<Seq<char>> {
    seq![
        spec_line(lvl, "local.get $utx"@, Some("Save naddr = 1"@), ex),
        spec_line(lvl, "i32.const 1"@, None, ex),
        spec_line(lvl, "i32.store8 offset=63"@, None, ex),
    ]
}

/// Every line the pre-split emitter writes, ending with the continuation
/// index `index`.
pub open spec fn spec_pre_split_lines(
    culprit: MemoryInstructionType,
    popped: Seq<StackValue>,
    floor: int,
    save_locals: Seq<DataType>,
    lvl: nat,
    ex: bool,
    index: int,
) -> Seq<Seq<char>> {
    spec_culprit_prologue(culprit, lvl, ex) + spec_naddr_lines(lvl, ex) + spec_save_desc(
        popped,
        floor,
        popped.len() as int,
        lvl,
    ) + spec_local_save_lines(save_locals, save_locals.len() as int, lvl) + seq![
        spec_line(
            lvl,
            "i32.const "@ + spec_u64_digits(index as nat),
            Some("Return index to next microtransaction"@),
            ex,
        ),
    ]
}

pub proof fn lemma_push1<A>(s: Seq<A>, a: A)
    ensures
        s.push(a) == s + seq![a],
{
    assert(s.push(a) =~= s + seq![a]);
}

proof fn lemma_push5<A>(s: Seq<A>, a: A, b: A, c: A, d: A, e: A)
    ensures
        s.push(a).push(b).push(c).push(d).push(e) == s + seq![a, b, c, d, e],
{
    assert(s.push(a).push(b).push(c).push(d).push(e) =~= s + seq![a, b, c, d, e]);
}

proof fn lemma_push3<A>(s: Seq<A>, a: A, b: A, c: A)
    ensures
        s.push(a).push(b).push(c) == s + seq![a, b, c],
{
    assert(s.push(a).push(b).push(c) =~= s + seq![a, b, c]);
}

proof fn lemma_assemble5<A>(a: Seq<A>, p: Seq<A>, n: Seq<A>, s: Seq<A>, l: Seq<A>, c: Seq<A>)
    ensures
        ((((a + p) + n) + s) + l) + c == a + ((((p + n) + s) + l) + c),
{
    vstd::seq_lib::lemma_concat_associative(a, p, n);
    vstd::seq_lib::lemma_concat_associative(a, p + n, s);
    vstd::seq_lib::lemma_concat_associative(a, (p + n) + s, l);
    vstd::seq_lib::lemma_concat_associative(a, ((p + n) + s) + l, c);
}

/// Emits the pre-split epilogue for `culprit` and registers the deferred
/// split, unless a split for the same culprit source offset already has a
/// table entry, in which case that entry's continuation index is reused and
/// nothing new is deferred.
#[verifier::rlimit(100)]
#[verifier::spinoff_prover]
pub fn handle_pre_split<'a>(
    base_name: &str,
    culprit: MemoryInstructionType,
    culprit_index: usize,
    instructions: &'a [Instruction],
    split_count: usize,
    stack: &mut Vec<StackValue>,
    scopes: &Vec<Scope>,
    locals: &'a Vec<DataType>,
    transformer: &mut WatEmitter,
) -> (r: Option<DeferredSplit<'a>>)
    requires
        old(transformer).current_scope_level <= usize::MAX - 2,
        old(stack)@.len() <= MAX_SAVED_SLOTS,
        scopes@.len() + 16 <= usize::MAX,
        crate::module::scopes_monotone(scopes@),
        scopes@.len() > 0 ==> scopes@.last().stack_start + culprit.spec_operands() <= old(
            stack,
        )@.len(),
        locals@.len() <= MAX_SAVED_SLOTS,
        instrs_ok(instructions@),
        crate::module::splits_closable(instructions@),
        split_count < usize::MAX,
        old(transformer).wf(),
    ensures
        final(transformer).wf(),
        old(transformer).same_config(*final(transformer)),
        final(transformer).emitted_funcs@ == old(transformer).emitted_funcs@,
        old(transformer).utx_function_names@.is_prefix_of(final(transformer).utx_function_names@),
        final(stack)@ == spec_drop_operands(old(stack)@, culprit),
        ({
            let lvl = (old(transformer).current_scope_level + 2) as nat;
            let ex = old(transformer).explain;
            let popped = spec_drop_operands(old(stack)@, culprit);
            let floor = if scopes@.len() > 0 {
                scopes@.last().stack_start as int
            } else {
                0
            };
            match r {
                Some(ds) => {
                    &&& (forall|q: int|
                        0 <= q < old(transformer).utx_function_names@.len() ==> (
                        #[trigger] old(transformer).utx_function_names@[q]).0 != culprit_index)
                    &&& final(transformer).utx_function_names@.len() == old(
                        transformer,
                    ).utx_function_names@.len() + 1
                    &&& final(transformer).utx_function_names@.last().0 == culprit_index
                    &&& final(transformer).utx_function_names@.last().1@ == spec_split_name(
                        base_name@,
                        (split_count + 1) as nat,
                    )
                    &&& final(transformer).const_refs@ == old(transformer).const_refs@.push(
                        old(transformer).utx_function_names@.len() as int + 1,
                    )
                    &&& final(transformer).lines() == old(transformer).lines()
                        + spec_pre_split_lines(
                        culprit,
                        popped,
                        floor,
                        locals@,
                        lvl,
                        ex,
                        old(transformer).utx_function_names@.len() as int + 1,
                    )
                    &&& ds.name@ == spec_split_name(base_name@, (split_count + 1) as nat)
                    &&& ds.culprit == Some(culprit)
                    &&& ds.instructions@ == instructions@
                    &&& ds.stack@ == popped
                    &&& ds.scopes@ == scopes@
                    &&& ds.locals@ == locals@
                    &&& ds_ok(ds)
                    &&& ds_registered(ds, *final(transformer))
                },
                None => {
                    &&& exists|p: int|
                        {
                            &&& 0 <= p < old(transformer).utx_function_names@.len()
                            &&& (#[trigger] old(transformer).utx_function_names@[p]).0
                                == culprit_index
                            &&& (forall|q: int|
                                0 <= q < p ==> (#[trigger] old(
                                    transformer,
                                ).utx_function_names@[q]).0 != culprit_index)
                            &&& final(transformer).const_refs@ == old(
                                transformer,
                            ).const_refs@.push(p + 1)
                            &&& final(transformer).lines() == old(transformer).lines()
                                + spec_pre_split_lines(
                                culprit,
                                popped,
                                floor,
                                locals@,
                                lvl,
                                ex,
                                p + 1,
                            )
                        }
                    &&& final(transformer).utx_function_names@ == old(
                        transformer,
                    ).utx_function_names@
                },
            }
        }),
{
    let ghost lines0 = transformer.lines();
    let ghost lvl = (transformer.current_scope_level + 2) as nat;
    let ghost ex = transformer.explain;
    match culprit {
        MemoryInstructionType::Load { offset, .. } => {
            let _ = stack.pop();
            self_emit_load_prologue(offset, transformer);
        },
        MemoryInstructionType::Store { ty, offset } => {
            let _ = stack.pop();
            let _ = stack.pop();
            self_emit_store_prologue(ty, offset, transformer);
        },
    }
    proof {
        assert(stack@ =~= spec_drop_operands(old(stack)@, culprit));
        assert(transformer.lines() == lines0 + spec_culprit_prologue(culprit, lvl, ex));
    }
    transformer.emit_instruction("local.get $utx", Some("Save naddr = 1"));
    transformer.emit_instruction("i32.const 1", None);
    transformer.emit_instruction("i32.store8 offset=63", None);
    proof {
        lemma_push3(
            lines0 + spec_culprit_prologue(culprit, lvl, ex),
            spec_line(lvl, "local.get $utx"@, Some("Save naddr = 1"@), ex),
            spec_line(lvl, "i32.const 1"@, None, ex),
            spec_line(lvl, "i32.store8 offset=63"@, None, ex),
        );
        assert(transformer.lines() == (lines0 + spec_culprit_prologue(culprit, lvl, ex))
            + spec_naddr_lines(lvl, ex));
    }
    let stack_start: usize = if scopes.len() > 0 {
        scopes[scopes.len() - 1].stack_start
    } else {
        0
    };
    transformer.emit_save_stack(stack, stack_start, true, locals);
    let ghost pre_const_lines = transformer.lines();

    // Reuse the table entry of an earlier split at this source offset; only a
    // fresh offset registers a new microtransaction and defers its emission.
    let existing = transformer.table_position(culprit_index);
    match existing {
        Some(p) => {
            let table_len = transformer.utx_function_names.len();
            proof {
                assert(p < table_len);
            }
            let ghost before = *transformer;
            transformer.emit_continuation_index(p + 1);
            proof {
                WatEmitter::lemma_wf_push_const(before, *transformer, p + 1);
                let popped = spec_drop_operands(old(stack)@, culprit);
                let floor: int = if scopes@.len() > 0 {
                    scopes@.last().stack_start as int
                } else {
                    0
                };
                let pr = spec_culprit_prologue(culprit, lvl, ex);
                let na = spec_naddr_lines(lvl, ex);
                let sv = spec_save_desc(popped, floor, popped.len() as int, lvl);
                let ls = spec_local_save_lines(locals@, locals@.len() as int, lvl);
                let cl = seq![
                    spec_line(
                        lvl,
                        "i32.const "@ + spec_u64_digits((p + 1) as nat),
                        Some("Return index to next microtransaction"@),
                        ex,
                    ),
                ];
                lemma_push1(((lines0 + pr) + na) + sv + ls, cl[0]);
                lemma_assemble5(lines0, pr, na, sv, ls, cl);
                assert(transformer.lines() == lines0 + spec_pre_split_lines(
                    culprit,
                    popped,
                    floor,
                    locals@,
                    lvl,
                    ex,
                    p + 1,
                ));
            }
            None
        },
        None => {
            let mut name = String::from_str(base_name);
            name.append("_");
            name.append(u64_to_string((split_count as u64) + 1).as_str());
            let ds_name = name.clone();
            let ghost before = *transformer;
            transformer.push_table_entry(culprit_index, name);
            let index = transformer.utx_function_names.len();
            transformer.emit_continuation_index(index);
            proof {
                WatEmitter::lemma_wf_push_entry(
                    before,
                    *transformer,
                    culprit_index,
                    name,
                    index as int,
                );
                let popped = spec_drop_operands(old(stack)@, culprit);
                let floor: int = if scopes@.len() > 0 {
                    scopes@.last().stack_start as int
                } else {
                    0
                };
                let pr = spec_culprit_prologue(culprit, lvl, ex);
                let na = spec_naddr_lines(lvl, ex);
                let sv = spec_save_desc(popped, floor, popped.len() as int, lvl);
                let ls = spec_local_save_lines(locals@, locals@.len() as int, lvl);
                let cl = seq![
                    spec_line(
                        lvl,
                        "i32.const "@ + spec_u64_digits(index as nat),
                        Some("Return index to next microtransaction"@),
                        ex,
                    ),
                ];
                lemma_push1(((lines0 + pr) + na) + sv + ls, cl[0]);
                lemma_assemble5(lines0, pr, na, sv, ls, cl);
                assert(transformer.lines() == lines0 + spec_pre_split_lines(
                    culprit,
                    popped,
                    floor,
                    locals@,
                    lvl,
                    ex,
                    index as int,
                ));
            }
            let ds = DeferredSplit {
                name: ds_name,
                culprit: Some(culprit),
                instructions,
                stack: copy_stack(stack),
                scopes: clone_scopes(scopes),
                locals,
            };
            proof {
                let t = transformer.utx_function_names@.len() - 1;
                assert(0 <= t < transformer.utx_function_names@.len()
                    && (transformer.utx_function_names@[t].1)@ == ds.name@);
                assert(scopes_wf(ds.stack@, ds.scopes@));
            }
            Some(ds)
        },
    }
}

/// Emits the load prologue lines.
fn self_emit_load_prologue(offset: u64, transformer: &mut WatEmitter)
    requires
        old(transformer).current_scope_level <= usize::MAX - 2,
    ensures
        final(transformer).lines() == old(transformer).lines() + spec_load_prologue(
            offset,
            (old(transformer).current_scope_level + 2) as nat,
            old(transformer).explain,
        ),
        old(transformer).same_config(*final(transformer)),
        old(transformer).same_table_and_trace(*final(transformer)),
{
    transformer.emit_instruction("local.set $address", Some("Save address for load"));
    transformer.emit_instruction("local.get $utx", None);
    transformer.emit_instruction("local.get $address", None);
    let mut c = String::from_str("i32.const ");
    c.append(u64_to_string(offset).as_str());
    transformer.emit_instruction(c.as_str(), Some("Convert =offset to value"));
    transformer.emit_instruction("i32.add", None);
    transformer.emit_instruction("i32.store", None);
    proof {
        assert(transformer.lines() =~= old(transformer).lines() + spec_load_prologue(
            offset,
            (old(transformer).current_scope_level + 2) as nat,
            old(transformer).explain,
        ));
    }
}

/// Emits the store prologue lines.
fn self_emit_store_prologue(ty: DataType, offset: u64, transformer: &mut WatEmitter)
    requires
        old(transformer).current_scope_level <= usize::MAX - 2,
    ensures
        final(transformer).lines() == old(transformer).lines() + spec_store_prologue(
            ty,
            offset,
            (old(transformer).current_scope_level + 2) as nat,
            old(transformer).explain,
        ),
        old(transformer).same_config(*final(transformer)),
        old(transformer).same_table_and_trace(*final(transformer)),
{
    let mut set_v = String::from_str("local.set $");
    set_v.append(ty.as_str());
    set_v.append("_juggler");
    transformer.emit_instruction(set_v.as_str(), Some("Save value for store"));
    transformer.emit_instruction("local.set $address", Some("Save address for store"));
    transformer.emit_instruction("local.get $state", None);
    let mut get_v = String::from_str("local.get $");
    get_v.append(ty.as_str());
    get_v.append("_juggler");
    transformer.emit_instruction(get_v.as_str(), None);
    let mut st = String::from_str(ty.as_str());
    st.append(".store");
    transformer.emit_instruction(st.as_str(), None);
    transformer.emit_instruction("local.get $utx", None);
    transformer.emit_instruction("local.get $address", None);
    let mut c = String::from_str("i32.const ");
    c.append(u64_to_string(offset).as_str());
    transformer.emit_instruction(c.as_str(), Some("Convert =offset to value"));
    transformer.emit_instruction("i32.add", None);
    transformer.emit_instruction("i32.store", None);
    proof {
        assert(transformer.lines() =~= old(transformer).lines() + spec_store_prologue(
            ty,
            offset,
            (old(transformer).current_scope_level + 2) as nat,
            old(transformer).explain,
        ));
    }
}

pub proof fn lemma_prefix_concat<A>(s: Seq<A>, t: Seq<A>)
    ensures
        s.is_prefix_of(s + t),
{
    assert(s =~= (s + t).subrange(0, s.len() as int));
}

pub proof fn lemma_prefix_push_self<A>(s: Seq<A>, x: A)
    ensures
        s.is_prefix_of(s.push(x)),
{
    assert(s =~= s.push(x).subrange(0, s.len() as int));
}

pub proof fn lemma_prefix_trans<A>(a: Seq<A>, b: Seq<A>, c: Seq<A>)
    requires
        a.is_prefix_of(b),
        b.is_prefix_of(c),
    ensures
        a.is_prefix_of(c),
{
    assert(a =~= c.subrange(0, a.len() as int));
}

/// A name found in the table stays found when the table grows at the end.
pub proof fn lemma_registered_prefix(ds: DeferredSplit, a: WatEmitter, b: WatEmitter)
    requires
        ds_registered(ds, a),
        a.utx_function_names@.is_prefix_of(b.utx_function_names@),
    ensures
        ds_registered(ds, b),
{
    let t = choose|t: int|
        0 <= t < a.utx_function_names@.len() && (#[trigger] a.utx_function_names@[t].1)@
            == ds.name@;
    assert(a.utx_function_names@[t] == b.utx_function_names@.subrange(
        0,
        a.utx_function_names@.len() as int,
    )[t]);
    assert(0 <= t < b.utx_function_names@.len() && (b.utx_function_names@[t].1)@ == ds.name@);
}

/// A subsequence of bounded instructions is bounded.
pub proof fn lemma_instrs_ok_subrange(s: Seq<Instruction>, a: int, b: int)
    requires
        instrs_ok(s),
        0 <= a <= b <= s.len(),
    ensures
        instrs_ok(s.subrange(a, b)),
{
    assert forall|i: int| 0 <= i < s.subrange(a, b).len() implies instr_ok(
        #[trigger] s.subrange(a, b)[i],
    ) by {
        assert(s.subrange(a, b)[i] == s[a + i]);
        assert(instr_ok(s[a + i]));
    }
}

/// Splits the current microtransaction at `culprit`: emits the pre-split
/// epilogue, and, when the culprit sits inside a block, a `return`, the
/// closing of the open scopes, and the registration of a post-scope tail
/// continuation starting at the matching `end`. Returns the newly deferred
/// microtransactions, oldest first. A suffix without the matching `end`
/// cannot reach this function: a body that leaves a block open is already
/// rejected, with `UnbalancedScope`, when the function is built.
#[verifier::rlimit(100)]
#[verifier::spinoff_prover]
pub fn setup_split<'a>(
    base_name: &str,
    split_count: usize,
    instructions: &'a [Instruction],
    locals: &'a Vec<DataType>,
    culprit: MemoryInstructionType,
    culprit_index: usize,
    culprit_stack: &Vec<StackValue>,
    culprit_scopes: &Vec<Scope>,
    transformer: &mut WatEmitter,
) -> (r: Result<Vec<DeferredSplit<'a>>, TransformError>)
    requires
        old(transformer).current_scope_level <= usize::MAX - 2,
        culprit_stack@.len() <= MAX_SAVED_SLOTS,
        culprit_scopes@.len() + 16 <= usize::MAX,
        crate::module::scopes_monotone(culprit_scopes@),
        culprit_scopes@.len() > 0 ==> culprit_scopes@.last().stack_start
            + culprit.spec_operands() <= culprit_stack@.len(),
        locals@.len() <= MAX_SAVED_SLOTS,
        instrs_ok(instructions@),
        crate::module::splits_closable(instructions@),
        culprit_scopes@.len() > 0 ==> crate::module::suffix_closable(instructions@),
        split_count + 16 <= usize::MAX,
        old(transformer).wf(),
    ensures
        final(transformer).wf(),
        final(transformer).skip_safe_splits == old(transformer).skip_safe_splits,
        final(transformer).explain == old(transformer).explain,
        final(transformer).emitted_funcs@ == old(transformer).emitted_funcs@,
        old(transformer).lines().is_prefix_of(final(transformer).lines()),
        old(transformer).utx_function_names@.is_prefix_of(final(transformer).utx_function_names@),
        exists|t: int|
            0 <= t < final(transformer).utx_function_names@.len() && (#[trigger] final(transformer).utx_function_names@[t]).0 == culprit_index,
        ({
            let lvl = (old(transformer).current_scope_level + 2) as nat;
            let ex = old(transformer).explain;
            let popped = spec_drop_operands(culprit_stack@, culprit);
            let floor: int = if culprit_scopes@.len() > 0 {
                culprit_scopes@.last().stack_start as int
            } else {
                0
            };
            exists|idx: int|
                {
                    &&& 1 <= idx <= final(transformer).utx_function_names@.len()
                    &&& (#[trigger] final(transformer).utx_function_names@[idx - 1]).0
                        == culprit_index
                    &&& final(transformer).lines() == (old(transformer).lines()
                        + spec_pre_split_lines(culprit, popped, floor, locals@, lvl, ex, idx))
                        + spec_split_tail_lines(
                        culprit_scopes@.len() as int,
                        lvl,
                        ex,
                    )
                }
        }),
        match r {
            Ok(v) => {
                &&& v@.len() <= 2
                &&& forall|i: int|
                    0 <= i < v@.len() ==> {
                        &&& ds_ok(#[trigger] v@[i])
                        &&& ds_registered(v@[i], *final(transformer))
                        &&& v@[i].instructions@.len() <= instructions@.len()
                        &&& v@[i].locals@ == locals@
                    }
                &&& ({
                    let fresh = forall|q: int|
                        0 <= q < old(transformer).utx_function_names@.len() ==> (#[trigger] old(
                            transformer,
                        ).utx_function_names@[q]).0 != culprit_index;
                    &&& (fresh <==> v@.len() > 0 && v@[0].culprit == Some(culprit))
                    &&& (fresh ==> {
                        &&& v@[0].name@ == spec_split_name(base_name@, (split_count + 1) as nat)
                        &&& v@[0].instructions@ == instructions@
                        &&& v@[0].stack@ == spec_drop_operands(culprit_stack@, culprit)
                        &&& v@[0].scopes@ == culprit_scopes@
                    })
                    &&& (culprit_scopes@.len() == 0 ==> v@.len() == (if fresh {
                        1int
                    } else {
                        0int
                    }) && (forall|d: int| 0 <= d < v@.len() ==> (#[trigger] v@[d]).culprit is Some))
                    &&& (culprit_scopes@.len() > 0 ==> exists|se: int|
                        {
                            &&& 0 <= se < instructions@.len()
                            &&& crate::instructions::spec_level_at(instructions@, se + 1) == 0
                            &&& (forall|j: int|
                                0 <= j <= se ==> crate::instructions::spec_level_at(
                                    instructions@,
                                    j,
                                ) > 0)
                            &&& ({
                                let tail_fresh = (forall|q: int|
                                    0 <= q < old(transformer).utx_function_names@.len() ==> (
                                    #[trigger] old(transformer).utx_function_names@[q]).0 != (
                                    #[trigger] instructions@[se]).index) && (fresh
                                    ==> culprit_index != instructions@[se].index);
                                &&& ((exists|d: int|
                                    0 <= d < v@.len() && (#[trigger] v@[d]).culprit is None)
                                    <==> tail_fresh)
                                &&& (tail_fresh ==> {
                                    &&& v@.len() > 0
                                    &&& v@.last().culprit is None
                                    &&& v@.last().instructions@ == instructions@.subrange(
                                        se,
                                        instructions@.len() as int,
                                    )
                                    &&& v@.last().scopes@ == culprit_scopes@
                                })
                                &&& (!tail_fresh ==> v@.len() == (if fresh {
                                    1int
                                } else {
                                    0int
                                }))
                                &&& exists|t2: int|
                                    0 <= t2 < final(transformer).utx_function_names@.len() && (
                                    #[trigger] final(transformer).utx_function_names@[t2]).0
                                        == instructions@[se].index
                            })
                        })
                })
            },
            Err(_) => false,
        },
{
    let mut stack = copy_stack(culprit_stack);
    let mut splits: Vec<DeferredSplit<'a>> = Vec::new();
    let ghost fresh = forall|q: int|
        0 <= q < old(transformer).utx_function_names@.len() ==> (#[trigger] old(
            transformer,
        ).utx_function_names@[q]).0 != culprit_index;
    let ghost lvl = (old(transformer).current_scope_level + 2) as nat;
    let ghost ex = old(transformer).explain;
    let ghost popped = spec_drop_operands(culprit_stack@, culprit);
    let ghost cfloor: int = if culprit_scopes@.len() > 0 {
        culprit_scopes@.last().stack_start as int
    } else {
        0
    };
    let maybe_split = handle_pre_split(
        base_name,
        culprit,
        culprit_index,
        instructions,
        split_count,
        &mut stack,
        culprit_scopes,
        locals,
        transformer,
    );
    let ghost idx0: int = if maybe_split is Some {
        old(transformer).utx_function_names@.len() as int + 1
    } else {
        1 + choose|p: int|
            {
                &&& 0 <= p < old(transformer).utx_function_names@.len()
                &&& (#[trigger] old(transformer).utx_function_names@[p]).0 == culprit_index
                &&& (forall|q: int|
                    0 <= q < p ==> (#[trigger] old(transformer).utx_function_names@[q]).0
                        != culprit_index)
                &&& transformer.const_refs@ == old(transformer).const_refs@.push(p + 1)
                &&& transformer.lines() == old(transformer).lines() + spec_pre_split_lines(
                    culprit,
                    popped,
                    cfloor,
                    locals@,
                    lvl,
                    ex,
                    p + 1,
                )
            }
    };
    proof {
        assert(old(transformer).lines().is_prefix_of(transformer.lines())) by {
            assert(old(transformer).lines() =~= transformer.lines().subrange(
                0,
                old(transformer).lines().len() as int,
            ));
        }
        assert(maybe_split is Some ==> fresh);
        assert(maybe_split is None ==> !fresh);
        assert(1 <= idx0 <= transformer.utx_function_names@.len());
        assert(transformer.utx_function_names@[idx0 - 1].0 == culprit_index);
        assert(transformer.lines() == old(transformer).lines() + spec_pre_split_lines(
            culprit,
            popped,
            cfloor,
            locals@,
            lvl,
            ex,
            idx0,
        ));
    }
    let ghost s1 = *transformer;
    if let Some(ds) = maybe_split {
        splits.push(ds);
    }
    if culprit_scopes.len() > 0 {
        transformer.emit_instruction("return", None);
        let ghost base2 = s1.lines() + seq![spec_line(lvl, "return"@, None, ex)];
        proof {
            lemma_push1(s1.lines(), spec_line(lvl, "return"@, None, ex));
            assert(transformer.lines() == base2);
        }
        let scope_end = match index_of_scope_end(instructions) {
            Ok(i) => i,
            Err(e) => {
                // A matching end exists in any closable suffix, so the search
                // cannot fall off.
                proof {
                    let j = choose|j: int|
                        0 <= j <= instructions@.len()
                            && crate::instructions::spec_level_at(instructions@, j) <= 0;
                    assert(false);
                }
                return Err(e);
            },
        };
        // Register the post-scope tail continuation, keyed and deduplicated
        // by the matching end's source offset.
        let tail_key = instructions[scope_end].index;
        let existing = transformer.table_position(tail_key);
        let tail_new: bool = match existing {
            None => true,
            Some(_) => false,
        };
        let ghost tail_fresh = (forall|q: int|
            0 <= q < old(transformer).utx_function_names@.len() ==> (#[trigger] old(
                transformer,
            ).utx_function_names@[q]).0 != instructions@[scope_end as int].index) && (fresh
            ==> culprit_index != instructions@[scope_end as int].index);
        proof {
            let ot = old(transformer).utx_function_names@;
            let st = s1.utx_function_names@;
            let tk = instructions@[scope_end as int].index;
            if fresh {
                assert(st.len() == ot.len() + 1);
                assert(st.last().0 == culprit_index);
                assert forall|q: int| 0 <= q < ot.len() implies (#[trigger] ot[q]).0 == st[
                    q
                ].0 by {
                    assert(st[q] == ot[q]);
                }
                if tail_new {
                    assert forall|q: int| 0 <= q < ot.len() implies (#[trigger] ot[q]).0
                        != tk by {
                        assert(st[q].0 != tk);
                    }
                    assert(st[ot.len() as int].0 != tk);
                    assert(culprit_index != tk);
                } else {
                    let p = choose|p: int| 0 <= p < st.len() && (#[trigger] st[p]).0 == tk;
                    if p < ot.len() {
                        assert(ot[p].0 == tk);
                        assert(!tail_fresh);
                    } else {
                        assert(st[p].0 == culprit_index);
                        assert(!tail_fresh);
                    }
                }
            } else {
                assert(st == ot);
                if tail_new {
                    assert forall|q: int| 0 <= q < ot.len() implies (#[trigger] ot[q]).0
                        != tk by {
                        assert(st[q].0 != tk);
                    }
                } else {
                    let p = choose|p: int| 0 <= p < st.len() && (#[trigger] st[p]).0 == tk;
                    assert(ot[p].0 == tk);
                    assert(!tail_fresh);
                }
            }
            assert(tail_new == tail_fresh);
        }
        if tail_new {
            let extra: usize = if splits.len() > 0 {
                1
            } else {
                0
            };
            let count = split_count + 1 + extra;
            let mut tail_name = String::from_str(base_name);
            tail_name.append("_");
            tail_name.append(u64_to_string(count as u64).as_str());
            let tail_clone = tail_name.clone();
            let ghost before = *transformer;
            transformer.push_table_entry(tail_key, tail_name);
            proof {
                WatEmitter::lemma_wf_push_entry_only(before, *transformer, tail_key, tail_name);
            }
            let floor = culprit_scopes[culprit_scopes.len() - 1].stack_start;
            let hi = if floor < stack.len() {
                floor
            } else {
                stack.len()
            };
            let tail_stack = copy_prefix(&stack, hi);
            let tail_instrs = vstd::slice::slice_subrange(instructions, scope_end, instructions.len());
            let tail = DeferredSplit {
                name: tail_clone,
                culprit: None,
                instructions: tail_instrs,
                stack: tail_stack,
                scopes: clone_scopes(culprit_scopes),
                locals,
            };
            proof {
                lemma_instrs_ok_subrange(
                    instructions@,
                    scope_end as int,
                    instructions@.len() as int,
                );
                crate::module::lemma_closable_subrange(instructions@, scope_end as int);
                let t = transformer.utx_function_names@.len() - 1;
                assert((transformer.utx_function_names@[t].1)@ == tail.name@);
                assert(scopes_wf(tail.stack@, tail.scopes@));
                assert(s1.utx_function_names@ =~= transformer.utx_function_names@.subrange(
                    0,
                    s1.utx_function_names@.len() as int,
                ));
                assert forall|i: int| 0 <= i < splits@.len() implies ds_registered(
                    #[trigger] splits@[i],
                    *transformer,
                ) by {
                    lemma_registered_prefix(splits@[i], s1, *transformer);
                }
            }
            splits.push(tail);
        }
        proof {
            assert forall|i: int| 0 <= i < splits@.len() implies ds_registered(
                #[trigger] splits@[i],
                *transformer,
            ) by {
                if ds_registered(splits@[i], s1) {
                    assert(s1.utx_function_names@ =~= transformer.utx_function_names@.subrange(
                        0,
                        s1.utx_function_names@.len() as int,
                    ));
                    lemma_registered_prefix(splits@[i], s1, *transformer);
                }
            }
        }
        // Close the scopes still open in this microtransaction's text.
        let mut k = culprit_scopes.len();
        let ghost mid = *transformer;
        proof {
            assert(base2 + spec_close_lines(k as int, culprit_scopes@.len() as int, ex)
                =~= base2);
        }
        while k > 0
            invariant
                k <= culprit_scopes@.len(),
                culprit_scopes@.len() + 16 <= usize::MAX,
                forall|i: int|
                    0 <= i < splits@.len() ==> ds_registered(#[trigger] splits@[i], *transformer),
                transformer.lines() == base2 + spec_close_lines(
                    k as int,
                    culprit_scopes@.len() as int,
                    ex,
                ),
                ex == transformer.explain,
                transformer.utx_function_names@ == mid.utx_function_names@,
                transformer.emitted_funcs@ == mid.emitted_funcs@,
                transformer.const_refs@ == mid.const_refs@,
                transformer.skip_safe_splits == mid.skip_safe_splits,
                transformer.wf() == mid.wf(),
            decreases k,
        {
            k = k - 1;
            transformer.current_scope_level = k;
            let ghost pre = transformer.lines();
            transformer.emit_instruction(")", None);
            proof {
                lemma_push1(pre, spec_line((k + 2) as nat, ")"@, None, ex));
                vstd::seq_lib::lemma_concat_associative(
                    base2,
                    spec_close_lines(k as int + 1, culprit_scopes@.len() as int, ex),
                    seq![spec_line((k + 2) as nat, ")"@, None, ex)],
                );
            }
        }
        let ghost pre = transformer.lines();
        transformer.emit_end_func();
        proof {
            lemma_push1(pre, spec_indent(1) + ")"@);
            let n = culprit_scopes@.len() as int;
            let t1 = old(transformer).lines() + spec_pre_split_lines(
                culprit,
                popped,
                cfloor,
                locals@,
                lvl,
                ex,
                idx0,
            );
            lemma_assemble3(
                t1,
                seq![spec_line(lvl, "return"@, None, ex)],
                spec_close_lines(0, n, ex),
                seq![spec_indent(1) + ")"@],
            );
            assert(transformer.lines() == t1 + spec_split_tail_lines(n, lvl, ex));
            assert(old(transformer).lines().is_prefix_of(transformer.lines())) by {
                assert(old(transformer).lines() =~= transformer.lines().subrange(
                    0,
                    old(transformer).lines().len() as int,
                ));
            }
            assert(old(transformer).utx_function_names@.is_prefix_of(
                transformer.utx_function_names@,
            )) by {
                assert(old(transformer).utx_function_names@
                    =~= transformer.utx_function_names@.subrange(
                    0,
                    old(transformer).utx_function_names@.len() as int,
                ));
            }
            assert(transformer.utx_function_names@[idx0 - 1]
                == s1.utx_function_names@[idx0 - 1]);
            if tail_new {
                let t2 = transformer.utx_function_names@.len() - 1;
                assert(transformer.utx_function_names@[t2].0
                    == instructions@[scope_end as int].index);
            } else {
                let p = choose|p: int|
                    0 <= p < s1.utx_function_names@.len() && s1.utx_function_names@[p].0
                        == instructions@[scope_end as int].index && (forall|q: int|
                        0 <= q < p ==> (#[trigger] s1.utx_function_names@[q]).0
                            != instructions@[scope_end as int].index);
                assert(transformer.utx_function_names@[p] == s1.utx_function_names@[p]);
            }
            if fresh {
                assert(splits@[0].culprit == Some(culprit));
            } else {
                assert forall|d: int| 0 <= d < splits@.len() implies (
                #[trigger] splits@[d]).culprit is None by {}
            }
            if tail_fresh {
                assert(splits@.last().culprit is None);
            } else {
                assert forall|d: int| 0 <= d < splits@.len() implies !((
                #[trigger] splits@[d]).culprit is None) by {}
            }
        }
        Ok(splits)
    } else {
        let ghost pre = transformer.lines();
        transformer.emit_end_func();
        proof {
            lemma_push1(pre, spec_indent(1) + ")"@);
            assert(transformer.lines() == (old(transformer).lines() + spec_pre_split_lines(
                culprit,
                popped,
                cfloor,
                locals@,
                lvl,
                ex,
                idx0,
            )) + spec_split_tail_lines(0, lvl, ex));
            assert(old(transformer).lines().is_prefix_of(transformer.lines())) by {
                assert(old(transformer).lines() =~= transformer.lines().subrange(
                    0,
                    old(transformer).lines().len() as int,
                ));
            }
            assert(old(transformer).utx_function_names@.is_prefix_of(
                transformer.utx_function_names@,
            )) by {
                assert(old(transformer).utx_function_names@
                    =~= transformer.utx_function_names@.subrange(
                    0,
                    old(transformer).utx_function_names@.len() as int,
                ));
            }
        }
        Ok(splits)
    }
}

/// The text that re-opens a saved scope.
pub open spec fn spec_block_text(name: Option<String>) -> Seq<char> {
    match name {
        Some(n) => "(block $"@ + n@,
        None => "(block"@,
    }
}

/// The restore prelude of a deferred microtransaction, from scope `k` on,
/// with `curr` stack slots already restored: for each saved scope, restore
/// the slice below its starting depth and re-open it with its label, then
/// restore the remainder of the saved stack inside the innermost scope.
pub open spec fn spec_restore_prelude(
    stack: Seq<StackValue>,
    scopes: Seq<Scope>,
    k: int,
    curr: int,
    ex: bool,
) -> Seq<Seq<char>>
    decreases scopes.len() - k,
{
    if k >= scopes.len() || k < 0 {
        spec_restore_lines(stack, curr, stack.len() as int, (k + 2) as nat)
    } else {
        let fs = scopes[k].stack_start as int;
        let hi = if fs > stack.len() {
            stack.len() as int
        } else if fs < curr {
            curr
        } else {
            fs
        };
        (spec_restore_lines(stack, curr, hi, (k + 2) as nat) + seq![
            spec_line((k + 2) as nat, spec_block_text(scopes[k].name), None, ex),
        ]) + spec_restore_prelude(stack, scopes, k + 1, hi, ex)
    }
}

/// The saved-slot indices the restore prelude reads back, in order.
pub open spec fn spec_restore_slots(
    stack: Seq<StackValue>,
    scopes: Seq<Scope>,
    k: int,
    curr: int,
) -> Seq<int>
    decreases scopes.len() - k,
{
    if k >= scopes.len() || k < 0 {
        int_range(curr, stack.len() as int)
    } else {
        let fs = scopes[k].stack_start as int;
        let hi = if fs > stack.len() {
            stack.len() as int
        } else if fs < curr {
            curr
        } else {
            fs
        };
        int_range(curr, hi) + spec_restore_slots(stack, scopes, k + 1, hi)
    }
}

pub open spec fn int_range(lo: int, hi: int) -> Seq<int> {
    if hi <= lo {
        Seq::empty()
    } else {
        Seq::new((hi - lo) as nat, |i: int| lo + i)
    }
}

/// A split snapshot whose scopes record what block entry recorded: each
/// scope's starting depth is within the saved stack, and the depths never
/// decrease outward to inward.
pub open spec fn scopes_wf(stack: Seq<StackValue>, scopes: Seq<Scope>) -> bool {
    &&& forall|k: int| 0 <= k < scopes.len() ==> (#[trigger] scopes[k]).stack_start <= stack.len()
    &&& forall|k1: int, k2: int|
        0 <= k1 <= k2 < scopes.len() ==> (#[trigger] scopes[k1]).stack_start <= (
        #[trigger] scopes[k2]).stack_start
}

proof fn lemma_int_range_concat(lo: int, mid: int, hi: int)
    requires
        lo <= mid <= hi,
    ensures
        int_range(lo, mid) + int_range(mid, hi) == int_range(lo, hi),
{
    assert(int_range(lo, mid) + int_range(mid, hi) =~= int_range(lo, hi));
}

/// Scope save/restore round trip: for a well-formed snapshot, the restore
/// prelude reads back exactly the saved stack slots, each once, bottom to
/// top, with no slot skipped or repeated.
pub proof fn lemma_scope_restore_round_trip(
    stack: Seq<StackValue>,
    scopes: Seq<Scope>,
    k: int,
    curr: int,
)
    requires
        scopes_wf(stack, scopes),
        0 <= k <= scopes.len(),
        0 <= curr <= stack.len(),
        k < scopes.len() ==> curr <= scopes[k].stack_start,
    ensures
        spec_restore_slots(stack, scopes, k, curr) == int_range(curr, stack.len() as int),
    decreases scopes.len() - k,
{
    if k < scopes.len() {
        let fs = scopes[k].stack_start as int;
        let hi = if fs > stack.len() {
            stack.len() as int
        } else if fs < curr {
            curr
        } else {
            fs
        };
        assert(hi == fs);
        lemma_scope_restore_round_trip(stack, scopes, k + 1, hi);
        lemma_int_range_concat(curr, hi, stack.len() as int);
    }
}

/// The restore prelude re-opens every saved scope, innermost last, with its
/// own label.
pub proof fn lemma_restore_reopens_blocks(
    stack: Seq<StackValue>,
    scopes: Seq<Scope>,
    k0: int,
    curr: int,
    ex: bool,
)
    requires
        0 <= k0 <= scopes.len(),
    ensures
        forall|k: int|
            k0 <= k < scopes.len() ==> spec_restore_prelude(stack, scopes, k0, curr, ex).contains(
                spec_line((k + 2) as nat, spec_block_text((#[trigger] scopes[k]).name), None, ex),
            ),
    decreases scopes.len() - k0,
{
    if k0 < scopes.len() {
        let fs = scopes[k0].stack_start as int;
        let hi = if fs > stack.len() {
            stack.len() as int
        } else if fs < curr {
            curr
        } else {
            fs
        };
        let head = spec_restore_lines(stack, curr, hi, (k0 + 2) as nat) + seq![
            spec_line((k0 + 2) as nat, spec_block_text(scopes[k0].name), None, ex),
        ];
        let rest = spec_restore_prelude(stack, scopes, k0 + 1, hi, ex);
        let whole = spec_restore_prelude(stack, scopes, k0, curr, ex);
        assert(whole == head + rest);
        assert(whole[head.len() - 1] == spec_line(
            (k0 + 2) as nat,
            spec_block_text(scopes[k0].name),
            None,
            ex,
        ));
        assert(whole.contains(
            spec_line((k0 + 2) as nat, spec_block_text(scopes[k0].name), None, ex),
        ));
        lemma_restore_reopens_blocks(stack, scopes, k0 + 1, hi, ex);
        assert forall|k: int| k0 + 1 <= k < scopes.len() implies whole.contains(
            spec_line((k + 2) as nat, spec_block_text((#[trigger] scopes[k]).name), None, ex),
        ) by {
            let e = spec_line((k + 2) as nat, spec_block_text(scopes[k].name), None, ex);
            assert(rest.contains(e));
            let i = choose|i: int| 0 <= i < rest.len() && rest[i] == e;
            assert(whole[head.len() + i] == e);
        }
    }
}

proof fn lemma_restore_lines_len(s: Seq<StackValue>, lo: int, hi: int, lvl: nat)
    ensures
        spec_restore_lines(s, lo, hi, lvl).len() == if hi >= lo {
            2 * (hi - lo)
        } else {
            0
        },
    decreases (if hi >= lo { hi - lo } else { 0 }),
{
    if hi > lo {
        lemma_restore_lines_len(s, lo, hi - 1, lvl);
    }
}

proof fn lemma_restore_prelude_counts(
    stack: Seq<StackValue>,
    scopes: Seq<Scope>,
    k: int,
    curr: int,
    ex: bool,
)
    requires
        0 <= k <= scopes.len(),
    ensures
        spec_restore_prelude(stack, scopes, k, curr, ex).len() == 2 * spec_restore_slots(
            stack,
            scopes,
            k,
            curr,
        ).len() + (scopes.len() - k),
    decreases scopes.len() - k,
{
    if k >= scopes.len() {
        lemma_restore_lines_len(stack, curr, stack.len() as int, (k + 2) as nat);
    } else {
        let fs = scopes[k].stack_start as int;
        let hi = if fs > stack.len() {
            stack.len() as int
        } else if fs < curr {
            curr
        } else {
            fs
        };
        lemma_restore_lines_len(stack, curr, hi, (k + 2) as nat);
        lemma_restore_prelude_counts(stack, scopes, k + 1, hi, ex);
    }
}

/// The restore prelude of a well-formed snapshot holds exactly two lines per
/// saved stack slot (the record address, then the typed load) and one
/// re-opening line per saved scope: every live value is restored, none twice.
pub proof fn lemma_restore_prelude_exact_size(
    stack: Seq<StackValue>,
    scopes: Seq<Scope>,
    ex: bool,
)
    requires
        scopes_wf(stack, scopes),
    ensures
        spec_restore_prelude(stack, scopes, 0, 0, ex).len() == 2 * stack.len() + scopes.len(),
{
    lemma_restore_prelude_counts(stack, scopes, 0, 0, ex);
    lemma_scope_restore_round_trip(stack, scopes, 0, 0);
}

/// The lines that close the still-open scopes after a suspension, innermost
/// (level `hi - 1`) first, down to level `j`.
pub open spec fn spec_close_lines(j: int, hi: int, ex: bool) -> Seq<Seq<char>>
    decreases hi - j,
{
    if j >= hi {
        Seq::empty()
    } else {
        spec_close_lines(j + 1, hi, ex) + seq![spec_line((j + 2) as nat, ")"@, None, ex)]
    }
}

/// Everything `setup_split` emits after the pre-split epilogue: inside a
/// block, a `return` and the closing of the open scopes; always, the end of
/// the current function.
pub open spec fn spec_split_tail_lines(scopes_n: int, lvl: nat, ex: bool) -> Seq<Seq<char>> {
    if scopes_n > 0 {
        (seq![spec_line(lvl, "return"@, None, ex)] + spec_close_lines(0, scopes_n, ex)) + seq![
            spec_indent(1) + ")"@,
        ]
    } else {
        seq![spec_indent(1) + ")"@]
    }
}

pub proof fn lemma_assemble3<A>(a: Seq<A>, r: Seq<A>, b: Seq<A>, p: Seq<A>)
    ensures
        ((a + r) + b) + p == a + ((r + b) + p),
{
    vstd::seq_lib::lemma_concat_associative(a, r, b);
    vstd::seq_lib::lemma_concat_associative(a, r + b, p);
}

/// Emits the restore phase of a deferred microtransaction: walks the saved
/// scopes outermost first, restoring each slice of the saved stack and
/// re-opening each block under its label, then restores the rest inside the
/// innermost scope. Leaves the indent cursor at the innermost depth.
#[verifier::rlimit(100)]
pub fn emit_restore_prelude(
    stack: &Vec<StackValue>,
    scopes: &Vec<Scope>,
    transformer: &mut WatEmitter,
)
    requires
        old(transformer).current_scope_level == 0,
        stack@.len() <= MAX_SAVED_SLOTS,
        scopes@.len() + 16 <= usize::MAX,
    ensures
        final(transformer).lines() == old(transformer).lines() + spec_restore_prelude(
            stack@,
            scopes@,
            0,
            0,
            old(transformer).explain,
        ),
        final(transformer).current_scope_level == scopes@.len(),
        final(transformer).skip_safe_splits == old(transformer).skip_safe_splits,
        final(transformer).explain == old(transformer).explain,
        old(transformer).same_table_and_trace(*final(transformer)),
{
    let ghost ex = transformer.explain;
    let mut curr: usize = 0;
    let mut k: usize = 0;
    while k < scopes.len()
        invariant
            k <= scopes@.len(),
            scopes@.len() + 16 <= usize::MAX,
            stack@.len() <= MAX_SAVED_SLOTS,
            curr <= stack@.len(),
            transformer.current_scope_level == k,
            transformer.explain == ex,
            transformer.skip_safe_splits == old(transformer).skip_safe_splits,
            old(transformer).same_table_and_trace(*transformer),
            transformer.lines() + spec_restore_prelude(stack@, scopes@, k as int, curr as int, ex)
                == old(transformer).lines() + spec_restore_prelude(stack@, scopes@, 0, 0, ex),
        decreases scopes@.len() - k,
    {
        let ghost lines0 = transformer.lines();
        let fs = scopes[k].stack_start;
        let hi = if fs > stack.len() {
            stack.len()
        } else if fs < curr {
            curr
        } else {
            fs
        };
        transformer.emit_restore_stack(stack, curr, hi);
        match &scopes[k].name {
            Some(id) => {
                let mut t = String::from_str("(block $");
                t.append(id.as_str());
                transformer.emit_instruction(t.as_str(), None);
            },
            None => {
                transformer.emit_instruction("(block", None);
            },
        }
        proof {
            let r = spec_restore_lines(stack@, curr as int, hi as int, (k + 2) as nat);
            let bl = seq![spec_line((k + 2) as nat, spec_block_text(scopes@[k as int].name), None, ex)];
            let p = spec_restore_prelude(stack@, scopes@, k + 1, hi as int, ex);
            lemma_push1(lines0 + r, bl[0]);
            lemma_assemble3(lines0, r, bl, p);
            assert(transformer.lines() + p == lines0 + spec_restore_prelude(
                stack@,
                scopes@,
                k as int,
                curr as int,
                ex,
            ));
        }
        transformer.current_scope_level = k + 1;
        curr = hi;
        k = k + 1;
    }
    let ghost lines0 = transformer.lines();
    transformer.emit_restore_stack(stack, curr, stack.len());
    proof {
        assert(transformer.lines() == lines0 + spec_restore_prelude(
            stack@,
            scopes@,
            k as int,
            curr as int,
            ex,
        ));
    }
}

/// The lines that replay the culprit memory instruction from the saved state.
pub open spec fn spec_replay_lines(
    culprit: Option<MemoryInstructionType>,
    lvl: nat,
    ex: bool,
) -> Seq<Seq<char>> {
    match culprit {
        None => Seq::empty(),
        Some(MemoryInstructionType::Load { ty, .. }) => seq![
            spec_line(lvl, "local.get $utx"@, Some("Restore load address"@), ex),
            spec_line(lvl, "i32.load"@, None, ex),
            spec_line(lvl, ty.spec_str() + ".load"@, None, ex),
        ],
        Some(MemoryInstructionType::Store { ty, .. }) => seq![
            spec_line(lvl, "local.get $utx"@, Some("Restore store address"@), ex),
            spec_line(lvl, "i32.load"@, None, ex),
            spec_line(lvl, "local.get $state"@, Some("Restore store value"@), ex),
            spec_line(lvl, ty.spec_str() + ".load"@, None, ex),
            spec_line(lvl, ty.spec_str() + ".store"@, None, ex),
        ],
    }
}

/// Emits one deferred microtransaction: its header and locals, the restore
/// prelude for its saved scopes and stack, the replay of its culprit (a tail
/// continuation replays nothing), and the walked remainder of the function,
/// which may defer further splits.
#[verifier::rlimit(100)]
#[verifier::spinoff_prover]
pub fn handle_defered_split<'a>(
    deferred_split: DeferredSplit<'a>,
    transformer: &mut WatEmitter,
) -> (r: Result<Vec<DeferredSplit<'a>>, TransformError>)
    requires
        ds_ok(deferred_split),
        ds_registered(deferred_split, *old(transformer)),
        old(transformer).wf(),
    ensures
        final(transformer).wf(),
        final(transformer).skip_safe_splits == old(transformer).skip_safe_splits,
        final(transformer).explain == old(transformer).explain,
        old(transformer).lines().is_prefix_of(final(transformer).lines()),
        old(transformer).utx_function_names@.is_prefix_of(final(transformer).utx_function_names@),
        ({
            let ex = old(transformer).explain;
            let base = old(transformer).lines() + crate::transform::spec_setup_func_lines(
                deferred_split.name@,
                deferred_split.locals@,
            ) + spec_restore_prelude(
                deferred_split.stack@,
                deferred_split.scopes@,
                0,
                0,
                ex,
            ) + spec_replay_lines(
                deferred_split.culprit,
                (deferred_split.scopes@.len() + 2) as nat,
                ex,
            );
            let k = crate::transform::first_split(
                deferred_split.instructions@,
                old(transformer).skip_safe_splits,
                0,
            );
            let body = crate::transform::spec_body_lines(
                deferred_split.instructions@,
                k,
                deferred_split.locals@,
                ex,
            );
            &&& base.is_prefix_of(final(transformer).lines())
            &&& (k == deferred_split.instructions@.len() ==> final(transformer).lines() == base
                + body + seq![spec_indent(1) + ")"@])
            &&& (k < deferred_split.instructions@.len() ==> {
                &&& (base + body).is_prefix_of(final(transformer).lines())
                &&& exists|t: int|
                    0 <= t < final(transformer).utx_function_names@.len() && (#[trigger] final(transformer).utx_function_names@[t]).0 == deferred_split.instructions@[k].index
            })
        }),
        match r {
            Ok(v) => {
                &&& v@.len() <= 2
                &&& forall|i: int|
                    0 <= i < v@.len() ==> {
                        &&& ds_ok(#[trigger] v@[i])
                        &&& ds_registered(v@[i], *final(transformer))
                        &&& v@[i].instructions@.len() < deferred_split.instructions@.len()
                    }
            },
            Err(_) => false,
        },
{
    crate::transform::setup_func(
        deferred_split.name.as_str(),
        deferred_split.locals,
        transformer,
    );
    proof {
        WatEmitter::lemma_wf_push_func(*old(transformer), *transformer, deferred_split.name@);
    }
    let ghost after_setup = *transformer;
    transformer.current_scope_level = 0;
    proof {
        WatEmitter::lemma_wf_same_views(after_setup, *transformer);
    }
    emit_restore_prelude(&deferred_split.stack, &deferred_split.scopes, transformer);
    proof {
        WatEmitter::lemma_wf_same_views(after_setup, *transformer);
        vstd::seq_lib::lemma_concat_associative(
            old(transformer).lines(),
            crate::transform::spec_setup_func_lines(
                deferred_split.name@,
                deferred_split.locals@,
            ),
            spec_restore_prelude(
                deferred_split.stack@,
                deferred_split.scopes@,
                0,
                0,
                old(transformer).explain,
            ),
        );
    }
    let ghost after_prelude = *transformer;
    let ghost ex = old(transformer).explain;
    let ghost rlvl = (deferred_split.scopes@.len() + 2) as nat;
    match &deferred_split.culprit {
        None => {},
        Some(MemoryInstructionType::Load { ty, .. }) => {
            transformer.emit_instruction("local.get $utx", Some("Restore load address"));
            transformer.emit_instruction("i32.load", None);
            let mut t = String::from_str(ty.as_str());
            t.append(".load");
            transformer.emit_instruction(t.as_str(), None);
        },
        Some(MemoryInstructionType::Store { ty, .. }) => {
            transformer.emit_instruction("local.get $utx", Some("Restore store address"));
            transformer.emit_instruction("i32.load", None);
            transformer.emit_instruction("local.get $state", Some("Restore store value"));
            let mut t = String::from_str(ty.as_str());
            t.append(".load");
            transformer.emit_instruction(t.as_str(), None);
            let mut t2 = String::from_str(ty.as_str());
            t2.append(".store");
            transformer.emit_instruction(t2.as_str(), None);
        },
    }
    proof {
        WatEmitter::lemma_wf_same_views(after_setup, *transformer);
        match deferred_split.culprit {
            None => {
                assert(after_prelude.lines() + spec_replay_lines(deferred_split.culprit, rlvl, ex)
                    =~= after_prelude.lines());
            },
            Some(MemoryInstructionType::Load { ty, .. }) => {
                lemma_push3(
                    after_prelude.lines(),
                    spec_line(rlvl, "local.get $utx"@, Some("Restore load address"@), ex),
                    spec_line(rlvl, "i32.load"@, None, ex),
                    spec_line(rlvl, ty.spec_str() + ".load"@, None, ex),
                );
            },
            Some(MemoryInstructionType::Store { ty, .. }) => {
                lemma_push5(
                    after_prelude.lines(),
                    spec_line(rlvl, "local.get $utx"@, Some("Restore store address"@), ex),
                    spec_line(rlvl, "i32.load"@, None, ex),
                    spec_line(rlvl, "local.get $state"@, Some("Restore store value"@), ex),
                    spec_line(rlvl, ty.spec_str() + ".load"@, None, ex),
                    spec_line(rlvl, ty.spec_str() + ".store"@, None, ex),
                );
            },
        }
        assert(transformer.lines() == after_prelude.lines() + spec_replay_lines(
            deferred_split.culprit,
            rlvl,
            ex,
        ));
        assert(after_prelude.lines().is_prefix_of(transformer.lines())) by {
            assert(after_prelude.lines() =~= transformer.lines().subrange(
                0,
                after_prelude.lines().len() as int,
            ));
        }
    }
    let ghost before_body = *transformer;
    let result = crate::transform::handle_instructions(
        deferred_split.name.as_str(),
        deferred_split.instructions,
        deferred_split.locals,
        0,
        transformer,
    );
    proof {
        lemma_prefix_trans(after_prelude.lines(), before_body.lines(), transformer.lines());
        assert(old(transformer).lines().is_prefix_of(after_prelude.lines())) by {
            assert(old(transformer).lines() =~= after_prelude.lines().subrange(
                0,
                old(transformer).lines().len() as int,
            ));
        }
        lemma_prefix_trans(old(transformer).lines(), after_prelude.lines(), transformer.lines());
        assert(old(transformer).utx_function_names@.is_prefix_of(
            before_body.utx_function_names@,
        )) by {
            assert(old(transformer).utx_function_names@
                =~= before_body.utx_function_names@.subrange(
                0,
                old(transformer).utx_function_names@.len() as int,
            ));
        }
        lemma_prefix_trans(
            old(transformer).utx_function_names@,
            before_body.utx_function_names@,
            transformer.utx_function_names@,
        );
    }
    result
}

} // verus!
