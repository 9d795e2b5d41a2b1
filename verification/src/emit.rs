//! The textual emitter: an append-only sink of rendered WAT lines, the
//! microtransaction table, and the ghost record of what has been emitted,
//! which the transform's global guarantees are stated over.

use vstd::prelude::*;
use vstd::string::StringExecFns;

use crate::instructions::{DataType, StackValue};
use crate::text::{
    indent_string, spec_annotated, spec_indent, spec_line, spec_u64_digits, u64_to_string,
};

verus! {

/// No saved slot may be given a byte offset past the end of a `u64`; a stack
/// or local table longer than this cannot exist in an address space anyway.
pub const MAX_SAVED_SLOTS: u64 = 0x1FFF_FFFF_FFFF_FF00;

/// The byte offset, inside the transaction record, of the slot that saves
/// stack value or local number `j`.
pub open spec fn spec_slot_offset(j: int) -> nat {
    (64 + 8 * j) as nat
}

pub open spec fn spec_juggler_set(ty: DataType) -> Seq<char> {
    "local.set $"@ + ty.spec_str() + "_juggler"@
}

pub open spec fn spec_juggler_get(ty: DataType) -> Seq<char> {
    "local.get $"@ + ty.spec_str() + "_juggler"@
}

pub open spec fn spec_store_at(ty: DataType, off: nat) -> Seq<char> {
    ty.spec_str() + ".store offset="@ + spec_u64_digits(off)
}

pub open spec fn spec_load_at(ty: DataType, off: nat) -> Seq<char> {
    ty.spec_str() + ".load offset="@ + spec_u64_digits(off)
}

/// The four lines that save stack slot `j` into the transaction record.
pub open spec fn spec_save_slot_lines(v: StackValue, j: int, lvl: nat) -> Seq<Seq<char>> {
    seq![
        spec_indent(lvl) + spec_juggler_set(v.ty),
        spec_indent(lvl) + "local.get $utx"@,
        spec_indent(lvl) + spec_juggler_get(v.ty),
        spec_indent(lvl) + spec_store_at(v.ty, spec_slot_offset(j)),
    ]
}

/// The lines that save stack slots `hi - 1` down to `j`, top of stack first.
pub open spec fn spec_save_desc(s: Seq<StackValue>, j: int, hi: int, lvl: nat) -> Seq<Seq<char>>
    decreases hi - j,
{
    if j >= hi {
        Seq::empty()
    } else {
        spec_save_desc(s, j + 1, hi, lvl) + spec_save_slot_lines(s[j], j, lvl)
    }
}

/// The three lines that save local `k` into the value record.
pub open spec fn spec_local_slot_lines(ty: DataType, k: int, lvl: nat) -> Seq<Seq<char>> {
    seq![
        spec_indent(lvl) + "local.get $state"@,
        spec_indent(lvl) + "local.get "@ + spec_u64_digits((3 + k) as nat),
        spec_indent(lvl) + spec_store_at(ty, spec_slot_offset(k)),
    ]
}

/// The lines that save locals `0` to `hi - 1`, in order.
pub open spec fn spec_local_save_lines(locals: Seq<DataType>, hi: int, lvl: nat) -> Seq<Seq<char>>
    decreases hi,
{
    if hi <= 0 {
        Seq::empty()
    } else {
        spec_local_save_lines(locals, hi - 1, lvl) + spec_local_slot_lines(locals[hi - 1], hi - 1, lvl)
    }
}

/// The two lines that restore stack slot `j` from the transaction record.
pub open spec fn spec_restore_slot_lines(v: StackValue, j: int, lvl: nat) -> Seq<Seq<char>> {
    seq![
        spec_indent(lvl) + "local.get $utx"@,
        spec_indent(lvl) + spec_load_at(v.ty, spec_slot_offset(j)),
    ]
}

/// The lines that restore stack slots `lo` to `hi - 1`, bottom first.
pub open spec fn spec_restore_lines(s: Seq<StackValue>, lo: int, hi: int, lvl: nat) -> Seq<
    Seq<char>,
>
    decreases hi - lo,
{
    if hi <= lo {
        Seq::empty()
    } else {
        spec_restore_lines(s, lo, hi - 1, lvl) + spec_restore_slot_lines(s[hi - 1], hi - 1, lvl)
    }
}

/// The microtransaction signature line for `name`.
pub open spec fn spec_func_signature(name: Seq<char>) -> Seq<char> {
    "(func $"@ + name + " (param $utx i32) (param $state i32) (param $arg i32) (result i32)"@
}

/// The declaration lines of a function's own locals, in order, keeping their
/// numbering.
pub open spec fn spec_local_decl_lines(locals: Seq<DataType>, hi: int) -> Seq<Seq<char>>
    decreases hi,
{
    if hi <= 0 {
        Seq::empty()
    } else {
        spec_local_decl_lines(locals, hi - 1).push(
            spec_indent(2) + "(local "@ + locals[hi - 1].spec_str() + ")"@,
        )
    }
}

/// The declarations of the reserved locals that every microtransaction needs:
/// the saved address and one stack juggler per value type.
pub open spec fn spec_reserved_local_lines() -> Seq<Seq<char>> {
    seq![
        spec_indent(2) + "(local $address i32)"@,
        spec_indent(2) + "(local $i32_juggler i32)"@,
        spec_indent(2) + "(local $i64_juggler i64)"@,
        spec_indent(2) + "(local $f32_juggler f32)"@,
        spec_indent(2) + "(local $f64_juggler f64)"@,
    ]
}

/// The lines of an ignored function, passed through verbatim at module-member
/// indent.
pub open spec fn spec_raw_lines(body: Seq<String>) -> Seq<Seq<char>> {
    Seq::new(body.len(), |i: int| spec_indent(1) + body[i]@)
}

/// The append-only output sink and the microtransaction table.
///
/// `utx_function_names` maps each emitted microtransaction to the source
/// offset of its culprit instruction; position `p` in the table answers to
/// continuation index `p + 1`. `emitted_funcs` and `const_refs` are the ghost
/// trace of emitted function headers and emitted continuation indices, over
/// which the transform's table guarantees are stated.
pub struct WatEmitter {
    pub output: Vec<String>,
    pub utx_function_names: Vec<(usize, String)>,
    pub skip_safe_splits: bool,
    pub explain: bool,
    pub current_scope_level: usize,
    pub emitted_funcs: Ghost<Seq<(Seq<char>, bool)>>,
    pub const_refs: Ghost<Seq<int>>,
}

impl WatEmitter {
    /// The rendered output, line by line.
    pub open spec fn lines(self) -> Seq<Seq<char>> {
        Seq::new(self.output@.len(), |i: int| self.output@[i]@)
    }

    /// The two flags and the indent cursor.
    pub open spec fn same_config(self, other: WatEmitter) -> bool {
        &&& other.skip_safe_splits == self.skip_safe_splits
        &&& other.explain == self.explain
        &&& other.current_scope_level == self.current_scope_level
    }

    /// The table and the ghost trace.
    pub open spec fn same_table_and_trace(self, other: WatEmitter) -> bool {
        &&& other.utx_function_names@ == self.utx_function_names@
        &&& other.emitted_funcs@ == self.emitted_funcs@
        &&& other.const_refs@ == self.const_refs@
    }

    /// The global guarantees the transform maintains: every emitted function
    /// header is either an ignored passthrough or named in the table; every
    /// emitted continuation index answers to a table entry; and distinct table
    /// entries registered for splits (their culprit offsets are nonzero) never
    /// repeat a culprit offset.
    pub open spec fn wf(self) -> bool {
        &&& forall|k: int|
            0 <= k < self.emitted_funcs@.len() && !self.emitted_funcs@[k].1 ==> exists|t: int|
                0 <= t < self.utx_function_names@.len() && (#[trigger] self.utx_function_names@[
                    t
                ].1)@ == self.emitted_funcs@[k].0
        &&& forall|k: int|
            0 <= k < self.const_refs@.len() ==> 1 <= #[trigger] self.const_refs@[k]
                <= self.utx_function_names@.len()
        &&& forall|i: int, j: int|
            0 <= i < j < self.utx_function_names@.len() && (#[trigger] self.utx_function_names@[
                j
            ]).0 != 0 ==> (#[trigger] self.utx_function_names@[i]).0
                != self.utx_function_names@[j].0
    }

    /// Every function header the transform emits is an ignored passthrough or
    /// names a microtransaction in the table.
    pub proof fn lemma_every_emitted_function_is_tabled(e: WatEmitter, k: int)
        requires
            e.wf(),
            0 <= k < e.emitted_funcs@.len(),
            !e.emitted_funcs@[k].1,
        ensures
            exists|t: int|
                0 <= t < e.utx_function_names@.len() && (#[trigger] e.utx_function_names@[t].1)@
                    == e.emitted_funcs@[k].0,
    {
    }

    /// Every continuation index `n` emitted before a suspension answers to the
    /// table entry at position `n - 1`.
    pub proof fn lemma_continuation_indices_in_table(e: WatEmitter, k: int)
        requires
            e.wf(),
            0 <= k < e.const_refs@.len(),
        ensures
            1 <= e.const_refs@[k] <= e.utx_function_names@.len(),
    {
    }

    /// Deduplication of splits: two registered splits for the same culprit
    /// source offset are the same table entry, so a culprit offset never gets
    /// two microtransactions.
    pub proof fn lemma_dedup_same_offset(e: WatEmitter, i: int, j: int)
        requires
            e.wf(),
            0 <= i < e.utx_function_names@.len(),
            0 <= j < e.utx_function_names@.len(),
            e.utx_function_names@[i].0 == e.utx_function_names@[j].0,
            e.utx_function_names@[i].0 != 0,
        ensures
            i == j,
    {
    }

    /// The guarantees depend only on the table and the ghost trace: they
    /// carry over to any emitter state that shares them.
    pub proof fn lemma_wf_same_views(a: WatEmitter, b: WatEmitter)
        requires
            a.wf(),
            b.utx_function_names@ == a.utx_function_names@,
            b.emitted_funcs@ == a.emitted_funcs@,
            b.const_refs@ == a.const_refs@,
        ensures
            b.wf(),
    {
        assert forall|k: int|
            0 <= k < b.emitted_funcs@.len() && !b.emitted_funcs@[k].1 implies exists|t: int|
            0 <= t < b.utx_function_names@.len() && (#[trigger] b.utx_function_names@[t].1)@
                == b.emitted_funcs@[k].0 by {
            let t0 = choose|t: int|
                0 <= t < a.utx_function_names@.len() && (#[trigger] a.utx_function_names@[t].1)@
                    == a.emitted_funcs@[k].0;
            assert(0 <= t0 < b.utx_function_names@.len() && (b.utx_function_names@[t0].1)@
                == b.emitted_funcs@[k].0);
        }
    }

    /// Recording a transformed function header whose name the table already
    /// holds keeps the emitter's guarantees.
    pub proof fn lemma_wf_push_func(a: WatEmitter, b: WatEmitter, name: Seq<char>)
        requires
            a.wf(),
            b.utx_function_names@ == a.utx_function_names@,
            b.const_refs@ == a.const_refs@,
            b.emitted_funcs@ == a.emitted_funcs@.push((name, false)),
            exists|t: int|
                0 <= t < a.utx_function_names@.len() && (#[trigger] a.utx_function_names@[t].1)@
                    == name,
        ensures
            b.wf(),
    {
        assert forall|k: int|
            0 <= k < b.emitted_funcs@.len() && !b.emitted_funcs@[k].1 implies exists|t: int|
            0 <= t < b.utx_function_names@.len() && (#[trigger] b.utx_function_names@[t].1)@
                == b.emitted_funcs@[k].0 by {
            if k < a.emitted_funcs@.len() {
                let t0 = choose|t: int|
                    0 <= t < a.utx_function_names@.len() && (#[trigger] a.utx_function_names@[
                        t
                    ].1)@ == a.emitted_funcs@[k].0;
                assert(0 <= t0 < b.utx_function_names@.len() && (b.utx_function_names@[t0].1)@
                    == b.emitted_funcs@[k].0);
            } else {
                let t0 = choose|t: int|
                    0 <= t < a.utx_function_names@.len() && (#[trigger] a.utx_function_names@[
                        t
                    ].1)@ == name;
                assert(0 <= t0 < b.utx_function_names@.len() && (b.utx_function_names@[t0].1)@
                    == b.emitted_funcs@[k].0);
            }
        }
    }

    /// Appending a continuation-index reference that answers to an existing
    /// table entry keeps the emitter's guarantees.
    pub proof fn lemma_wf_push_const(a: WatEmitter, b: WatEmitter, index: int)
        requires
            a.wf(),
            b.utx_function_names@ == a.utx_function_names@,
            b.emitted_funcs@ == a.emitted_funcs@,
            b.const_refs@ == a.const_refs@.push(index),
            1 <= index <= b.utx_function_names@.len(),
        ensures
            b.wf(),
    {
        assert forall|k: int|
            0 <= k < b.emitted_funcs@.len() && !b.emitted_funcs@[k].1 implies exists|t: int|
            0 <= t < b.utx_function_names@.len() && (#[trigger] b.utx_function_names@[t].1)@
                == b.emitted_funcs@[k].0 by {
            let t0 = choose|t: int|
                0 <= t < a.utx_function_names@.len() && (#[trigger] a.utx_function_names@[t].1)@
                    == a.emitted_funcs@[k].0;
            assert(0 <= t0 < b.utx_function_names@.len() && (b.utx_function_names@[t0].1)@
                == b.emitted_funcs@[k].0);
        }
    }

    /// Appending a table entry whose culprit offset is new, together with the
    /// continuation index that answers to it, keeps the emitter's guarantees.
    pub proof fn lemma_wf_push_entry(a: WatEmitter, b: WatEmitter, ci: usize, name: String, index: int)
        requires
            a.wf(),
            b.utx_function_names@ == a.utx_function_names@.push((ci, name)),
            b.emitted_funcs@ == a.emitted_funcs@,
            b.const_refs@ == a.const_refs@.push(index),
            1 <= index <= b.utx_function_names@.len(),
            forall|q: int|
                0 <= q < a.utx_function_names@.len() ==> (#[trigger] a.utx_function_names@[q]).0
                    != ci,
        ensures
            b.wf(),
    {
        assert forall|k: int|
            0 <= k < b.emitted_funcs@.len() && !b.emitted_funcs@[k].1 implies exists|t: int|
            0 <= t < b.utx_function_names@.len() && (#[trigger] b.utx_function_names@[t].1)@
                == b.emitted_funcs@[k].0 by {
            let t0 = choose|t: int|
                0 <= t < a.utx_function_names@.len() && (#[trigger] a.utx_function_names@[t].1)@
                    == a.emitted_funcs@[k].0;
            assert(b.utx_function_names@[t0] == a.utx_function_names@[t0]);
            assert(0 <= t0 < b.utx_function_names@.len() && (b.utx_function_names@[t0].1)@
                == b.emitted_funcs@[k].0);
        }
        assert forall|i: int, j: int|
            0 <= i < j < b.utx_function_names@.len() && (#[trigger] b.utx_function_names@[j]).0
                != 0 implies (#[trigger] b.utx_function_names@[i]).0
            != b.utx_function_names@[j].0 by {
            if j < a.utx_function_names@.len() {
                assert(b.utx_function_names@[i] == a.utx_function_names@[i]);
                assert(b.utx_function_names@[j] == a.utx_function_names@[j]);
            } else {
                assert(b.utx_function_names@[i] == a.utx_function_names@[i]);
                assert(b.utx_function_names@[j].0 == ci);
            }
        }
    }

    /// Appending a table entry whose culprit offset is new, with no other
    /// change, keeps the emitter's guarantees.
    pub proof fn lemma_wf_push_entry_only(a: WatEmitter, b: WatEmitter, ci: usize, name: String)
        requires
            a.wf(),
            b.utx_function_names@ == a.utx_function_names@.push((ci, name)),
            b.emitted_funcs@ == a.emitted_funcs@,
            b.const_refs@ == a.const_refs@,
            forall|q: int|
                0 <= q < a.utx_function_names@.len() ==> (#[trigger] a.utx_function_names@[q]).0
                    != ci,
        ensures
            b.wf(),
    {
        assert forall|k: int|
            0 <= k < b.emitted_funcs@.len() && !b.emitted_funcs@[k].1 implies exists|t: int|
            0 <= t < b.utx_function_names@.len() && (#[trigger] b.utx_function_names@[t].1)@
                == b.emitted_funcs@[k].0 by {
            let t0 = choose|t: int|
                0 <= t < a.utx_function_names@.len() && (#[trigger] a.utx_function_names@[t].1)@
                    == a.emitted_funcs@[k].0;
            assert(b.utx_function_names@[t0] == a.utx_function_names@[t0]);
            assert(0 <= t0 < b.utx_function_names@.len() && (b.utx_function_names@[t0].1)@
                == b.emitted_funcs@[k].0);
        }
        assert forall|i: int, j: int|
            0 <= i < j < b.utx_function_names@.len() && (#[trigger] b.utx_function_names@[j]).0
                != 0 implies (#[trigger] b.utx_function_names@[i]).0
            != b.utx_function_names@[j].0 by {
            if j < a.utx_function_names@.len() {
                assert(b.utx_function_names@[i] == a.utx_function_names@[i]);
                assert(b.utx_function_names@[j] == a.utx_function_names@[j]);
            } else {
                assert(b.utx_function_names@[i] == a.utx_function_names@[i]);
                assert(b.utx_function_names@[j].0 == ci);
            }
        }
    }

    pub fn new(skip_safe_splits: bool, explain: bool) -> (r: WatEmitter)
        ensures
            r.lines() == Seq::<Seq<char>>::empty(),
            r.utx_function_names@ == Seq::<(usize, String)>::empty(),
            r.emitted_funcs@ == Seq::<(Seq<char>, bool)>::empty(),
            r.const_refs@ == Seq::<int>::empty(),
            r.skip_safe_splits == skip_safe_splits,
            r.explain == explain,
            r.current_scope_level == 0,
            r.wf(),
    {
        let r = WatEmitter {
            output: Vec::new(),
            utx_function_names: Vec::new(),
            skip_safe_splits,
            explain,
            current_scope_level: 0,
            emitted_funcs: Ghost(Seq::empty()),
            const_refs: Ghost(Seq::empty()),
        };
        proof {
            assert(r.lines() =~= Seq::<Seq<char>>::empty());
        }
        r
    }

    /// Appends one line at the given indent.
    pub fn writeln(&mut self, text: &str, indent: usize)
        ensures
            final(self).lines() == old(self).lines().push(spec_indent(indent as nat) + text@),
            old(self).same_config(*final(self)),
            old(self).same_table_and_trace(*final(self)),
    {
        let mut s = indent_string(indent);
        s.append(text);
        self.output.push(s);
        proof {
            assert(self.lines() =~= old(self).lines().push(
                spec_indent(indent as nat) + text@,
            ));
        }
    }

    /// Appends one instruction line at the current scope's indent, with its
    /// optional annotation.
    pub fn emit_instruction(&mut self, text: &str, annotation: Option<&str>)
        requires
            old(self).current_scope_level <= usize::MAX - 2,
        ensures
            final(self).lines() == old(self).lines().push(
                spec_line(
                    (old(self).current_scope_level + 2) as nat,
                    text@,
                    match annotation {
                        Some(a) => Some(a@),
                        None => None,
                    },
                    old(self).explain,
                ),
            ),
            old(self).same_config(*final(self)),
            old(self).same_table_and_trace(*final(self)),
    {
        let mut t = String::from_str(text);
        if self.explain {
            if let Some(a) = annotation {
                t.append(" ;; ");
                t.append(a);
            }
        }
        let level = self.current_scope_level + 2;
        proof {
            assert(t@ == spec_annotated(
                text@,
                match annotation {
                    Some(a) => Some(a@),
                    None => None,
                },
                self.explain,
            ));
        }
        self.writeln(t.as_str(), level);
    }

    pub fn emit_module(&mut self)
        ensures
            final(self).lines() == old(self).lines().push("(module"@),
            old(self).same_config(*final(self)),
            old(self).same_table_and_trace(*final(self)),
    {
        self.writeln("(module", 0);
        proof {
            assert(spec_indent(0) + "(module"@ =~= "(module"@);
        }
    }

    pub fn emit_end_module(&mut self)
        ensures
            final(self).lines() == old(self).lines().push(")"@),
            old(self).same_config(*final(self)),
            old(self).same_table_and_trace(*final(self)),
    {
        self.writeln(")", 0);
        proof {
            assert(spec_indent(0) + ")"@ =~= ")"@);
        }
    }

    pub fn emit_end_func(&mut self)
        ensures
            final(self).lines() == old(self).lines().push(spec_indent(1) + ")"@),
            old(self).same_config(*final(self)),
            old(self).same_table_and_trace(*final(self)),
    {
        self.writeln(")", 1);
    }

    /// Emits a microtransaction's signature and records, in the ghost trace,
    /// that a transformed (not passthrough) function header is now in the
    /// output.
    pub fn emit_utx_func_signature(&mut self, name: &str)
        ensures
            final(self).lines() == old(self).lines().push(
                spec_indent(1) + spec_func_signature(name@),
            ),
            old(self).same_config(*final(self)),
            final(self).utx_function_names@ == old(self).utx_function_names@,
            final(self).const_refs@ == old(self).const_refs@,
            final(self).emitted_funcs@ == old(self).emitted_funcs@.push((name@, false)),
    {
        let mut t = String::from_str("(func $");
        t.append(name);
        t.append(" (param $utx i32) (param $state i32) (param $arg i32) (result i32)");
        self.writeln(t.as_str(), 1);
        proof {
            self.emitted_funcs@ = self.emitted_funcs@.push((name@, false));
        }
    }

    /// Emits an ignored function verbatim and records the passthrough in the
    /// ghost trace.
    pub fn emit_raw_function(&mut self, name: &str, body: &Vec<String>)
        ensures
            final(self).lines() == old(self).lines() + spec_raw_lines(body@),
            old(self).same_config(*final(self)),
            final(self).utx_function_names@ == old(self).utx_function_names@,
            final(self).const_refs@ == old(self).const_refs@,
            final(self).emitted_funcs@ == old(self).emitted_funcs@.push((name@, true)),
    {
        let mut i: usize = 0;
        while i < body.len()
            invariant
                i <= body@.len(),
                self.lines() == old(self).lines() + spec_raw_lines(body@.take(i as int)),
                old(self).same_config(*self),
                old(self).same_table_and_trace(*self),
            decreases body@.len() - i,
        {
            self.writeln(body[i].as_str(), 1);
            proof {
                assert(spec_raw_lines(body@.take(i + 1)) =~~= spec_raw_lines(
                    body@.take(i as int),
                ).push(spec_indent(1) + body@[i as int]@));
            }
            i = i + 1;
        }
        proof {
            assert(body@.take(body@.len() as int) =~= body@);
            assert(self.lines() =~= old(self).lines() + spec_raw_lines(body@));
            self.emitted_funcs@ = self.emitted_funcs@.push((name@, true));
        }
    }

    /// Emits the local declarations of a transformed function: its own locals
    /// first, keeping their numbering, then the reserved locals.
    pub fn emit_locals(&mut self, locals: &Vec<DataType>)
        ensures
            final(self).lines() == old(self).lines() + spec_local_decl_lines(
                locals@,
                locals@.len() as int,
            ) + spec_reserved_local_lines(),
            old(self).same_config(*final(self)),
            old(self).same_table_and_trace(*final(self)),
    {
        let mut i: usize = 0;
        while i < locals.len()
            invariant
                i <= locals@.len(),
                self.lines() == old(self).lines() + spec_local_decl_lines(locals@, i as int),
                old(self).same_config(*self),
                old(self).same_table_and_trace(*self),
            decreases locals@.len() - i,
        {
            let mut t = String::from_str("(local ");
            t.append(locals[i].as_str());
            t.append(")");
            self.writeln(t.as_str(), 2);
            proof {
                assert(self.lines() =~~= old(self).lines() + spec_local_decl_lines(
                    locals@,
                    i + 1,
                ));
            }
            i = i + 1;
        }
        self.writeln("(local $address i32)", 2);
        self.writeln("(local $i32_juggler i32)", 2);
        self.writeln("(local $i64_juggler i64)", 2);
        self.writeln("(local $f32_juggler f32)", 2);
        self.writeln("(local $f64_juggler f64)", 2);
        proof {
            assert(self.lines() =~~= old(self).lines() + spec_local_decl_lines(
                locals@,
                locals@.len() as int,
            ) + spec_reserved_local_lines());
        }
    }

    /// Serializes the abstract stack above `from` into the transaction
    /// record, top of stack first, and then, when asked, every function local
    /// into the value record.
    pub fn emit_save_stack(
        &mut self,
        stack: &Vec<StackValue>,
        from: usize,
        save_locals: bool,
        locals: &Vec<DataType>,
    )
        requires
            old(self).current_scope_level <= usize::MAX - 2,
            stack@.len() <= MAX_SAVED_SLOTS,
            locals@.len() <= MAX_SAVED_SLOTS,
        ensures
            final(self).lines() == old(self).lines() + spec_save_desc(
                stack@,
                from as int,
                stack@.len() as int,
                (old(self).current_scope_level + 2) as nat,
            ) + if save_locals {
                spec_local_save_lines(
                    locals@,
                    locals@.len() as int,
                    (old(self).current_scope_level + 2) as nat,
                )
            } else {
                Seq::empty()
            },
            old(self).same_config(*final(self)),
            old(self).same_table_and_trace(*final(self)),
    {
        let ghost lvl = (self.current_scope_level + 2) as nat;
        let mut j: usize = stack.len();
        while j > from
            invariant
                j <= stack@.len(),
                j >= from || j == stack@.len(),
                stack@.len() <= MAX_SAVED_SLOTS,
                self.lines() == old(self).lines() + spec_save_desc(
                    stack@,
                    j as int,
                    stack@.len() as int,
                    lvl,
                ),
                lvl == (old(self).current_scope_level + 2) as nat,
                old(self).current_scope_level <= usize::MAX - 2,
                old(self).same_config(*self),
                old(self).same_table_and_trace(*self),
            decreases j,
        {
            j = j - 1;
            let v = stack[j];
            let mut set_line = String::from_str("local.set $");
            set_line.append(v.ty.as_str());
            set_line.append("_juggler");
            self.emit_instruction(set_line.as_str(), None);
            self.emit_instruction("local.get $utx", None);
            let mut get_line = String::from_str("local.get $");
            get_line.append(v.ty.as_str());
            get_line.append("_juggler");
            self.emit_instruction(get_line.as_str(), None);
            let off: u64 = 64 + 8 * (j as u64);
            let mut store_line = String::from_str(v.ty.as_str());
            store_line.append(".store offset=");
            store_line.append(u64_to_string(off).as_str());
            self.emit_instruction(store_line.as_str(), None);
            proof {
                assert(self.lines() =~~= old(self).lines() + spec_save_desc(
                    stack@,
                    j as int,
                    stack@.len() as int,
                    lvl,
                ));
            }
        }
        if save_locals {
            let mut k: usize = 0;
            while k < locals.len()
                invariant
                    k <= locals@.len(),
                    locals@.len() <= MAX_SAVED_SLOTS,
                    self.lines() == old(self).lines() + spec_save_desc(
                        stack@,
                        from as int,
                        stack@.len() as int,
                        lvl,
                    ) + spec_local_save_lines(locals@, k as int, lvl),
                    lvl == (old(self).current_scope_level + 2) as nat,
                    old(self).current_scope_level <= usize::MAX - 2,
                    old(self).same_config(*self),
                    old(self).same_table_and_trace(*self),
                decreases locals@.len() - k,
            {
                self.emit_instruction("local.get $state", None);
                let idx: u64 = 3 + (k as u64);
                let mut get_line = String::from_str("local.get ");
                get_line.append(u64_to_string(idx).as_str());
                self.emit_instruction(get_line.as_str(), None);
                let off: u64 = 64 + 8 * (k as u64);
                let mut store_line = String::from_str(locals[k].as_str());
                store_line.append(".store offset=");
                store_line.append(u64_to_string(off).as_str());
                self.emit_instruction(store_line.as_str(), None);
                proof {
                    assert(self.lines() =~~= old(self).lines() + spec_save_desc(
                        stack@,
                        from as int,
                        stack@.len() as int,
                        lvl,
                    ) + spec_local_save_lines(locals@, k + 1, lvl));
                }
                k = k + 1;
            }
        }
    }

    /// Restores the saved stack slots `from` to `to - 1` from the transaction
    /// record, bottom first.
    pub fn emit_restore_stack(&mut self, stack: &Vec<StackValue>, from: usize, to: usize)
        requires
            old(self).current_scope_level <= usize::MAX - 2,
            to <= stack@.len(),
            stack@.len() <= MAX_SAVED_SLOTS,
        ensures
            final(self).lines() == old(self).lines() + spec_restore_lines(
                stack@,
                from as int,
                to as int,
                (old(self).current_scope_level + 2) as nat,
            ),
            old(self).same_config(*final(self)),
            old(self).same_table_and_trace(*final(self)),
    {
        let ghost lvl = (self.current_scope_level + 2) as nat;
        let mut j: usize = from;
        while j < to
            invariant
                j >= from,
                j <= to || j == from,
                to <= stack@.len(),
                stack@.len() <= MAX_SAVED_SLOTS,
                self.lines() == old(self).lines() + spec_restore_lines(
                    stack@,
                    from as int,
                    j as int,
                    lvl,
                ),
                lvl == (old(self).current_scope_level + 2) as nat,
                old(self).current_scope_level <= usize::MAX - 2,
                old(self).same_config(*self),
                old(self).same_table_and_trace(*self),
            decreases to - j,
        {
            self.emit_instruction("local.get $utx", None);
            let off: u64 = 64 + 8 * (j as u64);
            let mut load_line = String::from_str(stack[j].ty.as_str());
            load_line.append(".load offset=");
            load_line.append(u64_to_string(off).as_str());
            self.emit_instruction(load_line.as_str(), None);
            proof {
                assert(self.lines() =~~= old(self).lines() + spec_restore_lines(
                    stack@,
                    from as int,
                    j + 1,
                    lvl,
                ));
            }
            j = j + 1;
        }
    }

    /// The position of the first table entry registered for this culprit
    /// source offset, if one exists.
    pub fn table_position(&self, culprit_index: usize) -> (r: Option<usize>)
        ensures
            match r {
                Some(p) => {
                    &&& p < self.utx_function_names@.len()
                    &&& self.utx_function_names@[p as int].0 == culprit_index
                    &&& forall|q: int|
                        0 <= q < p ==> (#[trigger] self.utx_function_names@[q]).0 != culprit_index
                },
                None => forall|q: int|
                    0 <= q < self.utx_function_names@.len() ==> (
                    #[trigger] self.utx_function_names@[q]).0 != culprit_index,
            },
    {
        let mut p: usize = 0;
        while p < self.utx_function_names.len()
            invariant
                p <= self.utx_function_names@.len(),
                forall|q: int|
                    0 <= q < p ==> (#[trigger] self.utx_function_names@[q]).0 != culprit_index,
            decreases self.utx_function_names@.len() - p,
        {
            if self.utx_function_names[p].0 == culprit_index {
                return Some(p);
            }
            p = p + 1;
        }
        None
    }

    /// Appends one table entry.
    pub fn push_table_entry(&mut self, culprit_index: usize, name: String)
        ensures
            final(self).utx_function_names@ == old(self).utx_function_names@.push(
                (culprit_index, name),
            ),
            final(self).lines() == old(self).lines(),
            final(self).emitted_funcs@ == old(self).emitted_funcs@,
            final(self).const_refs@ == old(self).const_refs@,
            old(self).same_config(*final(self)),
    {
        self.utx_function_names.push((culprit_index, name));
    }

    /// Emits the `i32.const` that returns the continuation's table index and
    /// records the reference in the ghost trace.
    pub fn emit_continuation_index(&mut self, index: usize)
        requires
            old(self).current_scope_level <= usize::MAX - 2,
        ensures
            final(self).lines() == old(self).lines().push(
                spec_line(
                    (old(self).current_scope_level + 2) as nat,
                    "i32.const "@ + spec_u64_digits(index as nat),
                    Some("Return index to next microtransaction"@),
                    old(self).explain,
                ),
            ),
            final(self).const_refs@ == old(self).const_refs@.push(index as int),
            final(self).utx_function_names@ == old(self).utx_function_names@,
            final(self).emitted_funcs@ == old(self).emitted_funcs@,
            old(self).same_config(*final(self)),
    {
        let mut t = String::from_str("i32.const ");
        t.append(u64_to_string(index as u64).as_str());
        self.emit_instruction(t.as_str(), Some("Return index to next microtransaction"));
        proof {
            self.const_refs@ = self.const_refs@.push(index as int);
        }
    }
}

} // verus!
