//! The supported instruction subset, its stack effects, and the abstract
//! operand-stack and scope-stack values that the splitter works on.

use vstd::prelude::*;

use crate::TransformError;

verus! {

/// The numeric value types of the supported WebAssembly subset.
#[derive(Copy, Clone, PartialEq, Eq, Structural, Debug)]
pub enum DataType {
    I32,
    I64,
    F32,
    F64,
}

impl DataType {
    /// The textual mnemonic of the type, as it appears in WAT source.
    pub fn as_str(&self) -> (r: &'static str)
        ensures
            r@ == self.spec_str(),
    {
        proof {
            reveal_strlit("i32");
            reveal_strlit("i64");
            reveal_strlit("f32");
            reveal_strlit("f64");
        }
        match self {
            DataType::I32 => "i32",
            DataType::I64 => "i64",
            DataType::F32 => "f32",
            DataType::F64 => "f64",
        }
    }

    pub open spec fn spec_str(self) -> Seq<char> {
        match self {
            DataType::I32 => "i32"@,
            DataType::I64 => "i64"@,
            DataType::F32 => "f32"@,
            DataType::F64 => "f64"@,
        }
    }
}

/// How a `local.get` names its local: by number or by identifier.
pub enum LocalIndex {
    Num(u32),
    Id(String),
}

/// The decoded form of one instruction of the supported subset. Loads and
/// stores carry their static offset; `Block` carries its optional label;
/// `LocalGet` carries the local it reads. Everything the splitter does not
/// need to read stays in the instruction's verbatim source text.
///
/// Any instruction outside this set is carried as `Unsupported` together with
/// its source text, and the transform aborts on it.
pub enum Opcode {
    Return,
    End,
    Block(Option<String>),
    Br,
    BrIf,
    Drop,
    LocalGet(LocalIndex),
    LocalSet,
    LocalTee,
    I32WrapI64,
    I32Eqz,
    I64ExtendI32U,
    I32Const,
    I64Const,
    F32Const,
    F64Const,
    I32Load(u64),
    I32Load16u(u64),
    I64Load(u64),
    I64Load32u(u64),
    I32Store(u64),
    I32Store8(u64),
    I32Store16(u64),
    I64Store(u64),
    I32Mul,
    I32Add,
    I32Sub,
    I32Eq,
    I32Ne,
    I32Shl,
    I32Xor,
    I32And,
    I32GtU,
    I32GtS,
    I32LtU,
    I32LtS,
    I64GtU,
    I64GtS,
    I64LtU,
    I64LtS,
    I64Eq,
    I64Ne,
    F32Gt,
    F64Gt,
    I64Mul,
    I64Add,
    I64Sub,
    I64Xor,
    Unsupported(String),
}

/// One abstract operand-stack slot: its type, and whether the value is known
/// to derive from a trusted parameter pointer. Safety is monotonic: once set,
/// it survives the safety-preserving unary operations.
#[derive(Copy, Clone, PartialEq, Eq, Structural, Debug)]
pub struct StackValue {
    pub ty: DataType,
    pub is_safe: bool,
}

/// The kind of an open scope.
#[derive(Copy, Clone, PartialEq, Eq, Structural, Debug)]
pub enum ScopeType {
    Block,
}

/// An open scope: its kind, its optional label, and the operand-stack depth
/// at its entry. Values below `stack_start` are outside the scope.
pub struct Scope {
    pub ty: ScopeType,
    pub name: Option<String>,
    pub stack_start: usize,
}

/// One instruction together with its verbatim source text, its source offset
/// (the deduplication key for splits), and snapshots of the operand stack and
/// scope stack immediately before its effect.
pub struct Instruction {
    pub opcode: Opcode,
    pub raw_text: String,
    pub index: usize,
    pub stack: Vec<StackValue>,
    pub scopes: Vec<Scope>,
}

impl Instruction {
    pub fn new(
        opcode: Opcode,
        raw_text: String,
        index: usize,
        stack: Vec<StackValue>,
        scopes: Vec<Scope>,
    ) -> (r: Instruction)
        ensures
            r.opcode == opcode,
            r.raw_text == raw_text,
            r.index == index,
            r.stack == stack,
            r.scopes == scopes,
    {
        Instruction { opcode, raw_text, index, stack, scopes }
    }

    /// An instruction with empty snapshots, as a front end hands it over
    /// before the abstract interpreter has walked the function.
    pub fn default(opcode: Opcode, raw_text: String) -> (r: Instruction)
        ensures
            r.opcode == opcode,
            r.raw_text == raw_text,
            r.index == 0,
            r.stack@ == Seq::<StackValue>::empty(),
            r.scopes@ == Seq::<Scope>::empty(),
    {
        Instruction::new(opcode, raw_text, 0, Vec::new(), Vec::new())
    }
}

/// What one instruction does to the abstract operand stack: either a plain
/// `Return` (clears the stack), or removal of `remove_n` slots followed by an
/// optional push. `preserves_safety` applies only when `remove_n` is 1: the
/// popped slot's safety flag is carried into the pushed slot.
pub enum StackEffect {
    Normal { remove_n: usize, add: Option<StackValue>, preserves_safety: bool },
    Return,
}

/// Whether a local is one of the three trusted parameter slots when named by
/// number. Microtransactions take their parameters in positions 0 to 2.
pub fn index_is_param(index: u32) -> (r: bool)
    ensures
        r == (index < 3),
{
    index < 3
}

/// Whether a local named by identifier is a recognized trusted parameter.
pub fn name_is_param(name: &str) -> (r: bool)
    ensures
        r == spec_name_is_param(name@),
{
    let n = String::from_str(name);
    n == String::from_str("tx") || n == String::from_str("state")
}

pub open spec fn spec_name_is_param(name: Seq<char>) -> bool {
    name == "tx"@ || name == "state"@
}

/// The type a `local.get` pushes and whether the value it pushes is safe.
/// The local table is virtually prefixed by three implicit `i32` parameter
/// slots, so numeric indices 0 to 2 name parameters; a numeric index past the
/// known locals, or an identifier, defaults to `i32`.
pub open spec fn spec_param_type(idx: LocalIndex, locals: Seq<DataType>) -> DataType {
    match idx {
        LocalIndex::Num(i) => if i < 3 {
            DataType::I32
        } else if i - 3 < locals.len() {
            locals[i - 3]
        } else {
            DataType::I32
        },
        LocalIndex::Id(_) => DataType::I32,
    }
}

pub open spec fn spec_param_safe(idx: LocalIndex) -> bool {
    match idx {
        LocalIndex::Num(i) => i < 3,
        LocalIndex::Id(name) => spec_name_is_param(name@),
    }
}

/// Looks up the type and safety that a `local.get` of `index` pushes.
pub fn type_and_safety_from_param(index: &LocalIndex, local_types: &[DataType]) -> (r: (
    DataType,
    bool,
))
    ensures
        r.0 == spec_param_type(*index, local_types@),
        r.1 == spec_param_safe(*index),
{
    match index {
        LocalIndex::Num(i) => {
            let i = *i;
            if i < 3 {
                (DataType::I32, true)
            } else if ((i - 3) as usize) < local_types.len() {
                (local_types[(i - 3) as usize], false)
            } else {
                (DataType::I32, false)
            }
        },
        LocalIndex::Id(id) => (DataType::I32, name_is_param(id.as_str())),
    }
}

/// The stack effect of each supported opcode. For an unsupported opcode the
/// result is meaningless; every user checks `op_supported` first.
pub open spec fn spec_effect(op: Opcode, locals: Seq<DataType>) -> StackEffect {
    match op {
        Opcode::Return => StackEffect::Return,
        Opcode::End | Opcode::Block(_) | Opcode::Br => spec_normal(0, None, false, false),
        Opcode::LocalGet(idx) => spec_normal(
            0,
            Some(spec_param_type(idx, locals)),
            spec_param_safe(idx),
            true,
        ),
        Opcode::LocalTee | Opcode::LocalSet | Opcode::Drop | Opcode::BrIf => spec_normal(
            1,
            None,
            false,
            false,
        ),
        Opcode::I32Load(_) | Opcode::I32Load16u(_) | Opcode::I32WrapI64 | Opcode::I32Eqz
            => spec_normal(1, Some(DataType::I32), false, true),
        Opcode::I64Load(_) | Opcode::I64Load32u(_) | Opcode::I64ExtendI32U => spec_normal(
            1,
            Some(DataType::I64),
            false,
            false,
        ),
        Opcode::I32Const => spec_normal(0, Some(DataType::I32), false, false),
        Opcode::I64Const => spec_normal(0, Some(DataType::I64), false, false),
        Opcode::F32Const => spec_normal(0, Some(DataType::F32), false, false),
        Opcode::F64Const => spec_normal(0, Some(DataType::F64), false, false),
        Opcode::I32Mul | Opcode::I32Add | Opcode::I32Sub | Opcode::I32Eq | Opcode::I32Ne
        | Opcode::I32Shl | Opcode::I32Xor | Opcode::I32And | Opcode::I32GtU | Opcode::I32GtS
        | Opcode::I32LtU | Opcode::I32LtS | Opcode::I64GtU | Opcode::I64GtS | Opcode::I64LtU
        | Opcode::I64LtS | Opcode::I64Eq | Opcode::I64Ne | Opcode::F32Gt | Opcode::F64Gt
            => spec_normal(2, Some(DataType::I32), false, false),
        Opcode::I64Mul | Opcode::I64Add | Opcode::I64Sub | Opcode::I64Xor => spec_normal(
            2,
            Some(DataType::I64),
            false,
            false,
        ),
        Opcode::I32Store(_) | Opcode::I32Store8(_) | Opcode::I32Store16(_) | Opcode::I64Store(
            _,
        ) => spec_normal(2, None, false, false),
        Opcode::Unsupported(_) => spec_normal(0, None, false, false),
    }
}

pub open spec fn spec_normal(
    remove_n: usize,
    add: Option<DataType>,
    is_safe: bool,
    preserves_safety: bool,
) -> StackEffect {
    StackEffect::Normal {
        remove_n,
        add: match add {
            Some(ty) => Some(StackValue { ty, is_safe }),
            None => None,
        },
        preserves_safety,
    }
}

/// Whether an opcode belongs to the enumerated supported subset.
pub open spec fn op_supported(op: Opcode) -> bool {
    !(op matches Opcode::Unsupported(_))
}

impl StackEffect {
    pub fn new(
        remove_n: usize,
        add: Option<DataType>,
        is_safe: bool,
        preserves_safety: bool,
    ) -> (r: StackEffect)
        ensures
            r == spec_normal(remove_n, add, is_safe, preserves_safety),
    {
        StackEffect::Normal {
            remove_n,
            add: match add {
                Some(ty) => Some(StackValue { ty, is_safe }),
                None => None,
            },
            preserves_safety,
        }
    }

    /// Maps an opcode to its stack effect. This is the single place that
    /// detects unsupported instructions. `LocalTee` is deliberately given the
    /// noncanonical effect of removing one slot and pushing none: a known
    /// deviation, kept so that the produced modules do not change shape.
    pub fn from_opcode(op: &Opcode, local_types: &[DataType]) -> (r: Result<
        StackEffect,
        TransformError,
    >)
        ensures
            if op_supported(*op) {
                r == Ok::<StackEffect, TransformError>(spec_effect(*op, local_types@))
            } else {
                *op matches Opcode::Unsupported(raw) && r == Err::<StackEffect, TransformError>(
                    TransformError::UnsupportedOpcode(raw),
                )
            },
    {
        match op {
            Opcode::Return => Ok(StackEffect::Return),
            Opcode::End | Opcode::Block(_) | Opcode::Br => Ok(
                StackEffect::new(0, None, false, false),
            ),
            Opcode::LocalGet(idx) => {
                let (ty, is_safe) = type_and_safety_from_param(idx, local_types);
                Ok(StackEffect::new(0, Some(ty), is_safe, true))
            },
            Opcode::LocalTee | Opcode::LocalSet | Opcode::Drop | Opcode::BrIf => Ok(
                StackEffect::new(1, None, false, false),
            ),
            Opcode::I32Load(_) | Opcode::I32Load16u(_) | Opcode::I32WrapI64 | Opcode::I32Eqz => Ok(
                StackEffect::new(1, Some(DataType::I32), false, true),
            ),
            Opcode::I64Load(_) | Opcode::I64Load32u(_) | Opcode::I64ExtendI32U => Ok(
                StackEffect::new(1, Some(DataType::I64), false, false),
            ),
            Opcode::I32Const => Ok(StackEffect::new(0, Some(DataType::I32), false, false)),
            Opcode::I64Const => Ok(StackEffect::new(0, Some(DataType::I64), false, false)),
            Opcode::F32Const => Ok(StackEffect::new(0, Some(DataType::F32), false, false)),
            Opcode::F64Const => Ok(StackEffect::new(0, Some(DataType::F64), false, false)),
            Opcode::I32Mul | Opcode::I32Add | Opcode::I32Sub | Opcode::I32Eq | Opcode::I32Ne
            | Opcode::I32Shl | Opcode::I32Xor | Opcode::I32And | Opcode::I32GtU | Opcode::I32GtS
            | Opcode::I32LtU | Opcode::I32LtS | Opcode::I64GtU | Opcode::I64GtS | Opcode::I64LtU
            | Opcode::I64LtS | Opcode::I64Eq | Opcode::I64Ne | Opcode::F32Gt | Opcode::F64Gt => Ok(
                StackEffect::new(2, Some(DataType::I32), false, false),
            ),
            Opcode::I64Mul | Opcode::I64Add | Opcode::I64Sub | Opcode::I64Xor => Ok(
                StackEffect::new(2, Some(DataType::I64), false, false),
            ),
            Opcode::I32Store(_) | Opcode::I32Store8(_) | Opcode::I32Store16(_)
            | Opcode::I64Store(_) => Ok(StackEffect::new(2, None, false, false)),
            Opcode::Unsupported(raw) => Err(TransformError::UnsupportedOpcode(raw.clone())),
        }
    }

    pub fn from_instruction(instruction: &Instruction, local_types: &[DataType]) -> (r: Result<
        StackEffect,
        TransformError,
    >)
        ensures
            if op_supported(instruction.opcode) {
                r == Ok::<StackEffect, TransformError>(
                    spec_effect(instruction.opcode, local_types@),
                )
            } else {
                r is Err
            },
    {
        StackEffect::from_opcode(&instruction.opcode, local_types)
    }

    /// Whether applying this effect to `s` would pop below its bottom.
    pub open spec fn spec_underflows(self, s: Seq<StackValue>) -> bool {
        match self {
            StackEffect::Return => false,
            StackEffect::Normal { remove_n, .. } => s.len() < remove_n,
        }
    }

    /// The stack after this effect, assuming no underflow.
    pub open spec fn spec_apply(self, s: Seq<StackValue>) -> Seq<StackValue>
        recommends
            !self.spec_underflows(s),
    {
        match self {
            StackEffect::Return => Seq::empty(),
            StackEffect::Normal { remove_n, add, preserves_safety } => {
                let base = s.take(s.len() - remove_n);
                match add {
                    None => base,
                    Some(v) => base.push(
                        StackValue {
                            ty: v.ty,
                            is_safe: v.is_safe || (preserves_safety && remove_n == 1
                                && s.last().is_safe),
                        },
                    ),
                }
            },
        }
    }

    /// Applies this effect to the operand stack. On underflow the stack has
    /// been drained and the input program is malformed.
    pub fn update_stack(&self, stack: &mut Vec<StackValue>) -> (r: Result<(), TransformError>)
        ensures
            if self.spec_underflows(old(stack)@) {
                &&& r == Err::<(), TransformError>(TransformError::UnbalancedStack)
                &&& final(stack)@ == Seq::<StackValue>::empty()
            } else {
                &&& r == Ok::<(), TransformError>(())
                &&& final(stack)@ == self.spec_apply(old(stack)@)
            },
    {
        match self {
            StackEffect::Return => {
                stack.clear();
                Ok(())
            },
            StackEffect::Normal { remove_n, add, preserves_safety } => {
                let remove_n = *remove_n;
                let mut is_safe = false;
                let mut k: usize = 0;
                while k < remove_n
                    invariant
                        *self == (StackEffect::Normal {
                            remove_n,
                            add: *add,
                            preserves_safety: *preserves_safety,
                        }),
                        k <= remove_n,
                        k <= old(stack)@.len(),
                        stack@ == old(stack)@.take(old(stack)@.len() - k),
                        is_safe == (*preserves_safety && remove_n == 1 && k == 1 && old(
                            stack,
                        )@.last().is_safe),
                    decreases remove_n - k,
                {
                    match stack.pop() {
                        None => {
                            proof {
                                assert(old(stack)@.len() == k);
                                assert(stack@ =~= Seq::<StackValue>::empty());
                            }
                            return Err(TransformError::UnbalancedStack);
                        },
                        Some(v) => {
                            assert(v == old(stack)@[old(stack)@.len() - k - 1]);
                            is_safe = is_safe || (*preserves_safety && remove_n == 1 && v.is_safe);
                        },
                    }
                    k = k + 1;
                }
                if let Some(sv) = add {
                    stack.push(StackValue { ty: sv.ty, is_safe: sv.is_safe || is_safe });
                }
                Ok(())
            },
        }
    }
}

/// What a memory instruction does: the value type it moves and the static
/// offset of its memory argument.
#[derive(Copy, Clone, PartialEq, Eq, Structural, Debug)]
pub enum MemoryInstructionType {
    Load { ty: DataType, offset: u64 },
    Store { ty: DataType, offset: u64 },
}

impl MemoryInstructionType {
    /// How many operand-stack slots the instruction consumes.
    pub open spec fn spec_operands(self) -> nat {
        match self {
            MemoryInstructionType::Load { .. } => 1,
            MemoryInstructionType::Store { .. } => 2,
        }
    }

    /// Whether the operands the instruction consumes are all safe.
    pub open spec fn spec_operands_safe(self, s: Seq<StackValue>) -> bool
        recommends
            s.len() >= self.spec_operands(),
    {
        match self {
            MemoryInstructionType::Load { .. } => s.last().is_safe,
            MemoryInstructionType::Store { .. } => s.last().is_safe && s[s.len() - 2].is_safe,
        }
    }

    /// Whether the instruction must force a split: always, unless safe-split
    /// elision is enabled and every consumed operand is safe.
    pub open spec fn spec_needs_split(self, s: Seq<StackValue>, skip_safe_splits: bool) -> bool {
        !(skip_safe_splits && self.spec_operands_safe(s))
    }

    /// Decides whether this memory instruction splits the function, given the
    /// operand stack just before it. The operands are only consulted when
    /// safe-split elision is on; a stack too short to hold them is malformed.
    pub fn needs_split(&self, stack: &Vec<StackValue>, skip_safe_splits: bool) -> (r: Result<
        bool,
        TransformError,
    >)
        ensures
            match r {
                Ok(b) => {
                    &&& b == self.spec_needs_split(stack@, skip_safe_splits)
                    &&& skip_safe_splits ==> stack@.len() >= self.spec_operands()
                },
                Err(e) => {
                    &&& e == TransformError::UnbalancedStack
                    &&& skip_safe_splits
                    &&& stack@.len() < self.spec_operands()
                },
            },
    {
        if !skip_safe_splits {
            return Ok(true);
        }
        match self {
            MemoryInstructionType::Load { .. } => {
                if stack.len() < 1 {
                    Err(TransformError::UnbalancedStack)
                } else {
                    Ok(!stack[stack.len() - 1].is_safe)
                }
            },
            MemoryInstructionType::Store { .. } => {
                if stack.len() < 2 {
                    Err(TransformError::UnbalancedStack)
                } else {
                    Ok(!(stack[stack.len() - 1].is_safe && stack[stack.len() - 2].is_safe))
                }
            },
        }
    }
}

/// A structural (non-memory) instruction, as the splitter cares about it.
pub enum BlockInstructionType {
    Block(Option<String>),
    End,
}

pub enum BenignInstructionType {
    Block(BlockInstructionType),
    Return,
    Other,
}

/// An instruction as the splitter sees it: a memory access, or anything else.
pub enum InstructionType {
    Memory(MemoryInstructionType),
    Benign(BenignInstructionType),
}

pub open spec fn spec_instruction_type(op: Opcode) -> InstructionType {
    match op {
        Opcode::I32Load(offset) | Opcode::I32Load16u(offset) => InstructionType::Memory(
            MemoryInstructionType::Load { ty: DataType::I32, offset },
        ),
        Opcode::I64Load(offset) | Opcode::I64Load32u(offset) => InstructionType::Memory(
            MemoryInstructionType::Load { ty: DataType::I64, offset },
        ),
        Opcode::I32Store(offset) | Opcode::I32Store8(offset) | Opcode::I32Store16(offset)
            => InstructionType::Memory(MemoryInstructionType::Store { ty: DataType::I32, offset }),
        Opcode::I64Store(offset) => InstructionType::Memory(
            MemoryInstructionType::Store { ty: DataType::I64, offset },
        ),
        Opcode::Block(label) => InstructionType::Benign(
            BenignInstructionType::Block(BlockInstructionType::Block(label)),
        ),
        Opcode::End => InstructionType::Benign(
            BenignInstructionType::Block(BlockInstructionType::End),
        ),
        Opcode::Return => InstructionType::Benign(BenignInstructionType::Return),
        _ => InstructionType::Benign(BenignInstructionType::Other),
    }
}

impl InstructionType {
    /// Classifies an opcode for the splitter.
    pub fn from_opcode(op: &Opcode) -> (r: InstructionType)
        ensures
            r == spec_instruction_type(*op),
    {
        match op {
            Opcode::I32Load(offset) => InstructionType::Memory(
                MemoryInstructionType::Load { ty: DataType::I32, offset: *offset },
            ),
            Opcode::I32Load16u(offset) => InstructionType::Memory(
                MemoryInstructionType::Load { ty: DataType::I32, offset: *offset },
            ),
            Opcode::I64Load(offset) => InstructionType::Memory(
                MemoryInstructionType::Load { ty: DataType::I64, offset: *offset },
            ),
            Opcode::I64Load32u(offset) => InstructionType::Memory(
                MemoryInstructionType::Load { ty: DataType::I64, offset: *offset },
            ),
            Opcode::I32Store(offset) => InstructionType::Memory(
                MemoryInstructionType::Store { ty: DataType::I32, offset: *offset },
            ),
            Opcode::I32Store8(offset) => InstructionType::Memory(
                MemoryInstructionType::Store { ty: DataType::I32, offset: *offset },
            ),
            Opcode::I32Store16(offset) => InstructionType::Memory(
                MemoryInstructionType::Store { ty: DataType::I32, offset: *offset },
            ),
            Opcode::I64Store(offset) => InstructionType::Memory(
                MemoryInstructionType::Store { ty: DataType::I64, offset: *offset },
            ),
            Opcode::Block(label) => {
                let l: Option<String> = match label {
                    Some(s) => Some(s.clone()),
                    None => None,
                };
                InstructionType::Benign(
                    BenignInstructionType::Block(BlockInstructionType::Block(l)),
                )
            },
            Opcode::End => InstructionType::Benign(
                BenignInstructionType::Block(BlockInstructionType::End),
            ),
            Opcode::Return => InstructionType::Benign(BenignInstructionType::Return),
            _ => InstructionType::Benign(BenignInstructionType::Other),
        }
    }
}

/// A memory instruction's stack effect removes exactly its operands.
pub proof fn lemma_memory_effect_operands(op: Opcode, locals: Seq<DataType>)
    ensures
        spec_instruction_type(op) matches InstructionType::Memory(m) ==> (spec_effect(op, locals)
            matches StackEffect::Normal { remove_n, .. } && remove_n == m.spec_operands()),
{
}

/// The scope-depth change an opcode causes: `block` opens one, `end` closes
/// one.
pub open spec fn spec_scope_delta(op: Opcode) -> int {
    match op {
        Opcode::Block(_) => 1,
        Opcode::End => -1,
        _ => 0,
    }
}

/// The nesting level after the first `n` of `instrs`, starting from level 1
/// (inside the scope whose end is being sought).
pub open spec fn spec_level_at(instrs: Seq<Instruction>, n: int) -> int
    decreases n,
{
    if n <= 0 {
        1
    } else {
        spec_level_at(instrs, n - 1) + spec_scope_delta(instrs[n - 1].opcode)
    }
}

/// Finds, in a sequence that starts inside one open scope, the position of
/// the `end` that closes it: the first position after which the nesting
/// level reaches zero. Errs when the sequence ends first.
pub fn index_of_scope_end(instructions: &[Instruction]) -> (r: Result<usize, TransformError>)
    requires
        instructions@.len() < usize::MAX,
    ensures
        match r {
            Ok(i) => {
                &&& i < instructions@.len()
                &&& spec_level_at(instructions@, i + 1) == 0
                &&& forall|j: int| 0 <= j <= i ==> spec_level_at(instructions@, j) > 0
            },
            Err(e) => {
                &&& e == TransformError::UnbalancedScope
                &&& forall|j: int|
                    0 <= j <= instructions@.len() ==> spec_level_at(instructions@, j) > 0
            },
        },
{
    let mut scope_level: usize = 1;
    let mut i: usize = 0;
    while i < instructions.len()
        invariant
            i <= instructions@.len(),
            scope_level == spec_level_at(instructions@, i as int),
            scope_level > 0,
            scope_level <= i + 1,
            instructions@.len() < usize::MAX,
            forall|j: int| 0 <= j <= i ==> spec_level_at(instructions@, j) > 0,
        decreases instructions@.len() - i,
    {
        match &instructions[i].opcode {
            Opcode::Block(_) => {
                scope_level = scope_level + 1;
            },
            Opcode::End => {
                scope_level = scope_level - 1;
                if scope_level == 0 {
                    return Ok(i);
                }
            },
            _ => {},
        }
        i = i + 1;
    }
    Err(TransformError::UnbalancedScope)
}

} // verus!
