//! What the semantics engine reports of one machine instruction, as plain
//! values: three-address operations on storage slots and constants.
use vstd::prelude::*;

verus! {

/// Where a storage slot lives.
#[derive(Clone, Copy, Debug, PartialEq, Eq, Structural, Hash)]
pub enum Space {
    /// An architectural register.
    Register,
    /// A temporary that lives inside one instruction or block.
    Unique,
}

/// A storage slot: a register or a temporary of `size` bytes.
#[derive(Clone, Copy, Debug, PartialEq, Eq, Structural, Hash)]
pub struct Storage {
    pub space: Space,
    pub id: u64,
    pub size: u8,
}

/// An input of an operation.
#[derive(Clone, Copy, Debug, PartialEq, Eq, Structural, Hash)]
pub enum Operand {
    Constant { value: u64, size: u8 },
    Slot(Storage),
    Absent,
}

/// What an operation does.
#[derive(Clone, Copy, Debug, PartialEq, Eq, Structural, Hash)]
pub enum Opcode {
    /// output := first
    Copy,
    /// output := memory[first]
    Load,
    /// memory[first] := second
    Store,
    /// go to first
    Branch,
    /// if second then go to first
    CBranch,
    /// go to the address that first holds
    BranchInd,
    /// call first
    Call,
    /// call the address that first holds
    CallInd,
    Return,
    IntAdd,
    IntSub,
    IntMul,
    IntAnd,
    IntOr,
    IntXor,
    IntLeft,
    IntRight,
    IntNegate,
    IntNot,
    IntEqual,
    IntNotEqual,
    IntLess,
    IntLessEqual,
    IntSLess,
    IntSLessEqual,
    BoolAnd,
    BoolOr,
    BoolNegate,
    /// Anything else: the output, if there is one, becomes unknown.
    Other,
}

/// One three-address operation.
#[derive(Clone, Copy, Debug, PartialEq, Eq, Structural, Hash)]
pub struct RawOperation {
    pub opcode: Opcode,
    pub output: Option<Storage>,
    pub first: Operand,
    pub second: Operand,
}

/// One decoded machine instruction: where it starts, where the next one
/// starts, and the operations it performs, in order.
#[derive(Debug, PartialEq, Eq)]
pub struct DecodedInstruction {
    pub inst_start: u64,
    pub inst_next: u64,
    pub ops: Vec<RawOperation>,
}

/// Each instruction starts where the one before it ends, none is empty, and
/// the first starts at `start`.
pub open spec fn contiguous(instructions: Seq<DecodedInstruction>, start: int) -> bool {
    &&& forall|i: int|
        0 <= i < instructions.len() ==> (#[trigger] instructions[i]).inst_start
            < instructions[i].inst_next
    &&& instructions.len() > 0 ==> instructions[0].inst_start == start
    &&& forall|i: int|
        0 < i < instructions.len() ==> (#[trigger] instructions[i]).inst_start == instructions[i
            - 1].inst_next
}

/// The address at which a contiguous run that starts at `start` ends.
pub open spec fn run_end(instructions: Seq<DecodedInstruction>, start: int) -> int {
    if instructions.len() == 0 {
        start
    } else {
        instructions.last().inst_next as int
    }
}

/// A contiguous run only moves upwards.
pub proof fn contiguous_grows(instructions: Seq<DecodedInstruction>, start: int, i: int)
    requires
        contiguous(instructions, start),
        0 <= i < instructions.len(),
    ensures
        start <= instructions[i].inst_start,
        instructions[i].inst_next <= run_end(instructions, start),
    decreases instructions.len() - i, i,
{
    if i > 0 {
        contiguous_start(instructions, start, i - 1);
    }
    if i < instructions.len() - 1 {
        contiguous_grows(instructions, start, i + 1);
    }
}

proof fn contiguous_start(instructions: Seq<DecodedInstruction>, start: int, i: int)
    requires
        contiguous(instructions, start),
        0 <= i < instructions.len(),
    ensures
        start <= instructions[i].inst_start,
    decreases i,
{
    if i > 0 {
        contiguous_start(instructions, start, i - 1);
    }
}

} // verus!
