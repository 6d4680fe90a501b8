//! Widths and kinds of the values that expressions stand for.
use vstd::prelude::*;

verus! {

/// The width of a value.
#[derive(Clone, Copy, Debug, PartialEq, Eq, Structural, Hash)]
pub enum InstructionSize {
    U8,
    U16,
    U32,
    U64,
}

impl InstructionSize {
    /// The width in bits.
    pub open spec fn bits(self) -> nat {
        match self {
            InstructionSize::U8 => 8,
            InstructionSize::U16 => 16,
            InstructionSize::U32 => 32,
            InstructionSize::U64 => 64,
        }
    }

    /// The number of values of this width, `2^bits`.
    pub open spec fn modulus(self) -> int {
        match self {
            InstructionSize::U8 => 0x100,
            InstructionSize::U16 => 0x1_0000,
            InstructionSize::U32 => 0x1_0000_0000,
            InstructionSize::U64 => 0x1_0000_0000_0000_0000,
        }
    }

    /// `value` cut down to this width.
    pub open spec fn truncated(self, value: u64) -> u64 {
        (value as int % self.modulus()) as u64
    }

    /// `value`, already cut down to this width, read as a two's complement
    /// number of this width.
    pub open spec fn signed(self, value: u64) -> int {
        if 2 * (value as int) >= self.modulus() {
            value as int - self.modulus()
        } else {
            value as int
        }
    }

    /// The width that holds `bytes` bytes: the smallest of the four that is
    /// large enough, and the largest for anything beyond it.
    pub open spec fn of_bytes(bytes: u64) -> InstructionSize {
        if bytes <= 1 {
            InstructionSize::U8
        } else if bytes <= 2 {
            InstructionSize::U16
        } else if bytes <= 4 {
            InstructionSize::U32
        } else {
            InstructionSize::U64
        }
    }

    pub fn from_bytes(bytes: u64) -> (s: InstructionSize)
        ensures
            s == InstructionSize::of_bytes(bytes),
    {
        if bytes <= 1 {
            InstructionSize::U8
        } else if bytes <= 2 {
            InstructionSize::U16
        } else if bytes <= 4 {
            InstructionSize::U32
        } else {
            InstructionSize::U64
        }
    }

    pub fn truncate(self, value: u64) -> (v: u64)
        ensures
            v == self.truncated(value),
            v < self.modulus(),
    {
        match self {
            InstructionSize::U8 => value % 0x100,
            InstructionSize::U16 => value % 0x1_0000,
            InstructionSize::U32 => value % 0x1_0000_0000,
            InstructionSize::U64 => value,
        }
    }

    /// Whether `a` lies below `b` when both are read as two's complement
    /// numbers of this width.
    pub fn signed_less(self, a: u64, b: u64) -> (r: bool)
        requires
            a < self.modulus(),
            b < self.modulus(),
        ensures
            r == (self.signed(a) < self.signed(b)),
    {
        let half: u64 = match self {
            InstructionSize::U8 => 0x80,
            InstructionSize::U16 => 0x8000,
            InstructionSize::U32 => 0x8000_0000,
            InstructionSize::U64 => 0x8000_0000_0000_0000,
        };
        let a_negative: bool = a >= half;
        let b_negative: bool = b >= half;
        if a_negative == b_negative {
            a < b
        } else {
            a_negative
        }
    }
}

/// What a value is taken to be.
#[derive(Clone, Copy, Debug, PartialEq, Eq, Structural, Hash)]
pub enum VariableType {
    Integer,
    Pointer,
    Boolean,
    Unknown,
}

} // verus!
