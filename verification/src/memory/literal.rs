//! What is attached to a range of the address space: bytes that nothing has
//! been decided about yet, or the instructions decoded from them.
use crate::address::{Address, Interval};
use crate::ir::pcode::DecodedInstruction;
use vstd::prelude::*;

verus! {

/// The content of a range.
#[derive(Debug, PartialEq, Eq)]
pub enum LiteralKind {
    /// Raw bytes, undecided.
    Data(Vec<u8>),
    /// Decoded instructions, with the bytes they were decoded from.
    Instruction(Vec<DecodedInstruction>, Vec<u8>),
}

impl LiteralKind {
    /// The bytes that the range holds.
    pub open spec fn bytes(&self) -> Seq<u8> {
        match self {
            LiteralKind::Data(b) => b@,
            LiteralKind::Instruction(_, b) => b@,
        }
    }

    /// The number of bytes that the range holds.
    pub fn size(&self) -> (n: usize)
        ensures
            n == self.bytes().len(),
    {
        match self {
            LiteralKind::Data(b) => b.len(),
            LiteralKind::Instruction(_, b) => b.len(),
        }
    }
}

/// A run of bytes of the image at its address.
#[derive(Debug, PartialEq, Eq)]
pub struct LiteralState {
    pub addr: Address,
    pub kind: LiteralKind,
}

/// A run of bytes of the image at its address, as plain values: the bytes,
/// and the instructions decoded from them if they have been decoded.
pub struct LiteralView {
    pub addr: Address,
    pub bytes: Seq<u8>,
    pub instructions: Option<Seq<DecodedInstruction>>,
}

impl LiteralView {
    /// The range that the bytes occupy: as many addresses as there are
    /// bytes, cut off at the top of the address space.
    pub open spec fn interval(self) -> Interval {
        Interval {
            start: self.addr,
            end: Address(
                if self.addr.0 + self.bytes.len() <= u64::MAX {
                    (self.addr.0 + self.bytes.len()) as u64
                } else {
                    u64::MAX
                },
            ),
        }
    }

    /// Whether every byte has an address of its own.
    pub open spec fn fits(self) -> bool {
        self.addr.0 + self.bytes.len() <= u64::MAX
    }

    /// Undecided bytes at `addr`.
    pub open spec fn data(addr: Address, bytes: Seq<u8>) -> LiteralView {
        LiteralView { addr, bytes, instructions: None }
    }
}

impl View for LiteralState {
    type V = LiteralView;

    open spec fn view(&self) -> LiteralView {
        LiteralView {
            addr: self.addr,
            bytes: self.kind.bytes(),
            instructions: match self.kind {
                LiteralKind::Data(_) => None,
                LiteralKind::Instruction(i, _) => Some(i@),
            },
        }
    }
}

impl LiteralState {
    /// The range that the bytes occupy.
    pub open spec fn interval(&self) -> Interval {
        self@.interval()
    }

    /// Undecided bytes at `addr`.
    pub fn from_bytes(addr: Address, bytes: Vec<u8>) -> (s: LiteralState)
        ensures
            s.addr == addr,
            s.kind == LiteralKind::Data(bytes),
            s@ == LiteralView::data(addr, bytes@),
    {
        LiteralState { addr, kind: LiteralKind::Data(bytes) }
    }

    /// The instructions decoded from `bytes` at `addr`.
    pub fn from_instructions(
        addr: Address,
        instructions: Vec<DecodedInstruction>,
        bytes: Vec<u8>,
    ) -> (s: LiteralState)
        ensures
            s.addr == addr,
            s.kind == LiteralKind::Instruction(instructions, bytes),
            s@ == (LiteralView { addr, bytes: bytes@, instructions: Some(instructions@) }),
    {
        LiteralState { addr, kind: LiteralKind::Instruction(instructions, bytes) }
    }

    pub fn get_interval(&self) -> (r: Interval)
        ensures
            r == self.interval(),
    {
        Interval::from_len(self.addr, self.kind.size())
    }

    /// The decoded instructions, if the bytes have been decoded.
    pub fn get_instructions(&self) -> (r: Option<&Vec<DecodedInstruction>>)
        ensures
            r == match self.kind {
                LiteralKind::Data(_) => None::<&Vec<DecodedInstruction>>,
                LiteralKind::Instruction(i, _) => Some(&i),
            },
    {
        match &self.kind {
            LiteralKind::Data(_) => None,
            LiteralKind::Instruction(i, _) => Some(i),
        }
    }

    /// Whether the bytes are still undecided.
    pub fn is_data(&self) -> (b: bool)
        ensures
            b == (self.kind is Data),
    {
        match &self.kind {
            LiteralKind::Data(_) => true,
            LiteralKind::Instruction(_, _) => false,
        }
    }
}

} // verus!
