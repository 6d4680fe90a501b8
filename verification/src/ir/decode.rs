//! Decoding a run of instructions, one at a time. The semantics engine does
//! the decoding; the session here decides where it is asked next and when
//! the run is over: at the first refusal, or when the bytes are used up.
use crate::ir::pcode::{contiguous, run_end, DecodedInstruction, RawOperation};
use vstd::prelude::*;

verus! {

/// What the semantics engine reports of one instruction: its length in
/// bytes and the operations it performs.
#[derive(Debug, PartialEq, Eq)]
pub struct OracleAnswer {
    pub length: u64,
    pub ops: Vec<RawOperation>,
}

/// Where the semantics engine is asked next.
#[derive(Clone, Copy, Debug, PartialEq, Eq, Structural)]
pub struct DecodeRequest {
    /// The offset into the bytes of the run.
    pub offset: usize,
    /// The address of the instruction.
    pub address: u64,
}

/// A run of instructions that is being decoded from `available` bytes at
/// the address `start`.
pub struct DecodeSession {
    start: u64,
    available: usize,
    instructions: Vec<DecodedInstruction>,
    stopped: bool,
}

impl DecodeSession {
    /// The address of the first instruction.
    pub closed spec fn start(&self) -> u64 {
        self.start
    }

    /// The number of bytes that the run may use.
    pub closed spec fn available(&self) -> usize {
        self.available
    }

    /// The instructions decoded so far.
    pub closed spec fn decoded(&self) -> Seq<DecodedInstruction> {
        self.instructions@
    }

    /// Whether the run has been ended by a refusal.
    pub closed spec fn stopped(&self) -> bool {
        self.stopped
    }

    /// The address at which the next instruction starts.
    pub open spec fn cursor(&self) -> int {
        run_end(self.decoded(), self.start() as int)
    }

    /// The instructions decoded so far go on from the start without a gap
    /// and stay inside the bytes of the run, which lie inside the address
    /// space.
    pub open spec fn wf(&self) -> bool {
        &&& contiguous(self.decoded(), self.start() as int)
        &&& self.start() <= self.cursor() <= self.start() + self.available()
        &&& self.start() + self.available() <= u64::MAX
    }

    /// Whether another instruction is to be decoded.
    pub open spec fn pending(&self) -> bool {
        !self.stopped() && self.cursor() < self.start() + self.available()
    }

    /// Whether an answer is taken into the run: it has a length, and the
    /// instruction ends inside the bytes of the run.
    pub open spec fn accepts(&self, length: u64) -> bool {
        self.pending() && length > 0 && self.cursor() + length <= self.start() + self.available()
    }

    /// A session for the `available` bytes at `start`. Bytes that would lie
    /// beyond the address space are left out.
    pub fn new(start: u64, available: usize) -> (s: DecodeSession)
        ensures
            s.wf(),
            s.start() == start,
            s.available() == if start + available <= u64::MAX {
                available
            } else {
                (u64::MAX - start) as usize
            },
            s.decoded().len() == 0,
            !s.stopped(),
    {
        let room: u64 = u64::MAX - start;
        let available: usize = if available as u64 <= room {
            available
        } else {
            room as usize
        };
        DecodeSession { start, available, instructions: Vec::new(), stopped: false }
    }

    fn position(&self) -> (cursor: u64)
        requires
            self.wf(),
        ensures
            cursor == self.cursor(),
    {
        if self.instructions.len() == 0 {
            self.start
        } else {
            self.instructions[self.instructions.len() - 1].inst_next
        }
    }

    /// Where the semantics engine is to be asked next, or nothing when the
    /// run is over.
    pub fn next_request(&self) -> (r: Option<DecodeRequest>)
        requires
            self.wf(),
        ensures
            r is Some <==> self.pending(),
            r is Some ==> r->Some_0.address == self.cursor() && r->Some_0.offset == self.cursor()
                - self.start(),
    {
        let cursor = self.position();
        if self.stopped || cursor - self.start >= self.available as u64 {
            None
        } else {
            Some(DecodeRequest { offset: (cursor - self.start) as usize, address: cursor })
        }
    }

    /// Takes the answer of the semantics engine to the last request. A
    /// refusal ends the run, and so does an answer without a length or one
    /// that reaches beyond the bytes of the run. Any other answer adds one
    /// instruction. Once the run is over, answers change nothing.
    pub fn accept(&mut self, answer: Option<OracleAnswer>)
        requires
            old(self).wf(),
        ensures
            final(self).wf(),
            final(self).start() == old(self).start(),
            final(self).available() == old(self).available(),
            match answer {
                Some(a) => if old(self).accepts(a.length) {
                    final(self).decoded() == old(self).decoded().push(
                        DecodedInstruction {
                            inst_start: old(self).cursor() as u64,
                            inst_next: (old(self).cursor() + a.length) as u64,
                            ops: a.ops,
                        },
                    ) && !final(self).stopped()
                } else {
                    final(self).decoded() == old(self).decoded() && final(self).stopped() == (
                    old(self).stopped() || old(self).pending())
                },
                None => final(self).decoded() == old(self).decoded() && final(self).stopped() == (
                old(self).stopped() || old(self).pending()),
            },
    {
        let cursor = self.position();
        let pending = !self.stopped && cursor - self.start < self.available as u64;
        if !pending {
            return ;
        }
        match answer {
            Some(a) => {
                let room: u64 = self.available as u64 - (cursor - self.start);
                if a.length > 0 && a.length <= room {
                    let ghost before = self.instructions@;
                    self.instructions.push(
                        DecodedInstruction {
                            inst_start: cursor,
                            inst_next: cursor + a.length,
                            ops: a.ops,
                        },
                    );
                    proof {
                        let now = self.instructions@;
                        assert forall|i: int| 0 < i < now.len() implies (#[trigger] now[i]).inst_start
                            == now[i - 1].inst_next by {
                            if i < before.len() {
                                assert(now[i] == before[i]);
                                assert(now[i - 1] == before[i - 1]);
                            }
                        }
                        assert forall|i: int| 0 <= i < now.len() implies (#[trigger] now[i]).inst_start
                            < now[i].inst_next by {
                            if i < before.len() {
                                assert(now[i] == before[i]);
                            }
                        }
                        if before.len() > 0 {
                            assert(now[0] == before[0]);
                        }
                    }
                } else {
                    self.stopped = true;
                }
            },
            None => {
                self.stopped = true;
            },
        }
    }

    /// Ends the session and hands out the run: the instructions decoded, or
    /// nothing where not one was.
    pub fn finish(self) -> (r: Option<Vec<DecodedInstruction>>)
        requires
            self.wf(),
        ensures
            match r {
                Some(run) => run@ == self.decoded() && run@.len() > 0 && contiguous(
                    run@,
                    self.start() as int,
                ) && run@.last().inst_next <= self.start() + self.available(),
                None => self.decoded().len() == 0,
            },
    {
        if self.instructions.len() == 0 {
            None
        } else {
            Some(self.instructions)
        }
    }
}

} // verus!
