//! Marking a range as instructions: the undecided bytes that held the range
//! are split into what comes before the decoded run, the run itself, and
//! what comes after it. The addresses that the model covers stay the same.
use crate::address::{Address, Interval};
use crate::ir::lift::{all_lifted, lift, IrStore};
use crate::ir::pcode::{contiguous, contiguous_grows, DecodedInstruction};
use crate::memory::interval_map::{covered_by, ending_by, ending_by_bounds, ordered};
use crate::memory::literal::{LiteralKind, LiteralState, LiteralView};
use crate::memory::{content, content_keeps_ranges, keyed, Memory};
use vstd::prelude::*;

verus! {

/// The instructions of an optional run.
pub open spec fn run_view(decoded: Option<Vec<DecodedInstruction>>) -> Option<
    Seq<DecodedInstruction>,
> {
    match decoded {
        Some(d) => Some(d@),
        None => None,
    }
}

/// Whether `decoded` can be marked at `addr`: the address lies in a range
/// of undecided bytes, and the run is not empty, starts at the address,
/// goes on without a gap, and ends inside the range.
pub open spec fn markable(
    c: Seq<(Interval, LiteralView)>,
    addr: Address,
    decoded: Option<Seq<DecodedInstruction>>,
) -> bool {
    let k = ending_by(c, addr.0 as int);
    &&& 0 <= k < c.len()
    &&& c[k].0.contains(addr.0 as int)
    &&& c[k].1.instructions is None
    &&& decoded is Some
    &&& decoded->Some_0.len() > 0
    &&& contiguous(decoded->Some_0, addr.0 as int)
    &&& decoded->Some_0.last().inst_next - c[k].1.addr.0 <= c[k].1.bytes.len()
}

/// What becomes of the range `e` when the run `d` is marked at `addr`: the
/// bytes before the run, if there are any, still undecided; the run with its
/// bytes; and the bytes after the run, if there are any, still undecided.
pub open spec fn split_pieces(e: LiteralView, addr: Address, d: Seq<DecodedInstruction>) -> Seq<
    (Interval, LiteralView),
> {
    let offset = addr.0 - e.addr.0;
    let end = d.last().inst_next - e.addr.0;
    let left = LiteralView::data(e.addr, e.bytes.subrange(0, offset));
    let middle = LiteralView { addr, bytes: e.bytes.subrange(offset, end), instructions: Some(d) };
    let right = LiteralView::data(
        Address(d.last().inst_next),
        e.bytes.subrange(end, e.bytes.len() as int),
    );
    (if offset > 0 {
        seq![(left.interval(), left)]
    } else {
        seq![]
    }) + seq![(middle.interval(), middle)] + (if end < e.bytes.len() {
        seq![(right.interval(), right)]
    } else {
        seq![]
    })
}

/// The address-space model after `decoded` has been marked at `addr`. Where
/// the run cannot be marked nothing changes.
pub open spec fn marked(
    c: Seq<(Interval, LiteralView)>,
    addr: Address,
    decoded: Option<Seq<DecodedInstruction>>,
) -> Seq<(Interval, LiteralView)> {
    if markable(c, addr, decoded) {
        let k = ending_by(c, addr.0 as int);
        c.subrange(0, k) + split_pieces(c[k].1, addr, decoded->Some_0) + c.subrange(
            k + 1,
            c.len() as int,
        )
    } else {
        c
    }
}

/// Marking keeps the model a partition and covers the addresses that were
/// covered before, no more and no fewer.
pub proof fn marking_keeps_coverage(
    c: Seq<(Interval, LiteralView)>,
    addr: Address,
    decoded: Option<Seq<DecodedInstruction>>,
)
    requires
        ordered(c),
        keyed(c),
    ensures
        ordered(marked(c, addr, decoded)),
        keyed(marked(c, addr, decoded)),
        covered_by(marked(c, addr, decoded)) == covered_by(c),
{
    if markable(c, addr, decoded) {
        let d = decoded->Some_0;
        let k = ending_by(c, addr.0 as int);
        let e = c[k].1;
        let p = split_pieces(e, addr, d);
        let t = marked(c, addr, decoded);
        let offset = addr.0 - e.addr.0;
        let end = d.last().inst_next - e.addr.0;
        contiguous_grows(d, addr.0 as int, d.len() - 1);
        contiguous_grows(d, addr.0 as int, 0);
        assert(c[k].0 == e.interval() && e.fits());
        assert(!c[k].0.is_empty());
        assert(0 <= offset < end <= e.bytes.len());
        let lead: int = if offset > 0 { 1 } else { 0 };
        let trail: int = if end < e.bytes.len() { 1 } else { 0 };
        assert(p.len() == lead + 1 + trail);
        assert(p[lead].0 == Interval { start: addr, end: Address(d.last().inst_next) });
        if offset > 0 {
            assert(p[0].0 == Interval { start: e.addr, end: addr });
        }
        if trail == 1 {
            assert(p[lead + 1].0 == Interval {
                start: Address(d.last().inst_next),
                end: c[k].0.end,
            });
        }
        assert forall|j: int| 0 <= j < p.len() implies !(#[trigger] p[j]).0.is_empty()
            && c[k].0.start.0 <= p[j].0.start.0 && p[j].0.end.0 <= c[k].0.end.0 && p[j].0
            == p[j].1.interval() && p[j].1.fits() by {}
        assert forall|a: int, b: int| 0 <= a < b < p.len() implies (#[trigger] p[a]).0.end.0 <= (
        #[trigger] p[b]).0.start.0 by {}
        assert forall|a: int| 0 <= a < t.len() implies !(#[trigger] t[a]).0.is_empty() && t[a].0
            == t[a].1.interval() && t[a].1.fits() by {
            if a < k {
                assert(t[a] == c[a]);
            } else if a < k + p.len() {
                assert(t[a] == p[a - k]);
            } else {
                assert(t[a] == c[a - p.len() + 1]);
            }
        }
        assert forall|a: int, b: int| 0 <= a < b < t.len() implies (#[trigger] t[a]).0.end.0 <= (
        #[trigger] t[b]).0.start.0 by {
            if a < k {
                assert(t[a] == c[a]);
                assert(c[a].0.end.0 <= c[k].0.start.0);
            } else if a < k + p.len() {
                assert(t[a] == p[a - k]);
            } else {
                assert(t[a] == c[a - p.len() + 1]);
            }
            if b < k {
                assert(t[b] == c[b]);
            } else if b < k + p.len() {
                assert(t[b] == p[b - k]);
            } else {
                assert(t[b] == c[b - p.len() + 1]);
                assert(c[k].0.end.0 <= c[b - p.len() + 1].0.start.0);
            }
        }
        assert forall|x: int| covered_by(t).contains(x) <==> covered_by(c).contains(x) by {
            if covered_by(t).contains(x) {
                let a = choose|a: int| 0 <= a < t.len() && (#[trigger] t[a]).0.contains(x);
                if a < k {
                    assert(t[a] == c[a]);
                    assert(c[a].0.contains(x));
                } else if a < k + p.len() {
                    assert(t[a] == p[a - k]);
                    assert(c[k].0.contains(x));
                } else {
                    assert(t[a] == c[a - p.len() + 1]);
                    assert(c[a - p.len() + 1].0.contains(x));
                }
            }
            if covered_by(c).contains(x) {
                let a = choose|a: int| 0 <= a < c.len() && (#[trigger] c[a]).0.contains(x);
                if a < k {
                    assert(t[a] == c[a]);
                    assert(t[a].0.contains(x));
                } else if a > k {
                    assert(t[a + p.len() - 1] == c[a]);
                    assert(t[a + p.len() - 1].0.contains(x));
                } else {
                    let j: int = if x < addr.0 {
                        0
                    } else if x < d.last().inst_next {
                        lead
                    } else {
                        lead + 1
                    };
                    assert(p[j].0.contains(x));
                    assert(t[k + j] == p[j]);
                    assert(t[k + j].0.contains(x));
                }
            }
        }
        assert(covered_by(t) =~= covered_by(c));
    }
}

/// The byte that the model holds at the address `a`.
pub open spec fn byte_at(c: Seq<(Interval, LiteralView)>, a: int) -> u8 {
    let k = ending_by(c, a);
    c[k].1.bytes[a - c[k].1.addr.0]
}

/// In a partition the range that holds an address is the first that does
/// not end at or below it.
pub proof fn holder_is_found(c: Seq<(Interval, LiteralView)>, a: int, j: int)
    requires
        ordered(c),
        0 <= j < c.len(),
        c[j].0.contains(a),
    ensures
        ending_by(c, a) == j,
{
    ending_by_bounds(c, a);
    let k = ending_by(c, a);
    if k < j {
        assert(c[k].0.end.0 <= c[j].0.start.0);
    }
    if j < k {
        assert(c[j].0.end.0 <= a);
    }
}

/// Marking leaves every byte of the model at its address.
pub proof fn marking_keeps_bytes(
    c: Seq<(Interval, LiteralView)>,
    addr: Address,
    decoded: Option<Seq<DecodedInstruction>>,
    a: int,
)
    requires
        ordered(c),
        keyed(c),
        covered_by(c).contains(a),
    ensures
        byte_at(marked(c, addr, decoded), a) == byte_at(c, a),
{
    if markable(c, addr, decoded) {
        marking_keeps_coverage(c, addr, decoded);
        let d = decoded->Some_0;
        let k = ending_by(c, addr.0 as int);
        let e = c[k].1;
        let p = split_pieces(e, addr, d);
        let t = marked(c, addr, decoded);
        let offset = addr.0 - e.addr.0;
        let end = d.last().inst_next - e.addr.0;
        contiguous_grows(d, addr.0 as int, d.len() - 1);
        contiguous_grows(d, addr.0 as int, 0);
        assert(c[k].0 == e.interval() && e.fits());
        assert(0 <= offset < end <= e.bytes.len());
        let lead: int = if offset > 0 { 1 } else { 0 };
        let trail: int = if end < e.bytes.len() { 1 } else { 0 };
        assert(p.len() == lead + 1 + trail);
        let j = choose|j: int| 0 <= j < c.len() && (#[trigger] c[j]).0.contains(a);
        holder_is_found(c, a, j);
        if j < k {
            assert(t[j] == c[j]);
            holder_is_found(t, a, j);
        } else if j > k {
            assert(t[j + p.len() - 1] == c[j]);
            holder_is_found(t, a, j + p.len() - 1);
        } else {
            let i: int = if a < addr.0 {
                0
            } else if a < d.last().inst_next {
                lead
            } else {
                lead + 1
            };
            assert(t[k + i] == p[i]);
            assert(p[i].0.contains(a));
            holder_is_found(t, a, k + i);
        }
    }
}

/// Whether `decoded` is a run from `start` on: not empty, each instruction
/// of some length, starting where the one before it ends.
pub fn is_run(decoded: &Vec<DecodedInstruction>, start: u64) -> (ok: bool)
    ensures
        ok == (decoded@.len() > 0 && contiguous(decoded@, start as int)),
{
    if decoded.len() == 0 {
        return false;
    }
    let mut expected: u64 = start;
    let mut i: usize = 0;
    while i < decoded.len()
        invariant
            i <= decoded@.len(),
            i == 0 ==> expected == start,
            i > 0 ==> expected == decoded@[i - 1].inst_next,
            contiguous(decoded@.subrange(0, i as int), start as int),
        decreases decoded@.len() - i,
    {
        if decoded[i].inst_start != expected || decoded[i].inst_start >= decoded[i].inst_next {
            proof {
                if contiguous(decoded@, start as int) {
                    assert(false);
                }
            }
            return false;
        }
        expected = decoded[i].inst_next;
        i += 1;
        proof {
            let s = decoded@.subrange(0, i as int);
            assert forall|j: int| 0 < j < s.len() implies (#[trigger] s[j]).inst_start == s[j
                - 1].inst_next by {
                if j < i - 1 {
                    let r = decoded@.subrange(0, i - 1);
                    assert(r[j] == s[j]);
                    assert(r[j - 1] == s[j - 1]);
                }
            }
            assert forall|j: int| 0 <= j < s.len() implies (#[trigger] s[j]).inst_start
                < s[j].inst_next by {
                if j < i - 1 {
                    let r = decoded@.subrange(0, i - 1);
                    assert(r[j] == s[j]);
                }
            }
            if i > 1 {
                let r = decoded@.subrange(0, i - 1);
                assert(r[0] == s[0]);
            }
        }
    }
    assert(decoded@.subrange(0, i as int) =~= decoded@);
    true
}

/// The undecided bytes from `addr` to the end of the range that holds it:
/// what the semantics engine is to decode when `addr` is marked. There are
/// none where the address is not covered or has been marked before.
pub open spec fn pending(c: Seq<(Interval, LiteralView)>, addr: Address) -> Option<Seq<u8>> {
    let k = ending_by(c, addr.0 as int);
    if 0 <= k < c.len() && c[k].0.contains(addr.0 as int) && c[k].1.instructions is None {
        Some(c[k].1.bytes.subrange(addr.0 - c[k].1.addr.0, c[k].1.bytes.len() as int))
    } else {
        None
    }
}

/// The position of the range that holds `addr`.
fn holder(addr: Address, memory: &Memory) -> (r: Option<usize>)
    requires
        memory.wf(),
    ensures
        match r {
            Some(k) => k < memory.literal@.len() && k == ending_by(
                content(memory.literal@),
                addr.0 as int,
            ) && content(memory.literal@)[k as int].0.contains(addr.0 as int) && content(
                memory.literal@,
            )[k as int].1 == memory.literal@[k as int].1@,
            None => {
                let j = ending_by(content(memory.literal@), addr.0 as int);
                !(0 <= j < memory.literal@.len() && content(memory.literal@)[j].0.contains(
                    addr.0 as int,
                ))
            },
        },
{
    let ghost c = content(memory.literal@);
    proof {
        content_keeps_ranges(memory.literal@);
        ending_by_bounds(memory.literal@, addr.0 as int);
    }
    match memory.literal.find(addr) {
        Some(k) => {
            proof {
                let j = ending_by(c, addr.0 as int);
                assert(c[k as int].0 == memory.literal@[k as int].0);
                if j < k {
                    assert(memory.literal@[j].0.end.0 <= memory.literal@[k as int].0.start.0);
                }
                if k < j {
                    assert(memory.literal@[k as int].0.end.0 <= addr.0);
                }
            }
            Some(k)
        },
        None => {
            proof {
                let j = ending_by(c, addr.0 as int);
                if 0 <= j < c.len() && c[j].0.contains(addr.0 as int) {
                    assert(memory.literal@[j].0.contains(addr.0 as int));
                }
            }
            None
        },
    }
}

/// The undecided bytes from `addr` to the end of the range that holds it.
pub fn pending_bytes(addr: Address, memory: &Memory) -> (r: Option<Vec<u8>>)
    requires
        memory.wf(),
    ensures
        match r {
            Some(bytes) => pending(content(memory.literal@), addr) == Some(bytes@),
            None => pending(content(memory.literal@), addr) is None,
        },
{
    let k = match holder(addr, memory) {
        Some(k) => k,
        None => {
            return None;
        },
    };
    let entry = memory.literal.entry(k);
    match &entry.1.kind {
        LiteralKind::Data(items) => {
            let offset: usize = (addr.0 - entry.1.addr.0) as usize;
            Some(vstd::slice::slice_to_vec(vstd::slice::slice_subrange(items.as_slice(), offset, items.len())))
        },
        LiteralKind::Instruction(_, _) => None,
    }
}

/// Marks `decoded`, the instructions that the semantics engine decoded from
/// `addr` on, in the address-space model, and lifts them into the store.
/// Says whether anything changed: nothing does where the address is not
/// covered, where it has been marked before, where nothing was decoded, or
/// where the run does not fit the range it was decoded from.
pub fn mark_instructions(addr: Address, memory: &mut Memory, decoded: Option<
    Vec<DecodedInstruction>,
>) -> (changed: bool)
    requires
        old(memory).wf(),
    ensures
        final(memory).wf(),
        final(memory).symbols == old(memory).symbols,
        final(memory).navigation == old(memory).navigation,
        final(memory).functions == old(memory).functions,
        final(memory).ast == old(memory).ast,
        final(memory).conventions == old(memory).conventions,
        final(memory).ir@ == if markable(content(old(memory).literal@), addr, run_view(decoded)) {
            all_lifted(old(memory).ir@, decoded->Some_0@, 0)
        } else {
            old(memory).ir@
        },
        changed == markable(content(old(memory).literal@), addr, run_view(decoded)),
        content(final(memory).literal@) == marked(
            content(old(memory).literal@),
            addr,
            run_view(decoded),
        ),
        final(memory).literal.covered() == old(memory).literal.covered(),
{
    let ghost c = content(memory.literal@);
    proof {
        content_keeps_ranges(memory.literal@);
        marking_keeps_coverage(c, addr, run_view(decoded));
    }
    let k = match holder(addr, memory) {
        Some(k) => k,
        None => {
            return false;
        },
    };
    let entry = memory.literal.entry(k);
    let base: u64 = entry.1.addr.0;
    let held: usize = entry.1.kind.size();
    if !entry.1.is_data() {
        return false;
    }
    let decoded = match decoded {
        Some(d) => d,
        None => {
            return false;
        },
    };
    if !is_run(&decoded, addr.0) {
        return false;
    }
    let last_next: u64 = decoded[decoded.len() - 1].inst_next;
    proof {
        contiguous_grows(decoded@, addr.0 as int, decoded@.len() - 1);
        contiguous_grows(decoded@, addr.0 as int, 0);
    }
    if last_next - base > held as u64 {
        return false;
    }
    let offset: usize = (addr.0 - base) as usize;
    let consumed: usize = (last_next - addr.0) as usize;
    // The run is lifted while it can still be read, then moved into the model.
    let mut store = IrStore::new();
    core::mem::swap(&mut memory.ir, &mut store);
    memory.ir = lift(&decoded, Some(store));
    // The range is taken out with its bytes, and the pieces go in its place.
    let ghost before = memory.literal@;
    let taken = memory.literal.remove_at(k);
    let mut left_over: Vec<u8> = match taken.1.kind {
        LiteralKind::Data(items) => items,
        LiteralKind::Instruction(_, items) => items,
    };
    let ghost bytes = left_over@;
    let ghost e = c[k as int].1;
    let ghost run = decoded@;
    let ghost end = last_next - base;
    proof {
        assert(taken == before[k as int]);
        assert(bytes == e.bytes);
        assert(e.addr.0 == base);
        assert(held == bytes.len());
    }
    let mut consumed_bytes = left_over.split_off(offset);
    let remainder = consumed_bytes.split_off(consumed);
    proof {
        assert(left_over@ =~= bytes.subrange(0, offset as int));
        assert(consumed_bytes@ =~= bytes.subrange(offset as int, end as int));
        assert(remainder@ =~= bytes.subrange(end as int, bytes.len() as int));
    }
    let ghost left_view = LiteralView::data(e.addr, bytes.subrange(0, offset as int));
    let ghost middle_view = LiteralView {
        addr,
        bytes: bytes.subrange(offset as int, end as int),
        instructions: Some(run),
    };
    let ghost right_view = LiteralView::data(
        Address(last_next),
        bytes.subrange(end as int, bytes.len() as int),
    );
    let mut pieces: Vec<(Interval, LiteralState)> = Vec::new();
    if left_over.len() > 0 {
        let literal = LiteralState::from_bytes(Address(base), left_over);
        pieces.push((literal.get_interval(), literal));
        assert(content(pieces@) =~= seq![(left_view.interval(), left_view)]);
    } else {
        assert(content(pieces@) =~= Seq::<(Interval, LiteralView)>::empty());
    }
    let ghost lead = content(pieces@);
    let middle = LiteralState::from_instructions(addr, decoded, consumed_bytes);
    pieces.push((middle.get_interval(), middle));
    assert(content(pieces@) =~= lead + seq![(middle_view.interval(), middle_view)]);
    let ghost upto = content(pieces@);
    if remainder.len() > 0 {
        let literal = LiteralState::from_bytes(Address(last_next), remainder);
        pieces.push((literal.get_interval(), literal));
        assert(content(pieces@) =~= upto + seq![(right_view.interval(), right_view)]);
    }
    proof {
        let p = split_pieces(e, addr, run);
        let goal = marked(c, addr, Some(run));
        assert(content(pieces@) =~= p);
        let hole = memory.literal@;
        assert(hole == before.remove(k as int));
        let joined = hole.subrange(0, k as int) + pieces@ + hole.subrange(
            k as int,
            hole.len() as int,
        );
        assert(content(joined) =~= goal);
        content_keeps_ranges(joined);
    }
    memory.literal.insert_pieces(k, pieces);
    proof {
        content_keeps_ranges(memory.literal@);
        content_keeps_ranges(old(memory).literal@);
    }
    true
}

} // verus!
