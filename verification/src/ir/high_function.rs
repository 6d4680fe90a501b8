//! A function as a graph of basic blocks: the blocks that can be reached
//! from its entry, joined by their edges, and the address ranges that the
//! function claims for itself.
use crate::address::{Address, Interval};
use crate::ir::basic_block::{assemble, block_views, blocks_of, BasicBlock, BlockView, NextBlock};
use crate::ir::graph::{closed_graph, edges, reachable, reachable_from};
use crate::ir::lift::{IrStore, LiftedView};
use crate::ir::abstract_syntax_tree::{function_locals, structured, AbstractSyntaxTree};
use crate::ir::basic_block::DestinationKind;
use crate::memory::interval_map::{ordered, overwritten, overwritten_is_ordered, IntervalMap};
use crate::memory::Memory;
use crate::symbol_resolver::{named, SymbolView};
use vstd::prelude::*;

verus! {

/// The handle of the first block of `blocks`, from `from` on, that starts at
/// `address`; the number of blocks if there is none.
pub open spec fn slot_of(blocks: Seq<BlockView>, address: Address, from: int) -> int
    decreases blocks.len() - from,
{
    if from < 0 || from >= blocks.len() {
        blocks.len() as int
    } else if blocks[from].start == address {
        from
    } else {
        slot_of(blocks, address, from + 1)
    }
}

pub proof fn slot_of_bounds(blocks: Seq<BlockView>, address: Address, from: int)
    requires
        0 <= from,
    ensures
        slot_of(blocks, address, from) <= blocks.len(),
        from <= blocks.len() ==> from <= slot_of(blocks, address, from),
        slot_of(blocks, address, from) < blocks.len() ==> blocks[slot_of(
            blocks,
            address,
            from,
        )].start == address,
    decreases blocks.len() - from,
{
    if from < blocks.len() && blocks[from].start != address {
        slot_of_bounds(blocks, address, from + 1);
    }
}

/// The handles of the blocks that start at `addresses`, in order. An
/// address at which no block starts has no handle.
pub open spec fn slots_of(blocks: Seq<BlockView>, addresses: Seq<Address>) -> Seq<usize>
    decreases addresses.len(),
{
    if addresses.len() == 0 {
        Seq::empty()
    } else {
        let rest = slots_of(blocks, addresses.drop_last());
        let slot = slot_of(blocks, addresses.last(), 0);
        if slot < blocks.len() {
            rest.push(slot as usize)
        } else {
            rest
        }
    }
}

/// The successors of each block, as handles.
pub open spec fn linked(blocks: Seq<BlockView>) -> Seq<Seq<usize>> {
    Seq::new(blocks.len(), |i: int| slots_of(blocks, blocks[i].next.successors()))
}

pub proof fn slots_are_handles(blocks: Seq<BlockView>, addresses: Seq<Address>)
    ensures
        forall|k: int|
            0 <= k < slots_of(blocks, addresses).len() ==> (#[trigger] slots_of(
                blocks,
                addresses,
            )[k]) < blocks.len(),
    decreases addresses.len(),
{
    if addresses.len() > 0 {
        slots_are_handles(blocks, addresses.drop_last());
        slot_of_bounds(blocks, addresses.last(), 0);
        let rest = slots_of(blocks, addresses.drop_last());
        let all = slots_of(blocks, addresses);
        assert forall|k: int| 0 <= k < all.len() implies (#[trigger] all[k]) < blocks.len() by {
            if k < rest.len() {
                assert(all[k] == rest[k]);
            }
        }
    }
}

pub proof fn linked_is_closed(blocks: Seq<BlockView>)
    ensures
        closed_graph(linked(blocks)),
{
    let g = linked(blocks);
    assert forall|a: int, k: int| 0 <= a < g.len() && 0 <= k < g[a].len() implies (#[trigger] g[a][k])
        < g.len() by {
        slots_are_handles(blocks, blocks[a].next.successors());
    }
}

/// For each block, the handles of the blocks that lead to it, in rising
/// order.
pub open spec fn leading_to(g: Seq<Seq<usize>>, to: int, upto: int) -> Seq<usize>
    decreases upto,
{
    if upto <= 0 {
        Seq::empty()
    } else if g[upto - 1].contains(to as usize) {
        leading_to(g, to, upto - 1).push((upto - 1) as usize)
    } else {
        leading_to(g, to, upto - 1)
    }
}

/// A function as a graph, with its lists as sequences.
pub struct FunctionView {
    pub entry: Address,
    /// The handle of the block at the entry.
    pub entry_slot: usize,
    /// The blocks, in address order. A handle is a position in this list.
    pub blocks: Seq<BlockView>,
    /// The successors of each block.
    pub successors: Seq<Seq<usize>>,
    /// The predecessors of each block.
    pub predecessors: Seq<Seq<usize>>,
    /// Whether each block can be reached from the entry, and so belongs to
    /// the function.
    pub member: Seq<bool>,
}

/// The graph that `blocks` make for the function at `entry`, if a block
/// starts there.
pub open spec fn graph_of(blocks: Seq<BlockView>, entry: Address) -> Option<FunctionView> {
    let slot = slot_of(blocks, entry, 0);
    if 0 <= slot < blocks.len() && slot <= usize::MAX {
        Some(
            FunctionView {
                entry,
                entry_slot: slot as usize,
                blocks,
                successors: linked(blocks),
                predecessors: Seq::new(
                    blocks.len(),
                    |j: int| leading_to(linked(blocks), j, blocks.len() as int),
                ),
                member: Seq::new(blocks.len(), |i: int| reachable(linked(blocks), slot, i)),
            },
        )
    } else {
        None
    }
}

/// The function at `entry` as the store has it, if an instruction starts
/// there.
pub open spec fn composed(s: Seq<(Interval, LiftedView)>, entry: Address) -> Option<FunctionView> {
    graph_of(blocks_of(s, entry), entry)
}

/// A claim met a range that another function owns.
#[derive(Clone, Copy, Debug, PartialEq, Eq, Structural)]
pub struct SpanConflict {
    /// The range that is taken.
    pub range: Interval,
    /// The entry of the function that owns it.
    pub owner: Address,
}

/// The range that the function claims for the block `i`: the addresses of
/// the block where it belongs to the function, none otherwise.
pub open spec fn claim(f: FunctionView, i: int) -> Interval {
    if f.member[i] {
        Interval { start: f.blocks[i].start, end: f.blocks[i].end }
    } else {
        Interval { start: f.blocks[i].start, end: f.blocks[i].start }
    }
}

/// The position of the first claimed range of `spans`, from `from` on, that
/// shares an address with `range` and belongs to another function than
/// `owner`; the length of `spans` if there is none.
pub open spec fn foreign_at(spans: Seq<(Interval, Address)>, range: Interval, owner: Address, from: int) -> int
    decreases spans.len() - from,
{
    if from < 0 || from >= spans.len() {
        spans.len() as int
    } else if spans[from].0.intersects(range) && spans[from].1 != owner {
        from
    } else {
        foreign_at(spans, range, owner, from + 1)
    }
}

/// The first conflict between the claims of `f` from block `i` on and the
/// ranges that other functions own.
pub open spec fn first_conflict(spans: Seq<(Interval, Address)>, f: FunctionView, i: int) -> Option<
    SpanConflict,
>
    decreases f.blocks.len() - i,
{
    if i < 0 || i >= f.blocks.len() {
        None
    } else {
        let k = foreign_at(spans, claim(f, i), f.entry, 0);
        if k < spans.len() {
            Some(SpanConflict { range: spans[k].0, owner: spans[k].1 })
        } else {
            first_conflict(spans, f, i + 1)
        }
    }
}

/// The claimed ranges after `f` has claimed its blocks from the `i`-th on:
/// each claim takes the place of whatever shared an address with it.
pub open spec fn claimed(spans: Seq<(Interval, Address)>, f: FunctionView, i: int) -> Seq<
    (Interval, Address),
>
    decreases f.blocks.len() - i,
{
    if i < 0 || i >= f.blocks.len() {
        spans
    } else if claim(f, i).is_empty() {
        claimed(spans, f, i + 1)
    } else {
        claimed(overwritten(spans, claim(f, i), f.entry), f, i + 1)
    }
}

/// Claimed ranges never overlap: any two of them, and so any two that
/// belong to different functions, share no address.
pub proof fn spans_are_exclusive(spans: Seq<(Interval, Address)>, i: int, j: int)
    requires
        ordered(spans),
        0 <= i < spans.len(),
        0 <= j < spans.len(),
        i != j,
    ensures
        !spans[i].0.intersects(spans[j].0),
{
    crate::memory::interval_map::stored_ranges_never_overlap(spans, i, j);
}

/// Claiming keeps the claimed ranges from overlapping.
pub proof fn claimed_is_ordered(spans: Seq<(Interval, Address)>, f: FunctionView, i: int)
    requires
        ordered(spans),
        0 <= i,
    ensures
        ordered(claimed(spans, f, i)),
    decreases f.blocks.len() - i,
{
    if i < f.blocks.len() {
        if claim(f, i).is_empty() {
            claimed_is_ordered(spans, f, i + 1);
        } else {
            overwritten_is_ordered(spans, claim(f, i), f.entry);
            claimed_is_ordered(overwritten(spans, claim(f, i), f.entry), f, i + 1);
        }
    }
}

/// Claiming keeps whatever shares no address with a claim of the function.
pub proof fn claiming_keeps_the_rest(
    spans: Seq<(Interval, Address)>,
    f: FunctionView,
    i: int,
    e: (Interval, Address),
)
    requires
        ordered(spans),
        0 <= i,
    ensures
        spans.contains(e) && (forall|j: int|
            i <= j < f.blocks.len() ==> !e.0.intersects(#[trigger] claim(f, j))) ==> claimed(
            spans,
            f,
            i,
        ).contains(e),
    decreases f.blocks.len() - i,
{
    if i < f.blocks.len() {
        if claim(f, i).is_empty() {
            claiming_keeps_the_rest(spans, f, i + 1, e);
        } else {
            let t = overwritten(spans, claim(f, i), f.entry);
            overwritten_is_ordered(spans, claim(f, i), f.entry);
            claiming_keeps_the_rest(t, f, i + 1, e);
            if spans.contains(e) && (forall|j: int|
                i <= j < f.blocks.len() ==> !e.0.intersects(#[trigger] claim(f, j))) {
                let k = choose|k: int| 0 <= k < spans.len() && spans[k] == e;
                assert(!e.0.intersects(claim(f, i)));
                assert(t.contains(e));
            }
        }
    }
}

/// After a function whose blocks share no address has claimed its ranges,
/// each range of a block of the function is recorded as the function's own.
pub proof fn claims_are_recorded(spans: Seq<(Interval, Address)>, f: FunctionView, i: int, k: int)
    requires
        ordered(spans),
        0 <= i <= k < f.blocks.len(),
        !claim(f, k).is_empty(),
        forall|j: int| k < j < f.blocks.len() ==> !claim(f, k).intersects(#[trigger] claim(f, j)),
    ensures
        claimed(spans, f, i).contains((claim(f, k), f.entry)),
    decreases k - i,
{
    if i == k {
        let t = overwritten(spans, claim(f, k), f.entry);
        overwritten_is_ordered(spans, claim(f, k), f.entry);
        claiming_keeps_the_rest(t, f, k + 1, (claim(f, k), f.entry));
    } else if claim(f, i).is_empty() {
        claims_are_recorded(spans, f, i + 1, k);
    } else {
        overwritten_is_ordered(spans, claim(f, i), f.entry);
        claims_are_recorded(overwritten(spans, claim(f, i), f.entry), f, i + 1, k);
    }
}

/// The address that a block calls, where it ends in a call to a known
/// address.
pub open spec fn call_target(b: BlockView) -> Option<Address> {
    match b.next {
        NextBlock::Call { destination: DestinationKind::Concrete(a), return_site } => Some(a),
        _ => None,
    }
}

/// The symbols after the addresses that the blocks of the function call,
/// from the block `i` on, have each been given a symbol.
pub open spec fn callees_named(symbols: Seq<SymbolView>, f: FunctionView, i: int) -> Seq<SymbolView>
    decreases f.blocks.len() - i,
{
    if i < 0 || i >= f.blocks.len() || f.member.len() != f.blocks.len() {
        symbols
    } else {
        let next = match call_target(f.blocks[i]) {
            Some(a) => if f.member[i] {
                named(symbols, a)
            } else {
                symbols
            },
            None => symbols,
        };
        callees_named(next, f, i + 1)
    }
}

/// The symbols after the entry of the function and the addresses it calls
/// have each been given a symbol.
pub open spec fn globals_named(symbols: Seq<SymbolView>, f: FunctionView) -> Seq<SymbolView> {
    callees_named(named(symbols, f.entry), f, 0)
}

/// The address that a block calls, where it ends in a call to a known
/// address.
pub fn called_by(block: &BasicBlock) -> (r: Option<Address>)
    ensures
        r == call_target(block@),
{
    match &block.next {
        NextBlock::Call { destination, return_site } => match destination {
            DestinationKind::Concrete(a) => Some(*a),
            DestinationKind::Unknown => None,
        },
        _ => None,
    }
}

/// A function as a graph of basic blocks.
pub struct HighFunction {
    entry: Address,
    entry_slot: usize,
    blocks: Vec<BasicBlock>,
    successors: Vec<Vec<usize>>,
    predecessors: Vec<Vec<usize>>,
    member: Vec<bool>,
}

impl View for HighFunction {
    type V = FunctionView;

    closed spec fn view(&self) -> FunctionView {
        FunctionView {
            entry: self.entry,
            entry_slot: self.entry_slot,
            blocks: block_views(self.blocks@),
            successors: edges(self.successors@),
            predecessors: edges(self.predecessors@),
            member: self.member@,
        }
    }
}

fn find_block(blocks: &Vec<BasicBlock>, address: Address) -> (r: Option<usize>)
    ensures
        match r {
            Some(i) => i < blocks@.len() && i == slot_of(block_views(blocks@), address, 0),
            None => slot_of(block_views(blocks@), address, 0) == blocks@.len(),
        },
{
    let ghost views = block_views(blocks@);
    let mut i: usize = 0;
    while i < blocks.len()
        invariant
            i <= blocks@.len(),
            views == block_views(blocks@),
            slot_of(views, address, 0) == slot_of(views, address, i as int),
        decreases blocks@.len() - i,
    {
        assert(views[i as int] == blocks@[i as int]@);
        if blocks[i].start == address {
            return Some(i);
        }
        i += 1;
    }
    None
}

fn link(blocks: &Vec<BasicBlock>, next: &NextBlock) -> (r: Vec<usize>)
    ensures
        r@ == slots_of(block_views(blocks@), next.successors()),
{
    let addresses = next.successor_addresses();
    let mut r: Vec<usize> = Vec::new();
    let mut i: usize = 0;
    while i < addresses.len()
        invariant
            i <= addresses@.len(),
            r@ == slots_of(block_views(blocks@), addresses@.subrange(0, i as int)),
        decreases addresses@.len() - i,
    {
        let ghost upto = addresses@.subrange(0, i + 1);
        assert(upto.drop_last() =~= addresses@.subrange(0, i as int));
        assert(upto.last() == addresses@[i as int]);
        match find_block(blocks, addresses[i]) {
            Some(slot) => {
                r.push(slot);
            },
            None => {},
        }
        i += 1;
    }
    assert(addresses@.subrange(0, i as int) =~= addresses@);
    r
}

fn has(list: &Vec<usize>, x: usize) -> (b: bool)
    ensures
        b == list@.contains(x),
{
    let mut i: usize = 0;
    while i < list.len()
        invariant
            i <= list@.len(),
            forall|k: int| 0 <= k < i ==> list@[k] != x,
        decreases list@.len() - i,
    {
        if list[i] == x {
            return true;
        }
        i += 1;
    }
    false
}

fn lead_to(successors: &Vec<Vec<usize>>, to: usize) -> (r: Vec<usize>)
    ensures
        r@ == leading_to(edges(successors@), to as int, successors@.len() as int),
{
    let mut r: Vec<usize> = Vec::new();
    let mut i: usize = 0;
    while i < successors.len()
        invariant
            i <= successors@.len(),
            r@ == leading_to(edges(successors@), to as int, i as int),
        decreases successors@.len() - i,
    {
        assert(edges(successors@)[i as int] == successors@[i as int]@);
        if has(&successors[i], to) {
            r.push(i);
        }
        i += 1;
    }
    r
}

impl HighFunction {
    /// The lists agree in length, the edges stay inside the graph, and the
    /// entry block starts at the entry.
    pub open spec fn wf(&self) -> bool {
        graph_of(self@.blocks, self@.entry) == Some(self@)
    }

    /// The entry address.
    pub fn entry(&self) -> (a: Address)
        ensures
            a == self@.entry,
    {
        self.entry
    }

    /// The handle of the block at the entry.
    pub fn entry_slot(&self) -> (slot: usize)
        ensures
            slot == self@.entry_slot,
    {
        self.entry_slot
    }

    /// The number of handles.
    pub fn len(&self) -> (n: usize)
        ensures
            n == self@.blocks.len(),
    {
        self.blocks.len()
    }

    /// The block behind a handle.
    pub fn block(&self, slot: usize) -> (b: &BasicBlock)
        requires
            slot < self@.blocks.len(),
        ensures
            b@ == self@.blocks[slot as int],
    {
        &self.blocks[slot]
    }

    /// The handles of the blocks that the block leads to.
    pub fn successors(&self, slot: usize) -> (r: &Vec<usize>)
        requires
            slot < self@.successors.len(),
        ensures
            r@ == self@.successors[slot as int],
    {
        &self.successors[slot]
    }

    /// The handles of the blocks that lead to the block.
    pub fn predecessors(&self, slot: usize) -> (r: &Vec<usize>)
        requires
            slot < self@.predecessors.len(),
        ensures
            r@ == self@.predecessors[slot as int],
    {
        &self.predecessors[slot]
    }

    /// Whether the block belongs to the function.
    pub fn is_member(&self, slot: usize) -> (b: bool)
        requires
            slot < self@.member.len(),
        ensures
            b == self@.member[slot as int],
    {
        self.member[slot]
    }

    /// The whole graph of successors.
    pub fn edges(&self) -> (g: &Vec<Vec<usize>>)
        ensures
            edges(g@) == self@.successors,
    {
        &self.successors
    }

    /// The handle of the block that starts at `address`.
    pub fn slot_by_address(&self, address: Address) -> (r: Option<usize>)
        ensures
            match r {
                Some(i) => i < self@.blocks.len() && i == slot_of(self@.blocks, address, 0),
                None => slot_of(self@.blocks, address, 0) == self@.blocks.len(),
            },
    {
        find_block(&self.blocks, address)
    }

    /// The handles of the blocks of the function, in address order.
    pub fn iter_function(&self) -> (r: Vec<usize>)
        requires
            self.wf(),
        ensures
            forall|i: int| 0 <= i < r@.len() ==> (#[trigger] r@[i]) < self@.blocks.len() && self@.member[r@[i] as int],
            forall|i: int, j: int| 0 <= i < j < r@.len() ==> r@[i] < r@[j],
            forall|slot: int|
                0 <= slot < self@.blocks.len() && self@.member[slot] ==> r@.contains(slot as usize),
    {
        let mut r: Vec<usize> = Vec::new();
        let mut i: usize = 0;
        while i < self.member.len()
            invariant
                i <= self.member@.len(),
                self.member@.len() == self@.blocks.len(),
                self.member@ == self@.member,
                forall|k: int| 0 <= k < r@.len() ==> (#[trigger] r@[k]) < i && self.member@[r@[k] as int],
                forall|k: int, j: int| 0 <= k < j < r@.len() ==> r@[k] < r@[j],
                forall|slot: int| 0 <= slot < i && self.member@[slot] ==> r@.contains(slot as usize),
            decreases self.member@.len() - i,
        {
            if self.member[i] {
                let ghost before = r@;
                r.push(i);
                proof {
                    assert(r@[before.len() as int] == i);
                    assert forall|slot: int| 0 <= slot < i + 1 && self.member@[slot] implies r@.contains(
                        slot as usize,
                    ) by {
                        if slot < i {
                            let k = choose|k: int| 0 <= k < before.len() && before[k] == slot;
                            assert(r@[k] == slot);
                        }
                    }
                }
            }
            i += 1;
        }
        r
    }

    /// Composes the function at `entry` from the store: the store is cut
    /// into basic blocks, the blocks are joined by their edges, and those
    /// that the entry reaches are marked as the function's own. There is no
    /// function where no instruction starts at `entry`.
    pub fn from_store(entry: Address, store: &IrStore) -> (r: Option<HighFunction>)
        requires
            store.wf(),
        ensures
            match r {
                Some(f) => f.wf() && Some(f@) == composed(store@, entry),
                None => composed(store@, entry) is None,
            },
    {
        let blocks = assemble(store, entry);
        let ghost views = block_views(blocks@);
        let entry_slot = match find_block(&blocks, entry) {
            Some(slot) => slot,
            None => {
                return None;
            },
        };
        let mut successors: Vec<Vec<usize>> = Vec::new();
        let mut i: usize = 0;
        while i < blocks.len()
            invariant
                i <= blocks@.len(),
                views == block_views(blocks@),
                successors@.len() == i,
                forall|k: int| 0 <= k < i ==> (#[trigger] successors@[k])@ == linked(views)[k],
            decreases blocks@.len() - i,
        {
            assert(views[i as int] == blocks@[i as int]@);
            let row = link(&blocks, &blocks[i].next);
            successors.push(row);
            i += 1;
        }
        assert(edges(successors@) =~= linked(views));
        proof {
            linked_is_closed(views);
        }
        let mut predecessors: Vec<Vec<usize>> = Vec::new();
        let mut j: usize = 0;
        while j < blocks.len()
            invariant
                j <= blocks@.len(),
                successors@.len() == blocks@.len(),
                predecessors@.len() == j,
                forall|k: int|
                    0 <= k < j ==> (#[trigger] predecessors@[k])@ == leading_to(
                        edges(successors@),
                        k,
                        blocks@.len() as int,
                    ),
            decreases blocks@.len() - j,
        {
            let row = lead_to(&successors, j);
            predecessors.push(row);
            j += 1;
        }
        let member = reachable_from(&successors, entry_slot, blocks.len());
        let f = HighFunction { entry, entry_slot, blocks, successors, predecessors, member };
        proof {
            let want = graph_of(views, entry)->Some_0;
            assert(f@.predecessors =~= want.predecessors);
            assert(f@.member =~= want.member);
            assert(f@ == want);
        }
        Some(f)
    }

    /// Composes the function at `entry` from the instructions lifted so far.
    pub fn from_mem(entry: Address, memory: &Memory) -> (r: Option<HighFunction>)
        requires
            memory.wf(),
        ensures
            match r {
                Some(f) => f.wf() && Some(f@) == composed(memory.ir@, entry),
                None => composed(memory.ir@, entry) is None,
            },
    {
        HighFunction::from_store(entry, &memory.ir)
    }

    /// Builds the structured form of the function.
    pub fn build_ast(&self, memory: &Memory) -> (tree: AbstractSyntaxTree)
        requires
            self.wf(),
        ensures
            tree@ == structured(self@, memory.conventions@),
            tree.names() == seq![function_locals(Seq::empty(), self@, 0)],
    {
        AbstractSyntaxTree::new(self, memory)
    }

    /// Gives the entry of the function and every known address it calls a
    /// symbol, so that each can be renamed.
    pub fn fill_global_symbols(&self, memory: &mut Memory)
        requires
            self.wf(),
            old(memory).wf(),
        ensures
            final(memory).wf(),
            final(memory).symbols@ == globals_named(old(memory).symbols@, self@),
            final(memory).literal == old(memory).literal,
            final(memory).navigation == old(memory).navigation,
            final(memory).same_analysis(old(memory)),
    {
        let ghost f = self@;
        memory.symbols.ensure(self.entry);
        let n = self.blocks.len();
        let mut i: usize = 0;
        while i < n
            invariant
                i <= n,
                n == self.blocks@.len(),
                f == self@,
                self.wf(),
                memory.wf(),
                memory.literal == old(memory).literal,
                memory.navigation == old(memory).navigation,
                memory.same_analysis(old(memory)),
                callees_named(memory.symbols@, f, i as int) == globals_named(
                    old(memory).symbols@,
                    f,
                ),
            decreases n - i,
        {
            assert(f.blocks[i as int] == self.blocks@[i as int]@);
            match called_by(&self.blocks[i]) {
                Some(a) => {
                    if self.member[i] {
                        memory.symbols.ensure(a);
                    }
                },
                None => {},
            }
            i += 1;
        }
    }

    /// Claims the addresses of the function's blocks in `spans`. The claim
    /// fails, and changes nothing, where a block shares an address with a
    /// range that another function owns. Otherwise each block's range takes
    /// the place of whatever this function had claimed there before.
    pub fn take_interval_ownership(&self, spans: &mut IntervalMap<Address>) -> (r: Result<
        (),
        SpanConflict,
    >)
        requires
            self.wf(),
            old(spans).wf(),
        ensures
            final(spans).wf(),
            match first_conflict(old(spans)@, self@, 0) {
                Some(conflict) => r == Err::<(), SpanConflict>(conflict) && final(spans)@ == old(
                    spans,
                )@,
                None => r is Ok && final(spans)@ == claimed(old(spans)@, self@, 0),
            },
    {
        let ghost f = self@;
        let n = self.blocks.len();
        let mut i: usize = 0;
        while i < n
            invariant
                i <= n,
                n == self.blocks@.len(),
                f == self@,
                self.wf(),
                spans.wf(),
                spans@ == old(spans)@,
                first_conflict(spans@, f, i as int) == first_conflict(spans@, f, 0),
            decreases n - i,
        {
            assert(f.blocks[i as int] == self.blocks@[i as int]@);
            let range = if self.member[i] {
                Interval::new(self.blocks[i].start, self.blocks[i].end)
            } else {
                Interval::new(self.blocks[i].start, self.blocks[i].start)
            };
            assert(range == claim(f, i as int));
            let mut k: usize = 0;
            while k < spans.len()
                invariant
                    k <= spans@.len(),
                    i < n,
                    n == self.blocks@.len(),
                    f == self@,
                    self.wf(),
                    spans.wf(),
                    spans@ == old(spans)@,
                    range == claim(f, i as int),
                    first_conflict(spans@, f, i as int) == first_conflict(spans@, f, 0),
                    foreign_at(spans@, range, self.entry, k as int) == foreign_at(
                        spans@,
                        range,
                        self.entry,
                        0,
                    ),
                decreases spans@.len() - k,
            {
                let span = spans.entry(k);
                if span.0.overlaps(&range) && span.1 != self.entry {
                    return Err(SpanConflict { range: span.0, owner: span.1 });
                }
                k += 1;
            }
            i += 1;
        }
        let mut j: usize = 0;
        while j < n
            invariant
                j <= n,
                n == self.blocks@.len(),
                f == self@,
                self.wf(),
                spans.wf(),
                first_conflict(old(spans)@, f, 0) is None,
                claimed(spans@, f, j as int) == claimed(old(spans)@, f, 0),
            decreases n - j,
        {
            assert(f.blocks[j as int] == self.blocks@[j as int]@);
            if self.member[j] {
                let range = Interval::new(self.blocks[j].start, self.blocks[j].end);
                assert(range == claim(f, j as int));
                if !range.holds_nothing() {
                    let _ = spans.overwrite(range, self.entry);
                }
            }
            j += 1;
        }
        Ok(())
    }
}

} // verus!
