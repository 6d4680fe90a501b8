//! How often a block stands in a tree. The structuring engine gives every
//! block of a function one place, and no block two.
use crate::address::{Address, Interval};
use crate::ir::abstract_syntax_tree::{
    arguments, basic, body_of, follow, node, region, residue, returned, structured, swept,
    swept_carries_on, Built, StatementView,
};
use crate::ir::basic_block::{blocks_of, blocks_start_apart, rising_starts, DestinationKind, NextBlock};
use crate::ir::conventions::ConventionsView;
use crate::ir::expression::simplified;
use crate::ir::graph::reachable;
use crate::ir::high_function::{composed, graph_of, linked, slot_of, FunctionView};
use crate::ir::lift::LiftedView;
use crate::ir::structuring::{is_header, loop_shape, merge_from, LoopShape};
use crate::memory::interval_map::ordered;
use vstd::prelude::*;

verus! {

/// How often the effect of the block at `address` stands in the statement.
pub open spec fn places(statement: StatementView, address: Address) -> nat
    decreases statement, 0nat,
{
    match statement {
        StatementView::Function { entry, body } => places(*body, address),
        StatementView::Block(statements) => places_upto(statements, address, statements.len()),
        StatementView::If { condition, true_statement, else_statement } => places(
            *true_statement,
            address,
        ) + places(*else_statement, address),
        StatementView::Loop { condition, body } => places(*body, address),
        StatementView::Basic { address: a, assignments, stores } => if a == address {
            1
        } else {
            0
        },
        _ => 0,
    }
}

/// How often the effect of the block at `address` stands in the first `n`
/// of the statements.
pub open spec fn places_upto(statements: Seq<StatementView>, address: Address, n: nat) -> nat
    decreases statements, n,
{
    if n == 0 || n > statements.len() {
        0
    } else {
        places_upto(statements, address, (n - 1) as nat) + places(statements[n - 1], address)
    }
}

/// How often the effect of the block at `address` stands in the statements.
pub open spec fn places_in(statements: Seq<StatementView>, address: Address) -> nat {
    places_upto(statements, address, statements.len())
}

proof fn places_of_prefix(a: Seq<StatementView>, b: Seq<StatementView>, address: Address, n: nat)
    requires
        n <= a.len(),
    ensures
        places_upto(a + b, address, n) == places_upto(a, address, n),
    decreases n,
{
    if n > 0 {
        places_of_prefix(a, b, address, (n - 1) as nat);
        assert((a + b)[n - 1] == a[n - 1]);
    }
}

proof fn places_of_suffix(a: Seq<StatementView>, b: Seq<StatementView>, address: Address, n: nat)
    requires
        n <= b.len(),
    ensures
        places_upto(a + b, address, a.len() + n) == places_in(a, address) + places_upto(
            b,
            address,
            n,
        ),
    decreases n,
{
    if n == 0 {
        places_of_prefix(a, b, address, a.len());
    } else {
        places_of_suffix(a, b, address, (n - 1) as nat);
        assert((a + b)[a.len() + n - 1] == b[n - 1]);
    }
}

/// Two lists joined hold the places of both.
pub proof fn places_in_joined(a: Seq<StatementView>, b: Seq<StatementView>, address: Address)
    ensures
        places_in(a + b, address) == places_in(a, address) + places_in(b, address),
{
    places_of_suffix(a, b, address, b.len());
}

/// A list of one statement holds the places of the statement.
pub proof fn places_in_one(s: StatementView, address: Address)
    ensures
        places_in(seq![s], address) == places(s, address),
{
    let l = seq![s];
    assert(l[0] == s);
    assert(places_upto(l, address, 0) == 0);
    assert(places_upto(l, address, 1) == places_upto(l, address, 0) + places(l[0], address));
}

/// An empty list holds no place.
pub proof fn places_in_none(address: Address)
    ensures
        places_in(Seq::<StatementView>::empty(), address) == 0,
{
}

/// One if `b` holds, nothing otherwise.
pub open spec fn one_if(b: bool) -> nat {
    if b {
        1
    } else {
        0
    }
}

/// Whether every block of the function has one place in `built` if it got
/// its place there, and none otherwise.
pub open spec fn placed_once(f: FunctionView, before: Seq<bool>, built: Built) -> bool {
    forall|x: int|
        0 <= x < before.len() ==> places_in(built.statements, (#[trigger] f.blocks[x]).start)
            == one_if(built.emitted[x] && !before[x])
}

proof fn basic_places(f: FunctionView, n: int, x: int)
    requires
        rising_starts(f.blocks),
        0 <= n < f.blocks.len(),
        0 <= x < f.blocks.len(),
    ensures
        places(basic(f.blocks[n]), f.blocks[x].start) == one_if(x == n),
        places_in(seq![basic(f.blocks[n])], f.blocks[x].start) == one_if(x == n),
{
    if x < n {
        assert(f.blocks[x].start.0 < f.blocks[n].start.0);
    } else if n < x {
        assert(f.blocks[n].start.0 < f.blocks[x].start.0);
    }
    places_in_one(basic(f.blocks[n]), f.blocks[x].start);
}

/// No block loses its place.
pub open spec fn grows(before: Seq<bool>, after: Seq<bool>) -> bool {
    &&& after.len() == before.len()
    &&& forall|x: int| 0 <= x < before.len() && before[x] ==> #[trigger] after[x]
}

/// A block of statements holds the places of the statements.
pub proof fn places_of_block(statements: Seq<StatementView>, address: Address)
    ensures
        places(StatementView::Block(statements), address) == places_in(statements, address),
{
}

/// One part behind another gives every block at most one place if each
/// part does.
proof fn chained(f: FunctionView, before: Seq<bool>, first: Built, second: Built)
    requires
        before.len() == f.blocks.len(),
        grows(before, first.emitted),
        grows(first.emitted, second.emitted),
        placed_once(f, before, first),
        placed_once(f, first.emitted, second),
    ensures
        placed_once(
            f,
            before,
            Built { statements: first.statements + second.statements, emitted: second.emitted },
        ),
        grows(before, second.emitted),
{
    assert forall|x: int| 0 <= x < before.len() implies places_in(
        first.statements + second.statements,
        (#[trigger] f.blocks[x]).start,
    ) == one_if(second.emitted[x] && !before[x]) by {
        let a = f.blocks[x].start;
        places_in_joined(first.statements, second.statements, a);
        assert(places_in(first.statements, a) == one_if(first.emitted[x] && !before[x]));
        assert(places_in(second.statements, a) == one_if(second.emitted[x] && !first.emitted[x]));
        if before[x] {
            assert(first.emitted[x]);
        }
        if first.emitted[x] {
            assert(second.emitted[x]);
        }
    }
    assert forall|x: int| 0 <= x < before.len() && before[x] implies #[trigger] second.emitted[x] by {
        assert(first.emitted[x]);
    }
}

/// The effect of a block in front of what follows it gives every block at
/// most one place if what follows does.
proof fn headed(f: FunctionView, n: int, emitted: Seq<bool>, rest: Built)
    requires
        emitted.len() == f.blocks.len(),
        rising_starts(f.blocks),
        0 <= n < f.blocks.len(),
        !emitted[n],
        grows(emitted.update(n, true), rest.emitted),
        placed_once(f, emitted.update(n, true), rest),
    ensures
        placed_once(
            f,
            emitted,
            Built { statements: seq![basic(f.blocks[n])] + rest.statements, emitted: rest.emitted },
        ),
        grows(emitted, rest.emitted),
{
    let marked = emitted.update(n, true);
    let first = Built { statements: seq![basic(f.blocks[n])], emitted: marked };
    assert forall|x: int| 0 <= x < emitted.len() implies places_in(
        first.statements,
        (#[trigger] f.blocks[x]).start,
    ) == one_if(first.emitted[x] && !emitted[x]) by {
        basic_places(f, n, x);
    }
    assert(grows(emitted, marked));
    chained(f, emitted, first, rest);
}

/// A loop around a body gives every block at most one place if the body
/// does.
proof fn looped(f: FunctionView, before: Seq<bool>, body: Built, whole: StatementView)
    requires
        before.len() == f.blocks.len(),
        placed_once(f, before, body),
        whole matches StatementView::Loop { condition, body: inner } && *inner
            == StatementView::Block(body.statements),
    ensures
        placed_once(f, before, Built { statements: seq![whole], emitted: body.emitted }),
{
    assert forall|x: int| 0 <= x < before.len() implies places_in(
        seq![whole],
        (#[trigger] f.blocks[x]).start,
    ) == one_if(body.emitted[x] && !before[x]) by {
        let a = f.blocks[x].start;
        places_in_one(whole, a);
        places_of_block(body.statements, a);
        assert(places_in(body.statements, a) == one_if(body.emitted[x] && !before[x]));
    }
}

/// A condition over two sides gives every block at most one place if the
/// sides, one after the other, do. Where both sides are empty the condition
/// may be left out.
proof fn branched(
    f: FunctionView,
    before: Seq<bool>,
    yes: Built,
    no: Built,
    whole: StatementView,
    branch: Seq<StatementView>,
)
    requires
        before.len() == f.blocks.len(),
        grows(before, yes.emitted),
        grows(yes.emitted, no.emitted),
        placed_once(f, before, yes),
        placed_once(f, yes.emitted, no),
        whole matches StatementView::If { condition, true_statement, else_statement }
            && *true_statement == StatementView::Block(yes.statements) && *else_statement
            == StatementView::Block(no.statements),
        branch == if yes.statements.len() == 0 && no.statements.len() == 0 {
            Seq::<StatementView>::empty()
        } else {
            seq![whole]
        },
    ensures
        placed_once(f, before, Built { statements: branch, emitted: no.emitted }),
        grows(before, no.emitted),
{
    assert forall|x: int| 0 <= x < before.len() implies places_in(
        branch,
        (#[trigger] f.blocks[x]).start,
    ) == one_if(no.emitted[x] && !before[x]) by {
        let a = f.blocks[x].start;
        places_in_one(whole, a);
        places_of_block(yes.statements, a);
        places_of_block(no.statements, a);
        assert(places_in(yes.statements, a) == one_if(yes.emitted[x] && !before[x]));
        assert(places_in(no.statements, a) == one_if(no.emitted[x] && !yes.emitted[x]));
        if before[x] {
            assert(yes.emitted[x]);
        }
        if yes.emitted[x] {
            assert(no.emitted[x]);
        }
    }
    assert forall|x: int| 0 <= x < before.len() && before[x] implies #[trigger] no.emitted[x] by {
        assert(yes.emitted[x]);
    }
}

/// A statement that is no block's effect gives no block a place.
proof fn placeless(f: FunctionView, before: Seq<bool>, s: StatementView)
    requires
        before.len() == f.blocks.len(),
        forall|a: Address| places(s, a) == 0,
    ensures
        placed_once(f, before, Built { statements: seq![s], emitted: before }),
{
    assert forall|x: int| 0 <= x < before.len() implies places_in(
        seq![s],
        (#[trigger] f.blocks[x]).start,
    ) == 0 by {
        places_in_one(s, f.blocks[x].start);
    }
}

/// What follows gives every block at most one place.
pub proof fn follow_places_once(
    f: FunctionView,
    c: ConventionsView,
    address: Address,
    stops: Seq<usize>,
    emitted: Seq<bool>,
    fuel: nat,
)
    requires
        emitted.len() == f.blocks.len(),
        rising_starts(f.blocks),
    ensures
        placed_once(f, emitted, follow(f, c, address, stops, emitted, fuel)),
        grows(emitted, follow(f, c, address, stops, emitted, fuel).emitted),
    decreases fuel, 2nat,
{
    let slot = slot_of(f.blocks, address, 0);
    if 0 <= slot < f.blocks.len() {
        region_places_once(f, c, slot, stops, emitted, fuel);
    } else {
        placeless(f, emitted, residue(address));
    }
}

/// A region gives every block at most one place.
pub proof fn region_places_once(
    f: FunctionView,
    c: ConventionsView,
    n: int,
    stops: Seq<usize>,
    emitted: Seq<bool>,
    fuel: nat,
)
    requires
        emitted.len() == f.blocks.len(),
        rising_starts(f.blocks),
    ensures
        placed_once(f, emitted, region(f, c, n, stops, emitted, fuel)),
        grows(emitted, region(f, c, n, stops, emitted, fuel).emitted),
    decreases fuel, 1nat,
{
    if n < 0 || n >= f.blocks.len() {
    } else if stops.contains(n as usize) {
    } else if emitted[n] || fuel == 0 {
        placeless(f, emitted, residue(f.blocks[n].start));
    } else if is_header(f, n) {
        let less = (fuel - 1) as nat;
        match loop_shape(f, n) {
            LoopShape::PreTest { condition, inside, exit } => {
                let marked = emitted.update(n, true);
                let inner_stops = stops.push(n as usize).push(exit);
                let body = region(f, c, inside as int, inner_stops, marked, less);
                region_places_once(f, c, inside as int, inner_stops, marked, less);
                let rest = region(f, c, exit as int, stops, body.emitted, less);
                region_places_once(f, c, exit as int, stops, body.emitted, less);
                headed(f, n, emitted, body);
                let inside_loop = Built {
                    statements: seq![basic(f.blocks[n])] + body.statements,
                    emitted: body.emitted,
                };
                let whole = StatementView::Loop {
                    condition: Some(condition),
                    body: Box::new(StatementView::Block(inside_loop.statements)),
                };
                looped(f, emitted, inside_loop, whole);
                chained(
                    f,
                    emitted,
                    Built { statements: seq![whole], emitted: body.emitted },
                    rest,
                );
            },
            LoopShape::PostTest { condition, exit } => {
                let inner_stops = stops.push(n as usize).push(exit);
                let body = node(f, c, n, inner_stops, emitted, fuel);
                node_places_once(f, c, n, inner_stops, emitted, fuel);
                let rest = region(f, c, exit as int, stops, body.emitted, less);
                region_places_once(f, c, exit as int, stops, body.emitted, less);
                let whole = StatementView::Loop {
                    condition: Some(condition),
                    body: Box::new(StatementView::Block(body.statements)),
                };
                looped(f, emitted, body, whole);
                chained(
                    f,
                    emitted,
                    Built { statements: seq![whole], emitted: body.emitted },
                    rest,
                );
            },
            LoopShape::Endless => {
                let inner_stops = stops.push(n as usize);
                let body = node(f, c, n, inner_stops, emitted, fuel);
                node_places_once(f, c, n, inner_stops, emitted, fuel);
                let whole = StatementView::Loop {
                    condition: None,
                    body: Box::new(StatementView::Block(body.statements)),
                };
                looped(f, emitted, body, whole);
            },
        }
    } else {
        node_places_once(f, c, n, stops, emitted, fuel);
    }
}

/// The statements of a block give every block at most one place.
pub proof fn node_places_once(
    f: FunctionView,
    c: ConventionsView,
    n: int,
    stops: Seq<usize>,
    emitted: Seq<bool>,
    fuel: nat,
)
    requires
        emitted.len() == f.blocks.len(),
        rising_starts(f.blocks),
        0 <= n < f.blocks.len(),
        fuel > 0,
        !emitted[n],
    ensures
        placed_once(f, emitted, node(f, c, n, stops, emitted, fuel)),
        grows(emitted, node(f, c, n, stops, emitted, fuel).emitted),
    decreases fuel, 0nat,
{
    let out = node(f, c, n, stops, emitted, fuel);
    let b = f.blocks[n];
    let marked = emitted.update(n, true);
    let head = seq![basic(b)];
    let less = (fuel - 1) as nat;
    match b.next {
        NextBlock::Return => {
            let last = StatementView::Return { result: returned(b.registers, c) };
            placeless(f, marked, last);
            headed(f, n, emitted, Built { statements: seq![last], emitted: marked });
            assert(out.statements =~= head + seq![last]);
        },
        NextBlock::Indirect => {
            let last = StatementView::Branch { target: DestinationKind::Unknown };
            placeless(f, marked, last);
            headed(f, n, emitted, Built { statements: seq![last], emitted: marked });
            assert(out.statements =~= head + seq![last]);
        },
        NextBlock::Fallthrough(next) => {
            let rest = follow(f, c, next, stops, marked, less);
            follow_places_once(f, c, next, stops, marked, less);
            headed(f, n, emitted, rest);
        },
        NextBlock::Branch { target } => {
            let rest = follow(f, c, target, stops, marked, less);
            follow_places_once(f, c, target, stops, marked, less);
            headed(f, n, emitted, rest);
        },
        NextBlock::Call { destination, return_site } => {
            let rest = follow(f, c, return_site, stops, marked, less);
            follow_places_once(f, c, return_site, stops, marked, less);
            let call = StatementView::Call {
                target: destination,
                arguments: arguments(b.registers, c.parameter_slots),
            };
            placeless(f, marked, call);
            chained(f, marked, Built { statements: seq![call], emitted: marked }, rest);
            headed(
                f,
                n,
                emitted,
                Built { statements: seq![call] + rest.statements, emitted: rest.emitted },
            );
            assert(out.statements =~= head + (seq![call] + rest.statements));
        },
        NextBlock::ConditionalBranch { condition, target, fallthrough } => {
            let t = slot_of(f.blocks, target, 0);
            let e = slot_of(f.blocks, fallthrough, 0);
            let count = f.blocks.len() as int;
            let merge = if 0 <= t < count && 0 <= e < count {
                merge_from(f, n, t, e, 0)
            } else {
                count
            };
            let inner = if 0 <= merge < count {
                stops.push(merge as usize)
            } else {
                stops
            };
            let yes = follow(f, c, target, inner, marked, less);
            follow_places_once(f, c, target, inner, marked, less);
            let no = follow(f, c, fallthrough, inner, yes.emitted, less);
            follow_places_once(f, c, fallthrough, inner, yes.emitted, less);
            let rest = if 0 <= merge < count {
                region(f, c, merge, stops, no.emitted, less)
            } else {
                Built { statements: Seq::empty(), emitted: no.emitted }
            };
            if 0 <= merge < count {
                region_places_once(f, c, merge, stops, no.emitted, less);
            }
            let whole = StatementView::If {
                condition: simplified(condition),
                true_statement: Box::new(StatementView::Block(yes.statements)),
                else_statement: Box::new(StatementView::Block(no.statements)),
            };
            let branch = if yes.statements.len() == 0 && no.statements.len() == 0 {
                Seq::<StatementView>::empty()
            } else {
                seq![whole]
            };
            branched(f, marked, yes, no, whole, branch);
            chained(f, marked, Built { statements: branch, emitted: no.emitted }, rest);
            headed(
                f,
                n,
                emitted,
                Built { statements: branch + rest.statements, emitted: rest.emitted },
            );
            assert(out.statements =~= head + (branch + rest.statements));
        },
    }
}

/// The sweep gives every block at most one place more.
pub proof fn swept_places_once(f: FunctionView, c: ConventionsView, i: int, before: Seq<bool>, built: Built)
    requires
        before.len() == f.blocks.len(),
        f.member.len() == f.blocks.len(),
        rising_starts(f.blocks),
        0 <= i,
        grows(before, built.emitted),
        placed_once(f, before, built),
    ensures
        placed_once(f, before, swept(f, c, i, built)),
        grows(before, swept(f, c, i, built).emitted),
    decreases f.blocks.len() - i,
{
    if i >= f.blocks.len() {
    } else if f.member[i] && !built.emitted[i] {
        let fuel = f.blocks.len();
        let more = region(f, c, i, Seq::empty(), built.emitted, fuel);
        region_places_once(f, c, i, Seq::empty(), built.emitted, fuel);
        chained(f, before, built, more);
        let next = Built { statements: built.statements + more.statements, emitted: more.emitted };
        swept_places_once(f, c, i + 1, before, next);
    } else {
        swept_places_once(f, c, i + 1, before, built);
    }
}

/// Every block that can be reached from the entry of a function stands in
/// the structured form of the function exactly once, where the blocks start
/// at rising addresses.
pub proof fn structuring_places_once(f: FunctionView, c: ConventionsView, x: int)
    requires
        graph_of(f.blocks, f.entry) == Some(f),
        rising_starts(f.blocks),
        0 <= x < f.blocks.len(),
        reachable(f.successors, f.entry_slot as int, x),
    ensures
        places(structured(f, c), f.blocks[x].start) == 1,
{
    let count = f.blocks.len();
    let none = Seq::new(count, |i: int| false);
    let first = region(f, c, f.entry_slot as int, Seq::empty(), none, count);
    region_places_once(f, c, f.entry_slot as int, Seq::empty(), none, count);
    swept_places_once(f, c, 0, none, first);
    swept_carries_on(f, c, 0, first);
    let all = swept(f, c, 0, first);
    let made = graph_of(f.blocks, f.entry)->Some_0;
    assert(made == f);
    assert(made.member[x] == reachable(linked(f.blocks), made.entry_slot as int, x));
    assert(f.member[x]);
    assert(all.emitted[x]);
    let a = f.blocks[x].start;
    assert(places_in(all.statements, a) == one_if(all.emitted[x] && !none[x]));
    assert(all == body_of(f, c));
    places_of_block(all.statements, a);
}

/// In a function composed from a store of lifted instructions, every block
/// that the entry reaches stands in the structured form exactly once.
pub proof fn composed_blocks_stand_once(
    s: Seq<(Interval, LiftedView)>,
    entry: Address,
    c: ConventionsView,
    x: int,
)
    requires
        ordered(s),
        composed(s, entry) is Some,
        0 <= x < composed(s, entry)->Some_0.blocks.len(),
        reachable(
            composed(s, entry)->Some_0.successors,
            composed(s, entry)->Some_0.entry_slot as int,
            x,
        ),
    ensures
        places(
            structured(composed(s, entry)->Some_0, c),
            composed(s, entry)->Some_0.blocks[x].start,
        ) == 1,
{
    let f = composed(s, entry)->Some_0;
    blocks_start_apart(s, entry);
    assert(f.blocks == blocks_of(s, entry));
    assert(f.entry == entry);
    structuring_places_once(f, c, x);
}

} // verus!
