//! The structured form of a function: nested statements without jumps,
//! as far as the control flow allows.
use crate::address::Address;
use crate::ir::basic_block::{
    find_slot, slot_at, BasicBlock, BlockView, DestinationKind, NextBlock,
};
use crate::ir::conventions::{Conventions, ConventionsView};
use crate::ir::expression::{simplified, simplify, Expression};
use crate::ir::high_function::{slot_of, FunctionView, HighFunction};
use crate::ir::pcode::{Space, Storage};
use crate::ir::scope::{defined, definition_of, renamed_local, slot_name, DefinitionView, Scope};
use crate::ir::expression::VariableSymbol;
use crate::ir::type_system::VariableType;
use crate::text::prefixed_hex;
use crate::ir::structuring::{
    is_header, list_has, loop_shape, merge_from, Analysis, LoopShape,
};
use vstd::prelude::*;

verus! {

/// A statement.
#[derive(Debug, PartialEq, Eq)]
#[allow(inconsistent_fields)]
pub enum AstStatement {
    /// A function: the root of every tree.
    Function { entry: Address, body: Box<AstStatement> },
    /// Statements, one after the other.
    Block(Vec<AstStatement>),
    If { condition: Expression, true_statement: Box<AstStatement>, else_statement: Box<AstStatement> },
    /// A loop that runs while the condition holds, or without an end where
    /// it has none.
    Loop { condition: Option<Expression>, body: Box<AstStatement> },
    Return { result: Option<Expression> },
    Call { target: DestinationKind, arguments: Vec<Expression> },
    /// The effect of the basic block at `address`: what it writes to slots
    /// and what it stores to memory.
    Basic {
        address: Address,
        assignments: Vec<(Storage, Expression)>,
        stores: Vec<(Expression, Expression)>,
    },
    /// A jump that found no place in the nesting.
    Branch { target: DestinationKind },
}

/// A statement, with its lists as sequences.
#[allow(inconsistent_fields)]
pub enum StatementView {
    Function { entry: Address, body: Box<StatementView> },
    Block(Seq<StatementView>),
    If { condition: Expression, true_statement: Box<StatementView>, else_statement: Box<StatementView> },
    Loop { condition: Option<Expression>, body: Box<StatementView> },
    Return { result: Option<Expression> },
    Call { target: DestinationKind, arguments: Seq<Expression> },
    Basic {
        address: Address,
        assignments: Seq<(Storage, Expression)>,
        stores: Seq<(Expression, Expression)>,
    },
    Branch { target: DestinationKind },
}

/// The statement with its lists as sequences.
pub open spec fn shape(statement: AstStatement) -> StatementView
    decreases statement,
{
    match statement {
        AstStatement::Function { entry, body } => StatementView::Function {
            entry,
            body: Box::new(shape(*body)),
        },
        AstStatement::Block(statements) => StatementView::Block(
            Seq::new(
                statements@.len(),
                |i: int|
                    if 0 <= i < statements@.len() {
                        shape(statements@[i])
                    } else {
                        StatementView::Block(Seq::empty())
                    },
            ),
        ),
        AstStatement::If { condition, true_statement, else_statement } => StatementView::If {
            condition,
            true_statement: Box::new(shape(*true_statement)),
            else_statement: Box::new(shape(*else_statement)),
        },
        AstStatement::Loop { condition, body } => StatementView::Loop {
            condition,
            body: Box::new(shape(*body)),
        },
        AstStatement::Return { result } => StatementView::Return { result },
        AstStatement::Call { target, arguments } => StatementView::Call {
            target,
            arguments: arguments@,
        },
        AstStatement::Basic { address, assignments, stores } => StatementView::Basic {
            address,
            assignments: assignments@,
            stores: stores@,
        },
        AstStatement::Branch { target } => StatementView::Branch { target },
    }
}

impl View for AstStatement {
    type V = StatementView;

    open spec fn view(&self) -> StatementView {
        shape(*self)
    }
}

/// The statements of a list, each by its view.
pub open spec fn shapes(statements: Seq<AstStatement>) -> Seq<StatementView> {
    Seq::new(statements.len(), |i: int| shape(statements[i]))
}

/// Whether the effect of the block at `address` stands somewhere in the
/// statement.
pub open spec fn mentions(statement: StatementView, address: Address) -> bool
    decreases statement,
{
    match statement {
        StatementView::Function { entry, body } => mentions(*body, address),
        StatementView::Block(statements) => exists|i: int|
            0 <= i < statements.len() && mentions(#[trigger] statements[i], address),
        StatementView::If { condition, true_statement, else_statement } => mentions(
            *true_statement,
            address,
        ) || mentions(*else_statement, address),
        StatementView::Loop { condition, body } => mentions(*body, address),
        StatementView::Basic { address: a, assignments, stores } => a == address,
        _ => false,
    }
}

/// Whether the effect of the block at `address` stands somewhere in the
/// statements.
pub open spec fn mentioned(statements: Seq<StatementView>, address: Address) -> bool {
    exists|i: int| 0 <= i < statements.len() && mentions(#[trigger] statements[i], address)
}

/// The entries of `registers` that are for registers: temporaries are left
/// out.
pub open spec fn visible(registers: Seq<(Storage, Expression)>) -> Seq<(Storage, Expression)>
    decreases registers.len(),
{
    if registers.len() == 0 {
        Seq::empty()
    } else if registers.last().0.space == Space::Register {
        visible(registers.drop_last()).push(registers.last())
    } else {
        visible(registers.drop_last())
    }
}

/// What `slot` holds at the end of a block: what the block wrote to it, or
/// what it held before.
pub open spec fn value_of(registers: Seq<(Storage, Expression)>, slot: Storage) -> Expression {
    let i = slot_at(registers, slot, 0);
    if 0 <= i < registers.len() {
        registers[i].1
    } else {
        Expression::register_spec(slot)
    }
}

/// What a block that returns hands back: what the return slot holds, where
/// the convention names one.
pub open spec fn returned(registers: Seq<(Storage, Expression)>, c: ConventionsView) -> Option<
    Expression,
> {
    match c.return_slot {
        Some(slot) => Some(value_of(registers, slot)),
        None => None,
    }
}

/// What a block that calls hands over: what it wrote to the parameter
/// slots, in the order of the convention.
pub open spec fn arguments(registers: Seq<(Storage, Expression)>, parameters: Seq<Storage>) -> Seq<
    Expression,
>
    decreases parameters.len(),
{
    if parameters.len() == 0 {
        Seq::empty()
    } else {
        let rest = arguments(registers, parameters.drop_last());
        let i = slot_at(registers, parameters.last(), 0);
        if 0 <= i < registers.len() {
            rest.push(registers[i].1)
        } else {
            rest
        }
    }
}

/// The statement for the effect of a block.
pub open spec fn basic(b: BlockView) -> StatementView {
    StatementView::Basic { address: b.start, assignments: visible(b.registers), stores: b.stores }
}

/// The statements built for a part of the graph, and the blocks that have
/// found their place so far.
pub struct Built {
    pub statements: Seq<StatementView>,
    pub emitted: Seq<bool>,
}

/// A jump to `address` that found no place in the nesting.
pub open spec fn residue(address: Address) -> StatementView {
    StatementView::Branch { target: DestinationKind::Concrete(address) }
}

/// The statements for what follows at `address`: the region of the block
/// that starts there, or a jump where no block does.
pub open spec fn follow(
    f: FunctionView,
    c: ConventionsView,
    address: Address,
    stops: Seq<usize>,
    emitted: Seq<bool>,
    fuel: nat,
) -> Built
    decreases fuel, 2nat,
{
    let slot = slot_of(f.blocks, address, 0);
    if 0 <= slot < f.blocks.len() {
        region(f, c, slot, stops, emitted, fuel)
    } else {
        Built { statements: seq![residue(address)], emitted }
    }
}

/// The statements for the region that starts at the block `n`. The region
/// ends without a statement at any block of `stops`: there an enclosing
/// condition meets again or an enclosing loop goes round or is left. A
/// block that has its place already is jumped to. A block that heads a loop
/// becomes a loop of the shape found for it, followed by the region at the
/// loop's exit where the shape names one. Any other block becomes the
/// statements of the block itself.
pub open spec fn region(
    f: FunctionView,
    c: ConventionsView,
    n: int,
    stops: Seq<usize>,
    emitted: Seq<bool>,
    fuel: nat,
) -> Built
    decreases fuel, 1nat,
{
    if n < 0 || n >= f.blocks.len() || emitted.len() != f.blocks.len() {
        Built { statements: Seq::empty(), emitted }
    } else if stops.contains(n as usize) {
        Built { statements: Seq::empty(), emitted }
    } else if emitted[n] || fuel == 0 {
        Built { statements: seq![residue(f.blocks[n].start)], emitted }
    } else if is_header(f, n) {
        match loop_shape(f, n) {
            LoopShape::PreTest { condition, inside, exit } => {
                let body = region(
                    f,
                    c,
                    inside as int,
                    stops.push(n as usize).push(exit),
                    emitted.update(n, true),
                    (fuel - 1) as nat,
                );
                let rest = region(f, c, exit as int, stops, body.emitted, (fuel - 1) as nat);
                Built {
                    statements: seq![
                        StatementView::Loop {
                            condition: Some(condition),
                            body: Box::new(
                                StatementView::Block(seq![basic(f.blocks[n])] + body.statements),
                            ),
                        },
                    ] + rest.statements,
                    emitted: rest.emitted,
                }
            },
            LoopShape::PostTest { condition, exit } => {
                let body = node(f, c, n, stops.push(n as usize).push(exit), emitted, fuel);
                let rest = region(f, c, exit as int, stops, body.emitted, (fuel - 1) as nat);
                Built {
                    statements: seq![
                        StatementView::Loop {
                            condition: Some(condition),
                            body: Box::new(StatementView::Block(body.statements)),
                        },
                    ] + rest.statements,
                    emitted: rest.emitted,
                }
            },
            LoopShape::Endless => {
                let body = node(f, c, n, stops.push(n as usize), emitted, fuel);
                Built {
                    statements: seq![
                        StatementView::Loop {
                            condition: None,
                            body: Box::new(StatementView::Block(body.statements)),
                        },
                    ],
                    emitted: body.emitted,
                }
            },
        }
    } else {
        node(f, c, n, stops, emitted, fuel)
    }
}

/// The statements for the block `n` and what follows it: the effect of the
/// block, then what its ending asks for. A return and a jump to an unknown
/// address end the region. A call is followed by the region at the return
/// site. A condition becomes an `If` over the regions of its two sides,
/// each up to the block where the sides meet again, followed by the region
/// at that block; where both sides come out empty no `If` is written.
pub open spec fn node(
    f: FunctionView,
    c: ConventionsView,
    n: int,
    stops: Seq<usize>,
    emitted: Seq<bool>,
    fuel: nat,
) -> Built
    decreases fuel, 0nat,
{
    if n < 0 || n >= f.blocks.len() || emitted.len() != f.blocks.len() || fuel == 0 {
        Built { statements: Seq::empty(), emitted }
    } else {
        let b = f.blocks[n];
        let marked = emitted.update(n, true);
        let head = seq![basic(b)];
        let less = (fuel - 1) as nat;
        match b.next {
            NextBlock::Return => Built {
                statements: head.push(StatementView::Return { result: returned(b.registers, c) }),
                emitted: marked,
            },
            NextBlock::Indirect => Built {
                statements: head.push(StatementView::Branch { target: DestinationKind::Unknown }),
                emitted: marked,
            },
            NextBlock::Fallthrough(next) => {
                let rest = follow(f, c, next, stops, marked, less);
                Built { statements: head + rest.statements, emitted: rest.emitted }
            },
            NextBlock::Branch { target } => {
                let rest = follow(f, c, target, stops, marked, less);
                Built { statements: head + rest.statements, emitted: rest.emitted }
            },
            NextBlock::Call { destination, return_site } => {
                let rest = follow(f, c, return_site, stops, marked, less);
                Built {
                    statements: head.push(
                        StatementView::Call {
                            target: destination,
                            arguments: arguments(b.registers, c.parameter_slots),
                        },
                    ) + rest.statements,
                    emitted: rest.emitted,
                }
            },
            NextBlock::ConditionalBranch { condition, target, fallthrough } => {
                let t = slot_of(f.blocks, target, 0);
                let e = slot_of(f.blocks, fallthrough, 0);
                let count = f.blocks.len() as int;
                let merge = if 0 <= t < count && 0 <= e < count {
                    merge_from(f, n, t, e, 0)
                } else {
                    count
                };
                let inner = if 0 <= merge < count {
                    stops.push(merge as usize)
                } else {
                    stops
                };
                let yes = follow(f, c, target, inner, marked, less);
                let no = follow(f, c, fallthrough, inner, yes.emitted, less);
                let rest = if 0 <= merge < count {
                    region(f, c, merge, stops, no.emitted, less)
                } else {
                    Built { statements: Seq::empty(), emitted: no.emitted }
                };
                let branch = if yes.statements.len() == 0 && no.statements.len() == 0 {
                    Seq::empty()
                } else {
                    seq![
                        StatementView::If {
                            condition: simplified(condition),
                            true_statement: Box::new(StatementView::Block(yes.statements)),
                            else_statement: Box::new(StatementView::Block(no.statements)),
                        },
                    ]
                };
                Built { statements: head + branch + rest.statements, emitted: rest.emitted }
            },
        }
    }
}

/// The statements after the blocks from the `i`-th on that belong to the
/// function and have found no place yet have been given one, each at the
/// end of what stands so far.
pub open spec fn swept(f: FunctionView, c: ConventionsView, i: int, built: Built) -> Built
    decreases f.blocks.len() - i,
{
    if i < 0 || i >= f.blocks.len() || built.emitted.len() != f.blocks.len() || f.member.len()
        != f.blocks.len() {
        built
    } else if f.member[i] && !built.emitted[i] {
        let more = region(f, c, i, Seq::empty(), built.emitted, f.blocks.len());
        swept(
            f,
            c,
            i + 1,
            Built { statements: built.statements + more.statements, emitted: more.emitted },
        )
    } else {
        swept(f, c, i + 1, built)
    }
}

/// The statements of the whole function: the region at the entry, and
/// behind it whatever block of the function found no place in it.
pub open spec fn body_of(f: FunctionView, c: ConventionsView) -> Built {
    swept(
        f,
        c,
        0,
        region(
            f,
            c,
            f.entry_slot as int,
            Seq::empty(),
            Seq::new(f.blocks.len(), |i: int| false),
            f.blocks.len(),
        ),
    )
}

/// The structured form of the function.
pub open spec fn structured(f: FunctionView, c: ConventionsView) -> StatementView {
    StatementView::Function {
        entry: f.entry,
        body: Box::new(StatementView::Block(body_of(f, c).statements)),
    }
}

/// Structuring is a function of the graph: two trees built for the same
/// graph under the same convention are the same tree.
pub proof fn structuring_is_deterministic(
    f: FunctionView,
    c: ConventionsView,
    first: AbstractSyntaxTree,
    second: AbstractSyntaxTree,
)
    requires
        first@ == structured(f, c),
        second@ == structured(f, c),
    ensures
        first@ == second@,
{
}

pub proof fn shapes_push(a: Seq<AstStatement>, x: AstStatement)
    ensures
        shapes(a.push(x)) == shapes(a).push(shape(x)),
{
    assert(shapes(a.push(x)) =~= shapes(a).push(shape(x)));
}

pub proof fn shapes_add(a: Seq<AstStatement>, b: Seq<AstStatement>)
    ensures
        shapes(a + b) == shapes(a) + shapes(b),
{
    assert(shapes(a + b) =~= shapes(a) + shapes(b));
}

pub proof fn block_shape(v: Vec<AstStatement>)
    ensures
        shape(AstStatement::Block(v)) == StatementView::Block(shapes(v@)),
{
    let s = shape(AstStatement::Block(v));
    match s {
        StatementView::Block(x) => {
            assert(x.len() == v@.len());
            assert forall|i: int| 0 <= i < x.len() implies x[i] == shapes(v@)[i] by {}
            assert(x =~= shapes(v@));
        },
        _ => {
            assert(false);
        },
    }
}

fn visible_of(registers: &Vec<(Storage, Expression)>) -> (r: Vec<(Storage, Expression)>)
    ensures
        r@ == visible(registers@),
{
    let mut r: Vec<(Storage, Expression)> = Vec::new();
    let mut i: usize = 0;
    while i < registers.len()
        invariant
            i <= registers@.len(),
            r@ == visible(registers@.subrange(0, i as int)),
        decreases registers@.len() - i,
    {
        let ghost upto = registers@.subrange(0, i + 1);
        assert(upto.drop_last() =~= registers@.subrange(0, i as int));
        assert(upto.last() == registers@[i as int]);
        if registers[i].0.space == Space::Register {
            r.push((registers[i].0, registers[i].1.duplicate()));
        }
        i += 1;
    }
    assert(registers@.subrange(0, i as int) =~= registers@);
    r
}

fn copy_stores(stores: &Vec<(Expression, Expression)>) -> (r: Vec<(Expression, Expression)>)
    ensures
        r@ == stores@,
{
    let mut r: Vec<(Expression, Expression)> = Vec::new();
    let mut i: usize = 0;
    while i < stores.len()
        invariant
            i <= stores@.len(),
            r@ == stores@.subrange(0, i as int),
        decreases stores@.len() - i,
    {
        r.push((stores[i].0.duplicate(), stores[i].1.duplicate()));
        assert(r@ =~= stores@.subrange(0, i + 1));
        i += 1;
    }
    assert(stores@.subrange(0, i as int) =~= stores@);
    r
}

fn value_in(registers: &Vec<(Storage, Expression)>, slot: Storage) -> (e: Expression)
    ensures
        e == value_of(registers@, slot),
{
    match find_slot(registers, slot) {
        Some(i) => registers[i].1.duplicate(),
        None => Expression::register(slot),
    }
}

fn arguments_of(registers: &Vec<(Storage, Expression)>, parameters: &Vec<Storage>) -> (r: Vec<
    Expression,
>)
    ensures
        r@ == arguments(registers@, parameters@),
{
    let mut r: Vec<Expression> = Vec::new();
    let mut i: usize = 0;
    while i < parameters.len()
        invariant
            i <= parameters@.len(),
            r@ == arguments(registers@, parameters@.subrange(0, i as int)),
        decreases parameters@.len() - i,
    {
        let ghost upto = parameters@.subrange(0, i + 1);
        assert(upto.drop_last() =~= parameters@.subrange(0, i as int));
        assert(upto.last() == parameters@[i as int]);
        match find_slot(registers, parameters[i]) {
            Some(k) => {
                r.push(registers[k].1.duplicate());
            },
            None => {},
        }
        i += 1;
    }
    assert(parameters@.subrange(0, i as int) =~= parameters@);
    r
}

fn basic_of(b: &BasicBlock) -> (s: AstStatement)
    ensures
        shape(s) == basic(b@),
{
    AstStatement::Basic {
        address: b.start,
        assignments: visible_of(&b.registers),
        stores: copy_stores(&b.stores),
    }
}

fn extended(stops: &Vec<usize>, x: usize) -> (r: Vec<usize>)
    ensures
        r@ == stops@.push(x),
{
    let mut r: Vec<usize> = Vec::new();
    let mut i: usize = 0;
    while i < stops.len()
        invariant
            i <= stops@.len(),
            r@ == stops@.subrange(0, i as int),
        decreases stops@.len() - i,
    {
        r.push(stops[i]);
        assert(r@ =~= stops@.subrange(0, i + 1));
        i += 1;
    }
    assert(stops@.subrange(0, i as int) =~= stops@);
    r.push(x);
    r
}

fn residue_of(address: Address) -> (s: AstStatement)
    ensures
        shape(s) == residue(address),
{
    AstStatement::Branch { target: DestinationKind::Concrete(address) }
}

/// The structuring engine at work on one function.
pub struct Structurer<'a> {
    f: &'a HighFunction,
    analysis: Analysis,
    conventions: &'a Conventions,
}

impl<'a> Structurer<'a> {
    /// The graph that is being structured.
    pub closed spec fn graph(&self) -> FunctionView {
        self.f@
    }

    /// The convention that is read.
    pub closed spec fn convention(&self) -> ConventionsView {
        self.conventions@
    }

    /// The tables are those of the graph.
    pub closed spec fn wf(&self) -> bool {
        self.f.wf() && self.analysis.fits(self.f@)
    }

    /// Sets the engine up for `f`: computes which block dominates which and
    /// which reaches which.
    pub fn new(f: &'a HighFunction, conventions: &'a Conventions) -> (s: Structurer<'a>)
        requires
            f.wf(),
        ensures
            s.wf(),
            s.graph() == f@,
            s.convention() == conventions@,
    {
        Structurer { f, analysis: Analysis::of(f), conventions }
    }

    /// The statements for what follows at `address`.
    pub fn follow(&self, address: Address, stops: &Vec<usize>, emitted: &mut Vec<bool>, fuel: usize) -> (out:
        Vec<AstStatement>)
        requires
            self.wf(),
            old(emitted)@.len() == self.graph().blocks.len(),
        ensures
            final(emitted)@.len() == old(emitted)@.len(),
            shapes(out@) == follow(
                self.graph(),
                self.convention(),
                address,
                stops@,
                old(emitted)@,
                fuel as nat,
            ).statements,
            final(emitted)@ == follow(
                self.graph(),
                self.convention(),
                address,
                stops@,
                old(emitted)@,
                fuel as nat,
            ).emitted,
        decreases fuel, 2nat,
    {
        match self.f.slot_by_address(address) {
            Some(slot) => self.region(slot, stops, emitted, fuel),
            None => {
                let mut out: Vec<AstStatement> = Vec::new();
                out.push(residue_of(address));
                assert(shapes(out@) =~= seq![residue(address)]);
                out
            },
        }
    }

    /// The statements for the region that starts at the block `n`.
    pub fn region(&self, n: usize, stops: &Vec<usize>, emitted: &mut Vec<bool>, fuel: usize) -> (out:
        Vec<AstStatement>)
        requires
            self.wf(),
            n < self.graph().blocks.len(),
            old(emitted)@.len() == self.graph().blocks.len(),
        ensures
            final(emitted)@.len() == old(emitted)@.len(),
            shapes(out@) == region(
                self.graph(),
                self.convention(),
                n as int,
                stops@,
                old(emitted)@,
                fuel as nat,
            ).statements,
            final(emitted)@ == region(
                self.graph(),
                self.convention(),
                n as int,
                stops@,
                old(emitted)@,
                fuel as nat,
            ).emitted,
        decreases fuel, 1nat,
    {
        let ghost f = self.graph();
        let ghost c = self.convention();
        let ghost first = emitted@;
        let mut out: Vec<AstStatement> = Vec::new();
        if list_has(stops, n) {
            assert(shapes(out@) =~= Seq::<StatementView>::empty());
            return out;
        }
        if emitted[n] || fuel == 0 {
            out.push(residue_of(self.f.block(n).start));
            assert(shapes(out@) =~= seq![residue(f.blocks[n as int].start)]);
            return out;
        }
        let count = self.f.len();
        let latch = self.analysis.latch_from(self.f, n, 0);
        if latch >= count {
            return self.node(n, stops, emitted, fuel);
        }
        match self.analysis.shape_of(self.f, n) {
            LoopShape::PreTest { condition, inside, exit } => {
                let around = extended(&extended(stops, n), exit);
                emitted.set(n, true);
                let mut body: Vec<AstStatement> = Vec::new();
                body.push(basic_of(self.f.block(n)));
                let ghost head = body@;
                let mut inner = self.region(inside, &around, emitted, fuel - 1);
                let ghost inner_shapes = shapes(inner@);
                let ghost inner_seq = inner@;
                body.append(&mut inner);
                let mut rest = self.region(exit, stops, emitted, fuel - 1);
                let ghost rest_seq = rest@;
                proof {
                    shapes_add(head, inner_seq);
                    assert(shapes(head) =~= seq![basic(f.blocks[n as int])]);
                    block_shape(body);
                }
                let whole = AstStatement::Loop {
                    condition: Some(condition),
                    body: Box::new(AstStatement::Block(body)),
                };
                out.push(whole);
                let ghost one = out@;
                out.append(&mut rest);
                proof {
                    shapes_add(one, rest_seq);
                    assert(shapes(one) =~= seq![shape(whole)]);
                }
                out
            },
            LoopShape::PostTest { condition, exit } => {
                let around = extended(&extended(stops, n), exit);
                let body = self.node(n, &around, emitted, fuel);
                let mut rest = self.region(exit, stops, emitted, fuel - 1);
                let ghost rest_seq = rest@;
                proof {
                    block_shape(body);
                }
                let whole = AstStatement::Loop {
                    condition: Some(condition),
                    body: Box::new(AstStatement::Block(body)),
                };
                out.push(whole);
                let ghost one = out@;
                out.append(&mut rest);
                proof {
                    shapes_add(one, rest_seq);
                    assert(shapes(one) =~= seq![shape(whole)]);
                }
                out
            },
            LoopShape::Endless => {
                let around = extended(stops, n);
                let body = self.node(n, &around, emitted, fuel);
                proof {
                    block_shape(body);
                }
                let whole = AstStatement::Loop {
                    condition: None,
                    body: Box::new(AstStatement::Block(body)),
                };
                out.push(whole);
                assert(shapes(out@) =~= seq![shape(whole)]);
                out
            },
        }
    }

    /// The statements for the block `n` and what follows it.
    pub fn node(&self, n: usize, stops: &Vec<usize>, emitted: &mut Vec<bool>, fuel: usize) -> (out:
        Vec<AstStatement>)
        requires
            self.wf(),
            n < self.graph().blocks.len(),
            old(emitted)@.len() == self.graph().blocks.len(),
            fuel > 0,
        ensures
            final(emitted)@.len() == old(emitted)@.len(),
            shapes(out@) == node(
                self.graph(),
                self.convention(),
                n as int,
                stops@,
                old(emitted)@,
                fuel as nat,
            ).statements,
            final(emitted)@ == node(
                self.graph(),
                self.convention(),
                n as int,
                stops@,
                old(emitted)@,
                fuel as nat,
            ).emitted,
        decreases fuel, 0nat,
    {
        let ghost f = self.graph();
        let ghost c = self.convention();
        let block = self.f.block(n);
        let count = self.f.len();
        emitted.set(n, true);
        let mut out: Vec<AstStatement> = Vec::new();
        out.push(basic_of(block));
        let ghost head = out@;
        assert(shapes(head) =~= seq![basic(f.blocks[n as int])]);
        match &block.next {
            NextBlock::Return => {
                let last = AstStatement::Return {
                    result: match self.conventions.return_slot {
                        Some(slot) => Some(value_in(&block.registers, slot)),
                        None => None,
                    },
                };
                out.push(last);
                proof {
                    shapes_push(head, last);
                }
                out
            },
            NextBlock::Indirect => {
                let last = AstStatement::Branch { target: DestinationKind::Unknown };
                out.push(last);
                proof {
                    shapes_push(head, last);
                }
                out
            },
            NextBlock::Fallthrough(next) => {
                let mut rest = self.follow(*next, stops, emitted, fuel - 1);
                let ghost rest_seq = rest@;
                out.append(&mut rest);
                proof {
                    shapes_add(head, rest_seq);
                }
                out
            },
            NextBlock::Branch { target } => {
                let mut rest = self.follow(*target, stops, emitted, fuel - 1);
                let ghost rest_seq = rest@;
                out.append(&mut rest);
                proof {
                    shapes_add(head, rest_seq);
                }
                out
            },
            NextBlock::Call { destination, return_site } => {
                let call = AstStatement::Call {
                    target: *destination,
                    arguments: arguments_of(&block.registers, &self.conventions.parameter_slots),
                };
                out.push(call);
                let ghost two = out@;
                let mut rest = self.follow(*return_site, stops, emitted, fuel - 1);
                let ghost rest_seq = rest@;
                out.append(&mut rest);
                proof {
                    shapes_push(head, call);
                    shapes_add(two, rest_seq);
                }
                out
            },
            NextBlock::ConditionalBranch { condition, target, fallthrough } => {
                let t = match self.f.slot_by_address(*target) {
                    Some(t) => t,
                    None => count,
                };
                let e = match self.f.slot_by_address(*fallthrough) {
                    Some(e) => e,
                    None => count,
                };
                let merge = if t < count && e < count {
                    self.analysis.merge_of(self.f, n, t, e)
                } else {
                    count
                };
                let inner = if merge < count {
                    extended(stops, merge)
                } else {
                    copied(stops)
                };
                let yes = self.follow(*target, &inner, emitted, fuel - 1);
                let no = self.follow(*fallthrough, &inner, emitted, fuel - 1);
                let ghost yes_seq = yes@;
                let ghost no_seq = no@;
                if yes.len() > 0 || no.len() > 0 {
                    proof {
                        block_shape(yes);
                        block_shape(no);
                    }
                    let branch = AstStatement::If {
                        condition: simplify(condition),
                        true_statement: Box::new(AstStatement::Block(yes)),
                        else_statement: Box::new(AstStatement::Block(no)),
                    };
                    out.push(branch);
                    proof {
                        shapes_push(head, branch);
                        assert(shapes(out@) =~= seq![basic(f.blocks[n as int])] + seq![shape(branch)]);
                    }
                } else {
                    assert(shapes(out@) =~= seq![basic(f.blocks[n as int])] + Seq::<
                        StatementView,
                    >::empty());
                }
                let ghost upto = out@;
                if merge < count {
                    let mut rest = self.region(merge, stops, emitted, fuel - 1);
                    let ghost rest_seq = rest@;
                    out.append(&mut rest);
                    proof {
                        shapes_add(upto, rest_seq);
                    }
                } else {
                    assert(shapes(out@) =~= shapes(upto) + Seq::<StatementView>::empty());
                }
                out
            },
        }
    }
}

fn copied(stops: &Vec<usize>) -> (r: Vec<usize>)
    ensures
        r@ == stops@,
{
    let mut r: Vec<usize> = Vec::new();
    let mut i: usize = 0;
    while i < stops.len()
        invariant
            i <= stops@.len(),
            r@ == stops@.subrange(0, i as int),
        decreases stops@.len() - i,
    {
        r.push(stops[i]);
        assert(r@ =~= stops@.subrange(0, i + 1));
        i += 1;
    }
    assert(stops@.subrange(0, i as int) =~= stops@);
    r
}

/// What is mentioned in one of two lists is mentioned in the two joined.
pub proof fn mentioned_in_joined(a: Seq<StatementView>, b: Seq<StatementView>, address: Address)
    ensures
        mentioned(a + b, address) <==> mentioned(a, address) || mentioned(b, address),
{
    let ab = a + b;
    if mentioned(a, address) {
        let i = choose|i: int| 0 <= i < a.len() && mentions(#[trigger] a[i], address);
        assert(ab[i] == a[i]);
    }
    if mentioned(b, address) {
        let i = choose|i: int| 0 <= i < b.len() && mentions(#[trigger] b[i], address);
        assert(ab[a.len() + i] == b[i]);
    }
    if mentioned(ab, address) {
        let i = choose|i: int| 0 <= i < ab.len() && mentions(#[trigger] ab[i], address);
        if i < a.len() {
            assert(ab[i] == a[i]);
        } else {
            assert(ab[i] == b[i - a.len()]);
        }
    }
}

/// What a single statement mentions is what the list of it mentions.
pub proof fn mentioned_in_one(s: StatementView, address: Address)
    ensures
        mentioned(seq![s], address) <==> mentions(s, address),
{
    let l = seq![s];
    if mentions(s, address) {
        assert(l[0] == s);
    }
    if mentioned(l, address) {
        let i = choose|i: int| 0 <= i < l.len() && mentions(#[trigger] l[i], address);
        assert(l[i] == s);
    }
}

/// A block of statements mentions what its statements mention.
pub proof fn mentioned_in_block(statements: Seq<StatementView>, address: Address)
    ensures
        mentions(StatementView::Block(statements), address) <==> mentioned(statements, address),
{
    let whole = StatementView::Block(statements);
    reveal_with_fuel(mentions, 2);
    if mentions(whole, address) {
        let i = choose|i: int| 0 <= i < statements.len() && mentions(#[trigger] statements[i], address);
        assert(mentions(statements[i], address));
    }
    if mentioned(statements, address) {
        let i = choose|i: int| 0 <= i < statements.len() && mentions(#[trigger] statements[i], address);
        assert(mentions(statements[i], address));
        assert(whole matches StatementView::Block(inner) && inner == statements);
        assert(mentions(whole, address) == (exists|k: int|
            0 <= k < statements.len() && mentions(#[trigger] statements[k], address)));
    }
}

/// Whether `built` carries on from `before`: no block loses its place, and
/// every block that gets one is mentioned in the statements.
pub open spec fn carries_on(f: FunctionView, before: Seq<bool>, built: Built) -> bool {
    &&& built.emitted.len() == before.len()
    &&& forall|x: int| 0 <= x < before.len() && before[x] ==> #[trigger] built.emitted[x]
    &&& forall|x: int|
        0 <= x < before.len() && #[trigger] built.emitted[x] && !before[x] ==> mentioned(
            built.statements,
            f.blocks[x].start,
        )
}

/// What follows carries on from what was placed before.
pub proof fn follow_carries_on(
    f: FunctionView,
    c: ConventionsView,
    address: Address,
    stops: Seq<usize>,
    emitted: Seq<bool>,
    fuel: nat,
)
    requires
        emitted.len() == f.blocks.len(),
    ensures
        carries_on(f, emitted, follow(f, c, address, stops, emitted, fuel)),
    decreases fuel, 2nat,
{
    let slot = slot_of(f.blocks, address, 0);
    if 0 <= slot < f.blocks.len() {
        region_carries_on(f, c, slot, stops, emitted, fuel);
    }
}

/// A region carries on from what was placed before, and gives its first
/// block a place unless the region ends there.
pub proof fn region_carries_on(
    f: FunctionView,
    c: ConventionsView,
    n: int,
    stops: Seq<usize>,
    emitted: Seq<bool>,
    fuel: nat,
)
    requires
        emitted.len() == f.blocks.len(),
    ensures
        carries_on(f, emitted, region(f, c, n, stops, emitted, fuel)),
        0 <= n < f.blocks.len() && !stops.contains(n as usize) && fuel > 0 ==> region(
            f,
            c,
            n,
            stops,
            emitted,
            fuel,
        ).emitted[n],
    decreases fuel, 1nat,
{
    let out = region(f, c, n, stops, emitted, fuel);
    if n < 0 || n >= f.blocks.len() {
    } else if stops.contains(n as usize) {
    } else if emitted[n] || fuel == 0 {
    } else if is_header(f, n) {
        let less = (fuel - 1) as nat;
        match loop_shape(f, n) {
            LoopShape::PreTest { condition, inside, exit } => {
                let marked = emitted.update(n, true);
                let inner_stops = stops.push(n as usize).push(exit);
                let body = region(f, c, inside as int, inner_stops, marked, less);
                region_carries_on(f, c, inside as int, inner_stops, marked, less);
                let rest = region(f, c, exit as int, stops, body.emitted, less);
                region_carries_on(f, c, exit as int, stops, body.emitted, less);
                let inside_loop = seq![basic(f.blocks[n])] + body.statements;
                let whole = StatementView::Loop {
                    condition: Some(condition),
                    body: Box::new(StatementView::Block(inside_loop)),
                };
                assert(out.statements == seq![whole] + rest.statements);
                assert forall|x: int|
                    0 <= x < emitted.len() && #[trigger] out.emitted[x] && !emitted[x] implies mentioned(
                    out.statements,
                    f.blocks[x].start,
                ) by {
                    let a = f.blocks[x].start;
                    mentioned_in_joined(seq![whole], rest.statements, a);
                    mentioned_in_one(whole, a);
                    mentioned_in_block(inside_loop, a);
                    mentioned_in_joined(seq![basic(f.blocks[n])], body.statements, a);
                    mentioned_in_one(basic(f.blocks[n]), a);
                    if x == n {
                    } else if body.emitted[x] {
                        assert(!marked[x]);
                    } else {
                        assert(rest.emitted[x]);
                    }
                }
                assert(marked[n]);
                assert(body.emitted[n]);
            },
            LoopShape::PostTest { condition, exit } => {
                let inner_stops = stops.push(n as usize).push(exit);
                let body = node(f, c, n, inner_stops, emitted, fuel);
                node_carries_on(f, c, n, inner_stops, emitted, fuel);
                let rest = region(f, c, exit as int, stops, body.emitted, less);
                region_carries_on(f, c, exit as int, stops, body.emitted, less);
                let whole = StatementView::Loop {
                    condition: Some(condition),
                    body: Box::new(StatementView::Block(body.statements)),
                };
                assert(out.statements == seq![whole] + rest.statements);
                assert forall|x: int|
                    0 <= x < emitted.len() && #[trigger] out.emitted[x] && !emitted[x] implies mentioned(
                    out.statements,
                    f.blocks[x].start,
                ) by {
                    let a = f.blocks[x].start;
                    mentioned_in_joined(seq![whole], rest.statements, a);
                    mentioned_in_one(whole, a);
                    mentioned_in_block(body.statements, a);
                    if body.emitted[x] {
                    } else {
                        assert(rest.emitted[x]);
                    }
                }
                assert(body.emitted[n]);
            },
            LoopShape::Endless => {
                let inner_stops = stops.push(n as usize);
                let body = node(f, c, n, inner_stops, emitted, fuel);
                node_carries_on(f, c, n, inner_stops, emitted, fuel);
                let whole = StatementView::Loop {
                    condition: None,
                    body: Box::new(StatementView::Block(body.statements)),
                };
                assert(out.statements == seq![whole]);
                assert forall|x: int|
                    0 <= x < emitted.len() && #[trigger] out.emitted[x] && !emitted[x] implies mentioned(
                    out.statements,
                    f.blocks[x].start,
                ) by {
                    let a = f.blocks[x].start;
                    mentioned_in_one(whole, a);
                    mentioned_in_block(body.statements, a);
                }
            },
        }
    } else {
        node_carries_on(f, c, n, stops, emitted, fuel);
    }
}

/// The statements of a block carry on from what was placed before, and
/// give the block its place.
pub proof fn node_carries_on(
    f: FunctionView,
    c: ConventionsView,
    n: int,
    stops: Seq<usize>,
    emitted: Seq<bool>,
    fuel: nat,
)
    requires
        emitted.len() == f.blocks.len(),
        0 <= n < f.blocks.len(),
        fuel > 0,
    ensures
        carries_on(f, emitted, node(f, c, n, stops, emitted, fuel)),
        node(f, c, n, stops, emitted, fuel).emitted[n],
    decreases fuel, 0nat,
{
    let out = node(f, c, n, stops, emitted, fuel);
    let b = f.blocks[n];
    let marked = emitted.update(n, true);
    let head = seq![basic(b)];
    let less = (fuel - 1) as nat;
    match b.next {
        NextBlock::Return => {
            let last = StatementView::Return { result: returned(b.registers, c) };
            assert(out.statements == head.push(last));
            assert(out.statements[0] == basic(b));
            assert(mentioned(out.statements, b.start));
        },
        NextBlock::Indirect => {
            let last = StatementView::Branch { target: DestinationKind::Unknown };
            assert(out.statements == head.push(last));
            assert(out.statements[0] == basic(b));
            assert(mentioned(out.statements, b.start));
        },
        NextBlock::Fallthrough(next) => {
            let rest = follow(f, c, next, stops, marked, less);
            follow_carries_on(f, c, next, stops, marked, less);
            assert forall|x: int|
                0 <= x < emitted.len() && #[trigger] out.emitted[x] && !emitted[x] implies mentioned(
                out.statements,
                f.blocks[x].start,
            ) by {
                let a = f.blocks[x].start;
                mentioned_in_joined(head, rest.statements, a);
                mentioned_in_one(basic(b), a);
            }
        },
        NextBlock::Branch { target } => {
            let rest = follow(f, c, target, stops, marked, less);
            follow_carries_on(f, c, target, stops, marked, less);
            assert forall|x: int|
                0 <= x < emitted.len() && #[trigger] out.emitted[x] && !emitted[x] implies mentioned(
                out.statements,
                f.blocks[x].start,
            ) by {
                let a = f.blocks[x].start;
                mentioned_in_joined(head, rest.statements, a);
                mentioned_in_one(basic(b), a);
            }
        },
        NextBlock::Call { destination, return_site } => {
            let rest = follow(f, c, return_site, stops, marked, less);
            follow_carries_on(f, c, return_site, stops, marked, less);
            let call = StatementView::Call {
                target: destination,
                arguments: arguments(b.registers, c.parameter_slots),
            };
            assert forall|x: int|
                0 <= x < emitted.len() && #[trigger] out.emitted[x] && !emitted[x] implies mentioned(
                out.statements,
                f.blocks[x].start,
            ) by {
                let a = f.blocks[x].start;
                mentioned_in_joined(head.push(call), rest.statements, a);
                assert(head.push(call)[0] == basic(b));
                if x == n {
                    assert(mentioned(head.push(call), a));
                }
            }
        },
        NextBlock::ConditionalBranch { condition, target, fallthrough } => {
            let t = slot_of(f.blocks, target, 0);
            let e = slot_of(f.blocks, fallthrough, 0);
            let count = f.blocks.len() as int;
            let merge = if 0 <= t < count && 0 <= e < count {
                merge_from(f, n, t, e, 0)
            } else {
                count
            };
            let inner = if 0 <= merge < count {
                stops.push(merge as usize)
            } else {
                stops
            };
            let yes = follow(f, c, target, inner, marked, less);
            follow_carries_on(f, c, target, inner, marked, less);
            let no = follow(f, c, fallthrough, inner, yes.emitted, less);
            follow_carries_on(f, c, fallthrough, inner, yes.emitted, less);
            let rest = if 0 <= merge < count {
                region(f, c, merge, stops, no.emitted, less)
            } else {
                Built { statements: Seq::empty(), emitted: no.emitted }
            };
            if 0 <= merge < count {
                region_carries_on(f, c, merge, stops, no.emitted, less);
            }
            let whole = StatementView::If {
                condition: simplified(condition),
                true_statement: Box::new(StatementView::Block(yes.statements)),
                else_statement: Box::new(StatementView::Block(no.statements)),
            };
            let branch = if yes.statements.len() == 0 && no.statements.len() == 0 {
                Seq::<StatementView>::empty()
            } else {
                seq![whole]
            };
            assert(out.statements == head + branch + rest.statements);
            assert forall|x: int|
                0 <= x < emitted.len() && #[trigger] out.emitted[x] && !emitted[x] implies mentioned(
                out.statements,
                f.blocks[x].start,
            ) by {
                let a = f.blocks[x].start;
                mentioned_in_joined(head + branch, rest.statements, a);
                mentioned_in_joined(head, branch, a);
                mentioned_in_one(basic(b), a);
                mentioned_in_one(whole, a);
                mentioned_in_block(yes.statements, a);
                mentioned_in_block(no.statements, a);
                if x == n {
                } else if yes.emitted[x] {
                    assert(!marked[x]);
                    assert(mentioned(yes.statements, a));
                    assert(yes.statements.len() > 0);
                } else if no.emitted[x] {
                    assert(mentioned(no.statements, a));
                    assert(no.statements.len() > 0);
                } else {
                    assert(rest.emitted[x]);
                }
            }
            assert(marked[n]);
            assert(yes.emitted[n]);
            assert(no.emitted[n]);
        },
    }
}

/// The sweep keeps what stands, carries on, and gives every block of the
/// function from the `i`-th on a place.
pub proof fn swept_carries_on(f: FunctionView, c: ConventionsView, i: int, built: Built)
    requires
        built.emitted.len() == f.blocks.len(),
        f.member.len() == f.blocks.len(),
        0 <= i,
    ensures
        carries_on(f, built.emitted, swept(f, c, i, built)) || swept(f, c, i, built) == built,
        swept(f, c, i, built).emitted.len() == built.emitted.len(),
        forall|x: int| 0 <= x < built.emitted.len() && built.emitted[x] ==> #[trigger] swept(f, c, i, built).emitted[x],
        forall|a: Address|
            mentioned(built.statements, a) ==> mentioned(swept(f, c, i, built).statements, a),
        forall|x: int|
            0 <= x < f.blocks.len() && #[trigger] swept(f, c, i, built).emitted[x]
                && !built.emitted[x] ==> mentioned(
                swept(f, c, i, built).statements,
                f.blocks[x].start,
            ),
        forall|x: int|
            i <= x < f.blocks.len() && f.member[x] ==> #[trigger] swept(f, c, i, built).emitted[x],
    decreases f.blocks.len() - i,
{
    if i >= f.blocks.len() {
    } else if f.member[i] && !built.emitted[i] {
        let fuel = f.blocks.len();
        let more = region(f, c, i, Seq::empty(), built.emitted, fuel);
        region_carries_on(f, c, i, Seq::empty(), built.emitted, fuel);
        let next = Built { statements: built.statements + more.statements, emitted: more.emitted };
        swept_carries_on(f, c, i + 1, next);
        let out = swept(f, c, i, built);
        assert(out == swept(f, c, i + 1, next));
        assert forall|a: Address| mentioned(built.statements, a) implies mentioned(
            out.statements,
            a,
        ) by {
            mentioned_in_joined(built.statements, more.statements, a);
        }
        assert forall|x: int|
            0 <= x < f.blocks.len() && #[trigger] out.emitted[x] && !built.emitted[x] implies mentioned(
            out.statements,
            f.blocks[x].start,
        ) by {
            let a = f.blocks[x].start;
            mentioned_in_joined(built.statements, more.statements, a);
            if more.emitted[x] {
                assert(mentioned(more.statements, a));
                assert(mentioned(next.statements, a));
            }
        }
        assert forall|x: int| i <= x < f.blocks.len() && f.member[x] implies #[trigger] out.emitted[x] by {
            if x == i {
                assert(more.emitted[i]);
            }
        }
    } else {
        swept_carries_on(f, c, i + 1, built);
        assert forall|x: int|
            i <= x < f.blocks.len() && f.member[x] implies #[trigger] swept(f, c, i, built).emitted[x] by {
            if x == i {
                assert(built.emitted[i]);
            }
        }
    }
}

/// Every block that can be reached from the entry of a function stands in
/// the structured form of the function.
pub proof fn structuring_covers(f: FunctionView, c: ConventionsView, x: int)
    requires
        crate::ir::high_function::graph_of(f.blocks, f.entry) == Some(f),
        0 <= x < f.blocks.len(),
        crate::ir::graph::reachable(f.successors, f.entry_slot as int, x),
    ensures
        mentions(structured(f, c), f.blocks[x].start),
{
    let count = f.blocks.len();
    let fuel = count;
    let none = Seq::new(count, |i: int| false);
    let first = region(f, c, f.entry_slot as int, Seq::empty(), none, fuel);
    region_carries_on(f, c, f.entry_slot as int, Seq::empty(), none, fuel);
    swept_carries_on(f, c, 0, first);
    let all = swept(f, c, 0, first);
    let made = crate::ir::high_function::graph_of(f.blocks, f.entry)->Some_0;
    assert(made == f);
    assert(made.member[x] == crate::ir::graph::reachable(
        crate::ir::high_function::linked(f.blocks),
        made.entry_slot as int,
        x,
    ));
    assert(f.member[x]);
    assert(all.emitted[x]);
    let a = f.blocks[x].start;
    if first.emitted[x] {
        assert(mentioned(first.statements, a));
    }
    assert(mentioned(all.statements, a));
    mentioned_in_block(all.statements, a);
}

/// The section after the registers that a block writes, from the `i`-th
/// entry on, have been defined in it, each under the name of its slot.
pub open spec fn block_locals(
    section: Seq<DefinitionView>,
    registers: Seq<(Storage, Expression)>,
    i: int,
) -> Seq<DefinitionView>
    decreases registers.len() - i,
{
    if i < 0 || i >= registers.len() {
        section
    } else {
        let slot = registers[i].0;
        let next = if slot.space == Space::Register {
            defined(
                section,
                DefinitionView {
                    symbol: VariableSymbol::Slot(slot),
                    name: slot_name(slot),
                    kind: VariableType::Unknown,
                },
            )
        } else {
            section
        };
        block_locals(next, registers, i + 1)
    }
}

/// The section after the registers that the blocks of the function write,
/// from the block `b` on, have been defined in it.
pub open spec fn function_locals(section: Seq<DefinitionView>, f: FunctionView, b: int) -> Seq<
    DefinitionView,
>
    decreases f.blocks.len() - b,
{
    if b < 0 || b >= f.blocks.len() || f.member.len() != f.blocks.len() {
        section
    } else if f.member[b] {
        function_locals(block_locals(section, f.blocks[b].registers, 0), f, b + 1)
    } else {
        function_locals(section, f, b + 1)
    }
}

/// The structured form of one function, with the names of its storage.
pub struct AbstractSyntaxTree {
    root: AstStatement,
    /// The names of the function's own storage: one section, which defines
    /// every register that the function writes.
    pub scope: Scope,
}

impl View for AbstractSyntaxTree {
    type V = StatementView;

    closed spec fn view(&self) -> StatementView {
        shape(self.root)
    }
}

fn no_block(n: usize) -> (v: Vec<bool>)
    ensures
        v@ == Seq::new(n as nat, |i: int| false),
{
    let mut v: Vec<bool> = Vec::new();
    while v.len() < n
        invariant
            v@.len() <= n,
            forall|i: int| 0 <= i < v@.len() ==> !v@[i],
        decreases n - v@.len(),
    {
        v.push(false);
    }
    assert(v@ =~= Seq::new(n as nat, |i: int| false));
    v
}

impl AbstractSyntaxTree {
    /// The names of the function's own storage, section by section.
    pub closed spec fn names(&self) -> Seq<Seq<DefinitionView>> {
        self.scope@
    }

    /// Structures the function and defines its registers, under the
    /// calling convention of the session.
    pub fn new(hf: &HighFunction, memory: &crate::memory::Memory) -> (tree: AbstractSyntaxTree)
        requires
            hf.wf(),
        ensures
            tree@ == structured(hf@, memory.conventions@),
            tree.names() == seq![function_locals(Seq::empty(), hf@, 0)],
    {
        AbstractSyntaxTree::with_conventions(hf, &memory.conventions)
    }

    /// Structures the function and defines its registers.
    pub fn with_conventions(hf: &HighFunction, conventions: &Conventions) -> (tree: AbstractSyntaxTree)
        requires
            hf.wf(),
        ensures
            tree@ == structured(hf@, conventions@),
            tree.names() == seq![function_locals(Seq::empty(), hf@, 0)],
    {
        let ghost f = hf@;
        let ghost c = conventions@;
        let engine = Structurer::new(hf, conventions);
        let n = hf.len();
        proof {
            crate::ir::high_function::slot_of_bounds(f.blocks, f.entry, 0);
        }
        let mut emitted = no_block(n);
        let stops: Vec<usize> = Vec::new();
        let mut statements = engine.region(hf.entry_slot(), &stops, &mut emitted, n);
        assert(stops@ =~= Seq::<usize>::empty());
        let mut i: usize = 0;
        while i < n
            invariant
                i <= n,
                n == f.blocks.len(),
                f == hf@,
                c == conventions@,
                hf.wf(),
                engine.wf(),
                engine.graph() == f,
                engine.convention() == c,
                stops@ == Seq::<usize>::empty(),
                emitted@.len() == n,
                swept(f, c, i as int, Built { statements: shapes(statements@), emitted: emitted@ })
                    == body_of(f, c),
            decreases n - i,
        {
            if hf.is_member(i) && !emitted[i] {
                let ghost before = statements@;
                let mut more = engine.region(i, &stops, &mut emitted, n);
                let ghost more_seq = more@;
                statements.append(&mut more);
                proof {
                    shapes_add(before, more_seq);
                }
            }
            i += 1;
        }
        proof {
            block_shape(statements);
        }
        let root = AstStatement::Function {
            entry: hf.entry(),
            body: Box::new(AstStatement::Block(statements)),
        };
        let mut scope = Scope::new();
        let mut b: usize = 0;
        while b < n
            invariant
                b <= n,
                n == f.blocks.len(),
                f == hf@,
                hf.wf(),
                scope@.len() == 1,
                function_locals(scope@[0], f, b as int) == function_locals(Seq::empty(), f, 0),
            decreases n - b,
        {
            if hf.is_member(b) {
                let block = hf.block(b);
                let ghost goal = block_locals(scope@[0], block.registers@, 0);
                let mut k: usize = 0;
                while k < block.registers.len()
                    invariant
                        k <= block.registers@.len(),
                        scope@.len() == 1,
                        block_locals(scope@[0], block.registers@, k as int) == goal,
                    decreases block.registers@.len() - k,
                {
                    let slot = block.registers[k].0;
                    if slot.space == Space::Register {
                        scope.define(
                            0,
                            VariableSymbol::Slot(slot),
                            prefixed_hex("var_", slot.id),
                            VariableType::Unknown,
                        );
                    }
                    k += 1;
                }
            }
            b += 1;
        }
        assert(scope@ =~= seq![function_locals(Seq::empty(), f, 0)]);
        AbstractSyntaxTree { root, scope }
    }

    /// Gives the definition of `symbol` the name `name`. Says whether the
    /// function defines the symbol. The statements stay as they are.
    pub fn rename_local(&mut self, symbol: &VariableSymbol, name: String) -> (found: bool)
        ensures
            final(self)@ == old(self)@,
            found == definition_of(old(self).names(), *symbol) is Some,
            final(self).names() == renamed_local(old(self).names(), *symbol, name@),
    {
        self.scope.rename(symbol, name)
    }

    /// The root of the tree: the function.
    pub fn root(&self) -> (r: &AstStatement)
        ensures
            shape(*r) == self@,
    {
        &self.root
    }

    /// The body of the function: a block of statements.
    pub fn entry(&self) -> (r: &AstStatement)
        ensures
            match self@ {
                StatementView::Function { entry, body } => shape(*r) == *body,
                _ => shape(*r) == self@,
            },
    {
        match &self.root {
            AstStatement::Function { entry, body } => body,
            _ => &self.root,
        }
    }
}

} // verus!
