//! Basic blocks: straight runs of lifted instructions with one way in and
//! one way out. The effect of a block is kept in symbolic form: what each
//! slot it writes holds at its end, and what it stores to memory, both in
//! terms of what the slots held at its start.
use crate::address::{Address, Interval};
use crate::ir::expression::{Expression, ExpressionOp};
pub use crate::ir::lift::DestinationKind;
use crate::ir::lift::{IrStore, LiftedInstruction, LiftedView, Operation};
use crate::ir::pcode::Storage;
use vstd::prelude::*;

verus! {

/// How a block ends.
#[derive(Debug, PartialEq, Eq)]
pub enum NextBlock {
    /// Control runs on into the block at this address.
    Fallthrough(Address),
    /// Control always goes to the target.
    Branch { target: Address },
    /// Control goes to the target if the condition holds, and runs on
    /// otherwise.
    ConditionalBranch { condition: Expression, target: Address, fallthrough: Address },
    /// The destination is called, and control comes back at the return site.
    Call { destination: DestinationKind, return_site: Address },
    /// Control goes back to the caller.
    Return,
    /// Control goes to an address that only the running program knows.
    Indirect,
}

impl NextBlock {
    /// The addresses at which control may go on inside the function, in the
    /// order in which they are followed: for a condition, the target first.
    pub open spec fn successors(self) -> Seq<Address> {
        match self {
            NextBlock::Fallthrough(next) => seq![next],
            NextBlock::Branch { target } => seq![target],
            NextBlock::ConditionalBranch { condition, target, fallthrough } => seq![
                target,
                fallthrough,
            ],
            NextBlock::Call { destination, return_site } => seq![return_site],
            NextBlock::Return => seq![],
            NextBlock::Indirect => seq![],
        }
    }

    /// The addresses at which control may go on inside the function.
    pub fn successor_addresses(&self) -> (r: Vec<Address>)
        ensures
            r@ == self.successors(),
    {
        let mut r: Vec<Address> = Vec::new();
        match self {
            NextBlock::Fallthrough(next) => {
                r.push(*next);
            },
            NextBlock::Branch { target } => {
                r.push(*target);
            },
            NextBlock::ConditionalBranch { condition, target, fallthrough } => {
                r.push(*target);
                r.push(*fallthrough);
            },
            NextBlock::Call { destination, return_site } => {
                r.push(*return_site);
            },
            NextBlock::Return => {},
            NextBlock::Indirect => {},
        }
        assert(r@ =~= self.successors());
        r
    }

    /// A copy of the ending.
    pub fn duplicate(&self) -> (n: NextBlock)
        ensures
            n == *self,
    {
        match self {
            NextBlock::Fallthrough(next) => NextBlock::Fallthrough(*next),
            NextBlock::Branch { target } => NextBlock::Branch { target: *target },
            NextBlock::ConditionalBranch { condition, target, fallthrough } => {
                NextBlock::ConditionalBranch {
                    condition: condition.duplicate(),
                    target: *target,
                    fallthrough: *fallthrough,
                }
            },
            NextBlock::Call { destination, return_site } => NextBlock::Call {
                destination: *destination,
                return_site: *return_site,
            },
            NextBlock::Return => NextBlock::Return,
            NextBlock::Indirect => NextBlock::Indirect,
        }
    }
}

/// A basic block.
#[derive(Debug, PartialEq, Eq)]
pub struct BasicBlock {
    /// The address of the first instruction.
    pub start: Address,
    /// The address behind the last instruction.
    pub end: Address,
    /// What each slot that the block writes holds at its end, in the order
    /// in which the slots are first written.
    pub registers: Vec<(Storage, Expression)>,
    /// What the block stores to memory, address and value, in order.
    pub stores: Vec<(Expression, Expression)>,
    /// How the block ends.
    pub next: NextBlock,
}

/// A basic block, with its lists as sequences.
pub struct BlockView {
    pub start: Address,
    pub end: Address,
    pub registers: Seq<(Storage, Expression)>,
    pub stores: Seq<(Expression, Expression)>,
    pub next: NextBlock,
}

impl View for BasicBlock {
    type V = BlockView;

    open spec fn view(&self) -> BlockView {
        BlockView {
            start: self.start,
            end: self.end,
            registers: self.registers@,
            stores: self.stores@,
            next: self.next,
        }
    }
}

/// The blocks of a list, each by its view.
pub open spec fn block_views(blocks: Seq<BasicBlock>) -> Seq<BlockView> {
    blocks.map_values(|b: BasicBlock| b@)
}

/// The position of the first entry of `registers`, from `from` on, that is
/// for `slot`; the length of `registers` if there is none.
pub open spec fn slot_at(registers: Seq<(Storage, Expression)>, slot: Storage, from: int) -> int
    decreases registers.len() - from,
{
    if from < 0 || from >= registers.len() {
        registers.len() as int
    } else if registers[from].0 == slot {
        from
    } else {
        slot_at(registers, slot, from + 1)
    }
}

/// `e` with each slot that the block has written replaced by what the slot
/// holds, folded again where that makes operands constant.
pub open spec fn substituted(e: Expression, registers: Seq<(Storage, Expression)>) -> Expression
    decreases e,
{
    match e.op {
        ExpressionOp::Register(slot) => {
            let i = slot_at(registers, slot, 0);
            if 0 <= i < registers.len() {
                registers[i].1
            } else {
                e
            }
        },
        ExpressionOp::Memory(address) => Expression {
            op: ExpressionOp::Memory(Box::new(substituted(*address, registers))),
            size: e.size,
            kind: e.kind,
        },
        ExpressionOp::Unary(op, operand) => Expression::unary_spec(
            op,
            substituted(*operand, registers),
        ),
        ExpressionOp::Binary(op, left, right) => Expression::binary_spec(
            op,
            substituted(*left, registers),
            substituted(*right, registers),
        ),
        _ => e,
    }
}

/// `registers` after `slot` has been given `value`: in place where the slot
/// had an entry, at the end where it had none.
pub open spec fn assigned(registers: Seq<(Storage, Expression)>, slot: Storage, value: Expression) -> Seq<
    (Storage, Expression),
> {
    let i = slot_at(registers, slot, 0);
    if 0 <= i < registers.len() {
        registers.update(i, (slot, value))
    } else {
        registers.push((slot, value))
    }
}

/// The symbolic state of a block: the slots written, and the stores made.
pub struct SymbolicState {
    pub registers: Seq<(Storage, Expression)>,
    pub stores: Seq<(Expression, Expression)>,
}

/// The state after one more operation. A transfer of control changes
/// nothing.
pub open spec fn state_after(state: SymbolicState, op: Operation) -> SymbolicState {
    match op {
        Operation::Assign { slot, value } => SymbolicState {
            registers: assigned(state.registers, slot, substituted(value, state.registers)),
            stores: state.stores,
        },
        Operation::Store { address, value } => SymbolicState {
            registers: state.registers,
            stores: state.stores.push(
                (substituted(address, state.registers), substituted(value, state.registers)),
            ),
        },
        _ => state,
    }
}

/// The state after the operations from the `i`-th on.
pub open spec fn state_after_all(state: SymbolicState, ops: Seq<Operation>, i: int) -> SymbolicState
    decreases ops.len() - i,
{
    if i < 0 || i >= ops.len() {
        state
    } else {
        state_after_all(state_after(state, ops[i]), ops, i + 1)
    }
}

/// The transfer of control that ends an instruction: its last operation,
/// if that is one.
pub open spec fn terminator(ops: Seq<Operation>) -> Option<Operation> {
    if ops.len() > 0 && ops.last().is_transfer() {
        Some(ops.last())
    } else {
        None
    }
}

/// How a block ends whose last instruction ends at `end` with `last`, given
/// what the slots hold then.
pub open spec fn ending(last: Option<Operation>, registers: Seq<(Storage, Expression)>, end: Address) -> NextBlock {
    match last {
        Some(Operation::Branch { target: DestinationKind::Concrete(target) }) => NextBlock::Branch {
            target,
        },
        Some(Operation::Branch { target: DestinationKind::Unknown }) => NextBlock::Indirect,
        Some(
            Operation::BranchIf { condition, target: DestinationKind::Concrete(target) },
        ) => NextBlock::ConditionalBranch {
            condition: substituted(condition, registers),
            target,
            fallthrough: end,
        },
        Some(Operation::BranchIf { condition, target: DestinationKind::Unknown }) => NextBlock::Indirect,
        Some(Operation::Call { destination }) => NextBlock::Call { destination, return_site: end },
        Some(Operation::Return) => NextBlock::Return,
        _ => NextBlock::Fallthrough(end),
    }
}

/// The address, where it is known, to which an operation may send control.
pub open spec fn transfer_target(op: Operation) -> Option<Address> {
    match op {
        Operation::Branch { target: DestinationKind::Concrete(a) } => Some(a),
        Operation::BranchIf { condition, target: DestinationKind::Concrete(a) } => Some(a),
        Operation::Call { destination: DestinationKind::Concrete(a) } => Some(a),
        _ => None,
    }
}

/// The address, where it is known, to which an instruction may send control.
pub open spec fn instruction_target(v: LiftedView) -> Option<Address> {
    match terminator(v.operations) {
        Some(op) => transfer_target(op),
        None => None,
    }
}

/// Whether some instruction of the store may send control to `address`.
pub open spec fn is_target(s: Seq<(Interval, LiftedView)>, address: Address) -> bool {
    exists|j: int| 0 <= j < s.len() && instruction_target((#[trigger] s[j]).1) == Some(address)
}

/// Whether a block starts at the `i`-th instruction: at the first one,
/// behind a gap, behind a transfer of control, at `entry`, and wherever an
/// instruction of the store may send control.
pub open spec fn is_leader(s: Seq<(Interval, LiftedView)>, entry: Address, i: int) -> bool {
    i == 0 || s[i - 1].0.end != s[i].0.start || terminator(s[i - 1].1.operations) is Some
        || s[i].0.start == entry || is_target(s, s[i].0.start)
}

/// An empty block at `start`.
pub open spec fn fresh(start: Address) -> BlockView {
    BlockView {
        start,
        end: start,
        registers: Seq::empty(),
        stores: Seq::empty(),
        next: NextBlock::Fallthrough(start),
    }
}

/// The block `b` with one more instruction.
pub open spec fn absorbed(b: BlockView, v: LiftedView) -> BlockView {
    let state = state_after_all(
        SymbolicState { registers: b.registers, stores: b.stores },
        v.operations,
        0,
    );
    BlockView {
        start: b.start,
        end: Address(v.next),
        registers: state.registers,
        stores: state.stores,
        next: ending(terminator(v.operations), state.registers, Address(v.next)),
    }
}

/// The blocks of the store from the `i`-th instruction on, behind the
/// blocks `done` and the block `open` that is still growing.
pub open spec fn assembled(
    s: Seq<(Interval, LiftedView)>,
    entry: Address,
    i: int,
    open: Option<BlockView>,
    done: Seq<BlockView>,
) -> Seq<BlockView>
    decreases s.len() - i,
{
    if i < 0 || i >= s.len() {
        match open {
            Some(b) => done.push(b),
            None => done,
        }
    } else {
        let split = is_leader(s, entry, i);
        let done1 = if split && open is Some {
            done.push(open->Some_0)
        } else {
            done
        };
        let base = if split || open is None {
            fresh(s[i].0.start)
        } else {
            open->Some_0
        };
        assembled(s, entry, i + 1, Some(absorbed(base, s[i].1)), done1)
    }
}

/// The basic blocks of the store, in address order, with a block starting
/// at `entry` where an instruction starts there.
pub open spec fn blocks_of(s: Seq<(Interval, LiftedView)>, entry: Address) -> Seq<BlockView> {
    assembled(s, entry, 0, None, Seq::empty())
}

/// The blocks start at rising addresses.
pub open spec fn rising_starts(blocks: Seq<BlockView>) -> bool {
    forall|a: int, b: int|
        0 <= a < b < blocks.len() ==> (#[trigger] blocks[a]).start.0 < (#[trigger] blocks[b]).start.0
}

proof fn assembled_rises(
    s: Seq<(Interval, LiftedView)>,
    entry: Address,
    i: int,
    open: Option<BlockView>,
    done: Seq<BlockView>,
)
    requires
        crate::memory::interval_map::ordered(s),
        0 <= i <= s.len(),
        rising_starts(done),
        open is Some ==> forall|k: int| 0 <= k < done.len() ==> (#[trigger] done[k]).start.0 < open->Some_0.start.0,
        i < s.len() ==> forall|k: int| 0 <= k < done.len() ==> (#[trigger] done[k]).start.0 < s[i].0.start.0,
        open is Some && i < s.len() ==> open->Some_0.start.0 < s[i].0.start.0,
    ensures
        rising_starts(assembled(s, entry, i, open, done)),
    decreases s.len() - i,
{
    if i >= s.len() {
        match open {
            Some(b) => {
                let all = done.push(b);
                assert forall|x: int, y: int| 0 <= x < y < all.len() implies (#[trigger] all[x]).start.0 < (
                #[trigger] all[y]).start.0 by {
                    if y < done.len() {
                        assert(all[x] == done[x]);
                        assert(all[y] == done[y]);
                    } else {
                        assert(all[x] == done[x]);
                    }
                }
            },
            None => {},
        }
    } else {
        let split = is_leader(s, entry, i);
        let done1 = if split && open is Some {
            done.push(open->Some_0)
        } else {
            done
        };
        let base = if split || open is None {
            fresh(s[i].0.start)
        } else {
            open->Some_0
        };
        let next = absorbed(base, s[i].1);
        assert(next.start == base.start);
        assert(!s[i].0.is_empty());
        if i + 1 < s.len() {
            assert(s[i].0.end.0 <= s[i + 1].0.start.0);
        }
        assert forall|x: int, y: int| 0 <= x < y < done1.len() implies (#[trigger] done1[x]).start.0 < (
        #[trigger] done1[y]).start.0 by {
            if y < done.len() {
                assert(done1[x] == done[x]);
                assert(done1[y] == done[y]);
            } else {
                assert(done1[x] == done[x]);
            }
        }
        assert forall|k: int| 0 <= k < done1.len() implies (#[trigger] done1[k]).start.0
            < next.start.0 by {
            if k < done.len() {
                assert(done1[k] == done[k]);
            }
        }
        assembled_rises(s, entry, i + 1, Some(next), done1);
    }
}

/// The basic blocks of a store start at rising addresses, so no two start
/// at the same one.
pub proof fn blocks_start_apart(s: Seq<(Interval, LiftedView)>, entry: Address)
    requires
        crate::memory::interval_map::ordered(s),
    ensures
        rising_starts(blocks_of(s, entry)),
{
    assembled_rises(s, entry, 0, None, Seq::empty());
}

/// The position of the entry of `registers` that is for `slot`.
pub fn find_slot(registers: &Vec<(Storage, Expression)>, slot: Storage) -> (r: Option<usize>)
    ensures
        match r {
            Some(i) => i < registers@.len() && i == slot_at(registers@, slot, 0),
            None => slot_at(registers@, slot, 0) == registers@.len(),
        },
{
    let mut i: usize = 0;
    while i < registers.len()
        invariant
            i <= registers@.len(),
            slot_at(registers@, slot, 0) == slot_at(registers@, slot, i as int),
        decreases registers@.len() - i,
    {
        if registers[i].0 == slot {
            return Some(i);
        }
        i += 1;
    }
    None
}

/// `e` with each written slot replaced by what it holds.
pub fn substitute(e: &Expression, registers: &Vec<(Storage, Expression)>) -> (r: Expression)
    ensures
        r == substituted(*e, registers@),
    decreases *e,
{
    match &e.op {
        ExpressionOp::Register(slot) => match find_slot(registers, *slot) {
            Some(i) => registers[i].1.duplicate(),
            None => e.duplicate(),
        },
        ExpressionOp::Memory(address) => Expression {
            op: ExpressionOp::Memory(Box::new(substitute(address, registers))),
            size: e.size,
            kind: e.kind,
        },
        ExpressionOp::Unary(op, operand) => Expression::unary(*op, substitute(operand, registers)),
        ExpressionOp::Binary(op, left, right) => Expression::binary(
            *op,
            substitute(left, registers),
            substitute(right, registers),
        ),
        _ => e.duplicate(),
    }
}

fn assign(registers: &mut Vec<(Storage, Expression)>, slot: Storage, value: Expression)
    ensures
        final(registers)@ == assigned(old(registers)@, slot, value),
{
    match find_slot(registers, slot) {
        Some(i) => {
            let _ = registers.remove(i);
            registers.insert(i, (slot, value));
            assert(registers@ =~= old(registers)@.update(i as int, (slot, value)));
        },
        None => {
            registers.push((slot, value));
        },
    }
}

fn apply(registers: &mut Vec<(Storage, Expression)>, stores: &mut Vec<(Expression, Expression)>, op: &Operation)
    ensures
        (SymbolicState { registers: final(registers)@, stores: final(stores)@ }) == state_after(
            SymbolicState { registers: old(registers)@, stores: old(stores)@ },
            *op,
        ),
{
    match op {
        Operation::Assign { slot, value } => {
            let v = substitute(value, registers);
            assign(registers, *slot, v);
        },
        Operation::Store { address, value } => {
            let a = substitute(address, registers);
            let v = substitute(value, registers);
            stores.push((a, v));
        },
        _ => {},
    }
}

fn end_of(ops: &Vec<Operation>, registers: &Vec<(Storage, Expression)>, end: Address) -> (n: NextBlock)
    ensures
        n == ending(terminator(ops@), registers@, end),
{
    if ops.len() == 0 {
        return NextBlock::Fallthrough(end);
    }
    match &ops[ops.len() - 1] {
        Operation::Branch { target } => match target {
            DestinationKind::Concrete(t) => NextBlock::Branch { target: *t },
            DestinationKind::Unknown => NextBlock::Indirect,
        },
        Operation::BranchIf { condition, target } => match target {
            DestinationKind::Concrete(t) => NextBlock::ConditionalBranch {
                condition: substitute(condition, registers),
                target: *t,
                fallthrough: end,
            },
            DestinationKind::Unknown => NextBlock::Indirect,
        },
        Operation::Call { destination } => NextBlock::Call {
            destination: *destination,
            return_site: end,
        },
        Operation::Return => NextBlock::Return,
        _ => NextBlock::Fallthrough(end),
    }
}

fn absorb(block: BasicBlock, instruction: &LiftedInstruction) -> (r: BasicBlock)
    ensures
        r@ == absorbed(block@, instruction@),
{
    let mut registers = block.registers;
    let mut stores = block.stores;
    let ghost first = SymbolicState { registers: registers@, stores: stores@ };
    let mut i: usize = 0;
    while i < instruction.operations.len()
        invariant
            i <= instruction.operations@.len(),
            state_after_all(
                SymbolicState { registers: registers@, stores: stores@ },
                instruction.operations@,
                i as int,
            ) == state_after_all(first, instruction.operations@, 0),
        decreases instruction.operations@.len() - i,
    {
        apply(&mut registers, &mut stores, &instruction.operations[i]);
        i += 1;
    }
    let end = Address(instruction.next);
    let next = end_of(&instruction.operations, &registers, end);
    BasicBlock { start: block.start, end, registers, stores, next }
}

fn target_of(instruction: &LiftedInstruction) -> (r: Option<Address>)
    ensures
        r == instruction_target(instruction@),
{
    if instruction.operations.len() == 0 {
        return None;
    }
    match &instruction.operations[instruction.operations.len() - 1] {
        Operation::Branch { target } => match target {
            DestinationKind::Concrete(a) => Some(*a),
            DestinationKind::Unknown => None,
        },
        Operation::BranchIf { condition, target } => match target {
            DestinationKind::Concrete(a) => Some(*a),
            DestinationKind::Unknown => None,
        },
        Operation::Call { destination } => match destination {
            DestinationKind::Concrete(a) => Some(*a),
            DestinationKind::Unknown => None,
        },
        _ => None,
    }
}

fn ends_with_transfer(instruction: &LiftedInstruction) -> (b: bool)
    ensures
        b == terminator(instruction@.operations) is Some,
{
    if instruction.operations.len() == 0 {
        false
    } else {
        instruction.operations[instruction.operations.len() - 1].transfers()
    }
}

/// The addresses to which instructions of the store may send control.
pub fn collect_targets(store: &IrStore) -> (targets: Vec<Address>)
    ensures
        forall|a: Address| targets@.contains(a) <==> is_target(store@, a),
{
    let mut targets: Vec<Address> = Vec::new();
    let mut j: usize = 0;
    while j < store.len()
        invariant
            j <= store@.len(),
            forall|a: Address|
                targets@.contains(a) <==> exists|k: int|
                    0 <= k < j && instruction_target((#[trigger] store@[k]).1) == Some(a),
        decreases store@.len() - j,
    {
        let ghost before = targets@;
        match target_of(store.instruction(j)) {
            Some(a) => {
                targets.push(a);
                proof {
                    assert forall|b: Address| targets@.contains(b) <==> exists|k: int|
                        0 <= k < j + 1 && instruction_target((#[trigger] store@[k]).1) == Some(
                            b,
                        ) by {
                        if targets@.contains(b) {
                            let i = choose|i: int| 0 <= i < targets@.len() && targets@[i] == b;
                            if i < before.len() {
                                assert(before[i] == b);
                                assert(before.contains(b));
                            } else {
                                assert(instruction_target(store@[j as int].1) == Some(b));
                            }
                        }
                        if exists|k: int|
                            0 <= k < j + 1 && instruction_target((#[trigger] store@[k]).1) == Some(
                                b,
                            ) {
                            let k = choose|k: int|
                                0 <= k < j + 1 && instruction_target((#[trigger] store@[k]).1)
                                    == Some(b);
                            if k < j {
                                assert(before.contains(b));
                                let i = choose|i: int| 0 <= i < before.len() && before[i] == b;
                                assert(targets@[i] == b);
                            } else {
                                assert(targets@[before.len() as int] == b);
                            }
                        }
                    }
                }
            },
            None => {
                proof {
                    assert forall|b: Address| targets@.contains(b) <==> exists|k: int|
                        0 <= k < j + 1 && instruction_target((#[trigger] store@[k]).1) == Some(
                            b,
                        ) by {
                        if exists|k: int|
                            0 <= k < j + 1 && instruction_target((#[trigger] store@[k]).1) == Some(
                                b,
                            ) {
                            let k = choose|k: int|
                                0 <= k < j + 1 && instruction_target((#[trigger] store@[k]).1)
                                    == Some(b);
                            assert(k < j);
                        }
                    }
                }
            },
        }
        j += 1;
    }
    targets
}

fn holds(targets: &Vec<Address>, a: Address) -> (b: bool)
    ensures
        b == targets@.contains(a),
{
    let mut i: usize = 0;
    while i < targets.len()
        invariant
            i <= targets@.len(),
            forall|k: int| 0 <= k < i ==> targets@[k] != a,
        decreases targets@.len() - i,
    {
        if targets[i] == a {
            return true;
        }
        i += 1;
    }
    false
}

/// Partitions the store into basic blocks.
pub fn assemble(store: &IrStore, entry: Address) -> (blocks: Vec<BasicBlock>)
    requires
        store.wf(),
    ensures
        block_views(blocks@) == blocks_of(store@, entry),
{
    let targets = collect_targets(store);
    let mut done: Vec<BasicBlock> = Vec::new();
    let mut open: Option<BasicBlock> = None;
    let mut i: usize = 0;
    proof {
        store.wf_means();
        assert(block_views(done@) =~= Seq::<BlockView>::empty());
    }
    while i < store.len()
        invariant
            i <= store@.len(),
            crate::ir::lift::placed(store@),
            forall|a: Address| targets@.contains(a) <==> is_target(store@, a),
            assembled(
                store@,
                entry,
                i as int,
                match open {
                    Some(b) => Some(b@),
                    None => None,
                },
                block_views(done@),
            ) == blocks_of(store@, entry),
        decreases store@.len() - i,
    {
        let instruction = store.instruction(i);
        let start = Address(instruction.address);
        assert(store@[i as int].0.start == start);
        let split = if i == 0 {
            true
        } else {
            let previous = store.instruction(i - 1);
            assert(store@[i - 1].0.end == Address(previous.next));
            previous.next != instruction.address || ends_with_transfer(previous) || start == entry
                || holds(&targets, start)
        };
        assert(split == is_leader(store@, entry, i as int));
        let base = match open {
            Some(b) => {
                if split {
                    let ghost before = block_views(done@);
                    done.push(b);
                    assert(block_views(done@) =~= before.push(b@));
                    BasicBlock {
                        start,
                        end: start,
                        registers: Vec::new(),
                        stores: Vec::new(),
                        next: NextBlock::Fallthrough(start),
                    }
                } else {
                    b
                }
            },
            None => BasicBlock {
                start,
                end: start,
                registers: Vec::new(),
                stores: Vec::new(),
                next: NextBlock::Fallthrough(start),
            },
        };
        open = Some(absorb(base, instruction));
        i += 1;
    }
    match open {
        Some(b) => {
            let ghost before = block_views(done@);
            done.push(b);
            assert(block_views(done@) =~= before.push(b@));
        },
        None => {},
    }
    done
}

} // verus!
