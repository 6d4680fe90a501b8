//! The lifter: what the semantics engine reports of an instruction becomes
//! operations over the shared expression form, and the operations of all
//! instructions lifted so far are kept in one store, by address.
use crate::address::{Address, Interval};
use crate::ir::expression::{BinaryOp, Expression, UnaryOp};
use crate::ir::pcode::{DecodedInstruction, Opcode, Operand, RawOperation, Storage};
use crate::ir::type_system::InstructionSize;
use crate::memory::interval_map::{
    ending_by, ending_by_bounds, intersecting_run, ordered, overwritten, overwritten_is_ordered,
    same_ranges, same_ranges_agree, starting_below, IntervalMap,
};
use vstd::prelude::*;

verus! {

/// Where control goes.
#[derive(Clone, Copy, Debug, PartialEq, Eq, Structural, Hash)]
pub enum DestinationKind {
    /// To an address that is known.
    Concrete(Address),
    /// To an address that only the running program knows.
    Unknown,
}

/// One operation of a lifted instruction.
#[derive(Debug, PartialEq, Eq)]
pub enum Operation {
    /// The slot gets the value.
    Assign { slot: Storage, value: Expression },
    /// The memory at the address gets the value.
    Store { address: Expression, value: Expression },
    /// Control goes to the target.
    Branch { target: DestinationKind },
    /// Control goes to the target if the condition holds.
    BranchIf { condition: Expression, target: DestinationKind },
    /// The destination is called; control comes back behind the instruction.
    Call { destination: DestinationKind },
    /// Control goes back to the caller.
    Return,
}

impl Operation {
    /// Whether the operation may send control elsewhere.
    pub open spec fn is_transfer(self) -> bool {
        !(self is Assign) && !(self is Store)
    }

    pub fn transfers(&self) -> (b: bool)
        ensures
            b == self.is_transfer(),
    {
        match self {
            Operation::Assign { .. } => false,
            Operation::Store { .. } => false,
            _ => true,
        }
    }

    /// A copy of the operation.
    pub fn duplicate(&self) -> (o: Operation)
        ensures
            o == *self,
    {
        match self {
            Operation::Assign { slot, value } => Operation::Assign {
                slot: *slot,
                value: value.duplicate(),
            },
            Operation::Store { address, value } => Operation::Store {
                address: address.duplicate(),
                value: value.duplicate(),
            },
            Operation::Branch { target } => Operation::Branch { target: *target },
            Operation::BranchIf { condition, target } => Operation::BranchIf {
                condition: condition.duplicate(),
                target: *target,
            },
            Operation::Call { destination } => Operation::Call { destination: *destination },
            Operation::Return => Operation::Return,
        }
    }
}

/// The expression that an input stands for: the constant, the content of
/// the slot, or an unknown value where there is no input.
pub open spec fn operand_expression(operand: Operand) -> Expression {
    match operand {
        Operand::Constant { value, size } => Expression::value_spec(
            value,
            InstructionSize::of_bytes(size as u64),
        ),
        Operand::Slot(slot) => Expression::register_spec(slot),
        Operand::Absent => Expression::unknown_spec(InstructionSize::U64),
    }
}

/// The destination that an input names: the address where it is a
/// constant, unknown otherwise.
pub open spec fn operand_destination(operand: Operand) -> DestinationKind {
    match operand {
        Operand::Constant { value, size } => DestinationKind::Concrete(Address(value)),
        _ => DestinationKind::Unknown,
    }
}

/// The operation on two operands that an opcode stands for.
pub open spec fn binary_of(opcode: Opcode) -> Option<BinaryOp> {
    match opcode {
        Opcode::IntAdd => Some(BinaryOp::Add),
        Opcode::IntSub => Some(BinaryOp::Sub),
        Opcode::IntMul => Some(BinaryOp::Mul),
        Opcode::IntAnd => Some(BinaryOp::And),
        Opcode::IntOr => Some(BinaryOp::Or),
        Opcode::IntXor => Some(BinaryOp::Xor),
        Opcode::IntLeft => Some(BinaryOp::ShiftLeft),
        Opcode::IntRight => Some(BinaryOp::ShiftRight),
        Opcode::IntEqual => Some(BinaryOp::Equal),
        Opcode::IntNotEqual => Some(BinaryOp::NotEqual),
        Opcode::IntLess => Some(BinaryOp::Less),
        Opcode::IntLessEqual => Some(BinaryOp::LessEqual),
        Opcode::IntSLess => Some(BinaryOp::SignedLess),
        Opcode::IntSLessEqual => Some(BinaryOp::SignedLessEqual),
        Opcode::BoolAnd => Some(BinaryOp::LogicalAnd),
        Opcode::BoolOr => Some(BinaryOp::LogicalOr),
        _ => None,
    }
}

/// The operation on one operand that an opcode stands for.
pub open spec fn unary_of(opcode: Opcode) -> Option<UnaryOp> {
    match opcode {
        Opcode::IntNegate => Some(UnaryOp::Negate),
        Opcode::IntNot => Some(UnaryOp::Not),
        Opcode::BoolNegate => Some(UnaryOp::LogicalNot),
        _ => None,
    }
}

/// The value that an operation with an output computes.
pub open spec fn computed_value(raw: RawOperation, output: Storage) -> Expression {
    match raw.opcode {
        Opcode::Copy => operand_expression(raw.first),
        Opcode::Load => Expression::memory_spec(
            operand_expression(raw.first),
            InstructionSize::of_bytes(output.size as u64),
        ),
        _ => match binary_of(raw.opcode) {
            Some(op) => Expression::binary_spec(
                op,
                operand_expression(raw.first),
                operand_expression(raw.second),
            ),
            None => match unary_of(raw.opcode) {
                Some(op) => Expression::unary_spec(op, operand_expression(raw.first)),
                None => Expression::unknown_spec(InstructionSize::of_bytes(output.size as u64)),
            },
        },
    }
}

/// The lifted form of one reported operation. Transfers of control and
/// stores are lifted whatever their output; any other operation assigns to
/// its output and is dropped where it has none.
pub open spec fn lifted_operation(raw: RawOperation) -> Option<Operation> {
    match raw.opcode {
        Opcode::Store => Some(
            Operation::Store {
                address: operand_expression(raw.first),
                value: operand_expression(raw.second),
            },
        ),
        Opcode::Branch => Some(Operation::Branch { target: operand_destination(raw.first) }),
        Opcode::CBranch => Some(
            Operation::BranchIf {
                condition: operand_expression(raw.second),
                target: operand_destination(raw.first),
            },
        ),
        Opcode::BranchInd => Some(Operation::Branch { target: DestinationKind::Unknown }),
        Opcode::Call => Some(Operation::Call { destination: operand_destination(raw.first) }),
        Opcode::CallInd => Some(Operation::Call { destination: DestinationKind::Unknown }),
        Opcode::Return => Some(Operation::Return),
        _ => match raw.output {
            Some(output) => Some(
                Operation::Assign { slot: output, value: computed_value(raw, output) },
            ),
            None => None,
        },
    }
}

/// The lifted form of the operations of one instruction, in order.
pub open spec fn lifted_operations(ops: Seq<RawOperation>) -> Seq<Operation>
    decreases ops.len(),
{
    if ops.len() == 0 {
        Seq::empty()
    } else {
        match lifted_operation(ops.last()) {
            Some(o) => lifted_operations(ops.drop_last()).push(o),
            None => lifted_operations(ops.drop_last()),
        }
    }
}

pub fn lift_operand(operand: Operand) -> (e: Expression)
    ensures
        e == operand_expression(operand),
{
    match operand {
        Operand::Constant { value, size } => Expression::value(
            value,
            InstructionSize::from_bytes(size as u64),
        ),
        Operand::Slot(slot) => Expression::register(slot),
        Operand::Absent => Expression::unknown(InstructionSize::U64),
    }
}

pub fn lift_destination(operand: Operand) -> (d: DestinationKind)
    ensures
        d == operand_destination(operand),
{
    match operand {
        Operand::Constant { value, size } => DestinationKind::Concrete(Address(value)),
        _ => DestinationKind::Unknown,
    }
}

fn binary_opcode(opcode: Opcode) -> (r: Option<BinaryOp>)
    ensures
        r == binary_of(opcode),
{
    match opcode {
        Opcode::IntAdd => Some(BinaryOp::Add),
        Opcode::IntSub => Some(BinaryOp::Sub),
        Opcode::IntMul => Some(BinaryOp::Mul),
        Opcode::IntAnd => Some(BinaryOp::And),
        Opcode::IntOr => Some(BinaryOp::Or),
        Opcode::IntXor => Some(BinaryOp::Xor),
        Opcode::IntLeft => Some(BinaryOp::ShiftLeft),
        Opcode::IntRight => Some(BinaryOp::ShiftRight),
        Opcode::IntEqual => Some(BinaryOp::Equal),
        Opcode::IntNotEqual => Some(BinaryOp::NotEqual),
        Opcode::IntLess => Some(BinaryOp::Less),
        Opcode::IntLessEqual => Some(BinaryOp::LessEqual),
        Opcode::IntSLess => Some(BinaryOp::SignedLess),
        Opcode::IntSLessEqual => Some(BinaryOp::SignedLessEqual),
        Opcode::BoolAnd => Some(BinaryOp::LogicalAnd),
        Opcode::BoolOr => Some(BinaryOp::LogicalOr),
        _ => None,
    }
}

fn unary_opcode(opcode: Opcode) -> (r: Option<UnaryOp>)
    ensures
        r == unary_of(opcode),
{
    match opcode {
        Opcode::IntNegate => Some(UnaryOp::Negate),
        Opcode::IntNot => Some(UnaryOp::Not),
        Opcode::BoolNegate => Some(UnaryOp::LogicalNot),
        _ => None,
    }
}

fn compute_value(raw: &RawOperation, output: Storage) -> (e: Expression)
    ensures
        e == computed_value(*raw, output),
{
    match raw.opcode {
        Opcode::Copy => lift_operand(raw.first),
        Opcode::Load => Expression::memory(
            lift_operand(raw.first),
            InstructionSize::from_bytes(output.size as u64),
        ),
        _ => match binary_opcode(raw.opcode) {
            Some(op) => Expression::binary(op, lift_operand(raw.first), lift_operand(raw.second)),
            None => match unary_opcode(raw.opcode) {
                Some(op) => Expression::unary(op, lift_operand(raw.first)),
                None => Expression::unknown(InstructionSize::from_bytes(output.size as u64)),
            },
        },
    }
}

/// Lifts one reported operation.
pub fn lift_operation(raw: &RawOperation) -> (r: Option<Operation>)
    ensures
        r == lifted_operation(*raw),
{
    match raw.opcode {
        Opcode::Store => Some(
            Operation::Store { address: lift_operand(raw.first), value: lift_operand(raw.second) },
        ),
        Opcode::Branch => Some(Operation::Branch { target: lift_destination(raw.first) }),
        Opcode::CBranch => Some(
            Operation::BranchIf {
                condition: lift_operand(raw.second),
                target: lift_destination(raw.first),
            },
        ),
        Opcode::BranchInd => Some(Operation::Branch { target: DestinationKind::Unknown }),
        Opcode::Call => Some(Operation::Call { destination: lift_destination(raw.first) }),
        Opcode::CallInd => Some(Operation::Call { destination: DestinationKind::Unknown }),
        Opcode::Return => Some(Operation::Return),
        _ => match raw.output {
            Some(output) => Some(
                Operation::Assign { slot: output, value: compute_value(raw, output) },
            ),
            None => None,
        },
    }
}

/// Lifts the operations of one instruction.
pub fn lift_operations(ops: &Vec<RawOperation>) -> (r: Vec<Operation>)
    ensures
        r@ == lifted_operations(ops@),
{
    let mut r: Vec<Operation> = Vec::new();
    let mut i: usize = 0;
    while i < ops.len()
        invariant
            i <= ops@.len(),
            r@ == lifted_operations(ops@.subrange(0, i as int)),
        decreases ops@.len() - i,
    {
        let ghost upto = ops@.subrange(0, i + 1);
        assert(upto.drop_last() =~= ops@.subrange(0, i as int));
        assert(upto.last() == ops@[i as int]);
        match lift_operation(&ops[i]) {
            Some(o) => {
                r.push(o);
            },
            None => {},
        }
        i += 1;
    }
    assert(ops@.subrange(0, i as int) =~= ops@);
    r
}

/// A lifted instruction.
#[derive(Debug, PartialEq, Eq)]
pub struct LiftedInstruction {
    pub address: u64,
    pub next: u64,
    pub operations: Vec<Operation>,
}

/// A lifted instruction, with its operations as a sequence.
pub struct LiftedView {
    pub address: u64,
    pub next: u64,
    pub operations: Seq<Operation>,
}

impl View for LiftedInstruction {
    type V = LiftedView;

    open spec fn view(&self) -> LiftedView {
        LiftedView { address: self.address, next: self.next, operations: self.operations@ }
    }
}

/// The addresses that an instruction occupies.
pub open spec fn instruction_range(d: DecodedInstruction) -> Interval {
    Interval { start: Address(d.inst_start), end: Address(d.inst_next) }
}

/// The lifted form of a decoded instruction.
pub open spec fn lifted_view(d: DecodedInstruction) -> LiftedView {
    LiftedView { address: d.inst_start, next: d.inst_next, operations: lifted_operations(d.ops@) }
}

/// The store after `d` has been lifted into it: what was recorded for the
/// addresses of `d` gives way to `d`, and everything else stays. An
/// instruction without a length changes nothing.
pub open spec fn lifted_into(s: Seq<(Interval, LiftedView)>, d: DecodedInstruction) -> Seq<
    (Interval, LiftedView),
> {
    if instruction_range(d).is_empty() {
        s
    } else {
        overwritten(s, instruction_range(d), lifted_view(d))
    }
}

/// The store after the instructions from the `i`-th on have been lifted
/// into it, one after the other.
pub open spec fn all_lifted(s: Seq<(Interval, LiftedView)>, ds: Seq<DecodedInstruction>, i: int) -> Seq<
    (Interval, LiftedView),
>
    decreases ds.len() - i,
{
    if i < 0 || i >= ds.len() {
        s
    } else {
        all_lifted(lifted_into(s, ds[i]), ds, i + 1)
    }
}

/// Lifting keeps the store in address order, and keeps whatever was
/// recorded for addresses that none of the new instructions occupies.
pub proof fn lifting_keeps_the_rest(
    s: Seq<(Interval, LiftedView)>,
    ds: Seq<DecodedInstruction>,
    i: int,
    e: (Interval, LiftedView),
)
    requires
        ordered(s),
        0 <= i,
    ensures
        ordered(all_lifted(s, ds, i)),
        s.contains(e) && (forall|j: int|
            i <= j < ds.len() ==> !e.0.intersects(#[trigger] instruction_range(ds[j])))
            ==> all_lifted(s, ds, i).contains(e),
    decreases ds.len() - i,
{
    if i < ds.len() {
        let d = ds[i];
        let t = lifted_into(s, d);
        if !instruction_range(d).is_empty() {
            overwritten_is_ordered(s, instruction_range(d), lifted_view(d));
        }
        lifting_keeps_the_rest(t, ds, i + 1, e);
        if s.contains(e) && (forall|j: int|
            i <= j < ds.len() ==> !e.0.intersects(#[trigger] instruction_range(ds[j]))) {
            let k = choose|k: int| 0 <= k < s.len() && s[k] == e;
            assert(!e.0.intersects(instruction_range(ds[i])));
            assert(t.contains(e));
        }
    }
}

/// After a run of instructions that share no address has been lifted, the
/// store holds each of them.
pub proof fn lifted_run_is_stored(
    s: Seq<(Interval, LiftedView)>,
    ds: Seq<DecodedInstruction>,
    i: int,
    k: int,
)
    requires
        ordered(s),
        0 <= i <= k < ds.len(),
        !instruction_range(ds[k]).is_empty(),
        forall|j: int|
            k < j < ds.len() ==> !instruction_range(ds[k]).intersects(
                #[trigger] instruction_range(ds[j]),
            ),
    ensures
        all_lifted(s, ds, i).contains((instruction_range(ds[k]), lifted_view(ds[k]))),
    decreases k - i,
{
    let t = lifted_into(s, ds[i]);
    if !instruction_range(ds[i]).is_empty() {
        overwritten_is_ordered(s, instruction_range(ds[i]), lifted_view(ds[i]));
    }
    if i == k {
        lifting_keeps_the_rest(t, ds, k + 1, (instruction_range(ds[k]), lifted_view(ds[k])));
    } else {
        lifted_run_is_stored(t, ds, i + 1, k);
    }
}

/// The stored instructions, each by its view.
pub open spec fn lifted_views(s: Seq<(Interval, LiftedInstruction)>) -> Seq<(Interval, LiftedView)> {
    s.map_values(|e: (Interval, LiftedInstruction)| (e.0, e.1@))
}

/// Each instruction is stored under the addresses it occupies.
pub open spec fn placed(s: Seq<(Interval, LiftedView)>) -> bool {
    forall|i: int|
        0 <= i < s.len() ==> (#[trigger] s[i]).0 == (Interval {
            start: Address(s[i].1.address),
            end: Address(s[i].1.next),
        })
}

/// The store of lifted instructions, by address.
pub struct IrStore {
    instructions: IntervalMap<LiftedInstruction>,
}

impl View for IrStore {
    type V = Seq<(Interval, LiftedView)>;

    closed spec fn view(&self) -> Seq<(Interval, LiftedView)> {
        lifted_views(self.instructions@)
    }
}

impl IrStore {
    /// The instructions are in address order, none overlaps another, and
    /// each is stored under the addresses it occupies.
    pub closed spec fn wf(&self) -> bool {
        &&& self.instructions.wf()
        &&& ordered(self@)
        &&& placed(self@)
    }

    pub proof fn wf_means(&self)
        requires
            self.wf(),
        ensures
            ordered(self@),
            placed(self@),
    {
    }

    pub fn new() -> (s: IrStore)
        ensures
            s.wf(),
            s@ == Seq::<(Interval, LiftedView)>::empty(),
    {
        let s = IrStore { instructions: IntervalMap::new() };
        assert(s@ =~= Seq::<(Interval, LiftedView)>::empty());
        s
    }

    /// The number of instructions.
    pub fn len(&self) -> (n: usize)
        ensures
            n == self@.len(),
    {
        self.instructions.len()
    }

    /// The `i`-th instruction, in address order.
    pub fn instruction(&self, i: usize) -> (r: &LiftedInstruction)
        requires
            i < self@.len(),
        ensures
            r@ == self@[i as int].1,
    {
        &self.instructions.entry(i).1
    }

    /// The position of the instruction that starts at `address`.
    pub fn position(&self, address: Address) -> (r: Option<usize>)
        requires
            self.wf(),
        ensures
            match r {
                Some(i) => i < self@.len() && self@[i as int].1.address == address.0,
                None => forall|i: int| 0 <= i < self@.len() ==> (#[trigger] self@[i]).1.address != address.0,
            },
    {
        match self.instructions.find(address) {
            Some(i) => {
                assert(self@[i as int] == (self.instructions@[i as int].0, self.instructions@[i as int].1@));
                if self.instructions.entry(i).1.address == address.0 {
                    Some(i)
                } else {
                    proof {
                        assert forall|j: int| 0 <= j < self@.len() implies (#[trigger] self@[j]).1.address
                            != address.0 by {
                            if self@[j].1.address == address.0 {
                                assert(self@[j].0.start == address);
                                if j < i {
                                    assert(self@[j].0.end.0 <= self@[i as int].0.start.0);
                                    assert(!self@[j].0.is_empty());
                                } else if j > i {
                                    assert(self@[i as int].0.end.0 <= self@[j].0.start.0);
                                }
                            }
                        }
                    }
                    None
                }
            },
            None => {
                proof {
                    assert forall|j: int| 0 <= j < self@.len() implies (#[trigger] self@[j]).1.address
                        != address.0 by {
                        if self@[j].1.address == address.0 {
                            assert(!self@[j].0.is_empty());
                            assert(self.instructions@[j].0.contains(address.0 as int));
                        }
                    }
                }
                None
            },
        }
    }

    /// The instruction that starts at `address`.
    pub fn get_by_address(&self, address: Address) -> (r: Option<&LiftedInstruction>)
        requires
            self.wf(),
        ensures
            match r {
                Some(instruction) => instruction.address == address.0 && exists|i: int|
                    0 <= i < self@.len() && (#[trigger] self@[i]).1 == instruction@,
                None => forall|i: int| 0 <= i < self@.len() ==> (#[trigger] self@[i]).1.address != address.0,
            },
    {
        match self.position(address) {
            Some(i) => Some(self.instruction(i)),
            None => None,
        }
    }

    /// Lifts one decoded instruction into the store.
    pub fn lift_one(&mut self, d: &DecodedInstruction)
        requires
            old(self).wf(),
        ensures
            final(self).wf(),
            final(self)@ == lifted_into(old(self)@, *d),
    {
        if d.inst_start >= d.inst_next {
            return ;
        }
        let interval = Interval::new(Address(d.inst_start), Address(d.inst_next));
        let lifted = LiftedInstruction {
            address: d.inst_start,
            next: d.inst_next,
            operations: lift_operations(&d.ops),
        };
        let ghost before = self.instructions@;
        proof {
            same_ranges_agree(before, lifted_views(before));
        }
        let _ = self.instructions.overwrite(interval, lifted);
        proof {
            let goal = lifted_into(old(self)@, *d);
            overwritten_is_ordered(old(self)@, interval, lifted_view(*d));
            intersecting_run(before, interval);
            ending_by_bounds(before, interval.start.0 as int);
            assert(self@ =~= goal);
            let lo = ending_by(before, interval.start.0 as int);
            let hi = starting_below(before, interval.end.0 as int);
            assert forall|i: int| 0 <= i < goal.len() implies (#[trigger] goal[i]).0 == (Interval {
                start: Address(goal[i].1.address),
                end: Address(goal[i].1.next),
            }) by {
                if i < lo {
                    assert(goal[i] == old(self)@[i]);
                } else if i > lo {
                    assert(goal[i] == old(self)@[i - lo - 1 + hi]);
                }
            }
        }
    }
}

/// Lifts a run of decoded instructions into `existing`, or into an empty
/// store where there is none.
pub fn lift(instructions: &Vec<DecodedInstruction>, existing: Option<IrStore>) -> (store: IrStore)
    requires
        existing is Some ==> existing->Some_0.wf(),
    ensures
        store.wf(),
        store@ == all_lifted(
            match existing {
                Some(e) => e@,
                None => Seq::empty(),
            },
            instructions@,
            0,
        ),
{
    let mut store = match existing {
        Some(e) => e,
        None => IrStore::new(),
    };
    let ghost first = store@;
    let mut i: usize = 0;
    while i < instructions.len()
        invariant
            i <= instructions@.len(),
            store.wf(),
            all_lifted(store@, instructions@, i as int) == all_lifted(first, instructions@, 0),
        decreases instructions@.len() - i,
    {
        store.lift_one(&instructions[i]);
        i += 1;
    }
    store
}

} // verus!
