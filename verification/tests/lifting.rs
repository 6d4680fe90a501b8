use bin_ast::address::{Address, Interval};
use bin_ast::ir::basic_block::{assemble, substitute, BasicBlock, DestinationKind, NextBlock};
use bin_ast::ir::decode::{DecodeRequest, DecodeSession, OracleAnswer};
use bin_ast::ir::expression::{
    fold_binary_value, fold_unary_value, negate, simplify, BinaryOp, Expression, ExpressionOp, UnaryOp,
};
use bin_ast::ir::lift::{lift, lift_operation, lift_operations, IrStore, Operation};
use bin_ast::ir::pcode::{DecodedInstruction, Opcode, Operand, RawOperation, Space, Storage};
use bin_ast::ir::type_system::{InstructionSize, VariableType};

fn reg(id: u64) -> Storage {
    Storage { space: Space::Register, id, size: 8 }
}

fn tmp(id: u64) -> Storage {
    Storage { space: Space::Unique, id, size: 1 }
}

fn slot(s: Storage) -> Operand {
    Operand::Slot(s)
}

fn konst(value: u64) -> Operand {
    Operand::Constant { value, size: 8 }
}

fn op(opcode: Opcode, output: Option<Storage>, first: Operand, second: Operand) -> RawOperation {
    RawOperation { opcode, output, first, second }
}

fn instruction(start: u64, next: u64, ops: Vec<RawOperation>) -> DecodedInstruction {
    DecodedInstruction { inst_start: start, inst_next: next, ops }
}

fn value(v: u64) -> Expression {
    Expression::value(v, InstructionSize::U64)
}

#[test]
fn sizes_truncate_and_compare() {
    assert_eq!(InstructionSize::U8.truncate(0x1ff), 0xff);
    assert_eq!(InstructionSize::U16.truncate(0x12345), 0x2345);
    assert_eq!(InstructionSize::U32.truncate(u64::MAX), 0xffff_ffff);
    assert_eq!(InstructionSize::U64.truncate(u64::MAX), u64::MAX);
    assert_eq!(InstructionSize::from_bytes(1), InstructionSize::U8);
    assert_eq!(InstructionSize::from_bytes(2), InstructionSize::U16);
    assert_eq!(InstructionSize::from_bytes(3), InstructionSize::U32);
    assert_eq!(InstructionSize::from_bytes(8), InstructionSize::U64);
    assert_eq!(InstructionSize::from_bytes(16), InstructionSize::U64);
    assert!(InstructionSize::U8.signed_less(0xff, 0x01));
    assert!(!InstructionSize::U8.signed_less(0x01, 0xff));
    assert!(InstructionSize::U8.signed_less(0x80, 0x7f));
    assert!(InstructionSize::U32.signed_less(3, 4));
    assert!(!InstructionSize::U64.signed_less(4, 4));
}

#[test]
fn constants_fold_at_their_width() {
    let s8 = InstructionSize::U8;
    assert_eq!(fold_binary_value(BinaryOp::Add, 0xff, 2, s8), 1);
    assert_eq!(fold_binary_value(BinaryOp::Sub, 1, 2, s8), 0xff);
    assert_eq!(fold_binary_value(BinaryOp::Mul, 0x10, 0x11, s8), 0x10);
    assert_eq!(fold_binary_value(BinaryOp::And, 0xf0, 0x3c, s8), 0x30);
    assert_eq!(fold_binary_value(BinaryOp::Or, 0xf0, 0x0c, s8), 0xfc);
    assert_eq!(fold_binary_value(BinaryOp::Xor, 0xf0, 0xff, s8), 0x0f);
    assert_eq!(fold_binary_value(BinaryOp::ShiftLeft, 0x81, 1, s8), 2);
    assert_eq!(fold_binary_value(BinaryOp::ShiftRight, 0x81, 1, s8), 0x40);
    assert_eq!(fold_binary_value(BinaryOp::ShiftLeft, 1, 64, InstructionSize::U64), 0);
    assert_eq!(fold_binary_value(BinaryOp::Equal, 3, 3, s8), 1);
    assert_eq!(fold_binary_value(BinaryOp::NotEqual, 3, 3, s8), 0);
    assert_eq!(fold_binary_value(BinaryOp::Less, 0x01, 0xff, s8), 1);
    assert_eq!(fold_binary_value(BinaryOp::SignedLess, 0x01, 0xff, s8), 0);
    assert_eq!(fold_binary_value(BinaryOp::SignedLessEqual, 0xff, 0xff, s8), 1);
    assert_eq!(fold_binary_value(BinaryOp::LessEqual, 4, 3, s8), 0);
    assert_eq!(fold_binary_value(BinaryOp::LogicalAnd, 4, 0, s8), 0);
    assert_eq!(fold_binary_value(BinaryOp::LogicalOr, 4, 0, s8), 1);
    assert_eq!(fold_binary_value(BinaryOp::Add, u64::MAX, 1, InstructionSize::U64), 0);
    assert_eq!(fold_unary_value(UnaryOp::Negate, 1, s8), 0xff);
    assert_eq!(fold_unary_value(UnaryOp::Not, 0x0f, s8), 0xf0);
    assert_eq!(fold_unary_value(UnaryOp::LogicalNot, 0, s8), 1);
    assert_eq!(fold_unary_value(UnaryOp::LogicalNot, 7, s8), 0);
}

#[test]
fn expressions_fold_when_both_operands_are_known() {
    let sum = Expression::binary(BinaryOp::Add, value(40), value(2));
    assert_eq!(sum, value(42));
    let test = Expression::binary(BinaryOp::Less, value(1), value(2));
    assert_eq!(
        test,
        Expression { op: ExpressionOp::Value(1), size: InstructionSize::U8, kind: VariableType::Boolean }
    );
    let open = Expression::binary(BinaryOp::Add, Expression::register(reg(1)), value(2));
    assert_eq!(
        open,
        Expression {
            op: ExpressionOp::Binary(
                BinaryOp::Add,
                Box::new(Expression::register(reg(1))),
                Box::new(value(2))
            ),
            size: InstructionSize::U64,
            kind: VariableType::Integer,
        }
    );
    assert_eq!(Expression::unary(UnaryOp::Negate, value(1)), value(u64::MAX));
    assert_eq!(Expression::value(0x1ff, InstructionSize::U8).as_constant(), Some(0xff));
    assert_eq!(open.as_constant(), None);
    assert_eq!(open.duplicate(), open);
    assert_eq!(open.clone(), open);
    assert!(open.same(&open.duplicate()));
    assert!(!open.same(&value(2)));
    assert_eq!(Expression::from_address(Address(0x40)).root_op(), &ExpressionOp::Value(0x40));
}

#[test]
fn conditions_are_negated_and_simplified() {
    let a = Expression::register(reg(1));
    let less = Expression::binary(BinaryOp::Less, a.duplicate(), value(10));
    let not_less = Expression::unary(UnaryOp::LogicalNot, less.duplicate());
    assert_eq!(negate(not_less.duplicate()), less);
    let flipped = negate(less.duplicate());
    assert_eq!(
        flipped.op,
        ExpressionOp::Binary(BinaryOp::LessEqual, Box::new(value(10)), Box::new(a.duplicate()))
    );
    assert_eq!(negate(flipped), less);
    let equal = Expression::binary(BinaryOp::Equal, a.duplicate(), value(3));
    assert_eq!(negate(equal.duplicate()), Expression::binary(BinaryOp::NotEqual, a.duplicate(), value(3)));
    // a truth value compared with zero
    let zero = Expression::value(0, InstructionSize::U8);
    let is_false = Expression::binary(BinaryOp::Equal, less.duplicate(), zero.duplicate());
    assert_eq!(simplify(&is_false).op, negate(less.duplicate()).op);
    let is_true = Expression::binary(BinaryOp::NotEqual, less.duplicate(), zero.duplicate());
    assert_eq!(simplify(&is_true), less);
    assert_eq!(simplify(&not_less).op, negate(less.duplicate()).op);
    // an integer compared with zero stays
    let plain = Expression::binary(BinaryOp::Equal, a.duplicate(), value(0));
    assert_eq!(simplify(&plain), plain);
    // both sides of a conjunction
    let both = Expression::binary(BinaryOp::LogicalAnd, is_true.duplicate(), equal.duplicate());
    assert_eq!(simplify(&both), Expression::binary(BinaryOp::LogicalAnd, less.duplicate(), equal));
}

#[test]
fn operations_are_lifted_one_by_one() {
    assert_eq!(
        lift_operation(&op(Opcode::Copy, Some(reg(1)), konst(5), Operand::Absent)),
        Some(Operation::Assign { slot: reg(1), value: value(5) })
    );
    assert_eq!(
        lift_operation(&op(Opcode::IntAdd, Some(reg(1)), slot(reg(2)), konst(1))),
        Some(Operation::Assign {
            slot: reg(1),
            value: Expression::binary(BinaryOp::Add, Expression::register(reg(2)), value(1)),
        })
    );
    assert_eq!(
        lift_operation(&op(Opcode::IntAdd, Some(reg(1)), konst(2), konst(3))),
        Some(Operation::Assign { slot: reg(1), value: value(5) })
    );
    assert_eq!(
        lift_operation(&op(Opcode::Load, Some(reg(1)), slot(reg(2)), Operand::Absent)),
        Some(Operation::Assign {
            slot: reg(1),
            value: Expression::memory(Expression::register(reg(2)), InstructionSize::U64),
        })
    );
    assert_eq!(
        lift_operation(&op(Opcode::Store, None, slot(reg(2)), konst(9))),
        Some(Operation::Store { address: Expression::register(reg(2)), value: value(9) })
    );
    assert_eq!(
        lift_operation(&op(Opcode::Branch, None, konst(0x40), Operand::Absent)),
        Some(Operation::Branch { target: DestinationKind::Concrete(Address(0x40)) })
    );
    assert_eq!(
        lift_operation(&op(Opcode::BranchInd, None, slot(reg(2)), Operand::Absent)),
        Some(Operation::Branch { target: DestinationKind::Unknown })
    );
    assert_eq!(
        lift_operation(&op(Opcode::CBranch, None, konst(0x40), slot(tmp(1)))),
        Some(Operation::BranchIf {
            condition: Expression::register(tmp(1)),
            target: DestinationKind::Concrete(Address(0x40)),
        })
    );
    assert_eq!(
        lift_operation(&op(Opcode::Call, None, konst(0x80), Operand::Absent)),
        Some(Operation::Call { destination: DestinationKind::Concrete(Address(0x80)) })
    );
    assert_eq!(
        lift_operation(&op(Opcode::CallInd, None, slot(reg(1)), Operand::Absent)),
        Some(Operation::Call { destination: DestinationKind::Unknown })
    );
    assert_eq!(lift_operation(&op(Opcode::Return, None, Operand::Absent, Operand::Absent)), Some(Operation::Return));
    assert_eq!(
        lift_operation(&op(Opcode::Other, Some(reg(3)), Operand::Absent, Operand::Absent)),
        Some(Operation::Assign { slot: reg(3), value: Expression::unknown(InstructionSize::U64) })
    );
    assert_eq!(lift_operation(&op(Opcode::IntAdd, None, konst(1), konst(2))), None);
    assert_eq!(
        lift_operation(&op(Opcode::BoolNegate, Some(tmp(2)), slot(tmp(1)), Operand::Absent)),
        Some(Operation::Assign {
            slot: tmp(2),
            value: Expression::unary(UnaryOp::LogicalNot, Expression::register(tmp(1))),
        })
    );
    let all = lift_operations(&vec![
        op(Opcode::IntAdd, None, konst(1), konst(2)),
        op(Opcode::Return, None, Operand::Absent, Operand::Absent),
    ]);
    assert_eq!(all, vec![Operation::Return]);
}

#[test]
fn decoding_runs_until_the_bytes_are_used_up() {
    let mut session = DecodeSession::new(0x1000, 5);
    assert_eq!(session.next_request(), Some(DecodeRequest { offset: 0, address: 0x1000 }));
    session.accept(Some(OracleAnswer { length: 2, ops: Vec::new() }));
    assert_eq!(session.next_request(), Some(DecodeRequest { offset: 2, address: 0x1002 }));
    session.accept(Some(OracleAnswer { length: 3, ops: vec![op(Opcode::Return, None, Operand::Absent, Operand::Absent)] }));
    assert_eq!(session.next_request(), None);
    let run = session.finish().unwrap();
    assert_eq!(
        run,
        vec![
            instruction(0x1000, 0x1002, Vec::new()),
            instruction(0x1002, 0x1005, vec![op(Opcode::Return, None, Operand::Absent, Operand::Absent)]),
        ]
    );
}

#[test]
fn decoding_stops_at_the_first_refusal() {
    let mut session = DecodeSession::new(0x1000, 8);
    session.accept(Some(OracleAnswer { length: 2, ops: Vec::new() }));
    session.accept(None);
    assert_eq!(session.next_request(), None);
    session.accept(Some(OracleAnswer { length: 1, ops: Vec::new() }));
    assert_eq!(session.finish(), Some(vec![instruction(0x1000, 0x1002, Vec::new())]));

    let mut nothing = DecodeSession::new(0x1000, 8);
    nothing.accept(None);
    assert_eq!(nothing.finish(), None);

    let mut too_long = DecodeSession::new(0x1000, 3);
    too_long.accept(Some(OracleAnswer { length: 4, ops: Vec::new() }));
    assert_eq!(too_long.next_request(), None);
    assert_eq!(too_long.finish(), None);

    let mut no_length = DecodeSession::new(0x1000, 3);
    no_length.accept(Some(OracleAnswer { length: 0, ops: Vec::new() }));
    assert_eq!(no_length.finish(), None);

    let empty = DecodeSession::new(0x1000, 0);
    assert_eq!(empty.next_request(), None);

    let mut at_the_top = DecodeSession::new(u64::MAX - 1, 8);
    at_the_top.accept(Some(OracleAnswer { length: 2, ops: Vec::new() }));
    assert_eq!(at_the_top.finish(), None);
}

fn addresses(store: &IrStore) -> Vec<(u64, u64)> {
    (0..store.len()).map(|i| (store.instruction(i).address, store.instruction(i).next)).collect()
}

#[test]
fn lifting_merges_with_what_was_lifted_before() {
    let first = lift(&vec![instruction(0x10, 0x12, Vec::new()), instruction(0x12, 0x15, Vec::new())], None);
    assert_eq!(addresses(&first), vec![(0x10, 0x12), (0x12, 0x15)]);
    let second = lift(
        &vec![instruction(0x30, 0x31, vec![op(Opcode::Return, None, Operand::Absent, Operand::Absent)])],
        Some(first),
    );
    assert_eq!(addresses(&second), vec![(0x10, 0x12), (0x12, 0x15), (0x30, 0x31)]);
    // lifting over part of what is there replaces what it meets and keeps the rest
    let third = lift(&vec![instruction(0x11, 0x13, Vec::new()), instruction(0, 0, Vec::new())], Some(second));
    assert_eq!(addresses(&third), vec![(0x11, 0x13), (0x30, 0x31)]);
    assert_eq!(third.get_by_address(Address(0x30)).unwrap().operations, vec![Operation::Return]);
    assert!(third.get_by_address(Address(0x12)).is_none());
    assert_eq!(third.position(Address(0x11)), Some(0));
}

#[test]
fn substitution_replaces_written_slots_and_folds() {
    let registers = vec![(reg(1), value(4)), (tmp(1), Expression::register(reg(9)))];
    let sum = Expression {
        op: ExpressionOp::Binary(
            BinaryOp::Add,
            Box::new(Expression::register(reg(1))),
            Box::new(value(6)),
        ),
        size: InstructionSize::U64,
        kind: VariableType::Integer,
    };
    assert_eq!(substitute(&sum, &registers), value(10));
    assert_eq!(substitute(&Expression::register(tmp(1)), &registers), Expression::register(reg(9)));
    assert_eq!(substitute(&Expression::register(reg(2)), &registers), Expression::register(reg(2)));
    let load = Expression::memory(Expression::register(reg(1)), InstructionSize::U32);
    assert_eq!(substitute(&load, &registers), Expression::memory(value(4), InstructionSize::U32));
}

#[test]
fn the_store_is_cut_into_basic_blocks() {
    let program = vec![
        instruction(0x1000, 0x1004, vec![
            op(Opcode::IntEqual, Some(tmp(0)), slot(reg(1)), konst(0)),
            op(Opcode::CBranch, None, konst(0x1008), slot(tmp(0))),
        ]),
        instruction(0x1004, 0x1008, vec![
            op(Opcode::Copy, Some(reg(2)), konst(1), Operand::Absent),
            op(Opcode::Branch, None, konst(0x100c), Operand::Absent),
        ]),
        instruction(0x1008, 0x100a, vec![op(Opcode::Copy, Some(reg(2)), konst(2), Operand::Absent)]),
        instruction(0x100a, 0x100c, vec![
            op(Opcode::IntAdd, Some(reg(2)), slot(reg(2)), konst(5)),
            op(Opcode::Store, None, konst(0x8000), slot(reg(2))),
        ]),
        instruction(0x100c, 0x100d, vec![op(Opcode::Return, None, Operand::Absent, Operand::Absent)]),
    ];
    let store = lift(&program, None);
    let blocks = assemble(&store, Address(0x1000));
    let condition = Expression::binary(BinaryOp::Equal, Expression::register(reg(1)), value(0));
    assert_eq!(
        blocks,
        vec![
            BasicBlock {
                start: Address(0x1000),
                end: Address(0x1004),
                registers: vec![(tmp(0), condition.duplicate())],
                stores: Vec::new(),
                next: NextBlock::ConditionalBranch {
                    condition,
                    target: Address(0x1008),
                    fallthrough: Address(0x1004),
                },
            },
            BasicBlock {
                start: Address(0x1004),
                end: Address(0x1008),
                registers: vec![(reg(2), value(1))],
                stores: Vec::new(),
                next: NextBlock::Branch { target: Address(0x100c) },
            },
            BasicBlock {
                start: Address(0x1008),
                end: Address(0x100c),
                registers: vec![(reg(2), value(7))],
                stores: vec![(value(0x8000), value(7))],
                next: NextBlock::Fallthrough(Address(0x100c)),
            },
            BasicBlock {
                start: Address(0x100c),
                end: Address(0x100d),
                registers: Vec::new(),
                stores: Vec::new(),
                next: NextBlock::Return,
            },
        ]
    );
    // an entry in the middle of a run starts a block of its own
    let split = assemble(&store, Address(0x100a));
    assert_eq!(split.len(), 5);
    assert_eq!(split[2].end, Address(0x100a));
    assert_eq!(split[3].start, Address(0x100a));
    assert_eq!(split[3].registers, vec![(
        reg(2),
        Expression::binary(BinaryOp::Add, Expression::register(reg(2)), value(5))
    )]);
    assert_eq!(Interval::new(split[3].start, split[3].end), Interval::new(Address(0x100a), Address(0x100c)));
}
