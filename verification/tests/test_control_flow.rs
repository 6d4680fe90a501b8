use bin_ast::address::Address;
use bin_ast::ir::abstract_syntax_tree::{AbstractSyntaxTree, AstStatement};
use bin_ast::ir::basic_block::{DestinationKind, NextBlock};
use bin_ast::ir::conventions::Conventions;
use bin_ast::ir::expression::{BinaryOp, Expression, VariableSymbol};
use bin_ast::ir::high_function::HighFunction;
use bin_ast::ir::lift::{lift, Operation};
use bin_ast::ir::pcode::{DecodedInstruction, Opcode, Operand, RawOperation, Space, Storage};
use bin_ast::ir::structuring::{Analysis, LoopShape};
use bin_ast::ir::traversal::holds_block;
use bin_ast::ir::type_system::InstructionSize;

fn reg(id: u64) -> Storage {
    Storage { space: Space::Register, id, size: 8 }
}

fn tmp(id: u64) -> Storage {
    Storage { space: Space::Unique, id, size: 1 }
}

fn slot(s: Storage) -> Operand {
    Operand::Slot(s)
}

fn konst(value: u64) -> Operand {
    Operand::Constant { value, size: 8 }
}

fn op(opcode: Opcode, output: Option<Storage>, first: Operand, second: Operand) -> RawOperation {
    RawOperation { opcode, output, first, second }
}

fn ret() -> RawOperation {
    op(Opcode::Return, None, Operand::Absent, Operand::Absent)
}

fn jump(target: u64) -> RawOperation {
    op(Opcode::Branch, None, konst(target), Operand::Absent)
}

fn instruction(start: u64, next: u64, ops: Vec<RawOperation>) -> DecodedInstruction {
    DecodedInstruction { inst_start: start, inst_next: next, ops }
}

fn value(v: u64) -> Expression {
    Expression::value(v, InstructionSize::U64)
}

fn basic(address: u64, assignments: Vec<(Storage, Expression)>) -> AstStatement {
    AstStatement::Basic { address: Address(address), assignments, stores: Vec::new() }
}

fn block(statements: Vec<AstStatement>) -> Box<AstStatement> {
    Box::new(AstStatement::Block(statements))
}

/// `if (r1 == 0) r2 = 2 else r2 = 1; return r2`
fn simple_if() -> Vec<DecodedInstruction> {
    vec![
        instruction(0x1000, 0x1004, vec![
            op(Opcode::IntEqual, Some(tmp(0)), slot(reg(1)), konst(0)),
            op(Opcode::CBranch, None, konst(0x1008), slot(tmp(0))),
        ]),
        instruction(0x1004, 0x1008, vec![
            op(Opcode::Copy, Some(reg(2)), konst(1), Operand::Absent),
            jump(0x100c),
        ]),
        instruction(0x1008, 0x100c, vec![op(Opcode::Copy, Some(reg(2)), konst(2), Operand::Absent)]),
        instruction(0x100c, 0x100d, vec![ret()]),
    ]
}

/// `r1 = 0; while (r1 < 10) r1 = r1 + 1; return`
fn simple_loop() -> Vec<DecodedInstruction> {
    vec![
        instruction(0x2000, 0x2004, vec![op(Opcode::Copy, Some(reg(1)), konst(0), Operand::Absent)]),
        instruction(0x2004, 0x2008, vec![
            op(Opcode::IntLess, Some(tmp(0)), slot(reg(1)), konst(10)),
            op(Opcode::BoolNegate, Some(tmp(1)), slot(tmp(0)), Operand::Absent),
            op(Opcode::CBranch, None, konst(0x2010), slot(tmp(1))),
        ]),
        instruction(0x2008, 0x200c, vec![op(Opcode::IntAdd, Some(reg(1)), slot(reg(1)), konst(1))]),
        instruction(0x200c, 0x2010, vec![jump(0x2004)]),
        instruction(0x2010, 0x2011, vec![ret()]),
    ]
}

/// `do { g() } while (r1 != 5); return`
fn do_while() -> Vec<DecodedInstruction> {
    vec![
        instruction(0x2800, 0x2804, vec![op(Opcode::Copy, Some(reg(1)), konst(0), Operand::Absent)]),
        instruction(0x2804, 0x2808, vec![op(Opcode::Call, None, konst(0x9000), Operand::Absent)]),
        instruction(0x2808, 0x280c, vec![
            op(Opcode::IntNotEqual, Some(tmp(0)), slot(reg(1)), konst(5)),
            op(Opcode::CBranch, None, konst(0x2804), slot(tmp(0))),
        ]),
        instruction(0x280c, 0x280d, vec![ret()]),
    ]
}

/// `f(); return`
fn function_calls() -> Vec<DecodedInstruction> {
    vec![
        instruction(0x3000, 0x3005, vec![
            op(Opcode::Copy, Some(reg(7)), konst(3), Operand::Absent),
            op(Opcode::Call, None, konst(0x4000), Operand::Absent),
        ]),
        instruction(0x3005, 0x3006, vec![ret()]),
    ]
}

/// `if (r1 == 0) { if (r2 == 0) r3 = 1 } return`
fn nested_control() -> Vec<DecodedInstruction> {
    vec![
        instruction(0x5000, 0x5004, vec![
            op(Opcode::IntNotEqual, Some(tmp(0)), slot(reg(1)), konst(0)),
            op(Opcode::CBranch, None, konst(0x5010), slot(tmp(0))),
        ]),
        instruction(0x5004, 0x5008, vec![
            op(Opcode::IntNotEqual, Some(tmp(0)), slot(reg(2)), konst(0)),
            op(Opcode::CBranch, None, konst(0x5010), slot(tmp(0))),
        ]),
        instruction(0x5008, 0x5010, vec![op(Opcode::Copy, Some(reg(3)), konst(1), Operand::Absent)]),
        instruction(0x5010, 0x5011, vec![ret()]),
    ]
}

fn decompile(program: &Vec<DecodedInstruction>, entry: u64) -> (HighFunction, AbstractSyntaxTree) {
    let store = lift(program, None);
    let hf = HighFunction::from_store(Address(entry), &store).expect("a function at the entry");
    let ast = AbstractSyntaxTree::with_conventions(&hf, &Conventions::none());
    (hf, ast)
}

fn count(statement: &AstStatement, wanted: &dyn Fn(&AstStatement) -> bool) -> usize {
    let own = if wanted(statement) { 1 } else { 0 };
    own + match statement {
        AstStatement::Block(statements) => statements.iter().map(|s| count(s, wanted)).sum(),
        AstStatement::If { true_statement, else_statement, .. } => {
            count(true_statement, wanted) + count(else_statement, wanted)
        }
        AstStatement::Loop { body, .. } => count(body, wanted),
        AstStatement::Function { body, .. } => count(body, wanted),
        _ => 0,
    }
}

fn mentions(statement: &AstStatement, address: u64) -> bool {
    count(statement, &|s| matches!(s, AstStatement::Basic { address: a, .. } if a.0 == address)) > 0
}

#[test]
fn test_simple_if_has_branches() {
    let (_, ast) = decompile(&simple_if(), 0x1000);
    assert!(matches!(ast.entry(), AstStatement::Block(_)), "Expected AST to have a Block statement");
    let return_count = count(ast.entry(), &|s| matches!(s, AstStatement::Return { .. }));
    assert!(return_count >= 1, "Expected at least 1 return statement, got {}", return_count);
}

#[test]
fn test_nested_if_structure() {
    let (_, ast) = decompile(&nested_control(), 0x5000);
    assert!(matches!(ast.entry(), AstStatement::Block(_)), "Expected AST to have a Block statement");
}

#[test]
fn test_loop_detection() {
    let (_, ast) = decompile(&simple_loop(), 0x2000);
    let loop_count = count(ast.entry(), &|s| matches!(s, AstStatement::Loop { .. }));
    assert!(loop_count > 0, "Expected at least 1 loop statement");
}

#[test]
fn test_has_return_statement() {
    let (_, ast) = decompile(&simple_if(), 0x1000);
    assert!(
        count(ast.entry(), &|s| matches!(s, AstStatement::Return { .. })) > 0,
        "Expected Return statement in AST"
    );
}

#[test]
fn test_basic_decompilation_doesnt_panic() {
    for (program, entry) in [
        (simple_if(), 0x1000u64),
        (simple_loop(), 0x2000),
        (function_calls(), 0x3000),
        (nested_control(), 0x5000),
    ] {
        let (_, ast) = decompile(&program, entry);
        assert!(matches!(ast.root(), AstStatement::Function { .. }));
    }
}

#[test]
fn a_branch_that_rejoins_becomes_an_if_with_one_shared_return() {
    let (_, ast) = decompile(&simple_if(), 0x1000);
    let condition = Expression::binary(BinaryOp::Equal, Expression::register(reg(1)), value(0));
    let expected = AstStatement::Function {
        entry: Address(0x1000),
        body: block(vec![
            basic(0x1000, Vec::new()),
            AstStatement::If {
                condition,
                true_statement: block(vec![basic(0x1008, vec![(reg(2), value(2))])]),
                else_statement: block(vec![basic(0x1004, vec![(reg(2), value(1))])]),
            },
            basic(0x100c, Vec::new()),
            AstStatement::Return { result: None },
        ]),
    };
    assert_eq!(ast.root(), &expected);
    assert_eq!(count(ast.root(), &|s| matches!(s, AstStatement::Return { .. })), 1);
    assert_eq!(count(ast.root(), &|s| matches!(s, AstStatement::Branch { .. })), 0);
}

#[test]
fn a_test_at_the_head_becomes_a_loop_with_a_condition() {
    let (_, ast) = decompile(&simple_loop(), 0x2000);
    let condition = Expression::binary(BinaryOp::Less, Expression::register(reg(1)), value(10));
    let increment = Expression::binary(BinaryOp::Add, Expression::register(reg(1)), value(1));
    let expected = AstStatement::Function {
        entry: Address(0x2000),
        body: block(vec![
            basic(0x2000, vec![(reg(1), value(0))]),
            AstStatement::Loop {
                condition: Some(condition),
                body: block(vec![basic(0x2004, Vec::new()), basic(0x2008, vec![(reg(1), increment)])]),
            },
            basic(0x2010, Vec::new()),
            AstStatement::Return { result: None },
        ]),
    };
    assert_eq!(ast.root(), &expected);
    assert_eq!(count(ast.root(), &|s| matches!(s, AstStatement::Branch { .. })), 0);
}

#[test]
fn a_test_at_the_latch_becomes_a_loop_that_runs_again_while_it_holds() {
    let (hf, ast) = decompile(&do_while(), 0x2800);
    let analysis = Analysis::of(&hf);
    let head = hf.slot_by_address(Address(0x2804)).unwrap();
    let exit = hf.slot_by_address(Address(0x280c)).unwrap();
    let condition = Expression::binary(BinaryOp::NotEqual, Expression::register(reg(1)), value(5));
    assert_eq!(analysis.shape_of(&hf, head), LoopShape::PostTest { condition: condition.duplicate(), exit });
    let expected = AstStatement::Function {
        entry: Address(0x2800),
        body: block(vec![
            basic(0x2800, vec![(reg(1), value(0))]),
            AstStatement::Loop {
                condition: Some(condition),
                body: block(vec![
                    basic(0x2804, Vec::new()),
                    AstStatement::Call {
                        target: DestinationKind::Concrete(Address(0x9000)),
                        arguments: Vec::new(),
                    },
                    basic(0x2808, Vec::new()),
                ]),
            },
            basic(0x280c, Vec::new()),
            AstStatement::Return { result: None },
        ]),
    };
    assert_eq!(ast.root(), &expected);
}

#[test]
fn a_block_that_loops_on_itself_is_its_own_test() {
    let program = vec![
        instruction(0x2900, 0x2904, vec![op(Opcode::IntAdd, Some(reg(1)), slot(reg(1)), konst(1))]),
        instruction(0x2904, 0x2908, vec![
            op(Opcode::IntNotEqual, Some(tmp(0)), slot(reg(1)), konst(5)),
            op(Opcode::CBranch, None, konst(0x2900), slot(tmp(0))),
        ]),
        instruction(0x2908, 0x2909, vec![ret()]),
    ];
    let (_, ast) = decompile(&program, 0x2900);
    let increment = Expression::binary(BinaryOp::Add, Expression::register(reg(1)), value(1));
    let condition = Expression::binary(BinaryOp::NotEqual, increment.duplicate(), value(5));
    let expected = AstStatement::Function {
        entry: Address(0x2900),
        body: block(vec![
            AstStatement::Loop {
                condition: Some(condition),
                body: block(vec![basic(0x2900, vec![(reg(1), increment)])]),
            },
            basic(0x2908, Vec::new()),
            AstStatement::Return { result: None },
        ]),
    };
    assert_eq!(ast.root(), &expected);
}

#[test]
fn a_loop_without_a_test_is_endless() {
    let program = vec![
        instruction(0x6000, 0x6004, vec![op(Opcode::IntAdd, Some(reg(1)), slot(reg(1)), konst(1))]),
        instruction(0x6004, 0x6008, vec![jump(0x6000)]),
    ];
    let (_, ast) = decompile(&program, 0x6000);
    let increment = Expression::binary(BinaryOp::Add, Expression::register(reg(1)), value(1));
    let expected = AstStatement::Function {
        entry: Address(0x6000),
        body: block(vec![AstStatement::Loop {
            condition: None,
            body: block(vec![basic(0x6000, vec![(reg(1), increment)])]),
        }]),
    };
    assert_eq!(ast.root(), &expected);
}

#[test]
fn a_call_is_followed_by_what_comes_behind_it() {
    let store = lift(&function_calls(), None);
    let hf = HighFunction::from_store(Address(0x3000), &store).unwrap();
    let conventions = Conventions::new(Some(reg(0)), vec![reg(7), reg(6)]);
    let ast = AbstractSyntaxTree::with_conventions(&hf, &conventions);
    let expected = AstStatement::Function {
        entry: Address(0x3000),
        body: block(vec![
            basic(0x3000, vec![(reg(7), value(3))]),
            AstStatement::Call {
                target: DestinationKind::Concrete(Address(0x4000)),
                arguments: vec![value(3)],
            },
            basic(0x3005, Vec::new()),
            AstStatement::Return { result: Some(Expression::register(reg(0))) },
        ]),
    };
    assert_eq!(ast.root(), &expected);
}

#[test]
fn nested_conditions_nest() {
    let (_, ast) = decompile(&nested_control(), 0x5000);
    let outer = Expression::binary(BinaryOp::NotEqual, Expression::register(reg(1)), value(0));
    let inner = Expression::binary(BinaryOp::NotEqual, Expression::register(reg(2)), value(0));
    let expected = AstStatement::Function {
        entry: Address(0x5000),
        body: block(vec![
            basic(0x5000, Vec::new()),
            AstStatement::If {
                condition: outer,
                true_statement: block(Vec::new()),
                else_statement: block(vec![
                    basic(0x5004, Vec::new()),
                    AstStatement::If {
                        condition: inner,
                        true_statement: block(Vec::new()),
                        else_statement: block(vec![basic(0x5008, vec![(reg(3), value(1))])]),
                    },
                ]),
            },
            basic(0x5010, Vec::new()),
            AstStatement::Return { result: None },
        ]),
    };
    assert_eq!(ast.root(), &expected);
}

#[test]
fn structuring_twice_gives_the_same_tree() {
    for (program, entry) in [
        (simple_if(), 0x1000u64),
        (simple_loop(), 0x2000),
        (do_while(), 0x2800),
        (function_calls(), 0x3000),
        (nested_control(), 0x5000),
    ] {
        let (hf, first) = decompile(&program, entry);
        let second = AbstractSyntaxTree::with_conventions(&hf, &Conventions::none());
        assert_eq!(first.root(), second.root());
    }
}

#[test]
fn every_block_of_the_function_stands_in_the_tree() {
    for (program, entry) in [
        (simple_if(), 0x1000u64),
        (simple_loop(), 0x2000),
        (do_while(), 0x2800),
        (function_calls(), 0x3000),
        (nested_control(), 0x5000),
    ] {
        let (hf, ast) = decompile(&program, entry);
        let slots = hf.iter_function();
        assert!(!slots.is_empty());
        for slot in slots {
            assert!(mentions(ast.root(), hf.block(slot).start.0));
        }
    }
}

#[test]
fn control_flow_that_does_not_nest_leaves_jumps_but_loses_no_block() {
    // two entries into one cycle: 0x7000 branches to 0x7008 or falls into
    // 0x7004; 0x7004 runs into 0x7008; 0x7008 branches back to 0x7004 or returns
    let program = vec![
        instruction(0x7000, 0x7004, vec![op(Opcode::CBranch, None, konst(0x7008), slot(reg(1)))]),
        instruction(0x7004, 0x7008, vec![op(Opcode::Copy, Some(reg(2)), konst(1), Operand::Absent)]),
        instruction(0x7008, 0x700c, vec![op(Opcode::CBranch, None, konst(0x7004), slot(reg(3)))]),
        instruction(0x700c, 0x700d, vec![ret()]),
    ];
    let (hf, ast) = decompile(&program, 0x7000);
    for slot in hf.iter_function() {
        assert!(mentions(ast.root(), hf.block(slot).start.0));
    }
    assert!(count(ast.root(), &|s| matches!(s, AstStatement::Branch { .. })) > 0);
    assert_eq!(count(ast.root(), &|s| matches!(s, AstStatement::Loop { .. })), 0);
}

#[test]
fn blocks_that_the_entry_does_not_reach_stay_out() {
    let mut program = simple_if();
    program.push(instruction(0x100d, 0x100e, vec![ret()]));
    let (hf, ast) = decompile(&program, 0x1000);
    assert_eq!(hf.len(), 5);
    assert_eq!(hf.iter_function(), vec![0, 1, 2, 3]);
    assert!(!hf.is_member(4));
    assert!(!mentions(ast.root(), 0x100d));
    assert_eq!(hf.successors(0), &vec![2, 1]);
    assert_eq!(hf.predecessors(3), &vec![1, 2]);
    assert_eq!(hf.entry_slot(), 0);
    assert_eq!(hf.entry(), Address(0x1000));
}

#[test]
fn dominators_and_merge_points_of_a_diamond() {
    let (hf, _) = decompile(&simple_if(), 0x1000);
    let analysis = Analysis::of(&hf);
    for n in 0..4 {
        assert!(analysis.dominated_by(&hf, 0, n));
        assert!(analysis.dominated_by(&hf, n, n));
        assert!(analysis.reaches(&hf, 0, n));
    }
    assert!(!analysis.dominated_by(&hf, 1, 3));
    assert!(!analysis.dominated_by(&hf, 2, 3));
    assert!(!analysis.reaches(&hf, 1, 2));
    assert!(!analysis.reaches(&hf, 3, 0));
    assert_eq!(analysis.merge_of(&hf, 0, 2, 1), 3);
    assert_eq!(analysis.latch_from(&hf, 0, 0), 4);
}

#[test]
fn there_is_no_function_where_nothing_was_lifted() {
    let store = lift(&simple_if(), None);
    assert!(HighFunction::from_store(Address(0x9000), &store).is_none());
    assert!(HighFunction::from_store(Address(0x1001), &store).is_none());
}

#[test]
fn test_issue_overlapping_varnodes() {
    // a register is written at two widths on the two sides of a branch; no
    // block may be left out of the tree for it
    let wide = Storage { space: Space::Register, id: 0, size: 8 };
    let narrow = Storage { space: Space::Register, id: 0, size: 4 };
    let program = vec![
        instruction(0x8000, 0x8004, vec![
            op(Opcode::IntEqual, Some(tmp(0)), slot(narrow), konst(0)),
            op(Opcode::CBranch, None, konst(0x8008), slot(tmp(0))),
        ]),
        instruction(0x8004, 0x8008, vec![
            op(Opcode::Copy, Some(wide), konst(1), Operand::Absent),
            jump(0x800c),
        ]),
        instruction(0x8008, 0x800c, vec![op(Opcode::Copy, Some(narrow), konst(2), Operand::Absent)]),
        instruction(0x800c, 0x800d, vec![
            op(Opcode::IntAdd, Some(wide), slot(wide), slot(narrow)),
            ret(),
        ]),
    ];
    let (hf, ast) = decompile(&program, 0x8000);
    assert_eq!(hf.iter_function().len(), 4);
    for address in [0x8000u64, 0x8004, 0x8008, 0x800c] {
        assert!(mentions(ast.root(), address));
        assert_eq!(
            count(ast.root(), &|s| matches!(s, AstStatement::Basic { address: a, .. } if a.0 == address)),
            1
        );
    }
    assert_eq!(ast.scope.find_owning_section(&VariableSymbol::Slot(wide)), Some(0));
    assert_eq!(ast.scope.find_owning_section(&VariableSymbol::Slot(narrow)), Some(0));
}

#[test]
fn endings_and_operations_can_be_copied() {
    let condition = Expression::binary(BinaryOp::Less, Expression::register(reg(1)), value(3));
    let ending = NextBlock::ConditionalBranch {
        condition: condition.duplicate(),
        target: Address(8),
        fallthrough: Address(4),
    };
    assert_eq!(ending.duplicate(), ending);
    assert_eq!(ending.successor_addresses(), vec![Address(8), Address(4)]);
    assert_eq!(NextBlock::Return.successor_addresses(), Vec::new());
    assert_eq!(
        NextBlock::Call { destination: DestinationKind::Unknown, return_site: Address(9) }
            .successor_addresses(),
        vec![Address(9)]
    );
    let operation = Operation::BranchIf { condition, target: DestinationKind::Unknown };
    assert_eq!(operation.duplicate(), operation);
    assert!(operation.transfers());
    assert!(!Operation::Assign { slot: reg(1), value: value(1) }.transfers());
}

#[test]
fn a_tree_is_searched_without_recursion() {
    let (_, ast) = decompile(&nested_control(), 0x5000);
    for address in [0x5000u64, 0x5004, 0x5008, 0x5010] {
        assert!(holds_block(ast.root(), Address(address)));
        assert!(holds_block(ast.entry(), Address(address)));
    }
    assert!(!holds_block(ast.root(), Address(0x5001)));
    assert!(!holds_block(&AstStatement::Return { result: None }, Address(0)));
    // a tree a hundred thousand deep is no trouble
    let mut deep = AstStatement::Basic { address: Address(7), assignments: Vec::new(), stores: Vec::new() };
    for _ in 0..100_000 {
        deep = AstStatement::Loop { condition: None, body: Box::new(AstStatement::Block(vec![deep])) };
    }
    assert!(holds_block(&deep, Address(7)));
    assert!(!holds_block(&deep, Address(8)));
    // taking it apart level by level keeps the drop from recursing
    let mut rest = deep;
    loop {
        match rest {
            AstStatement::Loop { body, .. } => match *body {
                AstStatement::Block(mut inner) => rest = inner.pop().unwrap(),
                _ => unreachable!(),
            },
            _ => break,
        }
    }
}
