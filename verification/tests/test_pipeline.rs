use bin_ast::address::{Address, Interval};
use bin_ast::analysis::{
    decode_request, define_function, discover_all_functions_from_ir, discover_functions_from_calls,
    finish_frame, handle_signal, rename_symbol, request_position,
};
use bin_ast::ir::abstract_syntax_tree::{AbstractSyntaxTree, AstStatement};
use bin_ast::ir::conventions::Conventions;
use bin_ast::ir::decode::{DecodeSession, OracleAnswer};
use bin_ast::ir::expression::{simplify, BinaryOp, Expression, VariableSymbol};
use bin_ast::ir::high_function::{HighFunction, SpanConflict};
use bin_ast::ir::pcode::{DecodedInstruction, Opcode, Operand, RawOperation, Space, Storage};
use bin_ast::ir::type_system::InstructionSize;
use bin_ast::loaders::load;
use bin_ast::memory::literal::LiteralState;
use bin_ast::memory::marking::mark_instructions;
use bin_ast::memory::Memory;
use bin_ast::tab_viewer::{NavigationView, SignalKind, TabSignals};

fn reg(id: u64) -> Storage {
    Storage { space: Space::Register, id, size: 8 }
}

fn tmp(id: u64) -> Storage {
    Storage { space: Space::Unique, id, size: 1 }
}

fn slot(s: Storage) -> Operand {
    Operand::Slot(s)
}

fn konst(value: u64) -> Operand {
    Operand::Constant { value, size: 8 }
}

fn op(opcode: Opcode, output: Option<Storage>, first: Operand, second: Operand) -> RawOperation {
    RawOperation { opcode, output, first, second }
}

fn ret() -> RawOperation {
    op(Opcode::Return, None, Operand::Absent, Operand::Absent)
}

fn instruction(start: u64, next: u64, ops: Vec<RawOperation>) -> DecodedInstruction {
    DecodedInstruction { inst_start: start, inst_next: next, ops }
}

fn push16(out: &mut Vec<u8>, v: u16) {
    out.extend_from_slice(&v.to_le_bytes());
}

fn push32(out: &mut Vec<u8>, v: u32) {
    out.extend_from_slice(&v.to_le_bytes());
}

fn push64(out: &mut Vec<u8>, v: u64) {
    out.extend_from_slice(&v.to_le_bytes());
}

fn section_header(out: &mut Vec<u8>, name: u32, kind: u32, flags: u64, addr: u64, offset: u64, size: u64) {
    push32(out, name);
    push32(out, kind);
    push64(out, flags);
    push64(out, addr);
    push64(out, offset);
    push64(out, size);
    push32(out, 0);
    push32(out, 0);
    push64(out, 1);
    push64(out, 0);
}

/// A 64-bit ELF file for x86-64 with `code` as its one code section at
/// `base`, and its entry point at `base`.
fn elf_with_code(base: u64, code: &[u8]) -> Vec<u8> {
    let strings_at = 64 + code.len() as u64;
    let headers_at = (strings_at + 17 + 7) / 8 * 8;
    let mut out: Vec<u8> = vec![0x7f, b'E', b'L', b'F', 2, 1, 1, 0, 0, 0, 0, 0, 0, 0, 0, 0];
    push16(&mut out, 2);
    push16(&mut out, 62);
    push32(&mut out, 1);
    push64(&mut out, base);
    push64(&mut out, 0);
    push64(&mut out, headers_at);
    push32(&mut out, 0);
    push16(&mut out, 64);
    push16(&mut out, 56);
    push16(&mut out, 0);
    push16(&mut out, 64);
    push16(&mut out, 3);
    push16(&mut out, 2);
    out.extend_from_slice(code);
    out.extend_from_slice(b"\0.text\0.shstrtab\0");
    while (out.len() as u64) < headers_at {
        out.push(0);
    }
    section_header(&mut out, 0, 0, 0, 0, 0, 0);
    section_header(&mut out, 1, 1, 6, base, 64, code.len() as u64);
    section_header(&mut out, 7, 3, 0, 0, strings_at, 17);
    out
}

/// Stands in for the semantics engine: decodes what `program` says.
fn decode_with(program: &[DecodedInstruction], address: u64, available: usize) -> Option<Vec<DecodedInstruction>> {
    let mut session = DecodeSession::new(address, available);
    while let Some(request) = session.next_request() {
        let answer = program.iter().find(|i| i.inst_start == request.address).map(|i| OracleAnswer {
            length: i.inst_next - i.inst_start,
            ops: i.ops.clone(),
        });
        session.accept(answer);
    }
    session.finish()
}

/// One frame of the session loop: every request of the frame is handled,
/// with the instructions decoded for it where it needs them.
fn run_frame(
    memory: &mut Memory,
    current: &mut Option<Address>,
    signals: &mut TabSignals,
    program: &[DecodedInstruction],
) -> Vec<Result<bool, SpanConflict>> {
    signals.new_frame();
    let mut discovered = Vec::new();
    let mut repopulate = false;
    let mut results = Vec::new();
    for i in 0..signals.len() {
        let decoded = match decode_request(signals.get(i), memory) {
            Some((address, bytes)) => decode_with(program, address.0, bytes.len()),
            None => None,
        };
        let r = handle_signal(memory, current, signals.get(i), decoded, &mut discovered);
        if let Ok(true) = r {
            repopulate = true;
        }
        results.push(r);
    }
    finish_frame(memory, signals, &discovered, repopulate);
    results
}

/// Loads `program` as the code of an ELF file and decompiles its entry point.
fn load_and_decompile(program: &[DecodedInstruction]) -> (Memory, AbstractSyntaxTree) {
    let base = program[0].inst_start;
    let size = (program[program.len() - 1].inst_next - base) as usize;
    let bytes = elf_with_code(base, &vec![0x90; size]);
    let mut memory = Memory::new();
    let mut signals = TabSignals::new();
    load(&bytes, &mut memory, &mut signals).expect("Failed to load test binary");
    let entry = signals
        .new_signals
        .iter()
        .find_map(|s| match s {
            SignalKind::DefineFunctionStart(a) => Some(*a),
            _ => None,
        })
        .expect("No entry point found in signals");
    let decoded = decode_with(program, entry.0, size);
    mark_instructions(entry, &mut memory, decoded);
    let hf = HighFunction::from_mem(entry, &memory).expect("a function at the entry point");
    let ast = AbstractSyntaxTree::new(&hf, &memory);
    (memory, ast)
}

fn simple_if() -> Vec<DecodedInstruction> {
    vec![
        instruction(0x401000, 0x401004, vec![
            op(Opcode::IntEqual, Some(tmp(0)), slot(reg(1)), konst(0)),
            op(Opcode::CBranch, None, konst(0x401008), slot(tmp(0))),
        ]),
        instruction(0x401004, 0x401008, vec![
            op(Opcode::Copy, Some(reg(2)), konst(1), Operand::Absent),
            op(Opcode::Branch, None, konst(0x40100c), Operand::Absent),
        ]),
        instruction(0x401008, 0x40100c, vec![op(Opcode::Copy, Some(reg(2)), konst(2), Operand::Absent)]),
        instruction(0x40100c, 0x40100d, vec![ret()]),
    ]
}

fn simple_loop() -> Vec<DecodedInstruction> {
    vec![
        instruction(0x401000, 0x401004, vec![op(Opcode::Copy, Some(reg(1)), konst(0), Operand::Absent)]),
        instruction(0x401004, 0x401008, vec![
            op(Opcode::IntLess, Some(tmp(0)), slot(reg(1)), konst(10)),
            op(Opcode::BoolNegate, Some(tmp(1)), slot(tmp(0)), Operand::Absent),
            op(Opcode::CBranch, None, konst(0x401010), slot(tmp(1))),
        ]),
        instruction(0x401008, 0x40100c, vec![op(Opcode::IntAdd, Some(reg(1)), slot(reg(1)), konst(1))]),
        instruction(0x40100c, 0x401010, vec![op(Opcode::Branch, None, konst(0x401004), Operand::Absent)]),
        instruction(0x401010, 0x401011, vec![ret()]),
    ]
}

/// `main` calls `helper` and hands `callback` on in a parameter slot.
fn function_calls() -> Vec<DecodedInstruction> {
    vec![
        instruction(0x401000, 0x401005, vec![
            op(Opcode::Copy, Some(reg(7)), konst(0x401010), Operand::Absent),
            op(Opcode::Call, None, konst(0x401008), Operand::Absent),
        ]),
        instruction(0x401005, 0x401008, vec![ret()]),
        instruction(0x401008, 0x401010, vec![
            op(Opcode::Copy, Some(reg(0)), konst(7), Operand::Absent),
            ret(),
        ]),
        instruction(0x401010, 0x401012, vec![ret()]),
    ]
}

fn nested_control() -> Vec<DecodedInstruction> {
    vec![
        instruction(0x401000, 0x401004, vec![
            op(Opcode::IntNotEqual, Some(tmp(0)), slot(reg(1)), konst(0)),
            op(Opcode::CBranch, None, konst(0x401010), slot(tmp(0))),
        ]),
        instruction(0x401004, 0x401008, vec![
            op(Opcode::IntNotEqual, Some(tmp(0)), slot(reg(2)), konst(0)),
            op(Opcode::CBranch, None, konst(0x401010), slot(tmp(0))),
        ]),
        instruction(0x401008, 0x401010, vec![op(Opcode::Copy, Some(reg(3)), konst(1), Operand::Absent)]),
        instruction(0x401010, 0x401011, vec![ret()]),
    ]
}

/// `fact(n)`: `if (n > 1) return n * fact(n - 1); return 1`
fn fact() -> Vec<DecodedInstruction> {
    vec![
        instruction(0x1189, 0x1190, vec![
            op(Opcode::IntSLessEqual, Some(tmp(0)), slot(reg(7)), konst(1)),
            op(Opcode::CBranch, None, konst(0x11a0), slot(tmp(0))),
        ]),
        instruction(0x1190, 0x1198, vec![
            op(Opcode::Copy, Some(reg(3)), slot(reg(7)), Operand::Absent),
            op(Opcode::IntSub, Some(reg(7)), slot(reg(7)), konst(1)),
            op(Opcode::Call, None, konst(0x1189), Operand::Absent),
        ]),
        instruction(0x1198, 0x11a0, vec![
            op(Opcode::IntMul, Some(reg(0)), slot(reg(0)), slot(reg(3))),
            ret(),
        ]),
        instruction(0x11a0, 0x11a6, vec![op(Opcode::Copy, Some(reg(0)), konst(1), Operand::Absent), ret()]),
    ]
}

fn count(statement: &AstStatement, wanted: &dyn Fn(&AstStatement) -> bool) -> usize {
    let own = if wanted(statement) { 1 } else { 0 };
    own + match statement {
        AstStatement::Block(statements) => statements.iter().map(|s| count(s, wanted)).sum(),
        AstStatement::If { true_statement, else_statement, .. } => {
            count(true_statement, wanted) + count(else_statement, wanted)
        }
        AstStatement::Loop { body, .. } => count(body, wanted),
        AstStatement::Function { body, .. } => count(body, wanted),
        _ => 0,
    }
}

#[test]
fn test_load_and_decompile_x86_64() {
    let (_memory, ast) = load_and_decompile(&simple_if());
    assert!(
        matches!(ast.entry(), AstStatement::Block(_)),
        "Expected AST to have a Block statement at entry"
    );
}

#[test]
fn test_load_simple_loop_x86_64() {
    let (_memory, ast) = load_and_decompile(&simple_loop());
    assert!(
        matches!(ast.entry(), AstStatement::Block(_)),
        "Expected AST to have a Block statement at entry"
    );
}

#[test]
fn test_load_function_calls_x86_64() {
    let (_memory, ast) = load_and_decompile(&function_calls());
    assert!(
        matches!(ast.entry(), AstStatement::Block(_)),
        "Expected AST to have a Block statement at entry"
    );
}

#[test]
fn test_load_nested_control_x86_64() {
    let (_memory, ast) = load_and_decompile(&nested_control());
    assert!(
        matches!(ast.entry(), AstStatement::Block(_)),
        "Expected AST to have a Block statement at entry"
    );
}

#[test]
fn test_multiple_functions_in_binary() {
    let (_memory, ast) = load_and_decompile(&function_calls());
    assert!(matches!(ast.entry(), AstStatement::Block(_)), "Expected AST to have a Block statement");
}

#[test]
fn test_simple_if_has_functions() {
    let (_memory, ast) = load_and_decompile(&simple_if());
    assert!(matches!(ast.entry(), AstStatement::Block(_)), "Expected AST to have a Block statement");
}

#[test]
fn test_decompile_entry_point() {
    let (_memory, ast) = load_and_decompile(&function_calls());
    assert!(
        matches!(ast.entry(), AstStatement::Block(_)),
        "Failed to create AST for entry point function"
    );
}

#[test]
fn test_fact_function_condition_rendering() {
    let program = fact();
    let mut memory = Memory::new();
    memory.insert_literal(LiteralState::from_bytes(Address(0x1189), vec![0x90; 0x1d])).unwrap();
    let fact_addr = Address(0x1189);
    mark_instructions(fact_addr, &mut memory, decode_with(&program, 0x1189, 0x1d));
    let hf = HighFunction::from_mem(fact_addr, &memory).unwrap();
    let ast = AbstractSyntaxTree::new(&hf, &memory);
    let has_if = count(ast.entry(), &|s| matches!(s, AstStatement::If { .. }));
    assert_eq!(has_if, 1);
    let mut conditions = Vec::new();
    if let AstStatement::Block(statements) = ast.entry() {
        for s in statements {
            if let AstStatement::If { condition, .. } = s {
                conditions.push(condition.duplicate());
            }
        }
    }
    let n = Expression::register(reg(7));
    assert_eq!(
        conditions,
        vec![Expression::binary(BinaryOp::SignedLessEqual, n, Expression::value(1, InstructionSize::U64))]
    );
}

#[test]
fn test_complex_condition_simplification() {
    // (n != 1) & (overflow == (n >= 1)) is not reduced to n > 1: the compound
    // flag test is left as it stands
    let n = Expression::register(reg(7));
    let one = Expression::value(1, InstructionSize::U64);
    let overflow = Expression::register(Storage { space: Space::Register, id: 0x20b, size: 1 });
    let not_one = Expression::binary(BinaryOp::NotEqual, n.duplicate(), one.duplicate());
    let at_least = Expression::binary(BinaryOp::SignedLessEqual, one.duplicate(), n.duplicate());
    let flags = Expression::binary(BinaryOp::Equal, overflow, at_least);
    let compound = Expression::binary(BinaryOp::And, not_one, flags);
    assert_eq!(simplify(&compound), compound);
}

#[test]
fn defining_a_function_records_it_and_finds_what_it_calls() {
    let program = function_calls();
    let mut memory = Memory::new();
    memory.conventions = Conventions::new(Some(reg(0)), vec![reg(7)]);
    memory.insert_literal(LiteralState::from_bytes(Address(0x401000), vec![0x90; 0x20])).unwrap();
    let mut current = None;
    let mut signals = TabSignals::new();
    signals.define_function(0x401000);
    let results = run_frame(&mut memory, &mut current, &mut signals, &program);
    assert_eq!(results, vec![Ok(true)]);
    assert_eq!(current, Some(Address(0x401000)));
    assert!(memory.functions.contains_key(Address(0x401000)));
    assert!(memory.ast.contains_key(Address(0x401000)));
    // the whole run was decoded: twelve bytes of instructions, the rest still data
    assert_eq!(memory.literal.len(), 2);
    assert_eq!(memory.literal.entry(0).0, Interval::new(Address(0x401000), Address(0x401012)));
    assert!(!memory.literal.entry(0).1.is_data());
    assert!(memory.literal.entry(1).1.is_data());
    // the function owns the blocks it reaches
    assert_eq!(memory.navigation.function_span.len(), 2);
    assert_eq!(
        *memory.navigation.function_span.entry(0),
        (Interval::new(Address(0x401000), Address(0x401005)), Address(0x401000))
    );
    assert_eq!(
        *memory.navigation.function_span.entry(1),
        (Interval::new(Address(0x401005), Address(0x401008)), Address(0x401000))
    );
    // its entry and its callee can be renamed
    assert_eq!(memory.symbols.resolve(Address(0x401000)).unwrap().name, "sub_401000");
    assert_eq!(memory.symbols.resolve(Address(0x401008)).unwrap().name, "sub_401008");
    // the callee is asked for: found from the call, and again by the scan of
    // the store, which also finds the pointer handed on in a parameter slot
    assert_eq!(
        signals.new_signals,
        vec![
            SignalKind::DefineFunctionStart(Address(0x401008)),
            SignalKind::DefineFunctionStart(Address(0x401008)),
            SignalKind::DefineFunctionStart(Address(0x401010)),
            SignalKind::RepopulateInstructionRows,
        ]
    );
    // the next frame analyses them
    let results = run_frame(&mut memory, &mut current, &mut signals, &program);
    assert_eq!(results, vec![Ok(false), Ok(false), Ok(false), Ok(false)]);
    assert_eq!(memory.functions.len(), 3);
    assert_eq!(current, Some(Address(0x401010)));
    assert!(signals.new_signals.is_empty());
    let view = NavigationView::new();
    assert_eq!(
        view.entries(&memory),
        vec![
            (Address(0x401000), "sub_401000".to_string()),
            (Address(0x401008), "sub_401008".to_string()),
            (Address(0x401010), "sub_401010".to_string()),
        ]
    );
}

#[test]
fn functions_never_share_a_range() {
    let program = function_calls();
    let mut memory = Memory::new();
    memory.insert_literal(LiteralState::from_bytes(Address(0x401000), vec![0x90; 0x12])).unwrap();
    let mut current = None;
    let mut discovered = Vec::new();
    let decoded = decode_with(&program, 0x401000, 0x12);
    assert_eq!(
        define_function(&mut memory, &mut current, Address(0x401000), decoded, &mut discovered),
        Ok(true)
    );
    assert_eq!(discovered, vec![Address(0x401008)]);
    // a function in the middle of the first would claim what the first owns
    let spans_before = memory.navigation.function_span.len();
    assert_eq!(
        define_function(&mut memory, &mut current, Address(0x401005), None, &mut discovered),
        Err(SpanConflict {
            range: Interval::new(Address(0x401005), Address(0x401008)),
            owner: Address(0x401000),
        })
    );
    assert_eq!(memory.navigation.function_span.len(), spans_before);
    assert!(!memory.functions.contains_key(Address(0x401005)));
    assert_eq!(current, Some(Address(0x401000)));
    // analysing the first again claims the same ranges again
    assert_eq!(
        define_function(&mut memory, &mut current, Address(0x401000), None, &mut discovered),
        Ok(false)
    );
    assert_eq!(memory.navigation.function_span.len(), spans_before);
    for i in 0..memory.navigation.function_span.len() {
        for j in 0..i {
            let a = memory.navigation.function_span.entry(i).0;
            let b = memory.navigation.function_span.entry(j).0;
            assert!(!a.overlaps(&b));
        }
    }
}

#[test]
fn requests_to_show_and_to_rename() {
    let program = simple_if();
    let mut memory = Memory::new();
    memory.insert_literal(LiteralState::from_bytes(Address(0x401000), vec![0x90; 0x0d])).unwrap();
    let mut current = None;
    let mut discovered = Vec::new();
    let decoded = decode_with(&program, 0x401000, 0x0d);
    define_function(&mut memory, &mut current, Address(0x401000), decoded, &mut discovered).unwrap();
    assert!(discovered.is_empty());
    // show
    request_position(&memory, &mut current, Address(0x401004));
    assert_eq!(current, Some(Address(0x401000)));
    let mut other = None;
    request_position(&memory, &mut other, Address(0x401000));
    assert_eq!(other, Some(Address(0x401000)));
    // rename a global
    let name = "main".to_string();
    rename_symbol(&mut memory, current, VariableSymbol::Ram(Address(0x401000)), &name);
    assert_eq!(memory.symbols.name_of(Address(0x401000)), "main");
    assert_eq!(NavigationView::new().entries(&memory), vec![(Address(0x401000), "main".to_string())]);
    // rename a local of the function that is shown
    let local = VariableSymbol::Slot(reg(2));
    assert_eq!(memory.ast.get(Address(0x401000)).unwrap().scope.name_of(reg(2)), "var_2");
    let r = handle_signal(
        &mut memory,
        &mut current,
        &SignalKind::RenameSymbol(local, "result".to_string()),
        None,
        &mut discovered,
    );
    assert_eq!(r, Ok(false));
    let tree = memory.ast.get(Address(0x401000)).unwrap();
    assert_eq!(tree.scope.name_of(reg(2)), "result");
    assert_eq!(tree.scope.find_owning_section(&local), Some(0));
    // temporaries are not defined, and renaming what is not there changes nothing
    assert_eq!(tree.scope.find_owning_section(&VariableSymbol::Slot(tmp(0))), None);
    rename_symbol(&mut memory, current, VariableSymbol::Slot(reg(9)), &name);
    rename_symbol(&mut memory, None, local, &name);
    assert_eq!(memory.ast.get(Address(0x401000)).unwrap().scope.name_of(reg(2)), "result");
    // notices do nothing
    assert_eq!(
        handle_signal(&mut memory, &mut current, &SignalKind::NewOpenFile, None, &mut discovered),
        Ok(false)
    );
}

#[test]
fn a_mark_request_decodes_from_its_address() {
    let program = simple_if();
    let mut memory = Memory::new();
    memory.insert_literal(LiteralState::from_bytes(Address(0x401000), vec![0x90; 0x10])).unwrap();
    let request = decode_request(&SignalKind::MarkInstruction(Address(0x401008)), &memory);
    assert_eq!(request, Some((Address(0x401008), vec![0x90; 8])));
    assert_eq!(decode_request(&SignalKind::RequestPos(Address(0x401008)), &memory), None);
    assert_eq!(decode_request(&SignalKind::MarkInstruction(Address(0x500000)), &memory), None);
    let mut current = None;
    let mut signals = TabSignals::new();
    signals.mark_instruction(Address(0x401008));
    let results = run_frame(&mut memory, &mut current, &mut signals, &program);
    assert_eq!(results, vec![Ok(true)]);
    assert_eq!(memory.literal.len(), 3);
    assert_eq!(memory.literal.entry(1).0, Interval::new(Address(0x401008), Address(0x40100d)));
    assert_eq!(memory.ir.len(), 2);
    assert_eq!(signals.new_signals, vec![SignalKind::RepopulateInstructionRows]);
    // a function that has been lifted needs no decoding
    assert_eq!(decode_request(&SignalKind::DefineFunctionStart(Address(0x401008)), &memory), None);
    assert_eq!(
        decode_request(&SignalKind::DefineFunctionStart(Address(0x401000)), &memory),
        Some((Address(0x401000), vec![0x90; 8]))
    );
}

#[test]
fn a_failed_decode_leaves_the_bytes_as_data() {
    let mut memory = Memory::new();
    memory.insert_literal(LiteralState::from_bytes(Address(0x401000), vec![0xff; 4])).unwrap();
    let mut current = None;
    let mut signals = TabSignals::new();
    signals.define_function(0x401000);
    let results = run_frame(&mut memory, &mut current, &mut signals, &[]);
    assert_eq!(results, vec![Ok(false)]);
    assert_eq!(memory.literal.len(), 1);
    assert!(memory.literal.entry(0).1.is_data());
    assert_eq!(memory.functions.len(), 0);
    assert_eq!(current, None);
    assert!(signals.new_signals.is_empty());
}

#[test]
fn discovery_skips_what_is_known() {
    let program = function_calls();
    let mut memory = Memory::new();
    memory.conventions = Conventions::new(None, vec![reg(7)]);
    memory.insert_literal(LiteralState::from_bytes(Address(0x401000), vec![0x90; 0x12])).unwrap();
    let mut current = None;
    let mut discovered = vec![Address(0x401008)];
    let decoded = decode_with(&program, 0x401000, 0x12);
    define_function(&mut memory, &mut current, Address(0x401000), decoded, &mut discovered).unwrap();
    assert_eq!(discovered, vec![Address(0x401008)]);
    let mut found = Vec::new();
    discover_functions_from_calls(Address(0x401000), &memory, &mut found);
    assert_eq!(found, vec![Address(0x401008)]);
    discover_functions_from_calls(Address(0x999999), &memory, &mut found);
    assert_eq!(found, vec![Address(0x401008)]);
    define_function(&mut memory, &mut current, Address(0x401008), None, &mut discovered).unwrap();
    let mut found = Vec::new();
    discover_functions_from_calls(Address(0x401000), &memory, &mut found);
    assert!(found.is_empty());
    let mut signals = TabSignals::new();
    discover_all_functions_from_ir(&memory, &mut signals);
    assert_eq!(signals.new_signals, vec![SignalKind::DefineFunctionStart(Address(0x401010))]);
}

#[test]
fn signals_wait_for_the_next_frame() {
    let mut signals = TabSignals::new();
    signals.request_pos(Address(1));
    signals.rename_symbol(VariableSymbol::Ram(Address(2)), "x".to_string());
    signals.new_open_file();
    assert_eq!(signals.len(), 0);
    signals.new_frame();
    assert_eq!(signals.len(), 3);
    assert_eq!(signals.get(0), &SignalKind::RequestPos(Address(1)));
    assert_eq!(signals.get(1), &SignalKind::RenameSymbol(VariableSymbol::Ram(Address(2)), "x".to_string()));
    assert_eq!(signals.get(2), &SignalKind::NewOpenFile);
    assert!(signals.new_signals.is_empty());
    signals.define_function(7);
    signals.new_frame();
    assert_eq!(signals.signals, vec![SignalKind::DefineFunctionStart(Address(7))]);
}
