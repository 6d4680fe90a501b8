//! The decisions of an analysis session: what each request of the views
//! does to the state, and which functions the analysis finds by itself.
//! Decoding is not done here: where a request needs instructions decoded,
//! the session says which bytes, and takes what the semantics engine made
//! of them.
use crate::address::{Address, Interval};
use crate::ir::abstract_syntax_tree::{function_locals, structured, AbstractSyntaxTree, StatementView};
use crate::ir::basic_block::terminator;
use crate::ir::conventions::ConventionsView;
use crate::ir::expression::{ExpressionOp, VariableSymbol};
use crate::ir::high_function::{
    call_target, called_by, claimed, composed, first_conflict, globals_named, FunctionView,
    HighFunction, SpanConflict,
};
use crate::ir::lift::{all_lifted, DestinationKind, LiftedInstruction, LiftedView, Operation};
use crate::ir::pcode::{DecodedInstruction, Storage};
use crate::ir::scope::{definition_of, renamed_local, DefinitionView};
use crate::memory::address_map::{has_key, keys_below, key_position, put, same_keys, same_keys_agree};
use crate::memory::marking::{mark_instructions, markable, marked, pending, pending_bytes, run_view};
use crate::memory::{content, Memory};
use crate::symbol_resolver::{renamed, resolved};
use crate::tab_viewer::signals::{SignalKind, TabSignals};
use vstd::prelude::*;

verus! {

/// Whether the store holds an instruction that starts at `a`.
pub open spec fn lifted_at(s: Seq<(Interval, LiftedView)>, a: Address) -> bool {
    exists|i: int| 0 <= i < s.len() && (#[trigger] s[i]).1.address == a.0
}

/// The analysed functions, each by its view.
pub open spec fn function_views(s: Seq<(Address, HighFunction)>) -> Seq<(Address, FunctionView)> {
    s.map_values(|e: (Address, HighFunction)| (e.0, e.1@))
}

/// A structured function as plain values: its statements and the names of
/// its storage.
pub struct TreeView {
    pub statements: StatementView,
    pub names: Seq<Seq<DefinitionView>>,
}

/// The structured functions, each by its view.
pub open spec fn tree_views(s: Seq<(Address, AbstractSyntaxTree)>) -> Seq<(Address, TreeView)> {
    s.map_values(
        |e: (Address, AbstractSyntaxTree)| (e.0, TreeView { statements: e.1@, names: e.1.names() }),
    )
}

/// The function analysed at `key`.
pub open spec fn function_at(s: Seq<(Address, FunctionView)>, key: Address) -> Option<FunctionView> {
    if has_key(s, key) {
        Some(s[keys_below(s, key.0 as int)].1)
    } else {
        None
    }
}

/// The addresses that the blocks of `f` call, from the block `i` on, behind
/// those `found` before. An address is left out where a function has been
/// analysed there or where it has been found already.
pub open spec fn calls_found(
    f: FunctionView,
    known: Seq<(Address, FunctionView)>,
    found: Seq<Address>,
    i: int,
) -> Seq<Address>
    decreases f.blocks.len() - i,
{
    if i < 0 || i >= f.blocks.len() || f.member.len() != f.blocks.len() {
        found
    } else {
        let next = match call_target(f.blocks[i]) {
            Some(a) => if f.member[i] && !has_key(known, a) && !found.contains(a) {
                found.push(a)
            } else {
                found
            },
            None => found,
        };
        calls_found(f, known, next, i + 1)
    }
}

/// The address that an instruction calls, where it ends in a call to a
/// known address.
pub open spec fn called(v: LiftedView) -> Option<Address> {
    match terminator(v.operations) {
        Some(Operation::Call { destination: DestinationKind::Concrete(a) }) => Some(a),
        _ => None,
    }
}

/// The address that an operation loads into a parameter slot as a
/// constant: a likely pointer to a function that is handed on.
pub open spec fn pointer_in(op: Operation, c: ConventionsView) -> Option<Address> {
    match op {
        Operation::Assign { slot, value } => if c.parameter_slots.contains(slot) {
            match value.op {
                ExpressionOp::Value(v) => Some(Address(v)),
                _ => None,
            }
        } else {
            None
        },
        _ => None,
    }
}

/// The requests after the operations from the `i`-th on have been scanned
/// for pointers to functions: a constant loaded into a parameter slot asks
/// for a function where an instruction starts there and no function has
/// been analysed there.
pub open spec fn pointers_scanned(
    requests: Seq<SignalKind>,
    s: Seq<(Interval, LiftedView)>,
    known: Seq<(Address, FunctionView)>,
    c: ConventionsView,
    ops: Seq<Operation>,
    i: int,
) -> Seq<SignalKind>
    decreases ops.len() - i,
{
    if i < 0 || i >= ops.len() {
        requests
    } else {
        let next = match pointer_in(ops[i], c) {
            Some(a) => if lifted_at(s, a) && !has_key(known, a) {
                requests.push(SignalKind::DefineFunctionStart(a))
            } else {
                requests
            },
            None => requests,
        };
        pointers_scanned(next, s, known, c, ops, i + 1)
    }
}

/// The requests after one instruction has been scanned: first for a call
/// to a known address where no function has been analysed, then for
/// pointers to functions.
pub open spec fn instruction_scanned(
    requests: Seq<SignalKind>,
    s: Seq<(Interval, LiftedView)>,
    known: Seq<(Address, FunctionView)>,
    c: ConventionsView,
    v: LiftedView,
) -> Seq<SignalKind> {
    let first = match called(v) {
        Some(a) => if !has_key(known, a) {
            requests.push(SignalKind::DefineFunctionStart(a))
        } else {
            requests
        },
        None => requests,
    };
    pointers_scanned(first, s, known, c, v.operations, 0)
}

/// The requests after the instructions of the store from the `j`-th on
/// have been scanned.
pub open spec fn store_scanned(
    requests: Seq<SignalKind>,
    s: Seq<(Interval, LiftedView)>,
    known: Seq<(Address, FunctionView)>,
    c: ConventionsView,
    j: int,
) -> Seq<SignalKind>
    decreases s.len() - j,
{
    if j < 0 || j >= s.len() {
        requests
    } else {
        store_scanned(instruction_scanned(requests, s, known, c, s[j].1), s, known, c, j + 1)
    }
}

fn listed(list: &Vec<Address>, a: Address) -> (b: bool)
    ensures
        b == list@.contains(a),
{
    let mut i: usize = 0;
    while i < list.len()
        invariant
            i <= list@.len(),
            forall|k: int| 0 <= k < i ==> list@[k] != a,
        decreases list@.len() - i,
    {
        if list[i] == a {
            return true;
        }
        i += 1;
    }
    false
}

fn is_parameter(slots: &Vec<Storage>, slot: Storage) -> (b: bool)
    ensures
        b == slots@.contains(slot),
{
    let mut i: usize = 0;
    while i < slots.len()
        invariant
            i <= slots@.len(),
            forall|k: int| 0 <= k < i ==> slots@[k] != slot,
        decreases slots@.len() - i,
    {
        if slots[i] == slot {
            return true;
        }
        i += 1;
    }
    false
}

fn known_function(memory: &Memory, a: Address) -> (b: bool)
    requires
        memory.wf(),
    ensures
        b == has_key(function_views(memory.functions@), a),
{
    proof {
        same_keys_agree(memory.functions@, function_views(memory.functions@), a);
    }
    memory.functions.contains_key(a)
}

/// Adds to `discovered` the addresses that the function at `func_addr`
/// calls and that have neither been analysed nor been found already.
pub fn discover_functions_from_calls(func_addr: Address, memory: &Memory, discovered: &mut Vec<Address>)
    requires
        memory.wf(),
    ensures
        final(discovered)@ == match function_at(function_views(memory.functions@), func_addr) {
            Some(f) => calls_found(f, function_views(memory.functions@), old(discovered)@, 0),
            None => old(discovered)@,
        },
{
    let ghost known = function_views(memory.functions@);
    proof {
        same_keys_agree(memory.functions@, known, func_addr);
    }
    let hf = match memory.functions.get(func_addr) {
        Some(hf) => hf,
        None => {
            return ;
        },
    };
    let ghost f = hf@;
    proof {
        let k = keys_below(memory.functions@, func_addr.0 as int);
        crate::memory::address_map::keys_below_bounds(memory.functions@, func_addr.0 as int);
        assert(known[k] == (memory.functions@[k].0, memory.functions@[k].1@));
        assert(memory.functions@[k].1.wf());
    }
    let n = hf.len();
    let mut i: usize = 0;
    while i < n
        invariant
            i <= n,
            n == f.blocks.len(),
            f == hf@,
            hf.wf(),
            memory.wf(),
            known == function_views(memory.functions@),
            calls_found(f, known, discovered@, i as int) == calls_found(f, known, old(discovered)@, 0),
        decreases n - i,
    {
        proof {
            crate::ir::high_function::slot_of_bounds(f.blocks, f.entry, 0);
        }
        match called_by(hf.block(i)) {
            Some(a) => {
                if hf.is_member(i) && !known_function(memory, a) && !listed(discovered, a) {
                    discovered.push(a);
                }
            },
            None => {},
        }
        i += 1;
    }
}

fn called_of(instruction: &LiftedInstruction) -> (r: Option<Address>)
    ensures
        r == called(instruction@),
{
    if instruction.operations.len() == 0 {
        return None;
    }
    match &instruction.operations[instruction.operations.len() - 1] {
        Operation::Call { destination } => match destination {
            DestinationKind::Concrete(a) => Some(*a),
            DestinationKind::Unknown => None,
        },
        _ => None,
    }
}

fn pointer_of(op: &Operation, memory: &Memory) -> (r: Option<Address>)
    ensures
        r == pointer_in(*op, memory.conventions@),
{
    match op {
        Operation::Assign { slot, value } => {
            if is_parameter(&memory.conventions.parameter_slots, *slot) {
                match value.as_constant() {
                    Some(v) => Some(Address(v)),
                    None => None,
                }
            } else {
                None
            }
        },
        _ => None,
    }
}

/// Scans every lifted instruction for functions that have not been
/// analysed, and asks for each to be: the known addresses that are called,
/// and the constants that are loaded into parameter slots and point at
/// lifted code.
pub fn discover_all_functions_from_ir(memory: &Memory, signals: &mut TabSignals)
    requires
        memory.wf(),
    ensures
        final(signals).signals@ == old(signals).signals@,
        final(signals).new_signals@ == store_scanned(
            old(signals).new_signals@,
            memory.ir@,
            function_views(memory.functions@),
            memory.conventions@,
            0,
        ),
{
    let ghost s = memory.ir@;
    let ghost known = function_views(memory.functions@);
    let ghost c = memory.conventions@;
    let n = memory.ir.len();
    let mut j: usize = 0;
    while j < n
        invariant
            j <= n,
            n == s.len(),
            s == memory.ir@,
            known == function_views(memory.functions@),
            c == memory.conventions@,
            memory.wf(),
            signals.signals@ == old(signals).signals@,
            store_scanned(signals.new_signals@, s, known, c, j as int) == store_scanned(
                old(signals).new_signals@,
                s,
                known,
                c,
                0,
            ),
        decreases n - j,
    {
        let instruction = memory.ir.instruction(j);
        let ghost goal = instruction_scanned(signals.new_signals@, s, known, c, s[j as int].1);
        match called_of(instruction) {
            Some(a) => {
                if !known_function(memory, a) {
                    signals.define_function(a.0);
                }
            },
            None => {},
        }
        let mut i: usize = 0;
        while i < instruction.operations.len()
            invariant
                i <= instruction.operations@.len(),
                instruction@ == s[j as int].1,
                s == memory.ir@,
                known == function_views(memory.functions@),
                c == memory.conventions@,
                memory.wf(),
                signals.signals@ == old(signals).signals@,
                pointers_scanned(signals.new_signals@, s, known, c, instruction.operations@, i as int)
                    == goal,
            decreases instruction.operations@.len() - i,
        {
            match pointer_of(&instruction.operations[i], memory) {
                Some(a) => {
                    let lifted = memory.ir.position(a).is_some();
                    assert(lifted == lifted_at(s, a));
                    if lifted && !known_function(memory, a) {
                        signals.define_function(a.0);
                    }
                },
                None => {},
            }
            i += 1;
        }
        j += 1;
    }
}

/// The address at which a request needs instructions decoded: where it
/// asks for marking, and where it asks for a function of which nothing has
/// been lifted yet.
pub open spec fn decode_target(signal: SignalKind, s: Seq<(Interval, LiftedView)>) -> Option<Address> {
    match signal {
        SignalKind::MarkInstruction(a) => Some(a),
        SignalKind::DefineFunctionStart(f) => if lifted_at(s, f) {
            None
        } else {
            Some(f)
        },
        _ => None,
    }
}

/// The bytes that the semantics engine is to decode before `signal` is
/// handled, with the address of the first: nothing where the request needs
/// no decoding or where there are no undecided bytes at its address.
pub fn decode_request(signal: &SignalKind, memory: &Memory) -> (r: Option<(Address, Vec<u8>)>)
    requires
        memory.wf(),
    ensures
        match decode_target(*signal, memory.ir@) {
            Some(a) => match pending(content(memory.literal@), a) {
                Some(bytes) => r is Some && r->Some_0.0 == a && r->Some_0.1@ == bytes,
                None => r is None,
            },
            None => r is None,
        },
{
    let target = match signal {
        SignalKind::MarkInstruction(a) => Some(*a),
        SignalKind::DefineFunctionStart(f) => {
            if memory.ir.position(*f).is_some() {
                None
            } else {
                Some(*f)
            }
        },
        _ => None,
    };
    match target {
        Some(a) => match pending_bytes(a, memory) {
            Some(bytes) => Some((a, bytes)),
            None => None,
        },
        None => None,
    }
}

/// What a request to show a function does: the function at `a` becomes the
/// one shown if it has been analysed.
pub fn request_position(memory: &Memory, current_function: &mut Option<Address>, a: Address)
    requires
        memory.wf(),
    ensures
        *final(current_function) == if has_key(function_views(memory.functions@), a) {
            Some(a)
        } else {
            *old(current_function)
        },
{
    if known_function(memory, a) {
        *current_function = Some(a);
    }
}

/// The structured functions after `var` has been renamed in the function
/// that is shown.
pub open spec fn locally_renamed(
    trees: Seq<(Address, TreeView)>,
    current: Option<Address>,
    var: VariableSymbol,
    name: Seq<char>,
) -> Seq<(Address, TreeView)> {
    match current {
        Some(f) => if has_key(trees, f) {
            let k = keys_below(trees, f.0 as int);
            trees.update(
                k,
                (
                    f,
                    TreeView {
                        statements: trees[k].1.statements,
                        names: renamed_local(trees[k].1.names, var, name),
                    },
                ),
            )
        } else {
            trees
        },
        None => trees,
    }
}

/// The address whose global symbol a rename of `var` changes, if it
/// changes one: `var` is an address that has a symbol.
pub open spec fn global_target(symbols: Seq<crate::symbol_resolver::SymbolView>, var: VariableSymbol) -> Option<
    Address,
> {
    match var {
        VariableSymbol::Ram(a) => if resolved(symbols, a) is Some {
            Some(a)
        } else {
            None
        },
        VariableSymbol::Slot(_) => None,
    }
}

/// What a rename does: an address with a symbol gets the name in the
/// symbol table; anything else gets it in the function that is shown, if
/// that function defines it. Nothing else changes.
pub open spec fn rename_post(
    before: Memory,
    after: Memory,
    current: Option<Address>,
    var: VariableSymbol,
    name: Seq<char>,
) -> bool {
    &&& after.literal == before.literal
    &&& after.navigation == before.navigation
    &&& after.ir == before.ir
    &&& after.functions == before.functions
    &&& after.conventions == before.conventions
    &&& match global_target(before.symbols@, var) {
        Some(a) => after.symbols@ == renamed(before.symbols@, a, name) && tree_views(after.ast@)
            == tree_views(before.ast@),
        None => after.symbols@ == before.symbols@ && tree_views(after.ast@) == locally_renamed(
            tree_views(before.ast@),
            current,
            var,
            name,
        ),
    }
}

/// Renames a symbol.
pub fn rename_symbol(memory: &mut Memory, current_function: Option<Address>, var: VariableSymbol, name: &String)
    requires
        old(memory).wf(),
    ensures
        final(memory).wf(),
        rename_post(*old(memory), *final(memory), current_function, var, name@),
{
    match var {
        VariableSymbol::Ram(a) => {
            if memory.symbols.rename(a, name.clone()) {
                return ;
            }
        },
        VariableSymbol::Slot(_) => {},
    }
    let ghost trees = tree_views(memory.ast@);
    let ghost before = memory.ast@;
    match current_function {
        Some(f) => {
            proof {
                same_keys_agree(before, trees, f);
                if has_key(before, f) {
                    crate::memory::address_map::keys_below_bounds(before, f.0 as int);
                    key_position(before, f);
                }
            }
            match memory.ast.get_mut(f) {
                Some(tree) => {
                    let _ = tree.rename_local(&var, name.clone());
                },
                None => {},
            }
            proof {
                assert(tree_views(memory.ast@) =~= locally_renamed(trees, current_function, var, name@));
            }
        },
        None => {},
    }
}

/// What defining a function at `f` does. Where nothing has been lifted at
/// `f`, the decoded run is marked and lifted first. Then the function is
/// composed from the store; where no instruction starts at `f` that is all.
/// The function claims its ranges; where another function owns one of them
/// the claim fails, the conflict is reported, and the function is not
/// recorded. Otherwise its symbols are made, it is structured and recorded,
/// it becomes the function shown, and the addresses it calls are added to
/// those found.
pub open spec fn define_post(
    before: Memory,
    after: Memory,
    current_before: Option<Address>,
    current_after: Option<Address>,
    f: Address,
    decoded: Option<Seq<DecodedInstruction>>,
    found_before: Seq<Address>,
    found_after: Seq<Address>,
    r: Result<bool, SpanConflict>,
) -> bool {
    let fresh = !lifted_at(before.ir@, f);
    let changed = fresh && markable(content(before.literal@), f, decoded);
    let kept = {
        &&& after.symbols@ == before.symbols@
        &&& after.navigation.function_span@ == before.navigation.function_span@
        &&& function_views(after.functions@) == function_views(before.functions@)
        &&& tree_views(after.ast@) == tree_views(before.ast@)
        &&& current_after == current_before
        &&& found_after == found_before
    };
    &&& after.conventions == before.conventions
    &&& after.navigation.sections == before.navigation.sections
    &&& content(after.literal@) == if fresh {
        marked(content(before.literal@), f, decoded)
    } else {
        content(before.literal@)
    }
    &&& after.ir@ == if changed {
        all_lifted(before.ir@, decoded->Some_0, 0)
    } else {
        before.ir@
    }
    &&& match composed(after.ir@, f) {
        None => r == Ok::<bool, SpanConflict>(changed) && kept,
        Some(g) => match first_conflict(before.navigation.function_span@, g, 0) {
            Some(conflict) => r == Err::<bool, SpanConflict>(conflict) && kept,
            None => {
                &&& r == Ok::<bool, SpanConflict>(changed)
                &&& after.navigation.function_span@ == claimed(
                    before.navigation.function_span@,
                    g,
                    0,
                )
                &&& after.symbols@ == globals_named(before.symbols@, g)
                &&& function_views(after.functions@) == put(
                    function_views(before.functions@),
                    f,
                    g,
                )
                &&& tree_views(after.ast@) == put(
                    tree_views(before.ast@),
                    f,
                    TreeView {
                        statements: structured(g, before.conventions@),
                        names: seq![function_locals(Seq::empty(), g, 0)],
                    },
                )
                &&& current_after == Some(f)
                &&& found_after == calls_found(g, function_views(after.functions@), found_before, 0)
            },
        },
    }
}

/// Marks and lifts the run decoded at `f`, unless something has been
/// lifted at `f` already.
pub fn lift_if_missing(memory: &mut Memory, f: Address, decoded: Option<Vec<DecodedInstruction>>) -> (changed:
    bool)
    requires
        old(memory).wf(),
    ensures
        final(memory).wf(),
        final(memory).symbols == old(memory).symbols,
        final(memory).navigation == old(memory).navigation,
        final(memory).functions == old(memory).functions,
        final(memory).ast == old(memory).ast,
        final(memory).conventions == old(memory).conventions,
        changed == (!lifted_at(old(memory).ir@, f) && markable(
            content(old(memory).literal@),
            f,
            run_view(decoded),
        )),
        content(final(memory).literal@) == if !lifted_at(old(memory).ir@, f) {
            marked(content(old(memory).literal@), f, run_view(decoded))
        } else {
            content(old(memory).literal@)
        },
        final(memory).ir@ == if changed {
            all_lifted(old(memory).ir@, decoded->Some_0@, 0)
        } else {
            old(memory).ir@
        },
{
    if memory.ir.position(f).is_none() {
        mark_instructions(f, memory, decoded)
    } else {
        false
    }
}

/// Records a function that has claimed its ranges: makes its symbols,
/// structures it, stores it with its structured form, shows it, and adds
/// the addresses it calls to those found.
pub fn record_function(
    memory: &mut Memory,
    current_function: &mut Option<Address>,
    hf: HighFunction,
    discovered: &mut Vec<Address>,
)
    requires
        old(memory).wf(),
        hf.wf(),
    ensures
        final(memory).wf(),
        final(memory).literal == old(memory).literal,
        final(memory).navigation == old(memory).navigation,
        final(memory).ir == old(memory).ir,
        final(memory).conventions == old(memory).conventions,
        final(memory).symbols@ == globals_named(old(memory).symbols@, hf@),
        function_views(final(memory).functions@) == put(
            function_views(old(memory).functions@),
            hf@.entry,
            hf@,
        ),
        tree_views(final(memory).ast@) == put(
            tree_views(old(memory).ast@),
            hf@.entry,
            TreeView {
                statements: structured(hf@, old(memory).conventions@),
                names: seq![function_locals(Seq::empty(), hf@, 0)],
            },
        ),
        *final(current_function) == Some(hf@.entry),
        final(discovered)@ == calls_found(
            hf@,
            function_views(final(memory).functions@),
            old(discovered)@,
            0,
        ),
{
    let f = hf.entry();
    let ghost g = hf@;
    hf.fill_global_symbols(memory);
    let tree = hf.build_ast(memory);
    let ghost tree_view = TreeView { statements: tree@, names: tree.names() };
    store_tree(memory, f, tree);
    store_function(memory, hf);
    *current_function = Some(f);
    discover_functions_from_calls(f, memory, discovered);
}

fn store_tree(memory: &mut Memory, f: Address, tree: AbstractSyntaxTree)
    requires
        old(memory).wf(),
    ensures
        final(memory).wf(),
        final(memory).literal == old(memory).literal,
        final(memory).navigation == old(memory).navigation,
        final(memory).ir == old(memory).ir,
        final(memory).conventions == old(memory).conventions,
        final(memory).symbols == old(memory).symbols,
        final(memory).functions == old(memory).functions,
        tree_views(final(memory).ast@) == put(
            tree_views(old(memory).ast@),
            f,
            TreeView { statements: tree@, names: tree.names() },
        ),
{
    let ghost trees_before = memory.ast@;
    proof {
        same_keys_agree(trees_before, tree_views(trees_before), f);
        crate::memory::address_map::keys_below_bounds(trees_before, f.0 as int);
    }
    let _ = memory.ast.insert(f, tree);
    assert(tree_views(memory.ast@) =~= put(
        tree_views(trees_before),
        f,
        TreeView { statements: tree@, names: tree.names() },
    ));
}

fn store_function(memory: &mut Memory, hf: HighFunction)
    requires
        old(memory).wf(),
        hf.wf(),
    ensures
        final(memory).wf(),
        final(memory).literal == old(memory).literal,
        final(memory).navigation == old(memory).navigation,
        final(memory).ir == old(memory).ir,
        final(memory).conventions == old(memory).conventions,
        final(memory).symbols == old(memory).symbols,
        final(memory).ast == old(memory).ast,
        function_views(final(memory).functions@) == put(
            function_views(old(memory).functions@),
            hf@.entry,
            hf@,
        ),
        function_at(function_views(final(memory).functions@), hf@.entry) == Some(hf@),
{
    let f = hf.entry();
    let ghost g = hf@;
    let ghost functions_before = memory.functions@;
    proof {
        same_keys_agree(functions_before, function_views(functions_before), f);
        crate::memory::address_map::keys_below_bounds(functions_before, f.0 as int);
    }
    let _ = memory.functions.insert(f, hf);
    proof {
        assert(function_views(memory.functions@) =~= put(function_views(functions_before), f, g));
        let now = memory.functions@;
        let views = function_views(now);
        let k = keys_below(functions_before, f.0 as int);
        assert(now[k].0 == f);
        key_position(now, f);
        same_keys_agree(now, views, f);
        assert(views[k] == (now[k].0, now[k].1@));
        assert(function_at(views, f) == Some(g));
        assert forall|i: int| 0 <= i < now.len() implies (#[trigger] now[i]).1.wf() by {
            let k = keys_below(functions_before, f.0 as int);
            if has_key(functions_before, f) {
                if i != k {
                    assert(now[i] == functions_before[i]);
                }
            } else {
                if i < k {
                    assert(now[i] == functions_before[i]);
                } else if i > k {
                    assert(now[i] == functions_before[i - 1]);
                }
            }
        }
    }
}

/// Defines the function at `f`, given what the semantics engine decoded
/// there if it was asked.
pub fn define_function(
    memory: &mut Memory,
    current_function: &mut Option<Address>,
    f: Address,
    decoded: Option<Vec<DecodedInstruction>>,
    discovered: &mut Vec<Address>,
) -> (r: Result<bool, SpanConflict>)
    requires
        old(memory).wf(),
    ensures
        final(memory).wf(),
        define_post(
            *old(memory),
            *final(memory),
            *old(current_function),
            *final(current_function),
            f,
            run_view(decoded),
            old(discovered)@,
            final(discovered)@,
            r,
        ),
{
    let changed = lift_if_missing(memory, f, decoded);
    let hf = match HighFunction::from_mem(f, memory) {
        Some(hf) => hf,
        None => {
            return Ok(changed);
        },
    };
    proof {
        crate::ir::high_function::slot_of_bounds(hf@.blocks, f, 0);
    }
    match hf.take_interval_ownership(&mut memory.navigation.function_span) {
        Ok(_) => {},
        Err(conflict) => {
            return Err(conflict);
        },
    }
    record_function(memory, current_function, hf, discovered);
    Ok(changed)
}

/// What handling a request does to the state.
pub open spec fn signal_post(
    signal: SignalKind,
    before: Memory,
    after: Memory,
    current_before: Option<Address>,
    current_after: Option<Address>,
    decoded: Option<Seq<DecodedInstruction>>,
    found_before: Seq<Address>,
    found_after: Seq<Address>,
    r: Result<bool, SpanConflict>,
) -> bool {
    match signal {
        SignalKind::NewOpenFile => after == before && current_after == current_before
            && found_after == found_before && r == Ok::<bool, SpanConflict>(false),
        SignalKind::RepopulateInstructionRows => after == before && current_after == current_before
            && found_after == found_before && r == Ok::<bool, SpanConflict>(false),
        SignalKind::RequestPos(a) => after == before && found_after == found_before && r == Ok::<
            bool,
            SpanConflict,
        >(false) && current_after == if has_key(function_views(before.functions@), a) {
            Some(a)
        } else {
            current_before
        },
        SignalKind::RenameSymbol(var, name) => rename_post(before, after, current_before, var, name@)
            && current_after == current_before && found_after == found_before && r == Ok::<
            bool,
            SpanConflict,
        >(false),
        SignalKind::DefineFunctionStart(f) => define_post(
            before,
            after,
            current_before,
            current_after,
            f,
            decoded,
            found_before,
            found_after,
            r,
        ),
        SignalKind::MarkInstruction(a) => {
            &&& current_after == current_before
            &&& found_after == found_before
            &&& after.symbols == before.symbols
            &&& after.navigation == before.navigation
            &&& after.functions == before.functions
            &&& after.ast == before.ast
            &&& after.conventions == before.conventions
            &&& r == Ok::<bool, SpanConflict>(markable(content(before.literal@), a, decoded))
            &&& content(after.literal@) == marked(content(before.literal@), a, decoded)
            &&& after.literal.covered() == before.literal.covered()
            &&& after.ir@ == if markable(content(before.literal@), a, decoded) {
                all_lifted(before.ir@, decoded->Some_0, 0)
            } else {
                before.ir@
            }
        },
    }
}

/// Handles one request of the views, given what the semantics engine
/// decoded for it if it was asked. Says whether the listing has changed,
/// or which claim of another function stood in the way.
pub fn handle_signal(
    memory: &mut Memory,
    current_function: &mut Option<Address>,
    signal: &SignalKind,
    decoded: Option<Vec<DecodedInstruction>>,
    discovered: &mut Vec<Address>,
) -> (r: Result<bool, SpanConflict>)
    requires
        old(memory).wf(),
    ensures
        final(memory).wf(),
        signal_post(
            *signal,
            *old(memory),
            *final(memory),
            *old(current_function),
            *final(current_function),
            run_view(decoded),
            old(discovered)@,
            final(discovered)@,
            r,
        ),
{
    match signal {
        SignalKind::NewOpenFile => Ok(false),
        SignalKind::RepopulateInstructionRows => Ok(false),
        SignalKind::RequestPos(a) => {
            request_position(memory, current_function, *a);
            Ok(false)
        },
        SignalKind::RenameSymbol(var, name) => {
            rename_symbol(memory, *current_function, *var, name);
            Ok(false)
        },
        SignalKind::DefineFunctionStart(f) => define_function(
            memory,
            current_function,
            *f,
            decoded,
            discovered,
        ),
        SignalKind::MarkInstruction(a) => Ok(mark_instructions(*a, memory, decoded)),
    }
}

/// The requests after each address of `discovered`, from the `i`-th on,
/// has been asked for as a function.
pub open spec fn queued(requests: Seq<SignalKind>, discovered: Seq<Address>, i: int) -> Seq<SignalKind>
    decreases discovered.len() - i,
{
    if i < 0 || i >= discovered.len() {
        requests
    } else {
        queued(requests.push(SignalKind::DefineFunctionStart(discovered[i])), discovered, i + 1)
    }
}

/// Ends a frame: asks for the functions found while the requests were
/// handled, scans the whole store for more, and tells the views where the
/// listing has changed.
pub fn finish_frame(memory: &Memory, signals: &mut TabSignals, discovered: &Vec<Address>, repopulate: bool)
    requires
        memory.wf(),
    ensures
        final(signals).signals@ == old(signals).signals@,
        final(signals).new_signals@ == {
            let scanned = store_scanned(
                queued(old(signals).new_signals@, discovered@, 0),
                memory.ir@,
                function_views(memory.functions@),
                memory.conventions@,
                0,
            );
            if repopulate {
                scanned.push(SignalKind::RepopulateInstructionRows)
            } else {
                scanned
            }
        },
{
    let mut i: usize = 0;
    while i < discovered.len()
        invariant
            i <= discovered@.len(),
            signals.signals@ == old(signals).signals@,
            queued(signals.new_signals@, discovered@, i as int) == queued(
                old(signals).new_signals@,
                discovered@,
                0,
            ),
        decreases discovered@.len() - i,
    {
        signals.define_function(discovered[i].0);
        i += 1;
    }
    discover_all_functions_from_ir(memory, signals);
    if repopulate {
        signals.repopulate_instruction_rows();
    }
}

} // verus!
