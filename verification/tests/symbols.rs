use bin_ast::address::Address;
use bin_ast::ir::expression::VariableSymbol;
use bin_ast::ir::pcode::{Space, Storage};
use bin_ast::ir::scope::Scope;
use bin_ast::ir::type_system::VariableType;
use bin_ast::symbol_resolver::SymbolTable;
use bin_ast::text::{decimal_string, hex_string, prefixed_hex, upper_hex_string};

fn reg(id: u64) -> Storage {
    Storage { space: Space::Register, id, size: 8 }
}

#[test]
fn numbers_become_text() {
    assert_eq!(hex_string(0), "0");
    assert_eq!(hex_string(0x1f), "1f");
    assert_eq!(hex_string(0xdead_beef), "deadbeef");
    assert_eq!(hex_string(u64::MAX), "ffffffffffffffff");
    assert_eq!(upper_hex_string(0x1f), "1F");
    assert_eq!(upper_hex_string(0xabc), "ABC");
    assert_eq!(upper_hex_string(9), "9");
    assert_eq!(decimal_string(0), "0");
    assert_eq!(decimal_string(183), "183");
    assert_eq!(decimal_string(u64::MAX), "18446744073709551615");
    assert_eq!(prefixed_hex("sub_", 0x401000), "sub_401000");
}

#[test]
fn symbols_are_added_and_resolved() {
    let mut table = SymbolTable::new();
    assert!(table.resolve(Address(0x10)).is_none());
    table.add(Address(0x10), 8, "start".to_string());
    table.add(Address(0x20), 4, "other".to_string());
    assert_eq!(table.len(), 2);
    let symbol = table.resolve(Address(0x10)).unwrap();
    assert_eq!((symbol.address, symbol.size, symbol.name.as_str()), (Address(0x10), 8, "start"));
    // adding again replaces in place
    table.add(Address(0x10), 2, "again".to_string());
    assert_eq!(table.len(), 2);
    assert_eq!(table.symbol(0).name, "again");
    assert_eq!(table.symbol(0).size, 2);
    assert_eq!(table.position(Address(0x20)), Some(1));
}

#[test]
fn unresolved_addresses_get_a_synthetic_name() {
    let mut table = SymbolTable::new();
    table.add(Address(0x10), 8, "start".to_string());
    assert_eq!(table.name_of(Address(0x10)), "start");
    assert_eq!(table.name_of(Address(0x401136)), "sub_401136");
    assert_eq!(table.name_of(Address(0)), "sub_0");
    table.ensure(Address(0x401136));
    table.ensure(Address(0x10));
    assert_eq!(table.len(), 2);
    assert_eq!(table.resolve(Address(0x401136)).unwrap().name, "sub_401136");
    assert_eq!(table.resolve(Address(0x10)).unwrap().name, "start");
}

#[test]
fn renaming_to_the_current_name_changes_nothing() {
    let mut table = SymbolTable::new();
    table.add(Address(0x10), 8, "start".to_string());
    table.add(Address(0x20), 4, "other".to_string());
    assert!(table.rename(Address(0x10), "start".to_string()));
    assert_eq!(table.len(), 2);
    assert_eq!(table.symbol(0).name, "start");
    assert_eq!(table.symbol(0).address, Address(0x10));
    assert_eq!(table.symbol(0).size, 8);
    assert_eq!(table.symbol(1).name, "other");
}

#[test]
fn renaming_then_resolving_gives_the_new_name() {
    let mut table = SymbolTable::new();
    table.add(Address(0x10), 8, "start".to_string());
    table.add(Address(0x20), 4, "other".to_string());
    assert!(table.rename(Address(0x20), "main".to_string()));
    let symbol = table.resolve(Address(0x20)).unwrap();
    assert_eq!((symbol.address, symbol.size, symbol.name.as_str()), (Address(0x20), 4, "main"));
    assert_eq!(table.resolve(Address(0x10)).unwrap().name, "start");
    assert_eq!(table.name_of(Address(0x20)), "main");
    // twice is once
    assert!(table.rename(Address(0x20), "main".to_string()));
    assert_eq!(table.resolve(Address(0x20)).unwrap().name, "main");
    // nothing to rename
    assert!(!table.rename(Address(0x30), "none".to_string()));
    assert_eq!(table.len(), 2);
}

#[test]
fn a_symbol_can_be_renamed_in_place() {
    let mut table = SymbolTable::new();
    table.add(Address(0x10), 8, "start".to_string());
    table.resolve_mut(Address(0x10)).unwrap().name = "entry".to_string();
    assert_eq!(table.name_of(Address(0x10)), "entry");
    assert!(table.resolve_mut(Address(0x11)).is_none());
}

#[test]
fn local_names_live_in_sections() {
    let mut scope = Scope::new();
    assert_eq!(scope.len(), 1);
    let a = VariableSymbol::Slot(reg(1));
    let b = VariableSymbol::Slot(reg(2));
    let g = VariableSymbol::Ram(Address(0x8000));
    scope.define(0, a, "count".to_string(), VariableType::Integer);
    scope.define(0, g, "table".to_string(), VariableType::Pointer);
    // a second definition of the same symbol is ignored
    scope.define(0, a, "other".to_string(), VariableType::Unknown);
    assert_eq!(scope.find_owning_section(&a), Some(0));
    assert_eq!(scope.find_owning_section(&b), None);
    let found = scope.get_symbol(0, &a).unwrap();
    assert_eq!((found.name.as_str(), found.kind), ("count", VariableType::Integer));
    assert!(scope.get_symbol(0, &b).is_none());
    assert_eq!(scope.name_of(reg(1)), "count");
    assert_eq!(scope.name_of(reg(0x2a)), "var_2a");
}

#[test]
fn local_renames_keep_the_slot() {
    let mut scope = Scope::new();
    let a = VariableSymbol::Slot(reg(1));
    let b = VariableSymbol::Slot(reg(2));
    scope.define(0, a, "count".to_string(), VariableType::Integer);
    scope.define(0, b, "limit".to_string(), VariableType::Integer);
    assert!(scope.rename(&a, "count".to_string()));
    assert_eq!(scope.get_symbol(0, &a).unwrap().name, "count");
    assert!(scope.rename(&a, "index".to_string()));
    let found = scope.get_symbol(0, &a).unwrap();
    assert_eq!((found.symbol, found.name.as_str(), found.kind), (a, "index", VariableType::Integer));
    assert_eq!(scope.get_symbol(0, &b).unwrap().name, "limit");
    assert!(!scope.rename(&VariableSymbol::Slot(reg(3)), "none".to_string()));
    scope.get_symbol_mut(0, &b).unwrap().name = "bound".to_string();
    assert_eq!(scope.name_of(reg(2)), "bound");
    assert!(scope.get_symbol_mut(0, &VariableSymbol::Slot(reg(3))).is_none());
}
