//! The global symbol table: display names for addresses. A name can change;
//! the address it belongs to cannot.
use crate::address::Address;
use crate::text::{hex_text, prefixed_hex};
use vstd::prelude::*;

verus! {

/// A named address.
#[derive(Debug, PartialEq, Eq)]
pub struct Symbol {
    pub address: Address,
    pub size: u64,
    pub name: String,
}

/// A named address, with its name as a sequence of characters.
pub struct SymbolView {
    pub address: Address,
    pub size: u64,
    pub name: Seq<char>,
}

impl View for Symbol {
    type V = SymbolView;

    open spec fn view(&self) -> SymbolView {
        SymbolView { address: self.address, size: self.size, name: self.name@ }
    }
}

/// The position of the first symbol of `s`, from `from` on, that names
/// `address`; the length of `s` if there is none.
pub open spec fn first_at(s: Seq<SymbolView>, address: Address, from: int) -> int
    decreases s.len() - from,
{
    if from < 0 || from >= s.len() {
        s.len() as int
    } else if s[from].address == address {
        from
    } else {
        first_at(s, address, from + 1)
    }
}

/// The symbol that names `address`.
pub open spec fn resolved(s: Seq<SymbolView>, address: Address) -> Option<SymbolView> {
    let i = first_at(s, address, 0);
    if i < s.len() {
        Some(s[i])
    } else {
        None
    }
}

/// `s` after the symbol at `address`, if there is one, has been given the
/// name `name`.
pub open spec fn renamed(s: Seq<SymbolView>, address: Address, name: Seq<char>) -> Seq<
    SymbolView,
> {
    let i = first_at(s, address, 0);
    if i < s.len() {
        s.update(i, SymbolView { address: s[i].address, size: s[i].size, name })
    } else {
        s
    }
}

/// `s` after `address` has been given `size` and `name`: in place where it
/// had a symbol, at the end where it had none.
pub open spec fn added(s: Seq<SymbolView>, address: Address, size: u64, name: Seq<char>) -> Seq<
    SymbolView,
> {
    let i = first_at(s, address, 0);
    if i < s.len() {
        s.update(i, SymbolView { address, size, name })
    } else {
        s.push(SymbolView { address, size, name })
    }
}

/// `s` with a symbol for `address`: the one it has, or a new one under the
/// synthetic name.
pub open spec fn named(s: Seq<SymbolView>, address: Address) -> Seq<SymbolView> {
    if resolved(s, address) is Some {
        s
    } else {
        s.push(SymbolView { address, size: 0, name: synthetic_name(address) })
    }
}

/// The name that stands for an address without a symbol: `sub_` and the
/// address in hexadecimal.
pub open spec fn synthetic_name(address: Address) -> Seq<char> {
    "sub_"@ + hex_text(address.0 as nat)
}

/// The name under which `address` is shown.
pub open spec fn display_name(s: Seq<SymbolView>, address: Address) -> Seq<char> {
    match resolved(s, address) {
        Some(symbol) => symbol.name,
        None => synthetic_name(address),
    }
}

pub proof fn first_at_bounds(s: Seq<SymbolView>, address: Address, from: int)
    requires
        0 <= from,
    ensures
        from <= first_at(s, address, from) || first_at(s, address, from) == s.len(),
        first_at(s, address, from) <= s.len(),
        first_at(s, address, from) < s.len() ==> s[first_at(s, address, from)].address == address,
        forall|k: int| from <= k < first_at(s, address, from) ==> (#[trigger] s[k]).address != address,
    decreases s.len() - from,
{
    if from < s.len() && s[from].address != address {
        first_at_bounds(s, address, from + 1);
    }
}

/// Changing names moves no symbol: what `first_at` finds stays where it was.
pub proof fn first_at_ignores_names(s: Seq<SymbolView>, t: Seq<SymbolView>, address: Address, from: int)
    requires
        0 <= from,
        s.len() == t.len(),
        forall|k: int| 0 <= k < s.len() ==> (#[trigger] s[k]).address == (#[trigger] t[k]).address,
    ensures
        first_at(s, address, from) == first_at(t, address, from),
    decreases s.len() - from,
{
    if from < s.len() && s[from].address != address {
        first_at_ignores_names(s, t, address, from + 1);
    }
}

/// Renaming a symbol to the name it has changes nothing.
pub proof fn rename_to_current_name(s: Seq<SymbolView>, address: Address)
    ensures
        resolved(s, address) is Some ==> renamed(s, address, resolved(s, address)->Some_0.name)
            == s,
        resolved(s, address) is None ==> forall|name: Seq<char>| renamed(s, address, name) == s,
{
    first_at_bounds(s, address, 0);
    let i = first_at(s, address, 0);
    if i < s.len() {
        assert(renamed(s, address, s[i].name) =~= s);
    }
}

/// After a symbol has been renamed, resolving its address gives the new
/// name, at the address and size it had; every other address resolves as
/// before.
pub proof fn rename_then_resolve(s: Seq<SymbolView>, address: Address, name: Seq<char>)
    requires
        resolved(s, address) is Some,
    ensures
        resolved(renamed(s, address, name), address) == Some(
            SymbolView {
                address,
                size: resolved(s, address)->Some_0.size,
                name,
            },
        ),
        display_name(renamed(s, address, name), address) == name,
        forall|other: Address|
            other != address ==> resolved(renamed(s, address, name), other) == resolved(s, other),
{
    first_at_bounds(s, address, 0);
    let t = renamed(s, address, name);
    first_at_ignores_names(s, t, address, 0);
    assert forall|other: Address| other != address implies resolved(t, other) == resolved(
        s,
        other,
    ) by {
        first_at_ignores_names(s, t, other, 0);
        first_at_bounds(s, other, 0);
    }
}

/// Renaming twice to one name is renaming once.
pub proof fn rename_is_idempotent(s: Seq<SymbolView>, address: Address, name: Seq<char>)
    ensures
        renamed(renamed(s, address, name), address, name) == renamed(s, address, name),
{
    first_at_bounds(s, address, 0);
    let t = renamed(s, address, name);
    first_at_ignores_names(s, t, address, 0);
    assert(renamed(t, address, name) =~= t);
}

/// The global symbol table.
pub struct SymbolTable {
    symbols: Vec<Symbol>,
}

impl View for SymbolTable {
    type V = Seq<SymbolView>;

    closed spec fn view(&self) -> Seq<SymbolView> {
        self.symbols@.map_values(|s: Symbol| s@)
    }
}

impl SymbolTable {
    pub fn new() -> (t: SymbolTable)
        ensures
            t@ == Seq::<SymbolView>::empty(),
    {
        let t = SymbolTable { symbols: Vec::new() };
        assert(t@ =~= Seq::<SymbolView>::empty());
        t
    }

    /// The number of symbols.
    pub fn len(&self) -> (n: usize)
        ensures
            n == self@.len(),
    {
        self.symbols.len()
    }

    /// The `i`-th symbol, in the order in which the addresses were first named.
    pub fn symbol(&self, i: usize) -> (s: &Symbol)
        requires
            i < self@.len(),
        ensures
            s@ == self@[i as int],
    {
        &self.symbols[i]
    }

    /// The position of the symbol that names `address`.
    pub fn position(&self, address: Address) -> (r: Option<usize>)
        ensures
            match r {
                Some(i) => i == first_at(self@, address, 0) && i < self@.len(),
                None => first_at(self@, address, 0) == self@.len(),
            },
    {
        let mut i: usize = 0;
        while i < self.symbols.len()
            invariant
                i <= self.symbols@.len(),
                self@.len() == self.symbols@.len(),
                first_at(self@, address, 0) == first_at(self@, address, i as int),
            decreases self.symbols@.len() - i,
        {
            assert(self@[i as int] == self.symbols@[i as int]@);
            if self.symbols[i].address == address {
                return Some(i);
            }
            i += 1;
        }
        None
    }

    /// The symbol that names `address`.
    pub fn resolve(&self, address: Address) -> (r: Option<&Symbol>)
        ensures
            match r {
                Some(symbol) => resolved(self@, address) == Some(symbol@),
                None => resolved(self@, address) is None,
            },
    {
        match self.position(address) {
            Some(i) => Some(&self.symbols[i]),
            None => None,
        }
    }

    /// The symbol that names `address`, to be changed in place.
    pub fn resolve_mut(&mut self, address: Address) -> (r: Option<&mut Symbol>)
        ensures
            match r {
                Some(symbol) => {
                    let i = first_at(old(self)@, address, 0);
                    i < old(self)@.len() && symbol@ == old(self)@[i] && final(self)@ =~= old(
                        self,
                    )@.update(i, final(symbol)@)
                },
                None => resolved(old(self)@, address) is None && final(self)@ == old(self)@,
            },
    {
        match self.position(address) {
            Some(i) => Some(&mut self.symbols[i]),
            None => None,
        }
    }

    /// Gives the symbol at `address` the name `name`. Says whether there was
    /// such a symbol.
    pub fn rename(&mut self, address: Address, name: String) -> (found: bool)
        ensures
            found == resolved(old(self)@, address) is Some,
            final(self)@ == renamed(old(self)@, address, name@),
    {
        match self.position(address) {
            Some(i) => {
                let old_symbol = self.symbols.remove(i);
                self.symbols.insert(
                    i,
                    Symbol { address: old_symbol.address, size: old_symbol.size, name },
                );
                proof {
                    first_at_bounds(old(self)@, address, 0);
                    assert(self@ =~= renamed(old(self)@, address, name@));
                }
                true
            },
            None => false,
        }
    }

    /// Names `address`: replaces the symbol it has, or adds one.
    pub fn add(&mut self, address: Address, size: u64, name: String)
        ensures
            final(self)@ == added(old(self)@, address, size, name@),
    {
        match self.position(address) {
            Some(i) => {
                let _ = self.symbols.remove(i);
                self.symbols.insert(i, Symbol { address, size, name });
                proof {
                    assert(self@ =~= added(old(self)@, address, size, name@));
                }
            },
            None => {
                self.symbols.push(Symbol { address, size, name });
                proof {
                    assert(self@ =~= added(old(self)@, address, size, name@));
                }
            },
        }
    }

    /// Makes sure that `address` has a symbol, so that it can be renamed:
    /// one without a symbol gets one under the synthetic name.
    pub fn ensure(&mut self, address: Address)
        ensures
            final(self)@ == named(old(self)@, address),
    {
        match self.position(address) {
            Some(_) => {},
            None => {
                self.symbols.push(
                    Symbol { address, size: 0, name: prefixed_hex("sub_", address.0) },
                );
                proof {
                    assert(self@ =~= named(old(self)@, address));
                }
            },
        }
    }

    /// The name under which `address` is shown: that of its symbol, or the
    /// synthetic one.
    pub fn name_of(&self, address: Address) -> (name: String)
        ensures
            name@ == display_name(self@, address),
    {
        match self.position(address) {
            Some(i) => self.symbols[i].name.clone(),
            None => prefixed_hex("sub_", address.0),
        }
    }
}

} // verus!
