//! The names of a function's own storage: each lexical section of the
//! function holds the definitions of the slots that belong to it. A name
//! can change; the slot it belongs to cannot.
use crate::ir::expression::VariableSymbol;
use crate::ir::pcode::Storage;
use crate::ir::type_system::VariableType;
use crate::text::{hex_text, prefixed_hex};
use vstd::prelude::*;

verus! {

/// A named storage location.
#[derive(Debug, PartialEq, Eq)]
pub struct VariableDefinition {
    pub symbol: VariableSymbol,
    pub name: String,
    pub kind: VariableType,
}

/// A named storage location, with its name as a sequence of characters.
pub struct DefinitionView {
    pub symbol: VariableSymbol,
    pub name: Seq<char>,
    pub kind: VariableType,
}

impl View for VariableDefinition {
    type V = DefinitionView;

    open spec fn view(&self) -> DefinitionView {
        DefinitionView { symbol: self.symbol, name: self.name@, kind: self.kind }
    }
}

/// The definitions of a section, each by its view.
pub open spec fn definition_views(section: Seq<VariableDefinition>) -> Seq<DefinitionView> {
    section.map_values(|d: VariableDefinition| d@)
}

/// The position of the first definition of `section`, from `from` on, that
/// is for `symbol`; the length of `section` if there is none.
pub open spec fn defined_at(section: Seq<DefinitionView>, symbol: VariableSymbol, from: int) -> int
    decreases section.len() - from,
{
    if from < 0 || from >= section.len() {
        section.len() as int
    } else if section[from].symbol == symbol {
        from
    } else {
        defined_at(section, symbol, from + 1)
    }
}

/// The first section of `sections`, from `from` on, that defines `symbol`;
/// the number of sections if none does.
pub open spec fn owner_from(sections: Seq<Seq<DefinitionView>>, symbol: VariableSymbol, from: int) -> int
    decreases sections.len() - from,
{
    if from < 0 || from >= sections.len() {
        sections.len() as int
    } else if defined_at(sections[from], symbol, 0) < sections[from].len() {
        from
    } else {
        owner_from(sections, symbol, from + 1)
    }
}

/// The definition of `symbol` in the section that owns it.
pub open spec fn definition_of(sections: Seq<Seq<DefinitionView>>, symbol: VariableSymbol) -> Option<
    DefinitionView,
> {
    let s = owner_from(sections, symbol, 0);
    if 0 <= s < sections.len() {
        Some(sections[s][defined_at(sections[s], symbol, 0)])
    } else {
        None
    }
}

/// The sections after the definition of `symbol`, in the section that owns
/// it, has been given the name `name`. Nothing changes where no section
/// defines the symbol.
pub open spec fn renamed_local(
    sections: Seq<Seq<DefinitionView>>,
    symbol: VariableSymbol,
    name: Seq<char>,
) -> Seq<Seq<DefinitionView>> {
    let s = owner_from(sections, symbol, 0);
    if 0 <= s < sections.len() {
        let i = defined_at(sections[s], symbol, 0);
        sections.update(
            s,
            sections[s].update(
                i,
                DefinitionView { symbol: sections[s][i].symbol, name, kind: sections[s][i].kind },
            ),
        )
    } else {
        sections
    }
}

/// The section after `symbol` has been defined in it: a symbol that the
/// section defines already keeps its definition.
pub open spec fn defined(section: Seq<DefinitionView>, definition: DefinitionView) -> Seq<
    DefinitionView,
> {
    if defined_at(section, definition.symbol, 0) < section.len() {
        section
    } else {
        section.push(definition)
    }
}

/// The name that a slot gets when it is first defined: `var_` and the
/// number of the slot in hexadecimal.
pub open spec fn slot_name(slot: Storage) -> Seq<char> {
    "var_"@ + hex_text(slot.id as nat)
}

pub proof fn defined_at_bounds(section: Seq<DefinitionView>, symbol: VariableSymbol, from: int)
    requires
        0 <= from,
    ensures
        defined_at(section, symbol, from) <= section.len(),
        from <= section.len() ==> from <= defined_at(section, symbol, from),
        defined_at(section, symbol, from) < section.len() ==> section[defined_at(
            section,
            symbol,
            from,
        )].symbol == symbol,
    decreases section.len() - from,
{
    if from < section.len() && section[from].symbol != symbol {
        defined_at_bounds(section, symbol, from + 1);
    }
}

pub proof fn owner_bounds(sections: Seq<Seq<DefinitionView>>, symbol: VariableSymbol, from: int)
    requires
        0 <= from,
    ensures
        owner_from(sections, symbol, from) <= sections.len(),
        from <= sections.len() ==> from <= owner_from(sections, symbol, from),
        owner_from(sections, symbol, from) < sections.len() ==> defined_at(
            sections[owner_from(sections, symbol, from)],
            symbol,
            0,
        ) < sections[owner_from(sections, symbol, from)].len(),
    decreases sections.len() - from,
{
    if from < sections.len() && !(defined_at(sections[from], symbol, 0) < sections[from].len()) {
        owner_bounds(sections, symbol, from + 1);
    }
}

proof fn defined_at_ignores_names(
    a: Seq<DefinitionView>,
    b: Seq<DefinitionView>,
    symbol: VariableSymbol,
    from: int,
)
    requires
        0 <= from,
        a.len() == b.len(),
        forall|k: int| 0 <= k < a.len() ==> (#[trigger] a[k]).symbol == (#[trigger] b[k]).symbol,
    ensures
        defined_at(a, symbol, from) == defined_at(b, symbol, from),
    decreases a.len() - from,
{
    if from < a.len() && a[from].symbol != symbol {
        defined_at_ignores_names(a, b, symbol, from + 1);
    }
}

proof fn owner_ignores_names(
    a: Seq<Seq<DefinitionView>>,
    b: Seq<Seq<DefinitionView>>,
    symbol: VariableSymbol,
    from: int,
)
    requires
        0 <= from,
        a.len() == b.len(),
        forall|s: int|
            0 <= s < a.len() ==> (#[trigger] a[s]).len() == (#[trigger] b[s]).len() && forall|k: int|
                0 <= k < a[s].len() ==> (#[trigger] a[s][k]).symbol == (#[trigger] b[s][k]).symbol,
    ensures
        owner_from(a, symbol, from) == owner_from(b, symbol, from),
        forall|s: int|
            0 <= s < a.len() ==> defined_at(#[trigger] a[s], symbol, 0) == defined_at(b[s], symbol, 0),
    decreases a.len() - from,
{
    assert forall|s: int| 0 <= s < a.len() implies defined_at(#[trigger] a[s], symbol, 0)
        == defined_at(b[s], symbol, 0) by {
        assert(a[s].len() == b[s].len());
        defined_at_ignores_names(a[s], b[s], symbol, 0);
    }
    if from < a.len() {
        if !(defined_at(a[from], symbol, 0) < a[from].len()) {
            owner_ignores_names(a, b, symbol, from + 1);
        }
    }
}

/// Renaming a local symbol to the name it has changes nothing.
pub proof fn local_rename_to_current_name(sections: Seq<Seq<DefinitionView>>, symbol: VariableSymbol)
    ensures
        definition_of(sections, symbol) is Some ==> renamed_local(
            sections,
            symbol,
            definition_of(sections, symbol)->Some_0.name,
        ) == sections,
        definition_of(sections, symbol) is None ==> forall|name: Seq<char>|
            renamed_local(sections, symbol, name) == sections,
{
    owner_bounds(sections, symbol, 0);
    let s = owner_from(sections, symbol, 0);
    if 0 <= s < sections.len() {
        defined_at_bounds(sections[s], symbol, 0);
        let i = defined_at(sections[s], symbol, 0);
        let name = sections[s][i].name;
        assert(sections[s].update(
            i,
            DefinitionView { symbol: sections[s][i].symbol, name, kind: sections[s][i].kind },
        ) =~= sections[s]);
        assert(renamed_local(sections, symbol, name) =~= sections);
    }
}

/// After a local symbol has been renamed, its definition has the new name
/// and is otherwise what it was.
pub proof fn local_rename_then_resolve(
    sections: Seq<Seq<DefinitionView>>,
    symbol: VariableSymbol,
    name: Seq<char>,
)
    requires
        definition_of(sections, symbol) is Some,
    ensures
        definition_of(renamed_local(sections, symbol, name), symbol) == Some(
            DefinitionView {
                symbol,
                name,
                kind: definition_of(sections, symbol)->Some_0.kind,
            },
        ),
        owner_from(renamed_local(sections, symbol, name), symbol, 0) == owner_from(
            sections,
            symbol,
            0,
        ),
{
    owner_bounds(sections, symbol, 0);
    let s = owner_from(sections, symbol, 0);
    defined_at_bounds(sections[s], symbol, 0);
    let t = renamed_local(sections, symbol, name);
    assert forall|k: int| 0 <= k < sections.len() implies (#[trigger] sections[k]).len() == (
    #[trigger] t[k]).len() && forall|j: int|
        0 <= j < sections[k].len() ==> (#[trigger] sections[k][j]).symbol == (
        #[trigger] t[k][j]).symbol by {}
    owner_ignores_names(sections, t, symbol, 0);
    assert(defined_at(t[s], symbol, 0) == defined_at(sections[s], symbol, 0));
}

/// The names of one function's own storage.
pub struct Scope {
    sections: Vec<Vec<VariableDefinition>>,
}

impl View for Scope {
    type V = Seq<Seq<DefinitionView>>;

    closed spec fn view(&self) -> Seq<Seq<DefinitionView>> {
        self.sections@.map_values(|s: Vec<VariableDefinition>| definition_views(s@))
    }
}

fn find_definition(section: &Vec<VariableDefinition>, symbol: &VariableSymbol) -> (r: Option<usize>)
    ensures
        match r {
            Some(i) => i < section@.len() && i == defined_at(definition_views(section@), *symbol, 0),
            None => defined_at(definition_views(section@), *symbol, 0) == section@.len(),
        },
{
    let ghost views = definition_views(section@);
    let mut i: usize = 0;
    while i < section.len()
        invariant
            i <= section@.len(),
            views == definition_views(section@),
            defined_at(views, *symbol, 0) == defined_at(views, *symbol, i as int),
        decreases section@.len() - i,
    {
        assert(views[i as int] == section@[i as int]@);
        if section[i].symbol == *symbol {
            return Some(i);
        }
        i += 1;
    }
    None
}

impl Scope {
    /// A scope with one section and no definition.
    pub fn new() -> (s: Scope)
        ensures
            s@ == seq![Seq::<DefinitionView>::empty()],
    {
        let mut sections: Vec<Vec<VariableDefinition>> = Vec::new();
        sections.push(Vec::new());
        let s = Scope { sections };
        assert(s@.len() == 1);
        assert(s@[0] =~= Seq::<DefinitionView>::empty());
        assert(s@ =~= seq![Seq::<DefinitionView>::empty()]);
        s
    }

    /// The number of sections.
    pub fn len(&self) -> (n: usize)
        ensures
            n == self@.len(),
    {
        self.sections.len()
    }

    /// Defines `symbol` in `section` under `name`, unless the section
    /// defines it already.
    pub fn define(&mut self, section: usize, symbol: VariableSymbol, name: String, kind: VariableType)
        requires
            section < old(self)@.len(),
        ensures
            final(self)@ == old(self)@.update(
                section as int,
                defined(old(self)@[section as int], DefinitionView { symbol, name: name@, kind }),
            ),
    {
        let ghost before = self@;
        assert(before[section as int] == definition_views(self.sections@[section as int]@));
        let mut taken = self.sections.remove(section);
        let ghost held = definition_views(taken@);
        match find_definition(&taken, &symbol) {
            Some(_) => {},
            None => {
                taken.push(VariableDefinition { symbol, name, kind });
                assert(definition_views(taken@) =~= held.push(
                    DefinitionView { symbol, name: name@, kind },
                ));
            },
        }
        self.sections.insert(section, taken);
        assert(self@ =~= before.update(
            section as int,
            defined(before[section as int], DefinitionView { symbol, name: name@, kind }),
        ));
    }

    /// The section that the definition of `symbol` belongs to.
    pub fn find_owning_section(&self, symbol: &VariableSymbol) -> (r: Option<usize>)
        ensures
            match r {
                Some(s) => s < self@.len() && s == owner_from(self@, *symbol, 0),
                None => owner_from(self@, *symbol, 0) == self@.len(),
            },
    {
        let mut s: usize = 0;
        while s < self.sections.len()
            invariant
                s <= self.sections@.len(),
                self@.len() == self.sections@.len(),
                owner_from(self@, *symbol, 0) == owner_from(self@, *symbol, s as int),
            decreases self.sections@.len() - s,
        {
            assert(self@[s as int] == definition_views(self.sections@[s as int]@));
            if find_definition(&self.sections[s], symbol).is_some() {
                return Some(s);
            }
            s += 1;
        }
        None
    }

    /// The definition of `symbol` in `section`.
    pub fn get_symbol(&self, section: usize, symbol: &VariableSymbol) -> (r: Option<
        &VariableDefinition,
    >)
        requires
            section < self@.len(),
        ensures
            match r {
                Some(d) => defined_at(self@[section as int], *symbol, 0) < self@[section as int].len()
                    && d@ == self@[section as int][defined_at(self@[section as int], *symbol, 0)],
                None => defined_at(self@[section as int], *symbol, 0) == self@[section as int].len(),
            },
    {
        assert(self@[section as int] == definition_views(self.sections@[section as int]@));
        match find_definition(&self.sections[section], symbol) {
            Some(i) => {
                assert(definition_views(self.sections@[section as int]@)[i as int]
                    == self.sections@[section as int]@[i as int]@);
                Some(&self.sections[section][i])
            },
            None => None,
        }
    }

    /// The definition of `symbol` in `section`, to be changed in place.
    pub fn get_symbol_mut(&mut self, section: usize, symbol: &VariableSymbol) -> (r: Option<
        &mut VariableDefinition,
    >)
        requires
            section < old(self)@.len(),
        ensures
            match r {
                Some(d) => {
                    let i = defined_at(old(self)@[section as int], *symbol, 0);
                    i < old(self)@[section as int].len() && d@ == old(self)@[section as int][i]
                        && final(self)@ =~~= old(self)@.update(
                        section as int,
                        old(self)@[section as int].update(i, final(d)@),
                    )
                },
                None => defined_at(old(self)@[section as int], *symbol, 0) == old(
                    self,
                )@[section as int].len() && final(self)@ == old(self)@,
            },
    {
        assert(self@[section as int] == definition_views(self.sections@[section as int]@));
        match find_definition(&self.sections[section], symbol) {
            Some(i) => {
                assert(definition_views(self.sections@[section as int]@)[i as int]
                    == self.sections@[section as int]@[i as int]@);
                Some(&mut self.sections[section][i])
            },
            None => None,
        }
    }

    /// Gives the definition of `symbol`, in the section that owns it, the
    /// name `name`. Says whether there was such a definition.
    pub fn rename(&mut self, symbol: &VariableSymbol, name: String) -> (found: bool)
        ensures
            found == definition_of(old(self)@, *symbol) is Some,
            final(self)@ == renamed_local(old(self)@, *symbol, name@),
    {
        let ghost before = self@;
        proof {
            owner_bounds(before, *symbol, 0);
        }
        let s = match self.find_owning_section(symbol) {
            Some(s) => s,
            None => {
                return false;
            },
        };
        assert(before[s as int] == definition_views(self.sections@[s as int]@));
        let mut taken = self.sections.remove(s);
        let ghost held = definition_views(taken@);
        match find_definition(&taken, symbol) {
            Some(i) => {
                assert(held[i as int] == taken@[i as int]@);
                let old_definition = taken.remove(i);
                taken.insert(
                    i,
                    VariableDefinition { symbol: old_definition.symbol, name, kind: old_definition.kind },
                );
                assert(definition_views(taken@) =~= held.update(
                    i as int,
                    DefinitionView {
                        symbol: held[i as int].symbol,
                        name: name@,
                        kind: held[i as int].kind,
                    },
                ));
            },
            None => {},
        }
        self.sections.insert(s, taken);
        assert(self@ =~= renamed_local(before, *symbol, name@));
        true
    }

    /// The name under which `slot` is shown: that of its definition, or the
    /// one it would get when first defined.
    pub fn name_of(&self, slot: Storage) -> (name: String)
        ensures
            name@ == match definition_of(self@, VariableSymbol::Slot(slot)) {
                Some(d) => d.name,
                None => slot_name(slot),
            },
    {
        let symbol = VariableSymbol::Slot(slot);
        proof {
            owner_bounds(self@, symbol, 0);
        }
        match self.find_owning_section(&symbol) {
            Some(s) => match self.get_symbol(s, &symbol) {
                Some(d) => d.name.clone(),
                None => prefixed_hex("var_", slot.id),
            },
            None => prefixed_hex("var_", slot.id),
        }
    }
}

} // verus!
