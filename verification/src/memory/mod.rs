//! The address-space model and what hangs on it: the one state that every
//! step of the analysis works on.
pub mod address_map;
pub mod interval_map;
pub mod literal;
pub mod marking;
pub mod navigation;

use crate::address::{Address, Interval};
use crate::ir::abstract_syntax_tree::AbstractSyntaxTree;
use crate::ir::conventions::Conventions;
use crate::ir::high_function::HighFunction;
use crate::ir::lift::IrStore;
use crate::memory::address_map::AddressMap;
use crate::memory::interval_map::{
    any_intersects, covered_by, ending_by, ending_by_bounds, ordered, same_ranges_agree, IntervalMap,
    OverlapError,
};
use crate::memory::literal::{LiteralState, LiteralView};
use crate::memory::navigation::Navigation;
use crate::symbol_resolver::SymbolTable;
use vstd::prelude::*;

verus! {

/// The stored ranges with what they hold, each by its view.
pub open spec fn content(s: Seq<(Interval, LiteralState)>) -> Seq<(Interval, LiteralView)> {
    s.map_values(|e: (Interval, LiteralState)| (e.0, e.1@))
}

/// Each range is the one that its bytes occupy, and every byte has an
/// address of its own.
pub open spec fn keyed(c: Seq<(Interval, LiteralView)>) -> bool {
    forall|i: int| 0 <= i < c.len() ==> (#[trigger] c[i]).0 == c[i].1.interval() && c[i].1.fits()
}

/// What a strict insertion of `literal` makes of `c`: nothing where a stored
/// range shares an address with it.
pub open spec fn content_inserted(c: Seq<(Interval, LiteralView)>, literal: LiteralView) -> Option<
    Seq<(Interval, LiteralView)>,
> {
    let interval = literal.interval();
    if any_intersects(c, interval) {
        None
    } else if interval.is_empty() {
        Some(c)
    } else {
        Some(c.insert(ending_by(c, interval.start.0 as int), (interval, literal)))
    }
}

/// What a strict insertion of `literal` into `c` reports where it fails:
/// the first stored range that does not end at or below the start of the
/// new one.
pub open spec fn overlap_found(c: Seq<(Interval, LiteralView)>, literal: LiteralView) -> OverlapError {
    OverlapError { existing: c[ending_by(c, literal.addr.0 as int)].0 }
}

/// The views of the stored ranges are ordered, intersect and cover as the
/// stored ranges do.
pub proof fn content_keeps_ranges(s: Seq<(Interval, LiteralState)>)
    ensures
        content(s).len() == s.len(),
        forall|i: int| 0 <= i < s.len() ==> (#[trigger] content(s)[i]).0 == s[i].0,
        ordered(content(s)) == ordered(s),
        covered_by(content(s)) == covered_by(s),
        forall|interval: Interval| any_intersects(content(s), interval) == any_intersects(s, interval),
        forall|point: int| ending_by(content(s), point) == ending_by(s, point),
{
    same_ranges_agree(content(s), s);
}

/// The state of one analysis session.
pub struct Memory {
    /// The address-space model: the image, range by range.
    pub literal: IntervalMap<LiteralState>,
    /// The global symbol table.
    pub symbols: SymbolTable,
    /// The sections and the ranges that functions have claimed.
    pub navigation: Navigation,
    /// The store of lifted instructions.
    pub ir: IrStore,
    /// The functions analysed so far, by entry address.
    pub functions: AddressMap<HighFunction>,
    /// The structured form of each analysed function, by entry address.
    pub ast: AddressMap<AbstractSyntaxTree>,
    /// What the analysis reads of the calling convention.
    pub conventions: Conventions,
}

/// Every function of the list is a well-formed graph.
pub open spec fn sound_functions(s: Seq<(Address, HighFunction)>) -> bool {
    forall|i: int| 0 <= i < s.len() ==> (#[trigger] s[i]).1.wf()
}

impl Memory {
    /// The address-space model is a partition, each range is the one that
    /// its bytes occupy, and no two claimed ranges overlap.
    pub open spec fn wf(&self) -> bool {
        &&& self.literal.wf()
        &&& keyed(content(self.literal@))
        &&& self.navigation.wf()
        &&& self.ir.wf()
        &&& self.functions.wf()
        &&& sound_functions(self.functions@)
        &&& self.ast.wf()
    }

    pub fn new() -> (m: Memory)
        ensures
            m.wf(),
            m.literal@.len() == 0,
            m.symbols@.len() == 0,
            m.navigation.sections@.len() == 0,
            m.navigation.function_span@.len() == 0,
            m.ir@.len() == 0,
            m.functions@.len() == 0,
            m.ast@.len() == 0,
            m.conventions@.return_slot is None,
            m.conventions@.parameter_slots.len() == 0,
    {
        Memory {
            literal: IntervalMap::new(),
            symbols: SymbolTable::new(),
            navigation: Navigation::new(),
            ir: IrStore::new(),
            functions: AddressMap::new(),
            ast: AddressMap::new(),
            conventions: Conventions::none(),
        }
    }

    /// What loading and marking leave alone: the lifted instructions, the
    /// analysed functions and the convention.
    pub open spec fn same_analysis(&self, other: &Memory) -> bool {
        &&& self.ir == other.ir
        &&& self.functions == other.functions
        &&& self.ast == other.ast
        &&& self.conventions == other.conventions
    }

    /// Puts `literal` into the address-space model at the range that its
    /// bytes occupy, unless that range is taken.
    pub fn insert_literal(&mut self, literal: LiteralState) -> (r: Result<(), OverlapError>)
        requires
            old(self).wf(),
            literal@.fits(),
        ensures
            final(self).wf(),
            final(self).symbols == old(self).symbols,
            final(self).navigation == old(self).navigation,
            final(self).same_analysis(old(self)),
            match content_inserted(content(old(self).literal@), literal@) {
                Some(c) => r is Ok && content(final(self).literal@) == c,
                None => r is Err && final(self).literal@ == old(self).literal@,
            },
            r is Err ==> r->Err_0 == overlap_found(content(old(self).literal@), literal@),
    {
        let interval = literal.get_interval();
        proof {
            content_keeps_ranges(self.literal@);
        }
        let r = self.literal.insert_strict(interval, literal);
        proof {
            content_keeps_ranges(self.literal@);
            if r is Ok {
                if interval.is_empty() {
                } else {
                    let k = ending_by(old(self).literal@, interval.start.0 as int);
                    ending_by_bounds(old(self).literal@, interval.start.0 as int);
                    let c = content(old(self).literal@).insert(k, (interval, literal@));
                    assert(content(self.literal@) =~= c);
                    assert forall|i: int| 0 <= i < c.len() implies (#[trigger] c[i]).0
                        == c[i].1.interval() && c[i].1.fits() by {
                        if i < k {
                            assert(c[i] == content(old(self).literal@)[i]);
                        } else if i > k {
                            assert(c[i] == content(old(self).literal@)[i - 1]);
                        }
                    }
                }
            }
        }
        r
    }
}

} // verus!
