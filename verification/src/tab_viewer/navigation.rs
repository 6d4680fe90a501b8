//! The navigation view: the analysed functions, each under the name it is
//! shown by.
use crate::address::Address;
use crate::memory::Memory;
use crate::symbol_resolver::display_name;
use vstd::prelude::*;

verus! {

/// The navigation view. It keeps nothing of its own: what it shows is
/// computed from the analysis state each time.
#[derive(Clone, Copy, Debug, PartialEq, Eq, Structural)]
pub struct NavigationView {}

impl NavigationView {
    pub fn new() -> (view: NavigationView)
        ensures
            view == (NavigationView {  }),
    {
        NavigationView {  }
    }

    /// The lines of the view: one for each analysed function, in address
    /// order, with the entry address and the name under which it is shown:
    /// that of its symbol, or the synthetic one.
    pub fn entries(&self, memory: &Memory) -> (lines: Vec<(Address, String)>)
        ensures
            lines@.len() == memory.functions@.len(),
            forall|i: int|
                0 <= i < lines@.len() ==> (#[trigger] lines@[i]).0 == memory.functions@[i].0
                    && lines@[i].1@ == display_name(memory.symbols@, memory.functions@[i].0),
    {
        let mut lines: Vec<(Address, String)> = Vec::new();
        let mut i: usize = 0;
        while i < memory.functions.len()
            invariant
                i <= memory.functions@.len(),
                lines@.len() == i,
                forall|k: int|
                    0 <= k < i ==> (#[trigger] lines@[k]).0 == memory.functions@[k].0 && lines@[k].1@
                        == display_name(memory.symbols@, memory.functions@[k].0),
            decreases memory.functions@.len() - i,
        {
            let address = memory.functions.entry(i).0;
            lines.push((address, memory.symbols.name_of(address)));
            i += 1;
        }
        lines
    }
}

} // verus!
