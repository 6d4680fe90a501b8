//! What the user navigates by: the sections of the image and the address
//! ranges that functions have claimed.
use crate::address::Address;
use crate::memory::interval_map::IntervalMap;
use vstd::prelude::*;

verus! {

/// A section of the loaded image.
#[derive(Debug, PartialEq, Eq)]
pub struct Section {
    pub name: String,
    pub virtual_address: Address,
    pub virtual_size: usize,
}

/// A section, with its name as a sequence of characters.
pub struct SectionView {
    pub name: Seq<char>,
    pub virtual_address: Address,
    pub virtual_size: usize,
}

impl View for Section {
    type V = SectionView;

    open spec fn view(&self) -> SectionView {
        SectionView {
            name: self.name@,
            virtual_address: self.virtual_address,
            virtual_size: self.virtual_size,
        }
    }
}

impl Section {
    pub fn new(name: String, virtual_address: u64, virtual_size: usize) -> (s: Section)
        ensures
            s@ == (SectionView {
                name: name@,
                virtual_address: Address(virtual_address),
                virtual_size,
            }),
    {
        Section { name, virtual_address: Address(virtual_address), virtual_size }
    }
}

/// The sections of a list, each by its view.
pub open spec fn section_views(sections: Seq<Section>) -> Seq<SectionView> {
    sections.map_values(|s: Section| s@)
}

/// The navigation index.
pub struct Navigation {
    /// The sections, in the order in which the loader found them.
    pub sections: Vec<Section>,
    /// The ranges that functions have claimed, each with the entry address
    /// of the function that owns it.
    pub function_span: IntervalMap<Address>,
}

impl Navigation {
    pub open spec fn wf(&self) -> bool {
        self.function_span.wf()
    }

    pub fn new() -> (n: Navigation)
        ensures
            n.sections@.len() == 0,
            n.function_span@.len() == 0,
            n.wf(),
    {
        Navigation { sections: Vec::new(), function_span: IntervalMap::new() }
    }
}

} // verus!
