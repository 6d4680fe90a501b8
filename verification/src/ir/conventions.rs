//! What the analysis takes from the calling convention of the target: the
//! slot in which a function hands back its result, and the slots in which
//! it is handed its arguments.
use crate::ir::pcode::Storage;
use vstd::prelude::*;

verus! {

/// The calling convention, as far as the analysis reads it.
#[derive(Debug, PartialEq, Eq)]
pub struct Conventions {
    pub return_slot: Option<Storage>,
    pub parameter_slots: Vec<Storage>,
}

/// The calling convention, with its list as a sequence.
pub struct ConventionsView {
    pub return_slot: Option<Storage>,
    pub parameter_slots: Seq<Storage>,
}

impl View for Conventions {
    type V = ConventionsView;

    open spec fn view(&self) -> ConventionsView {
        ConventionsView { return_slot: self.return_slot, parameter_slots: self.parameter_slots@ }
    }
}

impl Conventions {
    /// A convention that names no slot.
    pub fn none() -> (c: Conventions)
        ensures
            c@.return_slot is None,
            c@.parameter_slots.len() == 0,
    {
        Conventions { return_slot: None, parameter_slots: Vec::new() }
    }

    pub fn new(return_slot: Option<Storage>, parameter_slots: Vec<Storage>) -> (c: Conventions)
        ensures
            c@.return_slot == return_slot,
            c@.parameter_slots == parameter_slots@,
    {
        Conventions { return_slot, parameter_slots }
    }
}

} // verus!
