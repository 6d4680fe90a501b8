//! Loading an executable file into the analysis state.
pub mod demangle;
pub mod image;
pub mod load_with_goblin;



use crate::memory::interval_map::OverlapError;
use vstd::prelude::*;

verus! {

/// Why a file could not be loaded.
#[derive(Debug, PartialEq, Eq)]
pub enum LoaderError {
    /// The file is not what it claims to be, or is of a kind that cannot be
    /// analysed; the text says which.
    MalformedFile(String),
    /// Two parts of the file claim the same addresses.
    Overlap(OverlapError),
}

/// Why a file could not be loaded, with the text as a sequence of characters.
pub enum LoaderErrorView {
    MalformedFile(Seq<char>),
    Overlap(OverlapError),
}

impl View for LoaderError {
    type V = LoaderErrorView;

    open spec fn view(&self) -> LoaderErrorView {
        match self {
            LoaderError::MalformedFile(text) => LoaderErrorView::MalformedFile(text@),
            LoaderError::Overlap(e) => LoaderErrorView::Overlap(*e),
        }
    }
}

impl LoaderError {
    /// What went wrong, in words.
    pub fn message(&self) -> (text: String)
        ensures
            text@ == match self@ {
                LoaderErrorView::MalformedFile(t) => t,
                LoaderErrorView::Overlap(_) => "Two parts of the file claim the same addresses."@,
            },
    {
        match self {
            LoaderError::MalformedFile(text) => text.clone(),
            LoaderError::Overlap(_) => String::from_str(
                "Two parts of the file claim the same addresses.",
            ),
        }
    }
}

} // verus!

pub use load_with_goblin::load;
