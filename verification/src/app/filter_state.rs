use vstd::prelude::*;

pub use super::screen::FilterMode;

verus! {

/// The text typed into the filter and what it is matched against.
#[derive(Debug, Default)]
pub struct FilterState {
    pub input: String,
    pub mode: FilterMode,
}

} // verus!
