use vstd::prelude::*;

verus! {

/// The part of the interface that receives the keyboard.
#[derive(Debug, Default, Clone, Copy, PartialEq, Eq, Structural)]
pub enum Screen {
    #[default]
    FileList,
    Content,
    Filter(FilterMode),
    Duplicates,
    MapCodes,
}

/// What the text of the filter is matched against.
#[derive(Debug, Default, Clone, Copy, PartialEq, Eq, Structural)]
pub enum FilterMode {
    #[default]
    FileName,
    MapName,
}

} // verus!
