use vstd::prelude::*;

verus! {

/// What an item menu reports for one frame.
#[derive(Clone, Copy, Debug, PartialEq, Eq, Structural)]
pub enum ItemMenuResult {
    /// The menu was closed without a choice.
    Cancel,
    /// No key was pressed yet.
    NoResponse,
    /// An item was chosen.
    Selected,
}

} // verus!
