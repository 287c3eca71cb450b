use vstd::prelude::*;

verus! {

/// The action that opens or closes the jump bar.
#[derive(Clone, Copy, Debug, PartialEq, Eq)]
pub struct Toggle {
    /// Whether the query editor takes the focus.
    pub focus: bool,
}

impl Toggle {
    /// The action as a key binding gives it when it names no field: with
    /// focus.
    pub fn default() -> (toggle: Toggle)
        ensures
            toggle.focus,
    {
        Toggle { focus: true }
    }
}

/// What the jump bar reports to its listeners.
#[derive(Clone, Copy, Debug, PartialEq, Eq)]
pub enum Event {
    UpdateLocation,
    Dismiss,
}

} // verus!
