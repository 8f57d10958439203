//! What the views report back after handling an input event.

use vstd::prelude::*;

verus! {

/// Result of a component handling an input event.
#[derive(Clone, Copy, Debug, Default, PartialEq, Eq, Structural)]
pub struct EventState {
    /// The event was consumed by this component.
    pub consumed: bool,
}

impl EventState {
    pub fn consumed() -> (e: EventState)
        ensures
            e.consumed,
    {
        EventState { consumed: true }
    }

    pub fn not_consumed() -> (e: EventState)
        ensures
            !e.consumed,
    {
        EventState { consumed: false }
    }
}

} // verus!
