//! Outcomes of handling terminal input events.
use vstd::prelude::*;

verus! {

/// Result of handling a key event.
#[derive(Clone, Copy, Debug, PartialEq, Eq, Structural)]
pub enum KeyEventResult {
    /// Continue the event loop normally.
    Continue,
    /// The application should quit.
    Quit,
}

/// Result of handling a mouse event.
#[derive(Clone, Copy, Debug, PartialEq, Eq, Structural)]
pub enum MouseEventResult {
    /// Continue the event loop normally.
    Continue,
    /// Skip to the next iteration of the loop.
    Skip,
}

} // verus!
