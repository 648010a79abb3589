use vstd::prelude::*;

verus! {

/// Why a sequence number was turned away. Each variant carries the
/// offending sequence number.
#[derive(Debug, Clone, Copy, PartialEq, Eq, Structural)]
pub enum ReplayError {
    /// The number was already accepted and is still inside the window.
    Duplicated(usize),
    /// The number is above the ceiling, or too far behind the newest
    /// accepted number for its status to be known.
    OutsideWindow(usize),
}

} // verus!
