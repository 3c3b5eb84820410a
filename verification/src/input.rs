//! What the touch screen reports.

use vstd::prelude::*;

verus! {

/// The phase of a finger's contact with the screen.
#[derive(Debug, Copy, Clone, Eq, PartialEq, Structural)]
pub enum FingerStatus {
    Down,
    Motion,
    Up,
}

} // verus!
