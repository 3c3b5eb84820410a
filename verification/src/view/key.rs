//! The keys of the on-screen keyboard.

use vstd::prelude::*;
use crate::geom::LinearDir;

verus! {

/// What a key of the on-screen keyboard does.
#[derive(Debug, Copy, Clone, Eq, PartialEq, Structural)]
pub enum KeyKind {
    Output(char),
    Delete(LinearDir),
    Move(LinearDir),
    Shift,
    Return,
    Combine,
    Alternate,
}

} // verus!
