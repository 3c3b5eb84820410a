//! Gestures recognised on the touch screen.

use vstd::prelude::*;
use crate::geom::{Dir, Point};

verus! {

/// A gesture, with where and with how many fingers it was made.
#[derive(Debug, Copy, Clone, Eq, PartialEq, Structural)]
pub enum GestureEvent {
    Tap { center: Point, fingers_count: usize },
    Swipe { dir: Dir, start: Point, end: Point, fingers_count: usize },
    HoldFinger(Point),
}

} // verus!
