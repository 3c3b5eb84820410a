//! Integer geometry: points and axis-aligned rectangles.

use vstd::prelude::*;

verus! {

/// A direction along a line of text.
#[derive(Clone, Copy, Debug, PartialEq, Eq, Structural)]
pub enum LinearDir {
    Backward,
    Forward,
}

/// A direction in a cyclic sequence, such as the pages of a document.
#[derive(Clone, Copy, Debug, PartialEq, Eq, Structural)]
pub enum CycleDir {
    Next,
    Previous,
}

/// A compass direction on the display.
#[derive(Clone, Copy, Debug, PartialEq, Eq, Structural)]
pub enum Dir {
    North,
    East,
    South,
    West,
}

/// A point of the display, in pixels.
#[derive(Clone, Copy, Debug, PartialEq, Eq, Structural)]
pub struct Point {
    pub x: i32,
    pub y: i32,
}

impl Point {
    pub fn new(x: i32, y: i32) -> (p: Point)
        ensures
            p == (Point { x, y }),
    {
        Point { x, y }
    }
}

/// An axis-aligned rectangle: `min` is its top-left corner and `max` the
/// corner just past its bottom-right pixel.
#[derive(Clone, Copy, Debug, PartialEq, Eq, Structural)]
pub struct Rectangle {
    pub min: Point,
    pub max: Point,
}

/// The smaller of two coordinates.
pub open spec fn lesser(a: i32, b: i32) -> i32 {
    if a <= b {
        a
    } else {
        b
    }
}

/// The larger of two coordinates.
pub open spec fn greater(a: i32, b: i32) -> i32 {
    if a >= b {
        a
    } else {
        b
    }
}

impl Default for Rectangle {
    fn default() -> (r: Rectangle)
        ensures
            r == Rectangle::default_spec(),
    {
        Rectangle { min: Point { x: 0, y: 0 }, max: Point { x: 0, y: 0 } }
    }
}

impl Rectangle {
    /// The rectangle without extent at the origin.
    pub open spec fn default_spec() -> Rectangle {
        Rectangle { min: Point { x: 0, y: 0 }, max: Point { x: 0, y: 0 } }
    }

    pub fn new(min: Point, max: Point) -> (r: Rectangle)
        ensures
            r == (Rectangle { min, max }),
    {
        Rectangle { min, max }
    }

    /// Whether the rectangle holds no pixel.
    pub open spec fn is_empty_spec(&self) -> bool {
        self.max.x <= self.min.x || self.max.y <= self.min.y
    }

    #[verifier::when_used_as_spec(is_empty_spec)]
    pub fn is_empty(&self) -> (b: bool)
        ensures
            b == self.is_empty_spec(),
    {
        self.max.x <= self.min.x || self.max.y <= self.min.y
    }

    /// Whether the point lies inside the rectangle.
    pub open spec fn includes_spec(&self, pt: &Point) -> bool {
        self.min.x <= pt.x < self.max.x && self.min.y <= pt.y < self.max.y
    }

    #[verifier::when_used_as_spec(includes_spec)]
    pub fn includes(&self, pt: &Point) -> (b: bool)
        ensures
            b == self.includes_spec(pt),
    {
        self.min.x <= pt.x && pt.x < self.max.x && self.min.y <= pt.y && pt.y < self.max.y
    }

    /// Whether `rect` lies inside the rectangle, edges included.
    pub open spec fn contains_spec(&self, rect: &Rectangle) -> bool {
        &&& self.min.x <= rect.min.x
        &&& self.min.y <= rect.min.y
        &&& rect.max.x <= self.max.x
        &&& rect.max.y <= self.max.y
    }

    #[verifier::when_used_as_spec(contains_spec)]
    pub fn contains(&self, rect: &Rectangle) -> (b: bool)
        ensures
            b == self.contains_spec(rect),
    {
        self.min.x <= rect.min.x && self.min.y <= rect.min.y && rect.max.x <= self.max.x
            && rect.max.y <= self.max.y
    }

    /// Whether the two rectangles share an area: each starts, on both axes,
    /// strictly before the other ends.
    pub open spec fn overlaps_spec(&self, rect: &Rectangle) -> bool {
        &&& self.min.x < rect.max.x
        &&& rect.min.x < self.max.x
        &&& self.min.y < rect.max.y
        &&& rect.min.y < self.max.y
    }

    #[verifier::when_used_as_spec(overlaps_spec)]
    pub fn overlaps(&self, rect: &Rectangle) -> (b: bool)
        ensures
            b == self.overlaps_spec(rect),
    {
        self.min.x < rect.max.x && rect.min.x < self.max.x && self.min.y < rect.max.y
            && rect.min.y < self.max.y
    }

    /// The smallest rectangle that holds both rectangles.
    pub open spec fn union(self, rect: Rectangle) -> Rectangle {
        Rectangle {
            min: Point { x: lesser(self.min.x, rect.min.x), y: lesser(self.min.y, rect.min.y) },
            max: Point { x: greater(self.max.x, rect.max.x), y: greater(self.max.y, rect.max.y) },
        }
    }

    /// Grows the rectangle until it holds `rect` too.
    pub fn absorb(&mut self, rect: &Rectangle)
        ensures
            *final(self) == old(self).union(*rect),
    {
        if rect.min.x < self.min.x {
            self.min.x = rect.min.x;
        }
        if rect.min.y < self.min.y {
            self.min.y = rect.min.y;
        }
        if rect.max.x > self.max.x {
            self.max.x = rect.max.x;
        }
        if rect.max.y > self.max.y {
            self.max.y = rect.max.y;
        }
    }

    /// The horizontal extent; zero where `max` lies left of `min`.
    pub open spec fn width_spec(&self) -> int {
        if self.max.x >= self.min.x {
            self.max.x - self.min.x
        } else {
            0
        }
    }

    /// The vertical extent; zero where `max` lies above `min`.
    pub open spec fn height_spec(&self) -> int {
        if self.max.y >= self.min.y {
            self.max.y - self.min.y
        } else {
            0
        }
    }

    pub fn width(&self) -> (w: u32)
        ensures
            w == self.width_spec(),
    {
        if self.max.x >= self.min.x {
            (self.max.x as i64 - self.min.x as i64) as u32
        } else {
            0
        }
    }

    pub fn height(&self) -> (h: u32)
        ensures
            h == self.height_spec(),
    {
        if self.max.y >= self.min.y {
            (self.max.y as i64 - self.min.y as i64) as u32
        } else {
            0
        }
    }
}

} // verus!
