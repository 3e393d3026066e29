use vstd::prelude::*;

verus! {

/// Width and height of a rectangle of cells.
#[derive(Copy, Clone, Eq, PartialEq, Debug, Structural)]
pub struct Size {
    pub height: u16,
    pub width: u16,
}

/// A cell of a grid: `x` grows to the right, `y` grows downwards.
#[derive(Copy, Clone, Eq, PartialEq, Debug, Structural)]
pub struct Point {
    pub x: u16,
    pub y: u16,
}

/// A relative step, in cells.
#[derive(Copy, Clone, Eq, PartialEq, Debug, Structural)]
pub struct Movement {
    pub x: i16,
    pub y: i16,
}

impl Point {
    pub fn new(x: u16, y: u16) -> (r: Point)
        ensures
            r.x == x,
            r.y == y,
    {
        Point { x, y }
    }

    /// The cell as a pair of mathematical integers `(x, y)`.
    pub open spec fn cell(self) -> (int, int) {
        (self.x as int, self.y as int)
    }
}

} // verus!
