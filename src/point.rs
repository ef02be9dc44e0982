use vstd::prelude::*;

verus! {

/// A cell coordinate, absolute or relative.
#[derive(Debug, Clone, Copy, PartialEq, Eq, Structural)]
pub struct Point {
    pub x: isize,
    pub y: isize,
}

impl Point {
    pub fn new(x: isize, y: isize) -> (r: Point)
        ensures
            r.x == x,
            r.y == y,
    {
        Point { x, y }
    }

    /// The point translated by `by`.
    pub fn plus(&self, by: Point) -> (r: Point)
        requires
            isize::MIN <= self.x + by.x <= isize::MAX,
            isize::MIN <= self.y + by.y <= isize::MAX,
        ensures
            r.x == self.x + by.x,
            r.y == self.y + by.y,
    {
        Point { x: self.x + by.x, y: self.y + by.y }
    }
}

} // verus!
