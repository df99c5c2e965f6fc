//! Grid coordinates and the four unit steps.

use vstd::prelude::*;

verus! {

/// A cell of the grid, by column `x` and row `y`.
#[derive(Copy, Clone, Debug, PartialEq, Eq, Structural)]
pub struct Coord {
    pub x: i32,
    pub y: i32,
}

impl Default for Coord {
    fn default() -> (r: Coord)
        ensures
            r == (Coord { x: 0, y: 0 }),
    {
        Coord { x: 0, y: 0 }
    }
}

impl Coord {
    /// Two cells are adjacent when one unit step leads from one to the other.
    pub open spec fn adjacent(self, other: Coord) -> bool {
        ||| self.x == other.x && (self.y + 1 == other.y || self.y - 1 == other.y)
        ||| self.y == other.y && (self.x + 1 == other.x || self.x - 1 == other.x)
    }

    /// The cell `dx` columns to the right and `dy` rows up. It is meant for
    /// shifts that stay within the range of the coordinates.
    pub open spec fn shifted(self, dx: int, dy: int) -> Coord {
        Coord { x: (self.x + dx) as i32, y: (self.y + dy) as i32 }
    }

    /// The cell one row below.
    pub fn down(&self) -> (r: Coord)
        requires
            self.y > i32::MIN,
        ensures
            r.x == self.x,
            r.y == self.y - 1,
    {
        Coord { x: self.x, y: self.y - 1 }
    }

    /// The cell one column to the left.
    pub fn left(&self) -> (r: Coord)
        requires
            self.x > i32::MIN,
        ensures
            r.x == self.x - 1,
            r.y == self.y,
    {
        Coord { x: self.x - 1, y: self.y }
    }

    /// The cell one column to the right.
    pub fn right(&self) -> (r: Coord)
        requires
            self.x < i32::MAX,
        ensures
            r.x == self.x + 1,
            r.y == self.y,
    {
        Coord { x: self.x + 1, y: self.y }
    }

    /// The cell one row above.
    pub fn up(&self) -> (r: Coord)
        requires
            self.y < i32::MAX,
        ensures
            r.x == self.x,
            r.y == self.y + 1,
    {
        Coord { x: self.x, y: self.y + 1 }
    }

    /// Whether one unit step leads from `self` to `other`.
    pub fn is_next_to(&self, other: &Coord) -> (r: bool)
        ensures
            r == self.adjacent(*other),
    {
        (self.x > i32::MIN && self.left() == *other)
            || (self.x < i32::MAX && self.right() == *other)
            || (self.y < i32::MAX && self.up() == *other)
            || (self.y > i32::MIN && self.down() == *other)
    }
}

} // verus!
