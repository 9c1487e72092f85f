use vstd::prelude::*;
use crate::dir::Direction;

verus! {

/// One grid coordinate. Coordinates are signed so that bounds checks are
/// uniform: a move can push a coordinate below zero, and such a cell is
/// detected as out of bounds rather than wrapping around.
#[derive(PartialEq, Eq, Structural, Clone, Copy, Debug)]
pub struct Cell {
    pub x: i32,
    pub y: i32,
}

/// Whether a cell lies inside a `w` by `h` grid.
pub open spec fn in_bounds(c: Cell, w: int, h: int) -> bool {
    0 <= c.x < w && 0 <= c.y < h
}

impl Cell {
    /// The neighbouring cell one unit away in the given direction.
    /// The `y` axis points downward, so `Up` decreases `y`.
    pub open spec fn spec_moved(self, d: Direction) -> Cell {
        match d {
            Direction::Up => Cell { x: self.x, y: (self.y - 1) as i32 },
            Direction::Down => Cell { x: self.x, y: (self.y + 1) as i32 },
            Direction::Left => Cell { x: (self.x - 1) as i32, y: self.y },
            Direction::Right => Cell { x: (self.x + 1) as i32, y: self.y },
        }
    }

    #[verifier::when_used_as_spec(spec_moved)]
    pub fn moved(self, d: Direction) -> (r: Cell)
        requires
            i32::MIN < self.x < i32::MAX,
            i32::MIN < self.y < i32::MAX,
        ensures
            r == self.spec_moved(d),
    {
        match d {
            Direction::Up => Cell { x: self.x, y: self.y - 1 },
            Direction::Down => Cell { x: self.x, y: self.y + 1 },
            Direction::Left => Cell { x: self.x - 1, y: self.y },
            Direction::Right => Cell { x: self.x + 1, y: self.y },
        }
    }
}

} // verus!
