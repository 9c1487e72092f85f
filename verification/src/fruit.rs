use vstd::prelude::*;
use crate::cell::Cell;

verus! {

/// A point target on the grid; eating one starts the falling phase.
#[derive(PartialEq, Eq, Structural, Clone, Copy, Debug)]
pub struct Fruit {
    pub pos: Cell,
}

impl Fruit {
    pub fn new(pos: Cell) -> (f: Fruit)
        ensures
            f.pos == pos,
    {
        Fruit { pos }
    }
}

} // verus!
