use vstd::prelude::*;
use crate::cell::{in_bounds, Cell};
use crate::creature::Creature;
use crate::grid::Grid;

verus! {

/// Whether `c` cannot fall further over occupancy map `grid`: it sits on the
/// bottom row of a grid of height `h`, or the cell directly below it is
/// occupied.
pub open spec fn cell_blocked(c: Cell, grid: Map<(int, int), bool>, h: int) -> bool {
    c.y + 1 >= h || grid[(c.x as int, c.y + 1)]
}

/// Whether any cell of `body` is blocked, so that the whole body stops.
pub open spec fn spec_blocked(body: Seq<Cell>, grid: Map<(int, int), bool>, h: int) -> bool {
    exists|i: int| 0 <= i < body.len() && cell_blocked(#[trigger] body[i], grid, h)
}

/// Every cell of `body` moved down one row.
pub open spec fn spec_fallen_body(body: Seq<Cell>) -> Seq<Cell> {
    Seq::new(body.len(), |i: int| Cell { x: body[i].x, y: (body[i].y + 1) as i32 })
}

/// A detached snapshot of the creature's body that falls under synchronous
/// gravity until any cell would overlap the ground or a settled block.
pub struct FallingBlocks {
    pub body: Vec<Cell>,
    pub length: usize,
    pub last_move: u64,
    pub hit_ground: bool,
}

impl FallingBlocks {
    /// All cells lie inside a `w` by `h` grid and there is at least one.
    pub open spec fn wf(self, w: int, h: int) -> bool {
        &&& self.body@.len() >= 1
        &&& forall|i: int| 0 <= i < self.body@.len() ==> in_bounds(#[trigger] self.body@[i], w, h)
    }

    /// Snapshot the creature's body and length at the moment a fruit is
    /// eaten.
    pub fn from_creature(creature: &Creature, now_ms: u64) -> (fb: FallingBlocks)
        ensures
            fb.body@ == creature.body@,
            fb.length == creature.length,
            fb.last_move == now_ms,
            !fb.hit_ground,
    {
        let mut body: Vec<Cell> = Vec::new();
        let mut i: usize = 0;
        while i < creature.body.len()
            invariant
                i <= creature.body@.len(),
                body@ == creature.body@.take(i as int),
            decreases creature.body@.len() - i,
        {
            body.push(creature.body[i]);
            proof {
                assert(creature.body@.take(i + 1) =~= creature.body@.take(i as int).push(
                    creature.body@[i as int],
                ));
            }
            i += 1;
        }
        proof {
            assert(creature.body@.take(creature.body@.len() as int) =~= creature.body@);
        }
        FallingBlocks { body, length: creature.length, last_move: now_ms, hit_ground: false }
    }

    /// One fall tick: if any cell is blocked the body stops where it is and
    /// `hit_ground` is set; otherwise every cell moves down one row together.
    #[verifier::loop_isolation(false)]
    pub fn step(&mut self, grid: &Grid)
        requires
            grid.wf(),
            old(self).wf(grid.spec_width() as int, grid.spec_height() as int),
        ensures
            final(self).wf(grid.spec_width() as int, grid.spec_height() as int),
            final(self).length == old(self).length,
            final(self).last_move == old(self).last_move,
            if spec_blocked(old(self).body@, grid.view(), grid.spec_height() as int) {
                final(self).body@ == old(self).body@ && final(self).hit_ground
            } else {
                final(self).body@ == spec_fallen_body(old(self).body@) && final(self).hit_ground
                    == old(self).hit_ground
            },
    {
        proof {
            grid.lemma_wf_bounds();
        }
        let ghost h_ = grid.spec_height() as int;
        let mut i: usize = 0;
        while i < self.body.len()
            invariant
                self == old(self),
                i <= self.body@.len(),
                forall|j: int|
                    0 <= j < i ==> !cell_blocked(#[trigger] self.body@[j], grid.view(), h_),
            decreases self.body@.len() - i,
        {
            let c = self.body[i];
            if c.y as usize + 1 >= grid.height() || grid.occupied(
                c.x as usize,
                c.y as usize + 1,
            ) {
                self.hit_ground = true;
                return ;
            }
            i += 1;
        }
        let n = self.body.len();
        let mut j: usize = 0;
        while j < n
            invariant
                n == self.body@.len(),
                j <= n,
                self.length == old(self).length,
                self.last_move == old(self).last_move,
                self.hit_ground == old(self).hit_ground,
                forall|k: int| j <= k < n ==> self.body@[k] == old(self).body@[k],
                forall|k: int|
                    0 <= k < j ==> self.body@[k] == (Cell {
                        x: old(self).body@[k].x,
                        y: (old(self).body@[k].y + 1) as i32,
                    }),
            decreases n - j,
        {
            let c = self.body[j];
            proof {
                assert(!cell_blocked(old(self).body@[j as int], grid.view(), h_));
            }
            self.body[j] = Cell { x: c.x, y: c.y + 1 };
            j += 1;
        }
        proof {
            assert(self.body@ =~= spec_fallen_body(old(self).body@));
            assert forall|k: int| 0 <= k < self.body@.len() implies in_bounds(
                #[trigger] self.body@[k],
                grid.spec_width() as int,
                grid.spec_height() as int,
            ) by {
                assert(!cell_blocked(old(self).body@[k], grid.view(), h_));
            }
        }
    }
}

} // verus!
