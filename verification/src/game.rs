use vstd::prelude::*;
use vstd::pervasive::unreached;
use crate::cell::{in_bounds, Cell};
use crate::creature::{count_matches, spec_enqueue_all, spec_step_body, start_cell, Creature};
use crate::dir::Direction;
use crate::falling::{spec_blocked, spec_fallen_body, FallingBlocks};
use crate::fruit::Fruit;
use crate::grid::{key_in_bounds, spec_clear_and_collapse, spec_commit, Grid};
use crate::{check_timer, timer_fired, FALL_INTERVAL_MS, STEP_INTERVAL_MS};

verus! {

/// Relies on fastrand::usize: a value drawn uniformly from the given range;
/// it panics only when the range is empty.
#[verifier::external_body]
fn random_below(n: usize) -> (r: usize)
    requires
        n >= 1,
    ensures
        r < n,
{
    fastrand::usize(0..n)
}

/// Which of the two state machines the next tick runs, or that the game has
/// ended. `Falling` is active exactly while a `FallingBlocks` is present;
/// `GameOver` is terminal and replaces the abrupt stop a fatal collision
/// would otherwise force.
#[derive(PartialEq, Eq, Structural, Clone, Copy, Debug)]
pub enum Phase {
    Normal,
    Falling,
    GameOver,
}

/// The whole game: the shared grid, the creature, the active fruits, the
/// falling snapshot while one exists, and the phase controller's state.
pub struct GameState {
    pub grid: Grid,
    pub creature: Creature,
    pub fruits: Vec<Fruit>,
    pub falling: Option<FallingBlocks>,
    pub phase: Phase,
}

/// Whether some fruit lies at cell `head`.
pub open spec fn spec_fruit_at(fruits: Seq<Fruit>, head: Cell) -> bool {
    exists|i: int| 0 <= i < fruits.len() && (#[trigger] fruits[i]).pos == head
}

/// The fruits that survive a Normal tick: every fruit at the creature's head
/// is removed and the others keep their order.
pub open spec fn spec_surviving_fruits(fruits: Seq<Fruit>, head: Cell) -> Seq<Fruit>
    decreases fruits.len(),
{
    if fruits.len() == 0 {
        Seq::empty()
    } else {
        spec_surviving_fruits(fruits.drop_last(), head) + (if fruits.last().pos == head {
            Seq::empty()
        } else {
            seq![fruits.last()]
        })
    }
}

/// The fatal conditions checked on the current head before a step: the head
/// lies outside the grid, it coincides with exactly one other body cell (at
/// the spawn every segment is stacked on one cell, so only a single
/// duplicate marks a genuine self-collision), or it lies on a settled cell.
pub open spec fn spec_fatal(
    head: Cell,
    body: Seq<Cell>,
    g: Map<(int, int), bool>,
    w: int,
    h: int,
) -> bool {
    ||| !in_bounds(head, w, h)
    ||| count_matches(body.drop_first(), head) == 1
    ||| g[(head.x as int, head.y as int)]
}

/// How one Normal-phase tick transforms the state. `creature` and `fruits`
/// are the state before the tick, and `g1` the occupancy map left by the
/// tick's row-clear pass. In order: fruit at the head is eaten (starting the
/// falling phase), the fatal conditions end the game, inputs are buffered,
/// and the creature steps once if its timer fired.
pub open spec fn normal_tick_rel(
    creature: Creature,
    fruits: Seq<Fruit>,
    g1: Map<(int, int), bool>,
    w: int,
    h: int,
    now_ms: u64,
    inputs: Seq<Direction>,
    post: GameState,
) -> bool {
    let head = creature.body@[0];
    let eaten = spec_fruit_at(fruits, head);
    let fatal = spec_fatal(head, creature.body@, g1, w, h);
    &&& post.grid.spec_width() == w
    &&& post.grid.spec_height() == h
    &&& post.grid.view() == g1
    &&& post.fruits@ == spec_surviving_fruits(fruits, head)
    &&& post.creature.length == creature.length
    &&& post.creature.disabled == eaten
    &&& if fatal {
        &&& post.phase is GameOver
        &&& post.falling is None
        &&& post.creature.body@ == creature.body@
        &&& post.creature.direction_queue@ == creature.direction_queue@
        &&& post.creature.last_move == creature.last_move
    } else {
        &&& post.phase == (if eaten {
            Phase::Falling
        } else {
            Phase::Normal
        })
        &&& (if eaten {
            post.falling matches Some(fb) && fb.body@ == creature.body@ && fb.length
                == creature.length && fb.last_move == now_ms && !fb.hit_ground
        } else {
            post.falling is None
        })
        &&& {
            let q2 = spec_enqueue_all(creature.direction_queue@, inputs);
            if timer_fired(now_ms, creature.last_move, STEP_INTERVAL_MS) {
                let q3 = if q2.len() > 1 {
                    q2.drop_first()
                } else {
                    q2
                };
                &&& post.creature.direction_queue@ == q3
                &&& post.creature.body@ == spec_step_body(
                    creature.body@,
                    q3[0],
                    creature.length as nat,
                )
                &&& post.creature.last_move == now_ms
            } else {
                &&& post.creature.direction_queue@ == q2
                &&& post.creature.body@ == creature.body@
                &&& post.creature.last_move == creature.last_move
            }
        }
    }
}

/// How one Falling-phase tick transforms the state. `fb`, `creature` and
/// `fruits` are the state before the tick, and `g1` the occupancy map left
/// by the tick's row-clear pass. A snapshot that already hit the ground
/// settles: its cells are committed, the creature is reset and grown, and a
/// fresh fruit appears on some free cell. Otherwise the snapshot falls one
/// step when its timer fired.
pub open spec fn falling_tick_rel(
    fb: FallingBlocks,
    creature: Creature,
    fruits: Seq<Fruit>,
    g1: Map<(int, int), bool>,
    w: int,
    h: int,
    now_ms: u64,
    post: GameState,
) -> bool {
    &&& post.grid.spec_width() == w
    &&& post.grid.spec_height() == h
    &&& if fb.hit_ground {
        let g2 = spec_commit(g1, fb.body@);
        &&& post.grid.view() == g2
        &&& post.falling is None
        &&& post.phase is Normal
        &&& !post.creature.disabled
        &&& post.creature.length == creature.length + 1
        &&& post.creature.body@ == Seq::new(
            creature.body@.len(),
            |i: int| Cell { x: (w / 2) as i32, y: 0 },
        )
        &&& post.creature.direction_queue@ == creature.direction_queue@.update(
            0,
            Direction::Down,
        )
        &&& post.creature.last_move == creature.last_move
        &&& if has_free_cell(g2, w, h) {
            &&& post.fruits@.len() == fruits.len() + 1
            &&& post.fruits@.drop_last() == fruits
            &&& in_bounds(post.fruits@.last().pos, w, h)
            &&& !g2[(post.fruits@.last().pos.x as int, post.fruits@.last().pos.y as int)]
        } else {
            post.fruits@ == fruits
        }
    } else if timer_fired(now_ms, fb.last_move, FALL_INTERVAL_MS) {
        &&& post.grid.view() == g1
        &&& post.phase is Falling
        &&& (post.falling matches Some(fb2) && fb2.length == fb.length && fb2.last_move == now_ms
            && (if spec_blocked(fb.body@, g1, h) {
            fb2.body@ == fb.body@ && fb2.hit_ground
        } else {
            fb2.body@ == spec_fallen_body(fb.body@) && fb2.hit_ground == fb.hit_ground
        }))
        &&& post.creature == creature
        &&& post.fruits@ == fruits
    } else {
        &&& post.grid.view() == g1
        &&& post.phase is Falling
        &&& (post.falling matches Some(fb2) && fb2.body@ == fb.body@ && fb2.length == fb.length
            && fb2.last_move == fb.last_move && fb2.hit_ground == fb.hit_ground)
        &&& post.creature == creature
        &&& post.fruits@ == fruits
    }
}

impl GameState {
    /// The game's global invariant: the grid is well-formed and at least 4 by
    /// 2 (so both spawn points lie inside it), every body cell behind the
    /// head and every fruit lies in bounds, a falling snapshot exists exactly
    /// during the Falling phase and its cells lie in bounds, and the creature
    /// is enabled during the Normal phase.
    pub open spec fn wf(self) -> bool {
        let w = self.grid.spec_width() as int;
        let h = self.grid.spec_height() as int;
        &&& self.grid.wf()
        &&& 4 <= w
        &&& 2 <= h
        &&& self.creature.wf()
        &&& forall|i: int|
            1 <= i < self.creature.body@.len() ==> in_bounds(
                #[trigger] self.creature.body@[i],
                w,
                h,
            )
        &&& forall|i: int|
            0 <= i < self.fruits@.len() ==> in_bounds((#[trigger] self.fruits@[i]).pos, w, h)
        &&& (self.phase is Falling <==> self.falling is Some)
        &&& (self.falling matches Some(fb) ==> fb.wf(w, h))
        &&& (self.phase is Normal ==> !self.creature.disabled)
    }

    /// A fresh game over a `width` by `height` grid. The grid begins fully
    /// occupied — the first tick's row-clear pass then empties it — with one
    /// fruit at a uniformly random cell and the creature at its start.
    pub fn new(width: usize, height: usize, now_ms: u64) -> (g: GameState)
        requires
            4 <= width <= i32::MAX,
            2 <= height <= i32::MAX,
            width * height <= usize::MAX,
        ensures
            g.wf(),
            g.grid.spec_width() == width,
            g.grid.spec_height() == height,
            forall|k: (int, int)|
                g.grid.view()[k] == key_in_bounds(k, width as int, height as int),
            g.creature.body@ == seq![start_cell(), start_cell(), start_cell()],
            g.creature.length == 3,
            g.creature.direction_queue@ == seq![Direction::Right],
            g.creature.last_move == now_ms,
            !g.creature.disabled,
            g.fruits@.len() == 1,
            in_bounds(g.fruits@[0].pos, width as int, height as int),
            g.falling is None,
            g.phase is Normal,
    {
        let grid = Grid::new_filled(width, height, true);
        let fx = random_below(width);
        let fy = random_below(height);
        let mut fruits: Vec<Fruit> = Vec::new();
        fruits.push(Fruit::new(Cell { x: fx as i32, y: fy as i32 }));
        let creature = Creature::new(now_ms);
        GameState { grid, creature, fruits, falling: None, phase: Phase::Normal }
    }

    /// One update call of the host's frame loop. `now_ms` is the host's
    /// monotonic clock in milliseconds and `inputs` the directional key
    /// presses delivered this frame, in order. A row-clear pass runs first,
    /// then the phase controller dispatches; a finished game changes nothing.
    pub fn tick(&mut self, now_ms: u64, inputs: &Vec<Direction>)
        requires
            old(self).wf(),
            old(self).creature.length < usize::MAX,
        ensures
            final(self).wf(),
            old(self).phase is GameOver ==> *final(self) == *old(self),
            old(self).phase is Normal ==> normal_tick_rel(
                old(self).creature,
                old(self).fruits@,
                spec_clear_and_collapse(
                    old(self).grid.view(),
                    old(self).grid.spec_width() as int,
                    old(self).grid.spec_height() as int,
                ),
                old(self).grid.spec_width() as int,
                old(self).grid.spec_height() as int,
                now_ms,
                inputs@,
                *final(self),
            ),
            old(self).phase is Falling ==> falling_tick_rel(
                old(self).falling->Some_0,
                old(self).creature,
                old(self).fruits@,
                spec_clear_and_collapse(
                    old(self).grid.view(),
                    old(self).grid.spec_width() as int,
                    old(self).grid.spec_height() as int,
                ),
                old(self).grid.spec_width() as int,
                old(self).grid.spec_height() as int,
                now_ms,
                *final(self),
            ),
    {
        match self.phase {
            Phase::GameOver => {},
            Phase::Normal => {
                self.grid.clear_full_rows();
                self.tick_normal(now_ms, inputs);
            },
            Phase::Falling => {
                self.grid.clear_full_rows();
                self.tick_falling(now_ms);
            },
        }
    }

    /// The Normal-phase part of a tick, run after the row-clear pass.
    #[verifier::loop_isolation(false)]
    fn tick_normal(&mut self, now_ms: u64, inputs: &Vec<Direction>)
        requires
            old(self).wf(),
            old(self).phase is Normal,
        ensures
            final(self).wf(),
            normal_tick_rel(
                old(self).creature,
                old(self).fruits@,
                old(self).grid.view(),
                old(self).grid.spec_width() as int,
                old(self).grid.spec_height() as int,
                now_ms,
                inputs@,
                *final(self),
            ),
    {
        proof {
            self.grid.lemma_wf_bounds();
        }
        let ghost w_ = self.grid.spec_width() as int;
        let ghost h_ = self.grid.spec_height() as int;
        let head = self.creature.body[0];

        // Fruit consumption: every fruit at the head is removed, and the
        // first match snapshots the body and starts the falling phase.
        let mut survivors: Vec<Fruit> = Vec::new();
        let mut eaten = false;
        let mut i: usize = 0;
        while i < self.fruits.len()
            invariant
                self == old(self),
                i <= self.fruits@.len(),
                survivors@ == spec_surviving_fruits(self.fruits@.take(i as int), head),
                eaten == spec_fruit_at(self.fruits@.take(i as int), head),
                forall|j: int|
                    0 <= j < survivors@.len() ==> in_bounds(
                        (#[trigger] survivors@[j]).pos,
                        w_,
                        h_,
                    ),
            decreases self.fruits@.len() - i,
        {
            let f = self.fruits[i];
            proof {
                assert(self.fruits@.take(i + 1).drop_last() =~= self.fruits@.take(i as int));
                assert(self.fruits@.take(i + 1).last() == f);
                if f.pos == head {
                    assert(spec_fruit_at(self.fruits@.take(i + 1), head));
                } else {
                    assert forall|j: int|
                        0 <= j < i + 1 && (#[trigger] self.fruits@.take(i + 1)[j]).pos
                            == head implies spec_fruit_at(self.fruits@.take(i as int), head) by {
                        assert(self.fruits@.take(i as int)[j] == self.fruits@.take(i + 1)[j]);
                    }
                }
            }
            if f.pos == head {
                eaten = true;
            } else {
                survivors.push(f);
            }
            i += 1;
        }
        proof {
            assert(self.fruits@.take(self.fruits@.len() as int) =~= self.fruits@);
        }
        self.fruits = survivors;
        if eaten {
            proof {
                let wit = choose|ix: int|
                    0 <= ix < old(self).fruits@.len() && (#[trigger] old(self).fruits@[ix]).pos
                        == head;
                assert(in_bounds(head, w_, h_));
                assert forall|ix: int| 0 <= ix < old(self).creature.body@.len() implies in_bounds(
                    #[trigger] old(self).creature.body@[ix],
                    w_,
                    h_,
                ) by {
                    if ix == 0 {
                        assert(old(self).creature.body@[0] == head);
                    }
                }
            }
            self.falling = Some(FallingBlocks::from_creature(&self.creature, now_ms));
            self.creature.disabled = true;
            self.phase = Phase::Falling;
        }

        // The fatal conditions end the game before any movement.
        let mut count: usize = 0;
        let mut j: usize = 1;
        while j < self.creature.body.len()
            invariant
                1 <= j <= self.creature.body@.len(),
                self.creature.body@ == old(self).creature.body@,
                count == count_matches(self.creature.body@.subrange(1, j as int), head),
                count < j,
            decreases self.creature.body@.len() - j,
        {
            proof {
                assert(self.creature.body@.subrange(1, j + 1).drop_last()
                    =~= self.creature.body@.subrange(1, j as int));
                assert(self.creature.body@.subrange(1, j + 1).last()
                    == self.creature.body@[j as int]);
            }
            let c = self.creature.body[j];
            if c == head {
                count += 1;
            }
            j += 1;
        }
        proof {
            assert(self.creature.body@.subrange(1, self.creature.body@.len() as int)
                =~= self.creature.body@.drop_first());
        }
        let w = self.grid.width();
        let h = self.grid.height();
        let oob = head.x < 0 || head.y < 0 || head.x >= w as i32 || head.y >= h as i32;
        let occ = if !oob {
            self.grid.occupied(head.x as usize, head.y as usize)
        } else {
            proof {
                self.grid.lemma_view_oob((head.x as int, head.y as int));
            }
            false
        };
        let fatal = oob || count == 1 || occ;
        if fatal {
            self.phase = Phase::GameOver;
            self.falling = None;
            return ;
        }

        // Buffer this frame's inputs, then step once if the timer fired.
        self.creature.enqueue_all(inputs);
        if check_timer(now_ms, self.creature.last_move, STEP_INTERVAL_MS) {
            self.creature.consume_direction();
            proof {
                assert(in_bounds(head, w_, h_));
            }
            self.creature.step();
            self.creature.last_move = now_ms;
            proof {
                let stepped = self.creature.body@;
                let pre = old(self).creature.body@;
                assert forall|k: int| 1 <= k < stepped.len() implies in_bounds(
                    #[trigger] stepped[k],
                    w_,
                    h_,
                ) by {
                    assert(stepped[k] == (seq![head.spec_moved(
                        self.creature.direction_queue@[0],
                    )] + pre)[k]);
                    assert(stepped[k] == pre[k - 1]);
                    if k == 1 {
                        assert(pre[0] == head);
                    }
                }
            }
        }
    }

    /// The Falling-phase part of a tick, run after the row-clear pass.
    fn tick_falling(&mut self, now_ms: u64)
        requires
            old(self).wf(),
            old(self).phase is Falling,
            old(self).creature.length < usize::MAX,
        ensures
            final(self).wf(),
            falling_tick_rel(
                old(self).falling->Some_0,
                old(self).creature,
                old(self).fruits@,
                old(self).grid.view(),
                old(self).grid.spec_width() as int,
                old(self).grid.spec_height() as int,
                now_ms,
                *final(self),
            ),
    {
        proof {
            self.grid.lemma_wf_bounds();
        }
        let hit = match &self.falling {
            Some(fb) => fb.hit_ground,
            None => unreached(),
        };
        if hit {
            // Settlement: commit the cells, reset and grow the creature,
            // spawn a fresh fruit, and return to the Normal phase.
            let body: Vec<Cell> = match &self.falling {
                Some(fb) => copy_cells(&fb.body),
                None => unreached(),
            };
            self.grid.commit_cells(&body);
            self.falling = None;
            let half_w = self.grid.width() / 2;
            self.creature.grow_and_reset(Cell { x: half_w as i32, y: 0 });
            match spawn_fruit_cell(&self.grid) {
                Some(c) => {
                    self.fruits.push(Fruit::new(c));
                    proof {
                        let w_ = old(self).grid.spec_width() as int;
                        let h_ = old(self).grid.spec_height() as int;
                        assert(self.fruits@.drop_last() =~= old(self).fruits@);
                        assert(key_in_bounds((c.x as int, c.y as int), w_, h_));
                        assert(has_free_cell(self.grid.view(), w_, h_));
                    }
                },
                None => {},
            }
            self.phase = Phase::Normal;
            proof {
                let w_ = old(self).grid.spec_width() as int;
                assert(self.creature.body@ =~= Seq::new(
                    old(self).creature.body@.len(),
                    |i: int| Cell { x: (w_ / 2) as i32, y: 0 },
                ));
            }
        } else {
            let last = match &self.falling {
                Some(fb) => fb.last_move,
                None => unreached(),
            };
            if check_timer(now_ms, last, FALL_INTERVAL_MS) {
                let mut fb = match &self.falling {
                    Some(fb) => FallingBlocks {
                        body: copy_cells(&fb.body),
                        length: fb.length,
                        last_move: fb.last_move,
                        hit_ground: fb.hit_ground,
                    },
                    None => unreached(),
                };
                fb.step(&self.grid);
                fb.last_move = now_ms;
                self.falling = Some(fb);
            }
        }
    }
}

/// An element-for-element copy of a cell vector.
fn copy_cells(v: &Vec<Cell>) -> (r: Vec<Cell>)
    ensures
        r@ == v@,
{
    let mut r: Vec<Cell> = Vec::new();
    let mut i: usize = 0;
    while i < v.len()
        invariant
            i <= v@.len(),
            r@ == v@.take(i as int),
        decreases v@.len() - i,
    {
        r.push(v[i]);
        proof {
            assert(v@.take(i + 1) =~= v@.take(i as int).push(v@[i as int]));
        }
        i += 1;
    }
    proof {
        assert(v@.take(v@.len() as int) =~= v@);
    }
    r
}

/// Whether some in-bounds cell of `m` is unoccupied.
pub open spec fn has_free_cell(m: Map<(int, int), bool>, w: int, h: int) -> bool {
    exists|k: (int, int)| #[trigger] key_in_bounds(k, w, h) && !m[k]
}

/// How many random draws rejection sampling makes before falling back to a
/// deterministic scan.
pub const SPAWN_TRIES: usize = 10000;

/// An unoccupied cell, found by rejection sampling: a fresh uniformly random
/// candidate is drawn while the previous one landed on an occupied cell. On
/// a fully occupied grid no candidate is ever accepted; normal play never
/// reaches that state, and instead of searching forever the sampling is
/// bounded, a scan then finds a free cell if one exists at all, and `None`
/// reports a grid with no free cell.
#[verifier::loop_isolation(false)]
pub fn spawn_fruit_cell(grid: &Grid) -> (c: Option<Cell>)
    requires
        grid.wf(),
    ensures
        match c {
            Some(cell) => in_bounds(cell, grid.spec_width() as int, grid.spec_height() as int)
                && !grid.view()[(cell.x as int, cell.y as int)],
            None => !has_free_cell(
                grid.view(),
                grid.spec_width() as int,
                grid.spec_height() as int,
            ),
        },
{
    proof {
        grid.lemma_wf_bounds();
    }
    let w = grid.width();
    let h = grid.height();
    let mut tries: usize = 0;
    while tries < SPAWN_TRIES
        decreases SPAWN_TRIES - tries,
    {
        let x = random_below(w);
        let y = random_below(h);
        if !grid.occupied(x, y) {
            return Some(Cell { x: x as i32, y: y as i32 });
        }
        tries += 1;
    }
    let mut yy: usize = 0;
    while yy < h
        invariant
            yy <= h,
            forall|k: (int, int)|
                #[trigger] key_in_bounds(k, w as int, h as int) && k.1 < yy ==> grid.view()[k],
        decreases h - yy,
    {
        let mut xx: usize = 0;
        while xx < w
            invariant
                xx <= w,
                forall|k: (int, int)|
                    #[trigger] key_in_bounds(k, w as int, h as int) && (k.1 < yy || (k.1 == yy
                        && k.0 < xx)) ==> grid.view()[k],
            decreases w - xx,
        {
            if !grid.occupied(xx, yy) {
                return Some(Cell { x: xx as i32, y: yy as i32 });
            }
            xx += 1;
        }
        yy += 1;
    }
    None
}

} // verus!
