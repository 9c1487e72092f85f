use vstd::prelude::*;
use crate::cell::Cell;
use crate::dir::Direction;

verus! {

/// The column and row where the creature first appears.
pub open spec fn start_cell() -> Cell {
    Cell { x: 3, y: 1 }
}

/// How many cells of `s` equal `c`.
pub open spec fn count_matches(s: Seq<Cell>, c: Cell) -> nat
    decreases s.len(),
{
    if s.len() == 0 {
        0
    } else {
        count_matches(s.drop_last(), c) + if s.last() == c {
            1nat
        } else {
            0nat
        }
    }
}

/// The body after one step in direction `d`: the head's neighbour is put in
/// front, and the tail cell is dropped once the body would exceed `target`.
pub open spec fn spec_step_body(body: Seq<Cell>, d: Direction, target: nat) -> Seq<Cell> {
    let grown = seq![body[0].spec_moved(d)] + body;
    if grown.len() > target {
        grown.drop_last()
    } else {
        grown
    }
}

/// The direction queue after one buffered input `d`. The input is compared
/// against the most recently queued direction: it is dropped when it equals
/// that direction or its opposite, and the queue never keeps more than two
/// entries, so a valid input arriving at a full queue is dropped as well.
pub open spec fn spec_enqueue(q: Seq<Direction>, d: Direction) -> Seq<Direction> {
    if d != q.last().spec_opposite() && d != q.last() {
        q.push(d).take(2)
    } else {
        q
    }
}

/// The direction queue after a batch of inputs, buffered in delivery order.
pub open spec fn spec_enqueue_all(q: Seq<Direction>, ds: Seq<Direction>) -> Seq<Direction>
    decreases ds.len(),
{
    if ds.len() == 0 {
        q
    } else {
        spec_enqueue_all(spec_enqueue(q, ds[0]), ds.drop_first())
    }
}

/// Buffering a batch and then one more input is the same as buffering the
/// extended batch.
pub proof fn lemma_enqueue_all_snoc(q: Seq<Direction>, ds: Seq<Direction>, d: Direction)
    ensures
        spec_enqueue_all(q, ds.push(d)) == spec_enqueue(spec_enqueue_all(q, ds), d),
    decreases ds.len(),
{
    if ds.len() == 0 {
        assert(ds.push(d)[0] == d);
        assert(ds.push(d).drop_first() =~= Seq::<Direction>::empty());
        assert(spec_enqueue_all(q, ds.push(d)) == spec_enqueue_all(
            spec_enqueue(q, d),
            Seq::<Direction>::empty(),
        ));
        assert(spec_enqueue_all(spec_enqueue(q, d), Seq::<Direction>::empty()) == spec_enqueue(
            q,
            d,
        ));
        assert(spec_enqueue_all(q, ds) == q);
    } else {
        assert(ds.push(d)[0] == ds[0]);
        assert(ds.push(d).drop_first() =~= ds.drop_first().push(d));
        assert(spec_enqueue_all(q, ds.push(d)) == spec_enqueue_all(
            spec_enqueue(q, ds[0]),
            ds.drop_first().push(d),
        ));
        lemma_enqueue_all_snoc(spec_enqueue(q, ds[0]), ds.drop_first(), d);
        assert(spec_enqueue_all(q, ds) == spec_enqueue_all(
            spec_enqueue(q, ds[0]),
            ds.drop_first(),
        ));
    }
}

/// Law: growth after a settlement is gradual. A step lengthens a body that
/// is below its target length by exactly one cell, and keeps a body that has
/// reached the target at that length; the reset after a settlement leaves
/// the body below its new target, so the body only catches up step by step.
pub proof fn lemma_growth_is_gradual(body: Seq<Cell>, d: Direction, target: nat)
    requires
        body.len() >= 1,
    ensures
        body.len() < target ==> spec_step_body(body, d, target).len() == body.len() + 1,
        body.len() >= target ==> spec_step_body(body, d, target).len() == body.len(),
{
}

/// The player-steered segmented body. The head is the first body cell;
/// timestamps are in milliseconds of the host's monotonic clock.
pub struct Creature {
    pub body: Vec<Cell>,
    pub length: usize,
    pub last_move: u64,
    pub direction_queue: Vec<Direction>,
    pub disabled: bool,
}

impl Creature {
    /// The body is never empty and never longer than the target length, and
    /// the queue holds the direction being applied plus at most one buffered
    /// input.
    pub open spec fn wf(self) -> bool {
        &&& 1 <= self.body@.len() <= self.length
        &&& 1 <= self.direction_queue@.len() <= 2
    }

    pub open spec fn head(self) -> Cell {
        self.body@[0]
    }

    /// A creature of target length three, all segments stacked on the start
    /// cell, moving right.
    pub fn new(now_ms: u64) -> (c: Creature)
        ensures
            c.wf(),
            c.body@ =~= seq![start_cell(), start_cell(), start_cell()],
            c.length == 3,
            c.direction_queue@ =~= seq![Direction::Right],
            c.last_move == now_ms,
            !c.disabled,
    {
        let mut body: Vec<Cell> = Vec::new();
        body.push(Cell { x: 3, y: 1 });
        body.push(Cell { x: 3, y: 1 });
        body.push(Cell { x: 3, y: 1 });
        let mut direction_queue: Vec<Direction> = Vec::new();
        direction_queue.push(Direction::Right);
        Creature { body, length: 3, last_move: now_ms, direction_queue, disabled: false }
    }

    /// One discrete movement step: the cell ahead of the head (in the queue's
    /// current direction) becomes the new head, and the tail is trimmed once
    /// the body exceeds its target length.
    pub fn step(&mut self)
        requires
            old(self).wf(),
            i32::MIN < old(self).head().x < i32::MAX,
            i32::MIN < old(self).head().y < i32::MAX,
        ensures
            final(self).wf(),
            final(self).body@ == spec_step_body(
                old(self).body@,
                old(self).direction_queue@[0],
                old(self).length as nat,
            ),
            final(self).length == old(self).length,
            final(self).direction_queue@ == old(self).direction_queue@,
            final(self).last_move == old(self).last_move,
            final(self).disabled == old(self).disabled,
    {
        let d = self.direction_queue[0];
        let head = self.body[0];
        self.body.insert(0, head.moved(d));
        if self.body.len() > self.length {
            self.body.pop();
            proof {
                let grown = seq![head.spec_moved(d)] + old(self).body@;
                assert(self.body@ =~= grown.drop_last());
            }
        } else {
            proof {
                assert(self.body@ =~= seq![head.spec_moved(d)] + old(self).body@);
            }
        }
    }

    /// Buffer one directional input, as `spec_enqueue` describes.
    pub fn enqueue_direction(&mut self, d: Direction)
        requires
            old(self).wf(),
        ensures
            final(self).wf(),
            final(self).direction_queue@ == spec_enqueue(old(self).direction_queue@, d),
            final(self).body@ == old(self).body@,
            final(self).length == old(self).length,
            final(self).last_move == old(self).last_move,
            final(self).disabled == old(self).disabled,
    {
        let last = self.direction_queue[self.direction_queue.len() - 1];
        if d != last.opposite() && d != last {
            self.direction_queue.push(d);
            self.direction_queue.truncate(2);
            proof {
                assert(final(self).direction_queue@ =~= old(
                    self,
                ).direction_queue@.push(d).take(2));
            }
        }
    }

    /// Buffer a batch of directional inputs in delivery order.
    pub fn enqueue_all(&mut self, inputs: &Vec<Direction>)
        requires
            old(self).wf(),
        ensures
            final(self).wf(),
            final(self).direction_queue@ == spec_enqueue_all(
                old(self).direction_queue@,
                inputs@,
            ),
            final(self).body@ == old(self).body@,
            final(self).length == old(self).length,
            final(self).last_move == old(self).last_move,
            final(self).disabled == old(self).disabled,
    {
        let ghost q0 = self.direction_queue@;
        let mut i: usize = 0;
        while i < inputs.len()
            invariant
                i <= inputs@.len(),
                self.wf(),
                self.direction_queue@ == spec_enqueue_all(q0, inputs@.take(i as int)),
                self.body@ == old(self).body@,
                self.length == old(self).length,
                self.last_move == old(self).last_move,
                self.disabled == old(self).disabled,
            decreases inputs@.len() - i,
        {
            self.enqueue_direction(inputs[i]);
            proof {
                lemma_enqueue_all_snoc(q0, inputs@.take(i as int), inputs@[i as int]);
                assert(inputs@.take(i + 1) =~= inputs@.take(i as int).push(inputs@[i as int]));
            }
            i += 1;
        }
        proof {
            assert(inputs@.take(inputs@.len() as int) =~= inputs@);
        }
    }

    /// Consume the direction that has just been fully applied, so that the
    /// buffered one (if any) steers the next step.
    pub fn consume_direction(&mut self)
        requires
            old(self).wf(),
        ensures
            final(self).wf(),
            final(self).direction_queue@ == if old(self).direction_queue@.len() > 1 {
                old(self).direction_queue@.drop_first()
            } else {
                old(self).direction_queue@
            },
            final(self).body@ == old(self).body@,
            final(self).length == old(self).length,
            final(self).last_move == old(self).last_move,
            final(self).disabled == old(self).disabled,
    {
        if self.direction_queue.len() > 1 {
            self.direction_queue.remove(0);
            proof {
                assert(final(self).direction_queue@ =~= old(self).direction_queue@.drop_first());
            }
        }
    }

    /// The settlement side effects on the creature: it is re-enabled with the
    /// target length one larger, every segment moved to `spawn`, and the
    /// current direction forced to `Down` (a buffered input is kept).
    pub fn grow_and_reset(&mut self, spawn: Cell)
        requires
            old(self).wf(),
            old(self).length < usize::MAX,
        ensures
            final(self).wf(),
            final(self).length == old(self).length + 1,
            final(self).body@ == Seq::new(old(self).body@.len(), |i: int| spawn),
            final(self).direction_queue@ == old(self).direction_queue@.update(0, Direction::Down),
            final(self).last_move == old(self).last_move,
            !final(self).disabled,
    {
        self.disabled = false;
        self.length = self.length + 1;
        let n = self.body.len();
        let mut body: Vec<Cell> = Vec::new();
        while body.len() < n
            invariant
                body@.len() <= n,
                forall|i: int| 0 <= i < body@.len() ==> body@[i] == spawn,
            decreases n - body@.len(),
        {
            body.push(spawn);
        }
        self.body = body;
        self.direction_queue[0] = Direction::Down;
        proof {
            assert(final(self).body@ =~= Seq::new(old(self).body@.len(), |i: int| spawn));
        }
    }
}

} // verus!
