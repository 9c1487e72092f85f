use gridfall::cell::Cell;
use gridfall::creature::Creature;
use gridfall::dir::Direction;

#[test]
fn new_creature_is_stacked_at_start() {
    let c = Creature::new(7);
    assert_eq!(c.body, vec![Cell { x: 3, y: 1 }; 3]);
    assert_eq!(c.length, 3);
    assert_eq!(c.direction_queue, vec![Direction::Right]);
    assert_eq!(c.last_move, 7);
    assert!(!c.disabled);
}

#[test]
fn step_right_moves_head_and_trims_tail() {
    let mut c = Creature::new(0);
    c.step();
    assert_eq!(
        c.body,
        vec![Cell { x: 4, y: 1 }, Cell { x: 3, y: 1 }, Cell { x: 3, y: 1 }]
    );
}

#[test]
fn step_in_each_direction() {
    for (d, expected) in [
        (Direction::Up, Cell { x: 3, y: 0 }),
        (Direction::Down, Cell { x: 3, y: 2 }),
        (Direction::Left, Cell { x: 2, y: 1 }),
        (Direction::Right, Cell { x: 4, y: 1 }),
    ] {
        let mut c = Creature::new(0);
        c.direction_queue = vec![d];
        c.step();
        assert_eq!(c.body[0], expected);
    }
}

#[test]
fn direction_buffering_two_deep() {
    // Moving Right; Up is accepted, then Down is rejected because it is the
    // opposite of the most recently queued direction (Up), not of the one
    // being applied.
    let mut c = Creature::new(0);
    c.enqueue_direction(Direction::Up);
    assert_eq!(c.direction_queue, vec![Direction::Right, Direction::Up]);
    c.enqueue_direction(Direction::Down);
    assert_eq!(c.direction_queue, vec![Direction::Right, Direction::Up]);
    // A valid third direction is dropped: only two entries are kept.
    c.enqueue_direction(Direction::Left);
    assert_eq!(c.direction_queue, vec![Direction::Right, Direction::Up]);
}

#[test]
fn enqueue_rejects_same_and_opposite_direction() {
    let mut c = Creature::new(0);
    c.enqueue_direction(Direction::Right);
    assert_eq!(c.direction_queue, vec![Direction::Right]);
    c.enqueue_direction(Direction::Left);
    assert_eq!(c.direction_queue, vec![Direction::Right]);
}

#[test]
fn consume_direction_promotes_buffered_input() {
    let mut c = Creature::new(0);
    c.enqueue_direction(Direction::Up);
    c.consume_direction();
    assert_eq!(c.direction_queue, vec![Direction::Up]);
    // With a single entry nothing is consumed.
    c.consume_direction();
    assert_eq!(c.direction_queue, vec![Direction::Up]);
}

#[test]
fn growth_raises_target_then_body_catches_up() {
    let mut c = Creature::new(0);
    c.grow_and_reset(Cell { x: 4, y: 0 });
    // The target grows by exactly one; the body does not snap to it.
    assert_eq!(c.length, 4);
    assert_eq!(c.body, vec![Cell { x: 4, y: 0 }; 3]);
    assert_eq!(c.direction_queue, vec![Direction::Down]);
    assert!(!c.disabled);
    // The next step grows the body to the new target without trimming.
    c.step();
    assert_eq!(c.body.len(), 4);
    assert_eq!(c.body[0], Cell { x: 4, y: 1 });
    // Another step trims again: the body stays at the target length.
    c.step();
    assert_eq!(c.body.len(), 4);
}

#[test]
fn grow_and_reset_keeps_buffered_direction() {
    let mut c = Creature::new(0);
    c.enqueue_direction(Direction::Up);
    c.grow_and_reset(Cell { x: 4, y: 0 });
    assert_eq!(c.direction_queue, vec![Direction::Down, Direction::Up]);
}
