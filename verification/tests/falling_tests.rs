use gridfall::cell::Cell;
use gridfall::creature::Creature;
use gridfall::falling::FallingBlocks;
use gridfall::grid::Grid;

#[test]
fn from_creature_snapshots_body_and_length() {
    let c = Creature::new(5);
    let fb = FallingBlocks::from_creature(&c, 9);
    assert_eq!(fb.body, c.body);
    assert_eq!(fb.length, c.length);
    assert_eq!(fb.last_move, 9);
    assert!(!fb.hit_ground);
}

#[test]
fn bottom_row_cell_settles_without_moving() {
    // A single block on the bottom row of a height-6 grid stops on the very
    // first step.
    let g = Grid::new_filled(3, 6, false);
    let mut fb = FallingBlocks {
        body: vec![Cell { x: 2, y: 5 }],
        length: 1,
        last_move: 0,
        hit_ground: false,
    };
    fb.step(&g);
    assert!(fb.hit_ground);
    assert_eq!(fb.body, vec![Cell { x: 2, y: 5 }]);
}

#[test]
fn unblocked_body_falls_one_row_together() {
    let g = Grid::new_filled(3, 6, false);
    let mut fb = FallingBlocks {
        body: vec![Cell { x: 2, y: 3 }, Cell { x: 1, y: 2 }],
        length: 2,
        last_move: 0,
        hit_ground: false,
    };
    fb.step(&g);
    assert!(!fb.hit_ground);
    assert_eq!(fb.body, vec![Cell { x: 2, y: 4 }, Cell { x: 1, y: 3 }]);
}

#[test]
fn settled_cell_below_blocks_whole_body() {
    let mut g = Grid::new_filled(3, 6, false);
    g.set(2, 4, true);
    let mut fb = FallingBlocks {
        body: vec![Cell { x: 1, y: 3 }, Cell { x: 2, y: 3 }],
        length: 2,
        last_move: 0,
        hit_ground: false,
    };
    fb.step(&g);
    // One blocked cell stops every cell: none of them moves.
    assert!(fb.hit_ground);
    assert_eq!(fb.body, vec![Cell { x: 1, y: 3 }, Cell { x: 2, y: 3 }]);
}
