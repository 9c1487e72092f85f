use gridfall::cell::Cell;
use gridfall::creature::Creature;
use gridfall::dir::Direction;
use gridfall::falling::FallingBlocks;
use gridfall::fruit::Fruit;
use gridfall::game::{spawn_fruit_cell, GameState, Phase};
use gridfall::grid::Grid;

fn empty_game(width: usize, height: usize) -> GameState {
    GameState {
        grid: Grid::new_filled(width, height, false),
        creature: Creature::new(0),
        fruits: vec![Fruit::new(Cell { x: 8, y: 8 })],
        falling: None,
        phase: Phase::Normal,
    }
}

#[test]
fn new_game_starts_fully_occupied_in_normal_phase() {
    let g = GameState::new(9, 9, 42);
    for y in 0..9 {
        for x in 0..9 {
            assert!(g.grid.occupied(x, y));
        }
    }
    assert_eq!(g.creature.body, vec![Cell { x: 3, y: 1 }; 3]);
    assert_eq!(g.creature.length, 3);
    assert_eq!(g.creature.last_move, 42);
    assert_eq!(g.fruits.len(), 1);
    let p = g.fruits[0].pos;
    assert!(0 <= p.x && p.x < 9 && 0 <= p.y && p.y < 9);
    assert!(g.falling.is_none());
    assert_eq!(g.phase, Phase::Normal);
}

#[test]
fn first_tick_clears_the_fully_occupied_grid() {
    let mut g = empty_game(9, 9);
    g.grid = Grid::new_filled(9, 9, true);
    g.tick(0, &vec![]);
    for y in 0..9 {
        for x in 0..9 {
            assert!(!g.grid.occupied(x, y));
        }
    }
    assert_eq!(g.phase, Phase::Normal);
    assert_eq!(g.fruits.len(), 1);
}

#[test]
fn eating_a_fruit_starts_the_falling_phase() {
    let mut g = empty_game(9, 9);
    g.fruits = vec![Fruit::new(Cell { x: 3, y: 1 })];
    g.tick(0, &vec![]);
    assert_eq!(g.phase, Phase::Falling);
    assert!(g.creature.disabled);
    assert!(g.fruits.is_empty());
    let fb = g.falling.as_ref().unwrap();
    // The snapshot holds the body as it was when the fruit was eaten.
    assert_eq!(fb.body, vec![Cell { x: 3, y: 1 }; 3]);
    assert_eq!(fb.length, 3);
    assert!(!fb.hit_ground);
}

#[test]
fn settlement_commits_blocks_grows_and_respawns() {
    let mut g = empty_game(4, 6);
    g.fruits = vec![];
    g.creature.disabled = true;
    g.falling = Some(FallingBlocks {
        body: vec![Cell { x: 2, y: 5 }, Cell { x: 1, y: 5 }],
        length: 3,
        last_move: 0,
        hit_ground: true,
    });
    g.phase = Phase::Falling;
    g.tick(50, &vec![]);
    // The blocks are now settled grid cells.
    assert!(g.grid.occupied(2, 5));
    assert!(g.grid.occupied(1, 5));
    assert!(g.falling.is_none());
    assert_eq!(g.phase, Phase::Normal);
    // The creature is re-enabled at the top spawn, one segment longer in
    // target but not in body.
    assert!(!g.creature.disabled);
    assert_eq!(g.creature.length, 4);
    assert_eq!(g.creature.body, vec![Cell { x: 2, y: 0 }; 3]);
    assert_eq!(g.creature.direction_queue[0], Direction::Down);
    // A fresh fruit sits on a free in-bounds cell.
    assert_eq!(g.fruits.len(), 1);
    let p = g.fruits[0].pos;
    assert!(0 <= p.x && p.x < 4 && 0 <= p.y && p.y < 6);
    assert!(!g.grid.occupied(p.x as usize, p.y as usize));
}

#[test]
fn fruit_spawns_only_on_the_single_free_cell() {
    let mut grid = Grid::new_filled(4, 2, true);
    grid.set(1, 0, false);
    for _ in 0..20 {
        let c = spawn_fruit_cell(&grid).unwrap();
        assert_eq!(c, Cell { x: 1, y: 0 });
    }
}

#[test]
fn fruit_spawn_reports_a_fully_occupied_grid() {
    let grid = Grid::new_filled(4, 2, true);
    assert!(spawn_fruit_cell(&grid).is_none());
}

#[test]
fn self_collision_ends_the_game() {
    let mut g = empty_game(9, 9);
    // The head coincides with exactly one other body cell.
    g.creature.body = vec![
        Cell { x: 2, y: 2 },
        Cell { x: 2, y: 3 },
        Cell { x: 3, y: 3 },
        Cell { x: 3, y: 2 },
        Cell { x: 2, y: 2 },
    ];
    g.creature.length = 5;
    g.tick(0, &vec![]);
    assert_eq!(g.phase, Phase::GameOver);
    assert!(g.falling.is_none());
}

#[test]
fn stacked_spawn_is_not_a_self_collision() {
    // At the spawn every segment shares one cell: the head coincides with
    // two other cells, which the check does not treat as a collision.
    let mut g = empty_game(9, 9);
    g.tick(0, &vec![]);
    assert_eq!(g.phase, Phase::Normal);
}

#[test]
fn leaving_the_grid_ends_the_game() {
    let mut g = empty_game(9, 9);
    g.creature.body = vec![Cell { x: -1, y: 1 }, Cell { x: 0, y: 1 }, Cell { x: 1, y: 1 }];
    g.tick(0, &vec![]);
    assert_eq!(g.phase, Phase::GameOver);
}

#[test]
fn moving_onto_a_settled_cell_ends_the_game() {
    let mut g = empty_game(9, 9);
    g.grid.set(3, 1, true);
    g.tick(0, &vec![]);
    assert_eq!(g.phase, Phase::GameOver);
}

#[test]
fn game_over_is_terminal() {
    let mut g = empty_game(9, 9);
    g.phase = Phase::GameOver;
    g.tick(10_000, &vec![Direction::Up]);
    assert_eq!(g.phase, Phase::GameOver);
    assert_eq!(g.creature.body, vec![Cell { x: 3, y: 1 }; 3]);
}

#[test]
fn creature_steps_only_after_its_interval() {
    let mut g = empty_game(9, 9);
    g.tick(332, &vec![]);
    assert_eq!(g.creature.body[0], Cell { x: 3, y: 1 });
    assert_eq!(g.creature.last_move, 0);
    g.tick(333, &vec![]);
    assert_eq!(
        g.creature.body,
        vec![Cell { x: 4, y: 1 }, Cell { x: 3, y: 1 }, Cell { x: 3, y: 1 }]
    );
    assert_eq!(g.creature.last_move, 333);
}

#[test]
fn inputs_buffer_through_a_tick() {
    let mut g = empty_game(9, 9);
    // Up is accepted; Down is rejected against the most recently queued Up.
    g.tick(1, &vec![Direction::Up, Direction::Down]);
    assert_eq!(g.creature.direction_queue, vec![Direction::Right, Direction::Up]);
}

#[test]
fn buffered_input_steers_the_next_step() {
    let mut g = empty_game(9, 9);
    g.creature.direction_queue = vec![Direction::Right, Direction::Up];
    g.tick(333, &vec![]);
    assert_eq!(g.creature.direction_queue, vec![Direction::Up]);
    assert_eq!(g.creature.body[0], Cell { x: 3, y: 0 });
}

#[test]
fn falling_blocks_step_on_their_own_cadence() {
    let mut g = empty_game(9, 9);
    g.fruits = vec![];
    g.creature.disabled = true;
    g.falling = Some(FallingBlocks {
        body: vec![Cell { x: 2, y: 3 }],
        length: 3,
        last_move: 0,
        hit_ground: false,
    });
    g.phase = Phase::Falling;
    // Before a third of the creature interval: no movement.
    g.tick(110, &vec![]);
    assert_eq!(g.falling.as_ref().unwrap().body, vec![Cell { x: 2, y: 3 }]);
    // At the falling interval the body falls one row.
    g.tick(111, &vec![]);
    let fb = g.falling.as_ref().unwrap();
    assert_eq!(fb.body, vec![Cell { x: 2, y: 4 }]);
    assert_eq!(fb.last_move, 111);
    assert!(!fb.hit_ground);
    assert_eq!(g.phase, Phase::Falling);
}

#[test]
fn falling_to_settlement_end_to_end() {
    let mut g = empty_game(4, 6);
    g.fruits = vec![Fruit::new(Cell { x: 3, y: 1 })];
    g.creature.body = vec![Cell { x: 3, y: 1 }, Cell { x: 2, y: 1 }, Cell { x: 1, y: 1 }];
    // Eat the fruit.
    g.tick(0, &vec![]);
    assert_eq!(g.phase, Phase::Falling);
    // Let the snapshot fall to the floor, one row per interval.
    let mut now = 0;
    for _ in 0..4 {
        now += 111;
        g.tick(now, &vec![]);
        assert_eq!(g.phase, Phase::Falling);
    }
    // The body sits on the bottom row; the next fall step only marks it.
    now += 111;
    g.tick(now, &vec![]);
    assert_eq!(g.phase, Phase::Falling);
    assert!(g.falling.as_ref().unwrap().hit_ground);
    // The tick after that settles it.
    g.tick(now + 1, &vec![]);
    assert_eq!(g.phase, Phase::Normal);
    assert!(g.grid.occupied(3, 5));
    assert!(g.grid.occupied(2, 5));
    assert!(g.grid.occupied(1, 5));
    assert_eq!(g.creature.length, 4);
    assert_eq!(g.fruits.len(), 1);
}
