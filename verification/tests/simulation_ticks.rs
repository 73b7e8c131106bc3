use snake_sim::cell::{Cell, CellContent, CellPos};
use snake_sim::grid::{Grid, GRID_SIZE};
use snake_sim::input::DirectionQueue;
use snake_sim::simulation::{Sim, SimError, SimState};
use snake_sim::utils::Direction;

fn empty_queue() -> DirectionQueue {
    DirectionQueue::default()
}

/// A three-segment snake with its head at `head`, lying to the left of
/// it, plus the food, on an otherwise empty grid.
fn snake_grid(head: CellPos, food: CellPos) -> Grid {
    let mut g = Grid::new_empty_grid();
    for offset in 0..3 {
        g.set_cell(Cell {
            pos: CellPos { x: head.x - 2 + offset, y: head.y },
            content: CellContent::SnakeBody { age: (3 - offset) as u64 },
        });
    }
    g.set_cell(Cell { pos: food, content: CellContent::Food });
    g
}

#[test]
fn fresh_start_has_expected_shape() {
    let sim = Sim::new_simulation();
    let head = sim.get_head_position();
    assert!((3..7).contains(&head.x));
    assert!(head.y < GRID_SIZE);
    assert_eq!(sim.get_tail_position(), CellPos { x: head.x - 2, y: head.y });
    assert_ne!(sim.get_food_position().y, head.y);
    assert_eq!(sim.get_score(), 300);
    assert_eq!(sim.get_score_multiplier(), 1);
    assert_eq!(sim.get_eaten_food(), 3);
    assert_eq!(sim.get_neck_direction(), Direction::Right);
    assert!(sim.is_game_running());
    assert_eq!(sim.get_cell_content(head), Some(CellContent::SnakeBody { age: 1 }));
    assert_eq!(sim.get_occupied_cells().len(), 4);
}

#[test]
fn reset_gives_a_fresh_running_game() {
    let mut sim = Sim::new_simulation();
    sim.set_initial_state(CellPos { x: 2, y: 0 }, CellPos { x: 7, y: 7 });
    let mut q = empty_queue();
    q.push(Direction::Down);
    let _ = sim.run_next_step(&mut q).unwrap();
    assert!(!sim.is_game_running());
    sim.set_random_initial_state();
    assert!(sim.is_game_running());
    assert_eq!(sim.get_score(), 300);
    assert_eq!(sim.get_occupied_cells().len(), 4);
}

#[test]
fn tick_moves_head_and_keeps_digesting_tail() {
    // one spare eaten food is still being digested, so the tail holds
    let grid = snake_grid(CellPos { x: 5, y: 5 }, CellPos { x: 9, y: 2 });
    let mut sim = Sim::from_parts(
        grid,
        CellPos { x: 5, y: 5 },
        CellPos { x: 3, y: 5 },
        CellPos { x: 9, y: 2 },
        Direction::Right,
        4,
        300,
        1,
    )
    .unwrap();
    let mut q = empty_queue();
    q.push(Direction::Up);
    let out = sim.run_next_step(&mut q).unwrap();
    assert_eq!(sim.get_head_position(), CellPos { x: 5, y: 6 });
    assert_eq!(sim.get_tail_position(), CellPos { x: 3, y: 5 });
    assert_eq!(sim.get_score(), 300);
    assert!(sim.is_game_running());
    assert!(out.food_eaten.is_none());
    assert!(out.game_over.is_none());
    assert_eq!(
        sim.get_cell_content(CellPos { x: 5, y: 6 }),
        Some(CellContent::SnakeBody { age: 1 })
    );
}

#[test]
fn tick_from_standard_start_retracts_the_tail() {
    let mut sim = Sim::new_simulation();
    sim.set_initial_state(CellPos { x: 5, y: 5 }, CellPos { x: 9, y: 2 });
    let mut q = empty_queue();
    let out = sim.run_next_step(&mut q).unwrap();
    assert_eq!(sim.get_head_position(), CellPos { x: 6, y: 5 });
    assert_eq!(sim.get_tail_position(), CellPos { x: 4, y: 5 });
    assert_eq!(sim.get_cell_content(CellPos { x: 3, y: 5 }), None);
    assert!(sim.is_game_running());
    assert!(out.food_eaten.is_none());
    assert!(out.game_over.is_none());
}

#[test]
fn queued_reversal_is_ignored() {
    let mut sim = Sim::new_simulation();
    sim.set_initial_state(CellPos { x: 5, y: 5 }, CellPos { x: 9, y: 2 });
    let mut q = empty_queue();
    q.push(Direction::Left);
    let _ = sim.run_next_step(&mut q).unwrap();
    assert_eq!(sim.get_head_position(), CellPos { x: 6, y: 5 });
    assert_eq!(sim.get_neck_direction(), Direction::Right);
    assert!(sim.is_game_running());
}

#[test]
fn score_never_decreases_across_ticks() {
    let mut sim = Sim::new_simulation();
    sim.set_initial_state(CellPos { x: 5, y: 5 }, CellPos { x: 9, y: 2 });
    let mut last_score = sim.get_score();
    for _ in 0..20 {
        let mut q = empty_queue();
        let _ = sim.run_next_step(&mut q).unwrap();
        let score = sim.get_score();
        assert!(score >= last_score);
        last_score = score;
    }
    // the snake ran straight into the right wall along the way
    assert_eq!(sim.get_game_state(), SimState::Loss);
}

#[test]
fn every_occupied_position_appears_once() {
    let mut sim = Sim::new_simulation();
    sim.set_initial_state(CellPos { x: 5, y: 5 }, CellPos { x: 9, y: 2 });
    for _ in 0..3 {
        let mut q = empty_queue();
        let _ = sim.run_next_step(&mut q).unwrap();
    }
    let cells = sim.get_occupied_cells();
    assert_eq!(cells.len(), 4);
    for i in 0..cells.len() {
        assert_eq!(sim.get_cell_content(cells[i].pos), Some(cells[i].content));
        for j in 0..cells.len() {
            if i != j {
                assert_ne!(cells[i].pos, cells[j].pos);
            }
        }
    }
}

#[test]
fn boundary_exit_loses_and_only_ages_the_grid() {
    let mut g = Grid::new_empty_grid();
    g.set_cell(Cell { pos: CellPos { x: 0, y: 5 }, content: CellContent::SnakeBody { age: 1 } });
    g.set_cell(Cell { pos: CellPos { x: 1, y: 5 }, content: CellContent::SnakeBody { age: 2 } });
    g.set_cell(Cell { pos: CellPos { x: 9, y: 9 }, content: CellContent::Food });
    let mut sim = Sim::from_parts(
        g,
        CellPos { x: 0, y: 5 },
        CellPos { x: 1, y: 5 },
        CellPos { x: 9, y: 9 },
        Direction::Left,
        2,
        200,
        1,
    )
    .unwrap();
    let out = sim.run_next_step(&mut empty_queue()).unwrap();
    assert_eq!(sim.get_game_state(), SimState::Loss);
    assert_eq!(out.game_over.unwrap().win, false);
    assert!(out.food_eaten.is_none());
    assert_eq!(sim.get_head_position(), CellPos { x: 0, y: 5 });
    assert_eq!(sim.get_score(), 200);
    // the grid changed only by the aging pass
    assert_eq!(
        sim.get_cell_content(CellPos { x: 0, y: 5 }),
        Some(CellContent::SnakeBody { age: 2 })
    );
    assert_eq!(
        sim.get_cell_content(CellPos { x: 1, y: 5 }),
        Some(CellContent::SnakeBody { age: 3 })
    );
    assert_eq!(sim.get_cell_content(CellPos { x: 9, y: 9 }), Some(CellContent::Food));
    assert_eq!(sim.get_occupied_cells().len(), 3);
}

#[test]
fn moving_into_the_body_loses() {
    let mut g = Grid::new_empty_grid();
    g.set_cell(Cell { pos: CellPos { x: 5, y: 5 }, content: CellContent::SnakeBody { age: 1 } });
    g.set_cell(Cell { pos: CellPos { x: 6, y: 5 }, content: CellContent::SnakeBody { age: 2 } });
    g.set_cell(Cell { pos: CellPos { x: 9, y: 9 }, content: CellContent::Food });
    let mut sim = Sim::from_parts(
        g,
        CellPos { x: 5, y: 5 },
        CellPos { x: 6, y: 5 },
        CellPos { x: 9, y: 9 },
        Direction::Right,
        2,
        200,
        1,
    )
    .unwrap();
    let out = sim.run_next_step(&mut empty_queue()).unwrap();
    assert_eq!(sim.get_game_state(), SimState::Loss);
    assert_eq!(out.game_over.unwrap().win, false);
    assert_eq!(sim.get_head_position(), CellPos { x: 5, y: 5 });
}

#[test]
fn eating_scores_and_respawns_food_elsewhere() {
    let mut sim = Sim::new_simulation();
    sim.set_initial_state(CellPos { x: 5, y: 5 }, CellPos { x: 6, y: 5 });
    let out = sim.run_next_step(&mut empty_queue()).unwrap();
    assert!(sim.is_game_running());
    assert_eq!(sim.get_eaten_food(), 4);
    assert_eq!(sim.get_score(), 400);
    let fe = out.food_eaten.unwrap();
    assert_eq!(fe.pieces_eaten, 4);
    assert_eq!(fe.new_score, 400);
    assert!(out.game_over.is_none());
    // the eaten cell now holds the head, and the food sits elsewhere
    assert_eq!(
        sim.get_cell_content(CellPos { x: 6, y: 5 }),
        Some(CellContent::SnakeBody { age: 1 })
    );
    let new_food = sim.get_food_position();
    assert_ne!(new_food, CellPos { x: 6, y: 5 });
    assert_eq!(sim.get_cell_content(new_food), Some(CellContent::Food));
}

#[test]
fn tenth_food_raises_the_multiplier() {
    let grid = snake_grid(CellPos { x: 5, y: 5 }, CellPos { x: 6, y: 5 });
    let mut sim = Sim::from_parts(
        grid,
        CellPos { x: 5, y: 5 },
        CellPos { x: 3, y: 5 },
        CellPos { x: 6, y: 5 },
        Direction::Right,
        9,
        900,
        1,
    )
    .unwrap();
    let out = sim.run_next_step(&mut empty_queue()).unwrap();
    assert_eq!(sim.get_eaten_food(), 10);
    assert_eq!(sim.get_score_multiplier(), 2);
    assert_eq!(sim.get_score(), 1100);
    let fe = out.food_eaten.unwrap();
    assert_eq!(fe.pieces_eaten, 10);
    assert_eq!(fe.new_score, 1100);
}

#[test]
fn eating_the_last_free_cell_wins() {
    let mut g = Grid::new_empty_grid();
    for x in 0..GRID_SIZE {
        for y in 0..GRID_SIZE {
            g.set_cell(Cell {
                pos: CellPos { x, y },
                content: CellContent::SnakeBody { age: 5 },
            });
        }
    }
    g.set_cell(Cell { pos: CellPos { x: 1, y: 0 }, content: CellContent::SnakeBody { age: 1 } });
    g.set_cell(Cell { pos: CellPos { x: 0, y: 0 }, content: CellContent::SnakeBody { age: 2 } });
    g.set_cell(Cell { pos: CellPos { x: 2, y: 0 }, content: CellContent::Food });
    let mut sim = Sim::from_parts(
        g,
        CellPos { x: 1, y: 0 },
        CellPos { x: 0, y: 0 },
        CellPos { x: 2, y: 0 },
        Direction::Right,
        5,
        100,
        1,
    )
    .unwrap();
    let out = sim.run_next_step(&mut empty_queue()).unwrap();
    assert_eq!(sim.get_game_state(), SimState::Win);
    assert_eq!(out.game_over.unwrap().win, true);
    let fe = out.food_eaten.unwrap();
    assert_eq!(fe.pieces_eaten, 6);
    assert_eq!(fe.new_score, 200);
}

#[test]
fn broken_body_chain_is_reported() {
    // the tail has no adjacent segment, so a required retraction fails
    let mut g = Grid::new_empty_grid();
    g.set_cell(Cell { pos: CellPos { x: 5, y: 5 }, content: CellContent::SnakeBody { age: 1 } });
    g.set_cell(Cell { pos: CellPos { x: 0, y: 0 }, content: CellContent::SnakeBody { age: 9 } });
    g.set_cell(Cell { pos: CellPos { x: 9, y: 9 }, content: CellContent::Food });
    let mut sim = Sim::from_parts(
        g,
        CellPos { x: 5, y: 5 },
        CellPos { x: 0, y: 0 },
        CellPos { x: 9, y: 9 },
        Direction::Right,
        1,
        100,
        1,
    )
    .unwrap();
    let result = sim.run_next_step(&mut empty_queue());
    assert_eq!(result, Err(SimError::BrokenBodyChain));
}

#[test]
fn terminal_states_absorb_further_ticks() {
    let mut sim = Sim::new_simulation();
    sim.set_initial_state(CellPos { x: 2, y: 0 }, CellPos { x: 7, y: 7 });
    let mut q = empty_queue();
    q.push(Direction::Down);
    let _ = sim.run_next_step(&mut q).unwrap();
    assert_eq!(sim.get_game_state(), SimState::Loss);
    let head = sim.get_head_position();
    let score = sim.get_score();
    let mut q2 = empty_queue();
    q2.push(Direction::Up);
    let out = sim.run_next_step(&mut q2).unwrap();
    assert!(out.food_eaten.is_none());
    assert!(out.game_over.is_none());
    assert_eq!(sim.get_head_position(), head);
    assert_eq!(sim.get_score(), score);
    assert_eq!(sim.get_game_state(), SimState::Loss);
    // the queue is not consumed by an absorbing tick
    assert_eq!(q2.pop(), Some(Direction::Up));
}

#[test]
fn from_parts_rejects_inconsistent_pieces() {
    let head = CellPos { x: 5, y: 5 };
    let tail = CellPos { x: 3, y: 5 };
    let food = CellPos { x: 9, y: 2 };
    let ok = |g: Grid, eaten: u64, score: u64, mult: u64| {
        Sim::from_parts(g, head, tail, food, Direction::Right, eaten, score, mult).is_some()
    };
    assert!(ok(snake_grid(head, food), 3, 300, 1));
    // the food anchor holds no food
    assert!(!ok(Grid::new_empty_grid(), 3, 300, 1));
    // a second food item besides the anchored one
    let mut g = snake_grid(head, food);
    g.set_cell(Cell { pos: CellPos { x: 0, y: 0 }, content: CellContent::Food });
    assert!(!ok(g, 3, 300, 1));
    // a segment of age zero
    let mut g = snake_grid(head, food);
    g.set_cell(Cell { pos: CellPos { x: 0, y: 0 }, content: CellContent::SnakeBody { age: 0 } });
    assert!(!ok(g, 3, 300, 1));
    // multiplier out of range
    assert!(!ok(snake_grid(head, food), 3, 300, 0));
    assert!(!ok(snake_grid(head, food), 3, 300, 4));
    // score above what the totals allow
    assert!(!ok(snake_grid(head, food), 3, 301, 1));
    // a head anchor on an empty cell
    assert!(Sim::from_parts(
        snake_grid(head, food),
        CellPos { x: 9, y: 9 },
        tail,
        food,
        Direction::Right,
        3,
        300,
        1
    )
    .is_none());
}
