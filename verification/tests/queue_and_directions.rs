use snake_sim::input::DirectionQueue;
use snake_sim::simulation::get_move_direction;
use snake_sim::utils::{min, Direction};

#[test]
fn min_picks_the_smaller_value() {
    assert_eq!(min(3, 7), 3);
    assert_eq!(min(7, 3), 3);
    assert_eq!(min(5, 5), 5);
    assert_eq!(min(0, 14), 0);
}

#[test]
fn opposite_reverses_every_direction() {
    assert_eq!(Direction::Up.opposite(), Direction::Down);
    assert_eq!(Direction::Down.opposite(), Direction::Up);
    assert_eq!(Direction::Left.opposite(), Direction::Right);
    assert_eq!(Direction::Right.opposite(), Direction::Left);
}

#[test]
fn queue_keeps_first_three_and_pops_fifo() {
    let mut q = DirectionQueue::default();
    q.push(Direction::Up);
    q.push(Direction::Left);
    q.push(Direction::Down);
    q.push(Direction::Right);
    assert_eq!(q.pop(), Some(Direction::Up));
    assert_eq!(q.pop(), Some(Direction::Left));
    assert_eq!(q.pop(), Some(Direction::Down));
    assert_eq!(q.pop(), None);
}

#[test]
fn queue_drops_consecutive_duplicate_pushes() {
    let mut q = DirectionQueue::default();
    q.push(Direction::Up);
    q.push(Direction::Up);
    assert_eq!(q.pop(), Some(Direction::Up));
    assert_eq!(q.pop(), None);

    let mut q = DirectionQueue::default();
    q.push(Direction::Up);
    q.push(Direction::Left);
    q.push(Direction::Left);
    q.push(Direction::Up);
    assert_eq!(q.pop(), Some(Direction::Up));
    assert_eq!(q.pop(), Some(Direction::Left));
    assert_eq!(q.pop(), Some(Direction::Up));
    assert_eq!(q.pop(), None);
}

#[test]
fn queue_clear_empties_all_slots() {
    let mut q = DirectionQueue::default();
    q.push(Direction::Up);
    q.push(Direction::Left);
    q.clear();
    assert_eq!(q.pop(), None);
}

#[test]
fn pop_on_empty_queue_returns_none() {
    let mut q = DirectionQueue::default();
    assert_eq!(q.pop(), None);
}

#[test]
fn move_direction_skips_repeats_and_reversals() {
    let mut q = DirectionQueue::default();
    q.push(Direction::Right);
    q.push(Direction::Left);
    q.push(Direction::Up);
    let d = get_move_direction(&mut q, &Direction::Right);
    assert_eq!(d, Direction::Up);
    assert_eq!(q.pop(), None);
}

#[test]
fn move_direction_keeps_neck_on_empty_queue() {
    let mut q = DirectionQueue::default();
    let d = get_move_direction(&mut q, &Direction::Down);
    assert_eq!(d, Direction::Down);
}

#[test]
fn move_direction_keeps_rest_of_queue() {
    let mut q = DirectionQueue::default();
    q.push(Direction::Up);
    q.push(Direction::Left);
    let d = get_move_direction(&mut q, &Direction::Right);
    assert_eq!(d, Direction::Up);
    assert_eq!(q.pop(), Some(Direction::Left));
    assert_eq!(q.pop(), None);
}
