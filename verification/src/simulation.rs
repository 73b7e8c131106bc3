use vstd::prelude::*;

use crate::cell::{age_of, is_food, is_snake, Cell, CellContent, CellPos};
use crate::grid::{aged_seq, idx, lemma_aged_cell, lemma_idx_bounds, lemma_idx_injective,
    lemma_pos_of_idx, Grid, GRID_CELLS, GRID_SIZE};
use crate::input::DirectionQueue;
use crate::rng::random_below;
use crate::utils::{min, spec_opposite, Direction};

verus! {

broadcast use lemma_idx_bounds, lemma_idx_injective, lemma_aged_cell;

/// Number of body segments a fresh snake starts with.
pub const START_SNAKE_LENGTH: usize = 3;

/// Points awarded per food item, before the multiplier.
pub const SCORE_BASE: u64 = 100;

/// The simulation refuses to run past this many ticks, so that ages and
/// scores provably stay inside their machine integer types.
pub const TICK_LIMIT: u64 = 0x1000_0000;

/// Half-width of the square fallback window scanned around the tail when
/// random food placement fails.
pub const SEARCH_AREA: usize = 10;

/// Whether the game is still running, or how it ended.
#[derive(Clone, Copy, Debug, PartialEq, Eq, Structural)]
pub enum SimState {
    Running,
    Win,
    Loss,
}

/// Tick outcome: the food eaten this tick, with the updated totals.
#[derive(Clone, Copy, Debug, PartialEq, Eq)]
pub struct FoodEaten {
    pub pieces_eaten: u64,
    pub new_score: u64,
}

/// Tick outcome: the game ended, and whether the board was won.
#[derive(Clone, Copy, Debug, PartialEq, Eq)]
pub struct SimulationOver {
    pub win: bool,
}

/// What one tick reports back to the external driver.  An ordinary move
/// tick reports nothing.
#[derive(Clone, Copy, Debug, PartialEq, Eq)]
pub struct TickOutcome {
    pub food_eaten: Option<FoodEaten>,
    pub game_over: Option<SimulationOver>,
}

/// The one fatal condition: tail retraction found no snake segment next
/// to the tail, so the body chain is internally inconsistent.
#[derive(Clone, Copy, Debug, PartialEq, Eq, Structural)]
pub enum SimError {
    BrokenBodyChain,
}

/// The abstract state of the simulation: every engine field, with the
/// grid as a flat row-major sequence of optional cell contents.
pub ghost struct SimView {
    pub eaten_food: u64,
    pub score: u64,
    pub score_multiplier: u64,
    pub neck_direction: Direction,
    pub game_state: SimState,
    pub grid: Seq<Option<CellContent>>,
    pub head_pos: CellPos,
    pub tail_pos: CellPos,
    pub food_pos: CellPos,
    pub ticks: u64,
}

/// The engine's internal invariant.
///
/// While running, head and tail anchor snake segments and exactly one
/// cell holds food; segment ages, the eaten-food count, the multiplier
/// and the score stay within bounds derived from the tick counter, which
/// is what keeps every arithmetic step of a tick inside `u64`.
pub open spec fn sim_inv(s: SimView) -> bool {
    &&& s.grid.len() == GRID_CELLS
    &&& s.head_pos.in_bounds()
    &&& s.tail_pos.in_bounds()
    &&& s.food_pos.in_bounds()
    &&& s.game_state == SimState::Running ==> is_snake(s.grid[idx(s.head_pos)])
    &&& s.game_state == SimState::Running ==> is_snake(s.grid[idx(s.tail_pos)])
    &&& s.game_state == SimState::Running ==> forall|p: CellPos|
        p.in_bounds() ==> (is_food(#[trigger] s.grid[idx(p)]) <==> p == s.food_pos)
    &&& forall|i: int|
        0 <= i < GRID_CELLS && is_snake(#[trigger] s.grid[i]) ==> 1 <= age_of(s.grid[i])
            <= s.ticks + START_SNAKE_LENGTH
    &&& s.eaten_food <= s.ticks + START_SNAKE_LENGTH
    &&& 1 <= s.score_multiplier <= s.eaten_food
    &&& s.score <= SCORE_BASE * s.eaten_food * s.score_multiplier
}

/// A direction is accepted for the next move if it neither repeats the
/// neck direction nor reverses straight into it.
pub open spec fn dir_accepted(d: Direction, neck: Direction) -> bool {
    d != neck && d != spec_opposite(neck)
}

/// The direction the snake moves this tick: the first accepted queued
/// direction, or the neck direction if no queued direction is accepted.
pub open spec fn resolve_direction(q: Seq<Direction>, neck: Direction) -> Direction
    decreases q.len(),
{
    if q.len() == 0 {
        neck
    } else if dir_accepted(q[0], neck) {
        q[0]
    } else {
        resolve_direction(q.drop_first(), neck)
    }
}

/// What direction resolution leaves in the queue: everything after the
/// first accepted direction, or nothing if none was accepted.
pub open spec fn queue_after_resolve(q: Seq<Direction>, neck: Direction) -> Seq<Direction>
    decreases q.len(),
{
    if q.len() == 0 {
        q
    } else if dir_accepted(q[0], neck) {
        q.drop_first()
    } else {
        queue_after_resolve(q.drop_first(), neck)
    }
}

/// If every queued input is the exact opposite of the neck direction,
/// resolution keeps the neck direction: the snake never reverses into
/// itself.
pub proof fn lemma_no_reversal(q: Seq<Direction>, neck: Direction)
    requires
        forall|i: int| 0 <= i < q.len() ==> q[i] == spec_opposite(neck),
    ensures
        resolve_direction(q, neck) == neck,
    decreases q.len(),
{
    if q.len() > 0 {
        lemma_no_reversal(q.drop_first(), neck);
    }
}

/// A tick fed nothing but reversal inputs moves the head along the neck
/// direction, never along the queued reversal: with a free in-bounds
/// cell ahead, the head lands there and the neck direction is kept.
pub proof fn lemma_no_reversal_tick(
    s: SimView,
    q: Seq<Direction>,
    s2: SimView,
    r: Result<TickOutcome, SimError>,
)
    requires
        forall|i: int| 0 <= i < q.len() ==> q[i] == spec_opposite(s.neck_direction),
        tick_post(s, q, s2, r),
        target_in_bounds(s.head_pos, s.neck_direction),
        !is_snake(s.grid[idx(target_pos(s.head_pos, s.neck_direction))]),
    ensures
        s2.head_pos == target_pos(s.head_pos, s.neck_direction),
        s2.neck_direction == s.neck_direction,
{
    lemma_no_reversal(q, s.neck_direction);
}

/// Unit move along the x axis.
pub open spec fn spec_dx(d: Direction) -> int {
    match d {
        Direction::Left => -1,
        Direction::Right => 1,
        _ => 0,
    }
}

/// Unit move along the y axis.
pub open spec fn spec_dy(d: Direction) -> int {
    match d {
        Direction::Up => 1,
        Direction::Down => -1,
        _ => 0,
    }
}

/// Whether one step from `head` in direction `d` stays on the grid.
pub open spec fn target_in_bounds(head: CellPos, d: Direction) -> bool {
    &&& 0 <= head.x + spec_dx(d) < GRID_SIZE
    &&& 0 <= head.y + spec_dy(d) < GRID_SIZE
}

/// The cell one step from `head` in direction `d`.
pub open spec fn target_pos(head: CellPos, d: Direction) -> CellPos {
    CellPos { x: (head.x + spec_dx(d)) as usize, y: (head.y + spec_dy(d)) as usize }
}

/// Resolves the snake's move direction for this tick, consuming queued
/// inputs until one is accepted; an exhausted queue keeps the neck
/// direction.
pub fn get_move_direction(dir_queue: &mut DirectionQueue, neck_dir: &Direction) -> (r: Direction)
    requires
        old(dir_queue).wf(),
    ensures
        final(dir_queue).wf(),
        r == resolve_direction(old(dir_queue)@, *neck_dir),
        final(dir_queue)@ == queue_after_resolve(old(dir_queue)@, *neck_dir),
{
    loop
        invariant
            dir_queue.wf(),
            resolve_direction(old(dir_queue)@, *neck_dir) == resolve_direction(
                dir_queue@,
                *neck_dir,
            ),
            queue_after_resolve(old(dir_queue)@, *neck_dir) == queue_after_resolve(
                dir_queue@,
                *neck_dir,
            ),
        decreases dir_queue@.len(),
    {
        match dir_queue.pop() {
            Some(input_direction) => {
                if input_direction != *neck_dir && input_direction != neck_dir.opposite() {
                    return input_direction;
                }
            },
            None => {
                return *neck_dir;
            },
        }
    }
}

/// The lowest coordinate of the fallback search window around `c`.
pub open spec fn window_lo(c: int) -> int {
    if c <= SEARCH_AREA {
        0
    } else {
        c - SEARCH_AREA
    }
}

/// One past the highest coordinate of the fallback search window.
pub open spec fn window_hi(c: int) -> int {
    if c + SEARCH_AREA <= GRID_SIZE {
        c + SEARCH_AREA
    } else {
        GRID_SIZE as int
    }
}

/// Whether `p` lies in the fallback search window centred on `tail`;
/// the window is clamped to the grid, so such a `p` is in bounds.
pub open spec fn in_search_window(tail: CellPos, p: CellPos) -> bool {
    &&& window_lo(tail.x as int) <= p.x < window_hi(tail.x as int)
    &&& window_lo(tail.y as int) <= p.y < window_hi(tail.y as int)
}

/// Whether every cell of the fallback search window is occupied: the
/// condition under which the food respawn search reports failure.
pub open spec fn window_full(g: Seq<Option<CellContent>>, tail: CellPos) -> bool {
    forall|p: CellPos| in_search_window(tail, p) ==> (#[trigger] g[idx(p)]) is Some
}

/// The running best candidate after scanning a prefix of the neighbour
/// list for snake segments: the position and age of the oldest segment
/// seen, earlier entries winning ties.
pub open spec fn best_snake_neighbor(g: Seq<Option<CellContent>>, ns: Seq<CellPos>) -> Option<
    (CellPos, u64),
>
    decreases ns.len(),
{
    if ns.len() == 0 {
        None
    } else {
        let prev = best_snake_neighbor(g, ns.drop_last());
        let p = ns.last();
        if !is_snake(g[idx(p)]) {
            prev
        } else {
            match prev {
                None => Some((p, age_of(g[idx(p)]))),
                Some((pp, pa)) => if pa < age_of(g[idx(p)]) {
                    Some((p, age_of(g[idx(p)])))
                } else {
                    Some((pp, pa))
                },
            }
        }
    }
}

/// The neighbour of `tail` holding the oldest snake segment, if any;
/// ties go to the earlier position in the fixed neighbour scan order.
pub open spec fn spec_oldest_neighbor(g: Seq<Option<CellContent>>, tail: CellPos) -> Option<
    CellPos,
> {
    match best_snake_neighbor(g, tail.spec_neighbors()) {
        Some((p, _)) => Some(p),
        None => None,
    }
}

/// The winner of the neighbour scan is drawn from the scanned list and
/// really holds a snake segment of the reported age.
pub proof fn lemma_best_neighbor_props(g: Seq<Option<CellContent>>, ns: Seq<CellPos>)
    ensures
        match best_snake_neighbor(g, ns) {
            Some((p, a)) => ns.contains(p) && is_snake(g[idx(p)]) && a == age_of(g[idx(p)]),
            None => true,
        },
    decreases ns.len(),
{
    if ns.len() > 0 {
        lemma_best_neighbor_props(g, ns.drop_last());
        match best_snake_neighbor(g, ns.drop_last()) {
            Some((p, a)) => {
                let j = choose|j: int| 0 <= j < ns.drop_last().len() && ns.drop_last()[j] == p;
                assert(ns[j] == p);
            },
            None => {},
        }
    }
}

/// Numeric headroom for eating one food item: under the invariant
/// bounds the score update stays inside `u64`, and the new totals
/// satisfy the invariant again.
proof fn lemma_score_step(e: u64, m: u64, sc: u64, t: u64)
    requires
        sc <= SCORE_BASE * e * m,
        1 <= m <= e,
        e <= t + START_SNAKE_LENGTH,
        t < TICK_LIMIT,
    ensures
        e + 1 < u64::MAX,
        m + 1 < u64::MAX,
        sc + SCORE_BASE * (m + 1) <= u64::MAX,
        sc + SCORE_BASE * m <= SCORE_BASE * (e + 1) * m,
        sc + SCORE_BASE * (m + 1) <= SCORE_BASE * (e + 1) * (m + 1),
{
    assert(sc + SCORE_BASE * (m + 1) <= u64::MAX) by (nonlinear_arith)
        requires
            sc <= SCORE_BASE * e * m,
            1 <= m <= e,
            e <= t + START_SNAKE_LENGTH,
            t < TICK_LIMIT,
    {
    }
    assert(sc + SCORE_BASE * m <= SCORE_BASE * (e + 1) * m) by (nonlinear_arith)
        requires
            sc <= SCORE_BASE * e * m,
            1 <= m,
    {
    }
    assert(sc + SCORE_BASE * (m + 1) <= SCORE_BASE * (e + 1) * (m + 1)) by (nonlinear_arith)
        requires
            sc <= SCORE_BASE * e * m,
            1 <= m <= e,
    {
    }
}

/// The state after a losing tick: only the aging pass and the tick
/// counter have happened; no other field moves.
pub open spec fn lost_view(s: SimView) -> SimView {
    SimView {
        game_state: SimState::Loss,
        grid: aged_seq(s.grid),
        ticks: (s.ticks + 1) as u64,
        ..s
    }
}

/// What the tail-retraction step leaves behind, given the eaten-food
/// total `eaten`, the tail anchor `tail` and the grid `g` as they stand
/// when the step runs, and the food outcome `fe` the tick reports.
pub open spec fn tail_step_post(
    eaten: u64,
    tail: CellPos,
    g: Seq<Option<CellContent>>,
    s2: SimView,
    fe: Option<FoodEaten>,
    r: Result<TickOutcome, SimError>,
) -> bool {
    if eaten >= age_of(g[idx(tail)]) {
        &&& s2.grid == g
        &&& s2.tail_pos == tail
        &&& s2.game_state == SimState::Running
        &&& r == Ok::<TickOutcome, SimError>(TickOutcome { food_eaten: fe, game_over: None })
    } else {
        match spec_oldest_neighbor(g, tail) {
            Some(nb) => {
                &&& s2.grid == g.update(idx(tail), None)
                &&& s2.tail_pos == nb
                &&& s2.game_state == SimState::Running
                &&& r == Ok::<TickOutcome, SimError>(
                    TickOutcome { food_eaten: fe, game_over: None },
                )
            },
            None => {
                &&& s2.grid == g
                &&& s2.tail_pos == tail
                &&& s2.game_state == SimState::Running
                &&& r == Err::<TickOutcome, SimError>(SimError::BrokenBodyChain)
            },
        }
    }
}

/// The full per-tick contract for a running game: what one call of
/// `run_next_step` does to the state `s` with queued inputs `q`,
/// leaving state `s2` and reporting `r`.
pub open spec fn tick_post(
    s: SimView,
    q: Seq<Direction>,
    s2: SimView,
    r: Result<TickOutcome, SimError>,
) -> bool {
    let d = resolve_direction(q, s.neck_direction);
    if !target_in_bounds(s.head_pos, d) {
        s2 == lost_view(s) && r == Ok::<TickOutcome, SimError>(
            TickOutcome { food_eaten: None, game_over: Some(SimulationOver { win: false }) },
        )
    } else {
        let t = target_pos(s.head_pos, d);
        if is_snake(s.grid[idx(t)]) {
            s2 == lost_view(s) && r == Ok::<TickOutcome, SimError>(
                TickOutcome { food_eaten: None, game_over: Some(SimulationOver { win: false }) },
            )
        } else {
            let g1 = aged_seq(s.grid).update(idx(t), Some(CellContent::SnakeBody { age: 1 }));
            &&& s2.head_pos == t
            &&& s2.neck_direction == d
            &&& s2.ticks == s.ticks + 1
            &&& if t != s.food_pos {
                &&& s2.eaten_food == s.eaten_food
                &&& s2.score == s.score
                &&& s2.score_multiplier == s.score_multiplier
                &&& s2.food_pos == s.food_pos
                &&& tail_step_post(s.eaten_food, s.tail_pos, g1, s2, None, r)
            } else {
                let e2 = (s.eaten_food + 1) as u64;
                let m2 = if e2 % 10 == 0 {
                    (s.score_multiplier + 1) as u64
                } else {
                    s.score_multiplier
                };
                let sc2 = (s.score + SCORE_BASE * m2) as u64;
                &&& s2.eaten_food == e2
                &&& s2.score_multiplier == m2
                &&& s2.score == sc2
                &&& if s2.game_state == SimState::Win {
                    &&& s2.grid == g1
                    &&& s2.food_pos == s.food_pos
                    &&& s2.tail_pos == s.tail_pos
                    &&& window_full(g1, s.tail_pos)
                    &&& r == Ok::<TickOutcome, SimError>(
                        TickOutcome {
                            food_eaten: Some(FoodEaten { pieces_eaten: e2, new_score: sc2 }),
                            game_over: Some(SimulationOver { win: true }),
                        },
                    )
                } else {
                    &&& s2.food_pos.in_bounds()
                    &&& g1[idx(s2.food_pos)] is None
                    &&& tail_step_post(
                        e2,
                        s.tail_pos,
                        g1.update(idx(s2.food_pos), Some(CellContent::Food)),
                        s2,
                        Some(FoodEaten { pieces_eaten: e2, new_score: sc2 }),
                        r,
                    )
                }
            }
        }
    }
}

/// After the tail step runs on a grid whose head cell is a fresh
/// segment, whose tail cell is a segment, and whose one food cell is
/// `food`, those facts still hold of the state it leaves behind.
proof fn lemma_tail_step_wf(
    eaten: u64,
    tail: CellPos,
    g: Seq<Option<CellContent>>,
    s2: SimView,
    fe: Option<FoodEaten>,
    r: Result<TickOutcome, SimError>,
    head: CellPos,
    food: CellPos,
    ticks2: u64,
)
    requires
        g.len() == GRID_CELLS,
        tail.in_bounds(),
        head.in_bounds(),
        food.in_bounds(),
        is_snake(g[idx(tail)]),
        g[idx(head)] == Some(CellContent::SnakeBody { age: 1 }),
        eaten >= 1,
        forall|i: int|
            0 <= i < GRID_CELLS && is_snake(#[trigger] g[i]) ==> 1 <= age_of(g[i]) <= ticks2
                + START_SNAKE_LENGTH,
        forall|p: CellPos| p.in_bounds() ==> (is_food(#[trigger] g[idx(p)]) <==> p == food),
        tail_step_post(eaten, tail, g, s2, fe, r),
    ensures
        s2.grid.len() == GRID_CELLS,
        s2.tail_pos.in_bounds(),
        is_snake(s2.grid[idx(s2.tail_pos)]),
        s2.grid[idx(head)] == Some(CellContent::SnakeBody { age: 1 }),
        forall|i: int|
            0 <= i < GRID_CELLS && is_snake(#[trigger] s2.grid[i]) ==> 1 <= age_of(s2.grid[i])
                <= ticks2 + START_SNAKE_LENGTH,
        forall|p: CellPos| p.in_bounds() ==> (is_food(#[trigger] s2.grid[idx(p)]) <==> p == food),
{
    if eaten >= age_of(g[idx(tail)]) {
        // the tail stays; the grid is untouched
    } else {
        match spec_oldest_neighbor(g, tail) {
            Some(nb) => {
                lemma_best_neighbor_props(g, tail.spec_neighbors());
                crate::cell::lemma_neighbors_adjacent(tail, nb);
                assert(idx(nb) != idx(tail));
                // the head cell cannot be the retracting tail cell: its
                // fresh segment has age 1, and at least one food has
                // been counted
                assert(idx(head) != idx(tail));
                assert(s2.grid[idx(nb)] == g[idx(nb)]);
                assert forall|p: CellPos| p.in_bounds() implies (is_food(
                    #[trigger] s2.grid[idx(p)],
                ) <==> p == food) by {
                    if p != tail {
                        assert(idx(p) != idx(tail));
                        assert(s2.grid[idx(p)] == g[idx(p)]);
                    } else {
                        assert(!is_food(g[idx(tail)]));
                    }
                }
                assert forall|i: int|
                    0 <= i < GRID_CELLS && is_snake(#[trigger] s2.grid[i]) implies 1 <= age_of(
                    s2.grid[i],
                ) <= ticks2 + START_SNAKE_LENGTH by {
                    if i != idx(tail) {
                        assert(s2.grid[i] == g[i]);
                    }
                }
            },
            None => {
                // fatal inconsistency reported; the grid is untouched
            },
        }
    }
}

/// One tick that satisfies the per-tick contract keeps the engine
/// invariant, never lowers the score, and leaves a fresh head segment
/// whenever the game is still running.
proof fn lemma_tick_wf(s: SimView, q: Seq<Direction>, s2: SimView, r: Result<TickOutcome, SimError>)
    requires
        sim_inv(s),
        s.game_state == SimState::Running,
        s.ticks < TICK_LIMIT,
        tick_post(s, q, s2, r),
    ensures
        sim_inv(s2),
        s2.score >= s.score,
        s2.game_state == SimState::Running ==> s2.grid[idx(s2.head_pos)] == Some(
            CellContent::SnakeBody { age: 1 },
        ),
{
    let d = resolve_direction(q, s.neck_direction);
    let aged = aged_seq(s.grid);
    assert forall|i: int| 0 <= i < GRID_CELLS && is_snake(#[trigger] aged[i]) implies 1 <= age_of(
        aged[i],
    ) <= s.ticks + 1 + START_SNAKE_LENGTH by {
        assert(is_snake(s.grid[i]));
    }
    if !target_in_bounds(s.head_pos, d) {
        // lost: only aging happened
    } else {
        let t = target_pos(s.head_pos, d);
        if is_snake(s.grid[idx(t)]) {
            // lost: only aging happened
        } else {
            let g1 = aged.update(idx(t), Some(CellContent::SnakeBody { age: 1 }));
            assert(t.in_bounds());
            assert(g1[idx(t)] == Some(CellContent::SnakeBody { age: 1 }));
            assert forall|i: int|
                0 <= i < GRID_CELLS && is_snake(#[trigger] g1[i]) implies 1 <= age_of(g1[i])
                <= s.ticks + 1 + START_SNAKE_LENGTH by {
                if i != idx(t) {
                    assert(g1[i] == aged[i]);
                }
            }
            assert(is_snake(g1[idx(s.tail_pos)])) by {
                if idx(s.tail_pos) != idx(t) {
                    assert(g1[idx(s.tail_pos)] == aged[idx(s.tail_pos)]);
                }
            }
            if t != s.food_pos {
                assert forall|p: CellPos| p.in_bounds() implies (is_food(#[trigger] g1[idx(p)])
                    <==> p == s.food_pos) by {
                    if p != t {
                        assert(idx(p) != idx(t));
                        assert(g1[idx(p)] == aged[idx(p)]);
                        assert(is_food(s.grid[idx(p)]) <==> p == s.food_pos);
                    }
                }
                lemma_tail_step_wf(
                    s.eaten_food,
                    s.tail_pos,
                    g1,
                    s2,
                    None,
                    r,
                    t,
                    s.food_pos,
                    (s.ticks + 1) as u64,
                );
            } else {
                // the head just ate the food: no cell of g1 holds food
                assert forall|p: CellPos| p.in_bounds() implies !is_food(
                    #[trigger] g1[idx(p)],
                ) by {
                    if p != t {
                        assert(idx(p) != idx(t));
                        assert(g1[idx(p)] == aged[idx(p)]);
                        assert(is_food(s.grid[idx(p)]) <==> p == s.food_pos);
                    }
                }
                lemma_score_step(s.eaten_food, s.score_multiplier, s.score, s.ticks);
                let e2 = (s.eaten_food + 1) as u64;
                let m2 = if e2 % 10 == 0 {
                    (s.score_multiplier + 1) as u64
                } else {
                    s.score_multiplier
                };
                let sc2 = (s.score + SCORE_BASE * m2) as u64;
                if s2.game_state == SimState::Win {
                    // board full: the food stays eaten and the tick ends
                } else {
                    let f2 = s2.food_pos;
                    let g2 = g1.update(idx(f2), Some(CellContent::Food));
                    assert(idx(f2) != idx(t));
                    assert(g2[idx(t)] == Some(CellContent::SnakeBody { age: 1 }));
                    assert(is_snake(g2[idx(s.tail_pos)])) by {
                        if idx(s.tail_pos) != idx(f2) {
                            assert(g2[idx(s.tail_pos)] == g1[idx(s.tail_pos)]);
                        }
                    }
                    assert forall|p: CellPos| p.in_bounds() implies (is_food(
                        #[trigger] g2[idx(p)],
                    ) <==> p == f2) by {
                        if p != f2 {
                            assert(idx(p) != idx(f2));
                            assert(g2[idx(p)] == g1[idx(p)]);
                        }
                    }
                    assert forall|i: int|
                        0 <= i < GRID_CELLS && is_snake(#[trigger] g2[i]) implies 1 <= age_of(
                        g2[i],
                    ) <= s.ticks + 1 + START_SNAKE_LENGTH by {
                        if i != idx(f2) {
                            assert(g2[i] == g1[i]);
                        }
                    }
                    lemma_tail_step_wf(
                        e2,
                        s.tail_pos,
                        g2,
                        s2,
                        Some(FoodEaten { pieces_eaten: e2, new_score: sc2 }),
                        r,
                        t,
                        f2,
                        (s.ticks + 1) as u64,
                    );
                }
            }
        }
    }
}

/// Whether the given pieces form a valid running game state: head and
/// tail anchor snake segments, exactly one cell holds food, segment
/// ages and the counters leave the engine room to keep running.
pub open spec fn parts_valid(
    g: Seq<Option<CellContent>>,
    head: CellPos,
    tail: CellPos,
    food: CellPos,
    eaten: u64,
    score: u64,
    mult: u64,
) -> bool {
    &&& head.in_bounds()
    &&& tail.in_bounds()
    &&& food.in_bounds()
    &&& is_snake(g[idx(head)])
    &&& is_snake(g[idx(tail)])
    &&& forall|p: CellPos| p.in_bounds() ==> (is_food(#[trigger] g[idx(p)]) <==> p == food)
    &&& forall|i: int|
        0 <= i < GRID_CELLS && is_snake(#[trigger] g[i]) ==> 1 <= age_of(g[i]) < TICK_LIMIT
    &&& eaten < TICK_LIMIT
    &&& 1 <= mult <= eaten
    &&& score <= SCORE_BASE * eaten * mult
}

/// The grid a fresh game starts with: a three-segment snake lying
/// horizontally with its head at `head` and ages growing toward the
/// tail, one food item at `food`, and every other cell empty.
pub open spec fn init_content(head: CellPos, food: CellPos, p: CellPos) -> Option<CellContent> {
    if p == food {
        Some(CellContent::Food)
    } else if p.y == head.y && head.x + 1 - START_SNAKE_LENGTH <= p.x <= head.x {
        Some(CellContent::SnakeBody { age: (head.x + 1 - p.x) as u64 })
    } else {
        None
    }
}

/// Moving the head into a cell already holding a snake segment loses
/// the game on the spot: the head, the neck direction and the score are
/// untouched, and every grid cell changes only by the aging pass — the
/// occupied cell is never silently overwritten.
pub proof fn lemma_self_collision_tick(
    s: SimView,
    q: Seq<Direction>,
    s2: SimView,
    r: Result<TickOutcome, SimError>,
)
    requires
        tick_post(s, q, s2, r),
        target_in_bounds(s.head_pos, resolve_direction(q, s.neck_direction)),
        is_snake(s.grid[idx(target_pos(s.head_pos, resolve_direction(q, s.neck_direction)))]),
    ensures
        s2.game_state == SimState::Loss,
        s2.head_pos == s.head_pos,
        s2.neck_direction == s.neck_direction,
        s2.score == s.score,
        s2.eaten_food == s.eaten_food,
        s2.food_pos == s.food_pos,
        s2.grid == aged_seq(s.grid),
        r == Ok::<TickOutcome, SimError>(
            TickOutcome { food_eaten: None, game_over: Some(SimulationOver { win: false }) },
        ),
{
}

/// A quiet tick while the digestion window is open: the resolved move
/// lands on a free cell that holds no food, and the eaten-food total
/// still covers the tail segment's age after the age pass, so the head
/// advances as a fresh segment, the tail stays put, the totals are
/// unchanged and nothing is reported.
pub proof fn lemma_digesting_move_tick(
    s: SimView,
    q: Seq<Direction>,
    s2: SimView,
    r: Result<TickOutcome, SimError>,
)
    requires
        sim_inv(s),
        s.game_state == SimState::Running,
        s.ticks < TICK_LIMIT,
        tick_post(s, q, s2, r),
        target_in_bounds(s.head_pos, resolve_direction(q, s.neck_direction)),
        !is_snake(s.grid[idx(target_pos(s.head_pos, resolve_direction(q, s.neck_direction)))]),
        target_pos(s.head_pos, resolve_direction(q, s.neck_direction)) != s.food_pos,
        s.eaten_food >= age_of(s.grid[idx(s.tail_pos)]) + 1,
    ensures
        s2.head_pos == target_pos(s.head_pos, resolve_direction(q, s.neck_direction)),
        s2.grid[idx(s2.head_pos)] == Some(CellContent::SnakeBody { age: 1 }),
        s2.tail_pos == s.tail_pos,
        is_snake(s2.grid[idx(s.tail_pos)]),
        s2.score == s.score,
        s2.eaten_food == s.eaten_food,
        s2.game_state == SimState::Running,
        r == Ok::<TickOutcome, SimError>(TickOutcome { food_eaten: None, game_over: None }),
{
    let d = resolve_direction(q, s.neck_direction);
    let t = target_pos(s.head_pos, d);
    let g1 = aged_seq(s.grid).update(idx(t), Some(CellContent::SnakeBody { age: 1 }));
    assert(t != s.tail_pos);
    assert(g1[idx(s.tail_pos)] == aged_seq(s.grid)[idx(s.tail_pos)]);
    assert(age_of(g1[idx(s.tail_pos)]) == age_of(s.grid[idx(s.tail_pos)]) + 1);
    lemma_tick_wf(s, q, s2, r);
}

/// An eating tick that finds room to respawn: the eaten cell now holds
/// the fresh head segment instead of food, the new food sits on a cell
/// that was empty before the tick, exactly one cell holds food, the
/// totals move by the scoring rule, and the game keeps running.
pub proof fn lemma_eat_tick(
    s: SimView,
    q: Seq<Direction>,
    s2: SimView,
    r: Result<TickOutcome, SimError>,
)
    requires
        sim_inv(s),
        s.game_state == SimState::Running,
        s.ticks < TICK_LIMIT,
        tick_post(s, q, s2, r),
        target_in_bounds(s.head_pos, resolve_direction(q, s.neck_direction)),
        !is_snake(s.grid[idx(target_pos(s.head_pos, resolve_direction(q, s.neck_direction)))]),
        target_pos(s.head_pos, resolve_direction(q, s.neck_direction)) == s.food_pos,
        s2.game_state != SimState::Win,
    ensures
        s2.head_pos == s.food_pos,
        s2.grid[idx(s.food_pos)] == Some(CellContent::SnakeBody { age: 1 }),
        s2.food_pos != s.food_pos,
        s2.food_pos.in_bounds(),
        s.grid[idx(s2.food_pos)] is None,
        s2.grid[idx(s2.food_pos)] == Some(CellContent::Food),
        forall|p: CellPos|
            p.in_bounds() ==> (is_food(#[trigger] s2.grid[idx(p)]) <==> p == s2.food_pos),
        s2.eaten_food == s.eaten_food + 1,
        s2.score_multiplier == (if (s.eaten_food + 1) % 10 == 0 {
            (s.score_multiplier + 1) as u64
        } else {
            s.score_multiplier
        }),
        s2.score == s.score + SCORE_BASE * s2.score_multiplier,
        s2.game_state == SimState::Running,
        r == Ok::<TickOutcome, SimError>(
            TickOutcome {
                food_eaten: Some(
                    FoodEaten { pieces_eaten: s2.eaten_food, new_score: s2.score },
                ),
                game_over: None,
            },
        ) || r == Err::<TickOutcome, SimError>(SimError::BrokenBodyChain),
{
    let d = resolve_direction(q, s.neck_direction);
    let t = target_pos(s.head_pos, d);
    let g1 = aged_seq(s.grid).update(idx(t), Some(CellContent::SnakeBody { age: 1 }));
    lemma_tick_wf(s, q, s2, r);
    lemma_score_step(s.eaten_food, s.score_multiplier, s.score, s.ticks);
    assert(idx(s2.food_pos) != idx(t));
    assert(aged_seq(s.grid)[idx(s2.food_pos)] is None);
    assert(s.grid[idx(s2.food_pos)] is None);
    assert(is_food(s2.grid[idx(s2.food_pos)]));
    assert(s2.grid[idx(t)] == Some(CellContent::SnakeBody { age: 1 }));
}

/// Eating the last food on a board with no empty cell left wins the
/// game: the respawn search cannot place food anywhere, so the tick
/// ends right after the scoring, the tail untouched.
pub proof fn lemma_full_board_tick_wins(
    s: SimView,
    q: Seq<Direction>,
    s2: SimView,
    r: Result<TickOutcome, SimError>,
)
    requires
        sim_inv(s),
        s.game_state == SimState::Running,
        s.ticks < TICK_LIMIT,
        tick_post(s, q, s2, r),
        target_in_bounds(s.head_pos, resolve_direction(q, s.neck_direction)),
        !is_snake(s.grid[idx(target_pos(s.head_pos, resolve_direction(q, s.neck_direction)))]),
        target_pos(s.head_pos, resolve_direction(q, s.neck_direction)) == s.food_pos,
        forall|p: CellPos| p.in_bounds() ==> (#[trigger] s.grid[idx(p)]) is Some,
    ensures
        s2.game_state == SimState::Win,
        s2.tail_pos == s.tail_pos,
        s2.food_pos == s.food_pos,
        s2.eaten_food == s.eaten_food + 1,
        r == Ok::<TickOutcome, SimError>(
            TickOutcome {
                food_eaten: Some(
                    FoodEaten { pieces_eaten: s2.eaten_food, new_score: s2.score },
                ),
                game_over: Some(SimulationOver { win: true }),
            },
        ),
{
    let d = resolve_direction(q, s.neck_direction);
    let t = target_pos(s.head_pos, d);
    let g1 = aged_seq(s.grid).update(idx(t), Some(CellContent::SnakeBody { age: 1 }));
    if s2.game_state != SimState::Win {
        assert(g1[idx(s2.food_pos)] is None);
        assert(idx(s2.food_pos) != idx(t));
        assert(aged_seq(s.grid)[idx(s2.food_pos)] is None);
        assert(s.grid[idx(s2.food_pos)] is Some);
        assert(false);
    }
}

/// The simulation engine: owns the grid, the snake's anchors, the food
/// position, the score state and the game state, and advances them one
/// discrete step per call of `run_next_step`.
pub struct Sim {
    eaten_food: u64,
    score: u64,
    score_multiplier: u64,
    neck_direction: Direction,
    game_state: SimState,
    grid: Grid,
    head_pos: CellPos,
    tail_pos: CellPos,
    food_pos: CellPos,
    ticks: u64,
}

impl View for Sim {
    type V = SimView;

    closed spec fn view(&self) -> SimView {
        SimView {
            eaten_food: self.eaten_food,
            score: self.score,
            score_multiplier: self.score_multiplier,
            neck_direction: self.neck_direction,
            game_state: self.game_state,
            grid: self.grid@,
            head_pos: self.head_pos,
            tail_pos: self.tail_pos,
            food_pos: self.food_pos,
            ticks: self.ticks,
        }
    }
}

impl Sim {
    /// The engine's invariant, over its abstract state.
    pub open spec fn wf(self) -> bool {
        sim_inv(self@)
    }

    /// Every non-empty cell with its content, in row-major order; each
    /// occupied position appears exactly once.
    pub fn get_occupied_cells(&self) -> (r: Vec<Cell>)
        requires
            self@.grid.len() == GRID_CELLS,
        ensures
            forall|j: int|
                0 <= j < r@.len() ==> (#[trigger] r@[j]).pos.in_bounds() && self@.grid[idx(
                    r@[j].pos,
                )] == Some(r@[j].content),
            forall|p: CellPos|
                p.in_bounds() && self@.grid[idx(p)] is Some ==> exists|j: int|
                    0 <= j < r@.len() && (#[trigger] r@[j]).pos == p,
            forall|j: int, k: int| 0 <= j < k < r@.len() ==> idx(r@[j].pos) < idx(r@[k].pos),
            forall|j: int, k: int|
                0 <= j < r@.len() && 0 <= k < r@.len() && j != k ==> r@[j].pos != r@[k].pos,
    {
        self.grid.get_occupied_cells()
    }

    /// The content of the cell at `pos`, or `None` for an empty cell.
    pub fn get_cell_content(&self, pos: CellPos) -> (r: Option<CellContent>)
        requires
            self@.grid.len() == GRID_CELLS,
            pos.in_bounds(),
        ensures
            r == self@.grid[idx(pos)],
    {
        self.grid.get_cell_content(pos)
    }

    /// The current head position.
    pub fn get_head_position(&self) -> (r: CellPos)
        ensures
            r == self@.head_pos,
    {
        self.head_pos
    }

    /// The current tail position.
    pub fn get_tail_position(&self) -> (r: CellPos)
        ensures
            r == self@.tail_pos,
    {
        self.tail_pos
    }

    /// The current food position.
    pub fn get_food_position(&self) -> (r: CellPos)
        ensures
            r == self@.food_pos,
    {
        self.food_pos
    }

    /// The current game state.
    pub fn get_game_state(&self) -> (r: SimState)
        ensures
            r == self@.game_state,
    {
        self.game_state
    }

    /// Whether the game is still running.
    pub fn is_game_running(&self) -> (r: bool)
        ensures
            r == (self@.game_state == SimState::Running),
    {
        self.game_state == SimState::Running
    }

    /// The current score.
    pub fn get_score(&self) -> (r: u64)
        ensures
            r == self@.score,
    {
        self.score
    }

    /// The current score multiplier.
    pub fn get_score_multiplier(&self) -> (r: u64)
        ensures
            r == self@.score_multiplier,
    {
        self.score_multiplier
    }

    /// How many food items have been eaten, counting the initial body.
    pub fn get_eaten_food(&self) -> (r: u64)
        ensures
            r == self@.eaten_food,
    {
        self.eaten_food
    }

    /// The direction of the most recent head move.
    pub fn get_neck_direction(&self) -> (r: Direction)
        ensures
            r == self@.neck_direction,
    {
        self.neck_direction
    }

    /// How many ticks have run since the last (re)start.
    pub fn get_ticks(&self) -> (r: u64)
        ensures
            r == self@.ticks,
    {
        self.ticks
    }

    /// Whether the head has just landed on the food.
    fn was_food_eaten(&self) -> (r: bool)
        ensures
            r == (self@.food_pos == self@.head_pos),
    {
        self.food_pos == self.head_pos
    }

    /// Whether a snake segment occupies `pos`.
    fn is_position_occupied_by_snake(&self, pos: CellPos) -> (r: bool)
        requires
            self@.grid.len() == GRID_CELLS,
            pos.in_bounds(),
        ensures
            r == is_snake(self@.grid[idx(pos)]),
    {
        matches!(self.grid.get_cell_content(pos), Some(CellContent::SnakeBody { .. }))
    }

    /// The age of the snake segment at the tail anchor.
    fn get_tail_age(&self) -> (r: u64)
        requires
            self@.grid.len() == GRID_CELLS,
            self@.tail_pos.in_bounds(),
            is_snake(self@.grid[idx(self@.tail_pos)]),
        ensures
            r == age_of(self@.grid[idx(self@.tail_pos)]),
    {
        match self.grid.get_cell_content(self.tail_pos) {
            Some(CellContent::SnakeBody { age }) => age,
            _ => 0,  // unreachable: the tail anchor holds a snake segment
        }
    }

    /// Resets the engine to a fresh game with the given head and food
    /// positions: a three-segment snake lying to the left of `head` on
    /// an otherwise empty grid, moving right, with the starting totals.
    pub fn set_initial_state(&mut self, head_pos: CellPos, food_pos: CellPos)
        requires
            old(self)@.grid.len() == GRID_CELLS,
            START_SNAKE_LENGTH - 1 <= head_pos.x < GRID_SIZE,
            head_pos.y < GRID_SIZE,
            food_pos.in_bounds(),
            food_pos.y != head_pos.y || !(head_pos.x + 1 - START_SNAKE_LENGTH <= food_pos.x
                <= head_pos.x),
        ensures
            final(self).wf(),
            final(self)@.game_state == SimState::Running,
            final(self)@.head_pos == head_pos,
            final(self)@.tail_pos == (CellPos {
                x: (head_pos.x + 1 - START_SNAKE_LENGTH) as usize,
                y: head_pos.y,
            }),
            final(self)@.food_pos == food_pos,
            final(self)@.neck_direction == Direction::Right,
            final(self)@.eaten_food == START_SNAKE_LENGTH as u64,
            final(self)@.score_multiplier == 1,
            final(self)@.score == SCORE_BASE * (START_SNAKE_LENGTH as u64),
            final(self)@.ticks == 0,
            forall|p: CellPos|
                p.in_bounds() ==> #[trigger] final(self)@.grid[idx(p)] == init_content(
                    head_pos,
                    food_pos,
                    p,
                ),
    {
        self.grid.clear_grid();
        let tail_pos = CellPos { x: head_pos.x + 1 - START_SNAKE_LENGTH, y: head_pos.y };
        let mut offset: usize = 0;
        while offset < START_SNAKE_LENGTH
            invariant
                self@.grid.len() == GRID_CELLS,
                START_SNAKE_LENGTH - 1 <= head_pos.x < GRID_SIZE,
                head_pos.y < GRID_SIZE,
                tail_pos.x == head_pos.x + 1 - START_SNAKE_LENGTH,
                tail_pos.y == head_pos.y,
                offset <= START_SNAKE_LENGTH,
                forall|p: CellPos|
                    p.in_bounds() ==> #[trigger] self@.grid[idx(p)] == (if p.y == head_pos.y
                        && tail_pos.x <= p.x < tail_pos.x + offset {
                        Some(CellContent::SnakeBody { age: (head_pos.x + 1 - p.x) as u64 })
                    } else {
                        None
                    }),
            decreases START_SNAKE_LENGTH - offset,
        {
            let pos = CellPos { x: tail_pos.x + offset, y: tail_pos.y };
            self.grid.set_cell(
                Cell { pos, content: CellContent::SnakeBody {
                    age: (START_SNAKE_LENGTH - offset) as u64,
                } },
            );
            proof {
                assert forall|p: CellPos| p.in_bounds() implies #[trigger] self@.grid[idx(p)] == (
                if p.y == head_pos.y && tail_pos.x <= p.x < tail_pos.x + offset + 1 {
                    Some(CellContent::SnakeBody { age: (head_pos.x + 1 - p.x) as u64 })
                } else {
                    None
                }) by {
                    if p != pos {
                        assert(idx(p) != idx(pos));
                    }
                }
            }
            offset = offset + 1;
        }
        self.grid.set_cell(Cell { pos: food_pos, content: CellContent::Food });
        self.head_pos = head_pos;
        self.tail_pos = tail_pos;
        self.food_pos = food_pos;
        self.neck_direction = Direction::Right;
        self.game_state = SimState::Running;
        self.eaten_food = START_SNAKE_LENGTH as u64;
        self.score_multiplier = 1;
        self.score = SCORE_BASE * (START_SNAKE_LENGTH as u64);
        self.ticks = 0;
        proof {
            assert forall|p: CellPos| p.in_bounds() implies #[trigger] self@.grid[idx(p)]
                == init_content(head_pos, food_pos, p) by {
                if p != food_pos {
                    assert(idx(p) != idx(food_pos));
                }
            }
            assert(self@.grid[idx(head_pos)] == Some(CellContent::SnakeBody { age: 1 }));
            assert(self@.grid[idx(self@.tail_pos)] == Some(
                CellContent::SnakeBody { age: START_SNAKE_LENGTH as u64 },
            ));
            assert forall|i: int|
                0 <= i < GRID_CELLS && is_snake(#[trigger] self@.grid[i]) implies 1 <= age_of(
                self@.grid[i],
            ) <= self@.ticks + START_SNAKE_LENGTH by {
                let p = lemma_pos_of_idx(i);
                assert(self@.grid[idx(p)] == init_content(head_pos, food_pos, p));
            }
            assert forall|p: CellPos| p.in_bounds() implies (is_food(#[trigger] self@.grid[idx(p)])
                <==> p == food_pos) by {
                assert(self@.grid[idx(p)] == init_content(head_pos, food_pos, p));
            }
        }
    }

    /// Starts a fresh game at a random place: the head lands in the left
    /// half of the grid with the body fitting to its left, and the food
    /// lands on a uniformly random cell of some other row.
    pub fn set_random_initial_state(&mut self)
        requires
            old(self)@.grid.len() == GRID_CELLS,
        ensures
            final(self).wf(),
            final(self)@.game_state == SimState::Running,
            START_SNAKE_LENGTH <= final(self)@.head_pos.x < GRID_SIZE / 2,
            final(self)@.head_pos.y < GRID_SIZE,
            final(self)@.food_pos.in_bounds(),
            final(self)@.food_pos.y != final(self)@.head_pos.y,
            final(self)@.tail_pos == (CellPos {
                x: (final(self)@.head_pos.x + 1 - START_SNAKE_LENGTH) as usize,
                y: final(self)@.head_pos.y,
            }),
            final(self)@.neck_direction == Direction::Right,
            final(self)@.eaten_food == START_SNAKE_LENGTH as u64,
            final(self)@.score_multiplier == 1,
            final(self)@.score == SCORE_BASE * (START_SNAKE_LENGTH as u64),
            final(self)@.ticks == 0,
            forall|p: CellPos|
                p.in_bounds() ==> #[trigger] final(self)@.grid[idx(p)] == init_content(
                    final(self)@.head_pos,
                    final(self)@.food_pos,
                    p,
                ),
    {
        let head_x = START_SNAKE_LENGTH + random_below(GRID_SIZE / 2 - START_SNAKE_LENGTH);
        let head_y = random_below(GRID_SIZE);
        let head_pos = CellPos { x: head_x, y: head_y };
        let food_x = random_below(GRID_SIZE);
        let food_row = random_below(GRID_SIZE);
        let food_y = if food_row == head_y {
            (food_row + 1) % GRID_SIZE
        } else {
            food_row
        };
        let food_pos = CellPos { x: food_x, y: food_y };
        self.set_initial_state(head_pos, food_pos);
    }

    /// A fresh simulation on a random starting position, ready to run.
    pub fn new_simulation() -> (s: Sim)
        ensures
            s.wf(),
            s@.game_state == SimState::Running,
            START_SNAKE_LENGTH <= s@.head_pos.x < GRID_SIZE / 2,
            s@.head_pos.y < GRID_SIZE,
            s@.food_pos.in_bounds(),
            s@.food_pos.y != s@.head_pos.y,
            s@.tail_pos == (CellPos {
                x: (s@.head_pos.x + 1 - START_SNAKE_LENGTH) as usize,
                y: s@.head_pos.y,
            }),
            s@.neck_direction == Direction::Right,
            s@.eaten_food == START_SNAKE_LENGTH as u64,
            s@.score_multiplier == 1,
            s@.score == SCORE_BASE * (START_SNAKE_LENGTH as u64),
            s@.ticks == 0,
            forall|p: CellPos|
                p.in_bounds() ==> #[trigger] s@.grid[idx(p)] == init_content(
                    s@.head_pos,
                    s@.food_pos,
                    p,
                ),
    {
        let grid = Grid::new_empty_grid();
        let mut sim = Sim {
            eaten_food: START_SNAKE_LENGTH as u64,
            score: 0,
            score_multiplier: 1,
            neck_direction: Direction::Right,
            game_state: SimState::Running,
            grid,
            head_pos: CellPos { x: 0, y: 0 },
            tail_pos: CellPos { x: 0, y: 0 },
            food_pos: CellPos { x: 0, y: 0 },
            ticks: 0,
        };
        sim.set_random_initial_state();
        sim
    }

    /// Builds an engine around an explicit board: the pieces are checked
    /// against `parts_valid`, and exactly the valid ones yield a running
    /// engine with those fields.
    pub fn from_parts(
        grid: Grid,
        head_pos: CellPos,
        tail_pos: CellPos,
        food_pos: CellPos,
        neck_direction: Direction,
        eaten_food: u64,
        score: u64,
        score_multiplier: u64,
    ) -> (r: Option<Sim>)
        requires
            grid.wf(),
        ensures
            r is Some <==> parts_valid(
                grid@,
                head_pos,
                tail_pos,
                food_pos,
                eaten_food,
                score,
                score_multiplier,
            ),
            match r {
                Some(s) => {
                    &&& s.wf()
                    &&& s@.grid == grid@
                    &&& s@.head_pos == head_pos
                    &&& s@.tail_pos == tail_pos
                    &&& s@.food_pos == food_pos
                    &&& s@.neck_direction == neck_direction
                    &&& s@.eaten_food == eaten_food
                    &&& s@.score == score
                    &&& s@.score_multiplier == score_multiplier
                    &&& s@.game_state == SimState::Running
                    &&& s@.ticks < TICK_LIMIT
                },
                None => true,
            },
    {
        if !(head_pos.x < GRID_SIZE && head_pos.y < GRID_SIZE) {
            return None;
        }
        if !(tail_pos.x < GRID_SIZE && tail_pos.y < GRID_SIZE) {
            return None;
        }
        if !(food_pos.x < GRID_SIZE && food_pos.y < GRID_SIZE) {
            return None;
        }
        let mut max_age: u64 = 0;
        let mut x: usize = 0;
        while x < GRID_SIZE
            invariant
                grid.wf(),
                x <= GRID_SIZE,
                food_pos.in_bounds(),
                max_age < TICK_LIMIT,
                forall|p: CellPos|
                    p.in_bounds() && p.x < x ==> (is_food(#[trigger] grid@[idx(p)]) <==> p
                        == food_pos),
                forall|p: CellPos|
                    p.in_bounds() && p.x < x && is_snake(#[trigger] grid@[idx(p)]) ==> 1 <= age_of(
                        grid@[idx(p)],
                    ) <= max_age,
            decreases GRID_SIZE - x,
        {
            let mut y: usize = 0;
            while y < GRID_SIZE
                invariant
                    grid.wf(),
                    x < GRID_SIZE,
                    y <= GRID_SIZE,
                    food_pos.in_bounds(),
                    max_age < TICK_LIMIT,
                    forall|p: CellPos|
                        p.in_bounds() && (p.x < x || (p.x == x && p.y < y)) ==> (is_food(
                            #[trigger] grid@[idx(p)],
                        ) <==> p == food_pos),
                    forall|p: CellPos|
                        p.in_bounds() && (p.x < x || (p.x == x && p.y < y)) && is_snake(
                            #[trigger] grid@[idx(p)],
                        ) ==> 1 <= age_of(grid@[idx(p)]) <= max_age,
                decreases GRID_SIZE - y,
            {
                let p = CellPos { x, y };
                match grid.get_cell_content(p) {
                    Some(CellContent::Food) => {
                        if p != food_pos {
                            return None;
                        }
                    },
                    Some(CellContent::SnakeBody { age }) => {
                        if p == food_pos {
                            return None;
                        }
                        if age < 1 || age >= TICK_LIMIT {
                            return None;
                        }
                        if age > max_age {
                            max_age = age;
                        }
                    },
                    None => {
                        if p == food_pos {
                            return None;
                        }
                    },
                }
                y = y + 1;
            }
            x = x + 1;
        }
        match grid.get_cell_content(head_pos) {
            Some(CellContent::SnakeBody { .. }) => {},
            _ => {
                return None;
            },
        }
        match grid.get_cell_content(tail_pos) {
            Some(CellContent::SnakeBody { .. }) => {},
            _ => {
                return None;
            },
        }
        if eaten_food >= TICK_LIMIT {
            return None;
        }
        if score_multiplier < 1 || score_multiplier > eaten_food {
            return None;
        }
        proof {
            assert(SCORE_BASE * eaten_food * score_multiplier < 0x8000_0000_0000_0000) by (
            nonlinear_arith)
                requires
                    eaten_food < TICK_LIMIT,
                    score_multiplier < TICK_LIMIT,
            {
            }
        }
        let bound = SCORE_BASE * eaten_food * score_multiplier;
        if score > bound {
            return None;
        }
        let ticks = if max_age > eaten_food {
            max_age
        } else {
            eaten_food
        };
        let sim = Sim {
            eaten_food,
            score,
            score_multiplier,
            neck_direction,
            game_state: SimState::Running,
            grid,
            head_pos,
            tail_pos,
            food_pos,
            ticks,
        };
        proof {
            assert forall|i: int|
                0 <= i < GRID_CELLS && is_snake(#[trigger] sim@.grid[i]) implies 1 <= age_of(
                sim@.grid[i],
            ) <= sim@.ticks + START_SNAKE_LENGTH by {
                let p = lemma_pos_of_idx(i);
                assert(is_snake(grid@[idx(p)]));
            }
            assert forall|i: int|
                0 <= i < GRID_CELLS && is_snake(#[trigger] grid@[i]) implies 1 <= age_of(grid@[i])
                < TICK_LIMIT by {
                let p = lemma_pos_of_idx(i);
                assert(is_snake(grid@[idx(p)]));
            }
        }
        Some(sim)
    }

    /// Advances the simulation by exactly one tick.
    ///
    /// A terminal game is absorbing: the call changes nothing and
    /// reports nothing.  For a running game the tick ages every body
    /// segment, resolves the move direction from the queued inputs,
    /// moves the head or ends the game, handles eating, food respawn and
    /// the win condition, and retracts the tail; `tick_post` states the
    /// outcome exactly.  The error is returned if and only if a required
    /// tail retraction found no adjacent segment to retract to.
    pub fn run_next_step(&mut self, input_direction: &mut DirectionQueue) -> (r: Result<
        TickOutcome,
        SimError,
    >)
        requires
            old(self).wf(),
            old(self)@.ticks < TICK_LIMIT,
            old(input_direction).wf(),
        ensures
            final(self).wf(),
            final(input_direction).wf(),
            final(self)@.score >= old(self)@.score,
            final(self)@.game_state == SimState::Running ==> final(self)@.grid[idx(
                final(self)@.head_pos,
            )] == Some(CellContent::SnakeBody { age: 1 }),
            old(self)@.game_state != SimState::Running ==> final(self)@ == old(self)@
                && final(input_direction)@ == old(input_direction)@ && r == Ok::<
                TickOutcome,
                SimError,
            >(TickOutcome { food_eaten: None, game_over: None }),
            old(self)@.game_state == SimState::Running ==> final(input_direction)@
                == queue_after_resolve(old(input_direction)@, old(self)@.neck_direction)
                && tick_post(old(self)@, old(input_direction)@, final(self)@, r),
    {
        if !self.is_game_running() {
            return Ok(TickOutcome { food_eaten: None, game_over: None });
        }
        let ghost s = self@;
        let ghost q0 = input_direction@;
        proof {
            assert forall|i: int| 0 <= i < GRID_CELLS implies age_of(self@.grid[i])
                < u64::MAX by {
                if is_snake(self@.grid[i]) {
                }
            }
        }
        self.grid.age_snake_cells();
        self.ticks = self.ticks + 1;
        self.move_snake_head(input_direction);
        let ghost d = resolve_direction(q0, s.neck_direction);
        let ghost t = target_pos(s.head_pos, d);
        if !self.is_game_running() {
            let r = Ok(TickOutcome { food_eaten: None, game_over: Some(SimulationOver {
                win: false,
            }) });
            proof {
                assert(self@ == lost_view(s));
                assert(tick_post(s, q0, self@, r));
                lemma_tick_wf(s, q0, self@, r);
            }
            return r;
        }
        let ghost g1 = aged_seq(s.grid).update(idx(t), Some(CellContent::SnakeBody { age: 1 }));
        proof {
            assert(self@ == (SimView {
                grid: g1,
                head_pos: t,
                neck_direction: d,
                ticks: (s.ticks + 1) as u64,
                ..s
            }));
        }
        let mut food_eaten_out: Option<FoodEaten> = None;
        if self.was_food_eaten() {
            let could_spawn_food = self.spawn_food();
            proof {
                lemma_score_step(s.eaten_food, s.score_multiplier, s.score, s.ticks);
            }
            let fe = self.update_score();
            food_eaten_out = Some(fe);
            if !could_spawn_food {
                self.game_state = SimState::Win;
                let r = Ok(TickOutcome { food_eaten: food_eaten_out, game_over: Some(
                    SimulationOver { win: true },
                ) });
                proof {
                    assert(tick_post(s, q0, self@, r));
                    lemma_tick_wf(s, q0, self@, r);
                }
                return r;
            }
        }
        proof {
            assert(is_snake(self@.grid[idx(self@.tail_pos)])) by {
                assert(is_snake(s.grid[idx(s.tail_pos)]));
                if idx(s.tail_pos) != idx(t) {
                    assert(g1[idx(s.tail_pos)] == aged_seq(s.grid)[idx(s.tail_pos)]);
                }
                if self@.grid != g1 {
                    assert(self@.grid[idx(s.tail_pos)] == g1[idx(s.tail_pos)]);
                }
            }
        }
        let tail_result = self.move_snake_tail();
        let r = match tail_result {
            Ok(()) => Ok(TickOutcome { food_eaten: food_eaten_out, game_over: None }),
            Err(e) => Err(e),
        };
        proof {
            assert(tick_post(s, q0, self@, r));
            lemma_tick_wf(s, q0, self@, r);
        }
        r
    }

    /// The empty cells of the clamped square window around the tail, in
    /// row-major order; an empty result means the whole window is
    /// occupied.
    fn get_empty_cells_around_tail(&self) -> (r: Vec<CellPos>)
        requires
            self@.grid.len() == GRID_CELLS,
            self@.tail_pos.in_bounds(),
        ensures
            forall|j: int|
                0 <= j < r@.len() ==> in_search_window(self@.tail_pos, #[trigger] r@[j])
                    && self@.grid[idx(r@[j])] is None,
            forall|p: CellPos|
                in_search_window(self@.tail_pos, p) && self@.grid[idx(p)] is None ==> exists|j: int|
                    0 <= j < r@.len() && (#[trigger] r@[j]) == p,
            forall|j: int, k: int| 0 <= j < k < r@.len() ==> idx(r@[j]) < idx(r@[k]),
            forall|j: int, k: int|
                0 <= j < r@.len() && 0 <= k < r@.len() && j != k ==> r@[j] != r@[k],
    {
        let search_area = SEARCH_AREA;
        let tail_pos = self.tail_pos;
        let ghost tail = self@.tail_pos;
        let mut empty_cells: Vec<CellPos> = Vec::new();
        let low_x = tail_pos.x - min(tail_pos.x, search_area);
        let high_x = min(GRID_SIZE, tail_pos.x + search_area);
        let low_y = tail_pos.y - min(tail_pos.y, search_area);
        let high_y = min(GRID_SIZE, tail_pos.y + search_area);
        proof {
            assert(low_x == window_lo(tail.x as int));
            assert(high_x == window_hi(tail.x as int));
            assert(low_y == window_lo(tail.y as int));
            assert(high_y == window_hi(tail.y as int));
        }
        let mut x = low_x;
        while x < high_x
            invariant
                self@.grid.len() == GRID_CELLS,
                tail == self@.tail_pos,
                tail.in_bounds(),
                low_x == window_lo(tail.x as int),
                high_x == window_hi(tail.x as int),
                low_y == window_lo(tail.y as int),
                high_y == window_hi(tail.y as int),
                low_x <= x <= high_x,
                forall|j: int|
                    0 <= j < empty_cells@.len() ==> in_search_window(
                        tail,
                        #[trigger] empty_cells@[j],
                    ) && self@.grid[idx(empty_cells@[j])] is None,
                forall|p: CellPos|
                    in_search_window(tail, p) && p.x < x && self@.grid[idx(p)] is None ==> exists|
                        j: int,
                    |
                        0 <= j < empty_cells@.len() && (#[trigger] empty_cells@[j]) == p,
                forall|j: int|
                    0 <= j < empty_cells@.len() ==> idx(#[trigger] empty_cells@[j]) < x
                        * GRID_SIZE,
                forall|j: int, k: int|
                    0 <= j < k < empty_cells@.len() ==> idx(empty_cells@[j]) < idx(
                        empty_cells@[k],
                    ),
            decreases high_x - x,
        {
            let mut y = low_y;
            while y < high_y
                invariant
                    self@.grid.len() == GRID_CELLS,
                    tail == self@.tail_pos,
                    tail.in_bounds(),
                    low_x == window_lo(tail.x as int),
                    high_x == window_hi(tail.x as int),
                    low_y == window_lo(tail.y as int),
                    high_y == window_hi(tail.y as int),
                    low_x <= x < high_x,
                    low_y <= y <= high_y,
                    forall|j: int|
                        0 <= j < empty_cells@.len() ==> in_search_window(
                            tail,
                            #[trigger] empty_cells@[j],
                        ) && self@.grid[idx(empty_cells@[j])] is None,
                    forall|p: CellPos|
                        in_search_window(tail, p) && (p.x < x || (p.x == x && p.y < y))
                            && self@.grid[idx(p)] is None ==> exists|j: int|
                            0 <= j < empty_cells@.len() && (#[trigger] empty_cells@[j]) == p,
                    forall|j: int|
                        0 <= j < empty_cells@.len() ==> idx(#[trigger] empty_cells@[j]) < x
                            * GRID_SIZE + y,
                    forall|j: int, k: int|
                        0 <= j < k < empty_cells@.len() ==> idx(empty_cells@[j]) < idx(
                            empty_cells@[k],
                        ),
                decreases high_y - y,
            {
                let pos = CellPos { x, y };
                let ghost pre = empty_cells@;
                if self.grid.is_cell_empty(pos) {
                    empty_cells.push(pos);
                    proof {
                        assert(empty_cells@[empty_cells@.len() - 1] == pos);
                    }
                }
                proof {
                    assert forall|p: CellPos|
                        in_search_window(tail, p) && (p.x < x || (p.x == x && p.y < y + 1))
                            && self@.grid[idx(p)] is None implies exists|j: int|
                        0 <= j < empty_cells@.len() && (#[trigger] empty_cells@[j]) == p by {
                        if p.x < x || (p.x == x && p.y < y) {
                            let j = choose|j: int| 0 <= j < pre.len() && (#[trigger] pre[j]) == p;
                            assert(empty_cells@[j] == pre[j]);
                        } else {
                            assert(p == pos);
                            assert(empty_cells@[empty_cells@.len() - 1] == p);
                        }
                    }
                }
                y = y + 1;
            }
            x = x + 1;
        }
        proof {
            assert forall|j: int, k: int|
                0 <= j < empty_cells@.len() && 0 <= k < empty_cells@.len() && j
                    != k implies empty_cells@[j] != empty_cells@[k] by {
                if j < k {
                    assert(idx(empty_cells@[j]) < idx(empty_cells@[k]));
                } else {
                    assert(idx(empty_cells@[k]) < idx(empty_cells@[j]));
                }
            }
        }
        empty_cells
    }

    /// Places a new food item on an empty cell: up to 20 uniform random
    /// probes, then a uniform pick from the empty cells of the window
    /// around the tail.  Returns false, changing nothing, only when that
    /// whole window is occupied.
    fn spawn_food(&mut self) -> (r: bool)
        requires
            old(self)@.grid.len() == GRID_CELLS,
            old(self)@.tail_pos.in_bounds(),
        ensures
            r ==> final(self)@.food_pos.in_bounds() && old(self)@.grid[idx(
                final(self)@.food_pos,
            )] is None && final(self)@ == (SimView {
                grid: old(self)@.grid.update(idx(final(self)@.food_pos), Some(CellContent::Food)),
                food_pos: final(self)@.food_pos,
                ..old(self)@
            }),
            !r ==> final(self)@ == old(self)@ && window_full(old(self)@.grid, old(self)@.tail_pos),
            (forall|p: CellPos| p.in_bounds() ==> (#[trigger] old(self)@.grid[idx(p)]) is Some)
                ==> !r,
    {
        let mut attempt: usize = 0;
        while attempt < 20
            invariant
                *self == *old(self),
                self@.grid.len() == GRID_CELLS,
                self@.tail_pos.in_bounds(),
                attempt <= 20,
            decreases 20 - attempt,
        {
            let food_pos = CellPos { x: random_below(GRID_SIZE), y: random_below(GRID_SIZE) };
            if self.grid.get_cell_content(food_pos).is_none() {
                self.grid.set_cell(Cell { pos: food_pos, content: CellContent::Food });
                self.food_pos = food_pos;
                return true;
            }
            attempt = attempt + 1;
        }
        let empty_cells = self.get_empty_cells_around_tail();
        if empty_cells.len() > 0 {
            let food_pos = empty_cells[random_below(empty_cells.len())];
            self.grid.set_cell(Cell { pos: food_pos, content: CellContent::Food });
            self.food_pos = food_pos;
            return true;
        }
        false
    }

    /// Resolves the move direction, then either moves the head one cell
    /// or ends the game: stepping off the grid or into a snake segment
    /// is a loss and leaves the grid untouched.
    fn move_snake_head(&mut self, input_direction: &mut DirectionQueue)
        requires
            old(self)@.grid.len() == GRID_CELLS,
            old(self)@.head_pos.in_bounds(),
            old(input_direction).wf(),
        ensures
            final(input_direction).wf(),
            final(input_direction)@ == queue_after_resolve(
                old(input_direction)@,
                old(self)@.neck_direction,
            ),
            ({
                let d = resolve_direction(old(input_direction)@, old(self)@.neck_direction);
                if !target_in_bounds(old(self)@.head_pos, d) {
                    final(self)@ == (SimView { game_state: SimState::Loss, ..old(self)@ })
                } else if is_snake(old(self)@.grid[idx(target_pos(old(self)@.head_pos, d))]) {
                    final(self)@ == (SimView { game_state: SimState::Loss, ..old(self)@ })
                } else {
                    final(self)@ == (SimView {
                        grid: old(self)@.grid.update(
                            idx(target_pos(old(self)@.head_pos, d)),
                            Some(CellContent::SnakeBody { age: 1 }),
                        ),
                        head_pos: target_pos(old(self)@.head_pos, d),
                        neck_direction: d,
                        ..old(self)@
                    })
                }
            }),
    {
        let move_dir = get_move_direction(input_direction, &self.neck_direction);
        let dir_vector: (i64, i64) = match move_dir {
            Direction::Up => (0, 1),
            Direction::Down => (0, -1),
            Direction::Left => (-1, 0),
            Direction::Right => (1, 0),
        };
        let ix = (self.head_pos.x as i64) + dir_vector.0;
        let iy = (self.head_pos.y as i64) + dir_vector.1;
        let grid_size = GRID_SIZE as i64;
        if ix < 0 || iy < 0 || ix >= grid_size || iy >= grid_size {
            self.game_state = SimState::Loss;
            return ;
        }
        let x = ix as usize;
        let y = iy as usize;
        let head_pos = CellPos { x, y };
        if self.is_position_occupied_by_snake(head_pos) {
            self.game_state = SimState::Loss;
            return ;
        }
        self.grid.set_cell(Cell { pos: head_pos, content: CellContent::SnakeBody { age: 1 } });
        self.neck_direction = move_dir;
        self.head_pos = head_pos;
    }

    /// Retracts the tail by one segment when the tail segment has grown
    /// older than the eaten-food total, walking to the oldest adjacent
    /// segment; a missing successor segment is the fatal inconsistency.
    fn move_snake_tail(&mut self) -> (r: Result<(), SimError>)
        requires
            old(self)@.grid.len() == GRID_CELLS,
            old(self)@.tail_pos.in_bounds(),
            is_snake(old(self)@.grid[idx(old(self)@.tail_pos)]),
        ensures
            ({
                let g = old(self)@.grid;
                let tail = old(self)@.tail_pos;
                if old(self)@.eaten_food >= age_of(g[idx(tail)]) {
                    final(self)@ == old(self)@ && r == Ok::<(), SimError>(())
                } else {
                    match spec_oldest_neighbor(g, tail) {
                        Some(nb) => final(self)@ == (SimView {
                            grid: g.update(idx(tail), None),
                            tail_pos: nb,
                            ..old(self)@
                        }) && r == Ok::<(), SimError>(()),
                        None => final(self)@ == old(self)@ && r == Err::<(), SimError>(
                            SimError::BrokenBodyChain,
                        ),
                    }
                }
            }),
    {
        let cur_tail_age = self.get_tail_age();
        if self.eaten_food < cur_tail_age {
            match self.get_oldest_tail_neighbor() {
                Some(new_tail) => {
                    let tail_pos = self.tail_pos;
                    self.grid.clear_cell(tail_pos);
                    self.tail_pos = new_tail;
                    Ok(())
                },
                None => Err(SimError::BrokenBodyChain),
            }
        } else {
            Ok(())
        }
    }

    /// Counts the food just eaten: every tenth item raises the
    /// multiplier, and the score grows by the multiplied base value.
    fn update_score(&mut self) -> (fe: FoodEaten)
        requires
            old(self)@.eaten_food + 1 < u64::MAX,
            old(self)@.score_multiplier + 1 < u64::MAX,
            old(self)@.score + SCORE_BASE * (old(self)@.score_multiplier + 1) <= u64::MAX,
        ensures
            ({
                let e2 = (old(self)@.eaten_food + 1) as u64;
                let m2 = if e2 % 10 == 0 {
                    (old(self)@.score_multiplier + 1) as u64
                } else {
                    old(self)@.score_multiplier
                };
                let sc2 = (old(self)@.score + SCORE_BASE * m2) as u64;
                final(self)@ == (SimView {
                    eaten_food: e2,
                    score_multiplier: m2,
                    score: sc2,
                    ..old(self)@
                }) && fe == (FoodEaten { pieces_eaten: e2, new_score: sc2 })
            }),
    {
        self.eaten_food = self.eaten_food + 1;
        if self.eaten_food % 10 == 0 {
            self.score_multiplier = self.score_multiplier + 1;
        }
        self.score = self.score + SCORE_BASE * self.score_multiplier;
        FoodEaten { pieces_eaten: self.eaten_food, new_score: self.score }
    }

    /// The neighbour of the tail holding the oldest snake segment, or
    /// `None` if no neighbour holds one.
    fn get_oldest_tail_neighbor(&self) -> (r: Option<CellPos>)
        requires
            self@.grid.len() == GRID_CELLS,
            self@.tail_pos.in_bounds(),
        ensures
            r == spec_oldest_neighbor(self@.grid, self@.tail_pos),
    {
        let neighbors = self.tail_pos.get_neighbors();
        let ghost ns = self.tail_pos.spec_neighbors();
        let mut oldest_neighbor: Option<(CellPos, u64)> = None;
        let mut i: usize = 0;
        while i < neighbors.len()
            invariant
                self@.grid.len() == GRID_CELLS,
                self@.tail_pos.in_bounds(),
                neighbors@ == ns,
                ns == self.tail_pos.spec_neighbors(),
                i <= ns.len(),
                oldest_neighbor == best_snake_neighbor(self@.grid, ns.take(i as int)),
            decreases ns.len() - i,
        {
            let cell_pos = neighbors[i];
            proof {
                assert(ns.contains(cell_pos));
                crate::cell::lemma_neighbors_adjacent(self.tail_pos, cell_pos);
                assert(ns.take(i + 1).drop_last() =~= ns.take(i as int));
                assert(ns.take(i + 1).last() == cell_pos);
            }
            match self.grid.get_cell_content(cell_pos) {
                Some(CellContent::SnakeBody { age }) => {
                    oldest_neighbor = match oldest_neighbor {
                        Some((prev_pos, prev_age)) => {
                            if prev_age < age {
                                Some((cell_pos, age))
                            } else {
                                Some((prev_pos, prev_age))
                            }
                        },
                        None => Some((cell_pos, age)),
                    };
                },
                _ => {},
            }
            i = i + 1;
        }
        proof {
            assert(ns.take(ns.len() as int) =~= ns);
        }
        match oldest_neighbor {
            Some((pos, _)) => Some(pos),
            None => None,
        }
    }
}

} // verus!

