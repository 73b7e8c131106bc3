use vstd::prelude::*;

use crate::grid::GRID_SIZE;

verus! {

/// The coordinate of one cell, with `0 <= x, y < GRID_SIZE`.
#[derive(Clone, Copy, Debug, PartialEq, Eq, Structural)]
pub struct CellPos {
    pub x: usize,
    pub y: usize,
}

/// What a non-empty cell holds: a piece of food, or one segment of the
/// snake together with the number of ticks since that segment was created.
#[derive(Clone, Copy, Debug, PartialEq, Eq, Structural)]
pub enum CellContent {
    Food,
    SnakeBody { age: u64 },
}

/// A position paired with the content found there.
#[derive(Clone, Copy, Debug, PartialEq, Eq, Structural)]
pub struct Cell {
    pub pos: CellPos,
    pub content: CellContent,
}

/// Whether an optional cell content is a snake segment.
pub open spec fn is_snake(c: Option<CellContent>) -> bool {
    match c {
        Some(CellContent::SnakeBody { .. }) => true,
        _ => false,
    }
}

/// Whether an optional cell content is a piece of food.
pub open spec fn is_food(c: Option<CellContent>) -> bool {
    c == Some(CellContent::Food)
}

/// The age of a snake segment; 0 for anything else.
pub open spec fn age_of(c: Option<CellContent>) -> u64 {
    match c {
        Some(CellContent::SnakeBody { age }) => age,
        _ => 0,
    }
}

/// One aging step: a snake segment grows one tick older, food and empty
/// cells are unaffected.
pub open spec fn aged_content(c: Option<CellContent>) -> Option<CellContent> {
    match c {
        Some(CellContent::SnakeBody { age }) => Some(
            CellContent::SnakeBody { age: (age + 1) as u64 },
        ),
        other => other,
    }
}

impl CellPos {
    /// Whether the position lies on the grid.
    pub open spec fn in_bounds(self) -> bool {
        self.x < GRID_SIZE && self.y < GRID_SIZE
    }

    /// The in-bounds orthogonal neighbours, in the fixed scan order
    /// left, right, down, up.
    pub open spec fn spec_neighbors(self) -> Seq<CellPos> {
        (if self.x > 0 {
            seq![CellPos { x: (self.x - 1) as usize, y: self.y }]
        } else {
            Seq::empty()
        }) + (if self.x < GRID_SIZE - 1 {
            seq![CellPos { x: (self.x + 1) as usize, y: self.y }]
        } else {
            Seq::empty()
        }) + (if self.y > 0 {
            seq![CellPos { x: self.x, y: (self.y - 1) as usize }]
        } else {
            Seq::empty()
        }) + (if self.y < GRID_SIZE - 1 {
            seq![CellPos { x: self.x, y: (self.y + 1) as usize }]
        } else {
            Seq::empty()
        })
    }

    /// Up to four in-bounds orthogonally adjacent positions; fewer at the
    /// edges and corners of the grid.
    pub fn get_neighbors(&self) -> (r: Vec<CellPos>)
        requires
            self.in_bounds(),
        ensures
            r@ == self.spec_neighbors(),
    {
        let mut neighbors: Vec<CellPos> = Vec::new();
        if self.x > 0 {
            neighbors.push(CellPos { x: self.x - 1, y: self.y });
        }
        if self.x < GRID_SIZE - 1 {
            neighbors.push(CellPos { x: self.x + 1, y: self.y });
        }
        if self.y > 0 {
            neighbors.push(CellPos { x: self.x, y: self.y - 1 });
        }
        if self.y < GRID_SIZE - 1 {
            neighbors.push(CellPos { x: self.x, y: self.y + 1 });
        }
        proof {
            assert(neighbors@ =~= self.spec_neighbors());
        }
        neighbors
    }
}

/// Every neighbour of an in-bounds position is itself in bounds, differs
/// from the position, and touches it orthogonally.
pub proof fn lemma_neighbors_adjacent(p: CellPos, q: CellPos)
    requires
        p.in_bounds(),
        p.spec_neighbors().contains(q),
    ensures
        q.in_bounds(),
        q != p,
        q.x + q.y + 1 == p.x + p.y || p.x + p.y + 1 == q.x + q.y,
{
}

} // verus!
