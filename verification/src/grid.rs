use vstd::prelude::*;

use crate::cell::{aged_content, age_of, is_food, is_snake, Cell, CellContent, CellPos};

verus! {

/// Side length of the square grid.
pub const GRID_SIZE: usize = 15;

/// Total number of cells on the grid.
pub const GRID_CELLS: usize = GRID_SIZE * GRID_SIZE;

/// The row-major index of an in-bounds position in the flat cell array.
pub open spec fn idx(p: CellPos) -> int {
    p.x * GRID_SIZE + p.y
}

/// The flat index of an in-bounds position lies inside the cell array.
pub broadcast proof fn lemma_idx_bounds(p: CellPos)
    ensures
        p.in_bounds() ==> 0 <= #[trigger] idx(p) < GRID_CELLS,
{
}

/// Distinct in-bounds positions occupy distinct flat indices.
pub broadcast proof fn lemma_idx_injective(p: CellPos, q: CellPos)
    ensures
        p.in_bounds() && q.in_bounds() && #[trigger] idx(p) == #[trigger] idx(q) ==> p == q,
{
}

/// Every grid cell holds at most one content value: whatever two
/// occupants are observed at one position, they are the same occupant.
pub proof fn lemma_single_occupancy(g: Grid, p: CellPos, c1: CellContent, c2: CellContent)
    requires
        g.at(p) == Some(c1),
        g.at(p) == Some(c2),
    ensures
        c1 == c2,
{
}

/// Each flat index belongs to exactly one in-bounds position.
pub proof fn lemma_pos_of_idx(i: int) -> (p: CellPos)
    requires
        0 <= i < GRID_CELLS,
    ensures
        p.in_bounds(),
        idx(p) == i,
{
    let p = CellPos {
        x: (i / (GRID_SIZE as int)) as usize,
        y: (i % (GRID_SIZE as int)) as usize,
    };
    assert(idx(p) == i) by {
        vstd::arithmetic::div_mod::lemma_fundamental_div_mod(i, GRID_SIZE as int);
    }
    p
}

/// The grid contents with every snake segment one tick older.
pub open spec fn aged_seq(s: Seq<Option<CellContent>>) -> Seq<Option<CellContent>> {
    Seq::new(s.len(), |i: int| aged_content(s[i]))
}

/// Aging changes no cell's classification: food stays food, snake stays
/// snake one tick older, empty stays empty.
pub broadcast proof fn lemma_aged_cell(s: Seq<Option<CellContent>>, i: int)
    ensures
        0 <= i < s.len() ==> {
            let c = #[trigger] aged_seq(s)[i];
            &&& is_snake(c) == is_snake(s[i])
            &&& is_food(c) == is_food(s[i])
            &&& (c is Some <==> s[i] is Some)
            &&& (is_snake(s[i]) && age_of(s[i]) < u64::MAX ==> age_of(c) == age_of(s[i]) + 1)
        },
{
    if 0 <= i < s.len() {
        assert(aged_seq(s)[i] == aged_content(s[i]));
    }
}

/// A fixed `GRID_SIZE x GRID_SIZE` mapping from positions to optional
/// content; the single source of truth for occupancy.  Each cell holds at
/// most one content value, so two occupants can never share a cell.
pub struct Grid {
    cells: Vec<Option<CellContent>>,
}

impl View for Grid {
    type V = Seq<Option<CellContent>>;

    closed spec fn view(&self) -> Seq<Option<CellContent>> {
        self.cells@
    }
}

impl Grid {
    /// The grid always holds exactly one slot per cell.
    pub open spec fn wf(self) -> bool {
        self@.len() == GRID_CELLS
    }

    /// The content at an in-bounds position.
    pub open spec fn at(self, p: CellPos) -> Option<CellContent> {
        self@[idx(p)]
    }

    /// A grid with every cell empty.
    pub fn new_empty_grid() -> (g: Grid)
        ensures
            g.wf(),
            forall|i: int| 0 <= i < GRID_CELLS ==> g@[i] is None,
    {
        let mut cells: Vec<Option<CellContent>> = Vec::new();
        let mut i: usize = 0;
        while i < GRID_CELLS
            invariant
                i <= GRID_CELLS,
                cells@.len() == i,
                forall|j: int| 0 <= j < i ==> cells@[j] is None,
            decreases GRID_CELLS - i,
        {
            cells.push(None);
            i = i + 1;
        }
        Grid { cells }
    }

    /// The content at `pos`, or `None` for an empty cell.
    pub fn get_cell_content(&self, pos: CellPos) -> (r: Option<CellContent>)
        requires
            self.wf(),
            pos.in_bounds(),
        ensures
            r == self.at(pos),
    {
        self.cells[pos.x * GRID_SIZE + pos.y]
    }

    /// Whether the cell at `pos` is empty.
    pub fn is_cell_empty(&self, pos: CellPos) -> (r: bool)
        requires
            self.wf(),
            pos.in_bounds(),
        ensures
            r == (self.at(pos) is None),
    {
        self.get_cell_content(pos).is_none()
    }

    /// Writes `cell.content` at `cell.pos`, overwriting unconditionally;
    /// callers are responsible for any collision check.
    pub fn set_cell(&mut self, cell: Cell)
        requires
            old(self).wf(),
            cell.pos.in_bounds(),
        ensures
            final(self).wf(),
            final(self)@ == old(self)@.update(idx(cell.pos), Some(cell.content)),
    {
        let i = cell.pos.x * GRID_SIZE + cell.pos.y;
        self.cells[i] = Some(cell.content);
    }

    /// Empties the cell at `pos`.
    pub fn clear_cell(&mut self, pos: CellPos)
        requires
            old(self).wf(),
            pos.in_bounds(),
        ensures
            final(self).wf(),
            final(self)@ == old(self)@.update(idx(pos), None),
    {
        let i = pos.x * GRID_SIZE + pos.y;
        self.cells[i] = None;
    }

    /// Resets every cell to empty.
    pub fn clear_grid(&mut self)
        requires
            old(self).wf(),
        ensures
            final(self).wf(),
            forall|i: int| 0 <= i < GRID_CELLS ==> final(self)@[i] is None,
    {
        let mut i: usize = 0;
        while i < GRID_CELLS
            invariant
                i <= GRID_CELLS,
                self.wf(),
                forall|j: int| 0 <= j < i ==> self@[j] is None,
            decreases GRID_CELLS - i,
        {
            self.cells[i] = None;
            i = i + 1;
        }
    }

    /// Ages every snake segment on the grid by one tick.
    pub fn age_snake_cells(&mut self)
        requires
            old(self).wf(),
            forall|i: int| 0 <= i < GRID_CELLS ==> age_of(old(self)@[i]) < u64::MAX,
        ensures
            final(self).wf(),
            final(self)@ == aged_seq(old(self)@),
    {
        let mut i: usize = 0;
        while i < GRID_CELLS
            invariant
                i <= GRID_CELLS,
                self.wf(),
                forall|j: int| 0 <= j < GRID_CELLS ==> age_of(old(self)@[j]) < u64::MAX,
                forall|j: int| i <= j < GRID_CELLS ==> self@[j] == old(self)@[j],
                forall|j: int| 0 <= j < i ==> self@[j] == aged_content(old(self)@[j]),
            decreases GRID_CELLS - i,
        {
            match self.cells[i] {
                Some(CellContent::SnakeBody { age }) => {
                    self.cells[i] = Some(CellContent::SnakeBody { age: age + 1 });
                },
                _ => {},
            }
            i = i + 1;
        }
        proof {
            assert(self@ =~= aged_seq(old(self)@));
        }
    }

    /// Every `(position, content)` pair currently non-empty, in row-major
    /// order; each occupied position appears exactly once.
    pub fn get_occupied_cells(&self) -> (r: Vec<Cell>)
        requires
            self.wf(),
        ensures
            forall|j: int|
                0 <= j < r@.len() ==> (#[trigger] r@[j]).pos.in_bounds() && self.at(r@[j].pos)
                    == Some(r@[j].content),
            forall|p: CellPos|
                p.in_bounds() && self.at(p) is Some ==> exists|j: int|
                    0 <= j < r@.len() && (#[trigger] r@[j]).pos == p,
            forall|j: int, k: int| 0 <= j < k < r@.len() ==> idx(r@[j].pos) < idx(r@[k].pos),
            forall|j: int, k: int|
                0 <= j < r@.len() && 0 <= k < r@.len() && j != k ==> r@[j].pos != r@[k].pos,
    {
        let mut ret_cells: Vec<Cell> = Vec::new();
        let mut x: usize = 0;
        while x < GRID_SIZE
            invariant
                x <= GRID_SIZE,
                self.wf(),
                forall|j: int|
                    0 <= j < ret_cells@.len() ==> (#[trigger] ret_cells@[j]).pos.in_bounds()
                        && self.at(ret_cells@[j].pos) == Some(ret_cells@[j].content),
                forall|j: int|
                    0 <= j < ret_cells@.len() ==> idx((#[trigger] ret_cells@[j]).pos) < x
                        * GRID_SIZE,
                forall|p: CellPos|
                    p.in_bounds() && p.x < x && self.at(p) is Some ==> exists|j: int|
                        0 <= j < ret_cells@.len() && (#[trigger] ret_cells@[j]).pos == p,
                forall|j: int, k: int|
                    0 <= j < k < ret_cells@.len() ==> idx(ret_cells@[j].pos) < idx(
                        ret_cells@[k].pos,
                    ),
            decreases GRID_SIZE - x,
        {
            let mut y: usize = 0;
            while y < GRID_SIZE
                invariant
                    x < GRID_SIZE,
                    y <= GRID_SIZE,
                    self.wf(),
                    forall|j: int|
                        0 <= j < ret_cells@.len() ==> (#[trigger] ret_cells@[j]).pos.in_bounds()
                            && self.at(ret_cells@[j].pos) == Some(ret_cells@[j].content),
                    forall|j: int|
                        0 <= j < ret_cells@.len() ==> idx((#[trigger] ret_cells@[j]).pos) < x
                            * GRID_SIZE + y,
                    forall|p: CellPos|
                        p.in_bounds() && idx(p) < x * GRID_SIZE + y && self.at(p) is Some
                            ==> exists|j: int|
                            0 <= j < ret_cells@.len() && (#[trigger] ret_cells@[j]).pos == p,
                    forall|j: int, k: int|
                        0 <= j < k < ret_cells@.len() ==> idx(ret_cells@[j].pos) < idx(
                            ret_cells@[k].pos,
                        ),
                decreases GRID_SIZE - y,
            {
                let pos = CellPos { x, y };
                let ghost pre = ret_cells@;
                match self.get_cell_content(pos) {
                    Some(content) => {
                        ret_cells.push(Cell { pos, content });
                        proof {
                            assert(ret_cells@[ret_cells@.len() - 1].pos == pos);
                        }
                    },
                    None => {},
                }
                proof {
                    assert forall|p: CellPos|
                        p.in_bounds() && idx(p) < x * GRID_SIZE + y + 1 && self.at(
                            p,
                        ) is Some implies exists|j: int|
                        0 <= j < ret_cells@.len() && (#[trigger] ret_cells@[j]).pos == p by {
                        if idx(p) < x * GRID_SIZE + y {
                            let j = choose|j: int| 0 <= j < pre.len() && (#[trigger] pre[j]).pos == p;
                            assert(ret_cells@[j] == pre[j]);
                        } else {
                            assert(p == pos);
                            assert(ret_cells@[ret_cells@.len() - 1].pos == p);
                        }
                    }
                }
                y = y + 1;
            }
            x = x + 1;
        }
        proof {
            assert forall|p: CellPos| p.in_bounds() && self.at(p) is Some implies exists|j: int|
                0 <= j < ret_cells@.len() && (#[trigger] ret_cells@[j]).pos == p by {
                assert(idx(p) < GRID_SIZE * GRID_SIZE);
            }
            assert forall|j: int, k: int|
                0 <= j < ret_cells@.len() && 0 <= k < ret_cells@.len() && j
                    != k implies ret_cells@[j].pos != ret_cells@[k].pos by {
                if j < k {
                    assert(idx(ret_cells@[j].pos) < idx(ret_cells@[k].pos));
                } else {
                    assert(idx(ret_cells@[k].pos) < idx(ret_cells@[j].pos));
                }
            }
        }
        ret_cells
    }
}

} // verus!
