use snake_sim::cell::{Cell, CellContent, CellPos};
use snake_sim::grid::{Grid, GRID_SIZE};

#[test]
fn new_grid_is_empty_everywhere() {
    let g = Grid::new_empty_grid();
    for x in 0..GRID_SIZE {
        for y in 0..GRID_SIZE {
            assert!(g.is_cell_empty(CellPos { x, y }));
        }
    }
    assert!(g.get_occupied_cells().is_empty());
}

#[test]
fn set_get_and_clear_one_cell() {
    let mut g = Grid::new_empty_grid();
    let p = CellPos { x: 4, y: 9 };
    g.set_cell(Cell { pos: p, content: CellContent::Food });
    assert_eq!(g.get_cell_content(p), Some(CellContent::Food));
    assert!(!g.is_cell_empty(p));
    assert!(g.is_cell_empty(CellPos { x: 9, y: 4 }));
    g.set_cell(Cell { pos: p, content: CellContent::SnakeBody { age: 7 } });
    assert_eq!(g.get_cell_content(p), Some(CellContent::SnakeBody { age: 7 }));
    g.clear_cell(p);
    assert!(g.is_cell_empty(p));
}

#[test]
fn clear_grid_resets_every_cell() {
    let mut g = Grid::new_empty_grid();
    g.set_cell(Cell { pos: CellPos { x: 0, y: 0 }, content: CellContent::Food });
    g.set_cell(Cell { pos: CellPos { x: 14, y: 14 }, content: CellContent::SnakeBody { age: 3 } });
    g.clear_grid();
    for x in 0..GRID_SIZE {
        for y in 0..GRID_SIZE {
            assert!(g.is_cell_empty(CellPos { x, y }));
        }
    }
}

#[test]
fn occupied_cells_lists_each_cell_once_in_row_major_order() {
    let mut g = Grid::new_empty_grid();
    g.set_cell(Cell { pos: CellPos { x: 3, y: 2 }, content: CellContent::SnakeBody { age: 1 } });
    g.set_cell(Cell { pos: CellPos { x: 0, y: 5 }, content: CellContent::Food });
    g.set_cell(Cell { pos: CellPos { x: 3, y: 1 }, content: CellContent::SnakeBody { age: 2 } });
    let cells = g.get_occupied_cells();
    assert_eq!(cells.len(), 3);
    assert_eq!(cells[0].pos, CellPos { x: 0, y: 5 });
    assert_eq!(cells[1].pos, CellPos { x: 3, y: 1 });
    assert_eq!(cells[2].pos, CellPos { x: 3, y: 2 });
    for c in &cells {
        assert_eq!(g.get_cell_content(c.pos), Some(c.content));
    }
    for i in 0..cells.len() {
        for j in 0..cells.len() {
            if i != j {
                assert_ne!(cells[i].pos, cells[j].pos);
            }
        }
    }
}

#[test]
fn neighbors_at_corner_edge_and_centre() {
    let corner = CellPos { x: 0, y: 0 }.get_neighbors();
    assert_eq!(corner, vec![CellPos { x: 1, y: 0 }, CellPos { x: 0, y: 1 }]);

    let edge = CellPos { x: 0, y: 7 }.get_neighbors();
    assert_eq!(
        edge,
        vec![CellPos { x: 1, y: 7 }, CellPos { x: 0, y: 6 }, CellPos { x: 0, y: 8 }]
    );

    let centre = CellPos { x: 7, y: 7 }.get_neighbors();
    assert_eq!(
        centre,
        vec![
            CellPos { x: 6, y: 7 },
            CellPos { x: 8, y: 7 },
            CellPos { x: 7, y: 6 },
            CellPos { x: 7, y: 8 }
        ]
    );

    let far_corner = CellPos { x: 14, y: 14 }.get_neighbors();
    assert_eq!(far_corner, vec![CellPos { x: 13, y: 14 }, CellPos { x: 14, y: 13 }]);
}
