use tetris::grid::{Grid, HEIGHT, WIDTH};
use tetris::piece::{Pattern, Piece, Shape};

fn fill_row(grid: &mut Grid, y: usize) {
    for x in 0..WIDTH {
        grid.set(x, y, true);
    }
}

fn empty_row() -> [bool; 10] {
    [false; 10]
}

/// A grid in which row `y` holds exactly the cell in column `y % WIDTH`, so
/// that every row can be told from every other.
fn marked_grid() -> Grid {
    let mut grid = Grid::new();
    for y in 0..HEIGHT {
        grid.set(y % WIDTH, y, true);
        if y >= WIDTH {
            grid.set((y + 1) % WIDTH, y, true);
        }
    }
    grid
}

#[test]
fn dimensions_are_ten_by_twenty() {
    assert_eq!(WIDTH, 10);
    assert_eq!(HEIGHT, 20);
}

#[test]
fn new_grid_is_empty() {
    let grid = Grid::new();
    for y in 0..HEIGHT {
        for x in 0..WIDTH {
            assert!(!grid.get(x, y));
            assert!(grid.is_block_free(x, y));
        }
        assert!(!grid.is_row_complete(y));
    }
    assert!(!grid.is_top_row_occupied());
}

#[test]
fn set_changes_one_cell() {
    let mut grid = Grid::new();
    grid.set(3, 7, true);
    for y in 0..HEIGHT {
        for x in 0..WIDTH {
            assert_eq!(grid.get(x, y), x == 3 && y == 7);
        }
    }
    assert!(!grid.is_block_free(3, 7));
    grid.set(3, 7, false);
    assert_eq!(grid, Grid::new());
}

#[test]
fn block_validity_is_a_bounds_check() {
    assert!(Grid::is_block_valid(0, 0));
    assert!(Grid::is_block_valid(9, 19));
    assert!(!Grid::is_block_valid(-1, 0));
    assert!(!Grid::is_block_valid(0, -1));
    assert!(!Grid::is_block_valid(10, 0));
    assert!(!Grid::is_block_valid(0, 20));
    assert!(!Grid::is_block_valid(i32::MAX, 0));
    assert!(!Grid::is_block_valid(0, i32::MIN));
}

#[test]
fn row_is_complete_only_when_every_cell_is_occupied() {
    let mut grid = Grid::new();
    for x in 0..WIDTH - 1 {
        grid.set(x, 5, true);
    }
    assert!(!grid.is_row_complete(5));
    grid.set(WIDTH - 1, 5, true);
    assert!(grid.is_row_complete(5));
    assert!(!grid.is_row_complete(4));
    assert!(!grid.is_row_complete(6));
}

#[test]
fn top_row_is_occupied_by_any_cell_of_row_zero() {
    for x in 0..WIDTH {
        let mut grid = Grid::new();
        grid.set(x, 0, true);
        assert!(grid.is_top_row_occupied());
    }
    let mut grid = Grid::new();
    grid.set(0, 1, true);
    assert!(!grid.is_top_row_occupied());
}

#[test]
fn delete_line_moves_the_rows_above_down() {
    let before = marked_grid();
    let mut grid = before;
    grid.delete_line(7);
    assert_eq!(grid.cells[0], empty_row());
    for y in 1..=7 {
        assert_eq!(grid.cells[y], before.cells[y - 1]);
    }
    for y in 8..HEIGHT {
        assert_eq!(grid.cells[y], before.cells[y]);
    }
}

#[test]
fn delete_line_of_the_top_row_empties_it() {
    let before = marked_grid();
    let mut grid = before;
    grid.delete_line(0);
    assert_eq!(grid.cells[0], empty_row());
    for y in 1..HEIGHT {
        assert_eq!(grid.cells[y], before.cells[y]);
    }
}

#[test]
fn delete_line_of_the_bottom_row_moves_every_row() {
    let before = marked_grid();
    let mut grid = before;
    grid.delete_line(HEIGHT - 1);
    assert_eq!(grid.cells[0], empty_row());
    for y in 1..HEIGHT {
        assert_eq!(grid.cells[y], before.cells[y - 1]);
    }
}

#[test]
fn clearing_without_a_complete_row_changes_nothing() {
    let before = marked_grid();
    let mut grid = before;
    grid.clear_completed_lines();
    assert_eq!(grid, before);
}

#[test]
fn clearing_one_complete_row() {
    for r in 0..HEIGHT {
        let mut before = marked_grid();
        fill_row(&mut before, r);
        let mut grid = before;
        grid.clear_completed_lines();
        assert_eq!(grid.cells[0], empty_row());
        for y in 0..r {
            assert_eq!(grid.cells[y + 1], before.cells[y]);
        }
        for y in r + 1..HEIGHT {
            assert_eq!(grid.cells[y], before.cells[y]);
        }
    }
}

#[test]
fn clearing_two_adjacent_complete_rows() {
    let mut before = marked_grid();
    fill_row(&mut before, 11);
    fill_row(&mut before, 12);
    let mut grid = before;
    grid.clear_completed_lines();
    assert_eq!(grid.cells[0], empty_row());
    assert_eq!(grid.cells[1], empty_row());
    for y in 0..11 {
        assert_eq!(grid.cells[y + 2], before.cells[y]);
    }
    for y in 13..HEIGHT {
        assert_eq!(grid.cells[y], before.cells[y]);
    }
}

#[test]
fn clearing_two_separate_complete_rows() {
    let mut before = marked_grid();
    fill_row(&mut before, 4);
    fill_row(&mut before, 17);
    let mut grid = before;
    grid.clear_completed_lines();
    assert_eq!(grid.cells[0], empty_row());
    assert_eq!(grid.cells[1], empty_row());
    for y in 0..4 {
        assert_eq!(grid.cells[y + 2], before.cells[y]);
    }
    for y in 5..17 {
        assert_eq!(grid.cells[y + 1], before.cells[y]);
    }
    for y in 18..HEIGHT {
        assert_eq!(grid.cells[y], before.cells[y]);
    }
}

#[test]
fn clearing_every_pair_of_complete_rows() {
    for r1 in 0..HEIGHT {
        for r2 in r1 + 1..HEIGHT {
            let mut before = marked_grid();
            fill_row(&mut before, r1);
            fill_row(&mut before, r2);
            let mut grid = before;
            grid.clear_completed_lines();
            let mut expected = Grid::new();
            let mut to = HEIGHT;
            for y in (0..HEIGHT).rev() {
                if y != r1 && y != r2 {
                    to -= 1;
                    expected.cells[to] = before.cells[y];
                }
            }
            assert_eq!(to, 2);
            assert_eq!(grid, expected);
        }
    }
}

#[test]
fn clearing_a_full_grid_leaves_it_empty() {
    let mut grid = Grid::new();
    for y in 0..HEIGHT {
        fill_row(&mut grid, y);
    }
    grid.clear_completed_lines();
    assert_eq!(grid, Grid::new());
}

#[test]
fn clearing_leaves_no_complete_row() {
    let mut grid = marked_grid();
    for y in [0, 1, 5, 6, 7, 19] {
        fill_row(&mut grid, y);
    }
    grid.clear_completed_lines();
    for y in 0..HEIGHT {
        assert!(!grid.is_row_complete(y));
    }
    for y in 0..6 {
        assert_eq!(grid.cells[y], empty_row());
    }
}

#[test]
fn pattern_fits_on_an_empty_grid_while_its_cells_are_on_the_board() {
    let grid = Grid::new();
    let square = Piece::new(Shape::O).occupancy();
    // The square occupies columns 2 and 3 and rows 2 and 3 of its box.
    assert!(grid.fits(&square, 0, 0));
    assert!(grid.fits(&square, -2, -2));
    assert!(!grid.fits(&square, -3, 0));
    assert!(!grid.fits(&square, 0, -3));
    assert!(grid.fits(&square, 6, 16));
    assert!(!grid.fits(&square, 7, 16));
    assert!(!grid.fits(&square, 6, 17));
}

#[test]
fn pattern_does_not_fit_over_an_occupied_cell() {
    let mut grid = Grid::new();
    grid.set(3, 3, true);
    let square = Piece::new(Shape::O).occupancy();
    assert!(!grid.fits(&square, 0, 0));
    assert!(!grid.fits(&square, 1, 1));
    assert!(!grid.fits(&square, 0, 1));
    assert!(grid.fits(&square, 2, 0));
    assert!(grid.fits(&square, 0, 2));
}

#[test]
fn pattern_far_off_the_board_does_not_fit() {
    let grid = Grid::new();
    let square = Piece::new(Shape::O).occupancy();
    assert!(!grid.fits(&square, i32::MAX, 0));
    assert!(!grid.fits(&square, 0, i32::MAX));
    assert!(!grid.fits(&square, i32::MIN, 0));
    assert!(!grid.fits(&square, 0, i32::MIN));
    assert!(!grid.fits(&square, i32::MAX - 2, i32::MAX - 2));
}

#[test]
fn empty_pattern_fits_everywhere() {
    let grid = Grid::new();
    let nothing: Pattern = [[0; 5]; 5];
    assert!(grid.fits(&nothing, 1000, -1000));
    assert!(grid.fits(&nothing, i32::MAX, i32::MIN));
}

#[test]
fn place_adds_the_cells_of_the_pattern() {
    let mut grid = Grid::new();
    grid.set(0, 19, true);
    let tee = Piece::new(Shape::T).occupancy();
    grid.place(&tee, 4, 15);
    // The tee occupies (1,2), (2,2), (3,2) and (2,3) of its box.
    let cells = [(0, 19), (5, 17), (6, 17), (7, 17), (6, 18)];
    for y in 0..HEIGHT {
        for x in 0..WIDTH {
            assert_eq!(grid.get(x, y), cells.contains(&(x, y)));
        }
    }
}

#[test]
fn place_with_the_box_partly_off_the_board() {
    let mut grid = Grid::new();
    let square = Piece::new(Shape::O).occupancy();
    grid.place(&square, -2, -2);
    grid.place(&square, 6, 16);
    let cells = [(0, 0), (0, 1), (1, 0), (1, 1), (8, 18), (8, 19), (9, 18), (9, 19)];
    for y in 0..HEIGHT {
        for x in 0..WIDTH {
            assert_eq!(grid.get(x, y), cells.contains(&(x, y)));
        }
    }
}
