//! The grid of locked cells and the removal of completed rows.
//!
//! Cells are addressed by `(x, y)`: `x` counts columns from the left,
//! `y` counts rows from the top, so row 0 is the topmost row and pieces
//! fall towards larger `y`. The grid is stored row by row.

use vstd::prelude::*;

verus! {

use crate::piece::{pattern_view, Pattern, BOX};

/// Number of columns of the board.
pub const WIDTH: usize = 10;

/// Number of rows of the board.
pub const HEIGHT: usize = 20;

/// The locked cells of the board; `cells[y][x]` is true when the cell in
/// column `x` of row `y` is occupied.
#[derive(Clone, Copy, Debug, PartialEq, Eq)]
pub struct Grid {
    pub cells: [[bool; WIDTH]; HEIGHT],
}

/// A sequence of `HEIGHT` rows of `WIDTH` cells each.
pub open spec fn is_grid(g: Seq<Seq<bool>>) -> bool {
    &&& g.len() == HEIGHT
    &&& forall|y: int| 0 <= y < HEIGHT ==> (#[trigger] g[y]).len() == WIDTH
}

/// A row without any occupied cell.
pub open spec fn empty_row() -> Seq<bool> {
    Seq::new(WIDTH as nat, |x: int| false)
}

/// `n` empty rows.
pub open spec fn empty_rows(n: nat) -> Seq<Seq<bool>> {
    Seq::new(n, |y: int| empty_row())
}

/// A row is complete when every one of its cells is occupied.
pub open spec fn row_complete(row: Seq<bool>) -> bool {
    forall|x: int| 0 <= x < row.len() ==> row[x]
}

/// The rows that survive line clearing, in their order from top to bottom.
pub open spec fn remaining_rows(g: Seq<Seq<bool>>) -> Seq<Seq<bool>> {
    g.filter(|row: Seq<bool>| !row_complete(row))
}

/// The grid after line clearing: every complete row is taken out, the rows
/// above it move down, and as many empty rows enter at the top.
pub open spec fn cleared(g: Seq<Seq<bool>>) -> Seq<Seq<bool>> {
    empty_rows((g.len() - remaining_rows(g).len()) as nat) + remaining_rows(g)
}

/// Whether any cell of the topmost row is occupied.
pub open spec fn top_row_occupied(g: Seq<Seq<bool>>) -> bool {
    exists|x: int| 0 <= x < WIDTH && g[0][x]
}

/// Whether `(x, y)` names a cell of the board.
pub open spec fn in_bounds(x: int, y: int) -> bool {
    0 <= x < WIDTH && 0 <= y < HEIGHT
}

/// Every occupied cell of the pattern, with the box's top-left corner at
/// `(x, y)`, lies on the board.
pub open spec fn inside(pattern: Seq<Seq<u8>>, x: int, y: int) -> bool {
    forall|dx: int, dy: int|
        0 <= dx < BOX && 0 <= dy < BOX && #[trigger] pattern[dx][dy] != 0 ==> in_bounds(
            x + dx,
            y + dy,
        )
}

/// Every occupied cell of the pattern, with the box's top-left corner at
/// `(x, y)`, lies on the board and over an empty cell of the grid.
pub open spec fn fits(grid: Seq<Seq<bool>>, pattern: Seq<Seq<u8>>, x: int, y: int) -> bool {
    forall|dx: int, dy: int|
        0 <= dx < BOX && 0 <= dy < BOX && #[trigger] pattern[dx][dy] != 0 ==> in_bounds(
            x + dx,
            y + dy,
        ) && !grid[y + dy][x + dx]
}

/// Whether the pattern, with the box's top-left corner at `(x, y)`, has an
/// occupied cell on the board cell `(cx, cy)`.
pub open spec fn covers(pattern: Seq<Seq<u8>>, x: int, y: int, cx: int, cy: int) -> bool {
    0 <= cx - x < BOX && 0 <= cy - y < BOX && pattern[cx - x][cy - y] != 0
}

/// The grid with the pattern's occupied cells added at `(x, y)`.
pub open spec fn merged(grid: Seq<Seq<bool>>, pattern: Seq<Seq<u8>>, x: int, y: int) -> Seq<
    Seq<bool>,
> {
    Seq::new(
        HEIGHT as nat,
        |cy: int| Seq::new(WIDTH as nat, |cx: int| grid[cy][cx] || covers(pattern, x, y, cx, cy)),
    )
}

/// How many complete rows lie below row `y`.
pub open spec fn complete_below(g: Seq<Seq<bool>>, y: int) -> int {
    g.skip(y + 1).len() - remaining_rows(g.skip(y + 1)).len()
}

impl View for Grid {
    type V = Seq<Seq<bool>>;

    open spec fn view(&self) -> Seq<Seq<bool>> {
        Seq::new(HEIGHT as nat, |y: int| self.cells[y]@)
    }
}

impl Grid {
    /// A grid without any occupied cell.
    pub fn new() -> (grid: Grid)
        ensures
            grid@ == empty_rows(HEIGHT as nat),
    {
        let grid = Grid { cells: [[false; 10]; 20] };
        assert(grid@ =~~= empty_rows(HEIGHT as nat));
        grid
    }

    /// Whether the cell in column `x` of row `y` is occupied.
    pub fn get(&self, x: usize, y: usize) -> (occupied: bool)
        requires
            x < WIDTH,
            y < HEIGHT,
        ensures
            occupied == self@[y as int][x as int],
    {
        self.cells[y][x]
    }

    /// Marks the cell in column `x` of row `y` as occupied or empty; every
    /// other cell keeps its state.
    pub fn set(&mut self, x: usize, y: usize, occupied: bool)
        requires
            x < WIDTH,
            y < HEIGHT,
        ensures
            final(self)@ == old(self)@.update(
                y as int,
                old(self)@[y as int].update(x as int, occupied),
            ),
    {
        self.cells[y][x] = occupied;
        assert(self@ =~~= old(self)@.update(
            y as int,
            old(self)@[y as int].update(x as int, occupied),
        ));
    }

    /// Whether `(x, y)` names a cell of the board.
    pub fn is_block_valid(x: i32, y: i32) -> (valid: bool)
        ensures
            valid == in_bounds(x as int, y as int),
    {
        x < WIDTH as i32 && x >= 0 && y < HEIGHT as i32 && y >= 0
    }

    /// Whether the cell in column `x` of row `y` is empty.
    pub fn is_block_free(&self, x: usize, y: usize) -> (free: bool)
        requires
            in_bounds(x as int, y as int),
        ensures
            free == !self@[y as int][x as int],
    {
        !self.cells[y][x]
    }

    /// Whether `pattern`, with the box's top-left corner at `(x, y)`, has
    /// every occupied cell on the board and over an empty cell. The bounds
    /// of a cell are checked before the grid is read.
    pub fn fits(&self, pattern: &Pattern, x: i32, y: i32) -> (ok: bool)
        ensures
            ok == fits(self@, pattern_view(*pattern), x as int, y as int),
    {
        let ghost pat = pattern_view(*pattern);
        let mut dx: usize = 0;
        while dx < BOX
            invariant
                dx <= BOX,
                pat == pattern_view(*pattern),
                forall|a: int, b: int|
                    0 <= a < dx && 0 <= b < BOX && #[trigger] pat[a][b] != 0 ==> in_bounds(
                        x + a,
                        y + b,
                    ) && !self@[y + b][x + a],
            decreases BOX - dx,
        {
            let mut dy: usize = 0;
            while dy < BOX
                invariant
                    dx < BOX,
                    dy <= BOX,
                    pat == pattern_view(*pattern),
                    forall|a: int, b: int|
                        0 <= a < dx && 0 <= b < BOX && #[trigger] pat[a][b] != 0 ==> in_bounds(
                            x + a,
                            y + b,
                        ) && !self@[y + b][x + a],
                    forall|b: int|
                        0 <= b < dy && #[trigger] pat[dx as int][b] != 0 ==> in_bounds(
                            x + dx,
                            y + b,
                        ) && !self@[y + b][x + dx],
                decreases BOX - dy,
            {
                if pattern[dx][dy] != 0 {
                    assert(pat[dx as int][dy as int] != 0);
                    let cx = match x.checked_add(dx as i32) {
                        Some(cx) => cx,
                        None => {
                            return false;
                        },
                    };
                    let cy = match y.checked_add(dy as i32) {
                        Some(cy) => cy,
                        None => {
                            return false;
                        },
                    };
                    if !Grid::is_block_valid(cx, cy) {
                        return false;
                    }
                    if !self.is_block_free(cx as usize, cy as usize) {
                        return false;
                    }
                }
                dy += 1;
            }
            dx += 1;
        }
        true
    }

    /// Adds the occupied cells of `pattern`, with the box's top-left corner
    /// at `(x, y)`, to the grid. Every other cell keeps its state.
    pub fn place(&mut self, pattern: &Pattern, x: i32, y: i32)
        requires
            inside(pattern_view(*pattern), x as int, y as int),
        ensures
            final(self)@ == merged(old(self)@, pattern_view(*pattern), x as int, y as int),
    {
        let ghost before = self@;
        let ghost pat = pattern_view(*pattern);
        let mut dx: usize = 0;
        while dx < BOX
            invariant
                dx <= BOX,
                before == old(self)@,
                pat == pattern_view(*pattern),
                inside(pat, x as int, y as int),
                forall|cx: int, cy: int|
                    0 <= cx < WIDTH && 0 <= cy < HEIGHT ==> #[trigger] self@[cy][cx] == (
                    before[cy][cx] || (covers(pat, x as int, y as int, cx, cy) && cx - x < dx)),
            decreases BOX - dx,
        {
            let mut dy: usize = 0;
            while dy < BOX
                invariant
                    dx < BOX,
                    dy <= BOX,
                    before == old(self)@,
                    pat == pattern_view(*pattern),
                    inside(pat, x as int, y as int),
                    forall|cx: int, cy: int|
                        0 <= cx < WIDTH && 0 <= cy < HEIGHT ==> #[trigger] self@[cy][cx] == (
                        before[cy][cx] || (covers(pat, x as int, y as int, cx, cy) && (cx - x < dx
                            || (cx - x == dx && cy - y < dy)))),
                decreases BOX - dy,
            {
                if pattern[dx][dy] != 0 {
                    assert(pat[dx as int][dy as int] != 0);
                    let cx: i32 = x + dx as i32;
                    let cy: i32 = y + dy as i32;
                    let ghost prev = self@;
                    self.set(cx as usize, cy as usize, true);
                    assert forall|ax: int, ay: int|
                        0 <= ax < WIDTH && 0 <= ay < HEIGHT implies #[trigger] self@[ay][ax] == (
                    before[ay][ax] || (covers(pat, x as int, y as int, ax, ay) && (ax - x < dx || (
                    ax - x == dx && ay - y < dy + 1)))) by {
                        if ax == cx && ay == cy {
                        } else {
                            assert(self@[ay][ax] == prev[ay][ax]);
                        }
                    }
                } else {
                    assert(pat[dx as int][dy as int] == 0);
                }
                dy += 1;
            }
            dx += 1;
        }
        assert(self@ =~~= merged(before, pat, x as int, y as int));
    }

    /// Whether every cell of row `y` is occupied.
    pub fn is_row_complete(&self, y: usize) -> (complete: bool)
        requires
            y < HEIGHT,
        ensures
            complete == row_complete(self@[y as int]),
    {
        let mut x: usize = 0;
        while x < WIDTH
            invariant
                y < HEIGHT,
                x <= WIDTH,
                forall|c: int| 0 <= c < x ==> self@[y as int][c],
            decreases WIDTH - x,
        {
            if !self.cells[y][x] {
                assert(!self@[y as int][x as int]);
                return false;
            }
            x += 1;
        }
        true
    }

    /// Whether any cell of the topmost row is occupied.
    pub fn is_top_row_occupied(&self) -> (occupied: bool)
        ensures
            occupied == top_row_occupied(self@),
    {
        let mut x: usize = 0;
        while x < WIDTH
            invariant
                x <= WIDTH,
                forall|c: int| 0 <= c < x ==> !self@[0][c],
            decreases WIDTH - x,
        {
            if self.cells[0][x] {
                assert(self@[0][x as int]);
                return true;
            }
            x += 1;
        }
        false
    }

    /// Takes row `line` out of the grid: every row above it moves down by one
    /// and the topmost row becomes empty. Rows below `line` stay as they are.
    pub fn delete_line(&mut self, line: usize)
        requires
            line < HEIGHT,
        ensures
            final(self)@ == old(self)@.remove(line as int).insert(0, empty_row()),
    {
        let ghost before = self@;
        let mut y: usize = line;
        while y > 0
            invariant
                y <= line < HEIGHT,
                before == old(self)@,
                forall|r: int| y < r <= line ==> self@[r] == before[r - 1],
                forall|r: int| 0 <= r <= y || line < r < HEIGHT ==> self@[r] == before[r],
            decreases y,
        {
            let ghost prev = self@;
            self.cells[y] = self.cells[y - 1];
            proof {
                assert forall|r: int| y - 1 < r <= line implies self@[r] == before[r - 1] by {
                    if r == y {
                        assert(self@[r] == prev[y - 1]);
                    } else {
                        assert(self@[r] == prev[r]);
                    }
                }
                assert forall|r: int| 0 <= r <= y - 1 || line < r < HEIGHT implies self@[r]
                    == before[r] by {
                    assert(self@[r] == prev[r]);
                }
            }
            y -= 1;
        }
        let ghost shifted = self@;
        self.cells[0] = [false; 10];
        proof {
            assert forall|r: int| 1 <= r < HEIGHT implies self@[r] == shifted[r] by {}
            let after = before.remove(line as int).insert(0, empty_row());
            assert(self@[0] =~= empty_row());
            assert(after.len() == HEIGHT);
            assert forall|r: int| 0 <= r < HEIGHT implies self@[r] == after[r] by {
                if r == 0 {
                    assert(after[0] == empty_row());
                } else if r <= line {
                    assert(after[r] == before[r - 1]);
                    assert(shifted[r] == before[r - 1]);
                    assert(self@[r] == shifted[r]);
                } else {
                    assert(after[r] == before[r]);
                    assert(shifted[r] == before[r]);
                    assert(self@[r] == shifted[r]);
                }
            }
            assert(self@ =~= after);
        }
    }

    /// Removes every complete row. The rows are visited from the top; each
    /// complete one is deleted, which moves the rows above it down and lets
    /// an empty row in at the top.
    pub fn clear_completed_lines(&mut self)
        ensures
            final(self)@ == cleared(old(self)@),
    {
        let ghost before = self@;
        let mut y: usize = 0;
        proof {
            assert(before.take(0).len() == 0);
            lemma_remaining_rows_step_base(before);
            assert(self@ =~= empty_rows(0) + remaining_rows(before.take(0)) + before.skip(0));
        }
        while y < HEIGHT
            invariant
                y <= HEIGHT,
                before == old(self)@,
                before.len() == HEIGHT,
                remaining_rows(before.take(y as int)).len() <= y,
                self@ == empty_rows((y - remaining_rows(before.take(y as int)).len()) as nat)
                    + remaining_rows(before.take(y as int)) + before.skip(y as int),
            decreases HEIGHT - y,
        {
            let ghost kept = remaining_rows(before.take(y as int));
            let ghost gone = (y - kept.len()) as nat;
            let ghost now = self@;
            proof {
                lemma_remaining_rows_step(before, y as int);
                assert(now[y as int] == before[y as int]);
            }
            if self.is_row_complete(y) {
                self.delete_line(y);
                proof {
                    assert(self@ =~= empty_rows(gone + 1) + kept + before.skip(y + 1));
                }
            } else {
                proof {
                    assert(self@ =~= empty_rows(gone) + kept.push(before[y as int]) + before.skip(
                        y + 1,
                    ));
                }
            }
            y += 1;
        }
        proof {
            assert(before.take(HEIGHT as int) =~= before);
            assert(self@ =~= cleared(before));
        }
    }
}

/// The view of every grid has the board's dimensions.
pub proof fn lemma_view_is_grid(grid: Grid)
    ensures
        is_grid(grid@),
{
}

/// On a grid without occupied cells a pattern fits wherever it lies on the
/// board.
pub proof fn lemma_fits_empty(pattern: Seq<Seq<u8>>, x: int, y: int)
    ensures
        fits(empty_rows(HEIGHT as nat), pattern, x, y) == inside(pattern, x, y),
{
    let g = empty_rows(HEIGHT as nat);
    if inside(pattern, x, y) {
        assert forall|dx: int, dy: int|
            0 <= dx < BOX && 0 <= dy < BOX && #[trigger] pattern[dx][dy] != 0 implies in_bounds(
            x + dx,
            y + dy,
        ) && !g[y + dy][x + dx] by {
            assert(g[y + dy] == empty_row());
        }
    }
}

/// The empty prefix of a grid has no rows to keep.
proof fn lemma_remaining_rows_step_base(g: Seq<Seq<bool>>)
    ensures
        remaining_rows(g.take(0)).len() == 0,
{
    g.take(0).lemma_filter_len(|row: Seq<bool>| !row_complete(row));
}

/// Looking at one more row either keeps it, when it is not complete, or
/// leaves the kept rows as they are.
proof fn lemma_remaining_rows_step(g: Seq<Seq<bool>>, y: int)
    requires
        0 <= y < g.len(),
    ensures
        remaining_rows(g.take(y + 1)) == if row_complete(g[y]) {
            remaining_rows(g.take(y))
        } else {
            remaining_rows(g.take(y)).push(g[y])
        },
        remaining_rows(g.take(y + 1)).len() <= y + 1,
{
    let pred = |row: Seq<bool>| !row_complete(row);
    assert(g.take(y + 1) =~= g.take(y).push(g[y]));
    g.take(y).lemma_filter_push(g[y], pred);
    g.take(y + 1).lemma_filter_len(pred);
}

/// Line clearing keeps the dimensions of the grid.
pub proof fn lemma_cleared_is_grid(g: Seq<Seq<bool>>)
    requires
        is_grid(g),
    ensures
        is_grid(cleared(g)),
{
    let pred = |row: Seq<bool>| !row_complete(row);
    let kept = remaining_rows(g);
    g.lemma_filter_len(pred);
    let gone = (g.len() - kept.len()) as nat;
    let c = cleared(g);
    assert forall|y: int| 0 <= y < HEIGHT implies (#[trigger] c[y]).len() == WIDTH by {
        if y < gone {
            assert(c[y] == empty_row());
        } else {
            let row = kept[y - gone];
            assert(c[y] == row);
            assert(kept.contains(row));
            g.lemma_filter_contains_rev(pred, row);
            let i = choose|i: int| 0 <= i < g.len() && g[i] == row;
            assert(g[i].len() == WIDTH);
        }
    }
}

/// After line clearing no row of the grid is complete.
pub proof fn lemma_cleared_has_no_complete_row(g: Seq<Seq<bool>>)
    ensures
        cleared(g).len() == g.len(),
        forall|y: int| 0 <= y < g.len() ==> !row_complete(#[trigger] cleared(g)[y]),
{
    let pred = |row: Seq<bool>| !row_complete(row);
    let kept = remaining_rows(g);
    g.lemma_filter_len(pred);
    let gone = (g.len() - kept.len()) as nat;
    let c = cleared(g);
    assert forall|y: int| 0 <= y < g.len() implies !row_complete(#[trigger] c[y]) by {
        if y < gone {
            assert(c[y] == empty_row());
            assert(!empty_row()[0]);
        } else {
            assert(c[y] == kept[y - gone]);
            g.lemma_filter_pred(pred, y - gone);
        }
    }
}

/// Line clearing moves a row that is not complete down by the number of
/// complete rows below it, and leaves its cells as they are.
pub proof fn lemma_cleared_row(g: Seq<Seq<bool>>, y: int)
    requires
        0 <= y < g.len(),
        !row_complete(g[y]),
    ensures
        0 <= complete_below(g, y),
        y + complete_below(g, y) < g.len(),
        cleared(g)[y + complete_below(g, y)] == g[y],
{
    let pred = |row: Seq<bool>| !row_complete(row);
    let above = g.take(y);
    let below = g.skip(y + 1);
    assert(g =~= above.push(g[y]) + below);
    Seq::filter_distributes_over_add(above.push(g[y]), below, pred);
    above.lemma_filter_push(g[y], pred);
    above.lemma_filter_len(pred);
    below.lemma_filter_len(pred);
    let kept = remaining_rows(g);
    assert(kept == above.filter(pred).push(g[y]) + below.filter(pred));
    let gone = g.len() - kept.len();
    assert(cleared(g)[gone + above.filter(pred).len()] == kept[above.filter(pred).len() as int]);
}

/// With `r` the only complete row, the rows that line clearing keeps among
/// the first `n` are those rows without row `r`.
proof fn lemma_remaining_one(g: Seq<Seq<bool>>, r: int, n: int)
    requires
        0 <= r < g.len(),
        0 <= n <= g.len(),
        row_complete(g[r]),
        forall|y: int| 0 <= y < g.len() && y != r ==> !row_complete(#[trigger] g[y]),
    ensures
        remaining_rows(g.take(n)) == if n <= r {
            g.take(n)
        } else {
            g.take(n).remove(r)
        },
    decreases n,
{
    if n == 0 {
        lemma_remaining_rows_step_base(g);
        assert(remaining_rows(g.take(0)) =~= g.take(0));
    } else {
        lemma_remaining_one(g, r, n - 1);
        lemma_remaining_rows_step(g, n - 1);
        if n - 1 < r {
            assert(g.take(n - 1).push(g[n - 1]) =~= g.take(n));
        } else if n - 1 == r {
            assert(g.take(n - 1) =~= g.take(n).remove(r));
        } else {
            assert(g.take(n - 1).remove(r).push(g[n - 1]) =~= g.take(n).remove(r));
        }
    }
}

/// Line clearing with exactly one complete row: row `r` is gone, the rows
/// above it have each moved down by one, the topmost row is empty, and the
/// rows below `r` are where they were.
pub proof fn lemma_clear_one_row(g: Seq<Seq<bool>>, r: int)
    requires
        0 <= r < g.len(),
        row_complete(g[r]),
        forall|y: int| 0 <= y < g.len() && y != r ==> !row_complete(#[trigger] g[y]),
    ensures
        cleared(g) == g.remove(r).insert(0, empty_row()),
        cleared(g).len() == g.len(),
        cleared(g)[0] == empty_row(),
        forall|y: int| 0 <= y < r ==> cleared(g)[y + 1] == #[trigger] g[y],
        forall|y: int| r < y < g.len() ==> cleared(g)[y] == #[trigger] g[y],
{
    lemma_remaining_one(g, r, g.len() as int);
    assert(g.take(g.len() as int) =~= g);
    let c = cleared(g);
    assert(remaining_rows(g) == g.remove(r));
    assert(c =~= g.remove(r).insert(0, empty_row()));
    assert forall|y: int| 0 <= y < r implies c[y + 1] == #[trigger] g[y] by {
        assert(g.remove(r)[y] == g[y]);
    }
    assert forall|y: int| r < y < g.len() implies c[y] == #[trigger] g[y] by {
        assert(g.remove(r)[y - 1] == g[y]);
    }
}

/// With `r1` and `r2` the only complete rows, the rows that line clearing
/// keeps among the first `n` are those rows without rows `r1` and `r2`.
proof fn lemma_remaining_two(g: Seq<Seq<bool>>, r1: int, r2: int, n: int)
    requires
        0 <= r1 < r2 < g.len(),
        0 <= n <= g.len(),
        row_complete(g[r1]),
        row_complete(g[r2]),
        forall|y: int| 0 <= y < g.len() && y != r1 && y != r2 ==> !row_complete(#[trigger] g[y]),
    ensures
        remaining_rows(g.take(n)) == if n <= r1 {
            g.take(n)
        } else if n <= r2 {
            g.take(n).remove(r1)
        } else {
            g.take(n).remove(r2).remove(r1)
        },
    decreases n,
{
    if n == 0 {
        lemma_remaining_rows_step_base(g);
        assert(remaining_rows(g.take(0)) =~= g.take(0));
    } else {
        lemma_remaining_two(g, r1, r2, n - 1);
        lemma_remaining_rows_step(g, n - 1);
        if n - 1 < r1 {
            assert(g.take(n - 1).push(g[n - 1]) =~= g.take(n));
        } else if n - 1 == r1 {
            assert(g.take(n - 1) =~= g.take(n).remove(r1));
        } else if n - 1 < r2 {
            assert(g.take(n - 1).remove(r1).push(g[n - 1]) =~= g.take(n).remove(r1));
        } else if n - 1 == r2 {
            assert(g.take(n - 1).remove(r1) =~= g.take(n).remove(r2).remove(r1));
        } else {
            assert(g.take(n - 1).remove(r2).remove(r1).push(g[n - 1]) =~= g.take(n).remove(
                r2,
            ).remove(r1));
        }
    }
}

/// Line clearing with exactly two complete rows, adjacent or not: both are
/// gone and two empty rows stand at the top. A row above both has moved down
/// by two, a row between them by one, and a row below both has not moved.
pub proof fn lemma_clear_two_rows(g: Seq<Seq<bool>>, r1: int, r2: int)
    requires
        0 <= r1 < r2 < g.len(),
        row_complete(g[r1]),
        row_complete(g[r2]),
        forall|y: int| 0 <= y < g.len() && y != r1 && y != r2 ==> !row_complete(#[trigger] g[y]),
    ensures
        cleared(g) == g.remove(r2).remove(r1).insert(0, empty_row()).insert(0, empty_row()),
        cleared(g).len() == g.len(),
        cleared(g)[0] == empty_row(),
        cleared(g)[1] == empty_row(),
        forall|y: int| 0 <= y < r1 ==> cleared(g)[y + 2] == #[trigger] g[y],
        forall|y: int| r1 < y < r2 ==> cleared(g)[y + 1] == #[trigger] g[y],
        forall|y: int| r2 < y < g.len() ==> cleared(g)[y] == #[trigger] g[y],
{
    lemma_remaining_two(g, r1, r2, g.len() as int);
    assert(g.take(g.len() as int) =~= g);
    let c = cleared(g);
    let kept = g.remove(r2).remove(r1);
    assert(remaining_rows(g) == kept);
    assert(c =~= kept.insert(0, empty_row()).insert(0, empty_row()));
    assert forall|y: int| 0 <= y < r1 implies c[y + 2] == #[trigger] g[y] by {
        assert(kept[y] == g[y]);
    }
    assert forall|y: int| r1 < y < r2 implies c[y + 1] == #[trigger] g[y] by {
        assert(kept[y - 1] == g[y]);
    }
    assert forall|y: int| r2 < y < g.len() implies c[y] == #[trigger] g[y] by {
        assert(kept[y - 2] == g[y]);
    }
}

} // verus!
