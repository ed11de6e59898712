//! The board: the grid of locked cells, the falling piece and its position.
//!
//! The position `(x, y)` is the board cell under the top-left corner of the
//! piece's 5x5 box; the pattern cell `(dx, dy)` lies over the board cell
//! `(x + dx, y + dy)`. A board whose topmost row holds an occupied cell is
//! in its terminal state: moves, rotations and gravity leave it unchanged.

use vstd::prelude::*;

verus! {

use crate::grid::{
    cleared,
    complete_below,
    covers,
    empty_rows,
    fits,
    in_bounds,
    inside,
    is_grid,
    lemma_cleared_has_no_complete_row,
    lemma_cleared_is_grid,
    lemma_cleared_row,
    lemma_fits_empty,
    lemma_view_is_grid,
    merged,
    row_complete,
    top_row_occupied,
    Grid,
    HEIGHT,
};
use crate::piece::{
    lemma_centre_occupied,
    lemma_pattern_is_pattern,
    lemma_rotated_pattern,
    pattern_view,
    shape_of_roll,
    BOX,
    Pattern,
    Piece,
    PieceView,
};

/// The board of one game.
#[derive(Clone, Copy, Debug)]
pub struct Board {
    grid: Grid,
    piece: Piece,
    position: (i32, i32),
}

/// The mathematical value of a board.
pub struct BoardView {
    pub grid: Seq<Seq<bool>>,
    pub piece: PieceView,
    pub x: int,
    pub y: int,
}

/// What one gravity tick did.
#[derive(Clone, Copy, Debug, PartialEq, Eq, Structural)]
pub struct LockResult {
    /// The piece could not fall and was locked into the grid by this tick.
    pub locked: bool,
    /// The board is in its terminal state after this tick.
    pub game_over: bool,
}

/// The piece that enters the board for a roll.
pub open spec fn spawn_view(roll: u64) -> PieceView {
    PieceView { shape: shape_of_roll(roll), rotation: 0 }
}

impl BoardView {
    /// The grid has the board's dimensions, the piece is well formed, and
    /// every occupied cell of the piece lies on the board.
    pub open spec fn wf(self) -> bool {
        &&& is_grid(self.grid)
        &&& self.piece.wf()
        &&& inside(self.piece.pattern(), self.x, self.y)
    }

    /// The terminal state: a cell of the topmost row is occupied.
    pub open spec fn game_over(self) -> bool {
        top_row_occupied(self.grid)
    }

    /// Whether the piece, as it is turned now, fits at `(x, y)`.
    pub open spec fn can_place(self, x: int, y: int) -> bool {
        fits(self.grid, self.piece.pattern(), x, y)
    }

    /// Whether the piece fits where it is after its next rotation step.
    pub open spec fn can_rotate(self) -> bool {
        fits(self.grid, self.piece.rotated().pattern(), self.x, self.y)
    }

    /// The same board with the piece at `(x, y)`.
    pub open spec fn at(self, x: int, y: int) -> BoardView {
        BoardView { grid: self.grid, piece: self.piece, x, y }
    }

    /// The board after a request to move the piece by `(dx, dy)`.
    pub open spec fn moved(self, dx: int, dy: int) -> BoardView {
        if !self.game_over() && self.can_place(self.x + dx, self.y + dy) {
            self.at(self.x + dx, self.y + dy)
        } else {
            self
        }
    }

    /// The board after a request to rotate the piece.
    pub open spec fn turned(self) -> BoardView {
        if !self.game_over() && self.can_rotate() {
            BoardView { grid: self.grid, piece: self.piece.rotated(), x: self.x, y: self.y }
        } else {
            self
        }
    }

    /// The same grid with a fresh piece at the spawn position.
    pub open spec fn spawned(self, roll: u64) -> BoardView {
        BoardView { grid: self.grid, piece: spawn_view(roll), x: 0, y: 0 }
    }

    /// The grid with the piece's cells added where the piece is.
    pub open spec fn merged_grid(self) -> Seq<Seq<bool>> {
        merged(self.grid, self.piece.pattern(), self.x, self.y)
    }

    /// The board after locking: the piece's cells are added to the grid, the
    /// complete rows are cleared, and a fresh piece stands at the spawn
    /// position.
    pub open spec fn locked(self, roll: u64) -> BoardView {
        BoardView { grid: cleared(self.merged_grid()), piece: spawn_view(roll), x: 0, y: 0 }
    }

    /// The board after one gravity tick.
    pub open spec fn ticked(self, roll: u64) -> BoardView {
        if self.game_over() {
            self
        } else if self.can_place(self.x, self.y + 1) {
            self.at(self.x, self.y + 1)
        } else {
            self.locked(roll)
        }
    }
}

impl View for Board {
    type V = BoardView;

    closed spec fn view(&self) -> BoardView {
        BoardView {
            grid: self.grid@,
            piece: self.piece@,
            x: self.position.0 as int,
            y: self.position.1 as int,
        }
    }
}

impl Board {
    #[verifier::type_invariant]
    closed spec fn inv(self) -> bool {
        self@.wf()
    }

    /// An empty board with the piece that `roll` selects at the spawn
    /// position `(0, 0)`.
    pub fn new(roll: u64) -> (board: Board)
        ensures
            board@ == (BoardView {
                grid: empty_rows(HEIGHT as nat),
                piece: spawn_view(roll),
                x: 0,
                y: 0,
            }),
            board@.wf(),
    {
        let grid = Grid::new();
        let piece = Piece::spawn_random(roll);
        proof {
            lemma_view_is_grid(grid);
            lemma_pattern_is_pattern(piece@);
        }
        Board { grid, piece, position: (0, 0) }
    }

    /// A board made of the given grid, piece and position, if every occupied
    /// cell of the piece lies on the board there.
    pub fn from_parts(grid: Grid, piece: Piece, x: i32, y: i32) -> (board: Option<Board>)
        ensures
            board is Some <==> inside(piece@.pattern(), x as int, y as int),
            board matches Some(b) ==> b@ == (BoardView {
                grid: grid@,
                piece: piece@,
                x: x as int,
                y: y as int,
            }) && b@.wf(),
    {
        let pattern = piece.occupancy();
        let probe = Grid::new();
        proof {
            lemma_fits_empty(pattern_view(pattern), x as int, y as int);
            lemma_view_is_grid(grid);
        }
        if probe.fits(&pattern, x, y) {
            Some(Board { grid, piece, position: (x, y) })
        } else {
            None
        }
    }

    /// The grid of locked cells.
    pub fn grid(&self) -> (grid: &Grid)
        ensures
            grid@ == self@.grid,
    {
        &self.grid
    }

    /// The falling piece.
    pub fn piece(&self) -> (piece: Piece)
        ensures
            piece@ == self@.piece,
    {
        self.piece
    }

    /// The board cell under the top-left corner of the piece's box.
    pub fn position(&self) -> (position: (i32, i32))
        ensures
            position.0 == self@.x,
            position.1 == self@.y,
            self@.wf(),
            in_bounds(position.0 + 2, position.1 + 2),
    {
        proof {
            use_type_invariant(self);
            lemma_centre_on_board(self@);
        }
        self.position
    }

    /// Whether `pattern` fits at `(x, y)`: every occupied cell of it lies on
    /// the board and over an empty cell of the grid.
    pub fn is_valid(&self, x: i32, y: i32, pattern: &Pattern) -> (valid: bool)
        ensures
            valid == fits(self@.grid, pattern_view(*pattern), x as int, y as int),
    {
        self.grid.fits(pattern, x, y)
    }

    /// Whether the falling piece fits at `(x, y)`.
    pub fn is_valid_move(&self, x: i32, y: i32) -> (valid: bool)
        ensures
            valid == self@.can_place(x as int, y as int),
    {
        let pattern = self.piece.occupancy();
        self.is_valid(x, y, &pattern)
    }

    /// Whether the falling piece fits where it is after its next rotation
    /// step.
    pub fn can_rotate(&self) -> (valid: bool)
        ensures
            valid == self@.can_rotate(),
    {
        let mut turned = self.piece;
        turned.rotate();
        let pattern = turned.occupancy();
        self.is_valid(self.position.0, self.position.1, &pattern)
    }

    /// Whether the game is over: a cell of the topmost row is occupied.
    pub fn is_game_over(&self) -> (over: bool)
        ensures
            over == self@.game_over(),
    {
        self.grid.is_top_row_occupied()
    }

    /// Moves the piece by `(dx, dy)` if the game is not over and the piece
    /// fits at the destination; otherwise the board stays as it is.
    pub fn attempt_move(&mut self, dx: i32, dy: i32) -> (accepted: bool)
        ensures
            accepted == (!old(self)@.game_over() && old(self)@.can_place(
                old(self)@.x + dx,
                old(self)@.y + dy,
            )),
            final(self)@ == old(self)@.moved(dx as int, dy as int),
            accepted ==> final(self)@ == old(self)@.at(old(self)@.x + dx, old(self)@.y + dy),
            accepted ==> final(self)@.can_place(final(self)@.x, final(self)@.y),
            !accepted ==> final(self)@ == old(self)@,
            final(self)@.wf(),
    {
        proof {
            use_type_invariant(&*self);
            lemma_centre_occupied(self@.piece);
        }
        if self.is_game_over() {
            return false;
        }
        let x = match self.position.0.checked_add(dx) {
            Some(x) => x,
            None => {
                return false;
            },
        };
        let y = match self.position.1.checked_add(dy) {
            Some(y) => y,
            None => {
                return false;
            },
        };
        if self.is_valid_move(x, y) {
            self.position = (x, y);
            true
        } else {
            false
        }
    }

    /// Advances the piece to its next rotation state if the game is not over
    /// and the rotated piece fits where the piece is; otherwise the board
    /// stays as it is.
    pub fn attempt_rotate(&mut self) -> (accepted: bool)
        ensures
            accepted == (!old(self)@.game_over() && old(self)@.can_rotate()),
            final(self)@ == old(self)@.turned(),
            accepted ==> final(self)@ == (BoardView {
                grid: old(self)@.grid,
                piece: old(self)@.piece.rotated(),
                x: old(self)@.x,
                y: old(self)@.y,
            }),
            accepted ==> final(self)@.can_place(final(self)@.x, final(self)@.y),
            !accepted ==> final(self)@ == old(self)@,
            final(self)@.wf(),
    {
        proof {
            use_type_invariant(&*self);
        }
        if self.is_game_over() {
            return false;
        }
        if self.can_rotate() {
            let mut turned = self.piece;
            turned.rotate();
            self.piece = turned;
            true
        } else {
            false
        }
    }

    /// Replaces the falling piece by the piece that `roll` selects, at the
    /// spawn position `(0, 0)`.
    pub fn new_block(&mut self, roll: u64)
        ensures
            final(self)@ == old(self)@.spawned(roll),
            final(self)@.wf(),
    {
        proof {
            use_type_invariant(&*self);
        }
        let piece = Piece::spawn_random(roll);
        proof {
            lemma_pattern_is_pattern(piece@);
        }
        *self = Board { grid: self.grid, piece, position: (0, 0) };
    }

    /// Removes every complete row of the grid; the piece stays as it is.
    pub fn clear_completed_lines(&mut self)
        ensures
            final(self)@ == (BoardView {
                grid: cleared(old(self)@.grid),
                piece: old(self)@.piece,
                x: old(self)@.x,
                y: old(self)@.y,
            }),
            final(self)@.wf(),
    {
        proof {
            use_type_invariant(&*self);
            lemma_cleared_is_grid(self@.grid);
        }
        let mut grid = self.grid;
        grid.clear_completed_lines();
        self.grid = grid;
    }

    /// Locks the piece: its occupied cells are added to the grid, complete
    /// rows are cleared, and the piece that `roll` selects enters at the
    /// spawn position.
    pub fn lock(&mut self, roll: u64)
        ensures
            final(self)@ == old(self)@.locked(roll),
            final(self)@.wf(),
    {
        proof {
            use_type_invariant(&*self);
        }
        let pattern = self.piece.occupancy();
        let mut grid = self.grid;
        grid.place(&pattern, self.position.0, self.position.1);
        grid.clear_completed_lines();
        let piece = Piece::spawn_random(roll);
        proof {
            lemma_view_is_grid(grid);
            lemma_pattern_is_pattern(piece@);
        }
        *self = Board { grid, piece, position: (0, 0) };
    }

    /// One gravity tick. A board whose game is over stays as it is. Otherwise
    /// the piece falls by one row if it fits there; if it does not, it is
    /// locked, and `roll` selects the piece that enters.
    pub fn tick_gravity(&mut self, roll: u64) -> (result: LockResult)
        ensures
            final(self)@ == old(self)@.ticked(roll),
            result.locked == (!old(self)@.game_over() && !old(self)@.can_place(
                old(self)@.x,
                old(self)@.y + 1,
            )),
            result.locked ==> final(self)@ == old(self)@.locked(roll),
            result.game_over == final(self)@.game_over(),
            final(self)@.wf(),
    {
        proof {
            use_type_invariant(&*self);
        }
        if self.is_game_over() {
            return LockResult { locked: false, game_over: true };
        }
        if self.attempt_move(0, 1) {
            LockResult { locked: false, game_over: false }
        } else {
            self.lock(roll);
            let game_over = self.is_game_over();
            LockResult { locked: true, game_over }
        }
    }
}

/// The centre of the piece's box always lies on the board, so the position
/// is never further than two cells outside it.
pub proof fn lemma_centre_on_board(v: BoardView)
    requires
        v.wf(),
    ensures
        in_bounds(v.x + 2, v.y + 2),
{
    lemma_centre_occupied(v.piece);
}

/// Locking is atomic. Every occupied cell of the piece is occupied in the
/// merged grid. If its row is not complete there, the cell is occupied in
/// the grid after locking, moved down by the number of complete rows below
/// it; if its row is complete, the row is gone with all its cells, for no
/// complete row is left. The piece that `roll` selects stands at the spawn
/// position.
pub proof fn lemma_lock_reflects_piece(s: BoardView, roll: u64, dx: int, dy: int)
    requires
        s.wf(),
        0 <= dx < BOX,
        0 <= dy < BOX,
        s.piece.pattern()[dx][dy] != 0,
    ensures
        in_bounds(s.x + dx, s.y + dy),
        s.merged_grid()[s.y + dy][s.x + dx],
        !row_complete(s.merged_grid()[s.y + dy]) ==> {
            &&& 0 <= complete_below(s.merged_grid(), s.y + dy)
            &&& s.y + dy + complete_below(s.merged_grid(), s.y + dy) < HEIGHT
            &&& s.locked(roll).grid[s.y + dy + complete_below(s.merged_grid(), s.y + dy)][s.x + dx]
        },
        forall|r: int| 0 <= r < HEIGHT ==> !row_complete(#[trigger] s.locked(roll).grid[r]),
        s.locked(roll).piece == spawn_view(roll),
        s.locked(roll).x == 0,
        s.locked(roll).y == 0,
        s.locked(roll).wf(),
{
    let m = s.merged_grid();
    let cx = s.x + dx;
    let cy = s.y + dy;
    assert(in_bounds(cx, cy));
    assert(covers(s.piece.pattern(), s.x, s.y, cx, cy));
    assert(m[cy][cx]);
    if !row_complete(m[cy]) {
        lemma_cleared_row(m, cy);
    }
    lemma_cleared_has_no_complete_row(m);
    lemma_cleared_is_grid(m);
    lemma_pattern_is_pattern(spawn_view(roll));
}

/// Every step of the board keeps it well formed: whatever is asked of it,
/// the occupied cells of the falling piece stay on the board. A piece that
/// was moved or rotated fits where it stands.
pub proof fn lemma_steps_keep_wf(s: BoardView, dx: int, dy: int, roll: u64)
    requires
        s.wf(),
    ensures
        s.moved(dx, dy).wf(),
        s.turned().wf(),
        s.spawned(roll).wf(),
        s.locked(roll).wf(),
        s.ticked(roll).wf(),
        s.moved(dx, dy) != s ==> s.moved(dx, dy).can_place(s.moved(dx, dy).x, s.moved(dx, dy).y),
        s.turned() != s ==> s.turned().can_place(s.x, s.y),
{
    lemma_rotated_pattern(s.piece);
    lemma_pattern_is_pattern(spawn_view(roll));
    lemma_cleared_is_grid(s.merged_grid());
}

/// The end of the game is final: a board whose topmost row holds an
/// occupied cell is left as it is by every move, rotation and gravity tick.
pub proof fn lemma_game_over_is_final(s: BoardView, dx: int, dy: int, roll: u64)
    requires
        s.game_over(),
    ensures
        s.moved(dx, dy) == s,
        s.turned() == s,
        s.ticked(roll) == s,
{
}

} // verus!
