//! One game: a board, the time gathered towards the next gravity tick, and
//! the inputs of the player. Time is counted in the same way whether the
//! game runs or is over; a board whose game is over is left as it is by
//! every input and every gravity tick, and has nothing to draw.

use vstd::prelude::*;

verus! {

use crate::board::{spawn_view, Board, BoardView};
use crate::grid::{covers, empty_rows, in_bounds, HEIGHT, WIDTH};
use crate::piece::{pattern_view, BOX};

/// Time between two gravity ticks, in nanoseconds.
pub const DROP_INTERVAL: u64 = 500_000_000;

/// What the player can ask for.
#[derive(Clone, Copy, Debug, PartialEq, Eq, Structural)]
pub enum Input {
    MoveLeft,
    MoveRight,
    SoftDrop,
    Rotate,
}

/// Whether a square belongs to the locked cells or to the falling piece.
#[derive(Clone, Copy, Debug, PartialEq, Eq, Structural)]
pub enum SquareKind {
    Locked,
    Falling,
}

/// One square to draw: the board cell `(x, y)` and what occupies it.
#[derive(Clone, Copy, Debug, PartialEq, Eq, Structural)]
pub struct Square {
    pub x: i32,
    pub y: i32,
    pub kind: SquareKind,
}

/// The state of one game.
#[derive(Clone, Copy, Debug)]
pub struct TetrisApp {
    board: Board,
    timer: u64,
    game_over: bool,
}

/// The mathematical value of a game.
pub struct TetrisAppView {
    pub board: BoardView,
    /// Nanoseconds gathered since the last gravity tick.
    pub timer: nat,
}

/// The `k`-th cell of the board, counted column by column from the left and
/// within a column from the top, as a square of locked cells.
pub open spec fn board_square(k: int) -> Square {
    Square {
        x: (k / (HEIGHT as int)) as i32,
        y: (k % (HEIGHT as int)) as i32,
        kind: SquareKind::Locked,
    }
}

/// All cells of the board in drawing order.
pub open spec fn board_squares() -> Seq<Square> {
    Seq::new((WIDTH * HEIGHT) as nat, |k: int| board_square(k))
}

/// The squares whose cell is occupied in `grid`.
pub open spec fn occupied_in(grid: Seq<Seq<bool>>) -> spec_fn(Square) -> bool {
    |s: Square| grid[s.y as int][s.x as int]
}

/// The locked cells to draw, in drawing order.
pub open spec fn locked_squares(grid: Seq<Seq<bool>>) -> Seq<Square> {
    board_squares().filter(occupied_in(grid))
}

/// The `k`-th cell of the piece's box at `(x, y)`, counted column by column
/// from the left and within a column from the top, as a square of the
/// falling piece.
pub open spec fn box_square(k: int, x: int, y: int) -> Square {
    Square {
        x: (x + k / (BOX as int)) as i32,
        y: (y + k % (BOX as int)) as i32,
        kind: SquareKind::Falling,
    }
}

/// All cells of the piece's box at `(x, y)` in drawing order.
pub open spec fn box_squares(x: int, y: int) -> Seq<Square> {
    Seq::new((BOX * BOX) as nat, |k: int| box_square(k, x, y))
}

/// The squares that an occupied cell of the pattern at `(x, y)` lies on.
pub open spec fn covered_by(pattern: Seq<Seq<u8>>, x: int, y: int) -> spec_fn(Square) -> bool {
    |s: Square| covers(pattern, x, y, s.x as int, s.y as int)
}

/// The cells of the falling piece to draw, in drawing order.
pub open spec fn falling_squares(pattern: Seq<Seq<u8>>, x: int, y: int) -> Seq<Square> {
    box_squares(x, y).filter(covered_by(pattern, x, y))
}

impl TetrisAppView {
    /// No more time is kept than one drop interval.
    pub open spec fn wf(self) -> bool {
        &&& self.board.wf()
        &&& self.timer <= DROP_INTERVAL
    }

    /// Whether the game is over.
    pub open spec fn game_over(self) -> bool {
        self.board.game_over()
    }

    /// The game after an input of the player.
    pub open spec fn pressed(self, input: Input) -> TetrisAppView {
        let board = match input {
            Input::MoveLeft => self.board.moved(-1, 0),
            Input::MoveRight => self.board.moved(1, 0),
            Input::SoftDrop => self.board.moved(0, 1),
            Input::Rotate => self.board.turned(),
        };
        TetrisAppView { board, timer: self.timer }
    }

    /// The game after `elapsed` more nanoseconds. Until more time than one
    /// drop interval has been gathered, the time is added to the count and
    /// the board stays as it is; once it has, gravity ticks and the count
    /// starts again from zero. The count does not look at the state of the
    /// game: on a board whose game is over the tick changes nothing.
    pub open spec fn advanced(self, elapsed: u64, roll: u64) -> TetrisAppView {
        if self.timer + elapsed > DROP_INTERVAL {
            TetrisAppView { board: self.board.ticked(roll), timer: 0 }
        } else {
            TetrisAppView { board: self.board, timer: self.timer + elapsed as nat }
        }
    }

    /// The squares to draw, in drawing order: the locked cells, then the
    /// cells of the falling piece on top of them. A game that is over draws
    /// nothing.
    pub open spec fn frame(self) -> Seq<Square> {
        if self.game_over() {
            Seq::empty()
        } else {
            locked_squares(self.board.grid) + falling_squares(
                self.board.piece.pattern(),
                self.board.x,
                self.board.y,
            )
        }
    }
}

impl View for TetrisApp {
    type V = TetrisAppView;

    closed spec fn view(&self) -> TetrisAppView {
        TetrisAppView { board: self.board@, timer: self.timer as nat }
    }
}

impl TetrisApp {
    #[verifier::type_invariant]
    closed spec fn inv(self) -> bool {
        &&& self@.wf()
        &&& self.game_over == self@.game_over()
    }

    /// A new game: an empty board, the piece that `roll` selects at the
    /// spawn position, and no time gathered.
    pub fn new(roll: u64) -> (app: TetrisApp)
        ensures
            app@.board == (BoardView {
                grid: empty_rows(HEIGHT as nat),
                piece: spawn_view(roll),
                x: 0,
                y: 0,
            }),
            app@.timer == 0,
            !app@.game_over(),
            app@.wf(),
    {
        let board = Board::new(roll);
        let game_over = board.is_game_over();
        TetrisApp { board, timer: 0, game_over }
    }

    /// The board of the game.
    pub fn board(&self) -> (board: &Board)
        ensures
            board@ == self@.board,
    {
        &self.board
    }

    /// Nanoseconds gathered since the last gravity tick.
    pub fn timer(&self) -> (timer: u64)
        ensures
            timer == self@.timer,
            timer <= DROP_INTERVAL,
    {
        proof {
            use_type_invariant(self);
        }
        self.timer
    }

    /// Whether the game is over.
    pub fn is_game_over(&self) -> (over: bool)
        ensures
            over == self@.game_over(),
    {
        proof {
            use_type_invariant(self);
        }
        self.game_over
    }

    /// Applies an input of the player: a step to the left or to the right,
    /// a step down, or a rotation. An input that the board rejects, and any
    /// input to a game that is over, changes nothing.
    pub fn keypress(&mut self, input: Input)
        ensures
            final(self)@ == old(self)@.pressed(input),
            final(self)@.wf(),
    {
        proof {
            use_type_invariant(&*self);
        }
        let mut board = self.board;
        match input {
            Input::MoveLeft => {
                board.attempt_move(-1, 0);
            },
            Input::MoveRight => {
                board.attempt_move(1, 0);
            },
            Input::SoftDrop => {
                board.attempt_move(0, 1);
            },
            Input::Rotate => {
                board.attempt_rotate();
            },
        }
        self.board = board;
    }

    /// Lets `elapsed` nanoseconds pass. Until more than one drop interval
    /// has been gathered, the time is added to the count and nothing else
    /// changes. Once it has, gravity ticks, with `roll` selecting the next
    /// piece if the falling one locks, and the count starts again from zero.
    /// The time is counted on a game that is over too; its board stays as
    /// it is.
    pub fn update(&mut self, elapsed: u64, roll: u64)
        ensures
            final(self)@ == old(self)@.advanced(elapsed, roll),
            old(self)@.timer + elapsed <= DROP_INTERVAL ==> final(self)@.timer == old(self)@.timer
                + elapsed && final(self)@.board == old(self)@.board,
            old(self)@.timer + elapsed > DROP_INTERVAL ==> final(self)@.timer == 0
                && final(self)@.board == old(self)@.board.ticked(roll),
            old(self)@.game_over() ==> final(self)@.board == old(self)@.board,
            final(self)@.wf(),
    {
        proof {
            use_type_invariant(&*self);
        }
        if elapsed > DROP_INTERVAL - self.timer {
            let mut board = self.board;
            let result = board.tick_gravity(roll);
            *self = TetrisApp { board, timer: 0, game_over: result.game_over };
        } else {
            self.timer = self.timer + elapsed;
        }
    }

    /// The squares to draw for the current state, in drawing order.
    pub fn render(&self) -> (squares: Vec<Square>)
        ensures
            squares@ == self@.frame(),
    {
        proof {
            use_type_invariant(self);
        }
        let mut squares: Vec<Square> = Vec::new();
        if self.game_over {
            return squares;
        }
        let grid = self.board.grid();
        let ghost cells = board_squares();
        let ghost occupied = occupied_in(grid@);
        proof {
            assert(cells.take(0) =~= Seq::<Square>::empty());
            cells.take(0).lemma_filter_len(occupied);
        }
        let mut x: usize = 0;
        while x < WIDTH
            invariant
                x <= WIDTH,
                cells == board_squares(),
                occupied == occupied_in(grid@),
                squares@ == cells.take(x * HEIGHT).filter(occupied),
            decreases WIDTH - x,
        {
            let mut y: usize = 0;
            while y < HEIGHT
                invariant
                    x < WIDTH,
                    y <= HEIGHT,
                    cells == board_squares(),
                    occupied == occupied_in(grid@),
                    squares@ == cells.take(x * HEIGHT + y).filter(occupied),
                decreases HEIGHT - y,
            {
                let square = Square { x: x as i32, y: y as i32, kind: SquareKind::Locked };
                proof {
                    let k = x * HEIGHT + y;
                    assert(k / (HEIGHT as int) == x && k % (HEIGHT as int) == y);
                    assert(cells[k] == square);
                    assert(cells.take(k + 1) =~= cells.take(k).push(square));
                    cells.take(k).lemma_filter_push(square, occupied);
                }
                if grid.get(x, y) {
                    squares.push(square);
                }
                y += 1;
            }
            x += 1;
        }
        let pattern = self.board.piece().occupancy();
        let (px, py) = self.board.position();
        let ghost locked = squares@;
        let ghost pat = pattern_view(pattern);
        let ghost cells = box_squares(px as int, py as int);
        let ghost covered = covered_by(pat, px as int, py as int);
        proof {
            assert(board_squares().take(WIDTH * HEIGHT) =~= board_squares());
            assert(locked == locked_squares(self@.board.grid));
            assert(cells.take(0) =~= Seq::<Square>::empty());
            cells.take(0).lemma_filter_len(covered);
            assert(squares@ =~= locked + cells.take(0).filter(covered));
        }
        let mut dx: usize = 0;
        while dx < BOX
            invariant
                dx <= BOX,
                in_bounds(px + 2, py + 2),
                pat == pattern_view(pattern),
                cells == box_squares(px as int, py as int),
                covered == covered_by(pat, px as int, py as int),
                squares@ == locked + cells.take(dx * BOX).filter(covered),
            decreases BOX - dx,
        {
            let mut dy: usize = 0;
            while dy < BOX
                invariant
                    dx < BOX,
                    dy <= BOX,
                    in_bounds(px + 2, py + 2),
                    pat == pattern_view(pattern),
                    cells == box_squares(px as int, py as int),
                    covered == covered_by(pat, px as int, py as int),
                    squares@ == locked + cells.take(dx * BOX + dy).filter(covered),
                decreases BOX - dy,
            {
                let square = Square {
                    x: px + dx as i32,
                    y: py + dy as i32,
                    kind: SquareKind::Falling,
                };
                proof {
                    let k = dx * BOX + dy;
                    assert(k / (BOX as int) == dx && k % (BOX as int) == dy);
                    assert(cells[k] == square);
                    assert(cells.take(k + 1) =~= cells.take(k).push(square));
                    cells.take(k).lemma_filter_push(square, covered);
                    assert(covered(square) == (pat[dx as int][dy as int] != 0));
                }
                if pattern[dx][dy] > 0 {
                    squares.push(square);
                    assert(squares@ =~= locked + cells.take(dx * BOX + dy).filter(covered).push(
                        square,
                    ));
                }
                dy += 1;
            }
            dx += 1;
        }
        proof {
            assert(cells.take((BOX * BOX) as int) =~= cells);
        }
        squares
    }
}

} // verus!
