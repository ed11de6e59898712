//! The rules of a falling-block puzzle: pieces, the board they fall on,
//! line clearing and the end of the game.
//!
//! All coordinates are `(x, y)` pairs: `x` counts columns from the left and
//! `y` counts rows from the top, both for the board and inside the 5x5 box
//! of a piece. Every random choice is made by the caller and handed in as a
//! roll, so each state follows from the one before and the values given.

pub mod board;
pub mod game;
pub mod grid;
pub mod piece;

pub use board::{Board, LockResult};
pub use game::{Input, Square, SquareKind, TetrisApp, DROP_INTERVAL};
pub use grid::{Grid, HEIGHT, WIDTH};
pub use piece::{rotate_pattern, Pattern, Piece, Shape};
