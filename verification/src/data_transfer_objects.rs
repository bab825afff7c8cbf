//! Plain values exchanged with the input source and the observer of a game:
//! they carry no back-reference into the bookkeeping lists of the board.
use vstd::prelude::*;

verus! {

/// A `(row, column)` pair as collaborators see it.
pub type Position = (usize, usize);

/// A compass direction on the board.
#[derive(Copy, Clone, Debug, PartialEq, Eq, Structural)]
pub enum Direction {
    Right,
    Up,
    Left,
    Down,
}

/// The outcome of a turn: the game goes on, or it has ended, won or lost.
#[derive(Copy, Clone, Debug, PartialEq, Eq, Structural)]
pub enum Status {
    Ongoing,
    Over { is_won: bool },
}

/// The links of one snake segment: `entry` points to the neighbour nearer to
/// the tail, `exit` to the neighbour nearer to the head.
#[derive(Copy, Clone, Debug, PartialEq, Eq, Structural)]
pub struct Path {
    pub entry: Option<Direction>,
    pub exit: Option<Direction>,
}

/// What occupies one grid slot, without list indices.
#[derive(Copy, Clone, Debug, PartialEq, Eq, Structural)]
pub enum Cell {
    Empty,
    Foods,
    Snake(Path),
}

} // verus!
