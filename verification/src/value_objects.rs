//! The values the board is made of: positions, displacements and cells that
//! remember their slot in the bookkeeping lists.
use vstd::prelude::*;
use vstd::std_specs::convert::FromSpecImpl;
use vstd::string::StringExecFns;

use crate::data_transfer_objects as dto;
use crate::generator::Generator;
pub use crate::data_transfer_objects::{Direction, Path};

verus! {

/// The axis along which a direction moves.
#[derive(Copy, Clone, Debug, PartialEq, Eq, Structural)]
pub enum Plane {
    Horizontal,
    Vertical,
}

/// A board reference to a cell: row first, column second.
#[derive(PartialEq, Hash, Eq, Debug, Copy, Clone, Structural)]
pub struct Position(pub usize, pub usize);

/// A one-turn change in a `Position`: row delta first, column delta second.
#[derive(PartialEq, Eq, Debug, Copy, Clone, Structural)]
pub struct Velocity(pub isize, pub isize);

/// One grid slot. `Empty` and `Foods` carry the index at which their own
/// position is stored in the list of empty, respectively food, positions.
#[derive(Copy, Clone, Debug, PartialEq, Eq, Structural)]
pub enum Cell {
    Empty(usize),
    Foods(usize),
    Snake(Path),
}

impl Direction {
    /// The plane of each direction.
    pub open spec fn plane(self) -> Plane {
        match self {
            Direction::Right | Direction::Left => Plane::Horizontal,
            Direction::Up | Direction::Down => Plane::Vertical,
        }
    }

    /// The direction that points the other way.
    pub open spec fn reversed(self) -> Direction {
        match self {
            Direction::Right => Direction::Left,
            Direction::Up => Direction::Down,
            Direction::Left => Direction::Right,
            Direction::Down => Direction::Up,
        }
    }

    /// The row delta of one step: rows grow downwards.
    pub open spec fn row_delta(self) -> int {
        match self {
            Direction::Up => -1,
            Direction::Down => 1,
            _ => 0,
        }
    }

    /// The column delta of one step: columns grow to the right.
    pub open spec fn col_delta(self) -> int {
        match self {
            Direction::Left => -1,
            Direction::Right => 1,
            _ => 0,
        }
    }

    pub fn get_plane(&self) -> (plane: Plane)
        ensures
            plane == self.plane(),
    {
        match self {
            Direction::Right => Plane::Horizontal,
            Direction::Up => Plane::Vertical,
            Direction::Left => Plane::Horizontal,
            Direction::Down => Plane::Vertical,
        }
    }

    pub fn as_velocity(&self) -> (velocity: Velocity)
        ensures
            velocity.0 == self.row_delta(),
            velocity.1 == self.col_delta(),
    {
        match self {
            Direction::Right => Velocity(0, 1),
            Direction::Up => Velocity(-1, 0),
            Direction::Left => Velocity(0, -1),
            Direction::Down => Velocity(1, 0),
        }
    }

    pub fn opposite(&self) -> (direction: Direction)
        ensures
            direction == self.reversed(),
    {
        match self {
            Direction::Right => Direction::Left,
            Direction::Up => Direction::Down,
            Direction::Left => Direction::Right,
            Direction::Down => Direction::Up,
        }
    }
}

impl Direction {
    /// The direction that a number below four stands for.
    pub open spec fn numbered(number: u32) -> Direction {
        if number == 0 {
            Direction::Right
        } else if number == 1 {
            Direction::Up
        } else if number == 2 {
            Direction::Left
        } else {
            Direction::Down
        }
    }

    /// A uniformly drawn direction.
    pub fn sample(rng: &mut Generator) -> (direction: Direction)
        ensures
            direction == Direction::numbered(old(rng).next_small(4)),
            *final(rng) == old(rng).advanced_small(4),
    {
        match rng.gen_small(4) {
            0 => Direction::Right,
            1 => Direction::Up,
            2 => Direction::Left,
            _ => Direction::Down,
        }
    }
}

/// Reversing a direction twice gives it back; a direction and its reverse lie
/// in one plane, differ, and have negated displacements.
pub proof fn lemma_reversed(direction: Direction)
    ensures
        direction.reversed().reversed() == direction,
        direction.reversed() != direction,
        direction.reversed().plane() == direction.plane(),
        direction.reversed().row_delta() == -direction.row_delta(),
        direction.reversed().col_delta() == -direction.col_delta(),
{
}

impl Velocity {
    /// The magnitude of the velocity that a direction gives.
    pub const DEFAULT_MAGNITUDE: usize = 1;

    /// The velocity changes the row and not the column.
    pub open spec fn vertical(self) -> bool {
        self.0 != 0 && self.1 == 0
    }

    /// The velocity changes the position.
    pub open spec fn moving(self) -> bool {
        self.0 != 0 || self.1 != 0
    }

    pub fn is_vertical(&self) -> (vertical: bool)
        ensures
            vertical == self.vertical(),
    {
        self.0 != 0 && self.1 == 0
    }

    pub fn is_moving(&self) -> (moving: bool)
        ensures
            moving == self.moving(),
    {
        self.0 != 0 || self.1 != 0
    }

    pub fn from_direction(direction: &Direction) -> (velocity: Velocity)
        ensures
            velocity.0 == direction.row_delta(),
            velocity.1 == direction.col_delta(),
    {
        direction.as_velocity()
    }
}

impl Velocity {
    /// The velocity of one step in `direction`.
    pub open spec fn of(direction: Direction) -> Velocity {
        Velocity(direction.row_delta() as isize, direction.col_delta() as isize)
    }

    /// A heading in `direction` may follow this one: the snake stands
    /// still, or one of the two is vertical and the other is not.
    pub open spec fn admits(self, direction: Direction) -> bool {
        !self.moving() || Velocity::of(direction).vertical() != self.vertical()
    }
}

/// A new heading is admitted exactly when its plane differs from that of
/// the current heading: a reversal and a repetition are both turned down,
/// and each of the two turns across is accepted.
pub proof fn lemma_heading_policy(current: Direction, requested: Direction)
    ensures
        Velocity::of(current).admits(requested) <==> current.plane() != requested.plane(),
        !Velocity::of(current).admits(current.reversed()),
        Velocity(0, 0).admits(requested),
{
}

impl Default for Velocity {
    fn default() -> (velocity: Velocity)
        ensures
            velocity == Velocity(0, 0),
    {
        Velocity(0, 0)
    }
}

impl Cell {
    /// The cell without its list index.
    pub open spec fn dto(self) -> dto::Cell {
        match self {
            Cell::Empty(_) => dto::Cell::Empty,
            Cell::Foods(_) => dto::Cell::Foods,
            Cell::Snake(path) => dto::Cell::Snake(path),
        }
    }

    pub fn as_dto(&self) -> (cell: dto::Cell)
        ensures
            cell == self.dto(),
    {
        match self {
            Cell::Empty(_) => dto::Cell::Empty,
            Cell::Foods(_) => dto::Cell::Foods,
            Cell::Snake(path) => dto::Cell::Snake(*path),
        }
    }
}

impl Cell {
    /// The two characters a cell is drawn with: light shade for an empty
    /// cell, medium shade for food, a full block for a snake segment.
    pub open spec fn glyph(self) -> Seq<char> {
        match self {
            Cell::Empty(_) => "\u{2591}\u{2591}"@,
            Cell::Foods(_) => "\u{2592}\u{2592}"@,
            Cell::Snake(_) => "\u{2588}\u{2588}"@,
        }
    }

    pub fn to_string(&self) -> (text: String)
        ensures
            text@ == self.glyph(),
    {
        match self {
            Cell::Empty(_) => String::from_str("\u{2591}\u{2591}"),
            Cell::Foods(_) => String::from_str("\u{2592}\u{2592}"),
            Cell::Snake(_) => String::from_str("\u{2588}\u{2588}"),
        }
    }
}

impl From<Cell> for dto::Cell {
    fn from(cell: Cell) -> (result: dto::Cell) {
        cell.as_dto()
    }
}

impl FromSpecImpl<Cell> for dto::Cell {
    open spec fn obeys_from_spec() -> bool {
        true
    }

    open spec fn from_spec(cell: Cell) -> dto::Cell {
        cell.dto()
    }
}

impl From<Position> for dto::Position {
    fn from(position: Position) -> (result: dto::Position) {
        (position.0, position.1)
    }
}

impl FromSpecImpl<Position> for dto::Position {
    open spec fn obeys_from_spec() -> bool {
        true
    }

    open spec fn from_spec(position: Position) -> dto::Position {
        (position.0, position.1)
    }
}

} // verus!
