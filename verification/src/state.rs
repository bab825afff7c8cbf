//! The board together with its bookkeeping lists, the snake body and the
//! generator, and the elementary changes a turn is made of.
use std::collections::VecDeque;
use vstd::prelude::*;

use crate::board::Board;
use crate::grid::{first_head, listed, trail};
use crate::data_transfer_objects::Status;
use crate::generator::Generator;
use crate::model::Model;
use crate::validity::lemma_linked_simple;
use crate::value_objects::{Cell, Direction, Path, Position};

verus! {

/// Food could not be placed: the board has no empty position left.
#[derive(Debug)]
pub struct MaxFoods;

/// The state of a game: the board, the positions of its empty and of its
/// food cells in the order of the indices the cells carry, the snake body
/// from head to tail, and the generator that places the food.
#[derive(Debug, Clone, PartialEq)]
pub struct State<const N_ROWS: usize, const N_COLS: usize> {
    pub board: Board<N_ROWS, N_COLS>,
    pub empty: Vec<Position>,
    pub foods: Vec<Position>,
    pub snake: VecDeque<Position>,
    pub rng: Generator,
}

impl<const N_ROWS: usize, const N_COLS: usize> View for State<N_ROWS, N_COLS> {
    type V = Model;

    open spec fn view(&self) -> Model {
        Model {
            rows: N_ROWS as int,
            cols: N_COLS as int,
            cells: self.board@,
            empty: self.empty@,
            foods: self.foods@,
            snake: self.snake@,
            rng: self.rng,
        }
    }
}

impl<const N_ROWS: usize, const N_COLS: usize> State<N_ROWS, N_COLS> {
    /// The state that a raw board describes: both lists and the body are
    /// read off the cells. Whether the result is valid is not checked.
    pub fn new(board: Board<N_ROWS, N_COLS>, rng: Generator) -> (state: State<N_ROWS, N_COLS>)
        requires
            board.walkable(),
        ensures
            state.board == board,
            state.rng == rng,
            state.empty@ == listed(board@, N_ROWS as int, N_COLS as int, false),
            state.foods@ == listed(board@, N_ROWS as int, N_COLS as int, true),
            state.snake@ == trail(
                board@,
                first_head(board@)->0,
                N_ROWS as int,
                N_COLS as int,
                Board::<N_ROWS, N_COLS>::reach(),
            ),
    {
        let empty = board.get_empty();
        let foods = board.get_foods();
        let snake = board.get_snake();
        State { board, empty, foods, snake, rng }
    }

    /// Won if nothing is left to move onto or to eat.
    pub fn check_is_won_status(&self) -> (status: Status)
        ensures
            status == self@.won_status(),
    {
        if self.empty.is_empty() && self.foods.is_empty() {
            Status::Over { is_won: true }
        } else {
            Status::Ongoing
        }
    }

    /// The position of the head.
    pub fn get_last_head(&self) -> (head: &Position)
        requires
            self.snake@.len() > 0,
        ensures
            *head == self@.head(),
    {
        &self.snake[0]
    }

    /// Where the head lands when it moves in `direction`.
    pub fn get_next_head(&self, direction: &Direction) -> (next: Position)
        requires
            self@.has_head(),
        ensures
            next == self@.next_head(*direction),
            self@.in_bounds(next),
    {
        let head = self.get_last_head();
        self.board.move_in(head, direction)
    }

    /// The tail leaves the body and becomes the last empty position; gives
    /// back where it was.
    pub fn remove_last_tail(&mut self) -> (tail: Position)
        requires
            old(self)@.has_tail(),
        ensures
            tail == old(self)@.tail(),
            final(self)@ == old(self)@.remove_last_tail(),
    {
        let tail = self.snake.pop_back().unwrap();
        let index = self.empty.len();
        self.board.put(&tail, Cell::Empty(index));
        self.empty.push(tail);
        assert(self@ =~= old(self)@.remove_last_tail());
        tail
    }

    /// The position of the last segment.
    pub fn get_next_tail(&self) -> (tail: &Position)
        requires
            self.snake@.len() > 0,
        ensures
            *tail == self@.tail(),
    {
        &self.snake[self.snake.len() - 1]
    }

    /// Takes the `entry` link from segment `index` of the body and gives
    /// back what the cell held and holds.
    pub fn cut_behind(&mut self, index: usize) -> (change: (Position, Cell, Cell))
        requires
            old(self)@.has_segment(index as int),
        ensures
            change.0 == old(self)@.snake[index as int],
            change.1 == old(self)@.cells[change.0],
            change.2 == final(self)@.cells[change.0],
            final(self)@ == old(self)@.cut_behind(index as int),
    {
        let segment = self.snake[index];
        let before = self.board.at(&segment);
        let after = match before {
            Cell::Snake(path) => Cell::Snake(Path { entry: None, exit: path.exit }),
            _ => before,
        };
        self.board.put(&segment, after);
        assert(self@ =~= old(self)@.cut_behind(index as int));
        (segment, before, after)
    }

    /// Takes the `entry` link from the last segment and gives back what the
    /// cell held and holds.
    pub fn update_next_tail(&mut self) -> (change: (Position, Cell, Cell))
        requires
            old(self)@.has_next_tail(),
        ensures
            change.0 == old(self)@.tail(),
            change.1 == old(self)@.cells[change.0],
            change.2 == final(self)@.cells[change.0],
            final(self)@ == old(self)@.update_next_tail(),
    {
        self.cut_behind(self.snake.len() - 1)
    }

    /// Gives the head an `exit` link and gives back what the cell held and
    /// holds.
    pub fn update_last_head(&mut self, direction: &Direction) -> (change: (Position, Cell, Cell))
        requires
            old(self)@.has_open_head(),
        ensures
            change.0 == old(self)@.head(),
            change.1 == old(self)@.cells[change.0],
            change.2 == final(self)@.cells[change.0],
            final(self)@ == old(self)@.update_last_head(*direction),
    {
        let last_head = *self.get_last_head();
        let before = self.board.at(&last_head);
        let after = match before {
            Cell::Snake(Path { entry, exit: _ }) => Cell::Snake(
                Path { entry, exit: Some(*direction) },
            ),
            _ => before,
        };
        self.board.put(&last_head, after);
        assert(self@ =~= old(self)@.update_last_head(*direction));
        (last_head, before, after)
    }
}

impl<const N_ROWS: usize, const N_COLS: usize> State<N_ROWS, N_COLS> {
    /// Takes `next_head` out of the list of empty positions, where it has
    /// index `empty_index`: the last listed position takes its slot and is
    /// told its new index.
    pub fn remove_empty(&mut self, next_head: &Position, empty_index: usize)
        requires
            old(self)@.removable(old(self).empty@, *next_head, empty_index as int),
        ensures
            final(self)@ == old(self)@.remove_empty(empty_index as int),
    {
        self.empty.swap_remove(empty_index);
        if empty_index < self.empty.len() {
            let position = self.empty[empty_index];
            self.board.put(&position, Cell::Empty(empty_index));
        }
        assert(self@ =~= old(self)@.remove_empty(empty_index as int));
    }

    /// Takes `next_head` out of the list of food positions, where it has
    /// index `foods_index`: the last listed position takes its slot and is
    /// told its new index.
    pub fn remove_foods(&mut self, next_head: &Position, foods_index: usize)
        requires
            old(self)@.removable(old(self).foods@, *next_head, foods_index as int),
        ensures
            final(self)@ == old(self)@.remove_foods(foods_index as int),
    {
        self.foods.swap_remove(foods_index);
        if foods_index < self.foods.len() {
            let position = self.foods[foods_index];
            self.board.put(&position, Cell::Foods(foods_index));
        }
        assert(self@ =~= old(self)@.remove_foods(foods_index as int));
    }

    /// Makes `head` the head, linked back by `entry`, without touching the
    /// lists, and gives back what the cell held and holds.
    pub fn push_snake(&mut self, head: Position, entry: Option<Direction>) -> (change: (
        Position,
        Cell,
        Cell,
    ))
        requires
            old(self)@.in_bounds(head),
        ensures
            change.0 == head,
            change.1 == old(self)@.cells[head],
            change.2 == Cell::Snake(Path { entry, exit: None }),
            final(self)@ == old(self)@.push_snake(head, entry),
    {
        let before = self.board.at(&head);
        let after = Cell::Snake(Path { entry, exit: None });
        self.board.put(&head, after);
        self.snake.push_front(head);
        assert(self@ =~= old(self)@.push_snake(head, entry));
        (head, before, after)
    }

    /// Takes `next_head` out of the list that its cell names and makes it
    /// the head, linked back by `entry`; gives back what the cell held and
    /// holds.
    pub fn insert_snake_head(&mut self, next_head: Position, entry: Option<Direction>) -> (change:
        (Position, Cell, Cell))
        requires
            old(self)@.enterable(next_head),
        ensures
            change.0 == next_head,
            change.1 == old(self)@.cells[next_head],
            change.2 == Cell::Snake(Path { entry, exit: None }),
            final(self)@ == old(self)@.insert_snake_head(next_head, entry),
    {
        let before = self.board.at(&next_head);
        match before {
            Cell::Empty(empty_index) => self.remove_empty(&next_head, empty_index),
            Cell::Foods(foods_index) => self.remove_foods(&next_head, foods_index),
            Cell::Snake(_) => {},
        }
        let change = self.push_snake(next_head, entry);
        (next_head, before, change.2)
    }

    /// Turns the empty position that the generator picks into the last food
    /// and gives back that position; fails, and changes nothing, where no
    /// position is empty.
    pub fn insert_food(&mut self) -> (placed: Result<Position, MaxFoods>)
        requires
            old(self)@.empty_on_board(),
        ensures
            final(self)@ == old(self)@.insert_food(),
            placed is Err <==> old(self).empty@.len() == 0,
            placed matches Ok(position) ==> position == old(self).empty@[old(self).rng.next_index(
                old(self).empty@.len() as usize,
            ) as int],
    {
        if self.empty.is_empty() {
            Err(MaxFoods)
        } else {
            let empty_index = self.rng.gen_range(self.empty.len());
            proof {
                let before = old(self)@;
                assert(before.in_bounds(before.empty[empty_index as int]));
                assert(before.in_bounds(before.empty[before.empty.len() - 1]));
            }
            let position = self.empty.swap_remove(empty_index);
            if empty_index < self.empty.len() {
                let position = self.empty[empty_index];
                self.board.put(&position, Cell::Empty(empty_index));
            }
            let foods_index = self.foods.len();
            self.board.put(&position, Cell::Foods(foods_index));
            self.foods.push(position);
            assert(self@ =~= old(self)@.insert_food());
            Ok(position)
        }
    }
}

impl<const N_ROWS: usize, const N_COLS: usize> State<N_ROWS, N_COLS> {
    fn on_board(position: &Position) -> (on: bool)
        ensures
            on == Board::<N_ROWS, N_COLS>::in_bounds(*position),
    {
        position.0 < N_ROWS && position.1 < N_COLS
    }

    /// Whether every listed empty position lies on the board and holds
    /// `Empty` with its own index.
    pub fn is_empty_valid(&self) -> (valid: bool)
        ensures
            valid == self@.empty_indexed(),
    {
        let mut i: usize = 0;
        while i < self.empty.len()
            invariant
                i <= self.empty.len(),
                forall|k: int|
                    0 <= k < i ==> self@.in_bounds(#[trigger] self@.empty[k])
                        && self@.cells[self@.empty[k]] == Cell::Empty(k as usize),
            decreases self.empty.len() - i,
        {
            let position = self.empty[i];
            let found = Self::on_board(&position) && match self.board.at(&position) {
                Cell::Empty(j) => i == j,
                _ => false,
            };
            if !found {
                assert(!(self@.in_bounds(self@.empty[i as int])
                    && self@.cells[self@.empty[i as int]] == Cell::Empty(i)));
                return false;
            }
            i += 1;
        }
        true
    }

    /// Whether every listed food position lies on the board and holds
    /// `Foods` with its own index.
    pub fn is_foods_valid(&self) -> (valid: bool)
        ensures
            valid == self@.foods_indexed(),
    {
        let mut i: usize = 0;
        while i < self.foods.len()
            invariant
                i <= self.foods.len(),
                forall|k: int|
                    0 <= k < i ==> self@.in_bounds(#[trigger] self@.foods[k])
                        && self@.cells[self@.foods[k]] == Cell::Foods(k as usize),
            decreases self.foods.len() - i,
        {
            let position = self.foods[i];
            let found = Self::on_board(&position) && match self.board.at(&position) {
                Cell::Foods(j) => i == j,
                _ => false,
            };
            if !found {
                assert(!(self@.in_bounds(self@.foods[i as int])
                    && self@.cells[self@.foods[i as int]] == Cell::Foods(i)));
                return false;
            }
            i += 1;
        }
        true
    }

    /// Whether every body position lies on the board and holds a snake
    /// cell.
    pub fn is_snake_valid(&self) -> (valid: bool)
        ensures
            valid == self@.body_on_snake(),
    {
        let mut i: usize = 0;
        while i < self.snake.len()
            invariant
                i <= self.snake.len(),
                forall|k: int|
                    0 <= k < i ==> self@.in_bounds(#[trigger] self@.snake[k])
                        && self@.cells[self@.snake[k]] is Snake,
            decreases self.snake.len() - i,
        {
            let position = self.snake[i];
            let found = Self::on_board(&position) && match self.board.at(&position) {
                Cell::Snake(_) => true,
                _ => false,
            };
            if !found {
                assert(!(self@.in_bounds(self@.snake[i as int])
                    && self@.cells[self@.snake[i as int]] is Snake));
                return false;
            }
            i += 1;
        }
        true
    }

    /// Whether the body is one chain of linked segments from head to tail.
    pub fn is_snake_linked(&self) -> (valid: bool)
        ensures
            valid == self@.linked(),
    {
        let n = self.snake.len();
        if n == 0 {
            return false;
        }
        let mut i: usize = 0;
        while i < n
            invariant
                i <= n,
                n == self.snake@.len(),
                forall|k: int| 0 <= k < i ==> #[trigger] self@.segment_linked(k),
            decreases n - i,
        {
            let here = self.snake[i];
            if !Self::on_board(&here) {
                assert(!self@.segment_linked(i as int));
                return false;
            }
            let linked = match self.board.at(&here) {
                Cell::Snake(path) => {
                    let entry = match path.entry {
                        Some(direction) => i + 1 < n && self.board.move_in(&here, &direction)
                            == self.snake[i + 1],
                        None => i + 1 == n,
                    };
                    let exit = match path.exit {
                        Some(direction) => i > 0 && self.board.move_in(&here, &direction)
                            == self.snake[i - 1],
                        None => i == 0,
                    };
                    entry && exit
                },
                _ => false,
            };
            if !linked {
                assert(!self@.segment_linked(i as int));
                return false;
            }
            assert(self@.segment_linked(i as int));
            i += 1;
        }
        true
    }

    fn in_snake(&self, position: &Position) -> (found: bool)
        ensures
            found == self.snake@.contains(*position),
    {
        let mut i: usize = 0;
        while i < self.snake.len()
            invariant
                i <= self.snake.len(),
                forall|k: int| 0 <= k < i ==> self.snake@[k] != *position,
            decreases self.snake.len() - i,
        {
            if self.snake[i] == *position {
                return true;
            }
            i += 1;
        }
        false
    }

    /// Whether every cell of the board is accounted for: by the list and
    /// index it names, or by the body.
    pub fn is_board_valid(&self) -> (valid: bool)
        ensures
            valid == self@.covered(),
    {
        let mut i: usize = 0;
        while i < N_ROWS
            invariant
                i <= N_ROWS,
                forall|q: Position| self@.in_bounds(q) && q.0 < i ==> #[trigger] self@.accounted(q),
            decreases N_ROWS - i,
        {
            let mut j: usize = 0;
            while j < N_COLS
                invariant
                    i < N_ROWS,
                    j <= N_COLS,
                    forall|q: Position|
                        self@.in_bounds(q) && (q.0 < i || (q.0 == i && q.1 < j))
                            ==> #[trigger] self@.accounted(q),
                decreases N_COLS - j,
            {
                let position = Position(i, j);
                let accounted = match self.board.at(&position) {
                    Cell::Empty(k) => k < self.empty.len() && self.empty[k] == position,
                    Cell::Foods(k) => k < self.foods.len() && self.foods[k] == position,
                    Cell::Snake(_) => self.in_snake(&position),
                };
                if !accounted {
                    assert(!self@.accounted(position));
                    assert(self@.in_bounds(position));
                    return false;
                }
                j += 1;
            }
            i += 1;
        }
        assert forall|p: Position| self@.in_bounds(p) implies match #[trigger] self@.cells[p] {
            Cell::Empty(i) => i < self@.empty.len() && self@.empty[i as int] == p,
            Cell::Foods(i) => i < self@.foods.len() && self@.foods[i as int] == p,
            Cell::Snake(_) => self@.snake.contains(p),
        } by {
            assert(self@.accounted(p));
        }
        true
    }

    /// Whether the lists and the body together hold as many positions as
    /// the board has cells, and a `usize` can count them.
    pub fn is_partition(&self) -> (valid: bool)
        ensures
            valid == (N_ROWS * N_COLS <= usize::MAX && self@.partitioned()),
    {
        match N_ROWS.checked_mul(N_COLS) {
            None => false,
            Some(area) => match self.empty.len().checked_add(self.foods.len()) {
                None => false,
                Some(listed) => match listed.checked_add(self.snake.len()) {
                    None => false,
                    Some(held) => held == area,
                },
            },
        }
    }

    /// Whether the state is valid: the back-references of both lists
    /// hold, the body is one linked chain, every cell is accounted for, and
    /// the lists and the body partition the board.
    pub fn is_valid(&self) -> (valid: bool)
        ensures
            valid == self@.wf(),
    {
        if N_ROWS == 0 || N_COLS == 0 {
            return false;
        }
        let valid = self.is_partition() && self.is_empty_valid() && self.is_foods_valid()
            && self.is_snake_linked() && self.is_board_valid();
        proof {
            assert(forall|p: Position| self@.cells.dom().contains(p) <==> self@.in_bounds(p));
            if valid {
                lemma_linked_simple(self@);
            }
        }
        valid
    }
}

} // verus!
