//! The mathematical model of a game: the cells, the two bookkeeping lists, the
//! snake body and the generator, with the rules of a turn as functions on
//! them.
use vstd::prelude::*;

use crate::grid::{center, listed, numbered, shifted, within};
use crate::data_transfer_objects as dto;
use crate::data_transfer_objects::Status;
use crate::generator::Generator;
use crate::value_objects::{Cell, Direction, Path, Position};

verus! {

/// One report to the observer: a position, what it held, what it holds now.
pub type Swap = (dto::Position, dto::Cell, dto::Cell);

/// The state of a game as plain mathematical values.
#[verifier::ext_equal]
pub struct Model {
    pub rows: int,
    pub cols: int,
    pub cells: Map<Position, Cell>,
    /// The positions of the `Empty` cells: `empty[i]` holds `Empty(i)`.
    pub empty: Seq<Position>,
    /// The positions of the `Foods` cells: `foods[i]` holds `Foods(i)`.
    pub foods: Seq<Position>,
    /// The snake body, head first.
    pub snake: Seq<Position>,
    pub rng: Generator,
}

/// A list after the swap-remove of index `i`: the last element takes the
/// place of the removed one.
pub open spec fn swap_removed(list: Seq<Position>, i: int) -> Seq<Position> {
    list.update(i, list.last()).drop_last()
}

/// The report of the change at `p` between two states.
pub open spec fn swap_at(before: Model, after: Model, p: Position) -> Swap {
    ((p.0, p.1), before.cells[p].dto(), after.cells[p].dto())
}

/// The report of a food placed on the empty position `p`.
pub open spec fn food_swap(p: Position) -> Swap {
    ((p.0, p.1), dto::Cell::Empty, dto::Cell::Foods)
}

impl Model {
    pub open spec fn in_bounds(self, p: Position) -> bool {
        within(p, self.rows, self.cols)
    }

    pub open spec fn moved(self, p: Position, d: Direction) -> Position {
        shifted(p, d, self.rows, self.cols)
    }

    /// The links of the segment at `p`; no links where `p` holds no segment.
    pub open spec fn path_at(self, p: Position) -> Path {
        match self.cells[p] {
            Cell::Snake(path) => path,
            _ => Path { entry: None, exit: None },
        }
    }

    pub open spec fn head(self) -> Position {
        self.snake[0]
    }

    pub open spec fn tail(self) -> Position {
        self.snake.last()
    }

    /// Where the head lands when it moves in direction `d`.
    pub open spec fn next_head(self, d: Direction) -> Position {
        self.moved(self.head(), d)
    }

    /// There is a head, and it lies on the grid.
    pub open spec fn has_head(self) -> bool {
        self.snake.len() > 0 && self.in_bounds(self.head())
    }

    /// The tail can leave: it lies on the grid and holds a segment without
    /// an `entry` link.
    pub open spec fn has_tail(self) -> bool {
        &&& self.snake.len() > 0
        &&& self.in_bounds(self.tail())
        &&& self.cells[self.tail()] matches Cell::Snake(path)
        &&& path.entry is None
    }

    /// Segment `i` of the body lies on the grid and holds a snake cell.
    pub open spec fn has_segment(self, i: int) -> bool {
        &&& 0 <= i < self.snake.len()
        &&& self.in_bounds(self.snake[i])
        &&& self.cells[self.snake[i]] is Snake
    }

    /// The last segment lies on the grid and holds a snake cell.
    pub open spec fn has_next_tail(self) -> bool {
        self.has_segment(self.snake.len() - 1)
    }

    /// The head lies on the grid and holds a segment without an `exit`
    /// link.
    pub open spec fn has_open_head(self) -> bool {
        &&& self.has_head()
        &&& self.cells[self.head()] matches Cell::Snake(path)
        &&& path.exit is None
    }

    /// Index `i` of `list` can be swap-removed for `position`: it holds
    /// `position`, and the position that would take its slot lies on the
    /// grid.
    pub open spec fn removable(self, list: Seq<Position>, position: Position, i: int) -> bool {
        &&& 0 <= i < list.len()
        &&& list[i] == position
        &&& self.in_bounds(list.last())
    }

    /// `next` lies on the grid and can leave the list that its cell names.
    pub open spec fn enterable(self, next: Position) -> bool {
        &&& self.in_bounds(next)
        &&& match self.cells[next] {
            Cell::Empty(i) => self.removable(self.empty, next, i as int),
            Cell::Foods(i) => self.removable(self.foods, next, i as int),
            Cell::Snake(_) => false,
        }
    }

    /// Every listed empty position lies on the grid.
    pub open spec fn empty_on_board(self) -> bool {
        forall|k: int| 0 <= k < self.empty.len() ==> self.in_bounds(#[trigger] self.empty[k])
    }

    /// The snake has filled the board.
    pub open spec fn is_won(self) -> bool {
        self.empty.len() == 0 && self.foods.len() == 0
    }

    pub open spec fn won_status(self) -> Status {
        if self.is_won() {
            Status::Over { is_won: true }
        } else {
            Status::Ongoing
        }
    }

    pub open spec fn with_cell(self, p: Position, cell: Cell) -> Model {
        Model { cells: self.cells.insert(p, cell), ..self }
    }

    /// The tail leaves the body; its cell becomes the last empty one.
    pub open spec fn remove_last_tail(self) -> Model {
        Model {
            cells: self.cells.insert(self.tail(), Cell::Empty(self.empty.len() as usize)),
            empty: self.empty.push(self.tail()),
            snake: self.snake.drop_last(),
            ..self
        }
    }

    /// Segment `i` loses its `entry` link and keeps its `exit` link: the
    /// body ends behind it.
    pub open spec fn cut_behind(self, i: int) -> Model {
        self.with_cell(
            self.snake[i],
            Cell::Snake(Path { entry: None, exit: self.path_at(self.snake[i]).exit }),
        )
    }

    /// The segment that is now last loses its `entry` link.
    pub open spec fn update_next_tail(self) -> Model {
        self.cut_behind(self.snake.len() - 1)
    }

    /// The head gets an `exit` link in direction `d`.
    pub open spec fn update_last_head(self, d: Direction) -> Model {
        self.with_cell(
            self.head(),
            Cell::Snake(Path { entry: self.path_at(self.head()).entry, exit: Some(d) }),
        )
    }

    /// Index `i` leaves the list of empty positions; the position that takes
    /// its slot, if any, is told its new index.
    pub open spec fn remove_empty(self, i: int) -> Model {
        let empty = swap_removed(self.empty, i);
        Model {
            cells: if i < empty.len() {
                self.cells.insert(empty[i], Cell::Empty(i as usize))
            } else {
                self.cells
            },
            empty,
            ..self
        }
    }

    /// Index `i` leaves the list of food positions; the position that takes
    /// its slot, if any, is told its new index.
    pub open spec fn remove_foods(self, i: int) -> Model {
        let foods = swap_removed(self.foods, i);
        Model {
            cells: if i < foods.len() {
                self.cells.insert(foods[i], Cell::Foods(i as usize))
            } else {
                self.cells
            },
            foods,
            ..self
        }
    }

    /// The model with `next` taken out of the list that its cell names.
    pub open spec fn vacated(self, next: Position) -> Model {
        match self.cells[next] {
            Cell::Empty(i) => self.remove_empty(i as int),
            Cell::Foods(i) => self.remove_foods(i as int),
            Cell::Snake(_) => self,
        }
    }

    /// `next` becomes the head, linked back by `entry`; the lists are not
    /// touched.
    pub open spec fn push_snake(self, next: Position, entry: Option<Direction>) -> Model {
        Model {
            cells: self.cells.insert(next, Cell::Snake(Path { entry, exit: None })),
            snake: seq![next] + self.snake,
            ..self
        }
    }

    /// `next` leaves the list that its cell names and becomes the head,
    /// linked back by `entry`.
    pub open spec fn insert_snake_head(self, next: Position, entry: Option<Direction>) -> Model {
        self.vacated(next).push_snake(next, entry)
    }

    /// The empty position at index `i` becomes the last food.
    pub open spec fn place_food(self, i: int) -> Model {
        let position = self.empty[i];
        let removed = self.remove_empty(i);
        Model {
            cells: removed.cells.insert(position, Cell::Foods(self.foods.len() as usize)),
            foods: self.foods.push(position),
            ..removed
        }
    }

    /// One food is placed on an empty position that the generator picks; a
    /// board without an empty position stays as it is.
    pub open spec fn insert_food(self) -> Model {
        if self.empty.len() == 0 {
            self
        } else {
            let bound = self.empty.len() as usize;
            let picked = self.rng.next_index(bound) as int;
            Model { rng: self.rng.advanced(bound), ..self.place_food(picked) }
        }
    }

    /// The body relinked for a slide in direction `d`: where it has more
    /// than one segment, the neighbour of the tail becomes the end of the
    /// chain and the head gets an `exit` link.
    pub open spec fn relinked(self, d: Direction) -> Model {
        if self.snake.len() > 1 {
            self.cut_behind(self.snake.len() - 2).update_last_head(d)
        } else {
            self
        }
    }

    /// The `entry` link of a new head in direction `d`: back to the old
    /// head, unless the old head leaves with the tail.
    pub open spec fn entry_for(self, d: Direction) -> Option<Direction> {
        if self.snake.len() > 1 {
            Some(d.reversed())
        } else {
            None
        }
    }

    /// The head slides onto the empty position in direction `d`: that
    /// position leaves the list of empty positions, the body is relinked,
    /// the tail leaves the body and becomes the last empty position, and
    /// the position becomes the new head.
    pub open spec fn slide(self, d: Direction) -> Model {
        let next = self.next_head(d);
        let taken = self.remove_empty(self.cells[next]->Empty_0 as int);
        taken.relinked(d).remove_last_tail().push_snake(next, self.entry_for(d))
    }

    /// The head moves onto the food in direction `d` and the tail stays:
    /// the position leaves the list of food positions, the head gets an
    /// `exit` link, and the position becomes the new head.
    pub open spec fn eat(self, d: Direction) -> Model {
        let next = self.next_head(d);
        let taken = self.remove_foods(self.cells[next]->Foods_0 as int);
        taken.update_last_head(d).push_snake(next, Some(d.reversed()))
    }

    /// The snake eats the food in direction `d`, and one food is placed
    /// anew where there is room.
    pub open spec fn grow(self, d: Direction) -> Model {
        self.eat(d).insert_food()
    }

    /// What the observer is told while the body is relinked for a slide:
    /// of the neighbour of the tail and of the head, where the body has more
    /// than one segment.
    pub open spec fn relinked_swaps(self, d: Direction) -> Seq<Swap> {
        if self.snake.len() > 1 {
            let cut = self.cut_behind(self.snake.len() - 2);
            seq![
                swap_at(self, cut, self.snake[self.snake.len() - 2]),
                swap_at(cut, cut.update_last_head(d), self.head()),
            ]
        } else {
            Seq::empty()
        }
    }

    /// What the observer is told while the head slides: of the relinked
    /// segments, of the tail, and of the new head.
    pub open spec fn slide_swaps(self, d: Direction) -> Seq<Swap> {
        let next = self.next_head(d);
        let taken = self.remove_empty(self.cells[next]->Empty_0 as int);
        let relinked = taken.relinked(d);
        let shortened = relinked.remove_last_tail();
        taken.relinked_swaps(d) + seq![
            swap_at(relinked, shortened, self.tail()),
            swap_at(shortened, shortened.push_snake(next, self.entry_for(d)), next),
        ]
    }

    /// What the observer is told when a food is to be placed: the new food,
    /// or nothing where no position is empty.
    pub open spec fn food_swaps(self) -> Seq<Swap> {
        if self.empty.len() == 0 {
            Seq::empty()
        } else {
            seq![food_swap(self.empty[self.rng.next_index(self.empty.len() as usize) as int])]
        }
    }

    /// What the observer is told while the snake eats: of the old head, of
    /// the new head, and of the new food where one could be placed.
    pub open spec fn grow_swaps(self, d: Direction) -> Seq<Swap> {
        let next = self.next_head(d);
        let taken = self.remove_foods(self.cells[next]->Foods_0 as int);
        let turned = taken.update_last_head(d);
        seq![swap_at(taken, turned, self.head()), swap_at(turned, self.eat(d), next)] + self.eat(
            d,
        ).food_swaps()
    }

    /// What the observer is told during one turn in direction `d`, in the
    /// order of the changes.
    pub open spec fn turn_swaps(self, d: Direction) -> Seq<Swap> {
        match self.cells[self.next_head(d)] {
            Cell::Snake(_) => Seq::empty(),
            Cell::Empty(_) => self.slide_swaps(d),
            Cell::Foods(_) => self.grow_swaps(d),
        }
    }

    /// One turn in direction `d`: the state after it and its outcome.
    pub open spec fn turn(self, d: Direction) -> (Model, Status) {
        match self.cells[self.next_head(d)] {
            Cell::Snake(_) => (self, Status::Over { is_won: self.is_won() }),
            Cell::Empty(_) => (self.slide(d), Status::Ongoing),
            Cell::Foods(_) => (self.grow(d), self.grow(d).won_status()),
        }
    }

    /// The state after the turns in `directions`, in order; turns after the
    /// game is over change nothing.
    pub open spec fn run(self, directions: Seq<Direction>) -> (Model, Status)
        decreases directions.len(),
    {
        if directions.len() == 0 {
            (self, Status::Ongoing)
        } else {
            let (before, status) = self.run(directions.drop_last());
            match status {
                Status::Ongoing => before.turn(directions.last()),
                Status::Over { .. } => (before, status),
            }
        }
    }
}

/// The cells of a new game: a snake segment without links in the centre,
/// every other cell empty, each numbered by its rank in row-major order.
pub open spec fn starting_cells(cells: Map<Position, Cell>, rows: int, cols: int) -> bool {
    &&& numbered(cells, rows, cols)
    &&& forall|p: Position| cells.dom().contains(p) <==> within(p, rows, cols)
    &&& forall|p: Position|
        within(p, rows, cols) ==> (#[trigger] cells[p]).dto() == (if p == center(rows, cols) {
            dto::Cell::Snake(Path { entry: None, exit: None })
        } else {
            dto::Cell::Empty
        })
}

impl Model {
    /// A new game before any food is placed: the snake is one segment in
    /// the centre and every other position is listed as empty, in row-major
    /// order.
    pub open spec fn is_start(self) -> bool {
        &&& 0 < self.rows <= usize::MAX
        &&& 0 < self.cols <= usize::MAX
        &&& self.rows * self.cols <= usize::MAX
        &&& starting_cells(self.cells, self.rows, self.cols)
        &&& self.empty == listed(self.cells, self.rows, self.cols, false)
        &&& self.foods.len() == 0
        &&& self.snake == seq![center(self.rows, self.cols)]
    }

    /// The state after `n` foods were placed, one after the other.
    pub open spec fn stocked(self, n: nat) -> Model
        decreases n,
    {
        if n == 0 {
            self
        } else {
            self.stocked((n - 1) as nat).insert_food()
        }
    }

    /// What the observer is told while `n` foods are placed.
    pub open spec fn stocked_swaps(self, n: nat) -> Seq<Swap>
        decreases n,
    {
        if n == 0 {
            Seq::empty()
        } else {
            self.stocked_swaps((n - 1) as nat) + self.stocked((n - 1) as nat).food_swaps()
        }
    }
}

} // verus!
