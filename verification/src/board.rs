//! The grid: cell lookup, toroidal movement, and the scans that rebuild the
//! bookkeeping lists and the snake body from the cells alone.
use std::collections::VecDeque;
use vstd::prelude::*;
use vstd::std_specs::convert::FromSpecImpl;
use vstd::string::StringExecFns;

use crate::data_transfer_objects as dto;
use crate::grid::{
    center, first_head, grid_text, head_at, holds, hop, is_first_head, lemma_filter_agree,
    lemma_first_head, lemma_nth_position, lemma_nth_within, lemma_scan_step, lemma_wrap, listed,
    numbered, positions, precedes, row_text, shifted, stops_within, trail, within,
};
use crate::value_objects::{Cell, Direction, Path, Position, Velocity};

verus! {

/// A fixed-shape grid of cells.
#[derive(Clone, Debug, PartialEq)]
pub struct Board<const N_ROWS: usize, const N_COLS: usize>(pub [[Cell; N_COLS]; N_ROWS]);

impl<const N_ROWS: usize, const N_COLS: usize> View for Board<N_ROWS, N_COLS> {
    type V = Map<Position, Cell>;

    /// The cells by position; the domain is the grid.
    open spec fn view(&self) -> Map<Position, Cell> {
        Map::new(|p: Position| Self::in_bounds(p), |p: Position| self.cell(p))
    }
}

impl<const N_ROWS: usize, const N_COLS: usize> Board<N_ROWS, N_COLS> {
    pub open spec fn in_bounds(p: Position) -> bool {
        within(p, N_ROWS as int, N_COLS as int)
    }

    pub open spec fn cell(&self, p: Position) -> Cell {
        self.0@[p.0 as int]@[p.1 as int]
    }

    pub open spec fn moved(p: Position, d: Direction) -> Position {
        shifted(p, d, N_ROWS as int, N_COLS as int)
    }

    pub fn new(board: [[Cell; N_COLS]; N_ROWS]) -> (result: Self)
        ensures
            result.0 == board,
    {
        Board(board)
    }

    pub fn at(&self, position: &Position) -> (cell: Cell)
        requires
            Self::in_bounds(*position),
        ensures
            cell == self@[*position],
    {
        self.0[position.0][position.1]
    }

    pub fn at_mut(&mut self, position: &Position) -> (cell: &mut Cell)
        requires
            Self::in_bounds(*position),
        ensures
            *cell == old(self)@[*position],
            final(self)@ == old(self)@.insert(*position, *final(cell)),
    {
        let ghost before = self@;
        let cell = &mut self.0[position.0][position.1];
        proof {
            assert(after_borrow(*self)@ =~= before.insert(*position, *final(cell)));
        }
        cell
    }

    /// Overwrites one cell.
    pub fn put(&mut self, position: &Position, cell: Cell)
        requires
            Self::in_bounds(*position),
        ensures
            final(self)@ == old(self)@.insert(*position, cell),
    {
        self.0[position.0][position.1] = cell;
        assert(self@ =~= old(self)@.insert(*position, cell));
    }

    pub fn move_in(&self, position: &Position, direction: &Direction) -> (moved: Position)
        requires
            Self::in_bounds(*position),
        ensures
            moved == Self::moved(*position, *direction),
            Self::in_bounds(moved),
    {
        let velocity = direction.as_velocity();
        proof {
            lemma_wrap(position.0 as int, velocity.0 as int, N_ROWS as int);
            lemma_wrap(position.1 as int, velocity.1 as int, N_COLS as int);
            lemma_wrap((N_ROWS - 1) as int, 0, N_ROWS as int);
            lemma_wrap((N_COLS - 1) as int, 0, N_COLS as int);
        }
        let i = position.0.checked_add_signed(velocity.0).unwrap_or(
            N_ROWS - Velocity::DEFAULT_MAGNITUDE,
        ) % N_ROWS;
        let j = position.1.checked_add_signed(velocity.1).unwrap_or(
            N_COLS - Velocity::DEFAULT_MAGNITUDE,
        ) % N_COLS;
        Position(i, j)
    }
}

impl<const N_ROWS: usize, const N_COLS: usize> Board<N_ROWS, N_COLS> {
    /// The positions of the `Empty` cells, in row-major order.
    pub fn get_empty(&self) -> (empty: Vec<Position>)
        ensures
            empty@ == listed(self@, N_ROWS as int, N_COLS as int, false),
    {
        self.collect(false)
    }

    /// The positions of the `Foods` cells, in row-major order.
    pub fn get_foods(&self) -> (foods: Vec<Position>)
        ensures
            foods@ == listed(self@, N_ROWS as int, N_COLS as int, true),
    {
        self.collect(true)
    }

    fn collect(&self, foods: bool) -> (found: Vec<Position>)
        ensures
            found@ == listed(self@, N_ROWS as int, N_COLS as int, foods),
    {
        let mut found: Vec<Position> = Vec::new();
        let ghost all = positions(N_ROWS as int, N_COLS as int);
        let ghost pred = holds(self@, foods);
        proof {
            reveal(Seq::filter);
            assert(all.take(0).filter(pred) =~= Seq::<Position>::empty());
        }
        let mut i: usize = 0;
        while i < N_ROWS
            invariant
                i <= N_ROWS,
                all == positions(N_ROWS as int, N_COLS as int),
                pred == holds(self@, foods),
                found@ == all.take(i * N_COLS).filter(pred),
            decreases N_ROWS - i,
        {
            let mut j: usize = 0;
            while j < N_COLS
                invariant
                    i < N_ROWS,
                    j <= N_COLS,
                    all == positions(N_ROWS as int, N_COLS as int),
                    pred == holds(self@, foods),
                    found@ == all.take(i * N_COLS + j).filter(pred),
                decreases N_COLS - j,
            {
                let position = Position(i, j);
                let wanted = match self.at(&position) {
                    Cell::Empty(_) => !foods,
                    Cell::Foods(_) => foods,
                    Cell::Snake(_) => false,
                };
                proof {
                    lemma_nth_position(i as int, j as int, N_ROWS as int, N_COLS as int);
                    lemma_scan_step(all, i * N_COLS + j, pred);
                }
                if wanted {
                    found.push(position);
                }
                j += 1;
            }
            proof {
                assert((i + 1) * N_COLS == i * N_COLS + N_COLS) by (nonlinear_arith);
            }
            i += 1;
        }
        proof {
            assert(all.take(N_ROWS * N_COLS) =~= all);
        }
        found
    }

    /// The first head in row-major order, if the board has one.
    pub fn find_snake_head(&self) -> (head: Option<Position>)
        ensures
            head == first_head(self@),
    {
        let mut i: usize = 0;
        while i < N_ROWS
            invariant
                i <= N_ROWS,
                forall|q: Position| q.0 < i ==> !head_at(self@, q),
            decreases N_ROWS - i,
        {
            let found = self.find_snake_head_from_row((i, &self.0[i]));
            if let Some(p) = found {
                proof {
                    assert forall|q: Position| precedes(q, p) implies !head_at(self@, q) by {
                        if q.0 == i && head_at(self@, q) {
                            assert(Self::row_head(self.0[i as int], q.1 as int));
                        }
                    }
                    lemma_first_head(self@, p);
                }
                return Some(p);
            }
            proof {
                assert forall|q: Position| q.0 < i + 1 implies !head_at(self@, q) by {
                    if q.0 == i && head_at(self@, q) {
                        assert(Self::row_head(self.0[i as int], q.1 as int));
                    }
                }
            }
            i += 1;
        }
        proof {
            assert forall|p: Position| !is_first_head(self@, p) by {
                assert(!head_at(self@, p));
            }
        }
        None
    }

    /// Column `j` of `row` holds a snake segment without an `exit` link.
    pub open spec fn row_head(row: [Cell; N_COLS], j: int) -> bool {
        &&& 0 <= j < N_COLS
        &&& row@[j] matches Cell::Snake(path)
        &&& path.exit is None
    }

    /// The first head of row `item.0`, whose cells are `item.1`.
    pub fn find_snake_head_from_row(&self, item: (usize, &[Cell; N_COLS])) -> (head: Option<
        Position,
    >)
        ensures
            match head {
                Some(p) => {
                    &&& p.0 == item.0
                    &&& Self::row_head(*item.1, p.1 as int)
                    &&& forall|j: int| 0 <= j < p.1 ==> !Self::row_head(*item.1, j)
                },
                None => forall|j: int| !Self::row_head(*item.1, j),
            },
    {
        let mut j: usize = 0;
        while j < N_COLS
            invariant
                j <= N_COLS,
                forall|k: int| 0 <= k < j ==> !Self::row_head(*item.1, k),
            decreases N_COLS - j,
        {
            let cell = item.1[j];
            match cell {
                Cell::Snake(Path { entry: _, exit: None }) => {
                    assert(Self::row_head(*item.1, j as int));
                    return Some(Position(item.0, j));
                },
                _ => {
                    assert(!Self::row_head(*item.1, j as int));
                },
            }
            j += 1;
        }
        None
    }
}

impl<const N_ROWS: usize, const N_COLS: usize> Board<N_ROWS, N_COLS> {
    /// The number of hops that a walk along `entry` links is followed for:
    /// on a grid no simple path is longer than its number of cells.
    pub open spec fn reach() -> nat {
        (N_ROWS * N_COLS) as nat
    }

    /// The board has a head, and the `entry` links from it end at a cell
    /// without one.
    pub open spec fn walkable(&self) -> bool {
        &&& first_head(self@) matches Some(head)
        &&& stops_within(self@, head, N_ROWS as int, N_COLS as int, Self::reach())
    }

    /// Whether the board can be walked: it has a head, and the `entry` links
    /// from it end at a cell without one.
    pub fn is_walkable(&self) -> (walkable: bool)
        ensures
            walkable == self.walkable(),
    {
        let head = self.find_snake_head();
        match head {
            None => false,
            Some(start) => {
                assert(N_ROWS * N_COLS <= u128::MAX) by (nonlinear_arith)
                    requires
                        N_ROWS <= u64::MAX,
                        N_COLS <= u64::MAX,
                ;
                let mut fuel: u128 = (N_ROWS as u128) * (N_COLS as u128);
                let mut position = start;
                loop
                    invariant
                        first_head(self@) == Some(start),
                        Self::in_bounds(position),
                        stops_within(self@, start, N_ROWS as int, N_COLS as int, Self::reach())
                            == stops_within(
                            self@,
                            position,
                            N_ROWS as int,
                            N_COLS as int,
                            fuel as nat,
                        ),
                    decreases fuel,
                {
                    let ghost from = position;
                    match self.at(&position) {
                        Cell::Snake(Path { entry: Some(direction), exit: _ }) => {
                            assert(hop(self@, from, N_ROWS as int, N_COLS as int) == Some(
                                Self::moved(from, direction),
                            ));
                            if fuel == 0 {
                                return false;
                            }
                            position = self.move_in(&position, &direction);
                            fuel = fuel - 1;
                        },
                        _ => {
                            assert(hop(self@, from, N_ROWS as int, N_COLS as int) is None);
                            return true;
                        },
                    }
                }
            },
        }
    }

    /// The snake body, head first: the head is the first cell in row-major
    /// order without an `exit` link, and each next segment is where the
    /// `entry` link of the one before it leads.
    pub fn get_snake(&self) -> (snake: VecDeque<Position>)
        requires
            self.walkable(),
        ensures
            snake@ == trail(
                self@,
                first_head(self@)->0,
                N_ROWS as int,
                N_COLS as int,
                Self::reach(),
            ),
    {
        let head = self.find_snake_head();
        let mut position = head.unwrap();
        let mut snake: VecDeque<Position> = VecDeque::new();
        snake.push_back(position);
        let ghost start = position;
        let ghost mut fuel: nat = Self::reach();
        assert(snake@ =~= seq![position]);
        assert(snake@.drop_last() + trail(self@, position, N_ROWS as int, N_COLS as int, fuel)
            =~= trail(self@, start, N_ROWS as int, N_COLS as int, Self::reach()));
        loop
            invariant
                Self::in_bounds(position),
                snake@.len() > 0,
                snake@.last() == position,
                stops_within(self@, position, N_ROWS as int, N_COLS as int, fuel),
                trail(self@, start, N_ROWS as int, N_COLS as int, Self::reach())
                    == snake@.drop_last() + trail(
                    self@,
                    position,
                    N_ROWS as int,
                    N_COLS as int,
                    fuel,
                ),
            ensures
                snake@ == trail(self@, start, N_ROWS as int, N_COLS as int, Self::reach()),
            decreases fuel,
        {
            let ghost before = snake@;
            let ghost from = position;
            match self.at(&position) {
                Cell::Snake(Path { entry: Some(direction), exit: _ }) => {
                    position = self.move_in(&position, &direction);
                    snake.push_back(position);
                    proof {
                        assert(hop(self@, from, N_ROWS as int, N_COLS as int) == Some(position));
                        fuel = (fuel - 1) as nat;
                        assert(snake@.drop_last() =~= before);
                        assert(before =~= before.drop_last() + seq![from]);
                        assert(before.drop_last() + (seq![from] + trail(
                            self@,
                            position,
                            N_ROWS as int,
                            N_COLS as int,
                            fuel,
                        )) =~= snake@.drop_last() + trail(
                            self@,
                            position,
                            N_ROWS as int,
                            N_COLS as int,
                            fuel,
                        ));
                    }
                },
                _ => {
                    proof {
                        assert(hop(self@, from, N_ROWS as int, N_COLS as int) is None);
                        assert(before.drop_last() + seq![from] =~= before);
                    }
                    break ;
                },
            }
        }
        snake
    }
}

impl<const N_ROWS: usize, const N_COLS: usize> Board<N_ROWS, N_COLS> {
    /// Selects the positions at which `source` holds `Foods`, if `foods`,
    /// else `Empty`.
    pub open spec fn source_holds(source: [[dto::Cell; N_COLS]; N_ROWS], foods: bool) -> spec_fn(
        Position,
    ) -> bool {
        |p: Position|
            if foods {
                source@[p.0 as int]@[p.1 as int] is Foods
            } else {
                source@[p.0 as int]@[p.1 as int] is Empty
            }
    }

    /// The board that holds what `source` holds, each `Empty` and `Foods`
    /// cell numbered by its rank in row-major order, together with the
    /// positions of its `Empty` and of its `Foods` cells in that order.
    pub fn indexed(source: &[[dto::Cell; N_COLS]; N_ROWS]) -> (result: (
        Self,
        Vec<Position>,
        Vec<Position>,
    ))
        ensures
            forall|p: Position|
                Self::in_bounds(p) ==> (#[trigger] result.0@[p]).dto()
                    == source@[p.0 as int]@[p.1 as int],
            numbered(result.0@, N_ROWS as int, N_COLS as int),
            result.1@ == listed(result.0@, N_ROWS as int, N_COLS as int, false),
            result.2@ == listed(result.0@, N_ROWS as int, N_COLS as int, true),
    {
        let mut board = Board([[Cell::Empty(0); N_COLS]; N_ROWS]);
        let mut empty: Vec<Position> = Vec::new();
        let mut foods: Vec<Position> = Vec::new();
        let ghost all = positions(N_ROWS as int, N_COLS as int);
        let ghost want_empty = Self::source_holds(*source, false);
        let ghost want_foods = Self::source_holds(*source, true);
        proof {
            reveal(Seq::filter);
            assert(all.take(0).filter(want_empty) =~= Seq::<Position>::empty());
            assert(all.take(0).filter(want_foods) =~= Seq::<Position>::empty());
        }
        let mut i: usize = 0;
        while i < N_ROWS
            invariant
                i <= N_ROWS,
                all == positions(N_ROWS as int, N_COLS as int),
                want_empty == Self::source_holds(*source, false),
                want_foods == Self::source_holds(*source, true),
                empty@ == all.take(i * N_COLS).filter(want_empty),
                foods@ == all.take(i * N_COLS).filter(want_foods),
                forall|k: int|
                    0 <= k < empty.len() ==> Self::in_bounds(#[trigger] empty[k]) && empty[k].0 < i
                        && board@[empty[k]] == Cell::Empty(k as usize),
                forall|k: int|
                    0 <= k < foods.len() ==> Self::in_bounds(#[trigger] foods[k]) && foods[k].0 < i
                        && board@[foods[k]] == Cell::Foods(k as usize),
                forall|p: Position|
                    Self::in_bounds(p) && p.0 < i ==> (#[trigger] board@[p]).dto()
                        == source@[p.0 as int]@[p.1 as int],
            decreases N_ROWS - i,
        {
            let mut j: usize = 0;
            while j < N_COLS
                invariant
                    i < N_ROWS,
                    j <= N_COLS,
                    all == positions(N_ROWS as int, N_COLS as int),
                    want_empty == Self::source_holds(*source, false),
                    want_foods == Self::source_holds(*source, true),
                    empty@ == all.take(i * N_COLS + j).filter(want_empty),
                    foods@ == all.take(i * N_COLS + j).filter(want_foods),
                    forall|k: int|
                        0 <= k < empty.len() ==> Self::in_bounds(#[trigger] empty[k]) && precedes(
                            empty[k],
                            Position(i, j),
                        ) && board@[empty[k]] == Cell::Empty(k as usize),
                    forall|k: int|
                        0 <= k < foods.len() ==> Self::in_bounds(#[trigger] foods[k]) && precedes(
                            foods[k],
                            Position(i, j),
                        ) && board@[foods[k]] == Cell::Foods(k as usize),
                    forall|p: Position|
                        Self::in_bounds(p) && precedes(p, Position(i, j)) ==> (
                        #[trigger] board@[p]).dto() == source@[p.0 as int]@[p.1 as int],
                decreases N_COLS - j,
            {
                let position = Position(i, j);
                proof {
                    lemma_nth_position(i as int, j as int, N_ROWS as int, N_COLS as int);
                    lemma_scan_step(all, i * N_COLS + j, want_empty);
                    lemma_scan_step(all, i * N_COLS + j, want_foods);
                }
                let cell = match source[i][j] {
                    dto::Cell::Empty => {
                        let index = empty.len();
                        empty.push(position);
                        Cell::Empty(index)
                    },
                    dto::Cell::Foods => {
                        let index = foods.len();
                        foods.push(position);
                        Cell::Foods(index)
                    },
                    dto::Cell::Snake(path) => Cell::Snake(path),
                };
                board.put(&position, cell);
                j += 1;
            }
            i += 1;
            proof {
                assert(i * N_COLS == (i - 1) * N_COLS + N_COLS) by (nonlinear_arith);
            }
        }
        proof {
            assert(all.take(N_ROWS * N_COLS) =~= all);
            assert forall|k: int| 0 <= k < all.len() implies holds(board@, false)(#[trigger] all[k])
                == want_empty(all[k]) && holds(board@, true)(all[k]) == want_foods(all[k]) by {
                lemma_nth_within(k, N_ROWS as int, N_COLS as int);
                let p = all[k];
                assert(Self::in_bounds(p));
                assert(board@[p].dto() == source@[p.0 as int]@[p.1 as int]);
            }
            lemma_filter_agree(all, holds(board@, false), want_empty);
            lemma_filter_agree(all, holds(board@, true), want_foods);
        }
        (board, empty, foods)
    }
}

/// What the starting board holds: a snake segment without links in the
/// centre, and nothing anywhere else.
fn starting<const N_ROWS: usize, const N_COLS: usize>() -> (source: [[dto::Cell; N_COLS]; N_ROWS])
    ensures
        forall|a: int, b: int|
            0 <= a < N_ROWS && 0 <= b < N_COLS ==> (#[trigger] source@[a]@[b]) == (if a == N_ROWS
                / 2 && b == N_COLS / 2 {
                dto::Cell::Snake(Path { entry: None, exit: None })
            } else {
                dto::Cell::Empty
            }),
{
    let mut source = [[dto::Cell::Empty; N_COLS]; N_ROWS];
    let mut i: usize = 0;
    while i < N_ROWS
        invariant
            i <= N_ROWS,
            forall|a: int, b: int|
                0 <= a < i && 0 <= b < N_COLS ==> (#[trigger] source@[a]@[b]) == (if a == N_ROWS
                    / 2 && b == N_COLS / 2 {
                    dto::Cell::Snake(Path { entry: None, exit: None })
                } else {
                    dto::Cell::Empty
                }),
        decreases N_ROWS - i,
    {
        let mut j: usize = 0;
        while j < N_COLS
            invariant
                i < N_ROWS,
                j <= N_COLS,
                forall|a: int, b: int|
                    (0 <= a < i && 0 <= b < N_COLS) || (a == i && 0 <= b < j) ==> (
                    #[trigger] source@[a]@[b]) == (if a == N_ROWS / 2 && b == N_COLS / 2 {
                        dto::Cell::Snake(Path { entry: None, exit: None })
                    } else {
                        dto::Cell::Empty
                    }),
            decreases N_COLS - j,
        {
            let ghost before = source;
            let cell = if i == N_ROWS / 2 && j == N_COLS / 2 {
                dto::Cell::Snake(Path { entry: None, exit: None })
            } else {
                dto::Cell::Empty
            };
            source[i][j] = cell;
            assert(forall|a: int|
                0 <= a < N_ROWS && a != i ==> (#[trigger] source@[a]) == before@[a]);
            assert(source@[i as int]@ =~= before@[i as int]@.update(j as int, cell));
            j += 1;
        }
        i += 1;
    }
    source
}

impl<const N_ROWS: usize, const N_COLS: usize> Default for Board<N_ROWS, N_COLS> {
    /// The starting board: one snake segment without links in the centre,
    /// every other cell empty and numbered in row-major order.
    fn default() -> (board: Self)
        ensures
            numbered(board@, N_ROWS as int, N_COLS as int),
            forall|p: Position|
                Self::in_bounds(p) ==> (#[trigger] board@[p]).dto() == (if p == center(
                    N_ROWS as int,
                    N_COLS as int,
                ) {
                    dto::Cell::Snake(Path { entry: None, exit: None })
                } else {
                    dto::Cell::Empty
                }),
    {
        let source = starting::<N_ROWS, N_COLS>();
        let built = Self::indexed(&source);
        assert forall|p: Position| Self::in_bounds(p) implies (#[trigger] built.0@[p]).dto() == (
        if p == center(N_ROWS as int, N_COLS as int) {
            dto::Cell::Snake(Path { entry: None, exit: None })
        } else {
            dto::Cell::Empty
        }) by {
            assert(built.0@[p].dto() == source@[p.0 as int]@[p.1 as int]);
        }
        built.0
    }
}

impl<const N_ROWS: usize, const N_COLS: usize> From<[[dto::Cell; N_COLS]; N_ROWS]> for Board<N_ROWS, N_COLS> {
    /// The board that holds what `board` holds, each `Empty` and `Foods`
    /// cell numbered by its rank in row-major order.
    fn from(board: [[dto::Cell; N_COLS]; N_ROWS]) -> (result: Self)
        ensures
            numbered(result@, N_ROWS as int, N_COLS as int),
            forall|p: Position|
                Self::in_bounds(p) ==> (#[trigger] result@[p]).dto()
                    == board@[p.0 as int]@[p.1 as int],
    {
        Self::indexed(&board).0
    }
}

impl<const N_ROWS: usize, const N_COLS: usize> FromSpecImpl<[[dto::Cell; N_COLS]; N_ROWS]> for Board<N_ROWS, N_COLS> {
    /// The result is described by the postcondition of `from`, not by
    /// `from_spec`.
    open spec fn obeys_from_spec() -> bool {
        false
    }

    open spec fn from_spec(board: [[dto::Cell; N_COLS]; N_ROWS]) -> Self {
        choose|result: Self|
            numbered(result@, N_ROWS as int, N_COLS as int) && forall|p: Position|
                Self::in_bounds(p) ==> (#[trigger] result@[p]).dto()
                    == board@[p.0 as int]@[p.1 as int]
    }
}

impl<const N_ROWS: usize, const N_COLS: usize> Board<N_ROWS, N_COLS> {
    /// The board drawn row by row, each row ended by a line feed.
    pub fn to_string(&self) -> (text: String)
        ensures
            text@ == grid_text(self@, N_COLS as int, N_ROWS as int),
    {
        let mut text = String::new();
        let mut i: usize = 0;
        while i < N_ROWS
            invariant
                i <= N_ROWS,
                text@ == grid_text(self@, N_COLS as int, i as int),
            decreases N_ROWS - i,
        {
            let ghost above = text@;
            let mut j: usize = 0;
            while j < N_COLS
                invariant
                    i < N_ROWS,
                    j <= N_COLS,
                    text@ == above + row_text(self@, i as int, j as int),
                decreases N_COLS - j,
            {
                let cell = self.at(&Position(i, j)).to_string();
                text.append(cell.as_str());
                j += 1;
                assert(text@ =~= above + row_text(self@, i as int, j as int));
            }
            text.append("\n");
            i += 1;
        }
        text
    }
}

} // verus!
