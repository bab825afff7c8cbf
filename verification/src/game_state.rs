//! A game in progress: the state, its input source and its observer, and the
//! turn that moves the snake.
use vstd::prelude::*;

use crate::board::Board;
use crate::grid::{first_head, listed, trail};
use crate::controller::Controller;
use crate::data_transfer_objects::Status;
use crate::generator::Generator;
use crate::model::{swap_at, Model, Swap};
use crate::options::Options;
pub use crate::state::MaxFoods;
use crate::state::State;
use crate::validity::{
    lemma_grow_steps, lemma_grow_wf, lemma_head_on_grid, lemma_insert_food_wf, lemma_slide_steps,
    lemma_slide_wf, lemma_start_walk, lemma_start_wf,
};
use crate::value_objects::{Cell, Direction, Position, Velocity};
use crate::view::{grown, lemma_grown_nothing, lemma_grown_twice};

verus! {

/// A turn was asked of a game that is over.
#[derive(Debug)]
pub struct GameIsOver;

/// A heading was asked for that lies in the plane of the current one.
#[derive(Debug)]
pub struct InvalidDirection;

/// What can be asked of a game.
#[derive(Clone, Copy, Debug)]
pub enum Command {
    SetDirection(Direction),
    IterateTurn,
}

/// Why a command was turned down.
#[derive(Debug)]
pub enum Error {
    InvalidDirection,
    GameIsOver,
}

/// A game: its state, its input source and its observer, its outcome so far
/// and its heading.
#[derive(Debug)]
pub struct GameState<
    'a,
    const N_ROWS: usize,
    const N_COLS: usize,
    C: Controller,
    V: crate::view::View,
> {
    pub state: State<N_ROWS, N_COLS>,
    pub controller: &'a mut C,
    pub view: &'a mut V,
    pub status: Status,
    pub velocity: Velocity,
}

impl<'a, const N_ROWS: usize, const N_COLS: usize, C: Controller, V: crate::view::View> GameState<
    'a,
    N_ROWS,
    N_COLS,
    C,
    V,
> {
    /// Since `before`, the observer was told of `swaps` and of nothing else,
    /// and the input source was not asked.
    pub open spec fn told(&self, before: &Self, swaps: Seq<Swap>) -> bool {
        &&& grown((*before.view).heard(), (*self.view).heard(), swaps)
        &&& *self.controller == *before.controller
    }

    /// This builds a `GameState` from a board without checking for invariants
    pub fn from_board(
        board: Board<N_ROWS, N_COLS>,
        controller: &'a mut C,
        view: &'a mut V,
        rng: Generator,
    ) -> (game: GameState<'a, N_ROWS, N_COLS, C, V>)
        requires
            board.walkable(),
        ensures
            game.state.board == board,
            game.state.rng == rng,
            game.state.empty@ == listed(board@, N_ROWS as int, N_COLS as int, false),
            game.state.foods@ == listed(board@, N_ROWS as int, N_COLS as int, true),
            game.state.snake@ == trail(
                board@,
                first_head(board@)->0,
                N_ROWS as int,
                N_COLS as int,
                Board::<N_ROWS, N_COLS>::reach(),
            ),
            game.status == Status::Ongoing,
            game.velocity == Velocity(0, 0),
            *game.view == *old(view),
            *final(game.view) == *final(view),
            *game.controller == *old(controller),
            *final(game.controller) == *final(controller),
    {
        GameState {
            state: State::new(board, rng),
            controller,
            view,
            status: Status::Ongoing,
            velocity: Velocity(0, 0),
        }
    }

    /// Tells the observer of one change.
    fn notify(&mut self, position: Position, before: Cell, after: Cell)
        ensures
            final(self).state == old(self).state,
            final(self).status == old(self).status,
            final(self).velocity == old(self).velocity,
            final(self).told(
                old(self),
                seq![((position.0, position.1), before.dto(), after.dto())],
            ),
            *final(final(self).view) == *final(old(self).view),
            *final(final(self).controller) == *final(old(self).controller),
    {
        self.view.swap_cell(&position.into(), before.as_dto(), after.as_dto());
    }

    /// The position of the head.
    pub fn get_last_head(&self) -> (head: &Position)
        requires
            self.state.snake@.len() > 0,
        ensures
            *head == self.state@.head(),
    {
        self.state.get_last_head()
    }

    /// The position of the last segment.
    pub fn get_next_tail(&self) -> (tail: &Position)
        requires
            self.state.snake@.len() > 0,
        ensures
            *tail == self.state@.tail(),
    {
        self.state.get_next_tail()
    }

    /// Where the head lands when it moves in `direction`.
    pub fn get_next_head(&self, direction: &Direction) -> (next: Position)
        requires
            self.state@.has_head(),
        ensures
            next == self.state@.next_head(*direction),
            self.state@.in_bounds(next),
    {
        self.state.get_next_head(direction)
    }

    /// Won if nothing is left to move onto or to eat.
    pub fn check_is_won_status(&self) -> (status: Status)
        ensures
            status == self.state@.won_status(),
    {
        self.state.check_is_won_status()
    }

    /// The tail leaves the body and becomes the last empty position.
    pub fn remove_last_tail(&mut self)
        requires
            old(self).state@.has_tail(),
        ensures
            final(self).state@ == old(self).state@.remove_last_tail(),
            final(self).status == old(self).status,
            final(self).velocity == old(self).velocity,
            final(self).told(
                old(self),
                seq![swap_at(old(self).state@, final(self).state@, old(self).state@.tail())],
            ),
            *final(final(self).view) == *final(old(self).view),
            *final(final(self).controller) == *final(old(self).controller),
    {
        let before = self.state.board.at(self.state.get_next_tail());
        let last_tail = self.state.remove_last_tail();
        self.notify(last_tail, before, Cell::Empty(0));
    }

    /// Takes the `entry` link from the last segment.
    pub fn update_next_tail(&mut self)
        requires
            old(self).state@.has_next_tail(),
        ensures
            final(self).state@ == old(self).state@.update_next_tail(),
            final(self).status == old(self).status,
            final(self).velocity == old(self).velocity,
            final(self).told(
                old(self),
                seq![swap_at(old(self).state@, final(self).state@, old(self).state@.tail())],
            ),
            *final(final(self).view) == *final(old(self).view),
            *final(final(self).controller) == *final(old(self).controller),
    {
        let change = self.state.update_next_tail();
        self.notify(change.0, change.1, change.2);
    }

    /// Takes the `entry` link from segment `index` of the body.
    pub fn cut_behind(&mut self, index: usize)
        requires
            old(self).state@.has_segment(index as int),
        ensures
            final(self).state@ == old(self).state@.cut_behind(index as int),
            final(self).status == old(self).status,
            final(self).velocity == old(self).velocity,
            final(self).told(
                old(self),
                seq![
                    swap_at(
                        old(self).state@,
                        final(self).state@,
                        old(self).state@.snake[index as int],
                    ),
                ],
            ),
            *final(final(self).view) == *final(old(self).view),
            *final(final(self).controller) == *final(old(self).controller),
    {
        let change = self.state.cut_behind(index);
        self.notify(change.0, change.1, change.2);
    }

    /// Makes `head` the head, linked back by `entry`, without touching the
    /// lists.
    pub fn push_snake(&mut self, head: Position, entry: Option<Direction>)
        requires
            old(self).state@.in_bounds(head),
        ensures
            final(self).state@ == old(self).state@.push_snake(head, entry),
            final(self).status == old(self).status,
            final(self).velocity == old(self).velocity,
            final(self).told(
                old(self),
                seq![swap_at(old(self).state@, final(self).state@, head)],
            ),
            *final(final(self).view) == *final(old(self).view),
            *final(final(self).controller) == *final(old(self).controller),
    {
        let change = self.state.push_snake(head, entry);
        self.notify(change.0, change.1, change.2);
    }

    /// Gives the head an `exit` link in `direction`.
    pub fn update_last_head(&mut self, direction: &Direction)
        requires
            old(self).state@.has_open_head(),
        ensures
            final(self).state@ == old(self).state@.update_last_head(*direction),
            final(self).status == old(self).status,
            final(self).velocity == old(self).velocity,
            final(self).told(
                old(self),
                seq![swap_at(old(self).state@, final(self).state@, old(self).state@.head())],
            ),
            *final(final(self).view) == *final(old(self).view),
            *final(final(self).controller) == *final(old(self).controller),
    {
        let change = self.state.update_last_head(direction);
        self.notify(change.0, change.1, change.2);
    }

    /// Takes `next_head` out of the list of empty positions, where it has
    /// index `empty_index`. The observer is not told: no cell changed what
    /// it shows.
    pub fn remove_empty(&mut self, next_head: &Position, empty_index: usize)
        requires
            old(self).state@.removable(old(self).state.empty@, *next_head, empty_index as int),
        ensures
            final(self).state@ == old(self).state@.remove_empty(empty_index as int),
            final(self).status == old(self).status,
            final(self).velocity == old(self).velocity,
            final(self).told(old(self), Seq::empty()),
            *final(final(self).view) == *final(old(self).view),
            *final(final(self).controller) == *final(old(self).controller),
    {
        self.state.remove_empty(next_head, empty_index);
        proof {
            lemma_grown_nothing((*self.view).heard());
        }
    }

    /// Takes `next_head` out of the list of food positions, where it has
    /// index `foods_index`. The observer is not told: no cell changed what
    /// it shows.
    pub fn remove_foods(&mut self, next_head: &Position, foods_index: usize)
        requires
            old(self).state@.removable(old(self).state.foods@, *next_head, foods_index as int),
        ensures
            final(self).state@ == old(self).state@.remove_foods(foods_index as int),
            final(self).status == old(self).status,
            final(self).velocity == old(self).velocity,
            final(self).told(old(self), Seq::empty()),
            *final(final(self).view) == *final(old(self).view),
            *final(final(self).controller) == *final(old(self).controller),
    {
        self.state.remove_foods(next_head, foods_index);
        proof {
            lemma_grown_nothing((*self.view).heard());
        }
    }

    /// Takes `next_head` out of the list that its cell names and makes it
    /// the head, linked back by `entry`.
    pub fn insert_snake_head(&mut self, next_head: Position, entry: Option<Direction>)
        requires
            old(self).state@.enterable(next_head),
        ensures
            final(self).state@ == old(self).state@.insert_snake_head(next_head, entry),
            final(self).status == old(self).status,
            final(self).velocity == old(self).velocity,
            final(self).told(
                old(self),
                seq![swap_at(old(self).state@, final(self).state@, next_head)],
            ),
            *final(final(self).view) == *final(old(self).view),
            *final(final(self).controller) == *final(old(self).controller),
    {
        let change = self.state.insert_snake_head(next_head, entry);
        self.notify(change.0, change.1, change.2);
    }

    /// Places one food where the generator says and tells the observer;
    /// fails, and changes nothing, where no position is empty.
    pub fn insert_food(&mut self) -> (placed: Result<(), MaxFoods>)
        requires
            old(self).state@.empty_on_board(),
        ensures
            final(self).state@ == old(self).state@.insert_food(),
            placed is Err <==> old(self).state.empty@.len() == 0,
            final(self).status == old(self).status,
            final(self).velocity == old(self).velocity,
            final(self).told(old(self), old(self).state@.food_swaps()),
            *final(final(self).view) == *final(old(self).view),
            *final(final(self).controller) == *final(old(self).controller),
    {
        match self.state.insert_food() {
            Err(error) => {
                proof {
                    lemma_grown_nothing((*self.view).heard());
                }
                Err(error)
            },
            Ok(position) => {
                self.notify(position, Cell::Empty(0), Cell::Foods(0));
                Ok(())
            },
        }
    }
}

impl<'a, const N_ROWS: usize, const N_COLS: usize, C: Controller, V: crate::view::View> GameState<
    'a,
    N_ROWS,
    N_COLS,
    C,
    V,
> {
    /// The state and the status after a turn in `direction` is asked of a
    /// game in state `before` with status `status`: a game that is over
    /// stays as it is.
    pub open spec fn next(before: Model, status: Status, direction: Direction) -> (Model, Status) {
        match status {
            Status::Ongoing => before.turn(direction),
            Status::Over { .. } => (before, status),
        }
    }

    /// What the observer is told during that turn.
    pub open spec fn next_swaps(before: Model, status: Status, direction: Direction) -> Seq<Swap> {
        match status {
            Status::Ongoing => before.turn_swaps(direction),
            Status::Over { .. } => Seq::empty(),
        }
    }

    /// Plays one turn in `direction`. Onto a snake cell the game ends, won
    /// if the snake has filled the board. Onto an empty cell the snake
    /// slides. Onto food it grows, one food is placed anew where there is
    /// room, and the game is won if no room is left. A game that is over
    /// stays as it is and gives its outcome again.
    pub fn advance(&mut self, direction: Direction) -> (status: Status)
        requires
            old(self).state@.wf(),
        ensures
            status == final(self).status,
            final(self).state@ == Self::next(old(self).state@, old(self).status, direction).0,
            final(self).status == Self::next(old(self).state@, old(self).status, direction).1,
            final(self).state@.wf(),
            final(self).velocity == old(self).velocity,
            final(self).told(
                old(self),
                Self::next_swaps(old(self).state@, old(self).status, direction),
            ),
            *final(final(self).view) == *final(old(self).view),
            *final(final(self).controller) == *final(old(self).controller),
    {
        let ghost start = self.state@;
        let ghost heard = (*self.view).heard();
        if let Status::Over { .. } = self.status {
            proof {
                lemma_grown_nothing(heard);
            }
            return self.status;
        }
        proof {
            lemma_head_on_grid(start, direction);
        }
        let next_head = self.get_next_head(&direction);
        let status = match self.state.board.at(&next_head) {
            Cell::Empty(empty_index) => {
                proof {
                    lemma_slide_steps(start, direction);
                    lemma_slide_wf(start, direction);
                }
                self.remove_empty(&next_head, empty_index);
                let length = self.state.snake.len();
                let entry = if length > 1 {
                    self.cut_behind(length - 2);
                    self.update_last_head(&direction);
                    Some(direction.opposite())
                } else {
                    None
                };
                self.remove_last_tail();
                self.push_snake(next_head, entry);
                assert(self.state@ == start.slide(direction));
                assert(grown(heard, (*self.view).heard(), start.slide_swaps(direction))) by {
                    if let Some(record) = heard {
                        assert((*self.view).heard()->0 =~= record + start.slide_swaps(direction));
                    }
                }
                Status::Ongoing
            },
            Cell::Foods(foods_index) => {
                proof {
                    lemma_grow_steps(start, direction);
                    lemma_grow_wf(start, direction);
                }
                self.remove_foods(&next_head, foods_index);
                self.update_last_head(&direction);
                self.push_snake(next_head, Some(direction.opposite()));
                let _ = self.insert_food();
                assert(self.state@ == start.grow(direction));
                assert(grown(heard, (*self.view).heard(), start.grow_swaps(direction))) by {
                    if let Some(record) = heard {
                        assert((*self.view).heard()->0 =~= record + start.grow_swaps(direction));
                    }
                }
                self.check_is_won_status()
            },
            Cell::Snake(_) => {
                proof {
                    lemma_grown_nothing(heard);
                }
                Status::Over { is_won: self.state.empty.is_empty() && self.state.foods.is_empty() }
            },
        };
        self.status = status;
        status
    }

    /// Asks the input source for a direction and plays one turn in it. A
    /// game that is over stays as it is and gives its outcome again; the
    /// input source is not asked.
    pub fn iterate_turn(&mut self) -> (status: Status)
        requires
            old(self).state@.wf(),
            old(self).status is Ongoing ==> (*old(self).controller).ready(),
        ensures
            status == final(self).status,
            final(self).state@.wf(),
            final(self).velocity == old(self).velocity,
            old(self).status is Over ==> {
                &&& final(self).state == old(self).state
                &&& final(self).told(old(self), Seq::empty())
            },
            exists|direction: Direction|
                {
                    &&& ((*old(self).controller).planned() matches Some(planned) ==> direction
                        == planned)
                    &&& final(self).state@ == (#[trigger] Self::next(
                        old(self).state@,
                        old(self).status,
                        direction,
                    )).0
                    &&& final(self).status == Self::next(
                        old(self).state@,
                        old(self).status,
                        direction,
                    ).1
                    &&& grown(
                        (*old(self).view).heard(),
                        (*final(self).view).heard(),
                        Self::next_swaps(old(self).state@, old(self).status, direction),
                    )
                },
            *final(final(self).view) == *final(old(self).view),
            *final(final(self).controller) == *final(old(self).controller),
    {
        if let Status::Over { .. } = self.status {
            proof {
                lemma_grown_nothing((*self.view).heard());
                let witness = match (*self.controller).planned() {
                    Some(planned) => planned,
                    None => Direction::Right,
                };
                assert(self.state@ == Self::next(old(self).state@, old(self).status, witness).0);
            }
            return self.status;
        }
        let direction = self.controller.get_direction();
        let status = self.advance(direction);
        assert(self.state@ == Self::next(old(self).state@, old(self).status, direction).0);
        status
    }

    /// Sets the heading, unless it lies in the plane of the current one.
    /// The state of the board is not touched either way.
    pub fn set_direction(&mut self, direction: Direction) -> (accepted: Result<
        (),
        InvalidDirection,
    >)
        ensures
            accepted is Ok <==> old(self).velocity.admits(direction),
            accepted is Ok ==> final(self).velocity == Velocity::of(direction),
            accepted is Err ==> final(self).velocity == old(self).velocity,
            final(self).state == old(self).state,
            final(self).status == old(self).status,
            final(self).told(old(self), Seq::empty()),
            *final(final(self).view) == *final(old(self).view),
            *final(final(self).controller) == *final(old(self).controller),
    {
        proof {
            lemma_grown_nothing((*self.view).heard());
        }
        let velocity = Velocity::from_direction(&direction);
        if self.velocity.is_moving() && velocity.is_vertical() == self.velocity.is_vertical() {
            Err(InvalidDirection)
        } else {
            self.velocity = velocity;
            Ok(())
        }
    }

    /// The board drawn row by row, each row ended by a line feed.
    pub fn to_string(&self) -> (text: String)
        ensures
            text@ == crate::grid::grid_text(self.state@.cells, N_COLS as int, N_ROWS as int),
    {
        self.state.board.to_string()
    }

    /// Carries out `command` unless the game is over: a new heading is set
    /// where it is admitted, and a turn is played in the direction that the
    /// input source gives.
    pub fn handle(&mut self, command: Command) -> (handled: Result<(), Error>)
        requires
            old(self).state@.wf(),
            (old(self).status is Ongoing && command is IterateTurn)
                ==> (*old(self).controller).ready(),
        ensures
            final(self).state@.wf(),
            old(self).status is Over ==> {
                &&& handled matches Err(Error::GameIsOver)
                &&& final(self).state == old(self).state
                &&& final(self).status == old(self).status
                &&& final(self).velocity == old(self).velocity
                &&& final(self).told(old(self), Seq::empty())
            },
            old(self).status is Ongoing ==> match command {
                Command::SetDirection(direction) => {
                    &&& handled is Ok <==> old(self).velocity.admits(direction)
                    &&& handled matches Err(error) ==> error is InvalidDirection
                    &&& final(self).velocity == if handled is Ok {
                        Velocity::of(direction)
                    } else {
                        old(self).velocity
                    }
                    &&& final(self).state == old(self).state
                    &&& final(self).status == old(self).status
                    &&& final(self).told(old(self), Seq::empty())
                },
                Command::IterateTurn => {
                    &&& handled is Ok
                    &&& final(self).velocity == old(self).velocity
                    &&& exists|direction: Direction|
                        {
                            &&& ((*old(self).controller).planned() matches Some(planned)
                                ==> direction == planned)
                            &&& final(self).state@ == (#[trigger] old(self).state@.turn(
                                direction,
                            )).0
                            &&& final(self).status == old(self).state@.turn(direction).1
                            &&& grown(
                                (*old(self).view).heard(),
                                (*final(self).view).heard(),
                                old(self).state@.turn_swaps(direction),
                            )
                        }
                },
            },
            *final(final(self).view) == *final(old(self).view),
            *final(final(self).controller) == *final(old(self).controller),
    {
        if let Status::Over { .. } = self.status {
            proof {
                lemma_grown_nothing((*self.view).heard());
            }
            return Err(Error::GameIsOver);
        }
        match command {
            Command::SetDirection(direction) => match self.set_direction(direction) {
                Ok(()) => Ok(()),
                Err(_) => Err(Error::InvalidDirection),
            },
            Command::IterateTurn => {
                self.iterate_turn();
                Ok(())
            },
        }
    }

    /// Whether another turn can be played.
    pub fn check_status(&self) -> (playable: Result<(), GameIsOver>)
        ensures
            playable is Ok <==> self.status is Ongoing,
    {
        match self.status {
            Status::Ongoing => Ok(()),
            Status::Over { .. } => Err(GameIsOver),
        }
    }
}

impl<'a, const N_ROWS: usize, const N_COLS: usize, C: Controller, V: crate::view::View> GameState<
    'a,
    N_ROWS,
    N_COLS,
    C,
    V,
> {
    /// `game` is a new game with `n_foods` foods: a start state stocked by
    /// its generator, whose seed is `seed` where that is fixed, with an
    /// observer that had heard `heard` and was then told of each food.
    pub open spec fn made(
        game: Self,
        n_foods: usize,
        seed: Option<u64>,
        heard: Option<Seq<Swap>>,
    ) -> bool {
        &&& game.status == Status::Ongoing
        &&& game.velocity == Velocity(0, 0)
        &&& game.state@.wf()
        &&& game.state@.foods.len() == n_foods
        &&& exists|start: Model|
            {
                &&& start.is_start()
                &&& start.rows == N_ROWS
                &&& start.cols == N_COLS
                &&& start.rng.position == 0
                &&& (seed matches Some(fixed) ==> start.rng.seed == fixed)
                &&& game.state@ == #[trigger] start.stocked(n_foods as nat)
                &&& grown(heard, (*game.view).heard(), start.stocked_swaps(n_foods as nat))
            }
    }

    /// A new game of `options`; see `Options::build`.
    pub fn from_options(
        options: &Options<N_ROWS, N_COLS>,
        controller: &'a mut C,
        view: &'a mut V,
    ) -> (game: GameState<'a, N_ROWS, N_COLS, C, V>)
        requires
            N_ROWS * N_COLS <= usize::MAX,
            options.valid(),
        ensures
            Self::made(game, options.n_foods, options.seeder.fixed(), (*old(view)).heard()),
            *game.controller == *old(controller),
            *final(game.view) == *final(view),
            *final(game.controller) == *final(controller),
    {
        let board = Board::<N_ROWS, N_COLS>::default();
        let rng = options.seeder.get_rng();
        proof {
            assert(N_ROWS > 0 && N_COLS > 0) by (nonlinear_arith)
                requires
                    N_ROWS * N_COLS >= 1,
            ;
            assert(crate::model::starting_cells(board@, N_ROWS as int, N_COLS as int));
            lemma_start_walk(
                board@,
                N_ROWS as int,
                N_COLS as int,
                Board::<N_ROWS, N_COLS>::reach(),
            );
        }
        let ghost view_end = *final(view);
        let ghost controller_end = *final(controller);
        let ghost controller_start = *controller;
        let mut game = GameState::from_board(board, controller, view, rng);
        let ghost start = game.state@;
        let ghost heard = (*game.view).heard();
        proof {
            lemma_start_wf(start);
            lemma_grown_nothing(heard);
        }
        let mut placed: usize = 0;
        while placed < options.n_foods
            invariant
                placed <= options.n_foods,
                options.n_foods < N_ROWS * N_COLS,
                start.is_start(),
                start.wf(),
                start.empty.len() == N_ROWS * N_COLS - 1,
                game.state@ == start.stocked(placed as nat),
                game.state@.wf(),
                game.state@.empty.len() + placed == start.empty.len(),
                game.state@.foods.len() == placed,
                game.status == Status::Ongoing,
                game.velocity == Velocity(0, 0),
                grown(heard, (*game.view).heard(), start.stocked_swaps(placed as nat)),
                *game.controller == controller_start,
                *final(game.view) == view_end,
                *final(game.controller) == controller_end,
            decreases options.n_foods - placed,
        {
            let ghost before = game.state@;
            let ghost told = (*game.view).heard();
            proof {
                lemma_insert_food_wf(before);
            }
            let _ = game.insert_food();
            placed += 1;
            proof {
                lemma_grown_twice(
                    heard,
                    told,
                    (*game.view).heard(),
                    start.stocked_swaps((placed - 1) as nat),
                    before.food_swaps(),
                );
            }
        }
        game
    }
}

} // verus!
