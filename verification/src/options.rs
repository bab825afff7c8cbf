//! What a game is made from: the number of foods and the source of the seed,
//! on a grid whose shape the type fixes.
use vstd::prelude::*;

use crate::controller::Controller;
use crate::game_state::GameState;
use crate::seeder::{MockSeeder, SecondsSeeder, Seeder};

verus! {

/// The grid has no room for the snake and the foods asked for.
#[derive(Debug)]
pub struct InvalidOptions;

/// The options of a game on a grid of `N_ROWS` by `N_COLS` cells.
pub struct Options<const N_ROWS: usize, const N_COLS: usize> {
    /// The number of foods that lie on the board at one time.
    pub n_foods: usize,
    /// Where the seed of the food placement comes from.
    pub seeder: Box<dyn Seeder>,
}

impl<const N_ROWS: usize, const N_COLS: usize> Options<N_ROWS, N_COLS> {
    /// Options whose seed is read off the clock.
    pub fn new(n_foods: usize) -> (options: Self)
        ensures
            options.n_foods == n_foods,
            options.seeder.fixed() is None,
    {
        Options { n_foods, seeder: Box::new(SecondsSeeder::SECONDS_SEEDER) }
    }

    /// Options whose seed is read off the clock.
    pub fn with_n_foods(n_foods: usize) -> (options: Self)
        ensures
            options.n_foods == n_foods,
            options.seeder.fixed() is None,
    {
        Self::new(n_foods)
    }

    /// Options with the given seed.
    pub fn with_seed(n_foods: usize, seed: u64) -> (options: Self)
        ensures
            options.n_foods == n_foods,
            options.seeder.fixed() == Some(seed),
    {
        Options { n_foods, seeder: Box::new(MockSeeder(seed)) }
    }

    /// Options with the given seed.
    pub fn with_mock_seeder(n_foods: usize, seed: u64) -> (options: Self)
        ensures
            options.n_foods == n_foods,
            options.seeder.fixed() == Some(seed),
    {
        Self::with_seed(n_foods, seed)
    }

    /// The grid has room for one snake segment and `n_foods` foods.
    pub open spec fn valid(&self) -> bool {
        N_ROWS * N_COLS >= self.n_foods + 1
    }

    /// A valid game of these options with the input source `controller`
    /// and the observer `view`: the snake is one segment in the centre and
    /// `n_foods` foods lie where the generator of the seed put them, one
    /// after the other. Fails where the grid has no room for them.
    pub fn build<'a, C: Controller, V: crate::view::View>(
        &self,
        controller: &'a mut C,
        view: &'a mut V,
    ) -> (built: Result<GameState<'a, N_ROWS, N_COLS, C, V>, InvalidOptions>)
        requires
            N_ROWS * N_COLS <= usize::MAX,
        ensures
            built is Ok <==> self.valid(),
            built matches Ok(game) ==> GameState::<N_ROWS, N_COLS, C, V>::made(
                game,
                self.n_foods,
                self.seeder.fixed(),
                (*old(view)).heard(),
            ) && *game.controller == *old(controller) && *final(game.view) == *final(view)
                && *final(game.controller) == *final(controller),
    {
        if self.is_valid() {
            Ok(GameState::from_options(self, controller, view))
        } else {
            Err(InvalidOptions)
        }
    }

    /// Whether the grid has room for one snake segment and `n_foods`
    /// foods.
    pub fn is_valid(&self) -> (valid: bool)
        requires
            N_ROWS * N_COLS <= usize::MAX,
        ensures
            valid == self.valid(),
    {
        self.n_foods < self.area()
    }

    /// The number of cells of the grid.
    pub fn area(&self) -> (area: usize)
        requires
            N_ROWS * N_COLS <= usize::MAX,
        ensures
            area == N_ROWS * N_COLS,
    {
        N_ROWS * N_COLS
    }

    /// The number of cells that the snake and the foods take at the start.
    pub fn n_non_empty(&self) -> (count: usize)
        requires
            self.n_foods < usize::MAX,
        ensures
            count == self.n_foods + 1,
    {
        let n_snake: usize = 1;
        self.n_foods + n_snake
    }
}

impl<const N_ROWS: usize, const N_COLS: usize> Default for Options<N_ROWS, N_COLS> {
    /// One food, and a seed read off the clock.
    fn default() -> (options: Self)
        ensures
            options.n_foods == 1,
            options.seeder.fixed() is None,
    {
        Self::new(1)
    }
}

} // verus!
