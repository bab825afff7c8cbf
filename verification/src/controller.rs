//! The input source of a game: it names the direction of each turn.
use std::collections::VecDeque;
use vstd::prelude::*;

use crate::direction::Direction;
use crate::generator::Generator;
use crate::seeder::{SecondsSeeder, Seeder};

pub mod mock_controller;
pub mod random_controller;

verus! {

/// A source of directions, asked once per turn.
pub trait Controller {
    /// The source can be asked for a direction.
    open spec fn ready(&self) -> bool {
        true
    }

    /// The direction that the next call gives, where the state of the
    /// source decides it.
    open spec fn planned(&self) -> Option<Direction> {
        None
    }

    fn get_direction(&mut self) -> (direction: Direction)
        requires
            old(self).ready(),
        ensures
            old(self).planned() matches Some(planned) ==> direction == planned,
    ;
}

/// Asks for the directions it holds, one after the other.
#[derive(Clone, Debug)]
pub struct MockController {
    pub directions: VecDeque<Direction>,
}

impl Controller for MockController {
    /// There are directions left.
    open spec fn ready(&self) -> bool {
        self.directions@.len() > 0
    }

    open spec fn planned(&self) -> Option<Direction> {
        if self.directions@.len() > 0 {
            Some(self.directions@[0])
        } else {
            None
        }
    }

    fn get_direction(&mut self) -> (direction: Direction)
        ensures
            direction == old(self).directions@[0],
            final(self).directions@ == old(self).directions@.drop_first(),
    {
        self.directions.pop_front().unwrap()
    }
}

impl MockController {
    pub fn new(directions: VecDeque<Direction>) -> (controller: MockController)
        ensures
            controller.directions == directions,
    {
        MockController { directions }
    }

    pub fn empty() -> (controller: MockController)
        ensures
            controller.directions@.len() == 0,
    {
        MockController { directions: VecDeque::new() }
    }
}

/// A `Controller` that randomly gives a `Direction`
#[derive(Clone, Copy, Debug)]
pub struct RandomController {
    pub rng: Generator,
}

impl RandomController {
    /// The direction that a number below four stands for.
    pub open spec fn numbered(number: u32) -> Direction {
        if number == 0 {
            Direction::Up
        } else if number == 1 {
            Direction::Left
        } else if number == 2 {
            Direction::Right
        } else {
            Direction::Down
        }
    }

    /// Creates a new `Controller` with the given seed
    pub fn new(seed: u64) -> (controller: RandomController)
        ensures
            controller.rng == (Generator { seed, position: 0 }),
    {
        let rng = Generator::from_seed(seed);
        RandomController { rng }
    }
}

impl Controller for RandomController {
    open spec fn planned(&self) -> Option<Direction> {
        Some(Self::numbered(self.rng.next_small(4)))
    }

    fn get_direction(&mut self) -> (direction: Direction)
        ensures
            final(self).rng == old(self).rng.advanced_small(4),
    {
        match self.rng.gen_small(4) {
            0 => Direction::Up,
            1 => Direction::Left,
            2 => Direction::Right,
            _ => Direction::Down,
        }
    }
}

impl Default for RandomController {
    /// Creates a new `Controller` seeded with system time
    fn default() -> (controller: Self)
        ensures
            controller.rng.position == 0,
    {
        RandomController::new(SecondsSeeder::SECONDS_SEEDER.get_seed())
    }
}

} // verus!
