//! An input source that steers at random across the plane it started in.
use vstd::prelude::*;

use crate::controller::Controller;
use crate::generator::Generator;
use crate::seeder::Seeder;
use crate::value_objects::Direction;

verus! {

/// Asks for random directions, but never for a change within the plane of
/// the direction it started with.
#[derive(Clone, Copy, Debug)]
pub struct RandomController {
    pub direction: Direction,
    pub rng: Generator,
}

impl RandomController {
    /// The direction to ask for when `sampled` was drawn: `sampled` across
    /// the plane of `current`, else `current`.
    pub open spec fn chosen(current: Direction, sampled: Direction) -> Direction {
        if current.plane() == sampled.plane() {
            current
        } else {
            sampled
        }
    }

    /// A controller whose generator starts from the seed of `seeder` and
    /// whose first direction is the first draw.
    pub fn new(seeder: &mut dyn Seeder) -> (controller: RandomController)
        ensures
            old(seeder).fixed() matches Some(seed) ==> {
                let start = Generator { seed, position: 0 };
                &&& controller.direction == Direction::numbered(start.next_small(4))
                &&& controller.rng == start.advanced_small(4)
            },
    {
        Self::seeded(seeder.get_seed())
    }

    /// A controller whose generator starts from `seed` and whose first
    /// direction is the first draw.
    pub fn seeded(seed: u64) -> (controller: RandomController)
        ensures
            controller.direction == Direction::numbered(
                (Generator { seed, position: 0 }).next_small(4),
            ),
            controller.rng == (Generator { seed, position: 0 }).advanced_small(4),
    {
        let mut rng = Generator::from_seed(seed);
        let direction = Direction::sample(&mut rng);
        RandomController { direction, rng }
    }
}

impl Controller for RandomController {
    open spec fn planned(&self) -> Option<Direction> {
        Some(Self::chosen(self.direction, Direction::numbered(self.rng.next_small(4))))
    }

    fn get_direction(&mut self) -> (direction: Direction)
        ensures
            final(self).direction == old(self).direction,
            final(self).rng == old(self).rng.advanced_small(4),
    {
        let direction = Direction::sample(&mut self.rng);
        if self.direction.get_plane() == direction.get_plane() {
            self.direction
        } else {
            direction
        }
    }
}

} // verus!
