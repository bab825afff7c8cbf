//! An input source that never changes its mind.
use vstd::prelude::*;

use crate::controller::Controller;
use crate::value_objects::Direction;

verus! {

/// Always asks for the direction it holds.
#[derive(Clone, Copy, Debug)]
pub struct MockController(pub Direction);

impl Controller for MockController {
    open spec fn planned(&self) -> Option<Direction> {
        Some(self.0)
    }

    fn get_direction(&mut self) -> (direction: Direction)
        ensures
            *final(self) == *old(self),
    {
        self.0
    }
}

} // verus!
