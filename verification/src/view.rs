//! The observer of a game: it is told of every cell whose content changed.
use vstd::prelude::*;

use crate::data_transfer_objects as dto;
use crate::model::Swap;

verus! {

/// An observer that had heard `before` has heard `after` once it was told of
/// `swaps`: where it keeps a record, the record grew by them.
pub open spec fn grown(
    before: Option<Seq<Swap>>,
    after: Option<Seq<Swap>>,
    swaps: Seq<Swap>,
) -> bool {
    before matches Some(heard) ==> after == Some(heard + swaps)
}

/// Being told of nothing leaves the record as it is.
pub proof fn lemma_grown_nothing(heard: Option<Seq<Swap>>)
    ensures
        grown(heard, heard, Seq::empty()),
{
    if let Some(record) = heard {
        assert(record + Seq::<Swap>::empty() =~= record);
    }
}

/// Being told of one run of changes and then of another is being told of
/// both, in order.
pub proof fn lemma_grown_twice(
    before: Option<Seq<Swap>>,
    between: Option<Seq<Swap>>,
    after: Option<Seq<Swap>>,
    first: Seq<Swap>,
    second: Seq<Swap>,
)
    requires
        grown(before, between, first),
        grown(between, after, second),
    ensures
        grown(before, after, first + second),
{
    if let Some(record) = before {
        assert((record + first) + second =~= record + (first + second));
    }
}

/// An observer of cell changes.
pub trait View {
    /// Every change this observer has been told of, oldest first, where it
    /// keeps a record of them.
    open spec fn heard(&self) -> Option<Seq<Swap>> {
        None
    }

    /// Tells the observer that the cell at `position` held `before` and
    /// holds `after`.
    fn swap_cell(&mut self, position: &dto::Position, before: dto::Cell, after: dto::Cell)
        ensures
            grown(old(self).heard(), final(self).heard(), seq![(*position, before, after)]),
    ;
}

/// An observer that records what it is told.
#[derive(Default, Debug)]
pub struct MockView(pub Vec<(dto::Position, dto::Cell, dto::Cell)>);

impl View for MockView {
    open spec fn heard(&self) -> Option<Seq<Swap>> {
        Some(vstd::view::View::view(&self.0))
    }

    fn swap_cell(&mut self, position: &dto::Position, before: dto::Cell, after: dto::Cell) {
        self.0.push((*position, before, after));
        assert(vstd::view::View::view(&self.0) =~= vstd::view::View::view(&old(self).0) + seq![
            (*position, before, after),
        ]);
    }
}

} // verus!
