//! What the reports of a turn are good for: an observer that draws them
//! into its picture of the board, one after the other, has the board after
//! the turn before its eyes.
use vstd::prelude::*;

use crate::data_transfer_objects as dto;
use crate::model::{food_swap, swap_at, Model, Swap};
use crate::validity::{lemma_eat_wf, lemma_head_on_grid};
use crate::value_objects::{Cell, Direction, Position};

verus! {

/// What an observer sees of the cells: each cell without its index.
pub open spec fn shown(cells: Map<Position, Cell>) -> Map<dto::Position, dto::Cell> {
    Map::new(
        |q: dto::Position| cells.dom().contains(Position(q.0, q.1)),
        |q: dto::Position| cells[Position(q.0, q.1)].dto(),
    )
}

/// A picture after the reports in `swaps` were drawn into it, in order.
pub open spec fn redrawn(picture: Map<dto::Position, dto::Cell>, swaps: Seq<Swap>) -> Map<
    dto::Position,
    dto::Cell,
>
    decreases swaps.len(),
{
    if swaps.len() == 0 {
        picture
    } else {
        redrawn(picture, swaps.drop_last()).insert(swaps.last().0, swaps.last().2)
    }
}

/// Each report in `swaps` names as the old content of its cell what the
/// picture shows there when the report is drawn.
pub open spec fn faithful(picture: Map<dto::Position, dto::Cell>, swaps: Seq<Swap>) -> bool
    decreases swaps.len(),
{
    swaps.len() == 0 || {
        let drawn = redrawn(picture, swaps.drop_last());
        &&& faithful(picture, swaps.drop_last())
        &&& drawn.dom().contains(swaps.last().0)
        &&& drawn[swaps.last().0] == swaps.last().1
    }
}

/// No report leaves the picture as it is.
pub proof fn lemma_redrawn_nothing(picture: Map<dto::Position, dto::Cell>)
    ensures
        redrawn(picture, Seq::empty()) == picture,
        faithful(picture, Seq::empty()),
{
}

/// Drawing two runs of reports one after the other is drawing them as one
/// run.
pub proof fn lemma_redrawn_twice(
    picture: Map<dto::Position, dto::Cell>,
    first: Seq<Swap>,
    second: Seq<Swap>,
)
    ensures
        redrawn(picture, first + second) == redrawn(redrawn(picture, first), second),
        faithful(picture, first + second) <==> faithful(picture, first) && faithful(
            redrawn(picture, first),
            second,
        ),
    decreases second.len(),
{
    if second.len() == 0 {
        assert(first + second =~= first);
    } else {
        lemma_redrawn_twice(picture, first, second.drop_last());
        assert((first + second).drop_last() =~= first + second.drop_last());
        assert((first + second).last() == second.last());
    }
}

/// One report is drawn by overwriting its cell.
pub proof fn lemma_redrawn_one(picture: Map<dto::Position, dto::Cell>, swap: Swap)
    ensures
        redrawn(picture, seq![swap]) == picture.insert(swap.0, swap.2),
        faithful(picture, seq![swap]) <==> picture.dom().contains(swap.0) && picture[swap.0]
            == swap.1,
{
    reveal_with_fuel(redrawn, 2);
    reveal_with_fuel(faithful, 2);
    assert(seq![swap].drop_last() =~= Seq::<Swap>::empty());
    assert(seq![swap].last() == swap);
}

/// A change of one cell of the board is drawn by the report of it; a change
/// of its index alone cannot be seen.
pub proof fn lemma_change_redraws(before: Model, p: Position, cell: Cell)
    requires
        before.cells.dom().contains(p),
    ensures
        redrawn(
            shown(before.cells),
            seq![swap_at(before, before.with_cell(p, cell), p)],
        ) == shown(before.cells.insert(p, cell)),
        faithful(shown(before.cells), seq![swap_at(before, before.with_cell(p, cell), p)]),
        cell.dto() == before.cells[p].dto() ==> shown(before.cells.insert(p, cell)) == shown(
            before.cells,
        ),
{
    let after = before.with_cell(p, cell);
    let swap = swap_at(before, after, p);
    lemma_redrawn_one(shown(before.cells), swap);
    assert(shown(before.cells).insert(swap.0, swap.2) =~= shown(before.cells.insert(p, cell))) by {
        assert forall|q: dto::Position|
            shown(before.cells).insert(swap.0, swap.2).dom().contains(q) <==> shown(
                before.cells.insert(p, cell),
            ).dom().contains(q) by {
            if Position(q.0, q.1) == p {
                assert(q == swap.0);
            }
        }
        assert forall|q: dto::Position|
            shown(before.cells.insert(p, cell)).dom().contains(q) implies shown(
                before.cells,
            ).insert(swap.0, swap.2)[q] == shown(before.cells.insert(p, cell))[q] by {
            if Position(q.0, q.1) == p {
                assert(q == swap.0);
            }
        }
    }
    if cell.dto() == before.cells[p].dto() {
        assert(shown(before.cells.insert(p, cell)) =~= shown(before.cells)) by {
            assert forall|q: dto::Position|
                shown(before.cells.insert(p, cell)).dom().contains(q) <==> shown(
                    before.cells,
                ).dom().contains(q) by {}
        }
    }
}

/// Taking a position out of a list cannot be seen: the position that takes
/// its slot only changes its index.
proof fn lemma_removal_unseen(m: Model, i: int)
    requires
        m.wf(),
    ensures
        0 <= i < m.empty.len() ==> shown(m.remove_empty(i).cells) == shown(m.cells)
            && m.remove_empty(i).cells.dom() == m.cells.dom(),
        0 <= i < m.foods.len() ==> shown(m.remove_foods(i).cells) == shown(m.cells)
            && m.remove_foods(i).cells.dom() == m.cells.dom(),
{
    if 0 <= i < m.empty.len() {
        let last = m.empty.last();
        assert(m.cells[m.empty[m.empty.len() - 1]] == Cell::Empty((m.empty.len() - 1) as usize));
        assert(m.cells.dom().contains(last));
        lemma_change_redraws(m, last, Cell::Empty(i as usize));
        assert(m.cells.insert(last, Cell::Empty(i as usize)).dom() =~= m.cells.dom());
    }
    if 0 <= i < m.foods.len() {
        let last = m.foods.last();
        assert(m.cells[m.foods[m.foods.len() - 1]] == Cell::Foods((m.foods.len() - 1) as usize));
        assert(m.cells.dom().contains(last));
        lemma_change_redraws(m, last, Cell::Foods(i as usize));
        assert(m.cells.insert(last, Cell::Foods(i as usize)).dom() =~= m.cells.dom());
    }
}

/// Two changes of one cell each are drawn by the two reports of them.
proof fn lemma_two_changes_redraw(
    start: Model,
    p: Position,
    first: Cell,
    between: Model,
    q: Position,
    second: Cell,
)
    requires
        start.cells.dom().contains(p),
        start.cells.dom().contains(q),
        between.cells == start.cells.insert(p, first),
    ensures
        redrawn(
            shown(start.cells),
            seq![
                swap_at(start, between, p),
                swap_at(between, between.with_cell(q, second), q),
            ],
        ) == shown(between.cells.insert(q, second)),
        faithful(
            shown(start.cells),
            seq![
                swap_at(start, between, p),
                swap_at(between, between.with_cell(q, second), q),
            ],
        ),
{
    let one = swap_at(start, between, p);
    let two = swap_at(between, between.with_cell(q, second), q);
    lemma_change_redraws(start, p, first);
    assert(one == swap_at(start, start.with_cell(p, first), p));
    lemma_change_redraws(between, q, second);
    lemma_redrawn_twice(shown(start.cells), seq![one], seq![two]);
    assert(seq![one] + seq![two] =~= seq![one, two]);
}

/// The reports of a slide redraw the board.
pub proof fn lemma_slide_redraws(m: Model, d: Direction)
    requires
        m.wf(),
        m.cells[m.next_head(d)] is Empty,
    ensures
        redrawn(shown(m.cells), m.slide_swaps(d)) == shown(m.slide(d).cells),
        faithful(shown(m.cells), m.slide_swaps(d)),
{
    let n = m.snake.len() as int;
    let next = m.next_head(d);
    let i = m.cells[next]->Empty_0 as int;
    lemma_head_on_grid(m, d);
    assert(m.segment_linked(0));
    assert(m.segment_linked(n - 1));
    assert(0 <= i < m.empty.len());
    lemma_removal_unseen(m, i);
    let taken = m.remove_empty(i);
    let relinked = taken.relinked(d);
    let shortened = relinked.remove_last_tail();
    let after = m.slide(d);
    let tail = m.tail();
    assert(taken.cells.dom().contains(tail));
    assert(taken.cells.dom().contains(m.head()));
    assert(taken.cells.dom().contains(next));
    if n > 1 {
        assert(m.segment_linked(n - 2));
        let neighbour = m.snake[n - 2];
        assert(taken.cells.dom().contains(neighbour));
        let cut = taken.cut_behind(n - 2);
        lemma_two_changes_redraw(
            taken,
            neighbour,
            cut.cells[neighbour],
            cut,
            m.head(),
            relinked.cells[m.head()],
        );
        assert(relinked.cells =~= cut.cells.insert(m.head(), relinked.cells[m.head()]));
        assert(taken.relinked_swaps(d) =~= seq![
            swap_at(taken, cut, neighbour),
            swap_at(cut, cut.with_cell(m.head(), relinked.cells[m.head()]), m.head()),
        ]);
    } else {
        lemma_redrawn_nothing(shown(taken.cells));
    }
    assert(relinked.cells.dom() =~= m.cells.dom());
    let ends = seq![swap_at(relinked, shortened, tail), swap_at(shortened, after, next)];
    assert(redrawn(shown(relinked.cells), ends) == shown(after.cells) && faithful(
        shown(relinked.cells),
        ends,
    )) by {
        lemma_two_changes_redraw(
            relinked,
            tail,
            shortened.cells[tail],
            shortened,
            next,
            after.cells[next],
        );
        assert(after.cells =~= shortened.cells.insert(next, after.cells[next]));
        assert(ends =~= seq![
            swap_at(relinked, shortened, tail),
            swap_at(shortened, shortened.with_cell(next, after.cells[next]), next),
        ]);
    }
    lemma_redrawn_twice(shown(taken.cells), taken.relinked_swaps(d), ends);
}

/// The reports of eating and of the food placed anew redraw the board.
pub proof fn lemma_grow_redraws(m: Model, d: Direction)
    requires
        m.wf(),
        m.cells[m.next_head(d)] is Foods,
    ensures
        redrawn(shown(m.cells), m.grow_swaps(d)) == shown(m.grow(d).cells),
        faithful(shown(m.cells), m.grow_swaps(d)),
{
    let next = m.next_head(d);
    let i = m.cells[next]->Foods_0 as int;
    lemma_head_on_grid(m, d);
    assert(m.segment_linked(0));
    assert(0 <= i < m.foods.len());
    lemma_removal_unseen(m, i);
    let taken = m.remove_foods(i);
    let turned = taken.update_last_head(d);
    let eaten = m.eat(d);
    let moved = seq![swap_at(taken, turned, m.head()), swap_at(turned, eaten, next)];
    assert(redrawn(shown(taken.cells), moved) == shown(eaten.cells) && faithful(
        shown(taken.cells),
        moved,
    )) by {
        lemma_two_changes_redraw(
            taken,
            m.head(),
            turned.cells[m.head()],
            turned,
            next,
            eaten.cells[next],
        );
        assert(eaten.cells =~= turned.cells.insert(next, eaten.cells[next]));
        assert(moved =~= seq![
            swap_at(taken, turned, m.head()),
            swap_at(turned, turned.with_cell(next, eaten.cells[next]), next),
        ]);
    }
    lemma_eat_wf(m, d);
    lemma_food_redraws(eaten);
    lemma_redrawn_twice(shown(taken.cells), moved, eaten.food_swaps());
}

/// The report of a placed food redraws the board.
pub proof fn lemma_food_redraws(m: Model)
    requires
        m.wf(),
    ensures
        redrawn(shown(m.cells), m.food_swaps()) == shown(m.insert_food().cells),
        faithful(shown(m.cells), m.food_swaps()),
{
    if m.empty.len() == 0 {
        lemma_redrawn_nothing(shown(m.cells));
    } else {
        let j = m.rng.next_index(m.empty.len() as usize) as int;
        let p = m.empty[j];
        assert(m.cells[m.empty[j]] == Cell::Empty(j as usize));
        lemma_removal_unseen(m, j);
        let removed = m.remove_empty(j);
        let placed = Cell::Foods(m.foods.len() as usize);
        lemma_change_redraws(removed, p, placed);
        assert(swap_at(removed, removed.with_cell(p, placed), p) == food_swap(p)) by {
            assert(shown(removed.cells)[(p.0, p.1)] == shown(m.cells)[(p.0, p.1)]);
        }
        assert(m.insert_food().cells == removed.cells.insert(p, placed));
    }
}

/// The reports of a turn redraw the board: an observer that starts from
/// what the board shows and draws each report in order, finds in each the
/// old content of the cell as it has drawn it, and ends with what the board
/// shows after the turn.
pub proof fn lemma_turn_redraws(m: Model, d: Direction)
    requires
        m.wf(),
    ensures
        faithful(shown(m.cells), m.turn_swaps(d)),
        redrawn(shown(m.cells), m.turn_swaps(d)) == shown(m.turn(d).0.cells),
{
    match m.cells[m.next_head(d)] {
        Cell::Snake(_) => {
            lemma_redrawn_nothing(shown(m.cells));
        },
        Cell::Empty(_) => {
            lemma_slide_redraws(m, d);
        },
        Cell::Foods(_) => {
            lemma_grow_redraws(m, d);
        },
    }
}

} // verus!
