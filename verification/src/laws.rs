//! What holds of every game: the laws that follow from the rules of a turn.
use vstd::prelude::*;

use crate::grid::{
    first_head, head_at, holds, hop, lemma_filter_agree, lemma_first_head, lemma_nth_position,
    lemma_nth_within, lemma_shifted_within, lemma_wrap, listed, positions, shifted, stops_within,
    trail, within,
};
use crate::model::Model;
use crate::validity::{
    lemma_grow_wf, lemma_insert_food_wf, lemma_slide_wf, lemma_start_wf,
};
use crate::value_objects::{Cell, Direction, Position};

verus! {

/// Every turn keeps the invariant: the back-references of both lists, the
/// chain of the body, and the partition of the grid into empty, food and
/// snake positions.
pub proof fn lemma_turn_wf(m: Model, d: Direction)
    requires
        m.wf(),
    ensures
        m.turn(d).0.wf(),
{
    assert(m.segment_linked(0));
    lemma_shifted_within(m.head(), d, m.rows, m.cols);
    match m.cells[m.next_head(d)] {
        Cell::Snake(_) => {},
        Cell::Empty(_) => {
            lemma_slide_wf(m, d);
        },
        Cell::Foods(_) => {
            lemma_grow_wf(m, d);
        },
    }
}

/// A run of turns keeps the invariant at every turn.
pub proof fn lemma_run_wf(m: Model, directions: Seq<Direction>)
    requires
        m.wf(),
    ensures
        m.run(directions).0.wf(),
    decreases directions.len(),
{
    if directions.len() > 0 {
        lemma_run_wf(m, directions.drop_last());
        let (before, status) = m.run(directions.drop_last());
        if status is Ongoing {
            lemma_turn_wf(before, directions.last());
        }
    }
}

/// A new game is valid however many foods are placed on it.
pub proof fn lemma_stocked_wf(start: Model, n_foods: nat)
    requires
        start.is_start(),
    ensures
        start.stocked(n_foods).wf(),
    decreases n_foods,
{
    if n_foods == 0 {
        lemma_start_wf(start);
    } else {
        lemma_stocked_wf(start, (n_foods - 1) as nat);
        lemma_insert_food_wf(start.stocked((n_foods - 1) as nat));
    }
}

/// From its making on, a game is valid after every turn.
pub proof fn lemma_game_wf(start: Model, n_foods: nat, directions: Seq<Direction>)
    requires
        start.is_start(),
    ensures
        start.stocked(n_foods).run(directions).0.wf(),
{
    lemma_stocked_wf(start, n_foods);
    lemma_run_wf(start.stocked(n_foods), directions);
}

/// In a valid game the lists and the body always hold as many positions as
/// the grid has cells.
pub proof fn lemma_partition(m: Model, directions: Seq<Direction>)
    requires
        m.wf(),
    ensures
        m.run(directions).0.empty.len() + m.run(directions).0.foods.len() + m.run(
            directions,
        ).0.snake.len() == m.rows * m.cols,
{
    lemma_run_wf(m, directions);
    let after = m.run(directions).0;
    assert(after.rows == m.rows && after.cols == m.cols) by {
        lemma_run_shape(m, directions);
    }
}

/// A run of turns does not change the shape of the grid.
pub proof fn lemma_run_shape(m: Model, directions: Seq<Direction>)
    ensures
        m.run(directions).0.rows == m.rows,
        m.run(directions).0.cols == m.cols,
    decreases directions.len(),
{
    if directions.len() > 0 {
        lemma_run_shape(m, directions.drop_last());
    }
}

/// Movement wraps around every edge: a step off the first row lands on the
/// last row of the same column, a step off the last row on the first, and
/// likewise for the columns; away from the edges a step moves by one.
pub proof fn lemma_wraparound(p: Position, rows: int, cols: int)
    requires
        within(p, rows, cols),
        rows <= usize::MAX,
        cols <= usize::MAX,
    ensures
        shifted(p, Direction::Up, rows, cols) == Position(
            if p.0 == 0 {
                (rows - 1) as usize
            } else {
                (p.0 - 1) as usize
            },
            p.1,
        ),
        shifted(p, Direction::Down, rows, cols) == Position(
            if p.0 == rows - 1 {
                0
            } else {
                (p.0 + 1) as usize
            },
            p.1,
        ),
        shifted(p, Direction::Left, rows, cols) == Position(
            p.0,
            if p.1 == 0 {
                (cols - 1) as usize
            } else {
                (p.1 - 1) as usize
            },
        ),
        shifted(p, Direction::Right, rows, cols) == Position(
            p.0,
            if p.1 == cols - 1 {
                0
            } else {
                (p.1 + 1) as usize
            },
        ),
{
    lemma_wrap(p.0 as int, -1, rows);
    lemma_wrap(p.0 as int, 0, rows);
    lemma_wrap(p.0 as int, 1, rows);
    lemma_wrap(p.1 as int, -1, cols);
    lemma_wrap(p.1 as int, 0, cols);
    lemma_wrap(p.1 as int, 1, cols);
}

/// A slide keeps every length: the body gains the new head and loses the
/// tail, the new head leaves the list of empty positions by a swap-remove
/// and the tail is listed last. Eating lengthens the body by the new head
/// and takes one position from the two lists together. A move onto the
/// body changes nothing.
pub proof fn lemma_turn_lengths(m: Model, d: Direction)
    requires
        m.wf(),
    ensures
        m.cells[m.next_head(d)] is Empty ==> {
            &&& m.turn(d).0.snake == seq![m.next_head(d)] + m.snake.drop_last()
            &&& m.turn(d).0.empty == crate::model::swap_removed(
                m.empty,
                m.cells[m.next_head(d)]->Empty_0 as int,
            ).push(m.tail())
            &&& m.turn(d).0.empty.len() == m.empty.len()
            &&& m.turn(d).0.foods == m.foods
        },
        m.cells[m.next_head(d)] is Foods ==> {
            &&& m.turn(d).0.snake == seq![m.next_head(d)] + m.snake
            &&& m.turn(d).0.empty.len() + m.turn(d).0.foods.len() == m.empty.len() + m.foods.len()
                - 1
        },
        m.cells[m.next_head(d)] is Snake ==> m.turn(d).0 == m,
{
    match m.cells[m.next_head(d)] {
        Cell::Empty(_) => {
            lemma_slide_wf(m, d);
        },
        Cell::Foods(_) => {
            lemma_grow_wf(m, d);
            let after = m.grow(d);
            assert(after.rows == m.rows && after.cols == m.cols);
        },
        Cell::Snake(_) => {},
    }
}

/// From segment `i` on, the `entry` links of a valid game lead through the
/// rest of the body and stop at the tail.
pub proof fn lemma_trail_from(m: Model, i: int, fuel: nat)
    requires
        m.wf(),
        0 <= i < m.snake.len(),
        fuel >= m.snake.len() - 1 - i,
    ensures
        stops_within(m.cells, m.snake[i], m.rows, m.cols, fuel),
        trail(m.cells, m.snake[i], m.rows, m.cols, fuel) == m.snake.subrange(
            i,
            m.snake.len() as int,
        ),
    decreases m.snake.len() - i,
{
    assert(m.segment_linked(i));
    let here = m.snake[i];
    let n = m.snake.len() as int;
    if i + 1 < n {
        assert(hop(m.cells, here, m.rows, m.cols) == Some(m.snake[i + 1]));
        lemma_trail_from(m, i + 1, (fuel - 1) as nat);
        assert(seq![here] + m.snake.subrange(i + 1, n) =~= m.snake.subrange(i, n));
    } else {
        assert(hop(m.cells, here, m.rows, m.cols) is None);
        assert(seq![here] =~= m.snake.subrange(i, n));
    }
}

/// The body can be read off the cells of a valid game: the only cell
/// without an `exit` link is the head, and the chain of `entry` links from
/// it visits the body in order and reaches the only cell without an `entry`
/// link, the tail, after one hop less than the body has segments.
pub proof fn lemma_chain(m: Model)
    requires
        m.wf(),
    ensures
        first_head(m.cells) == Some(m.head()),
        forall|p: Position| head_at(m.cells, p) ==> p == m.head(),
        stops_within(m.cells, m.head(), m.rows, m.cols, (m.rows * m.cols) as nat),
        trail(m.cells, m.head(), m.rows, m.cols, (m.rows * m.cols) as nat) == m.snake,
        trail(m.cells, m.head(), m.rows, m.cols, (m.rows * m.cols) as nat).len() - 1
            == m.snake.len() - 1,
        trail(m.cells, m.head(), m.rows, m.cols, (m.rows * m.cols) as nat).last() == m.tail(),
        m.path_at(m.tail()).entry is None,
        forall|i: int|
            0 <= i < m.snake.len() - 1 ==> m.path_at(#[trigger] m.snake[i]).entry is Some,
{
    assert(m.segment_linked(0));
    assert(m.segment_linked(m.snake.len() - 1));
    assert forall|p: Position| head_at(m.cells, p) implies p == m.head() by {
        assert(m.in_bounds(p));
        assert(m.snake.contains(p));
        let k = choose|k: int| 0 <= k < m.snake.len() && m.snake[k] == p;
        assert(m.segment_linked(k));
    }
    lemma_first_head(m.cells, m.head());
    lemma_trail_from(m, 0, (m.rows * m.cols) as nat);
    assert forall|i: int| 0 <= i < m.snake.len() - 1 implies m.path_at(
        #[trigger] m.snake[i],
    ).entry is Some by {
        assert(m.segment_linked(i));
    }
    assert(m.snake.subrange(0, m.snake.len() as int) =~= m.snake);
}

/// There is one new game for each shape and generator.
pub proof fn lemma_start_unique(a: Model, b: Model)
    requires
        a.is_start(),
        b.is_start(),
        a.rows == b.rows,
        a.cols == b.cols,
        a.rng == b.rng,
    ensures
        a == b,
{
    let all = positions(a.rows, a.cols);
    let middle = crate::grid::center(a.rows, a.cols);
    assert forall|k: int| 0 <= k < all.len() implies holds(a.cells, false)(#[trigger] all[k])
        == holds(b.cells, false)(all[k]) by {
        lemma_nth_within(k, a.rows, a.cols);
        let p = all[k];
        assert(within(p, a.rows, a.cols));
        assert(a.cells[p].dto() == b.cells[p].dto());
    }
    lemma_filter_agree(all, holds(a.cells, false), holds(b.cells, false));
    assert(a.empty == b.empty);
    assert forall|p: Position| a.cells.dom().contains(p) implies a.cells[p] == b.cells[p] by {
        assert(within(p, a.rows, a.cols));
        assert(a.cells[p].dto() == b.cells[p].dto());
        if p != middle {
            lemma_nth_position(p.0 as int, p.1 as int, a.rows, a.cols);
            let index = p.0 * a.cols + p.1;
            assert(all[index] == p);
            all.lemma_filter_contains(holds(a.cells, false), index);
            let k = choose|k: int| 0 <= k < a.empty.len() && a.empty[k] == p;
            assert(a.cells[listed(a.cells, a.rows, a.cols, false)[k]] == Cell::Empty(k as usize));
            assert(b.cells[listed(b.cells, b.rows, b.cols, false)[k]] == Cell::Empty(k as usize));
        }
    }
    assert(a.cells =~= b.cells);
    assert(a.foods =~= b.foods);
    assert(a =~= b);
}

/// A game is decided by its shape, its seed, its number of foods and the
/// directions asked for: two new games that agree in these agree in every
/// cell, in both lists, in the body and in the outcome after every turn.
pub proof fn lemma_determinism(a: Model, b: Model, n_foods: nat, directions: Seq<Direction>)
    requires
        a.is_start(),
        b.is_start(),
        a.rows == b.rows,
        a.cols == b.cols,
        a.rng == b.rng,
    ensures
        a.stocked(n_foods) == b.stocked(n_foods),
        forall|turns: int|
            0 <= turns <= directions.len() ==> a.stocked(n_foods).run(directions.take(turns))
                == b.stocked(n_foods).run(#[trigger] directions.take(turns)),
{
    lemma_start_unique(a, b);
}

} // verus!
