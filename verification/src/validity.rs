//! The invariant of a game and the proofs that every rule of a turn keeps it.
use vstd::prelude::*;

use crate::grid::{
    center, first_head, holds, lemma_first_head, lemma_nth_position, lemma_nth_within,
    lemma_scan_step, lemma_shift_back, lemma_shifted_within, listed, nth_position, positions,
    precedes, stops_within, trail, within,
};
use crate::data_transfer_objects as dto;
use crate::model::{starting_cells, swap_removed, Model};
use crate::value_objects::{Cell, Direction, Path, Position};

verus! {

impl Model {
    /// The grid has cells, no more than a `usize` can count, and the cells
    /// are those of the grid.
    pub open spec fn shaped(self) -> bool {
        &&& 0 < self.rows <= usize::MAX
        &&& 0 < self.cols <= usize::MAX
        &&& self.rows * self.cols <= usize::MAX
        &&& forall|p: Position| self.cells.dom().contains(p) <==> self.in_bounds(p)
    }

    /// Every listed empty position holds `Empty` with its own index.
    pub open spec fn empty_indexed(self) -> bool {
        forall|i: int|
            0 <= i < self.empty.len() ==> self.in_bounds(#[trigger] self.empty[i])
                && self.cells[self.empty[i]] == Cell::Empty(i as usize)
    }

    /// Every listed food position holds `Foods` with its own index.
    pub open spec fn foods_indexed(self) -> bool {
        forall|i: int|
            0 <= i < self.foods.len() ==> self.in_bounds(#[trigger] self.foods[i])
                && self.cells[self.foods[i]] == Cell::Foods(i as usize)
    }

    /// Segment `i` of the body holds a snake cell whose `entry` leads to
    /// segment `i + 1` and whose `exit` leads to segment `i - 1`; the tail
    /// has no `entry` and the head no `exit`.
    pub open spec fn segment_linked(self, i: int) -> bool {
        let here = self.snake[i];
        let path = self.path_at(here);
        &&& self.in_bounds(here)
        &&& self.cells[here] is Snake
        &&& if i + 1 < self.snake.len() {
            path.entry is Some && self.moved(here, path.entry->0) == self.snake[i + 1]
        } else {
            path.entry is None
        }
        &&& if i > 0 {
            path.exit is Some && self.moved(here, path.exit->0) == self.snake[i - 1]
        } else {
            path.exit is None
        }
    }

    /// The body is one chain of linked segments from head to tail.
    pub open spec fn linked(self) -> bool {
        &&& self.snake.len() > 0
        &&& forall|i: int| 0 <= i < self.snake.len() ==> #[trigger] self.segment_linked(i)
    }

    /// No position occurs twice in the body.
    pub open spec fn simple(self) -> bool {
        forall|i: int, j: int|
            0 <= i < j < self.snake.len() ==> self.snake[i] != self.snake[j]
    }

    /// Every cell on the grid is accounted for: by the list and index it
    /// names, or by the body.
    pub open spec fn covered(self) -> bool {
        forall|p: Position|
            self.in_bounds(p) ==> match #[trigger] self.cells[p] {
                Cell::Empty(i) => i < self.empty.len() && self.empty[i as int] == p,
                Cell::Foods(i) => i < self.foods.len() && self.foods[i as int] == p,
                Cell::Snake(_) => self.snake.contains(p),
            }
    }

    /// Every body position lies on the grid and holds a snake cell.
    pub open spec fn body_on_snake(self) -> bool {
        forall|i: int|
            0 <= i < self.snake.len() ==> self.in_bounds(#[trigger] self.snake[i])
                && self.cells[self.snake[i]] is Snake
    }

    /// The cell at `p` is accounted for: by the list and index it names, or
    /// by the body.
    pub open spec fn accounted(self, p: Position) -> bool {
        match self.cells[p] {
            Cell::Empty(i) => i < self.empty.len() && self.empty[i as int] == p,
            Cell::Foods(i) => i < self.foods.len() && self.foods[i as int] == p,
            Cell::Snake(_) => self.snake.contains(p),
        }
    }

    /// The two lists and the body together hold as many positions as the
    /// grid has cells.
    pub open spec fn partitioned(self) -> bool {
        self.empty.len() + self.foods.len() + self.snake.len() == self.rows * self.cols
    }

    /// The invariant of a game: the cells are those of the grid, both
    /// lists and the cells they list refer to each other, the body is one
    /// chain without a loop, every cell is accounted for, and the lists and
    /// the body partition the grid.
    pub open spec fn wf(self) -> bool {
        &&& self.shaped()
        &&& self.empty_indexed()
        &&& self.foods_indexed()
        &&& self.linked()
        &&& self.simple()
        &&& self.covered()
        &&& self.partitioned()
    }
}

/// A body position holds a snake cell, so it is in neither list.
pub proof fn lemma_kinds_apart(m: Model, i: int)
    requires
        m.wf(),
        0 <= i < m.snake.len(),
    ensures
        m.in_bounds(m.snake[i]),
        m.cells[m.snake[i]] is Snake,
        forall|k: int| 0 <= k < m.empty.len() ==> m.empty[k] != m.snake[i],
        forall|k: int| 0 <= k < m.foods.len() ==> m.foods[k] != m.snake[i],
{
    assert(m.segment_linked(i));
}

/// Sliding onto an empty position keeps the invariant.
pub proof fn lemma_slide_wf(m: Model, d: Direction)
    requires
        m.wf(),
        m.cells[m.next_head(d)] is Empty,
    ensures
        m.slide(d).wf(),
        m.slide(d).snake == seq![m.next_head(d)] + m.snake.drop_last(),
        m.slide(d).empty == swap_removed(m.empty, m.cells[m.next_head(d)]->Empty_0 as int).push(
            m.tail(),
        ),
        m.slide(d).foods == m.foods,
{
    let n = m.snake.len() as int;
    let count = m.empty.len() as int;
    let next = m.next_head(d);
    let head = m.head();
    let tail = m.tail();
    let last = m.empty.last();
    let i = m.cells[next]->Empty_0 as int;
    let after = m.slide(d);
    assert(m.segment_linked(0));
    assert(m.segment_linked(n - 1));
    if n >= 2 {
        assert(m.segment_linked(n - 2));
    }
    lemma_shifted_within(head, d, m.rows, m.cols);
    lemma_shift_back(head, d, m.rows, m.cols);
    assert(m.in_bounds(next));
    assert(0 <= i < count && m.empty[i] == next);
    assert(m.cells[m.empty[i]] == Cell::Empty(i as usize));
    assert(m.cells[m.empty[count - 1]] == Cell::Empty((count - 1) as usize));
    assert(m.in_bounds(last));
    assert forall|k: int| 0 <= k < n implies m.snake[k] != next && m.snake[k] != last by {
        assert(m.segment_linked(k));
    }
    let taken = m.remove_empty(i);
    assert(taken.snake == m.snake);
    assert(taken.cells[tail] == m.cells[tail]);
    assert(taken.cells[head] == m.cells[head]);
    if n >= 2 {
        assert(taken.cells[m.snake[n - 2]] == m.cells[m.snake[n - 2]]);
        if n > 2 {
            assert(m.snake[0] != m.snake[n - 2]);
        }
        assert(m.snake[n - 2] != tail);
        assert(head != tail);
    }
    let relinked = taken.relinked(d);
    assert(relinked.snake == m.snake);
    assert(relinked.empty == taken.empty);
    assert(relinked.cells[tail] == m.cells[tail]);
    let shortened = relinked.remove_last_tail();
    assert(shortened.empty == swap_removed(m.empty, i).push(tail));
    assert(after.rows == m.rows && after.cols == m.cols);
    assert(after.empty == swap_removed(m.empty, i).push(tail));
    assert(after.snake =~= seq![next] + m.snake.drop_last());
    assert(after.foods == m.foods);
    assert(after.cells[next] == Cell::Snake(Path { entry: m.entry_for(d), exit: None }));
    assert(after.cells[tail] == Cell::Empty((count - 1) as usize));
    if i < count - 1 {
        assert(last != next);
        assert(after.cells[last] == Cell::Empty(i as usize));
    }
    if n >= 2 {
        assert(after.cells[head] == Cell::Snake(
            Path {
                entry: if n == 2 {
                    None
                } else {
                    m.path_at(head).entry
                },
                exit: Some(d),
            },
        ));
        assert(after.cells[m.snake[n - 2]] == Cell::Snake(
            Path {
                entry: None,
                exit: if n == 2 {
                    Some(d)
                } else {
                    m.path_at(m.snake[n - 2]).exit
                },
            },
        ));
    }
    // Every cell but those of the head, the two ends of the tail, `next` and the moved empty
    // position is as before.
    assert forall|p: Position|
        p != next && p != tail && p != head && p != last && (n < 2 || p != m.snake[n
            - 2]) implies after.cells[p] == m.cells[p] && (after.cells.dom().contains(p)
        <==> m.cells.dom().contains(p)) by {}
    assert(after.shaped()) by {
        assert forall|p: Position| after.cells.dom().contains(p) <==> after.in_bounds(p) by {
            if p == next {
                assert(after.cells.dom().contains(p));
            } else if p == tail {
                assert(after.cells.dom().contains(p));
                assert(after.in_bounds(p));
            } else if p == head {
                assert(m.cells.dom().contains(p));
                assert(after.cells.dom().contains(p));
                assert(after.in_bounds(p));
            } else if n >= 2 && p == m.snake[n - 2] {
                assert(after.cells.dom().contains(p));
                assert(after.in_bounds(p));
            } else if p == last {
                assert(m.cells.dom().contains(p));
                assert(after.cells.dom().contains(p));
                assert(after.in_bounds(p));
            } else {
                assert(after.cells.dom().contains(p) <==> m.cells.dom().contains(p));
                assert(m.cells.dom().contains(p) <==> m.in_bounds(p));
            }
        }
    }
    assert(after.empty_indexed()) by {
        assert forall|k: int| 0 <= k < after.empty.len() implies after.in_bounds(
            #[trigger] after.empty[k],
        ) && after.cells[after.empty[k]] == Cell::Empty(k as usize) by {
            if k == count - 1 {
                assert(after.empty[k] == tail);
            } else if k == i {
                assert(after.empty[k] == last);
            } else {
                let p = m.empty[k];
                assert(after.empty[k] == p);
                assert(m.cells[p] == Cell::Empty(k as usize));
                assert(p != next);
                assert(p != last);
                lemma_kinds_apart(m, n - 1);
                lemma_kinds_apart(m, 0);
                if n >= 2 {
                    lemma_kinds_apart(m, n - 2);
                }
            }
        }
    }
    assert(after.foods_indexed()) by {
        assert forall|k: int| 0 <= k < after.foods.len() implies after.in_bounds(
            #[trigger] after.foods[k],
        ) && after.cells[after.foods[k]] == Cell::Foods(k as usize) by {
            let p = m.foods[k];
            assert(m.cells[p] == Cell::Foods(k as usize));
            lemma_kinds_apart(m, n - 1);
            lemma_kinds_apart(m, 0);
            if n >= 2 {
                lemma_kinds_apart(m, n - 2);
            }
        }
    }
    assert(after.simple()) by {
        assert forall|a: int, b: int| 0 <= a < b < after.snake.len() implies after.snake[a]
            != after.snake[b] by {
            if a > 0 {
                assert(after.snake[a] == m.snake[a - 1]);
                assert(after.snake[b] == m.snake[b - 1]);
            } else {
                assert(after.snake[b] == m.snake[b - 1]);
            }
        }
    }
    assert(after.linked()) by {
        assert forall|k: int| 0 <= k < after.snake.len() implies #[trigger] after.segment_linked(
            k,
        ) by {
            if k == 0 {
                if n > 1 {
                    assert(after.snake[1] == head);
                }
            } else {
                assert(m.segment_linked(k - 1));
                assert(after.snake[k] == m.snake[k - 1]);
                if k >= 2 {
                    assert(after.snake[k - 1] == m.snake[k - 2]);
                }
                if k + 1 < n {
                    assert(after.snake[k + 1] == m.snake[k]);
                }
                let here = m.snake[k - 1];
                assert(here != next);
                assert(here != tail);
                assert(here != last);
                if k == 1 {
                    if n == 2 {
                        assert(here == m.snake[n - 2]);
                    } else {
                        assert(m.snake[0] != m.snake[n - 2]);
                    }
                } else {
                    assert(m.snake[0] != here);
                    if k - 1 != n - 2 {
                        assert(here != m.snake[n - 2]);
                    }
                }
            }
        }
    }
    assert(after.covered()) by {
        assert forall|p: Position| after.in_bounds(p) implies match #[trigger] after.cells[p] {
            Cell::Empty(k) => k < after.empty.len() && after.empty[k as int] == p,
            Cell::Foods(k) => k < after.foods.len() && after.foods[k as int] == p,
            Cell::Snake(_) => after.snake.contains(p),
        } by {
            if p == next {
                assert(after.snake[0] == p);
            } else if p == tail {
                assert(after.empty[count - 1] == p);
            } else if p == last {
                assert(after.empty[i] == p);
            } else {
                assert(m.in_bounds(p));
                match m.cells[p] {
                    Cell::Empty(k) => {
                        assert(after.cells[p] == m.cells[p]);
                        assert(k != i);
                        assert(k != count - 1);
                        assert(after.empty[k as int] == m.empty[k as int]);
                    },
                    Cell::Foods(k) => {
                        assert(after.cells[p] == m.cells[p]);
                    },
                    Cell::Snake(_) => {
                        assert(m.snake.contains(p));
                        let k = choose|k: int| 0 <= k < m.snake.len() && m.snake[k] == p;
                        assert(k < n - 1);
                        assert(after.snake[k + 1] == p);
                        assert(after.cells[p] is Snake);
                    },
                }
            }
        }
    }
}

/// Turning an empty position into food keeps the invariant.
pub proof fn lemma_place_food_wf(m: Model, j: int)
    requires
        m.wf(),
        0 <= j < m.empty.len(),
    ensures
        m.place_food(j).wf(),
        m.place_food(j).snake == m.snake,
        m.place_food(j).empty == swap_removed(m.empty, j),
        m.place_food(j).foods == m.foods.push(m.empty[j]),
{
    let after = m.place_food(j);
    let p = m.empty[j];
    let last = m.empty.last();
    let count = m.empty.len() as int;
    assert(m.cells[m.empty[j]] == Cell::Empty(j as usize));
    assert(m.cells[m.empty[count - 1]] == Cell::Empty((count - 1) as usize));
    assert(after.rows == m.rows && after.cols == m.cols);
    assert(after.cells[p] == Cell::Foods(m.foods.len() as usize));
    if j < count - 1 {
        assert(last != p);
        assert(after.cells[last] == Cell::Empty(j as usize));
    }
    assert forall|q: Position| q != p && q != last implies after.cells[q] == m.cells[q] && (
    after.cells.dom().contains(q) <==> m.cells.dom().contains(q)) by {}
    assert(after.shaped()) by {
        assert forall|q: Position| after.cells.dom().contains(q) <==> after.in_bounds(q) by {
            if q == p {
                assert(after.cells.dom().contains(q));
            } else if q == last {
                assert(m.cells.dom().contains(q));
                assert(after.cells.dom().contains(q));
            } else {
                assert(after.cells.dom().contains(q) <==> m.cells.dom().contains(q));
                assert(m.cells.dom().contains(q) <==> m.in_bounds(q));
            }
        }
    }
    assert(after.empty_indexed()) by {
        assert forall|k: int| 0 <= k < after.empty.len() implies after.in_bounds(
            #[trigger] after.empty[k],
        ) && after.cells[after.empty[k]] == Cell::Empty(k as usize) by {
            if k != j {
                let q = m.empty[k];
                assert(after.empty[k] == q);
                assert(m.cells[q] == Cell::Empty(k as usize));
            }
        }
    }
    assert(after.foods_indexed()) by {
        assert forall|k: int| 0 <= k < after.foods.len() implies after.in_bounds(
            #[trigger] after.foods[k],
        ) && after.cells[after.foods[k]] == Cell::Foods(k as usize) by {
            if k < m.foods.len() {
                let q = m.foods[k];
                assert(m.cells[q] == Cell::Foods(k as usize));
            }
        }
    }
    assert(after.linked()) by {
        assert forall|k: int| 0 <= k < after.snake.len() implies #[trigger] after.segment_linked(
            k,
        ) by {
            assert(m.segment_linked(k));
        }
    }
    assert(after.covered()) by {
        assert forall|q: Position| after.in_bounds(q) implies match #[trigger] after.cells[q] {
            Cell::Empty(k) => k < after.empty.len() && after.empty[k as int] == q,
            Cell::Foods(k) => k < after.foods.len() && after.foods[k as int] == q,
            Cell::Snake(_) => after.snake.contains(q),
        } by {
            if q == p {
                assert(after.foods[m.foods.len() as int] == q);
            } else if q == last {
            } else {
                assert(m.in_bounds(q));
                match m.cells[q] {
                    Cell::Empty(k) => {
                        assert(k != j);
                        assert(k != count - 1);
                    },
                    Cell::Foods(k) => {},
                    Cell::Snake(_) => {},
                }
            }
        }
    }
}

/// Moving the head onto a food position, the tail staying, keeps the
/// invariant.
pub proof fn lemma_eat_wf(m: Model, d: Direction)
    requires
        m.wf(),
        m.cells[m.next_head(d)] is Foods,
    ensures
        m.eat(d).wf(),
        m.eat(d).snake == seq![m.next_head(d)] + m.snake,
        m.eat(d).empty == m.empty,
        m.eat(d).foods == swap_removed(m.foods, m.cells[m.next_head(d)]->Foods_0 as int),
{
    let n = m.snake.len() as int;
    let next = m.next_head(d);
    let head = m.head();
    let i = m.cells[next]->Foods_0 as int;
    let count = m.foods.len() as int;
    let taken = m.remove_foods(i);
    let turned = taken.update_last_head(d);
    let after = m.eat(d);
    assert(m.segment_linked(0));
    lemma_shifted_within(head, d, m.rows, m.cols);
    lemma_shift_back(head, d, m.rows, m.cols);
    assert(m.in_bounds(next));
    assert(0 <= i < count && m.foods[i] == next);
    let last = m.foods.last();
    assert(m.cells[m.foods[i]] == Cell::Foods(i as usize));
    assert(m.cells[m.foods[count - 1]] == Cell::Foods((count - 1) as usize));
    assert forall|k: int| 0 <= k < n implies m.snake[k] != next && m.snake[k] != last by {
        assert(m.segment_linked(k));
    }
    assert(taken.cells[head] == m.cells[head]);
    assert(after.rows == m.rows && after.cols == m.cols);
    assert(after.snake =~= seq![next] + m.snake);
    assert(after.empty == m.empty);
    assert(after.foods == swap_removed(m.foods, i));
    assert(after.cells[next] == Cell::Snake(Path { entry: Some(d.reversed()), exit: None }));
    assert(after.cells[head] == Cell::Snake(
        Path { entry: m.path_at(head).entry, exit: Some(d) },
    ));
    if i < count - 1 {
        assert(last != next);
        assert(after.cells[last] == Cell::Foods(i as usize));
    }
    assert forall|q: Position| q != next && q != last && q != head implies after.cells[q]
        == m.cells[q] && (after.cells.dom().contains(q) <==> m.cells.dom().contains(q)) by {}
    assert(after.shaped()) by {
        assert forall|q: Position| after.cells.dom().contains(q) <==> after.in_bounds(q) by {
            if q == next {
                assert(after.cells.dom().contains(q));
            } else if q == last {
                assert(m.cells.dom().contains(q));
                assert(after.cells.dom().contains(q));
            } else if q == head {
                assert(after.cells.dom().contains(q));
            } else {
                assert(after.cells.dom().contains(q) <==> m.cells.dom().contains(q));
                assert(m.cells.dom().contains(q) <==> m.in_bounds(q));
            }
        }
    }
    assert(after.empty_indexed()) by {
        assert forall|k: int| 0 <= k < after.empty.len() implies after.in_bounds(
            #[trigger] after.empty[k],
        ) && after.cells[after.empty[k]] == Cell::Empty(k as usize) by {
            let q = m.empty[k];
            assert(m.cells[q] == Cell::Empty(k as usize));
        }
    }
    assert(after.foods_indexed()) by {
        assert forall|k: int| 0 <= k < after.foods.len() implies after.in_bounds(
            #[trigger] after.foods[k],
        ) && after.cells[after.foods[k]] == Cell::Foods(k as usize) by {
            if k != i {
                let q = m.foods[k];
                assert(after.foods[k] == q);
                assert(m.cells[q] == Cell::Foods(k as usize));
            }
        }
    }
    assert(after.simple()) by {
        assert forall|a: int, b: int| 0 <= a < b < after.snake.len() implies after.snake[a]
            != after.snake[b] by {
            assert(after.snake[b] == m.snake[b - 1]);
            if a > 0 {
                assert(after.snake[a] == m.snake[a - 1]);
            }
        }
    }
    assert(after.linked()) by {
        assert forall|k: int| 0 <= k < after.snake.len() implies #[trigger] after.segment_linked(
            k,
        ) by {
            if k == 0 {
                assert(after.snake[1] == head);
            } else {
                assert(m.segment_linked(k - 1));
                assert(after.snake[k] == m.snake[k - 1]);
                assert(after.snake[k - 1] == if k == 1 {
                    next
                } else {
                    m.snake[k - 2]
                });
                if k < n {
                    assert(after.snake[k + 1] == m.snake[k]);
                }
                if k > 1 {
                    assert(m.snake[0] != m.snake[k - 1]);
                }
            }
        }
    }
    assert(after.covered()) by {
        assert forall|q: Position| after.in_bounds(q) implies match #[trigger] after.cells[q] {
            Cell::Empty(k) => k < after.empty.len() && after.empty[k as int] == q,
            Cell::Foods(k) => k < after.foods.len() && after.foods[k as int] == q,
            Cell::Snake(_) => after.snake.contains(q),
        } by {
            if q == next {
                assert(after.snake[0] == q);
            } else if q == last {
            } else if q == head {
                assert(after.snake[1] == q);
            } else {
                assert(m.in_bounds(q));
                match m.cells[q] {
                    Cell::Empty(k) => {},
                    Cell::Foods(k) => {
                        assert(k != i);
                        assert(k != count - 1);
                    },
                    Cell::Snake(_) => {
                        assert(m.snake.contains(q));
                        let k = choose|k: int| 0 <= k < m.snake.len() && m.snake[k] == q;
                        assert(after.snake[k + 1] == q);
                    },
                }
            }
        }
    }
}

/// The invariant does not speak of the generator.
pub proof fn lemma_wf_any_rng(m: Model, other: Model)
    requires
        m.wf(),
        other == (Model { rng: other.rng, ..m }),
    ensures
        other.wf(),
{
    assert forall|k: int| 0 <= k < other.snake.len() implies #[trigger] other.segment_linked(
        k,
    ) by {
        assert(m.segment_linked(k));
    }
    assert forall|k: int| 0 <= k < other.empty.len() implies other.in_bounds(
        #[trigger] other.empty[k],
    ) && other.cells[other.empty[k]] == Cell::Empty(k as usize) by {
        assert(m.in_bounds(m.empty[k]));
    }
    assert forall|k: int| 0 <= k < other.foods.len() implies other.in_bounds(
        #[trigger] other.foods[k],
    ) && other.cells[other.foods[k]] == Cell::Foods(k as usize) by {
        assert(m.in_bounds(m.foods[k]));
    }
    assert forall|q: Position| other.in_bounds(q) implies match #[trigger] other.cells[q] {
        Cell::Empty(k) => k < other.empty.len() && other.empty[k as int] == q,
        Cell::Foods(k) => k < other.foods.len() && other.foods[k as int] == q,
        Cell::Snake(_) => other.snake.contains(q),
    } by {
        assert(m.in_bounds(q));
    }
    assert forall|q: Position| other.cells.dom().contains(q) <==> other.in_bounds(q) by {
        assert(m.cells.dom().contains(q) <==> m.in_bounds(q));
    }
}

/// Placing a food where the generator says keeps the invariant.
pub proof fn lemma_insert_food_wf(m: Model)
    requires
        m.wf(),
    ensures
        m.insert_food().wf(),
        m.insert_food().snake == m.snake,
        m.insert_food().empty.len() + m.insert_food().foods.len() == m.empty.len()
            + m.foods.len(),
        m.empty.len() > 0 ==> m.insert_food().foods.len() == m.foods.len() + 1,
{
    if m.empty.len() > 0 {
        let bound = m.empty.len() as usize;
        lemma_place_food_wf(m, m.rng.next_index(bound) as int);
        lemma_wf_any_rng(m.place_food(m.rng.next_index(bound) as int), m.insert_food());
    }
}

/// Eating a food keeps the invariant: the body grows by the new head and
/// the list of empty positions does not grow.
pub proof fn lemma_grow_wf(m: Model, d: Direction)
    requires
        m.wf(),
        m.cells[m.next_head(d)] is Foods,
    ensures
        m.grow(d).wf(),
        m.grow(d).snake == seq![m.next_head(d)] + m.snake,
        m.grow(d).empty.len() <= m.empty.len(),
{
    lemma_eat_wf(m, d);
    lemma_insert_food_wf(m.eat(d));
}

/// In a valid game the head lies on the grid, and so does the position it
/// moves to.
pub proof fn lemma_head_on_grid(m: Model, d: Direction)
    requires
        m.wf(),
    ensures
        m.has_head(),
        m.in_bounds(m.next_head(d)),
{
    assert(m.segment_linked(0));
    lemma_shifted_within(m.head(), d, m.rows, m.cols);
}

/// In a valid game every step of a slide finds what it needs: a position
/// that can leave the list of empty positions, segments to relink, and a
/// tail that can leave.
pub proof fn lemma_slide_steps(m: Model, d: Direction)
    requires
        m.wf(),
        m.cells[m.next_head(d)] is Empty,
    ensures
        m.removable(m.empty, m.next_head(d), m.cells[m.next_head(d)]->Empty_0 as int),
        m.snake.len() > 1 ==> {
            let taken = m.remove_empty(m.cells[m.next_head(d)]->Empty_0 as int);
            &&& taken.has_segment(m.snake.len() - 2)
            &&& taken.cut_behind(m.snake.len() - 2).has_open_head()
        },
        m.remove_empty(m.cells[m.next_head(d)]->Empty_0 as int).relinked(d).has_tail(),
{
    let n = m.snake.len() as int;
    let count = m.empty.len() as int;
    let next = m.next_head(d);
    let i = m.cells[next]->Empty_0 as int;
    lemma_head_on_grid(m, d);
    assert(m.segment_linked(0));
    assert(m.segment_linked(n - 1));
    assert(0 <= i < count && m.empty[i] == next);
    assert(m.in_bounds(m.empty[count - 1]));
    assert(m.cells[m.empty[count - 1]] == Cell::Empty((count - 1) as usize));
    assert forall|k: int| 0 <= k < n implies m.snake[k] != m.empty.last() by {
        assert(m.segment_linked(k));
    }
    let taken = m.remove_empty(i);
    assert(taken.snake == m.snake);
    assert(taken.cells[m.tail()] == m.cells[m.tail()]);
    assert(taken.cells[m.head()] == m.cells[m.head()]);
    if n > 1 {
        assert(m.segment_linked(n - 2));
        assert(taken.cells[m.snake[n - 2]] == m.cells[m.snake[n - 2]]);
        assert(m.snake[n - 2] != m.tail());
        assert(m.head() != m.tail());
        if n > 2 {
            assert(m.snake[0] != m.snake[n - 2]);
        }
    }
}

/// In a valid game every step of eating finds what it needs: a position
/// that can leave the list of food positions, a head to relink, and empty
/// positions on the grid for the new food.
pub proof fn lemma_grow_steps(m: Model, d: Direction)
    requires
        m.wf(),
        m.cells[m.next_head(d)] is Foods,
    ensures
        m.removable(m.foods, m.next_head(d), m.cells[m.next_head(d)]->Foods_0 as int),
        m.remove_foods(m.cells[m.next_head(d)]->Foods_0 as int).has_open_head(),
        m.eat(d).empty_on_board(),
{
    let next = m.next_head(d);
    let i = m.cells[next]->Foods_0 as int;
    let count = m.foods.len() as int;
    lemma_head_on_grid(m, d);
    lemma_eat_wf(m, d);
    assert(m.segment_linked(0));
    assert(0 <= i < count && m.foods[i] == next);
    assert(m.in_bounds(m.foods[count - 1]));
    assert(m.cells[m.foods[count - 1]] == Cell::Foods((count - 1) as usize));
    assert(m.head() != m.foods.last());
    let eaten = m.eat(d);
    assert forall|k: int| 0 <= k < eaten.empty.len() implies eaten.in_bounds(
        #[trigger] eaten.empty[k],
    ) by {}
}

/// Every position but the centre is counted once among the first `k`.
proof fn lemma_count_but_center(
    rows: int,
    cols: int,
    k: int,
    pred: spec_fn(Position) -> bool,
)
    requires
        0 < rows <= usize::MAX,
        0 < cols <= usize::MAX,
        0 <= k <= rows * cols,
        forall|index: int|
            0 <= index < rows * cols ==> pred(#[trigger] nth_position(index, cols)) == (index
                != (rows / 2) * cols + cols / 2),
    ensures
        positions(rows, cols).take(k).filter(pred).len() == if k <= (rows / 2) * cols + cols / 2 {
            k
        } else {
            k - 1
        },
    decreases k,
{
    let all = positions(rows, cols);
    if k == 0 {
        reveal(Seq::filter);
        assert(all.take(0).filter(pred) =~= Seq::<Position>::empty());
    } else {
        lemma_count_but_center(rows, cols, k - 1, pred);
        lemma_scan_step(all, k - 1, pred);
        assert(all[k - 1] == nth_position(k - 1, cols));
    }
}

/// A flat index names the centre only if it is the flat index of the
/// centre.
proof fn lemma_center_index(rows: int, cols: int, index: int)
    requires
        0 < rows <= usize::MAX,
        0 < cols <= usize::MAX,
        0 <= index < rows * cols,
    ensures
        nth_position(index, cols) == center(rows, cols) <==> index == (rows / 2) * cols + cols / 2,
{
    lemma_nth_within(index, rows, cols);
    lemma_nth_position(rows / 2, cols / 2, rows, cols);
    if nth_position(index, cols) == center(rows, cols) {
        vstd::arithmetic::div_mod::lemma_fundamental_div_mod(index, cols);
        assert(index / cols == rows / 2);
        assert(index % cols == cols / 2);
        assert(cols * (index / cols) == (rows / 2) * cols) by (nonlinear_arith)
            requires
                index / cols == rows / 2,
        ;
    }
}

/// A new game is valid.
pub proof fn lemma_start_wf(m: Model)
    requires
        m.is_start(),
    ensures
        m.wf(),
        m.empty.len() == m.rows * m.cols - 1,
{
    let all = positions(m.rows, m.cols);
    let pred = holds(m.cells, false);
    let middle = center(m.rows, m.cols);
    assert(m.in_bounds(middle));
    assert(m.cells[middle].dto() == dto::Cell::Snake(Path { entry: None, exit: None }));
    assert forall|index: int| 0 <= index < m.rows * m.cols implies pred(
        #[trigger] nth_position(index, m.cols),
    ) == (index != (m.rows / 2) * m.cols + m.cols / 2) by {
        lemma_center_index(m.rows, m.cols, index);
        lemma_nth_within(index, m.rows, m.cols);
        let p = nth_position(index, m.cols);
        assert(m.in_bounds(p));
        assert(m.cells[p].dto() == (if p == middle {
            dto::Cell::Snake(Path { entry: None, exit: None })
        } else {
            dto::Cell::Empty
        }));
    }
    lemma_count_but_center(m.rows, m.cols, m.rows * m.cols, pred);
    assert(all.take(m.rows * m.cols) =~= all);
    lemma_nth_position(m.rows / 2, m.cols / 2, m.rows, m.cols);
    assert(m.partitioned());
    assert forall|k: int| 0 <= k < m.empty.len() implies m.in_bounds(#[trigger] m.empty[k])
        && m.cells[m.empty[k]] == Cell::Empty(k as usize) by {
        all.lemma_filter_contains_rev(pred, m.empty[k]);
        let index = choose|index: int| 0 <= index < all.len() && all[index] == m.empty[k];
        lemma_nth_within(index, m.rows, m.cols);
    }
    assert(m.segment_linked(0));
    assert forall|p: Position| m.in_bounds(p) implies match #[trigger] m.cells[p] {
        Cell::Empty(i) => i < m.empty.len() && m.empty[i as int] == p,
        Cell::Foods(i) => i < m.foods.len() && m.foods[i as int] == p,
        Cell::Snake(_) => m.snake.contains(p),
    } by {
        assert(m.cells[p].dto() == (if p == middle {
            dto::Cell::Snake(Path { entry: None, exit: None })
        } else {
            dto::Cell::Empty
        }));
        if p == middle {
            assert(m.snake[0] == p);
        } else {
            lemma_nth_position(p.0 as int, p.1 as int, m.rows, m.cols);
            let index = p.0 * m.cols + p.1;
            assert(all[index] == p);
            all.lemma_filter_contains(pred, index);
            let k = choose|k: int| 0 <= k < m.empty.len() && m.empty[k] == p;
            assert(m.cells[m.empty[k]] == Cell::Empty(k as usize));
        }
    }
}

/// The board of a new game can be walked: its head is the centre, and the
/// walk ends there.
pub proof fn lemma_start_walk(cells: Map<Position, Cell>, rows: int, cols: int, fuel: nat)
    requires
        0 < rows <= usize::MAX,
        0 < cols <= usize::MAX,
        starting_cells(cells, rows, cols),
    ensures
        first_head(cells) == Some(center(rows, cols)),
        stops_within(cells, center(rows, cols), rows, cols, fuel),
        trail(cells, center(rows, cols), rows, cols, fuel) == seq![center(rows, cols)],
        listed(cells, rows, cols, true).len() == 0,
{
    let middle = center(rows, cols);
    assert(within(middle, rows, cols));
    assert(cells[middle].dto() == dto::Cell::Snake(Path { entry: None, exit: None }));
    assert forall|q: Position| precedes(q, middle) implies !crate::grid::head_at(cells, q) by {
        if cells.dom().contains(q) {
            assert(cells[q].dto() == dto::Cell::Empty);
        }
    }
    lemma_first_head(cells, middle);
    let all = positions(rows, cols);
    let pred = holds(cells, true);
    if all.filter(pred).len() > 0 {
        let p = all.filter(pred)[0];
        all.lemma_filter_pred(pred, 0);
        all.lemma_filter_contains_rev(pred, p);
        let index = choose|index: int| 0 <= index < all.len() && all[index] == p;
        lemma_nth_within(index, rows, cols);
        assert(within(p, rows, cols));
        assert(cells[p].dto() == (if p == middle {
            dto::Cell::Snake(Path { entry: None, exit: None })
        } else {
            dto::Cell::Empty
        }));
    }
}

/// A linked body visits no position twice: two equal positions would hold
/// one cell, and following its `entry` link from both would reach the tail
/// at two different distances.
pub proof fn lemma_linked_simple(m: Model)
    requires
        m.linked(),
    ensures
        m.simple(),
{
    assert forall|i: int, j: int| 0 <= i < j < m.snake.len() implies m.snake[i] != m.snake[j] by {
        lemma_apart(m, i, j);
    }
}

proof fn lemma_apart(m: Model, i: int, j: int)
    requires
        m.linked(),
        0 <= i < j < m.snake.len(),
    ensures
        m.snake[i] != m.snake[j],
    decreases m.snake.len() - j,
{
    assert(m.segment_linked(i));
    assert(m.segment_linked(j));
    if m.snake[i] == m.snake[j] && j + 1 < m.snake.len() {
        lemma_apart(m, i + 1, j + 1);
    }
}

} // verus!
