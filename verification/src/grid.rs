//! The geometry of the grid: positions in row-major order, steps that wrap
//! around the edges, and what can be read off the cells alone: the lists of
//! empty and of food positions, the head, and the trail of the body behind it.
use vstd::arithmetic::div_mod::lemma_fundamental_div_mod_converse;
use vstd::prelude::*;

use crate::value_objects::{Cell, Direction, Path, Position};

verus! {

/// `p` lies on a grid of `rows` by `cols` cells.
pub open spec fn within(p: Position, rows: int, cols: int) -> bool {
    p.0 < rows && p.1 < cols
}

/// The position one step from `p` in direction `d`, each axis taken modulo
/// its bound: leaving the grid on one edge enters it on the opposite edge.
pub open spec fn shifted(p: Position, d: Direction, rows: int, cols: int) -> Position {
    Position(((p.0 + d.row_delta()) % rows) as usize, ((p.1 + d.col_delta()) % cols) as usize)
}

/// Row-major order: `a` is scanned strictly before `b`.
pub open spec fn precedes(a: Position, b: Position) -> bool {
    a.0 < b.0 || (a.0 == b.0 && a.1 < b.1)
}

/// The `k`-th position of a grid with `cols` columns in row-major order.
pub open spec fn nth_position(k: int, cols: int) -> Position {
    Position((k / cols) as usize, (k % cols) as usize)
}

/// All positions of the grid in row-major order.
pub open spec fn positions(rows: int, cols: int) -> Seq<Position> {
    Seq::new((rows * cols) as nat, |k: int| nth_position(k, cols))
}

/// The cell at `p` is a snake segment without an `exit` link.
pub open spec fn head_at(cells: Map<Position, Cell>, p: Position) -> bool {
    &&& cells.dom().contains(p)
    &&& cells[p] matches Cell::Snake(path)
    &&& path.exit is None
}

/// Where the `entry` link of the segment at `p` leads, if it has one.
pub open spec fn hop(cells: Map<Position, Cell>, p: Position, rows: int, cols: int) -> Option<
    Position,
> {
    if cells.dom().contains(p) {
        match cells[p] {
            Cell::Snake(Path { entry: Some(d), exit: _ }) => Some(shifted(p, d, rows, cols)),
            _ => None,
        }
    } else {
        None
    }
}

/// Following `entry` links from `p` ends at a cell without one after at most
/// `fuel` hops.
pub open spec fn stops_within(
    cells: Map<Position, Cell>,
    p: Position,
    rows: int,
    cols: int,
    fuel: nat,
) -> bool
    decreases fuel,
{
    match hop(cells, p, rows, cols) {
        None => true,
        Some(q) => fuel > 0 && stops_within(cells, q, rows, cols, (fuel - 1) as nat),
    }
}

/// The positions visited by following `entry` links from `p`, `p` first, for
/// at most `fuel` hops.
pub open spec fn trail(
    cells: Map<Position, Cell>,
    p: Position,
    rows: int,
    cols: int,
    fuel: nat,
) -> Seq<Position>
    decreases fuel,
{
    match hop(cells, p, rows, cols) {
        Some(q) if fuel > 0 => seq![p] + trail(cells, q, rows, cols, (fuel - 1) as nat),
        _ => seq![p],
    }
}

/// A step on the torus stays on the grid.
pub proof fn lemma_shifted_within(p: Position, d: Direction, rows: int, cols: int)
    requires
        within(p, rows, cols),
        rows <= usize::MAX,
        cols <= usize::MAX,
    ensures
        within(shifted(p, d, rows, cols), rows, cols),
        shifted(p, d, rows, cols).0 == (p.0 + d.row_delta()) % rows,
        shifted(p, d, rows, cols).1 == (p.1 + d.col_delta()) % cols,
{
    let r = p.0 + d.row_delta();
    let c = p.1 + d.col_delta();
    assert(0 <= r % rows < rows) by (nonlinear_arith)
        requires
            rows > 0,
    ;
    assert(0 <= c % cols < cols) by (nonlinear_arith)
        requires
            cols > 0,
    ;
}

/// One coordinate of a step: inside the axis it moves by `delta`, and at
/// either end it wraps to the other.
pub proof fn lemma_wrap(x: int, delta: int, n: int)
    requires
        0 <= x < n,
        -1 <= delta <= 1,
    ensures
        (x + delta) % n == if x + delta < 0 {
            n - 1
        } else if x + delta >= n {
            0
        } else {
            x + delta
        },
{
    if x + delta < 0 {
        lemma_fundamental_div_mod_converse(x + delta, n, -1, n - 1);
    } else if x + delta >= n {
        lemma_fundamental_div_mod_converse(x + delta, n, 1, 0);
    } else {
        lemma_fundamental_div_mod_converse(x + delta, n, 0, x + delta);
    }
}

/// Selects the positions whose cell is `Foods`, if `foods`, else `Empty`.
pub open spec fn holds(cells: Map<Position, Cell>, foods: bool) -> spec_fn(Position) -> bool {
    |p: Position|
        if foods {
            cells[p] is Foods
        } else {
            cells[p] is Empty
        }
}

/// The positions of one kind of cell, in row-major order.
pub open spec fn listed(cells: Map<Position, Cell>, rows: int, cols: int, foods: bool) -> Seq<
    Position,
> {
    positions(rows, cols).filter(holds(cells, foods))
}

/// `p` holds a head and no position before it in row-major order does.
pub open spec fn is_first_head(cells: Map<Position, Cell>, p: Position) -> bool {
    &&& head_at(cells, p)
    &&& forall|q: Position| precedes(q, p) ==> !head_at(cells, q)
}

/// The first position in row-major order that holds a head, if any does.
pub open spec fn first_head(cells: Map<Position, Cell>) -> Option<Position> {
    if exists|p: Position| is_first_head(cells, p) {
        Some(choose|p: Position| is_first_head(cells, p))
    } else {
        None
    }
}

/// The flat index of row `i`, column `j` is `i * cols + j`.
pub proof fn lemma_nth_position(i: int, j: int, rows: int, cols: int)
    requires
        0 <= i < rows,
        0 <= j < cols,
        rows <= usize::MAX,
        cols <= usize::MAX,
    ensures
        0 <= i * cols + j < rows * cols,
        nth_position(i * cols + j, cols) == Position(i as usize, j as usize),
{
    assert(0 <= i * cols && i * cols + cols <= rows * cols) by (nonlinear_arith)
        requires
            0 <= i < rows,
            0 < cols,
    ;
    lemma_fundamental_div_mod_converse(i * cols + j, cols, i, j);
}

/// Scanning one more position appends it to the filtered prefix exactly when
/// the predicate selects it.
pub proof fn lemma_scan_step(all: Seq<Position>, k: int, pred: spec_fn(Position) -> bool)
    requires
        0 <= k < all.len(),
    ensures
        all.take(k + 1).filter(pred) == if pred(all[k]) {
            all.take(k).filter(pred).push(all[k])
        } else {
            all.take(k).filter(pred)
        },
{
    reveal(Seq::filter);
    assert(all.take(k + 1).drop_last() =~= all.take(k));
}

/// A head that no head precedes is the first head.
pub proof fn lemma_first_head(cells: Map<Position, Cell>, p: Position)
    requires
        is_first_head(cells, p),
    ensures
        first_head(cells) == Some(p),
{
    let c = choose|c: Position| is_first_head(cells, c);
    if c != p {
        assert(precedes(c, p) || precedes(p, c));
    }
}

/// The cell in the middle of the grid, where a new snake starts.
pub open spec fn center(rows: int, cols: int) -> Position {
    Position((rows / 2) as usize, (cols / 2) as usize)
}

/// Every `Empty` and every `Foods` cell carries its rank among the cells of
/// its kind in row-major order.
pub open spec fn numbered(cells: Map<Position, Cell>, rows: int, cols: int) -> bool {
    &&& forall|k: int|
        0 <= k < listed(cells, rows, cols, false).len() ==> cells[#[trigger] listed(
            cells,
            rows,
            cols,
            false,
        )[k]] == Cell::Empty(k as usize)
    &&& forall|k: int|
        0 <= k < listed(cells, rows, cols, true).len() ==> cells[#[trigger] listed(
            cells,
            rows,
            cols,
            true,
        )[k]] == Cell::Foods(k as usize)
}

/// Every flat index below the area names a position on the grid.
pub proof fn lemma_nth_within(k: int, rows: int, cols: int)
    requires
        0 <= k < rows * cols,
        0 < cols,
    ensures
        0 <= k / cols < rows,
        0 <= k % cols < cols,
{
    vstd::arithmetic::div_mod::lemma_fundamental_div_mod(k, cols);
    vstd::arithmetic::div_mod::lemma_mod_bound(k, cols);
    let q = k / cols;
    assert(0 <= q < rows) by (nonlinear_arith)
        requires
            0 <= k < rows * cols,
            0 < cols,
            k == cols * q + k % cols,
            0 <= k % cols < cols,
    ;
}

/// Two predicates that agree on every element select the same elements.
pub proof fn lemma_filter_agree(
    s: Seq<Position>,
    f: spec_fn(Position) -> bool,
    g: spec_fn(Position) -> bool,
)
    requires
        forall|k: int| 0 <= k < s.len() ==> f(#[trigger] s[k]) == g(s[k]),
    ensures
        s.filter(f) == s.filter(g),
    decreases s.len(),
{
    reveal(Seq::filter);
    if s.len() > 0 {
        lemma_filter_agree(s.drop_last(), f, g);
    }
}

/// A step and then a step in the reverse direction lead back.
pub proof fn lemma_shift_back(p: Position, d: Direction, rows: int, cols: int)
    requires
        within(p, rows, cols),
        rows <= usize::MAX,
        cols <= usize::MAX,
    ensures
        shifted(shifted(p, d, rows, cols), d.reversed(), rows, cols) == p,
{
    let q = shifted(p, d, rows, cols);
    lemma_shifted_within(p, d, rows, cols);
    lemma_wrap(p.0 as int, d.row_delta(), rows);
    lemma_wrap(p.1 as int, d.col_delta(), cols);
    lemma_wrap(q.0 as int, d.reversed().row_delta(), rows);
    lemma_wrap(q.1 as int, d.reversed().col_delta(), cols);
}

/// The first `j` cells of row `i`, drawn one after the other.
pub open spec fn row_text(cells: Map<Position, Cell>, i: int, j: int) -> Seq<char>
    decreases j,
{
    if j <= 0 {
        Seq::empty()
    } else {
        row_text(cells, i, j - 1) + cells[Position(i as usize, (j - 1) as usize)].glyph()
    }
}

/// The first `i` rows of a grid with `cols` columns, each drawn and ended
/// by a line feed.
pub open spec fn grid_text(cells: Map<Position, Cell>, cols: int, i: int) -> Seq<char>
    decreases i,
{
    if i <= 0 {
        Seq::empty()
    } else {
        grid_text(cells, cols, i - 1) + row_text(cells, i - 1, cols) + "\n"@
    }
}

} // verus!
