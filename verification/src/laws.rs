//! Laws of the automaton, stated over the model in `rules` and proved once
//! and for all: they hold of every grid the engine's contracts describe.

use vstd::prelude::*;

use crate::cellule::Cellule;
use crate::rules::cleared;
use crate::rules::idx_of;
use crate::rules::lemma_idx_of_bounds;
use crate::rules::live_neighbors;
use crate::rules::neighbor_alive;
use crate::rules::next_alive;
use crate::rules::stepped;
use crate::rules::toggled;
use crate::rules::wrap_spec;

verus! {

/// A flat index of the grid splits into an in-range row and column.
pub proof fn lemma_flat_to_rowcol(width: int, height: int, idx: int)
    requires
        1 <= width,
        1 <= height,
        0 <= idx < width * height,
    ensures
        0 <= idx / width < height,
        0 <= idx % width < width,
        idx == (idx / width) * width + idx % width,
{
    vstd::arithmetic::div_mod::lemma_fundamental_div_mod(idx, width);
    vstd::arithmetic::div_mod::lemma_mod_pos_bound(idx, width);
    let q = idx / width;
    let r = idx % width;
    vstd::arithmetic::mul::lemma_mul_is_commutative(width, q);
    assert(0 <= q < height) by (nonlinear_arith)
        requires
            idx == width * q + r,
            0 <= r < width,
            0 <= idx < width * height,
            1 <= width,
    ;
}

/// Distinct in-range coordinate pairs have distinct flat indices.
pub proof fn lemma_idx_injective(width: int, r1: int, c1: int, r2: int, c2: int)
    requires
        1 <= width,
        0 <= c1 < width,
        0 <= c2 < width,
        r1 * width + c1 == r2 * width + c2,
    ensures
        r1 == r2,
        c1 == c2,
{
    assert(r1 == r2 && c1 == c2) by (nonlinear_arith)
        requires
            1 <= width,
            0 <= c1 < width,
            0 <= c2 < width,
            r1 * width + c1 == r2 * width + c2,
    ;
}

/// No spontaneous life: one step of an all-dead grid leaves every cell dead.
pub proof fn lemma_dead_grid_stays_dead(
    pre: Seq<Cellule>,
    post: Seq<Cellule>,
    width: int,
    height: int,
)
    requires
        1 <= width,
        1 <= height,
        pre.len() == width * height,
        forall|i: int| 0 <= i < pre.len() ==> !((#[trigger] pre[i]) is Alive),
        stepped(pre, post, width, height),
    ensures
        forall|i: int| 0 <= i < post.len() ==> !((#[trigger] post[i]) is Alive),
{
    assert forall|i: int| 0 <= i < post.len() implies !((#[trigger] post[i]) is Alive) by {
        lemma_flat_to_rowcol(width, height, i);
        let r = i / width;
        let c = i % width;
        lemma_idx_of_bounds(width, height, r + 1, c);
        lemma_idx_of_bounds(width, height, r + 1, c + 1);
        lemma_idx_of_bounds(width, height, r + 1, c - 1);
        lemma_idx_of_bounds(width, height, r - 1, c);
        lemma_idx_of_bounds(width, height, r - 1, c + 1);
        lemma_idx_of_bounds(width, height, r - 1, c - 1);
        lemma_idx_of_bounds(width, height, r, c - 1);
        lemma_idx_of_bounds(width, height, r, c + 1);
        assert(live_neighbors(pre, width, height, r, c) == 0);
        assert(!next_alive(pre, width, height, r, c));
    };
}

/// Survival: a live cell with two or three live neighbors is alive after the
/// step.
pub proof fn lemma_survival(
    pre: Seq<Cellule>,
    post: Seq<Cellule>,
    width: int,
    height: int,
    row: int,
    col: int,
)
    requires
        1 <= width,
        1 <= height,
        pre.len() == width * height,
        stepped(pre, post, width, height),
        0 <= row < height,
        0 <= col < width,
        pre[row * width + col] is Alive,
        2 <= live_neighbors(pre, width, height, row, col) <= 3,
    ensures
        post[row * width + col] is Alive,
{
    assert(next_alive(pre, width, height, row, col));
}

/// Underpopulation and overpopulation: a live cell with fewer than two or
/// more than three live neighbors is dead after the step.
pub proof fn lemma_death_by_population(
    pre: Seq<Cellule>,
    post: Seq<Cellule>,
    width: int,
    height: int,
    row: int,
    col: int,
)
    requires
        1 <= width,
        1 <= height,
        pre.len() == width * height,
        stepped(pre, post, width, height),
        0 <= row < height,
        0 <= col < width,
        pre[row * width + col] is Alive,
        live_neighbors(pre, width, height, row, col) < 2 || live_neighbors(
            pre,
            width,
            height,
            row,
            col,
        ) > 3,
    ensures
        !(post[row * width + col] is Alive),
{
    assert(!next_alive(pre, width, height, row, col));
}

/// Reproduction: a dead cell is alive after the step exactly when it has
/// three live neighbors; every other dead cell stays dead.
pub proof fn lemma_dead_cell_revival(
    pre: Seq<Cellule>,
    post: Seq<Cellule>,
    width: int,
    height: int,
    row: int,
    col: int,
)
    requires
        1 <= width,
        1 <= height,
        pre.len() == width * height,
        stepped(pre, post, width, height),
        0 <= row < height,
        0 <= col < width,
        !(pre[row * width + col] is Alive),
    ensures
        (post[row * width + col] is Alive) <==> live_neighbors(pre, width, height, row, col) == 3,
{
    assert((next_alive(pre, width, height, row, col)) <==> live_neighbors(
        pre,
        width,
        height,
        row,
        col,
    ) == 3);
}

/// Toroidal adjacency: the upper-left diagonal neighbor of the corner cell
/// (0, 0) is the cell at (height - 1, width - 1), the opposite corner.
pub proof fn lemma_wrap_diagonal(cells: Seq<Cellule>, width: int, height: int)
    requires
        1 <= width,
        1 <= height,
        cells.len() == width * height,
    ensures
        neighbor_alive(cells, width, height, 0, 0, -1, -1) == (cells[(height - 1) * width + (width
            - 1)] is Alive),
{
    assert(wrap_spec(-1, height) == height - 1);
    assert(wrap_spec(-1, width) == width - 1);
    assert(idx_of(width, height, -1, -1) == (height - 1) * width + (width - 1));
}

/// One full range wraps back to the start: coordinate `range` resolves to 0,
/// and coordinate -1 resolves to `range - 1`.
pub proof fn lemma_wrap_full_circle(range: int)
    requires
        1 <= range,
    ensures
        wrap_spec(range, range) == 0,
        wrap_spec(-1, range) == range - 1,
{
}

/// A cell is never one of its own eight neighbors on a grid at least two
/// wide and two high: if every other cell is dead, its neighbor count is
/// zero, whatever its own state.
pub proof fn lemma_cell_not_own_neighbor(
    cells: Seq<Cellule>,
    width: int,
    height: int,
    row: int,
    col: int,
)
    requires
        2 <= width,
        2 <= height,
        cells.len() == width * height,
        0 <= row < height,
        0 <= col < width,
        forall|i: int|
            0 <= i < cells.len() && i != row * width + col ==> !((#[trigger] cells[i]) is Alive),
    ensures
        live_neighbors(cells, width, height, row, col) == 0,
{
    assert forall|dr: int, dc: int|
        -1 <= dr <= 1 && -1 <= dc <= 1 && !(dr == 0 && dc == 0) implies !neighbor_alive(
        cells,
        width,
        height,
        row,
        col,
        dr,
        dc,
    ) by {
        lemma_idx_of_bounds(width, height, row + dr, col + dc);
        let wr = wrap_spec(row + dr, height);
        let wc = wrap_spec(col + dc, width);
        assert(dr != 0 ==> wr != row);
        assert(dc != 0 ==> wc != col);
        if idx_of(width, height, row + dr, col + dc) == row * width + col {
            lemma_idx_injective(width, wr, wc, row, col);
        }
    };
    assert(!neighbor_alive(cells, width, height, row, col, 1, 0));
    assert(!neighbor_alive(cells, width, height, row, col, 1, 1));
    assert(!neighbor_alive(cells, width, height, row, col, 1, -1));
    assert(!neighbor_alive(cells, width, height, row, col, -1, 0));
    assert(!neighbor_alive(cells, width, height, row, col, -1, 1));
    assert(!neighbor_alive(cells, width, height, row, col, -1, -1));
    assert(!neighbor_alive(cells, width, height, row, col, 0, -1));
    assert(!neighbor_alive(cells, width, height, row, col, 0, 1));
}

/// Clearing is idempotent: clearing an already cleared grid is the same
/// all-dead state.
pub proof fn lemma_clear_idempotent(len: nat)
    ensures
        cleared(cleared(len).len()) == cleared(len),
{
    assert(cleared(cleared(len).len()) =~= cleared(len));
}

/// Toggling the same index twice restores the cells unchanged.
pub proof fn lemma_toggle_involution(cells: Seq<Cellule>, idx: int)
    requires
        0 <= idx < cells.len(),
    ensures
        toggled(toggled(cells, idx), idx) == cells,
{
    assert(toggled(toggled(cells, idx), idx) =~= cells);
}

} // verus!
