//! The mathematical model of the automaton: toroidal addressing, neighbor
//! counting, and the B3/S23 generation-advance rule.

use vstd::prelude::*;

use crate::cellule::Cellule;

verus! {

/// Single-step toroidal wrap of coordinate `coord` into `[0, range)`.
/// It is meaningful only for `coord` in `[-range, 2*range)`: every caller in
/// this crate offsets an in-range coordinate by at most one step.
pub open spec fn wrap_spec(coord: int, range: int) -> int {
    if coord < 0 {
        coord + range
    } else if coord >= range {
        coord - range
    } else {
        coord
    }
}

/// Row-major flat index of a coordinate pair, each coordinate wrapped
/// toroidally into range first.
pub open spec fn idx_of(width: int, height: int, row: int, col: int) -> int {
    wrap_spec(row, height) * width + wrap_spec(col, width)
}

pub open spec fn one_if(b: bool) -> int {
    if b {
        1
    } else {
        0
    }
}

/// Whether the neighbor of (row, col) at offset (dr, dc) is alive.
pub open spec fn neighbor_alive(
    cells: Seq<Cellule>,
    width: int,
    height: int,
    row: int,
    col: int,
    dr: int,
    dc: int,
) -> bool {
    cells[idx_of(width, height, row + dr, col + dc)] is Alive
}

/// The number of live cells among the eight neighbors of (row, col), the
/// offsets listed in the engine's fixed enumeration order.
pub open spec fn live_neighbors(
    cells: Seq<Cellule>,
    width: int,
    height: int,
    row: int,
    col: int,
) -> int {
    one_if(neighbor_alive(cells, width, height, row, col, 1, 0)) + one_if(
        neighbor_alive(cells, width, height, row, col, 1, 1),
    ) + one_if(neighbor_alive(cells, width, height, row, col, 1, -1)) + one_if(
        neighbor_alive(cells, width, height, row, col, -1, 0),
    ) + one_if(neighbor_alive(cells, width, height, row, col, -1, 1)) + one_if(
        neighbor_alive(cells, width, height, row, col, -1, -1),
    ) + one_if(neighbor_alive(cells, width, height, row, col, 0, -1)) + one_if(
        neighbor_alive(cells, width, height, row, col, 0, 1),
    )
}

/// Count of live cells in a sample of eight neighbors.
pub open spec fn count_alive8(s: Seq<Cellule>) -> int
    recommends
        s.len() == 8,
{
    one_if(s[0] is Alive) + one_if(s[1] is Alive) + one_if(s[2] is Alive) + one_if(s[3] is Alive)
        + one_if(s[4] is Alive) + one_if(s[5] is Alive) + one_if(s[6] is Alive) + one_if(
        s[7] is Alive,
    )
}

/// The eight neighbors of (row, col) in the engine's fixed enumeration
/// order: the offsets (1,0), (1,1), (1,-1), (-1,0), (-1,1), (-1,-1),
/// (0,-1), (0,1).
pub open spec fn neighbor_sample(
    cells: Seq<Cellule>,
    width: int,
    height: int,
    row: int,
    col: int,
) -> Seq<Cellule> {
    seq![
        cells[idx_of(width, height, row + 1, col)],
        cells[idx_of(width, height, row + 1, col + 1)],
        cells[idx_of(width, height, row + 1, col - 1)],
        cells[idx_of(width, height, row - 1, col)],
        cells[idx_of(width, height, row - 1, col + 1)],
        cells[idx_of(width, height, row - 1, col - 1)],
        cells[idx_of(width, height, row, col - 1)],
        cells[idx_of(width, height, row, col + 1)],
    ]
}

/// The B3/S23 rule: whether the cell at in-range (row, col) is alive in the
/// next generation. A live cell survives with two or three live neighbors; a
/// dead cell is born with exactly three.
pub open spec fn next_alive(
    cells: Seq<Cellule>,
    width: int,
    height: int,
    row: int,
    col: int,
) -> bool {
    let n = live_neighbors(cells, width, height, row, col);
    if cells[row * width + col] is Alive {
        2 <= n && n <= 3
    } else {
        n == 3
    }
}

/// The generation-advance relation: `post` is `pre` advanced by one
/// simultaneous step of the rule on a width x height toroidal grid.
pub open spec fn stepped(pre: Seq<Cellule>, post: Seq<Cellule>, width: int, height: int) -> bool {
    &&& post.len() == pre.len()
    &&& forall|row: int, col: int|
        0 <= row < height && 0 <= col < width ==> ((post[row * width + col] is Alive)
            <==> next_alive(pre, width, height, row, col))
}

/// An all-dead cell assignment of the given length.
pub open spec fn cleared(len: nat) -> Seq<Cellule> {
    Seq::new(len, |i: int| Cellule::Dead)
}

/// The given cells with the one at `idx` flipped.
pub open spec fn toggled(cells: Seq<Cellule>, idx: int) -> Seq<Cellule> {
    cells.update(idx, cells[idx].flipped())
}

/// The wrapped coordinate lies in range whenever the input coordinate is at
/// most one full range out of range.
pub proof fn lemma_wrap_bounds(coord: int, range: int)
    requires
        1 <= range,
        -range <= coord,
        coord < 2 * range,
    ensures
        0 <= wrap_spec(coord, range) < range,
{
}

/// A wrapped coordinate pair addresses a cell of the grid.
pub proof fn lemma_idx_of_bounds(width: int, height: int, row: int, col: int)
    requires
        1 <= width,
        1 <= height,
        -height <= row,
        row < 2 * height,
        -width <= col,
        col < 2 * width,
    ensures
        0 <= idx_of(width, height, row, col) < width * height,
{
    lemma_wrap_bounds(row, height);
    lemma_wrap_bounds(col, width);
    let wr = wrap_spec(row, height);
    let wc = wrap_spec(col, width);
    assert(0 <= wr * width + wc < width * height) by (nonlinear_arith)
        requires
            0 <= wr < height,
            0 <= wc < width,
            1 <= width,
    ;
}

/// Row-major addressing inverts by division and remainder.
pub proof fn lemma_rowcol_div_mod(width: int, row: int, col: int)
    requires
        1 <= width,
        0 <= row,
        0 <= col < width,
    ensures
        (row * width + col) / width == row,
        (row * width + col) % width == col,
{
    vstd::arithmetic::div_mod::lemma_fundamental_div_mod_converse(
        row * width + col,
        width,
        row,
        col,
    );
}

} // verus!
