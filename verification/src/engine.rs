//! The simulation state and its operations: construction, indexed access,
//! toggling, randomizing, clearing, and the generation step.

use vstd::prelude::*;

use crate::cellule::Cellule;
use crate::rules::cleared;
use crate::rules::count_alive8;
use crate::rules::idx_of;
use crate::rules::lemma_rowcol_div_mod;
use crate::rules::live_neighbors;
use crate::rules::neighbor_sample;
use crate::rules::next_alive;
use crate::rules::stepped;
use crate::rules::toggled;
use crate::rules::wrap_spec;

verus! {

/// A request from the surrounding user interface.
#[derive(Clone, Copy, Debug)]
pub enum Msg {
    Random,
    Start,
    Step,
    Reset,
    Stop,
    ToggleCellule(usize),
    Tick,
}

/// The simulation state: a flat row-major grid of cells with its dimensions,
/// plus the flag that says whether timer ticks should advance the grid.
pub struct App {
    pub active: bool,
    pub cellules: Vec<Cellule>,
    pub cellules_width: usize,
    pub cellules_height: usize,
}

/// Whether flat index `j` lies in `l[..k]`.
spec fn listed_below(l: Seq<usize>, k: int, j: int) -> bool {
    exists|m: int| 0 <= m < k && (#[trigger] l[m]) as int == j
}

/// Whether the cell at flat index `idx` is alive and underpopulated or
/// overpopulated, so that the step kills it.
spec fn dies_at(cells: Seq<Cellule>, width: int, height: int, idx: int) -> bool {
    let n = live_neighbors(cells, width, height, idx / width, idx % width);
    cells[idx] is Alive && !(2 <= n && n <= 3)
}

/// Whether the cell at flat index `idx` is dead with exactly three live
/// neighbors, so that the step revives it.
spec fn born_at(cells: Seq<Cellule>, width: int, height: int, idx: int) -> bool {
    let n = live_neighbors(cells, width, height, idx / width, idx % width);
    !(cells[idx] is Alive) && n == 3
}

/// Single-step toroidal wrap of `coord` into `[0, range)`. Correct only for
/// `coord` within `[-range, 2*range)`; the engine only ever passes an
/// in-range coordinate offset by at most one step.
pub fn wrap(coord: isize, range: isize) -> (r: usize)
    requires
        1 <= range as int,
        -(range as int) <= coord as int,
        (coord as int) < 2 * (range as int),
    ensures
        r as int == wrap_spec(coord as int, range as int),
        (r as int) < range as int,
{
    let result = if coord < 0 {
        coord + range
    } else if coord >= range {
        coord - range
    } else {
        coord
    };
    result as usize
}

impl App {
    /// The structural invariant: positive dimensions that fit a signed
    /// machine coordinate, and exactly width * height cells.
    pub open spec fn wf(&self) -> bool {
        &&& 1 <= self.cellules_width
        &&& 1 <= self.cellules_height
        &&& self.cellules_width as int <= isize::MAX as int
        &&& self.cellules_height as int <= isize::MAX as int
        &&& self.cellules@.len() == self.cellules_width * self.cellules_height
    }

    /// A fresh, inactive simulation with every cell dead.
    pub fn new(width: usize, height: usize) -> (r: App)
        requires
            1 <= width,
            1 <= height,
            width as int <= isize::MAX as int,
            height as int <= isize::MAX as int,
            width * height <= usize::MAX,
        ensures
            r.wf(),
            !r.active,
            r.cellules_width == width,
            r.cellules_height == height,
            r.cellules@ == cleared((width * height) as nat),
    {
        let n: usize = width * height;
        let mut cellules: Vec<Cellule> = Vec::new();
        let mut i: usize = 0;
        while i < n
            invariant
                i <= n,
                cellules@.len() == i,
                forall|j: int| 0 <= j < i ==> cellules@[j] is Dead,
            decreases n - i,
        {
            cellules.push(Cellule::new_dead());
            i = i + 1;
        }
        proof {
            assert(cellules@ =~= cleared((width * height) as nat));
        }
        App { active: false, cellules, cellules_width: width, cellules_height: height }
    }

    /// Direct indexed read.
    pub fn get(&self, idx: usize) -> (c: Cellule)
        requires
            idx < self.cellules@.len(),
        ensures
            c == self.cellules@[idx as int],
    {
        self.cellules[idx]
    }

    /// Direct indexed write.
    pub fn set(&mut self, idx: usize, c: Cellule)
        requires
            idx < old(self).cellules@.len(),
        ensures
            final(self).cellules@ == old(self).cellules@.update(idx as int, c),
            final(self).active == old(self).active,
            final(self).cellules_width == old(self).cellules_width,
            final(self).cellules_height == old(self).cellules_height,
    {
        self.cellules[idx] = c;
    }

    /// Flips the cell at `idx` between alive and dead.
    pub fn toggle_cell(&mut self, idx: usize)
        requires
            idx < old(self).cellules@.len(),
        ensures
            final(self).cellules@ == toggled(old(self).cellules@, idx as int),
            final(self).active == old(self).active,
            final(self).cellules_width == old(self).cellules_width,
            final(self).cellules_height == old(self).cellules_height,
    {
        self.cellules[idx].toggle();
    }

    /// Sets every cell to dead.
    pub fn reset(&mut self)
        ensures
            final(self).cellules@ == cleared(old(self).cellules@.len()),
            final(self).active == old(self).active,
            final(self).cellules_width == old(self).cellules_width,
            final(self).cellules_height == old(self).cellules_height,
    {
        let mut i: usize = 0;
        let n: usize = self.cellules.len();
        while i < n
            invariant
                i <= n,
                n == old(self).cellules@.len(),
                self.cellules@.len() == old(self).cellules@.len(),
                self.active == old(self).active,
                self.cellules_width == old(self).cellules_width,
                self.cellules_height == old(self).cellules_height,
                forall|j: int| 0 <= j < i ==> self.cellules@[j] is Dead,
            decreases n - i,
        {
            self.cellules[i].set_dead();
            i = i + 1;
        }
        proof {
            assert(self.cellules@ =~= cleared(old(self).cellules@.len()));
        }
    }

    /// Re-draws the whole grid from a supplied sequence of uniform booleans,
    /// one per cell: cell `i` becomes alive exactly when `bits[i]` is true,
    /// independently of its old state. The entropy is an injected capability,
    /// so a fixed or scripted sequence reproduces a board exactly.
    pub fn randomize_from(&mut self, bits: &Vec<bool>)
        requires
            bits@.len() == old(self).cellules@.len(),
        ensures
            final(self).cellules@.len() == old(self).cellules@.len(),
            forall|i: int|
                0 <= i < bits@.len() ==> ((final(self).cellules@[i] is Alive) <==> bits@[i]),
            final(self).active == old(self).active,
            final(self).cellules_width == old(self).cellules_width,
            final(self).cellules_height == old(self).cellules_height,
    {
        let mut i: usize = 0;
        let n: usize = self.cellules.len();
        while i < n
            invariant
                i <= n,
                n == old(self).cellules@.len(),
                bits@.len() == old(self).cellules@.len(),
                self.cellules@.len() == old(self).cellules@.len(),
                self.active == old(self).active,
                self.cellules_width == old(self).cellules_width,
                self.cellules_height == old(self).cellules_height,
                forall|j: int| 0 <= j < i ==> ((self.cellules@[j] is Alive) <==> bits@[j]),
            decreases n - i,
        {
            if bits[i] {
                self.cellules[i].set_alive();
            } else {
                self.cellules[i].set_dead();
            }
            i = i + 1;
        }
    }

    /// Draws one fair boolean per cell from the process's random source and
    /// re-draws the grid from that sequence through `randomize_from`. The
    /// dimensions and the active flag are untouched; of the drawn values
    /// themselves nothing can be promised.
    pub fn random_mutate(&mut self)
        ensures
            final(self).cellules@.len() == old(self).cellules@.len(),
            final(self).active == old(self).active,
            final(self).cellules_width == old(self).cellules_width,
            final(self).cellules_height == old(self).cellules_height,
    {
        let n: usize = self.cellules.len();
        let mut bits: Vec<bool> = Vec::new();
        let mut i: usize = 0;
        while i < n
            invariant
                i <= n,
                bits@.len() == i,
            decreases n - i,
        {
            bits.push(random_bool());
            i = i + 1;
        }
        self.randomize_from(&bits);
    }

    /// Flat row-major index of (row, col), each coordinate wrapped
    /// toroidally. The coordinates may lie one grid step outside the range.
    pub fn row_col_as_idx(&self, row: isize, col: isize) -> (idx: usize)
        requires
            self.wf(),
            -(self.cellules_height as int) <= row as int,
            (row as int) < 2 * (self.cellules_height as int),
            -(self.cellules_width as int) <= col as int,
            (col as int) < 2 * (self.cellules_width as int),
        ensures
            idx as int == idx_of(
                self.cellules_width as int,
                self.cellules_height as int,
                row as int,
                col as int,
            ),
            idx < self.cellules@.len(),
    {
        let row_w: usize = wrap(row, self.cellules_height as isize);
        let col_w: usize = wrap(col, self.cellules_width as isize);
        proof {
            assert(self.cellules@.len() == self.cellules.len());
            assert((row_w as int) * (self.cellules_width as int) + (col_w as int)
                < (self.cellules_width as int) * (self.cellules_height as int)) by (nonlinear_arith)
                requires
                    0 <= row_w as int && (row_w as int) < self.cellules_height as int,
                    0 <= col_w as int && (col_w as int) < self.cellules_width as int,
                    1 <= self.cellules_width as int,
            ;
        }
        row_w * self.cellules_width + col_w
    }

    /// The eight neighbors of in-range (row, col), sampled toroidally in the
    /// engine's fixed enumeration order.
    pub fn neighbors(&self, row: isize, col: isize) -> (r: [Cellule; 8])
        requires
            self.wf(),
            0 <= row as int && (row as int) < self.cellules_height as int,
            0 <= col as int && (col as int) < self.cellules_width as int,
        ensures
            r@ == neighbor_sample(
                self.cellules@,
                self.cellules_width as int,
                self.cellules_height as int,
                row as int,
                col as int,
            ),
    {
        let r = [
            self.cellules[self.row_col_as_idx(row + 1, col)],
            self.cellules[self.row_col_as_idx(row + 1, col + 1)],
            self.cellules[self.row_col_as_idx(row + 1, col - 1)],
            self.cellules[self.row_col_as_idx(row - 1, col)],
            self.cellules[self.row_col_as_idx(row - 1, col + 1)],
            self.cellules[self.row_col_as_idx(row - 1, col - 1)],
            self.cellules[self.row_col_as_idx(row, col - 1)],
            self.cellules[self.row_col_as_idx(row, col + 1)],
        ];
        proof {
            assert(r@ =~= neighbor_sample(
                self.cellules@,
                self.cellules_width as int,
                self.cellules_height as int,
                row as int,
                col as int,
            ));
        }
        r
    }

    /// Advances the grid by one generation of the B3/S23 rule. Every cell is
    /// decided against the pre-step snapshot: the indices that must die and
    /// the indices that must be born are collected first and applied only
    /// after the whole grid has been read.
    pub fn step(&mut self)
        requires
            old(self).wf(),
        ensures
            final(self).wf(),
            final(self).active == old(self).active,
            final(self).cellules_width == old(self).cellules_width,
            final(self).cellules_height == old(self).cellules_height,
            stepped(
                old(self).cellules@,
                final(self).cellules@,
                old(self).cellules_width as int,
                old(self).cellules_height as int,
            ),
    {
        let ghost w = self.cellules_width as int;
        let ghost h = self.cellules_height as int;
        let ghost s0 = self.cellules@;
        let ghost act = self.active;
        proof {
            assert(self.cellules@.len() == self.cellules.len());
            assert(s0.len() <= usize::MAX);
        }

        let mut to_dead: Vec<usize> = Vec::new();
        let mut to_live: Vec<usize> = Vec::new();
        proof {
            lemma_collected_empty(s0, w, h, true);
            lemma_collected_empty(s0, w, h, false);
            lemma_all_below_empty(s0.len() as int);
            assert(collected(to_dead@, s0, w, h, 0, true));
            assert(collected(to_live@, s0, w, h, 0, false));
        }

        let mut row: usize = 0;
        while row < self.cellules_height
            invariant
                self.wf(),
                self.cellules_width as int == w,
                self.cellules_height as int == h,
                self.cellules@ == s0,
                self.active == act,
                s0.len() == w * h,
                s0.len() <= usize::MAX,
                row <= self.cellules_height,
                collected(to_dead@, s0, w, h, (row as int) * w, true),
                collected(to_live@, s0, w, h, (row as int) * w, false),
                all_below(to_dead@, s0.len() as int),
                all_below(to_live@, s0.len() as int),
            decreases self.cellules_height - row,
        {
            let mut col: usize = 0;
            while col < self.cellules_width
                invariant
                    self.wf(),
                    self.cellules_width as int == w,
                    self.cellules_height as int == h,
                    self.cellules@ == s0,
                    self.active == act,
                    s0.len() == w * h,
                    s0.len() <= usize::MAX,
                    row < self.cellules_height,
                    col <= self.cellules_width,
                    collected(to_dead@, s0, w, h, (row as int) * w + (col as int), true),
                    collected(to_live@, s0, w, h, (row as int) * w + (col as int), false),
                    all_below(to_dead@, s0.len() as int),
                    all_below(to_live@, s0.len() as int),
                decreases self.cellules_width - col,
            {
                let ghost p = (row as int) * w + (col as int);
                let nbrs = self.neighbors(row as isize, col as isize);
                let current_idx = self.row_col_as_idx(row as isize, col as isize);
                proof {
                    lemma_rowcol_div_mod(w, row as int, col as int);
                    assert(0 <= p && p < s0.len()) by (nonlinear_arith)
                        requires
                            p == (row as int) * w + (col as int),
                            0 <= row as int && (row as int) < h,
                            0 <= col as int && (col as int) < w,
                            1 <= w,
                            s0.len() == w * h,
                    ;
                    assert(current_idx as int == p);
                    assert(count_alive8(nbrs@) == live_neighbors(s0, w, h, row as int, col as int));
                }
                let ghost dead0 = to_dead@;
                let ghost live0 = to_live@;
                if self.cellules[current_idx].is_alive() {
                    if Cellule::alone(&nbrs) || Cellule::overpopulated(&nbrs) {
                        to_dead.push(current_idx);
                    }
                } else if Cellule::can_be_revived(&nbrs) {
                    to_live.push(current_idx);
                }
                proof {
                    assert((p as usize) == current_idx);
                    assert(to_dead@ == (if transitions(s0, w, h, true, p) {
                        dead0.push(p as usize)
                    } else {
                        dead0
                    }));
                    assert(to_live@ == (if transitions(s0, w, h, false, p) {
                        live0.push(p as usize)
                    } else {
                        live0
                    }));
                    lemma_collected_step(dead0, to_dead@, s0, w, h, p, true);
                    lemma_collected_step(live0, to_live@, s0, w, h, p, false);
                    lemma_all_below_step(
                        dead0,
                        to_dead@,
                        p as usize,
                        s0.len() as int,
                        transitions(s0, w, h, true, p),
                    );
                    lemma_all_below_step(
                        live0,
                        to_live@,
                        p as usize,
                        s0.len() as int,
                        transitions(s0, w, h, false, p),
                    );
                }
                col = col + 1;
            }
            proof {
                assert((row as int) * w + w == (row as int + 1) * w) by (nonlinear_arith);
            }
            row = row + 1;
        }
        proof {
            assert((row as int) * w == s0.len()) by (nonlinear_arith)
                requires
                    row as int == h,
                    s0.len() == w * h,
            ;
            assert(collected(to_dead@, s0, w, h, s0.len() as int, true));
            assert(collected(to_live@, s0, w, h, s0.len() as int, false));
        }

        let ghost sd = to_dead@;
        let ghost sl = to_live@;
        proof {
            lemma_applied_refl(self.cellules@, sd, Cellule::Dead);
        }
        let mut k: usize = 0;
        while k < to_dead.len()
            invariant
                self.cellules_width as int == w,
                self.cellules_height as int == h,
                self.active == act,
                s0.len() == w * h,
                to_dead@ == sd,
                to_live@ == sl,
                k <= sd.len(),
                all_below(sd, s0.len() as int),
                applied(self.cellules@, s0, sd, k as int, Cellule::Dead),
            decreases to_dead@.len() - k,
        {
            let idx: usize = to_dead[k];
            proof {
                lemma_all_below_at(sd, s0.len() as int, k as int);
                assert(self.cellules@.len() == s0.len());
            }
            let ghost before = self.cellules@;
            self.cellules[idx].set_dead();
            proof {
                assert(self.cellules@ == before.update(idx as int, Cellule::Dead));
                lemma_applied_step(before, self.cellules@, s0, sd, k as int, Cellule::Dead);
            }
            k = k + 1;
        }
        proof {
            assert(applied(self.cellules@, s0, sd, sd.len() as int, Cellule::Dead));
        }

        let ghost s1 = self.cellules@;
        proof {
            lemma_applied_refl(self.cellules@, sl, Cellule::Alive);
        }
        let mut k2: usize = 0;
        while k2 < to_live.len()
            invariant
                self.cellules_width as int == w,
                self.cellules_height as int == h,
                self.active == act,
                s0.len() == w * h,
                s1.len() == s0.len(),
                to_live@ == sl,
                k2 <= sl.len(),
                all_below(sl, s0.len() as int),
                applied(self.cellules@, s1, sl, k2 as int, Cellule::Alive),
            decreases to_live@.len() - k2,
        {
            let idx: usize = to_live[k2];
            proof {
                lemma_all_below_at(sl, s0.len() as int, k2 as int);
                assert(self.cellules@.len() == s1.len());
            }
            let ghost before = self.cellules@;
            self.cellules[idx].set_alive();
            proof {
                assert(self.cellules@ == before.update(idx as int, Cellule::Alive));
                lemma_applied_step(before, self.cellules@, s1, sl, k2 as int, Cellule::Alive);
            }
            k2 = k2 + 1;
        }

        proof {
            assert(applied(self.cellules@, s1, sl, sl.len() as int, Cellule::Alive));
            assert(self.cellules@.len() == s0.len());
            assert forall|r: int, c: int| 0 <= r < h && 0 <= c < w implies ((self.cellules@[r * w
                + c] is Alive) <==> next_alive(s0, w, h, r, c)) by {
                let j = r * w + c;
                lemma_rowcol_div_mod(w, r, c);
                assert(0 <= j && j < w * h) by (nonlinear_arith)
                    requires
                        j == r * w + c,
                        0 <= r && r < h,
                        0 <= c && c < w,
                        1 <= w,
                ;
                lemma_collected_at(sd, s0, w, h, s0.len() as int, true, j);
                lemma_collected_at(sl, s0, w, h, s0.len() as int, false, j);
                lemma_applied_at(s1, s0, sd, sd.len() as int, Cellule::Dead, j);
                lemma_applied_at(self.cellules@, s1, sl, sl.len() as int, Cellule::Alive, j);
            }
            assert(stepped(s0, self.cellules@, w, h));
        }
    }

    /// Applies one user-interface request and says whether the display must
    /// be redrawn.
    pub fn update(&mut self, msg: Msg) -> (redraw: bool)
        requires
            old(self).wf(),
            match msg {
                Msg::ToggleCellule(idx) => idx < old(self).cellules@.len(),
                _ => true,
            },
        ensures
            final(self).wf(),
            final(self).cellules_width == old(self).cellules_width,
            final(self).cellules_height == old(self).cellules_height,
            match msg {
                Msg::Random => {
                    &&& final(self).active == old(self).active
                    &&& redraw
                },
                Msg::Start => {
                    &&& final(self).active
                    &&& final(self).cellules@ == old(self).cellules@
                    &&& redraw
                },
                Msg::Step => {
                    &&& final(self).active == old(self).active
                    &&& stepped(
                        old(self).cellules@,
                        final(self).cellules@,
                        old(self).cellules_width as int,
                        old(self).cellules_height as int,
                    )
                    &&& redraw
                },
                Msg::Reset => {
                    &&& final(self).active == old(self).active
                    &&& final(self).cellules@ == cleared(old(self).cellules@.len())
                    &&& redraw
                },
                Msg::Stop => {
                    &&& !final(self).active
                    &&& final(self).cellules@ == old(self).cellules@
                    &&& redraw
                },
                Msg::ToggleCellule(idx) => {
                    &&& final(self).active == old(self).active
                    &&& final(self).cellules@ == toggled(old(self).cellules@, idx as int)
                    &&& redraw
                },
                Msg::Tick => {
                    if old(self).active {
                        &&& final(self).active
                        &&& stepped(
                            old(self).cellules@,
                            final(self).cellules@,
                            old(self).cellules_width as int,
                            old(self).cellules_height as int,
                        )
                        &&& redraw
                    } else {
                        &&& *final(self) == *old(self)
                        &&& !redraw
                    }
                },
            },
    {
        match msg {
            Msg::Random => {
                self.random_mutate();
                true
            },
            Msg::Start => {
                self.active = true;
                true
            },
            Msg::Step => {
                self.step();
                true
            },
            Msg::Reset => {
                self.reset();
                true
            },
            Msg::Stop => {
                self.active = false;
                true
            },
            Msg::ToggleCellule(idx) => {
                self.toggle_cell(idx);
                true
            },
            Msg::Tick => {
                if self.active {
                    self.step();
                    true
                } else {
                    false
                }
            },
        }
    }
}

/// The transition the scan records for the cell at `idx`: death for the
/// kill list, birth for the revive list.
spec fn transitions(cells: Seq<Cellule>, width: int, height: int, deadly: bool, idx: int) -> bool {
    if deadly {
        dies_at(cells, width, height, idx)
    } else {
        born_at(cells, width, height, idx)
    }
}

/// The collection invariant of the scan: `l` holds exactly the flat indices
/// below `p` whose cells transition.
spec fn collected(
    l: Seq<usize>,
    cells: Seq<Cellule>,
    width: int,
    height: int,
    p: int,
    deadly: bool,
) -> bool {
    forall|j: int|
        0 <= j < cells.len() ==> ((#[trigger] listed_below(l, l.len() as int, j)) <==> (j < p
            && transitions(cells, width, height, deadly, j)))
}

/// Every entry of `l` lies below `bound`.
spec fn all_below(l: Seq<usize>, bound: int) -> bool {
    forall|m: int| 0 <= m < l.len() ==> ((#[trigger] l[m]) as int) < bound
}

/// The application invariant: `now` is `base` with the first `k` listed
/// indices overwritten by `val`.
spec fn applied(now: Seq<Cellule>, base: Seq<Cellule>, l: Seq<usize>, k: int, val: Cellule) -> bool {
    &&& now.len() == base.len()
    &&& forall|j: int|
        0 <= j < base.len() ==> (#[trigger] now[j]) == (if listed_below(l, k, j) {
            val
        } else {
            base[j]
        })
}

proof fn lemma_collected_empty(cells: Seq<Cellule>, width: int, height: int, deadly: bool)
    ensures
        collected(Seq::<usize>::empty(), cells, width, height, 0, deadly),
{
    let l = Seq::<usize>::empty();
    assert forall|j: int| 0 <= j < cells.len() implies ((#[trigger] listed_below(
        l,
        l.len() as int,
        j,
    )) <==> (j < 0 && transitions(cells, width, height, deadly, j))) by {
        assert(!listed_below(l, l.len() as int, j));
    };
}

/// One scanned cell extends the collection: its index is pushed exactly when
/// its cell transitions.
proof fn lemma_collected_step(
    l0: Seq<usize>,
    l1: Seq<usize>,
    cells: Seq<Cellule>,
    width: int,
    height: int,
    p: int,
    deadly: bool,
)
    requires
        cells.len() <= usize::MAX,
        0 <= p < cells.len(),
        collected(l0, cells, width, height, p, deadly),
        l1 == (if transitions(cells, width, height, deadly, p) {
            l0.push(p as usize)
        } else {
            l0
        }),
    ensures
        collected(l1, cells, width, height, p + 1, deadly),
{
    assert forall|j: int| 0 <= j < cells.len() implies ((#[trigger] listed_below(
        l1,
        l1.len() as int,
        j,
    )) <==> (j < p + 1 && transitions(cells, width, height, deadly, j))) by {
        assert(listed_below(l0, l0.len() as int, j) <==> (j < p && transitions(
            cells,
            width,
            height,
            deadly,
            j,
        )));
        if transitions(cells, width, height, deadly, p) {
            assert(l1 == l0.push(p as usize));
            assert(l1.len() == l0.len() + 1);
            assert(forall|m: int| 0 <= m < l0.len() ==> l1[m] == l0[m]);
            assert(l1[l0.len() as int] == p as usize);
            if j == p {
                assert((l1[l0.len() as int] as int) == j);
                assert(listed_below(l1, l1.len() as int, j));
            } else if j < p && transitions(cells, width, height, deadly, j) {
                let m = choose|m: int|
                    0 <= m < (l0.len() as int) && ((#[trigger] l0[m]) as int) == j;
                assert((l1[m] as int) == j);
                assert(listed_below(l1, l1.len() as int, j));
            }
            if listed_below(l1, l1.len() as int, j) {
                let m = choose|m: int|
                    0 <= m < (l1.len() as int) && ((#[trigger] l1[m]) as int) == j;
                if m < l0.len() {
                    assert((l0[m] as int) == j);
                    assert(listed_below(l0, l0.len() as int, j));
                } else {
                    assert(l1[m] == p as usize);
                    assert(j == p);
                }
            }
        } else {
            if j == p {
                assert(!transitions(cells, width, height, deadly, p));
            }
        }
    };
}

/// Retrieves the collection invariant at one index.
proof fn lemma_collected_at(
    l: Seq<usize>,
    cells: Seq<Cellule>,
    width: int,
    height: int,
    p: int,
    deadly: bool,
    j: int,
)
    requires
        collected(l, cells, width, height, p, deadly),
        0 <= j < cells.len(),
    ensures
        listed_below(l, l.len() as int, j) <==> (j < p && transitions(cells, width, height, deadly, j)),
{
}

proof fn lemma_all_below_empty(bound: int)
    ensures
        all_below(Seq::<usize>::empty(), bound),
{
}

proof fn lemma_all_below_step(l0: Seq<usize>, l1: Seq<usize>, v: usize, bound: int, grown: bool)
    requires
        all_below(l0, bound),
        (v as int) < bound,
        l1 == (if grown {
            l0.push(v)
        } else {
            l0
        }),
    ensures
        all_below(l1, bound),
{
    if grown {
        assert forall|m: int| 0 <= m < l1.len() implies ((#[trigger] l1[m]) as int) < bound by {
            if m < l0.len() {
                assert(l1[m] == l0[m]);
                assert((l0[m] as int) < bound);
            } else {
                assert(l1[m] == v);
            }
        };
    }
}

/// Retrieves the bound of one listed entry.
proof fn lemma_all_below_at(l: Seq<usize>, bound: int, m: int)
    requires
        all_below(l, bound),
        0 <= m < l.len(),
    ensures
        (l[m] as int) < bound,
{
}

proof fn lemma_applied_refl(cells: Seq<Cellule>, l: Seq<usize>, val: Cellule)
    ensures
        applied(cells, cells, l, 0, val),
{
    assert forall|j: int| 0 <= j < cells.len() implies (#[trigger] cells[j]) == (if listed_below(
        l,
        0,
        j,
    ) {
        val
    } else {
        cells[j]
    }) by {
        assert(!listed_below(l, 0, j));
    };
}

/// One write extends the application: the cell at the next listed index is
/// overwritten by `val` and every other cell keeps its value.
proof fn lemma_applied_step(
    before: Seq<Cellule>,
    now: Seq<Cellule>,
    base: Seq<Cellule>,
    l: Seq<usize>,
    k: int,
    val: Cellule,
)
    requires
        applied(before, base, l, k, val),
        0 <= k < l.len(),
        (l[k] as int) < base.len(),
        now == before.update(l[k] as int, val),
    ensures
        applied(now, base, l, k + 1, val),
{
    assert forall|j: int| 0 <= j < base.len() implies (#[trigger] now[j]) == (if listed_below(
        l,
        k + 1,
        j,
    ) {
        val
    } else {
        base[j]
    }) by {
        assert(before[j] == (if listed_below(l, k, j) {
            val
        } else {
            base[j]
        }));
        if j == l[k] as int {
            assert((l[k] as int) == j);
            assert(listed_below(l, k + 1, j));
            assert(now[j] == val);
        } else {
            assert(now[j] == before[j]);
            if listed_below(l, k + 1, j) {
                let m = choose|m: int| 0 <= m < k + 1 && ((#[trigger] l[m]) as int) == j;
                assert(m < k);
                assert(listed_below(l, k, j));
            } else {
                if listed_below(l, k, j) {
                    let m = choose|m: int| 0 <= m < k && ((#[trigger] l[m]) as int) == j;
                    assert((l[m] as int) == j);
                    assert(listed_below(l, k + 1, j));
                }
            }
        }
    };
}

/// Retrieves the application invariant at one index.
proof fn lemma_applied_at(
    now: Seq<Cellule>,
    base: Seq<Cellule>,
    l: Seq<usize>,
    k: int,
    val: Cellule,
    j: int,
)
    requires
        applied(now, base, l, k, val),
        0 <= j < base.len(),
    ensures
        now[j] == (if listed_below(l, k, j) {
            val
        } else {
            base[j]
        }),
{
}

/// Relies on rand::random::<bool>: one draw from the thread-local generator,
/// each outcome with probability one half; nothing is promised of the value.
#[verifier::external_body]
fn random_bool() -> bool {
    rand::random::<bool>()
}

} // verus!
