use vstd::prelude::*;

verus! {

/// True when `(r, c)` addresses a cell of a grid with `rows` rows and
/// `cols` columns.
pub open spec fn in_grid(rows: int, cols: int, r: int, c: int) -> bool {
    0 <= r < rows && 0 <= c < cols
}

/// A well-formed grid holds exactly `rows` rows of `cols` cells each.
pub open spec fn grid_wf(g: Seq<Seq<bool>>, rows: int, cols: int) -> bool {
    g.len() == rows && (forall|i: int| 0 <= i < rows ==> (#[trigger] g[i]).len() == cols)
}

/// True when `(r, c)` lies inside the grid and that cell is live.
/// Coordinates outside the grid never count as live, so the space beyond
/// every edge behaves as dead: there is no wraparound.
pub open spec fn cell_live(g: Seq<Seq<bool>>, rows: int, cols: int, r: int, c: int) -> bool {
    in_grid(rows, cols, r, c) && g[r][c]
}

/// 1 for a live in-grid cell, 0 for a dead cell or a coordinate outside
/// the grid.
pub open spec fn one_if_live(g: Seq<Seq<bool>>, rows: int, cols: int, r: int, c: int) -> int {
    if cell_live(g, rows, cols, r, c) { 1 } else { 0 }
}

/// The number of live cells among the eight neighbors of `(r, c)`; the
/// center cell itself is never counted, and neighbors outside the grid
/// contribute nothing.
pub open spec fn live_neighbor_count(g: Seq<Seq<bool>>, rows: int, cols: int, r: int, c: int) -> int {
    one_if_live(g, rows, cols, r - 1, c - 1)
        + one_if_live(g, rows, cols, r - 1, c)
        + one_if_live(g, rows, cols, r - 1, c + 1)
        + one_if_live(g, rows, cols, r, c - 1)
        + one_if_live(g, rows, cols, r, c + 1)
        + one_if_live(g, rows, cols, r + 1, c - 1)
        + one_if_live(g, rows, cols, r + 1, c)
        + one_if_live(g, rows, cols, r + 1, c + 1)
}

/// Conway's rule for a single cell: a live cell survives with exactly 2
/// or 3 live neighbors, a dead cell becomes live with exactly 3.
pub open spec fn next_cell_state(live: bool, neighbors: int) -> bool {
    if live {
        neighbors == 2 || neighbors == 3
    } else {
        neighbors == 3
    }
}

/// The state cell `(r, c)` takes after one simultaneous generation step
/// of the whole grid.
pub open spec fn step_cell(g: Seq<Seq<bool>>, rows: int, cols: int, r: int, c: int) -> bool {
    next_cell_state(g[r][c], live_neighbor_count(g, rows, cols, r, c))
}

/// The rows of `g`, each viewed as a sequence of cell states.
pub open spec fn rows_view(g: Seq<Vec<bool>>) -> Seq<Seq<bool>> {
    Seq::new(g.len(), |i: int| g[i]@)
}

/// The character that draws one cell: a full block when live, a light
/// shade when dead.
pub open spec fn cell_char(live: bool) -> char {
    if live { '█' } else { '░' }
}

/// True when one generation step changes cell `(r, c)`.
spec fn flip_needed(g: Seq<Seq<bool>>, rows: int, cols: int, r: int, c: int) -> bool {
    step_cell(g, rows, cols, r, c) != g[r][c]
}

/// An entry of the batch of pending toggles: an in-grid coordinate whose
/// cell the current step changes.
spec fn entry_ok(g: Seq<Seq<bool>>, rows: int, cols: int, p: (usize, usize)) -> bool {
    (p.0 as int) < rows && (p.1 as int) < cols && flip_needed(g, rows, cols, p.0 as int, p.1 as int)
}

/// True when one of the first `n` entries of `s` is the coordinate `(i, j)`.
spec fn listed_before(s: Seq<(usize, usize)>, n: int, i: int, j: int) -> bool {
    exists|k: int| 0 <= k < n && (#[trigger] s[k]).0 == i && s[k].1 == j
}

/// Row-major scan order on coordinates.
spec fn scan_lt(p: (usize, usize), q: (usize, usize)) -> bool {
    p.0 < q.0 || (p.0 == q.0 && p.1 < q.1)
}

/// Simulation engine state: the grid of cells together with the run flag,
/// the speed setting and the generation counter. Coordinates are
/// row-major pairs `(row, col)` throughout.
pub struct State {
    /// Cell states; `grid[r][c]` is the cell in row `r`, column `c`.
    pub grid: Vec<Vec<bool>>,
    /// Intended pace in generations per second; input collaborators may
    /// adjust it. Starts at 1.
    pub fps: u32,
    /// While false, `update` is a no-op; single steps then go through
    /// `step`. Starts false.
    pub running: bool,
    grid_size: (usize, usize),
    round: u32,
}

impl State {
    /// Number of rows, fixed at construction.
    pub closed spec fn rows(&self) -> int {
        self.grid_size.0 as int
    }

    /// Number of columns, fixed at construction.
    pub closed spec fn cols(&self) -> int {
        self.grid_size.1 as int
    }

    /// The grid as a sequence of rows of cell states.
    pub closed spec fn cells(&self) -> Seq<Seq<bool>> {
        rows_view(self.grid@)
    }

    /// The grid really has the constructed dimensions: `rows()` rows of
    /// `cols()` cells each.
    pub closed spec fn wf(&self) -> bool {
        grid_wf(self.cells(), self.rows(), self.cols())
    }

    /// The speed setting, as contracts see it.
    pub closed spec fn speed(&self) -> u32 {
        self.fps
    }

    /// The run flag, as contracts see it.
    pub closed spec fn is_running(&self) -> bool {
        self.running
    }

    /// Generations advanced since construction.
    pub closed spec fn spec_generation(&self) -> u32 {
        self.round
    }

    /// Read the generation counter.
    #[verifier::when_used_as_spec(spec_generation)]
    pub fn generation(&self) -> (g: u32)
        ensures
            g == self.spec_generation(),
    {
        self.round
    }

    /// A fresh simulation: every cell dead, generation 0, paused, at the
    /// lowest speed.
    pub fn new(grid_size: (usize, usize)) -> (s: State)
        ensures
            s.wf(),
            s.rows() == grid_size.0,
            s.cols() == grid_size.1,
            forall|i: int, j: int| in_grid(s.rows(), s.cols(), i, j) ==> !(#[trigger] s.cells()[i][j]),
            s.generation() == 0,
            s.speed() == 1,
            !s.is_running(),
    {
        let mut grid: Vec<Vec<bool>> = Vec::new();
        let mut i: usize = 0;
        while i < grid_size.0
            invariant
                i <= grid_size.0,
                grid@.len() == i,
                forall|a: int| 0 <= a < i ==> (#[trigger] grid@[a])@.len() == grid_size.1,
                forall|a: int, b: int|
                    0 <= a < i && 0 <= b < grid_size.1 ==> !(#[trigger] grid@[a]@[b]),
            decreases grid_size.0 - i,
        {
            let mut row: Vec<bool> = Vec::new();
            let mut j: usize = 0;
            while j < grid_size.1
                invariant
                    j <= grid_size.1,
                    row@.len() == j,
                    forall|b: int| 0 <= b < j ==> !(#[trigger] row@[b]),
                decreases grid_size.1 - j,
            {
                row.push(false);
                j = j + 1;
            }
            grid.push(row);
            i = i + 1;
        }
        State { grid, fps: 1, running: false, grid_size, round: 0 }
    }

    /// Whether `cell` addresses a cell of this grid.
    pub fn coord_is_legal(&self, cell: (usize, usize)) -> (legal: bool)
        ensures
            legal == in_grid(self.rows(), self.cols(), cell.0 as int, cell.1 as int),
    {
        cell.0 < self.grid_size.0 && cell.1 < self.grid_size.1
    }

    /// Invert the state of one cell. Passing an out-of-bounds coordinate
    /// is a caller bug, ruled out by the precondition.
    pub fn flip_cell(&mut self, cell: (usize, usize))
        requires
            old(self).wf(),
            in_grid(old(self).rows(), old(self).cols(), cell.0 as int, cell.1 as int),
        ensures
            final(self).wf(),
            final(self).rows() == old(self).rows(),
            final(self).cols() == old(self).cols(),
            final(self).speed() == old(self).speed(),
            final(self).is_running() == old(self).is_running(),
            final(self).generation() == old(self).generation(),
            final(self).cells()[cell.0 as int][cell.1 as int]
                == !old(self).cells()[cell.0 as int][cell.1 as int],
            forall|i: int, j: int|
                in_grid(old(self).rows(), old(self).cols(), i, j) && !(i == cell.0 && j == cell.1)
                    ==> final(self).cells()[i][j] == old(self).cells()[i][j],
    {
        proof {
            assert(self.grid@.len() == self.rows());
            assert(self.cells()[cell.0 as int] == self.grid@[cell.0 as int]@);
            assert(self.grid@[cell.0 as int]@.len() == self.cols());
        }
        let val = self.grid[cell.0][cell.1];
        self.grid[cell.0][cell.1] = !val;
        proof {
            let g0 = old(self).cells();
            let i0 = cell.0 as int;
            let j0 = cell.1 as int;
            assert forall|i: int| 0 <= i < self.rows() implies #[trigger] self.cells()[i]
                    == (if i == i0 { g0[i0].update(j0, !g0[i0][j0]) } else { g0[i] }) by {
                assert(self.cells()[i] == self.grid@[i]@);
                assert(g0[i] == old(self).grid@[i]@);
                if i != i0 {
                    assert(self.grid@[i] == old(self).grid@[i]);
                }
            }
        }
    }
    /// Count the live cells among the eight neighbors of `cell`, looking
    /// only at coordinates that lie inside the grid. This is the per-cell
    /// hot path of a generation step; it allocates nothing.
    pub fn find_live_neighbor_count(&self, cell: (usize, usize)) -> (n: u8)
        requires
            self.wf(),
            in_grid(self.rows(), self.cols(), cell.0 as int, cell.1 as int),
        ensures
            n == live_neighbor_count(self.cells(), self.rows(), self.cols(), cell.0 as int, cell.1 as int),
            n <= 8,
    {
        let (r, c) = cell;
        let rows = self.grid_size.0;
        let cols = self.grid_size.1;
        let ghost g = self.cells();
        let ghost ri = r as int;
        let ghost ci = c as int;
        proof {
            assert(self.grid@.len() == self.rows());
            assert forall|i: int| 0 <= i < self.rows() implies (#[trigger] self.grid@[i])@.len()
                    == self.cols() by {
                assert(self.cells()[i] == self.grid@[i]@);
            }
        }
        let mut n: u8 = 0;
        if r > 0 && c > 0 && self.grid[r - 1][c - 1] {
            n = n + 1;
        }
        assert(n == one_if_live(g, rows as int, cols as int, ri - 1, ci - 1));
        if r > 0 && self.grid[r - 1][c] {
            n = n + 1;
        }
        assert(n == one_if_live(g, rows as int, cols as int, ri - 1, ci - 1)
            + one_if_live(g, rows as int, cols as int, ri - 1, ci));
        if r > 0 && c + 1 < cols && self.grid[r - 1][c + 1] {
            n = n + 1;
        }
        if c > 0 && self.grid[r][c - 1] {
            n = n + 1;
        }
        assert(n == one_if_live(g, rows as int, cols as int, ri - 1, ci - 1)
            + one_if_live(g, rows as int, cols as int, ri - 1, ci)
            + one_if_live(g, rows as int, cols as int, ri - 1, ci + 1)
            + one_if_live(g, rows as int, cols as int, ri, ci - 1));
        if c + 1 < cols && self.grid[r][c + 1] {
            n = n + 1;
        }
        if r + 1 < rows && c > 0 && self.grid[r + 1][c - 1] {
            n = n + 1;
        }
        assert(n == one_if_live(g, rows as int, cols as int, ri - 1, ci - 1)
            + one_if_live(g, rows as int, cols as int, ri - 1, ci)
            + one_if_live(g, rows as int, cols as int, ri - 1, ci + 1)
            + one_if_live(g, rows as int, cols as int, ri, ci - 1)
            + one_if_live(g, rows as int, cols as int, ri, ci + 1)
            + one_if_live(g, rows as int, cols as int, ri + 1, ci - 1));
        if r + 1 < rows && self.grid[r + 1][c] {
            n = n + 1;
        }
        if r + 1 < rows && c + 1 < cols && self.grid[r + 1][c + 1] {
            n = n + 1;
        }
        n
    }

    /// Advance the grid by exactly one generation, whatever the run flag
    /// says: the manual single-step path usable while paused. Every cell's
    /// new state is decided by the grid as it stood before the call: the
    /// cells that must change are collected during the scan and toggled
    /// only after the full scan finishes, which makes the update of all
    /// cells simultaneous.
    #[verifier::loop_isolation(false)]
    pub fn step(&mut self)
        requires
            old(self).wf(),
            old(self).generation() < u32::MAX,
        ensures
            final(self).wf(),
            final(self).rows() == old(self).rows(),
            final(self).cols() == old(self).cols(),
            final(self).speed() == old(self).speed(),
            final(self).is_running() == old(self).is_running(),
            final(self).generation() == old(self).generation() + 1,
            forall|i: int, j: int|
                in_grid(old(self).rows(), old(self).cols(), i, j)
                    ==> final(self).cells()[i][j]
                        == step_cell(old(self).cells(), old(self).rows(), old(self).cols(), i, j),
    {
        self.round = self.round + 1;
        let rows = self.grid_size.0;
        let cols = self.grid_size.1;
        let ghost g0 = self.cells();
        let ghost rowsi = rows as int;
        let ghost colsi = cols as int;
        proof {
            assert(g0 == old(self).cells());
            assert(self.wf());
        }

        let mut to_flip: Vec<(usize, usize)> = Vec::new();
        let mut r: usize = 0;
        while r < rows
            invariant
                r <= rows,
                forall|k: int| 0 <= k < to_flip@.len()
                    ==> entry_ok(g0, rowsi, colsi, #[trigger] to_flip@[k])
                        && (to_flip@[k].0 as int) < r,
                forall|k1: int, k2: int| 0 <= k1 < k2 < to_flip@.len()
                    ==> scan_lt(#[trigger] to_flip@[k1], #[trigger] to_flip@[k2]),
                forall|i: int, j: int|
                    0 <= i < r && 0 <= j < colsi && flip_needed(g0, rowsi, colsi, i, j)
                        ==> listed_before(to_flip@, to_flip@.len() as int, i, j),
            decreases rows - r,
        {
            let mut c: usize = 0;
            while c < cols
                invariant
                    c <= cols,
                    forall|k: int| 0 <= k < to_flip@.len()
                        ==> entry_ok(g0, rowsi, colsi, #[trigger] to_flip@[k])
                            && scan_lt(to_flip@[k], (r, c)),
                    forall|k1: int, k2: int| 0 <= k1 < k2 < to_flip@.len()
                        ==> scan_lt(#[trigger] to_flip@[k1], #[trigger] to_flip@[k2]),
                    forall|i: int, j: int|
                        0 <= i < rowsi && 0 <= j < colsi && (i < r || (i == r && j < c))
                            && flip_needed(g0, rowsi, colsi, i, j)
                            ==> listed_before(to_flip@, to_flip@.len() as int, i, j),
                decreases cols - c,
            {
                proof {
                    assert(self.grid@.len() == rowsi);
                    assert(self.cells()[r as int] == self.grid@[r as int]@);
                }
                let live = self.grid[r][c];
                let neighbors = self.find_live_neighbor_count((r, c));
                let flips = if live {
                    neighbors < 2 || neighbors > 3
                } else {
                    neighbors == 3
                };
                proof {
                    assert(flips == flip_needed(g0, rowsi, colsi, r as int, c as int));
                }
                if flips {
                    let ghost pre = to_flip@;
                    to_flip.push((r, c));
                    proof {
                        assert(to_flip@ == pre.push((r, c)));
                        assert forall|i: int, j: int|
                            0 <= i < rowsi && 0 <= j < colsi && (i < r || (i == r && j < c))
                                && flip_needed(g0, rowsi, colsi, i, j)
                                implies listed_before(to_flip@, to_flip@.len() as int, i, j) by {
                            assert(listed_before(pre, pre.len() as int, i, j));
                            let k = choose|k: int|
                                0 <= k < pre.len() && (#[trigger] pre[k]).0 == i && pre[k].1 == j;
                            assert(to_flip@[k] == pre[k]);
                        }
                        assert(to_flip@[pre.len() as int] == ((r, c)));
                    }
                }
                c = c + 1;
            }
            r = r + 1;
        }

        let mut idx: usize = 0;
        while idx < to_flip.len()
            invariant
                idx <= to_flip.len(),
                self.wf(),
                self.rows() == rowsi,
                self.cols() == colsi,
                self.speed() == old(self).speed(),
                self.is_running() == old(self).is_running(),
                self.generation() == old(self).generation() + 1,
                forall|i: int, j: int|
                    in_grid(rowsi, colsi, i, j)
                        ==> #[trigger] self.cells()[i][j] == (if listed_before(
                            to_flip@,
                            idx as int,
                            i,
                            j,
                        ) {
                            !g0[i][j]
                        } else {
                            g0[i][j]
                        }),
            decreases to_flip.len() - idx,
        {
            let cell = to_flip[idx];
            proof {
                assert(entry_ok(g0, rowsi, colsi, to_flip@[idx as int]));
                assert forall|k: int| 0 <= k < idx implies !((#[trigger] to_flip@[k]).0 == cell.0
                    && to_flip@[k].1 == cell.1) by {
                    assert(scan_lt(to_flip@[k], to_flip@[idx as int]));
                }
                assert(!listed_before(to_flip@, idx as int, cell.0 as int, cell.1 as int));
            }
            let ghost mid = *self;
            self.flip_cell(cell);
            idx = idx + 1;
            proof {
                assert forall|i: int, j: int| in_grid(rowsi, colsi, i, j)
                    implies #[trigger] self.cells()[i][j] == (if listed_before(
                        to_flip@,
                        idx as int,
                        i,
                        j,
                    ) {
                        !g0[i][j]
                    } else {
                        g0[i][j]
                    }) by {
                    if i == cell.0 as int && j == cell.1 as int {
                        assert(to_flip@[idx - 1].0 == i && to_flip@[idx - 1].1 == j);
                        assert(listed_before(to_flip@, idx as int, i, j));
                    } else {
                        assert(self.cells()[i][j] == mid.cells()[i][j]);
                        assert(listed_before(to_flip@, idx as int, i, j) == listed_before(
                            to_flip@,
                            idx - 1,
                            i,
                            j,
                        )) by {
                            if listed_before(to_flip@, idx as int, i, j) {
                                let k = choose|k: int|
                                    0 <= k < idx && (#[trigger] to_flip@[k]).0 == i
                                        && to_flip@[k].1 == j;
                                assert(k < idx - 1);
                            }
                        }
                    }
                }
            }
        }

        proof {
            assert forall|i: int, j: int| in_grid(rowsi, colsi, i, j)
                implies self.cells()[i][j] == step_cell(g0, rowsi, colsi, i, j) by {
                if flip_needed(g0, rowsi, colsi, i, j) {
                    assert(listed_before(to_flip@, to_flip@.len() as int, i, j));
                } else {
                    assert(!listed_before(to_flip@, to_flip@.len() as int, i, j)) by {
                        if listed_before(to_flip@, to_flip@.len() as int, i, j) {
                            let k = choose|k: int|
                                0 <= k < to_flip@.len() && (#[trigger] to_flip@[k]).0 == i
                                    && to_flip@[k].1 == j;
                            assert(entry_ok(g0, rowsi, colsi, to_flip@[k]));
                        }
                    }
                }
            }
        }
    }

    /// Advance one generation when the simulation is running; while it is
    /// paused this entry point is a no-op that leaves the grid and the
    /// generation counter untouched. Single steps while paused go through
    /// `step` instead.
    pub fn update(&mut self)
        requires
            old(self).wf(),
            old(self).is_running() ==> old(self).generation() < u32::MAX,
        ensures
            final(self).wf(),
            final(self).rows() == old(self).rows(),
            final(self).cols() == old(self).cols(),
            final(self).speed() == old(self).speed(),
            final(self).is_running() == old(self).is_running(),
            !old(self).is_running() ==> *final(self) == *old(self),
            old(self).is_running() ==> final(self).generation() == old(self).generation() + 1,
            old(self).is_running() ==> forall|i: int, j: int|
                in_grid(old(self).rows(), old(self).cols(), i, j)
                    ==> final(self).cells()[i][j]
                        == step_cell(old(self).cells(), old(self).rows(), old(self).cols(), i, j),
    {
        if !self.running {
            return;
        }
        self.step();
    }

    /// Check an ordered list of expectations against the grid: true iff
    /// every listed coordinate's actual state equals the expected state.
    #[verifier::loop_isolation(false)]
    pub fn validate(&self, assumption_list: &Vec<((usize, usize), bool)>) -> (ok: bool)
        requires
            self.wf(),
            forall|k: int| 0 <= k < assumption_list@.len()
                ==> in_grid(
                    self.rows(),
                    self.cols(),
                    (#[trigger] assumption_list@[k]).0.0 as int,
                    assumption_list@[k].0.1 as int,
                ),
        ensures
            ok == forall|k: int| 0 <= k < assumption_list@.len()
                ==> self.cells()[(#[trigger] assumption_list@[k]).0.0 as int][assumption_list@[k].0.1 as int]
                    == assumption_list@[k].1,
    {
        let mut k: usize = 0;
        while k < assumption_list.len()
            invariant
                k <= assumption_list@.len(),
                forall|m: int| 0 <= m < k
                    ==> self.cells()[(#[trigger] assumption_list@[m]).0.0 as int][assumption_list@[m].0.1 as int]
                        == assumption_list@[m].1,
            decreases assumption_list@.len() - k,
        {
            let ((x, y), assumed_state) = assumption_list[k];
            proof {
                assert(self.grid@.len() == self.rows());
                assert(self.cells()[x as int] == self.grid@[x as int]@);
            }
            if self.grid[x][y] != assumed_state {
                return false;
            }
            k = k + 1;
        }
        true
    }

    /// Draw one row of the grid as text: one character per cell, a full
    /// block for a live cell and a light shade for a dead one, closed by
    /// a newline.
    #[verifier::loop_isolation(false)]
    pub fn render_row(&self, row: usize) -> (out: Vec<char>)
        requires
            self.wf(),
            (row as int) < self.rows(),
        ensures
            out@.len() == self.cols() + 1,
            forall|j: int| 0 <= j < self.cols()
                ==> out@[j] == cell_char(self.cells()[row as int][j]),
            out@[self.cols()] == '\n',
    {
        let cols = self.grid_size.1;
        proof {
            assert(self.grid@.len() == self.rows());
            assert(self.cells()[row as int] == self.grid@[row as int]@);
        }
        let mut out: Vec<char> = Vec::new();
        let mut j: usize = 0;
        while j < cols
            invariant
                j <= cols,
                out@.len() == j,
                forall|b: int| 0 <= b < j ==> out@[b] == cell_char(self.cells()[row as int][b]),
            decreases cols - j,
        {
            if self.grid[row][j] {
                out.push('█');
            } else {
                out.push('░');
            }
            j = j + 1;
        }
        out.push('\n');
        out
    }
}

/// Law: on a grid with no live cells at all, every cell's neighbor count
/// is zero.
pub proof fn lemma_dead_grid_neighbor_count_zero(
    g: Seq<Seq<bool>>,
    rows: int,
    cols: int,
    r: int,
    c: int,
)
    requires
        grid_wf(g, rows, cols),
        forall|i: int, j: int| in_grid(rows, cols, i, j) ==> !(#[trigger] g[i][j]),
        in_grid(rows, cols, r, c),
    ensures
        live_neighbor_count(g, rows, cols, r, c) == 0,
{
    assert(one_if_live(g, rows, cols, r - 1, c - 1) == 0);
    assert(one_if_live(g, rows, cols, r - 1, c) == 0);
    assert(one_if_live(g, rows, cols, r - 1, c + 1) == 0);
    assert(one_if_live(g, rows, cols, r, c - 1) == 0);
    assert(one_if_live(g, rows, cols, r, c + 1) == 0);
    assert(one_if_live(g, rows, cols, r + 1, c - 1) == 0);
    assert(one_if_live(g, rows, cols, r + 1, c) == 0);
    assert(one_if_live(g, rows, cols, r + 1, c + 1) == 0);
}

/// Law: there is no wraparound, so a cell on the boundary can only count
/// the neighbors that exist inside the grid: at most 5 on an edge and at
/// most 3 in a corner (8 anywhere).
pub proof fn lemma_boundary_neighbor_bound(
    g: Seq<Seq<bool>>,
    rows: int,
    cols: int,
    r: int,
    c: int,
)
    requires
        grid_wf(g, rows, cols),
        in_grid(rows, cols, r, c),
    ensures
        0 <= live_neighbor_count(g, rows, cols, r, c) <= 8,
        r == 0 || r == rows - 1 ==> live_neighbor_count(g, rows, cols, r, c) <= 5,
        c == 0 || c == cols - 1 ==> live_neighbor_count(g, rows, cols, r, c) <= 5,
        (r == 0 || r == rows - 1) && (c == 0 || c == cols - 1)
            ==> live_neighbor_count(g, rows, cols, r, c) <= 3,
{
}

/// Law: a live cell alone in the top-left corner has no live neighbor,
/// so one generation step kills it (underpopulation).
pub proof fn lemma_lone_corner_cell_dies(g: Seq<Seq<bool>>, rows: int, cols: int)
    requires
        grid_wf(g, rows, cols),
        rows >= 1,
        cols >= 1,
        g[0][0],
        forall|i: int, j: int|
            in_grid(rows, cols, i, j) && !(i == 0 && j == 0) ==> !(#[trigger] g[i][j]),
    ensures
        !step_cell(g, rows, cols, 0, 0),
{
    assert(one_if_live(g, rows, cols, 0, 1) == 0);
    assert(one_if_live(g, rows, cols, 1, 0) == 0);
    assert(one_if_live(g, rows, cols, 1, 1) == 0);
    assert(live_neighbor_count(g, rows, cols, 0, 0) == 0);
}

} // verus!
