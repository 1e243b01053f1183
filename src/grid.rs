use vstd::prelude::*;

verus! {

/// Cell matrix held by a `Vec` of rows, as a sequence of sequences.
pub open spec fn matrix_of(v: Vec<Vec<bool>>) -> Seq<Seq<bool>> {
    Seq::new(v@.len(), |i: int| v@[i]@)
}

/// `m` has `rows` rows of `cols` cells each.
pub open spec fn is_matrix(m: Seq<Seq<bool>>, rows: nat, cols: nat) -> bool {
    &&& m.len() == rows
    &&& forall|i: int| 0 <= i < m.len() ==> (#[trigger] m[i]).len() == cols
}

/// The cell at `(i, j)` lies inside `m` and is alive.
pub open spec fn alive_at(m: Seq<Seq<bool>>, i: int, j: int) -> bool {
    0 <= i < m.len() && 0 <= j < m[i].len() && m[i][j]
}

pub open spec fn live(m: Seq<Seq<bool>>, i: int, j: int) -> nat {
    if alive_at(m, i, j) {
        1
    } else {
        0
    }
}

/// Live cells among the eight positions around `(x, y)`; positions outside
/// the grid count as dead (no wraparound).
pub open spec fn neighbor_count(m: Seq<Seq<bool>>, x: int, y: int) -> nat {
    live(m, x - 1, y - 1) + live(m, x - 1, y) + live(m, x - 1, y + 1)
        + live(m, x, y - 1) + live(m, x, y + 1)
        + live(m, x + 1, y - 1) + live(m, x + 1, y) + live(m, x + 1, y + 1)
}

/// Fate of one cell: a live cell survives with 2 or 3 live neighbours,
/// a dead cell is born with exactly 3.
pub open spec fn next_alive(alive: bool, neighbors: nat) -> bool {
    if alive {
        neighbors == 2 || neighbors == 3
    } else {
        neighbors == 3
    }
}

/// The next generation of `m`, every cell computed from the current one.
pub open spec fn step(m: Seq<Seq<bool>>) -> Seq<Seq<bool>> {
    Seq::new(
        m.len(),
        |i: int| Seq::new(m[i].len(), |j: int| next_alive(m[i][j], neighbor_count(m, i, j))),
    )
}

/// What a grid holds: current cells, the saved snapshot, its dimensions and
/// the pause flag.
pub struct GridView {
    pub cells: Seq<Seq<bool>>,
    pub saved: Seq<Seq<bool>>,
    pub rows: nat,
    pub cols: nat,
    pub paused: bool,
}

impl GridView {
    pub open spec fn wf(self) -> bool {
        is_matrix(self.cells, self.rows, self.cols) && is_matrix(self.saved, self.rows, self.cols)
    }

    pub open spec fn stepped(self) -> GridView {
        GridView { cells: step(self.cells), ..self }
    }

    pub open spec fn restarted_with(self, fresh: Seq<Seq<bool>>) -> GridView {
        GridView { cells: fresh, ..self }
    }

    pub open spec fn snapshot_taken(self) -> GridView {
        GridView { saved: self.cells, ..self }
    }

    pub open spec fn snapshot_restored(self) -> GridView {
        GridView { cells: self.saved, ..self }
    }

    pub open spec fn pause_toggled(self) -> GridView {
        GridView { paused: !self.paused, ..self }
    }
}

/// Why a grid could not be read.
#[derive(Debug)]
pub enum GridError {
    /// The file could not be read; the message of the underlying failure.
    Io(String),
    /// A character other than `0` or `1`.
    Parse(char),
    /// Rows of differing lengths.
    InconsistentWidth,
}

pub struct Grid {
    saved: Vec<Vec<bool>>,
    grid: Vec<Vec<bool>>,
    rows: usize,
    cols: usize,
    paused: bool,
}

impl View for Grid {
    type V = GridView;

    closed spec fn view(&self) -> GridView {
        GridView {
            cells: matrix_of(self.grid),
            saved: matrix_of(self.saved),
            rows: self.rows as nat,
            cols: self.cols as nat,
            paused: self.paused,
        }
    }
}

/// Relies on rand::random::<bool>: a fair coin drawn from the thread-local
/// generator. Nothing is known of the outcome.
#[verifier::external_body]
fn random_cell() -> (r: bool) {
    rand::random::<bool>()
}

/// The `rows` by `cols` matrix whose cells are `draws` taken row by row:
/// cell `(i, j)` is `draws[i * cols + j]`.
pub open spec fn cells_from(draws: Seq<bool>, rows: nat, cols: nat) -> Seq<Seq<bool>> {
    Seq::new(rows, |i: int| draws.subrange(i * cols, i * cols + cols))
}

/// `rows * cols` independent coin draws.
fn draw_cells(rows: usize, cols: usize) -> (r: Vec<bool>)
    ensures
        r@.len() == rows * cols,
{
    let mut draws: Vec<bool> = Vec::new();
    let mut i: usize = 0;
    while i < rows
        invariant
            i <= rows,
            draws@.len() == i * cols,
        decreases rows - i,
    {
        let mut j: usize = 0;
        while j < cols
            invariant
                j <= cols,
                draws@.len() == i * cols + j,
            decreases cols - j,
        {
            draws.push(random_cell());
            j = j + 1;
        }
        i = i + 1;
        assert(draws@.len() == i * cols) by (nonlinear_arith)
            requires
                draws@.len() == (i - 1) * cols + cols,
        ;
    }
    draws
}

/// Lays `draws` out as a `rows` by `cols` matrix, row by row.
fn matrix_from_draws(draws: &Vec<bool>, rows: usize, cols: usize) -> (r: Vec<Vec<bool>>)
    requires
        draws@.len() == rows * cols,
    ensures
        matrix_of(r) == cells_from(draws@, rows as nat, cols as nat),
        is_matrix(matrix_of(r), rows as nat, cols as nat),
{
    let ghost d = draws@;
    let n = draws.len();
    let mut m: Vec<Vec<bool>> = Vec::new();
    let mut i: usize = 0;
    let mut k: usize = 0;
    while i < rows
        invariant
            d == draws@,
            d.len() == rows * cols,
            n == d.len(),
            i <= rows,
            k == i * cols,
            m@.len() == i,
            forall|t: int| 0 <= t < i ==> (#[trigger] m@[t])@.len() == cols,
            forall|t: int|
                0 <= t < i ==> (#[trigger] m@[t])@ == d.subrange(t * cols, t * cols + cols),
        decreases rows - i,
    {
        assert(i * cols + cols <= rows * cols) by (nonlinear_arith)
            requires
                i < rows,
        ;
        let mut row: Vec<bool> = Vec::new();
        let mut j: usize = 0;
        while j < cols
            invariant
                d == draws@,
                i * cols + cols <= d.len(),
                n == d.len(),
                j <= cols,
                row@.len() == j,
                k == i * cols + j,
                row@ == d.subrange(i * cols, i * cols + j),
            decreases cols - j,
        {
            row.push(draws[k]);
            k = k + 1;
            j = j + 1;
            assert(row@ =~= d.subrange(i * cols, i * cols + j));
        }
        m.push(row);
        i = i + 1;
        assert(k == i * cols) by (nonlinear_arith)
            requires
                k == (i - 1) * cols + cols,
        ;
    }
    assert(matrix_of(m) =~= cells_from(d, rows as nat, cols as nat));
    assert(is_matrix(matrix_of(m), rows as nat, cols as nat)) by {
        assert forall|t: int| 0 <= t < m@.len() implies (#[trigger] matrix_of(m)[t]).len() == cols by {
            assert(matrix_of(m)[t] == m@[t]@);
        }
    }
    m
}

/// A `rows` by `cols` matrix of independently drawn cells.
fn create_random_vec(rows: usize, cols: usize) -> (r: Vec<Vec<bool>>)
    ensures
        exists|draws: Seq<bool>|
            draws.len() == rows * cols && matrix_of(r) == cells_from(draws, rows as nat, cols as nat),
        is_matrix(matrix_of(r), rows as nat, cols as nat),
{
    let draws = draw_cells(rows, cols);
    matrix_from_draws(&draws, rows, cols)
}

/// A copy of the matrix held by `m`.
fn copy_matrix(m: &Vec<Vec<bool>>) -> (r: Vec<Vec<bool>>)
    ensures
        matrix_of(r) == matrix_of(*m),
{
    let mut out: Vec<Vec<bool>> = Vec::new();
    let mut i: usize = 0;
    while i < m.len()
        invariant
            i <= m@.len(),
            out@.len() == i,
            forall|k: int| 0 <= k < i ==> (#[trigger] out@[k])@ == m@[k]@,
        decreases m@.len() - i,
    {
        let src = &m[i];
        let mut row: Vec<bool> = Vec::new();
        let mut j: usize = 0;
        while j < src.len()
            invariant
                j <= src@.len(),
                row@ == src@.take(j as int),
            decreases src@.len() - j,
        {
            row.push(src[j]);
            j = j + 1;
            assert(row@ =~= src@.take(j as int));
        }
        assert(row@ =~= src@);
        out.push(row);
        i = i + 1;
    }
    assert(matrix_of(out) =~= matrix_of(*m));
    out
}

impl Grid {
    /// A grid of `rows` by `cols` random cells, running, whose snapshot is its
    /// initial state.
    pub fn new(rows: usize, cols: usize) -> (g: Grid)
        ensures
            g@.wf(),
            g@.rows == rows,
            g@.cols == cols,
            exists|draws: Seq<bool>|
                draws.len() == rows * cols && g@.cells == cells_from(draws, rows as nat, cols as nat),
            g@.saved == g@.cells,
            !g@.paused,
    {
        let grid = create_random_vec(rows, cols);
        Grid::from_cells(grid, rows, cols)
    }

    /// A running grid holding `cells` (a `rows` by `cols` matrix) both as its
    /// current state and as its snapshot.
    pub(crate) fn from_cells(cells: Vec<Vec<bool>>, rows: usize, cols: usize) -> (g: Grid)
        requires
            is_matrix(matrix_of(cells), rows as nat, cols as nat),
        ensures
            g@.wf(),
            g@.cells == matrix_of(cells),
            g@.saved == matrix_of(cells),
            g@.rows == rows,
            g@.cols == cols,
            !g@.paused,
    {
        let saved = copy_matrix(&cells);
        Grid { saved, grid: cells, rows, cols, paused: false }
    }

    /// Replaces the cells by `draws` laid out row by row (cell `(i, j)` takes
    /// `draws[i * cols + j]`); dimensions, snapshot and pause flag stay.
    pub fn restart_with(&mut self, draws: &Vec<bool>)
        requires
            old(self)@.wf(),
            draws@.len() == old(self)@.rows * old(self)@.cols,
        ensures
            final(self)@ == old(self)@.restarted_with(
                cells_from(draws@, old(self)@.rows, old(self)@.cols),
            ),
            final(self)@.wf(),
    {
        self.grid = matrix_from_draws(draws, self.rows, self.cols);
    }

    /// Replaces the cells by fresh random ones, one coin per cell drawn row
    /// by row; dimensions, snapshot and pause flag stay.
    pub fn restart(&mut self)
        requires
            old(self)@.wf(),
        ensures
            final(self)@.wf(),
            exists|draws: Seq<bool>|
                draws.len() == old(self)@.rows * old(self)@.cols && final(self)@ == old(
                    self,
                )@.restarted_with(cells_from(draws, old(self)@.rows, old(self)@.cols)),
    {
        let draws = draw_cells(self.rows, self.cols);
        self.restart_with(&draws);
    }

    /// Copies the current cells into the snapshot.
    pub fn save_state(&mut self)
        requires
            old(self)@.wf(),
        ensures
            final(self)@ == old(self)@.snapshot_taken(),
            final(self)@.wf(),
    {
        self.saved = copy_matrix(&self.grid);
    }

    /// Copies the snapshot back into the current cells.
    pub fn load_state(&mut self)
        requires
            old(self)@.wf(),
        ensures
            final(self)@ == old(self)@.snapshot_restored(),
            final(self)@.wf(),
    {
        self.grid = copy_matrix(&self.saved);
    }

    pub fn toggle_pause(&mut self)
        ensures
            final(self)@ == old(self)@.pause_toggled(),
    {
        self.paused = !self.paused;
    }

    pub fn paused(&self) -> (r: bool)
        ensures
            r == self@.paused,
    {
        self.paused
    }

    pub fn rows(&self) -> (r: usize)
        ensures
            r == self@.rows,
    {
        self.rows
    }

    pub fn cols(&self) -> (r: usize)
        ensures
            r == self@.cols,
    {
        self.cols
    }

    /// Row `i` of the current cells.
    pub(crate) fn row(&self, i: usize) -> (r: &Vec<bool>)
        requires
            self@.wf(),
            i < self@.rows,
        ensures
            r@ == self@.cells[i as int],
    {
        &self.grid[i]
    }

    /// Whether the cell at row `i`, column `j` is alive; false outside the grid.
    pub fn is_alive(&self, i: usize, j: usize) -> (r: bool)
        requires
            self@.wf(),
        ensures
            r == alive_at(self@.cells, i as int, j as int),
    {
        if i < self.rows && j < self.cols {
            assert(self@.cells[i as int] == self.grid@[i as int]@);
            self.grid[i][j]
        } else {
            false
        }
    }

    fn live_at(&self, i: usize, j: usize) -> (r: usize)
        requires
            self@.wf(),
        ensures
            r == live(self@.cells, i as int, j as int),
    {
        if self.is_alive(i, j) {
            1
        } else {
            0
        }
    }

    /// Number of live cells among the eight around `(x, y)`, clamped at the
    /// grid's edges.
    pub fn count_neighbors(&self, x: usize, y: usize) -> (r: usize)
        requires
            self@.wf(),
            x < self@.rows,
            y < self@.cols,
        ensures
            r == neighbor_count(self@.cells, x as int, y as int),
    {
        let mut count: usize = 0;
        if x > 0 {
            if y > 0 {
                count = count + self.live_at(x - 1, y - 1);
            }
            count = count + self.live_at(x - 1, y);
            count = count + self.live_at(x - 1, y + 1);
        }
        if y > 0 {
            count = count + self.live_at(x, y - 1);
        }
        count = count + self.live_at(x, y + 1);
        if y > 0 {
            count = count + self.live_at(x + 1, y - 1);
        }
        count = count + self.live_at(x + 1, y);
        count = count + self.live_at(x + 1, y + 1);
        count
    }

    /// Advances the grid by one generation; the new cells are all computed
    /// from the old ones before any is replaced.
    pub fn update_grid(&mut self)
        requires
            old(self)@.wf(),
        ensures
            final(self)@ == old(self)@.stepped(),
            final(self)@.wf(),
    {
        let ghost m = self@.cells;
        let mut new: Vec<Vec<bool>> = Vec::new();
        let mut i: usize = 0;
        while i < self.rows
            invariant
                self@.wf(),
                self@.cells == m,
                i <= self@.rows,
                new@.len() == i,
                forall|k: int| 0 <= k < i ==> (#[trigger] new@[k])@ == step(m)[k],
            decreases self@.rows - i,
        {
            let mut row: Vec<bool> = Vec::new();
            let mut j: usize = 0;
            while j < self.cols
                invariant
                    self@.wf(),
                    self@.cells == m,
                    i < self@.rows,
                    j <= self@.cols,
                    row@ == step(m)[i as int].take(j as int),
                decreases self@.cols - j,
            {
                let n = self.count_neighbors(i, j);
                let alive = self.grid[i][j];
                let next = if alive {
                    n == 2 || n == 3
                } else {
                    n == 3
                };
                row.push(next);
                j = j + 1;
                assert(row@ =~= step(m)[i as int].take(j as int));
            }
            assert(row@ =~= step(m)[i as int]);
            new.push(row);
            i = i + 1;
        }
        self.grid = new;
        assert(matrix_of(self.grid) =~= step(m));
    }
}

/// A cell has between 0 and 8 live neighbours; a corner cell at most 3, a
/// cell on an edge at most 5.
pub proof fn lemma_neighbor_count_bounds(m: Seq<Seq<bool>>, rows: nat, cols: nat, x: int, y: int)
    requires
        is_matrix(m, rows, cols),
        0 <= x < rows,
        0 <= y < cols,
    ensures
        0 <= neighbor_count(m, x, y) <= 8,
        (x == 0 || x == rows - 1) && (y == 0 || y == cols - 1) ==> neighbor_count(m, x, y) <= 3,
        (x == 0 || x == rows - 1 || y == 0 || y == cols - 1) ==> neighbor_count(m, x, y) <= 5,
{
}

/// Stepping depends on the cells alone: two grids holding the same cells
/// hold the same cells after a step.
pub proof fn lemma_step_deterministic(a: GridView, b: GridView)
    requires
        a.cells == b.cells,
    ensures
        a.stepped().cells == b.stepped().cells,
{
}

/// After a step, a live cell stays alive exactly when it had 2 or 3 live
/// neighbours, and a dead cell comes alive exactly when it had 3; the
/// dimensions are kept.
pub proof fn lemma_step_rule(m: Seq<Seq<bool>>, rows: nat, cols: nat, i: int, j: int)
    requires
        is_matrix(m, rows, cols),
        0 <= i < rows,
        0 <= j < cols,
    ensures
        is_matrix(step(m), rows, cols),
        m[i][j] ==> (step(m)[i][j] <==> (neighbor_count(m, i, j) == 2 || neighbor_count(m, i, j)
            == 3)),
        !m[i][j] ==> (step(m)[i][j] <==> neighbor_count(m, i, j) == 3),
{
}

/// Taking a snapshot, then stepping, restarting or pausing, then restoring
/// the snapshot gives back the cells held when the snapshot was taken.
pub proof fn lemma_snapshot_restores(g: GridView, fresh: Seq<Seq<bool>>)
    ensures
        g.snapshot_taken().stepped().snapshot_restored().cells == g.cells,
        g.snapshot_taken().restarted_with(fresh).snapshot_restored().cells == g.cells,
        g.snapshot_taken().pause_toggled().snapshot_restored().cells == g.cells,
        g.snapshot_taken().stepped().stepped().snapshot_restored().cells == g.cells,
{
}

/// Toggling the pause flag twice gives back the grid unchanged.
pub proof fn lemma_toggle_twice(g: GridView)
    ensures
        g.pause_toggled().pause_toggled() == g,
{
}

} // verus!
