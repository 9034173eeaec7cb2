//! The simulation engine: the `Life` grid and its generation step.

use vstd::prelude::*;

verus! {

/// The state of one grid position.
#[derive(Clone, Copy, Debug, PartialEq, Eq, Structural)]
pub enum Cell {
    Dead,
    Alive,
}

/// The contribution of one cell to a neighbor count: 1 for Alive, 0 for Dead.
pub open spec fn cell_weight(c: Cell) -> nat {
    match c {
        Cell::Dead => 0,
        Cell::Alive => 1,
    }
}

/// The column count of a grid: the length of its first row.
pub open spec fn cols_of(g: Seq<Seq<Cell>>) -> nat {
    if g.len() == 0 {
        0
    } else {
        g[0].len()
    }
}

/// A well-formed grid: at least one row, at least one column, and every row
/// of the same length as the first.
pub open spec fn grid_wf(g: Seq<Seq<Cell>>) -> bool {
    &&& g.len() >= 1
    &&& g[0].len() >= 1
    &&& forall|i: int| 0 <= i < g.len() ==> (#[trigger] g[i]).len() == g[0].len()
}

/// The abstract contents of a vector of rows.
pub open spec fn grid_view(cells: Seq<Vec<Cell>>) -> Seq<Seq<Cell>> {
    Seq::new(cells.len(), |i: int| cells[i]@)
}

/// A neighbor coordinate under the clamp-to-self boundary policy: an offset
/// that would leave `[0, size)` is replaced by the original coordinate.
pub open spec fn clamped(base: int, delta: int, size: int) -> int {
    if base + delta < 0 || base + delta >= size {
        base
    } else {
        base + delta
    }
}

/// What one offset pair contributes to a neighbor count: the weight of the
/// cell at the clamped position, or 0 when clamping lands back on the center
/// cell itself (that position is skipped, never counted as its own neighbor).
pub open spec fn offset_weight(g: Seq<Seq<Cell>>, row: int, col: int, di: int, dj: int) -> nat {
    let r2 = clamped(row, di, g.len() as int);
    let c2 = clamped(col, dj, cols_of(g) as int);
    if r2 == row && c2 == col {
        0
    } else {
        cell_weight(g[r2][c2])
    }
}

/// The number of Alive cells among the up to 8 neighbors of `(row, col)`,
/// with boundary offsets clamped to the cell's own coordinate and clamped
/// positions equal to the center skipped.
pub open spec fn neighbor_count_spec(g: Seq<Seq<Cell>>, row: int, col: int) -> nat {
    offset_weight(g, row, col, -1, -1) + offset_weight(g, row, col, -1, 0) + offset_weight(
        g,
        row,
        col,
        -1,
        1,
    ) + offset_weight(g, row, col, 0, -1) + offset_weight(g, row, col, 0, 1) + offset_weight(
        g,
        row,
        col,
        1,
        -1,
    ) + offset_weight(g, row, col, 1, 0) + offset_weight(g, row, col, 1, 1)
}

/// Each offset contributes at most one live cell.
proof fn lemma_offset_weight_bound(g: Seq<Seq<Cell>>, row: int, col: int, di: int, dj: int)
    ensures
        offset_weight(g, row, col, di, dj) <= 1,
{
    let r2 = clamped(row, di, g.len() as int);
    let c2 = clamped(col, dj, cols_of(g) as int);
    assert(cell_weight(g[r2][c2]) <= 1);
}

/// For every grid and every position, the neighbor count is at most 8.
pub proof fn lemma_neighbor_count_bound(g: Seq<Seq<Cell>>, row: int, col: int)
    ensures
        neighbor_count_spec(g, row, col) <= 8,
{
    lemma_offset_weight_bound(g, row, col, -1, -1);
    lemma_offset_weight_bound(g, row, col, -1, 0);
    lemma_offset_weight_bound(g, row, col, -1, 1);
    lemma_offset_weight_bound(g, row, col, 0, -1);
    lemma_offset_weight_bound(g, row, col, 0, 1);
    lemma_offset_weight_bound(g, row, col, 1, -1);
    lemma_offset_weight_bound(g, row, col, 1, 0);
    lemma_offset_weight_bound(g, row, col, 1, 1);
}

/// The successor of one cell: a Dead cell is born exactly on 3 live
/// neighbors; an Alive cell survives exactly on 2 or 3 (written `1 < n < 4`).
pub open spec fn next_cell(g: Seq<Seq<Cell>>, row: int, col: int) -> Cell {
    let n = neighbor_count_spec(g, row, col);
    match g[row][col] {
        Cell::Dead => if n == 3 {
            Cell::Alive
        } else {
            Cell::Dead
        },
        Cell::Alive => if 1 < n < 4 {
            Cell::Alive
        } else {
            Cell::Dead
        },
    }
}

/// The next generation: every cell's successor computed from the current
/// grid alone, on a grid of the same dimensions.
pub open spec fn next_grid(g: Seq<Seq<Cell>>) -> Seq<Seq<Cell>> {
    Seq::new(g.len(), |i: int| Seq::new(g[i].len(), |j: int| next_cell(g, i, j)))
}

/// Birth rule: a Dead cell becomes Alive in the next generation if and only
/// if it has exactly 3 live neighbors; on any other count it stays Dead.
pub proof fn lemma_birth_rule(g: Seq<Seq<Cell>>, row: int, col: int)
    requires
        grid_wf(g),
        0 <= row < g.len(),
        0 <= col < cols_of(g),
        g[row][col] == Cell::Dead,
    ensures
        neighbor_count_spec(g, row, col) == 3 ==> next_grid(g)[row][col] == Cell::Alive,
        neighbor_count_spec(g, row, col) != 3 ==> next_grid(g)[row][col] == Cell::Dead,
{
    assert(next_grid(g)[row][col] == next_cell(g, row, col));
}

/// Survival rule: an Alive cell stays Alive in the next generation if and
/// only if it has 2 or 3 live neighbors; on any other count it dies.
pub proof fn lemma_survival_rule(g: Seq<Seq<Cell>>, row: int, col: int)
    requires
        grid_wf(g),
        0 <= row < g.len(),
        0 <= col < cols_of(g),
        g[row][col] == Cell::Alive,
    ensures
        (neighbor_count_spec(g, row, col) == 2 || neighbor_count_spec(g, row, col) == 3)
            ==> next_grid(g)[row][col] == Cell::Alive,
        !(neighbor_count_spec(g, row, col) == 2 || neighbor_count_spec(g, row, col) == 3)
            ==> next_grid(g)[row][col] == Cell::Dead,
{
    assert(next_grid(g)[row][col] == next_cell(g, row, col));
}

/// Dimension invariant: the next generation keeps the row count and the
/// length of every row, and stays well-formed.
pub proof fn lemma_next_grid_dims(g: Seq<Seq<Cell>>)
    requires
        grid_wf(g),
    ensures
        next_grid(g).len() == g.len(),
        cols_of(next_grid(g)) == cols_of(g),
        forall|i: int| 0 <= i < g.len() ==> (#[trigger] next_grid(g)[i]).len() == g[i].len(),
        grid_wf(next_grid(g)),
{
    assert forall|i: int| 0 <= i < g.len() implies (#[trigger] next_grid(g)[i]).len()
        == g[i].len() by {
        assert(next_grid(g)[i] == Seq::new(g[i].len(), |j: int| next_cell(g, i, j)));
    }
}

/// Determinism: the successor grid is a function of the current grid alone,
/// so two engines holding equal grids advance to equal grids.
pub proof fn lemma_advance_deterministic(a: Life, b: Life)
    requires
        a@ == b@,
    ensures
        next_grid(a@) == next_grid(b@),
{
}

/// The character a cell is printed as: `#` for Alive, `.` for Dead.
pub open spec fn cell_char(c: Cell) -> char {
    match c {
        Cell::Dead => '.',
        Cell::Alive => '#',
    }
}

/// One grid row as printed, without the line break.
pub open spec fn row_chars(r: Seq<Cell>) -> Seq<char> {
    r.map_values(|c: Cell| cell_char(c))
}

/// A whole grid as printed: each row's characters followed by a line break.
pub open spec fn grid_chars(g: Seq<Seq<Cell>>) -> Seq<char>
    decreases g.len(),
{
    if g.len() == 0 {
        Seq::empty()
    } else {
        grid_chars(g.drop_last()) + row_chars(g.last()) + seq!['\n']
    }
}

/// One generation of a Game-of-Life board: a rectangular grid of cells with
/// its dimensions fixed at construction.
pub struct Life {
    rows: usize,
    cols: usize,
    grid: Vec<Vec<Cell>>,
}

impl View for Life {
    type V = Seq<Seq<Cell>>;

    closed spec fn view(&self) -> Seq<Seq<Cell>> {
        grid_view(self.grid@)
    }
}

impl Life {
    /// The stored dimensions agree with the grid itself.
    pub closed spec fn dims_ok(&self) -> bool {
        &&& self.rows == self.grid@.len()
        &&& self.cols as nat == cols_of(self@)
    }

    /// The engine's invariant: a well-formed grid with matching dimensions.
    pub open spec fn wf(&self) -> bool {
        &&& self.dims_ok()
        &&& grid_wf(self@)
    }

    /// Offsets an index by a signed step, reporting overflow past either end
    /// of `usize` as `None`.
    pub fn add(first: usize, second: isize) -> (r: Option<usize>)
        ensures
            r == (if first + second < 0 || first + second > usize::MAX {
                None::<usize>
            } else {
                Some((first + second) as usize)
            }),
    {
        first.checked_add_signed(second)
    }

    /// Applies the clamp-to-self policy to one coordinate.
    fn clamp_index(base: usize, delta: isize, size: usize) -> (r: usize)
        requires
            base < size,
            -1 <= delta <= 1,
        ensures
            r == clamped(base as int, delta as int, size as int),
    {
        match Self::add(base, delta) {
            None => base,
            Some(c) => {
                if c >= size {
                    base
                } else {
                    c
                }
            },
        }
    }

    /// The contribution of one offset pair to the neighbor count of
    /// `(row, col)`.
    fn offset_weight_at(&self, row: usize, col: usize, di: isize, dj: isize) -> (w: u8)
        requires
            self.wf(),
            row < self@.len(),
            col < cols_of(self@),
            -1 <= di <= 1,
            -1 <= dj <= 1,
        ensures
            w == offset_weight(self@, row as int, col as int, di as int, dj as int),
            w <= 1,
    {
        let r2 = Self::clamp_index(row, di, self.rows);
        let c2 = Self::clamp_index(col, dj, self.cols);
        proof {
            assert(self@[r2 as int] == self.grid@[r2 as int]@);
            assert(self@[r2 as int].len() == cols_of(self@));
        }
        if r2 == row && c2 == col {
            0
        } else {
            match self.grid[r2][c2] {
                Cell::Dead => 0,
                Cell::Alive => 1,
            }
        }
    }

    /// Counts the Alive cells among the up to 8 neighbors of `(row, col)`,
    /// using clamp-to-self addressing at the edges.  The result is always in
    /// `[0, 8]`.
    pub fn live_neighbor_count(&self, row: usize, col: usize) -> (count: u8)
        requires
            self.wf(),
            row < self@.len(),
            col < cols_of(self@),
        ensures
            count == neighbor_count_spec(self@, row as int, col as int),
            count <= 8,
    {
        let mut count: u8 = 0;
        count = count + self.offset_weight_at(row, col, -1, -1);
        count = count + self.offset_weight_at(row, col, -1, 0);
        count = count + self.offset_weight_at(row, col, -1, 1);
        count = count + self.offset_weight_at(row, col, 0, -1);
        count = count + self.offset_weight_at(row, col, 0, 1);
        count = count + self.offset_weight_at(row, col, 1, -1);
        count = count + self.offset_weight_at(row, col, 1, 0);
        count = count + self.offset_weight_at(row, col, 1, 1);
        count
    }

    /// Computes the rows of the next generation from the current grid.
    fn compute_next(&self) -> (out: Vec<Vec<Cell>>)
        requires
            self.wf(),
        ensures
            grid_view(out@) == next_grid(self@),
    {
        let rows = self.rows;
        let cols = self.cols;
        let mut out: Vec<Vec<Cell>> = Vec::new();
        let mut i: usize = 0;
        while i < rows
            invariant
                self.wf(),
                rows == self@.len(),
                cols == cols_of(self@),
                i <= rows,
                out@.len() == i,
                forall|r: int| 0 <= r < i ==> #[trigger] out@[r]@ == next_grid(self@)[r],
            decreases rows - i,
        {
            let mut new_row: Vec<Cell> = Vec::new();
            let mut j: usize = 0;
            while j < cols
                invariant
                    self.wf(),
                    rows == self@.len(),
                    cols == cols_of(self@),
                    i < rows,
                    j <= cols,
                    new_row@.len() == j,
                    forall|c: int| 0 <= c < j ==> new_row@[c] == next_cell(
                        self@,
                        i as int,
                        c,
                    ),
                decreases cols - j,
            {
                proof {
                    assert(self@[i as int] == self.grid@[i as int]@);
                    assert(self@[i as int].len() == cols);
                }
                let n = self.live_neighbor_count(i, j);
                let cell = match self.grid[i][j] {
                    Cell::Dead => if n == 3 {
                        Cell::Alive
                    } else {
                        Cell::Dead
                    },
                    Cell::Alive => if n > 1 && n < 4 {
                        Cell::Alive
                    } else {
                        Cell::Dead
                    },
                };
                new_row.push(cell);
                j += 1;
            }
            proof {
                lemma_next_grid_dims(self@);
                assert(new_row@ =~= next_grid(self@)[i as int]);
            }
            out.push(new_row);
            i += 1;
        }
        proof {
            assert(grid_view(out@) =~= next_grid(self@));
        }
        out
    }

    /// Advances the grid by one generation: every cell's next state is
    /// computed from the current grid, and the grid is then replaced
    /// wholesale.  The dimensions never change.
    pub fn next(&mut self)
        requires
            old(self).wf(),
        ensures
            final(self).wf(),
            final(self)@ == next_grid(old(self)@),
            final(self)@.len() == old(self)@.len(),
            cols_of(final(self)@) == cols_of(old(self)@),
    {
        let new_grid = self.compute_next();
        proof {
            lemma_next_grid_dims(self@);
        }
        self.grid = new_grid;
    }

    /// Builds an engine from explicit rows; `None` when the rows do not form
    /// a well-formed grid.
    pub fn from_rows(cells: Vec<Vec<Cell>>) -> (r: Option<Life>)
        ensures
            r is Some <==> grid_wf(grid_view(cells@)),
            r matches Some(life) ==> life.wf() && life@ == grid_view(cells@),
    {
        if cells.len() == 0 {
            return None;
        }
        let cols = cells[0].len();
        if cols == 0 {
            return None;
        }
        let mut i: usize = 1;
        while i < cells.len()
            invariant
                1 <= i <= cells@.len(),
                cols == cells@[0]@.len(),
                forall|k: int| 0 <= k < i ==> (#[trigger] cells@[k])@.len() == cols,
            decreases cells@.len() - i,
        {
            if cells[i].len() != cols {
                assert(grid_view(cells@)[i as int].len() != grid_view(cells@)[0].len());
                return None;
            }
            i += 1;
        }
        let life = Life { rows: cells.len(), cols, grid: cells };
        assert(life@ =~= grid_view(life.grid@));
        Some(life)
    }

    /// The number of rows.
    pub fn rows(&self) -> (r: usize)
        requires
            self.wf(),
        ensures
            r == self@.len(),
    {
        self.rows
    }

    /// The number of columns.
    pub fn cols(&self) -> (r: usize)
        requires
            self.wf(),
        ensures
            r == cols_of(self@),
    {
        self.cols
    }

    /// Writes the grid as text: `rows` lines of `cols` characters, `#` for
    /// Alive and `.` for Dead, each line closed by `\n`.
    pub fn render(&self) -> (out: String)
        requires
            self.wf(),
        ensures
            out@ == grid_chars(self@),
    {
        let mut out = String::new();
        let mut i: usize = 0;
        while i < self.rows
            invariant
                self.wf(),
                i <= self@.len(),
                self.rows == self@.len(),
                self.cols == cols_of(self@),
                out@ == grid_chars(self@.subrange(0, i as int)),
            decreases self@.len() - i,
        {
            proof {
                assert(self@[i as int] == self.grid@[i as int]@);
                assert(self@[i as int].len() == cols_of(self@));
            }
            let ghost row_done: Seq<char> = grid_chars(self@.subrange(0, i as int));
            let mut j: usize = 0;
            while j < self.cols
                invariant
                    self.wf(),
                    i < self@.len(),
                    j <= cols_of(self@),
                    self.rows == self@.len(),
                    self.cols == cols_of(self@),
                    self@[i as int].len() == cols_of(self@),
                    out@ == row_done + row_chars(self@[i as int].subrange(0, j as int)),
                decreases cols_of(self@) - j,
            {
                proof {
                    assert(self@[i as int] == self.grid@[i as int]@);
                }
                match self.grid[i][j] {
                    Cell::Alive => out.append("#"),
                    Cell::Dead => out.append("."),
                }
                proof {
                    reveal_strlit("#");
                    reveal_strlit(".");
                    let r = self@[i as int];
                    assert(row_chars(r.subrange(0, j + 1)) =~= row_chars(
                        r.subrange(0, j as int),
                    ) + seq![cell_char(r[j as int])]);
                    assert(out@ =~= row_done + row_chars(r.subrange(0, j + 1)));
                }
                j += 1;
            }
            out.append("\n");
            proof {
                reveal_strlit("\n");
                let g = self@;
                let r = g[i as int];
                assert(r.subrange(0, r.len() as int) =~= r);
                let done = g.subrange(0, i + 1);
                assert(done.drop_last() =~= g.subrange(0, i as int));
                assert(done.last() == r);
                assert(out@ =~= grid_chars(done.drop_last()) + row_chars(done.last()) + seq![
                    '\n',
                ]);
                assert(out@ == grid_chars(done));
            }
            i += 1;
        }
        proof {
            assert(self@.subrange(0, self@.len() as int) =~= self@);
        }
        out
    }

    /// Reads one cell.
    pub fn get(&self, row: usize, col: usize) -> (c: Cell)
        requires
            self.wf(),
            row < self@.len(),
            col < cols_of(self@),
        ensures
            c == self@[row as int][col as int],
    {
        self.grid[row][col]
    }
}

} // verus!

