//! The grid engine: a rectangular collection of cells with population,
//! flood-fill reveal, chord reveal, flagging, counting, win detection, and
//! highlight management.

use vstd::prelude::*;

use crate::cell::{Cell, CellType};

verus! {

/// A cell position: row and column indices from the top-left corner.
#[derive(Clone, Copy, Debug, Default, Eq, Hash, PartialEq, Structural)]
pub struct GridLoc {
    pub row: usize,
    pub col: usize,
}

/// Grid dimensions: positive row and column counts.
#[derive(Clone, Copy, Debug, Default, Eq, PartialEq, Structural)]
pub struct GridSize {
    pub rows: usize,
    pub cols: usize,
}

/// A requested number of mines.
pub type MinesAmt = usize;

/// Dimensions and mine count for a game, as chosen by the caller.
#[derive(Clone, Copy, Debug)]
pub struct GridConfig {
    pub size: GridSize,
    pub mines: MinesAmt,
}

/// Outcome of revealing one cell (directly or through a cascade).
#[derive(Clone, Copy, Debug, PartialEq, Eq, Structural)]
pub enum CellRevealResult {
    Success,
    Mine,
    AlreadyRevealed,
    Flagged,
    OutOfBounds,
}

/// Outcome of toggling a flag. A flagged cell toggles back to hidden, so
/// there is no already-flagged case.
#[derive(Clone, Copy, Debug, PartialEq, Eq, Structural)]
pub enum CellFlagResult {
    Success,
    AlreadyRevealed,
    OutOfBounds,
}

/// Outcome of a chord reveal. `Mines` carries every neighbor whose reveal hit
/// a mine.
#[derive(Debug, PartialEq, Eq)]
pub enum CellChordResult {
    Success,
    Mines(Vec<GridLoc>),
    InvalidFlagCount,
    Hidden,
    Flagged,
    OutOfBounds,
}

/// The playing field: `rows x cols` cells, plus whether mines have been
/// placed yet. Mines are placed exactly once, on the first reveal intent.
#[derive(Debug)]
pub struct Grid {
    cells: Vec<Vec<Cell>>,
    populated: bool,
}

impl Grid {
    /// Number of rows.
    pub closed spec fn rows_spec(&self) -> int {
        self.cells@.len() as int
    }

    /// Number of columns.
    pub closed spec fn cols_spec(&self) -> int {
        self.cells@[0]@.len() as int
    }

    /// Whether mine placement has happened.
    pub closed spec fn is_populated(&self) -> bool {
        self.populated
    }

    /// The cell at row `r`, column `c`.
    pub closed spec fn cell_spec(&self, r: int, c: int) -> Cell {
        self.cells@[r]@[c]
    }

    /// Whether `(r, c)` lies on the grid.
    pub open spec fn in_bounds(&self, r: int, c: int) -> bool {
        0 <= r < self.rows_spec() && 0 <= c < self.cols_spec()
    }

    /// Whether `loc` lies on the grid.
    pub open spec fn loc_in_bounds(&self, loc: GridLoc) -> bool {
        self.in_bounds(loc.row as int, loc.col as int)
    }

    /// Interaction state of the cell at `(r, c)`.
    pub open spec fn kind(&self, r: int, c: int) -> CellType {
        self.cell_spec(r, c).cell_type
    }

    /// Whether the cell at `(r, c)` holds a mine.
    pub open spec fn mine(&self, r: int, c: int) -> bool {
        self.cell_spec(r, c).is_mine
    }

    /// Whether the cell at `(r, c)` carries the highlight mark.
    pub open spec fn highlighted(&self, r: int, c: int) -> bool {
        self.cell_spec(r, c).highlight
    }

    /// The representation is rectangular: every row has `cols_spec()` cells.
    pub closed spec fn rect(&self) -> bool {
        forall|i: int|
            0 <= i < self.cells@.len() ==> (#[trigger] self.cells@[i])@.len()
                == self.cells@[0]@.len()
    }

    /// Well-formedness: at least one row and column, a cell count that fits
    /// in `usize`, and no mines before population.
    pub open spec fn wf(&self) -> bool {
        &&& 1 <= self.rows_spec()
        &&& 1 <= self.cols_spec()
        &&& self.rows_spec() * self.cols_spec() <= usize::MAX as int
        &&& self.rect()
        &&& (!self.is_populated() ==> forall|r: int, c: int|
            self.in_bounds(r, c) ==> !(#[trigger] self.mine(r, c)))
    }

    /// A well-formed grid's dimensions each fit in `usize`.
    pub proof fn lemma_dims_bounded(&self)
        requires
            self.wf(),
        ensures
            self.rows_spec() <= usize::MAX as int,
            self.cols_spec() <= usize::MAX as int,
    {
        assert(self.rows_spec() <= usize::MAX as int && self.cols_spec() <= usize::MAX as int)
            by (nonlinear_arith)
            requires
                1 <= self.rows_spec(),
                1 <= self.cols_spec(),
                self.rows_spec() * self.cols_spec() <= usize::MAX as int,
        ;
    }

    /// Both grids have the same dimensions.
    pub open spec fn same_size(&self, other: &Grid) -> bool {
        self.rows_spec() == other.rows_spec() && self.cols_spec() == other.cols_spec()
    }

    /// Both grids agree on every cell, on their dimensions, and on whether
    /// they are populated.
    pub open spec fn same_state(&self, other: &Grid) -> bool {
        &&& self.same_size(other)
        &&& self.is_populated() == other.is_populated()
        &&& forall|r: int, c: int|
            self.in_bounds(r, c) ==> #[trigger] self.cell_spec(r, c) == other.cell_spec(r, c)
    }

    // ==================== Constructor ====================

    /// Creates a new grid with the specified dimensions.
    ///
    /// All cells start hidden, mine-free, and unhighlighted. Call
    /// `populate_mines` to place mines on the first click.
    pub fn new(size: GridSize) -> (g: Grid)
        requires
            1 <= size.rows,
            1 <= size.cols,
            size.rows * size.cols <= usize::MAX,
        ensures
            g.wf(),
            g.rows_spec() == size.rows,
            g.cols_spec() == size.cols,
            !g.is_populated(),
            forall|r: int, c: int|
                g.in_bounds(r, c) ==> #[trigger] g.cell_spec(r, c) == (Cell {
                    cell_type: CellType::Hidden,
                    is_mine: false,
                    highlight: false,
                }),
    {
        let blank = Cell { cell_type: CellType::Hidden, is_mine: false, highlight: false };
        let mut cells: Vec<Vec<Cell>> = Vec::new();
        let mut r: usize = 0;
        while r < size.rows
            invariant
                r <= size.rows,
                cells@.len() == r,
                forall|i: int|
                    0 <= i < r ==> (#[trigger] cells@[i])@ == Seq::new(
                        size.cols as nat,
                        |j: int| blank,
                    ),
            decreases size.rows - r,
        {
            let mut row: Vec<Cell> = Vec::new();
            let mut c: usize = 0;
            while c < size.cols
                invariant
                    c <= size.cols,
                    row@ == Seq::new(c as nat, |j: int| blank),
                decreases size.cols - c,
            {
                row.push(blank);
                proof {
                    assert(row@ =~= Seq::new((c + 1) as nat, |j: int| blank));
                }
                c = c + 1;
            }
            cells.push(row);
            r = r + 1;
        }
        let g = Grid { cells, populated: false };
        proof {
            assert(g.rect());
            assert(forall|rr: int, cc: int|
                g.in_bounds(rr, cc) ==> #[trigger] g.cell_spec(rr, cc) == blank);
        }
        g
    }

    // ==================== Internal cell updates ====================

    /// Sets the interaction state of one cell, leaving everything else as it
    /// was.
    pub(crate) fn set_kind(&mut self, r: usize, c: usize, k: CellType)
        requires
            old(self).wf(),
            old(self).in_bounds(r as int, c as int),
        ensures
            final (self).wf(),
            final (self).same_size(old(self)),
            final (self).is_populated() == old(self).is_populated(),
            final (self).cell_spec(r as int, c as int) == (Cell {
                cell_type: k,
                ..old(self).cell_spec(r as int, c as int)
            }),
            forall|rr: int, cc: int|
                old(self).in_bounds(rr, cc) && (rr != r || cc != c)
                    ==> #[trigger] final (self).cell_spec(rr, cc) == old(self).cell_spec(rr, cc),
    {
        let ghost pre = *self;
        self.cells[r][c].cell_type = k;
        proof {
            assert(self.cells@[r as int]@ =~= pre.cells@[r as int]@.update(
                c as int,
                Cell { cell_type: k, ..pre.cell_spec(r as int, c as int) },
            ));
            assert(self.rect());
            assert forall|rr: int, cc: int|
                !self.is_populated() && self.in_bounds(rr, cc) implies !(#[trigger] self.mine(
                rr,
                cc,
            )) by {
                if rr == r && cc == c {
                    assert(self.cell_spec(rr, cc).is_mine == pre.cell_spec(rr, cc).is_mine);
                } else {
                    assert(self.cell_spec(rr, cc) == pre.cell_spec(rr, cc));
                }
                assert(!pre.mine(rr, cc));
            }
        }
    }

    /// Sets or clears the highlight mark of one cell, leaving everything else
    /// as it was.
    pub(crate) fn set_highlight(&mut self, r: usize, c: usize, h: bool)
        requires
            old(self).wf(),
            old(self).in_bounds(r as int, c as int),
        ensures
            final (self).wf(),
            final (self).same_size(old(self)),
            final (self).is_populated() == old(self).is_populated(),
            final (self).cell_spec(r as int, c as int) == (Cell {
                highlight: h,
                ..old(self).cell_spec(r as int, c as int)
            }),
            forall|rr: int, cc: int|
                old(self).in_bounds(rr, cc) && (rr != r || cc != c)
                    ==> #[trigger] final (self).cell_spec(rr, cc) == old(self).cell_spec(rr, cc),
    {
        let ghost pre = *self;
        self.cells[r][c].highlight = h;
        proof {
            assert(self.cells@[r as int]@ =~= pre.cells@[r as int]@.update(
                c as int,
                Cell { highlight: h, ..pre.cell_spec(r as int, c as int) },
            ));
            assert(self.rect());
            assert forall|rr: int, cc: int|
                !self.is_populated() && self.in_bounds(rr, cc) implies !(#[trigger] self.mine(
                rr,
                cc,
            )) by {
                if rr == r && cc == c {
                    assert(self.cell_spec(rr, cc).is_mine == pre.cell_spec(rr, cc).is_mine);
                } else {
                    assert(self.cell_spec(rr, cc) == pre.cell_spec(rr, cc));
                }
                assert(!pre.mine(rr, cc));
            }
        }
    }

    /// Places a mine in one cell, leaving everything else as it was. Only
    /// population uses this, after marking the grid populated.
    pub(crate) fn place_mine(&mut self, r: usize, c: usize)
        requires
            old(self).wf(),
            old(self).in_bounds(r as int, c as int),
            old(self).is_populated(),
        ensures
            final (self).wf(),
            final (self).same_size(old(self)),
            final (self).is_populated(),
            final (self).cell_spec(r as int, c as int) == (Cell {
                is_mine: true,
                ..old(self).cell_spec(r as int, c as int)
            }),
            forall|rr: int, cc: int|
                old(self).in_bounds(rr, cc) && (rr != r || cc != c)
                    ==> #[trigger] final (self).cell_spec(rr, cc) == old(self).cell_spec(rr, cc),
    {
        let ghost pre = *self;
        self.cells[r][c].is_mine = true;
        proof {
            assert(self.cells@[r as int]@ =~= pre.cells@[r as int]@.update(
                c as int,
                Cell { is_mine: true, ..pre.cell_spec(r as int, c as int) },
            ));
            assert(self.rect());
        }
    }

    /// Marks the grid populated. Population does this before placing mines.
    pub(crate) fn mark_populated(&mut self)
        requires
            old(self).wf(),
        ensures
            final (self).wf(),
            final (self).same_size(old(self)),
            final (self).is_populated(),
            forall|rr: int, cc: int|
                old(self).in_bounds(rr, cc) ==> #[trigger] final (self).cell_spec(rr, cc)
                    == old(self).cell_spec(rr, cc),
    {
        self.populated = true;
    }

    // ==================== Dimension Accessors ====================

    /// Returns the number of rows in the grid.
    pub fn rows(&self) -> (n: usize)
        requires
            self.wf(),
        ensures
            n == self.rows_spec(),
    {
        self.cells.len()
    }

    /// Returns the number of columns in the grid.
    pub fn cols(&self) -> (n: usize)
        requires
            self.wf(),
        ensures
            n == self.cols_spec(),
    {
        self.cells[0].len()
    }

    // ==================== Cell Accessors ====================

    /// Returns the cell at the specified location, if it is on the grid.
    pub fn get(&self, row: usize, col: usize) -> (r: Option<Cell>)
        requires
            self.wf(),
        ensures
            match r {
                Some(cell) => self.in_bounds(row as int, col as int) && cell == self.cell_spec(
                    row as int,
                    col as int,
                ),
                None => !self.in_bounds(row as int, col as int),
            },
    {
        if row < self.rows() && col < self.cols() {
            Some(self.cells[row][col])
        } else {
            None
        }
    }
}


/// The predicate a mine count uses: whether a cell holds a mine.
pub open spec fn mine_pred() -> spec_fn(Cell) -> bool {
    |cell: Cell| cell.is_mine
}

/// The predicate a flag count uses: whether a cell is flagged.
pub open spec fn flag_pred() -> spec_fn(Cell) -> bool {
    |cell: Cell| cell.cell_type is Flagged
}

impl Grid {
    // ==================== Counting: specification ====================

    /// Number of cells among the first `n` of row `r` satisfying `p`.
    pub open spec fn row_count(&self, p: spec_fn(Cell) -> bool, r: int, n: int) -> int
        decreases n,
    {
        if n <= 0 {
            0
        } else {
            self.row_count(p, r, n - 1) + if p(self.cell_spec(r, n - 1)) {
                1int
            } else {
                0int
            }
        }
    }

    /// Number of cells in the first `r` full rows satisfying `p`.
    pub open spec fn grid_count_upto(&self, p: spec_fn(Cell) -> bool, r: int) -> int
        decreases r,
    {
        if r <= 0 {
            0
        } else {
            self.grid_count_upto(p, r - 1) + self.row_count(p, r - 1, self.cols_spec())
        }
    }

    /// Number of cells in the whole grid satisfying `p`.
    pub open spec fn grid_count(&self, p: spec_fn(Cell) -> bool) -> int {
        self.grid_count_upto(p, self.rows_spec())
    }

    /// Total number of mines.
    pub open spec fn count_mines_spec(&self) -> int {
        self.grid_count(mine_pred())
    }

    /// Total number of flagged cells.
    pub open spec fn count_flags_spec(&self) -> int {
        self.grid_count(flag_pred())
    }

    /// A partial row count never exceeds the number of cells counted.
    pub proof fn lemma_row_count_bounds(&self, p: spec_fn(Cell) -> bool, r: int, n: int)
        ensures
            0 <= self.row_count(p, r, n) <= if n <= 0 {
                0int
            } else {
                n
            },
        decreases n,
    {
        if n > 0 {
            self.lemma_row_count_bounds(p, r, n - 1);
        }
    }

    /// A partial grid count never exceeds the number of cells counted.
    pub proof fn lemma_grid_count_upto_bounds(&self, p: spec_fn(Cell) -> bool, r: int)
        ensures
            0 <= self.grid_count_upto(p, r) <= if r <= 0 {
                0int
            } else {
                r * self.cols_spec()
            },
        decreases r,
    {
        if r > 0 {
            self.lemma_grid_count_upto_bounds(p, r - 1);
            self.lemma_row_count_bounds(p, r - 1, self.cols_spec());
            assert((r - 1) * self.cols_spec() + self.cols_spec() == r * self.cols_spec())
                by (nonlinear_arith);
            if r - 1 > 0 {
                assert(0 <= (r - 1) * self.cols_spec()) by (nonlinear_arith)
                    requires 0 <= r - 1 && 0 <= self.cols_spec();
            }
        }
    }

    /// Two grids that classify every cell of a row alike have the same row
    /// counts.
    pub proof fn lemma_row_count_congruent(
        &self,
        other: &Grid,
        p: spec_fn(Cell) -> bool,
        q: spec_fn(Cell) -> bool,
        r: int,
        n: int,
    )
        requires
            forall|c: int| 0 <= c < n ==> p(#[trigger] self.cell_spec(r, c)) == q(
                other.cell_spec(r, c),
            ),
        ensures
            self.row_count(p, r, n) == other.row_count(q, r, n),
        decreases n,
    {
        if n > 0 {
            self.lemma_row_count_congruent(other, p, q, r, n - 1);
        }
    }

    /// Two grids of the same width that classify every cell alike have the
    /// same counts.
    pub proof fn lemma_grid_count_congruent(
        &self,
        other: &Grid,
        p: spec_fn(Cell) -> bool,
        q: spec_fn(Cell) -> bool,
        r: int,
    )
        requires
            self.cols_spec() == other.cols_spec(),
            forall|rr: int, c: int|
                0 <= rr < r && 0 <= c < self.cols_spec() ==> p(
                    #[trigger] self.cell_spec(rr, c),
                ) == q(other.cell_spec(rr, c)),
        ensures
            self.grid_count_upto(p, r) == other.grid_count_upto(q, r),
        decreases r,
    {
        if r > 0 {
            self.lemma_grid_count_congruent(other, p, q, r - 1);
            self.lemma_row_count_congruent(other, p, q, r - 1, self.cols_spec());
        }
    }

    /// Changing one cell changes a count by the difference of the
    /// indicators at that cell.
    pub proof fn lemma_grid_count_update(
        &self,
        other: &Grid,
        p: spec_fn(Cell) -> bool,
        r: int,
        c: int,
        upto: int,
    )
        requires
            self.cols_spec() == other.cols_spec(),
            0 <= c < self.cols_spec(),
            0 <= r,
            forall|rr: int, cc: int|
                0 <= rr < upto && 0 <= cc < self.cols_spec() && (rr != r || cc != c)
                    ==> #[trigger] self.cell_spec(rr, cc) == other.cell_spec(rr, cc),
        ensures
            r < upto ==> self.grid_count_upto(p, upto) - other.grid_count_upto(p, upto)
                == (if p(self.cell_spec(r, c)) { 1int } else { 0int })
                    - (if p(other.cell_spec(r, c)) { 1int } else { 0int }),
            r >= upto ==> self.grid_count_upto(p, upto) == other.grid_count_upto(p, upto),
        decreases upto,
    {
        if upto > 0 {
            self.lemma_grid_count_update(other, p, r, c, upto - 1);
            if r == upto - 1 {
                self.lemma_row_count_update(other, p, r, c, self.cols_spec());
            } else {
                self.lemma_row_count_congruent(other, p, p, upto - 1, self.cols_spec());
            }
        }
    }

    /// Row version of the count-update lemma.
    pub proof fn lemma_row_count_update(
        &self,
        other: &Grid,
        p: spec_fn(Cell) -> bool,
        r: int,
        c: int,
        upto: int,
    )
        requires
            0 <= c,
            forall|cc: int|
                0 <= cc < upto && cc != c ==> #[trigger] self.cell_spec(r, cc)
                    == other.cell_spec(r, cc),
        ensures
            c < upto ==> self.row_count(p, r, upto) - other.row_count(p, r, upto)
                == (if p(self.cell_spec(r, c)) { 1int } else { 0int })
                    - (if p(other.cell_spec(r, c)) { 1int } else { 0int }),
            c >= upto ==> self.row_count(p, r, upto) == other.row_count(p, r, upto),
        decreases upto,
    {
        if upto > 0 {
            self.lemma_row_count_update(other, p, r, c, upto - 1);
        }
    }

    /// If `p` implies `q` on every counted cell, `p` counts no more than
    /// `q`; and when the two counts agree, `q` implies `p` right back.
    pub proof fn lemma_row_count_subset(&self, p: spec_fn(Cell) -> bool, q: spec_fn(Cell) -> bool, r: int, n: int)
        requires
            forall|c: int|
                0 <= c < n && p(#[trigger] self.cell_spec(r, c)) ==> q(self.cell_spec(r, c)),
        ensures
            self.row_count(p, r, n) <= self.row_count(q, r, n),
            self.row_count(p, r, n) == self.row_count(q, r, n) ==> forall|c: int|
                0 <= c < n && q(#[trigger] self.cell_spec(r, c)) ==> p(self.cell_spec(r, c)),
        decreases n,
    {
        if n > 0 {
            self.lemma_row_count_subset(p, q, r, n - 1);
        }
    }

    /// Grid version of the subset-count lemma: pointwise implication bounds
    /// the counts, and equal counts force pointwise equivalence.
    pub proof fn lemma_grid_count_subset(&self, p: spec_fn(Cell) -> bool, q: spec_fn(Cell) -> bool, r: int)
        requires
            forall|rr: int, c: int|
                0 <= rr < r && 0 <= c < self.cols_spec() && p(#[trigger] self.cell_spec(rr, c))
                    ==> q(self.cell_spec(rr, c)),
        ensures
            self.grid_count_upto(p, r) <= self.grid_count_upto(q, r),
            self.grid_count_upto(p, r) == self.grid_count_upto(q, r) ==> forall|rr: int, c: int|
                0 <= rr < r && 0 <= c < self.cols_spec() && q(#[trigger] self.cell_spec(rr, c))
                    ==> p(self.cell_spec(rr, c)),
        decreases r,
    {
        if r > 0 {
            self.lemma_grid_count_subset(p, q, r - 1);
            self.lemma_row_count_subset(p, q, r - 1, self.cols_spec());
        }
    }

    // ==================== Counting: executable ====================

    /// Returns the total number of mines in the grid.
    pub fn count_mines(&self) -> (n: usize)
        requires
            self.wf(),
        ensures
            n == self.count_mines_spec(),
    {
        let ghost p = mine_pred();
        let rows = self.rows();
        let cols = self.cols();
        let mut n: usize = 0;
        let mut r: usize = 0;
        while r < rows
            invariant
                self.wf(),
                rows == self.rows_spec(),
                cols == self.cols_spec(),
                r <= rows,
                p == mine_pred(),
                n == self.grid_count_upto(p, r as int),
                n <= r * cols,
            decreases rows - r,
        {
            let mut c: usize = 0;
            proof {
                self.lemma_grid_count_upto_bounds(p, r as int);
                assert(r * cols + cols == (r + 1) * cols) by (nonlinear_arith);
                assert((r + 1) * cols <= rows * cols) by (nonlinear_arith)
                    requires r + 1 <= rows && 0 <= cols;
            }
            while c < cols
                invariant
                    self.wf(),
                    rows == self.rows_spec(),
                    cols == self.cols_spec(),
                    r < rows,
                    c <= cols,
                    p == mine_pred(),
                    n == self.grid_count_upto(p, r as int) + self.row_count(p, r as int, c as int),
                    n <= r * cols + c,
                    r * cols + cols <= rows * cols <= usize::MAX,
                decreases cols - c,
            {
                if self.cells[r][c].is_mine {
                    n = n + 1;
                }
                c = c + 1;
            }
            r = r + 1;
        }
        n
    }

    /// Returns the total number of flagged cells in the grid.
    pub fn count_flags(&self) -> (n: usize)
        requires
            self.wf(),
        ensures
            n == self.count_flags_spec(),
    {
        let ghost p = flag_pred();
        let rows = self.rows();
        let cols = self.cols();
        let mut n: usize = 0;
        let mut r: usize = 0;
        while r < rows
            invariant
                self.wf(),
                rows == self.rows_spec(),
                cols == self.cols_spec(),
                r <= rows,
                p == flag_pred(),
                n == self.grid_count_upto(p, r as int),
                n <= r * cols,
            decreases rows - r,
        {
            let mut c: usize = 0;
            proof {
                self.lemma_grid_count_upto_bounds(p, r as int);
                assert(r * cols + cols == (r + 1) * cols) by (nonlinear_arith);
                assert((r + 1) * cols <= rows * cols) by (nonlinear_arith)
                    requires r + 1 <= rows && 0 <= cols;
            }
            while c < cols
                invariant
                    self.wf(),
                    rows == self.rows_spec(),
                    cols == self.cols_spec(),
                    r < rows,
                    c <= cols,
                    p == flag_pred(),
                    n == self.grid_count_upto(p, r as int) + self.row_count(p, r as int, c as int),
                    n <= r * cols + c,
                    r * cols + cols <= rows * cols <= usize::MAX,
                decreases cols - c,
            {
                if matches!(self.cells[r][c].cell_type, CellType::Flagged) {
                    n = n + 1;
                }
                c = c + 1;
            }
            r = r + 1;
        }
        n
    }

    /// Returns `true` if all mines are flagged.
    pub fn all_mines_flagged(&self) -> (b: bool)
        requires
            self.wf(),
        ensures
            b == forall|r: int, c: int|
                self.in_bounds(r, c) && self.mine(r, c) ==> #[trigger] self.kind(r, c)
                    is Flagged,
    {
        let rows = self.rows();
        let cols = self.cols();
        let mut r: usize = 0;
        while r < rows
            invariant
                self.wf(),
                rows == self.rows_spec(),
                cols == self.cols_spec(),
                r <= rows,
                forall|rr: int, c: int|
                    0 <= rr < r && 0 <= c < cols && self.mine(rr, c) ==> #[trigger] self.kind(
                        rr,
                        c,
                    ) is Flagged,
            decreases rows - r,
        {
            let mut c: usize = 0;
            while c < cols
                invariant
                    self.wf(),
                    rows == self.rows_spec(),
                    cols == self.cols_spec(),
                    r < rows,
                    c <= cols,
                    forall|rr: int, cc: int|
                        0 <= rr < r && 0 <= cc < cols && self.mine(rr, cc) ==> #[trigger] self.kind(
                            rr,
                            cc,
                        ) is Flagged,
                    forall|cc: int|
                        0 <= cc < c && self.mine(r as int, cc) ==> #[trigger] self.kind(
                            r as int,
                            cc,
                        ) is Flagged,
                decreases cols - c,
            {
                let cell = self.cells[r][c];
                if cell.is_mine && !matches!(cell.cell_type, CellType::Flagged) {
                    proof {
                        if forall|rr: int, cc: int|
                            self.in_bounds(rr, cc) && self.mine(rr, cc) ==> #[trigger] self.kind(
                                rr,
                                cc,
                            ) is Flagged {
                            assert(self.kind(r as int, c as int) is Flagged);
                        }
                    }
                    return false;
                }
                c = c + 1;
            }
            r = r + 1;
        }
        true
    }

    /// Returns `true` if the game is won: the flagged cells are exactly the
    /// mine cells.
    pub fn is_won(&self) -> (b: bool)
        requires
            self.wf(),
        ensures
            b == forall|r: int, c: int|
                self.in_bounds(r, c) ==> (#[trigger] self.kind(r, c) is Flagged <==> self.mine(
                    r,
                    c,
                )),
    {
        let ghost pm = mine_pred();
        let ghost pf = flag_pred();
        let won = self.count_mines() == self.count_flags() && self.all_mines_flagged();
        proof {
            if won {
                assert forall|rr: int, cc: int|
                    0 <= rr < self.rows_spec() && 0 <= cc < self.cols_spec() && pm(
                        #[trigger] self.cell_spec(rr, cc),
                    ) implies pf(self.cell_spec(rr, cc)) by {
                    assert(self.mine(rr, cc));
                    assert(self.kind(rr, cc) is Flagged);
                }
                self.lemma_grid_count_subset(pm, pf, self.rows_spec());
                assert forall|r: int, c: int| self.in_bounds(r, c) implies (
                #[trigger] self.kind(r, c) is Flagged <==> self.mine(r, c)) by {
                    assert(pm(self.cell_spec(r, c)) == self.mine(r, c));
                    assert(pf(self.cell_spec(r, c)) == self.kind(r, c) is Flagged);
                }
            } else {
                if forall|r: int, c: int|
                    self.in_bounds(r, c) ==> (#[trigger] self.kind(r, c) is Flagged <==> self.mine(
                        r,
                        c,
                    )) {
                    assert forall|rr: int, cc: int|
                        0 <= rr < self.rows_spec() && 0 <= cc < self.cols_spec() implies pm(
                        #[trigger] self.cell_spec(rr, cc),
                    ) == pf(self.cell_spec(rr, cc)) by {
                        assert(self.kind(rr, cc) is Flagged <==> self.mine(rr, cc));
                    }
                    self.lemma_grid_count_congruent(self, pm, pf, self.rows_spec());
                    assert forall|r: int, c: int|
                        self.in_bounds(r, c) && self.mine(r, c) implies #[trigger] self.kind(
                        r,
                        c,
                    ) is Flagged by {
                        assert(self.kind(r, c) is Flagged <==> self.mine(r, c));
                    }
                    assert(false);
                }
            }
        }
        won
    }
}


/// Whether two locations are distinct and within one row and one column of
/// each other: the eight-cell neighborhood.
pub open spec fn adjacent(a: GridLoc, b: GridLoc) -> bool {
    let dr = a.row as int - b.row as int;
    let dc = a.col as int - b.col as int;
    -1 <= dr <= 1 && -1 <= dc <= 1 && !(dr == 0 && dc == 0)
}

impl Grid {
    // ==================== Neighborhood: specification ====================

    /// A one-element sequence holding `(r, c)` when it is on the grid, and
    /// the empty sequence otherwise.
    pub open spec fn opt_nbr(&self, r: int, c: int) -> Seq<GridLoc> {
        if self.in_bounds(r, c) {
            seq![GridLoc { row: r as usize, col: c as usize }]
        } else {
            Seq::empty()
        }
    }

    /// The in-bounds neighbors of `loc`, in row-major order.
    pub open spec fn neighbor_seq(&self, loc: GridLoc) -> Seq<GridLoc> {
        let r = loc.row as int;
        let c = loc.col as int;
        self.opt_nbr(r - 1, c - 1) + self.opt_nbr(r - 1, c) + self.opt_nbr(r - 1, c + 1)
            + self.opt_nbr(r, c - 1) + self.opt_nbr(r, c + 1) + self.opt_nbr(r + 1, c - 1)
            + self.opt_nbr(r + 1, c) + self.opt_nbr(r + 1, c + 1)
    }

    /// One when `(r, c)` is an on-grid mine, zero otherwise.
    pub open spec fn mine_ind(&self, r: int, c: int) -> int {
        if self.in_bounds(r, c) && self.mine(r, c) {
            1
        } else {
            0
        }
    }

    /// One when `(r, c)` is an on-grid flagged cell, zero otherwise.
    pub open spec fn flag_ind(&self, r: int, c: int) -> int {
        if self.in_bounds(r, c) && self.kind(r, c) is Flagged {
            1
        } else {
            0
        }
    }

    /// Number of mines among the neighbors of `loc`: the number shown on a
    /// revealed cell.
    pub open spec fn neighboring_mines(&self, loc: GridLoc) -> int {
        let r = loc.row as int;
        let c = loc.col as int;
        self.mine_ind(r - 1, c - 1) + self.mine_ind(r - 1, c) + self.mine_ind(r - 1, c + 1)
            + self.mine_ind(r, c - 1) + self.mine_ind(r, c + 1) + self.mine_ind(r + 1, c - 1)
            + self.mine_ind(r + 1, c) + self.mine_ind(r + 1, c + 1)
    }

    /// One when `(r, c)` is an on-grid hidden cell, zero otherwise.
    pub open spec fn hidden_ind(&self, r: int, c: int) -> int {
        if self.in_bounds(r, c) && self.kind(r, c) is Hidden {
            1
        } else {
            0
        }
    }

    /// Number of hidden cells among the neighbors of `loc`.
    pub open spec fn neighboring_hidden(&self, loc: GridLoc) -> int {
        let r = loc.row as int;
        let c = loc.col as int;
        self.hidden_ind(r - 1, c - 1) + self.hidden_ind(r - 1, c) + self.hidden_ind(r - 1, c + 1)
            + self.hidden_ind(r, c - 1) + self.hidden_ind(r, c + 1) + self.hidden_ind(
            r + 1,
            c - 1,
        ) + self.hidden_ind(r + 1, c) + self.hidden_ind(r + 1, c + 1)
    }

    /// Number of flagged cells among the neighbors of `loc`.
    pub open spec fn neighboring_flags(&self, loc: GridLoc) -> int {
        let r = loc.row as int;
        let c = loc.col as int;
        self.flag_ind(r - 1, c - 1) + self.flag_ind(r - 1, c) + self.flag_ind(r - 1, c + 1)
            + self.flag_ind(r, c - 1) + self.flag_ind(r, c + 1) + self.flag_ind(r + 1, c - 1)
            + self.flag_ind(r + 1, c) + self.flag_ind(r + 1, c + 1)
    }
}

/// An element of one of two concatenated sequences is an element of the
/// concatenation.
proof fn lemma_concat_contains(a: Seq<GridLoc>, b: Seq<GridLoc>, q: GridLoc)
    requires
        a.contains(q) || b.contains(q),
    ensures
        (a + b).contains(q),
{
    if a.contains(q) {
        let k = choose|k: int| 0 <= k < a.len() && a[k] == q;
        assert((a + b)[k] == q);
    } else {
        let k = choose|k: int| 0 <= k < b.len() && b[k] == q;
        assert((a + b)[a.len() + k] == q);
    }
}

/// Row offset of neighbor slot `k` (slots are numbered row-major).
pub open spec fn slot_dr(k: int) -> int {
    if k < 3 {
        -1
    } else if k < 5 {
        0
    } else {
        1
    }
}

/// Column offset of neighbor slot `k`.
pub open spec fn slot_dc(k: int) -> int {
    if k == 0 || k == 3 || k == 5 {
        -1
    } else if k == 1 || k == 6 {
        0
    } else {
        1
    }
}

impl Grid {
    /// Which of the eight neighbor slots (numbered row-major) index `i` of
    /// the neighbor sequence falls in.
    pub open spec fn slot_of(&self, loc: GridLoc, i: int) -> int {
        let r = loc.row as int;
        let c = loc.col as int;
        let p1 = self.opt_nbr(r - 1, c - 1);
        let p2 = p1 + self.opt_nbr(r - 1, c);
        let p3 = p2 + self.opt_nbr(r - 1, c + 1);
        let p4 = p3 + self.opt_nbr(r, c - 1);
        let p5 = p4 + self.opt_nbr(r, c + 1);
        let p6 = p5 + self.opt_nbr(r + 1, c - 1);
        let p7 = p6 + self.opt_nbr(r + 1, c);
        if i < p1.len() {
            0
        } else if i < p2.len() {
            1
        } else if i < p3.len() {
            2
        } else if i < p4.len() {
            3
        } else if i < p5.len() {
            4
        } else if i < p6.len() {
            5
        } else if i < p7.len() {
            6
        } else {
            7
        }
    }

    /// Each entry of the neighbor sequence is the in-bounds cell at its
    /// slot's row and column offset from `loc`.
    pub proof fn lemma_neighbor_seq_at(&self, loc: GridLoc, i: int)
        requires
            self.wf(),
            self.loc_in_bounds(loc),
            0 <= i < self.neighbor_seq(loc).len(),
        ensures
            0 <= self.slot_of(loc, i) <= 7,
            self.neighbor_seq(loc)[i].row as int == loc.row as int + slot_dr(
                self.slot_of(loc, i),
            ),
            self.neighbor_seq(loc)[i].col as int == loc.col as int + slot_dc(
                self.slot_of(loc, i),
            ),
            self.loc_in_bounds(self.neighbor_seq(loc)[i]),
            adjacent(loc, self.neighbor_seq(loc)[i]),
    {
        let ns = self.neighbor_seq(loc);
        let r = loc.row as int;
        let c = loc.col as int;
        let p1 = self.opt_nbr(r - 1, c - 1);
        let p2 = p1 + self.opt_nbr(r - 1, c);
        let p3 = p2 + self.opt_nbr(r - 1, c + 1);
        let p4 = p3 + self.opt_nbr(r, c - 1);
        let p5 = p4 + self.opt_nbr(r, c + 1);
        let p6 = p5 + self.opt_nbr(r + 1, c - 1);
        let p7 = p6 + self.opt_nbr(r + 1, c);
        let p8 = p7 + self.opt_nbr(r + 1, c + 1);
        assert(ns == p8);
        assert(self.rows_spec() <= usize::MAX as int && self.cols_spec() <= usize::MAX as int)
            by (nonlinear_arith)
            requires
                1 <= self.rows_spec(),
                1 <= self.cols_spec(),
                self.rows_spec() * self.cols_spec() <= usize::MAX as int,
        ;
        if i < p1.len() {
            assert(self.in_bounds(r - 1, c - 1));
            assert(ns[i] == GridLoc { row: (r - 1) as usize, col: (c - 1) as usize });
            assert(self.slot_of(loc, i) == 0);
            assert(ns[i].row as int == r - 1);
            assert(ns[i].col as int == c - 1);
        } else if i < p2.len() {
            assert(self.in_bounds(r - 1, c));
            assert(ns[i] == GridLoc { row: (r - 1) as usize, col: c as usize });
            assert(self.slot_of(loc, i) == 1);
            assert(ns[i].row as int == r - 1);
            assert(ns[i].col as int == c);
        } else if i < p3.len() {
            assert(self.in_bounds(r - 1, c + 1));
            assert(ns[i] == GridLoc { row: (r - 1) as usize, col: (c + 1) as usize });
            assert(self.slot_of(loc, i) == 2);
            assert(ns[i].row as int == r - 1);
            assert(ns[i].col as int == c + 1);
        } else if i < p4.len() {
            assert(self.in_bounds(r, c - 1));
            assert(ns[i] == GridLoc { row: r as usize, col: (c - 1) as usize });
            assert(self.slot_of(loc, i) == 3);
            assert(ns[i].row as int == r);
            assert(ns[i].col as int == c - 1);
        } else if i < p5.len() {
            assert(self.in_bounds(r, c + 1));
            assert(ns[i] == GridLoc { row: r as usize, col: (c + 1) as usize });
            assert(self.slot_of(loc, i) == 4);
            assert(ns[i].row as int == r);
            assert(ns[i].col as int == c + 1);
        } else if i < p6.len() {
            assert(self.in_bounds(r + 1, c - 1));
            assert(ns[i] == GridLoc { row: (r + 1) as usize, col: (c - 1) as usize });
            assert(self.slot_of(loc, i) == 5);
            assert(ns[i].row as int == r + 1);
            assert(ns[i].col as int == c - 1);
        } else if i < p7.len() {
            assert(self.in_bounds(r + 1, c));
            assert(ns[i] == GridLoc { row: (r + 1) as usize, col: c as usize });
            assert(self.slot_of(loc, i) == 6);
            assert(ns[i].row as int == r + 1);
            assert(ns[i].col as int == c);
        } else {
            assert(self.in_bounds(r + 1, c + 1));
            assert(ns[i] == GridLoc { row: (r + 1) as usize, col: (c + 1) as usize });
            assert(self.slot_of(loc, i) == 7);
            assert(ns[i].row as int == r + 1);
            assert(ns[i].col as int == c + 1);
        }
    }

    /// Distinct indices of the neighbor sequence name distinct cells.
    pub proof fn lemma_neighbor_seq_distinct(&self, loc: GridLoc, i: int, j: int)
        requires
            self.wf(),
            self.loc_in_bounds(loc),
            0 <= i < self.neighbor_seq(loc).len(),
            0 <= j < self.neighbor_seq(loc).len(),
            i != j,
        ensures
            self.neighbor_seq(loc)[i] != self.neighbor_seq(loc)[j],
    {
        self.lemma_neighbor_seq_at(loc, i);
        self.lemma_neighbor_seq_at(loc, j);
        let ki = self.slot_of(loc, i);
        let kj = self.slot_of(loc, j);
        if ki == kj {
            assert(false);
        } else {
            assert(slot_dr(ki) != slot_dr(kj) || slot_dc(ki) != slot_dc(kj));
        }
    }

    /// The neighbor sequence holds exactly the in-bounds cells adjacent to
    /// `loc`, each exactly once.
    pub proof fn lemma_neighbor_seq(&self, loc: GridLoc)
        requires
            self.wf(),
            self.loc_in_bounds(loc),
        ensures
            forall|i: int|
                0 <= i < self.neighbor_seq(loc).len() ==> self.loc_in_bounds(
                    #[trigger] self.neighbor_seq(loc)[i],
                ) && adjacent(loc, self.neighbor_seq(loc)[i]),
            forall|q: GridLoc|
                self.loc_in_bounds(q) && adjacent(loc, q) ==> #[trigger] self.neighbor_seq(
                    loc,
                ).contains(q),
            forall|i: int, j: int|
                0 <= i < j < self.neighbor_seq(loc).len() ==> self.neighbor_seq(loc)[i]
                    != self.neighbor_seq(loc)[j],
    {
        let ns = self.neighbor_seq(loc);
        let r = loc.row as int;
        let c = loc.col as int;
        assert forall|i: int| 0 <= i < ns.len() implies self.loc_in_bounds(
            #[trigger] self.neighbor_seq(loc)[i],
        ) && adjacent(loc, self.neighbor_seq(loc)[i]) by {
            self.lemma_neighbor_seq_at(loc, i);
        }
        assert forall|i: int, j: int| 0 <= i < j < ns.len() implies self.neighbor_seq(loc)[i]
            != self.neighbor_seq(loc)[j] by {
            self.lemma_neighbor_seq_distinct(loc, i, j);
        }
        assert forall|q: GridLoc| self.loc_in_bounds(q) && adjacent(loc, q) implies
            #[trigger] self.neighbor_seq(loc).contains(q) by {
            let qr = q.row as int;
            let qc = q.col as int;
            assert(self.opt_nbr(qr, qc)[0] == q);
            assert(self.opt_nbr(qr, qc).contains(q));
            let s1 = self.opt_nbr(r - 1, c - 1);
            let s2 = self.opt_nbr(r - 1, c);
            let s3 = self.opt_nbr(r - 1, c + 1);
            let s4 = self.opt_nbr(r, c - 1);
            let s5 = self.opt_nbr(r, c + 1);
            let s6 = self.opt_nbr(r + 1, c - 1);
            let s7 = self.opt_nbr(r + 1, c);
            let s8 = self.opt_nbr(r + 1, c + 1);
            if s1.contains(q) || s2.contains(q) {
                lemma_concat_contains(s1, s2, q);
            }
            if (s1 + s2).contains(q) || s3.contains(q) {
                lemma_concat_contains(s1 + s2, s3, q);
            }
            if (s1 + s2 + s3).contains(q) || s4.contains(q) {
                lemma_concat_contains(s1 + s2 + s3, s4, q);
            }
            if (s1 + s2 + s3 + s4).contains(q) || s5.contains(q) {
                lemma_concat_contains(s1 + s2 + s3 + s4, s5, q);
            }
            if (s1 + s2 + s3 + s4 + s5).contains(q) || s6.contains(q) {
                lemma_concat_contains(s1 + s2 + s3 + s4 + s5, s6, q);
            }
            if (s1 + s2 + s3 + s4 + s5).add(s6).contains(q) || s7.contains(q) {
                lemma_concat_contains(s1 + s2 + s3 + s4 + s5 + s6, s7, q);
            }
            if (s1 + s2 + s3 + s4 + s5 + s6).add(s7).contains(q) || s8.contains(q) {
                lemma_concat_contains(s1 + s2 + s3 + s4 + s5 + s6 + s7, s8, q);
            }
        }
    }
}


impl Grid {
    /// Reads one cell.
    pub(crate) fn cell_at(&self, r: usize, c: usize) -> (cell: Cell)
        requires
            self.wf(),
            self.in_bounds(r as int, c as int),
        ensures
            cell == self.cell_spec(r as int, c as int),
    {
        self.cells[r][c]
    }

    /// Returns the locations of all neighboring cells (excluding the
    /// center), in row-major order, clipped to the grid boundary.
    pub fn neighbors(&self, loc: GridLoc) -> (v: Vec<GridLoc>)
        requires
            self.wf(),
            self.loc_in_bounds(loc),
        ensures
            v@ == self.neighbor_seq(loc),
    {
        let r = loc.row;
        let c = loc.col;
        let rows = self.rows();
        let cols = self.cols();
        let ghost ri = r as int;
        let ghost ci = c as int;
        let mut v: Vec<GridLoc> = Vec::new();
        if r > 0 {
            if c > 0 {
                v.push(GridLoc { row: r - 1, col: c - 1 });
            }
            v.push(GridLoc { row: r - 1, col: c });
            if c + 1 < cols {
                v.push(GridLoc { row: r - 1, col: c + 1 });
            }
        }
        proof {
            assert(v@ =~= self.opt_nbr(ri - 1, ci - 1) + self.opt_nbr(ri - 1, ci) + self.opt_nbr(
                ri - 1,
                ci + 1,
            ));
        }
        if c > 0 {
            v.push(GridLoc { row: r, col: c - 1 });
        }
        if c + 1 < cols {
            v.push(GridLoc { row: r, col: c + 1 });
        }
        proof {
            assert(v@ =~= self.opt_nbr(ri - 1, ci - 1) + self.opt_nbr(ri - 1, ci) + self.opt_nbr(
                ri - 1,
                ci + 1,
            ) + self.opt_nbr(ri, ci - 1) + self.opt_nbr(ri, ci + 1));
        }
        if r + 1 < rows {
            if c > 0 {
                v.push(GridLoc { row: r + 1, col: c - 1 });
            }
            v.push(GridLoc { row: r + 1, col: c });
            if c + 1 < cols {
                v.push(GridLoc { row: r + 1, col: c + 1 });
            }
        }
        proof {
            assert(v@ =~= self.neighbor_seq(loc));
        }
        v
    }

    /// Returns the count of mines adjacent to the specified location.
    ///
    /// This is the number displayed on revealed cells.
    /// Whether the cell at `(r, c)` holds a mine.
    fn mine_at(&self, r: usize, c: usize) -> (b: bool)
        requires
            self.wf(),
            self.in_bounds(r as int, c as int),
        ensures
            b == self.mine(r as int, c as int),
    {
        self.cells[r][c].is_mine
    }

    /// Whether the cell at `(r, c)` is flagged.
    fn flagged_at(&self, r: usize, c: usize) -> (b: bool)
        requires
            self.wf(),
            self.in_bounds(r as int, c as int),
        ensures
            b == (self.kind(r as int, c as int) is Flagged),
    {
        matches!(self.cells[r][c].cell_type, CellType::Flagged)
    }

    #[verifier::rlimit(50)]
    pub fn count_neighboring_mines(&self, loc: GridLoc) -> (n: u8)
        requires
            self.wf(),
            self.loc_in_bounds(loc),
        ensures
            n as int == self.neighboring_mines(loc),
            n <= 8,
    {
        let r = loc.row;
        let c = loc.col;
        let rows = self.rows();
        let cols = self.cols();
        let mut n: u8 = 0;
        if r > 0 {
            if c > 0 && self.mine_at(r - 1, c - 1) {
                n = n + 1;
            }
            if self.mine_at(r - 1, c) {
                n = n + 1;
            }
            if c + 1 < cols && self.mine_at(r - 1, c + 1) {
                n = n + 1;
            }
        }
        if c > 0 && self.mine_at(r, c - 1) {
            n = n + 1;
        }
        if c + 1 < cols && self.mine_at(r, c + 1) {
            n = n + 1;
        }
        if r + 1 < rows {
            if c > 0 && self.mine_at(r + 1, c - 1) {
                n = n + 1;
            }
            if self.mine_at(r + 1, c) {
                n = n + 1;
            }
            if c + 1 < cols && self.mine_at(r + 1, c + 1) {
                n = n + 1;
            }
        }
        n
    }

    /// Returns the count of flagged cells adjacent to the specified location.
    #[verifier::rlimit(50)]
    pub fn count_neighboring_flags(&self, loc: GridLoc) -> (n: u8)
        requires
            self.wf(),
            self.loc_in_bounds(loc),
        ensures
            n as int == self.neighboring_flags(loc),
            n <= 8,
    {
        let r = loc.row;
        let c = loc.col;
        let rows = self.rows();
        let cols = self.cols();
        let mut n: u8 = 0;
        if r > 0 {
            if c > 0 && self.flagged_at(r - 1, c - 1) {
                n = n + 1;
            }
            if self.flagged_at(r - 1, c) {
                n = n + 1;
            }
            if c + 1 < cols && self.flagged_at(r - 1, c + 1) {
                n = n + 1;
            }
        }
        if c > 0 && self.flagged_at(r, c - 1) {
            n = n + 1;
        }
        if c + 1 < cols && self.flagged_at(r, c + 1) {
            n = n + 1;
        }
        if r + 1 < rows {
            if c > 0 && self.flagged_at(r + 1, c - 1) {
                n = n + 1;
            }
            if self.flagged_at(r + 1, c) {
                n = n + 1;
            }
            if c + 1 < cols && self.flagged_at(r + 1, c + 1) {
                n = n + 1;
            }
        }
        n
    }

    /// Around a cell whose neighboring-mine count is zero, no adjacent cell
    /// holds a mine.
    pub proof fn lemma_zero_neighboring_mines(&self, loc: GridLoc, q: GridLoc)
        requires
            self.neighboring_mines(loc) == 0,
            adjacent(loc, q),
            self.loc_in_bounds(q),
        ensures
            !self.mine(q.row as int, q.col as int),
    {
        assert(self.mine_ind(q.row as int, q.col as int) == 0);
    }

    /// Two grids of the same size with the same mines agree on every
    /// neighboring-mine count.
    pub proof fn lemma_neighboring_mines_congruent(&self, other: &Grid, loc: GridLoc)
        requires
            self.same_size(other),
            forall|r: int, c: int|
                self.in_bounds(r, c) ==> #[trigger] self.mine(r, c) == other.mine(r, c),
        ensures
            self.neighboring_mines(loc) == other.neighboring_mines(loc),
    {
        let r = loc.row as int;
        let c = loc.col as int;
        assert(self.mine_ind(r - 1, c - 1) == other.mine_ind(r - 1, c - 1));
        assert(self.mine_ind(r - 1, c) == other.mine_ind(r - 1, c));
        assert(self.mine_ind(r - 1, c + 1) == other.mine_ind(r - 1, c + 1));
        assert(self.mine_ind(r, c - 1) == other.mine_ind(r, c - 1));
        assert(self.mine_ind(r, c + 1) == other.mine_ind(r, c + 1));
        assert(self.mine_ind(r + 1, c - 1) == other.mine_ind(r + 1, c - 1));
        assert(self.mine_ind(r + 1, c) == other.mine_ind(r + 1, c));
        assert(self.mine_ind(r + 1, c + 1) == other.mine_ind(r + 1, c + 1));
    }
}


/// The effect of one flag toggle at `loc`: the cell's interaction state
/// flips between hidden and flagged, and nothing else changes.
pub open spec fn flag_toggled(pre: Grid, post: Grid, loc: GridLoc) -> bool {
    let r = loc.row as int;
    let c = loc.col as int;
    &&& post.same_size(&pre)
    &&& post.is_populated() == pre.is_populated()
    &&& post.cell_spec(r, c) == (Cell {
        cell_type: if pre.kind(r, c) is Flagged {
            CellType::Hidden
        } else {
            CellType::Flagged
        },
        ..pre.cell_spec(r, c)
    })
    &&& forall|rr: int, cc: int|
        pre.in_bounds(rr, cc) && (rr != r || cc != c) ==> #[trigger] post.cell_spec(rr, cc)
            == pre.cell_spec(rr, cc)
}

impl Grid {
    // ==================== Flag Operations ====================

    /// Toggles the flag state of a cell.
    ///
    /// - Hidden cells become flagged
    /// - Flagged cells become hidden (unflagged)
    /// - Revealed cells cannot be flagged
    pub fn flag_cell(&mut self, loc: GridLoc) -> (res: CellFlagResult)
        requires
            old(self).wf(),
        ensures
            final (self).wf(),
            !old(self).loc_in_bounds(loc) ==> res == CellFlagResult::OutOfBounds && final (self).same_state(old(self)),
            old(self).loc_in_bounds(loc) && old(self).kind(loc.row as int, loc.col as int)
                is Revealed ==> res == CellFlagResult::AlreadyRevealed && final (self).same_state(
                old(self),
            ),
            old(self).loc_in_bounds(loc) && !(old(self).kind(loc.row as int, loc.col as int)
                is Revealed) ==> res == CellFlagResult::Success && flag_toggled(
                *old(self),
                *final (self),
                loc,
            ),
    {
        let rows = self.rows();
        let cols = self.cols();
        if loc.row >= rows || loc.col >= cols {
            return CellFlagResult::OutOfBounds;
        }
        let cell = self.cell_at(loc.row, loc.col);
        match cell.cell_type {
            CellType::Hidden => {
                self.set_kind(loc.row, loc.col, CellType::Flagged);
                CellFlagResult::Success
            },
            CellType::Revealed => CellFlagResult::AlreadyRevealed,
            CellType::Flagged => {
                self.set_kind(loc.row, loc.col, CellType::Hidden);
                CellFlagResult::Success
            },
        }
    }

    // ==================== Reveal Operations ====================

    /// Reveals a single cell without cascading.
    ///
    /// Returns the result indicating success, mine hit, or why the reveal
    /// failed.
    pub fn reveal_cell(&mut self, loc: GridLoc) -> (res: CellRevealResult)
        requires
            old(self).wf(),
        ensures
            final (self).wf(),
            !old(self).loc_in_bounds(loc) ==> res == CellRevealResult::OutOfBounds && final (self).same_state(old(self)),
            old(self).loc_in_bounds(loc) && old(self).kind(loc.row as int, loc.col as int)
                is Revealed ==> res == CellRevealResult::AlreadyRevealed && final (self).same_state(old(self)),
            old(self).loc_in_bounds(loc) && old(self).kind(loc.row as int, loc.col as int)
                is Flagged ==> res == CellRevealResult::Flagged && final (self).same_state(
                old(self),
            ),
            old(self).loc_in_bounds(loc) && old(self).kind(loc.row as int, loc.col as int)
                is Hidden ==> {
                &&& res == (if old(self).mine(loc.row as int, loc.col as int) {
                    CellRevealResult::Mine
                } else {
                    CellRevealResult::Success
                })
                &&& final (self).same_size(old(self))
                &&& final (self).is_populated() == old(self).is_populated()
                &&& final (self).cell_spec(loc.row as int, loc.col as int) == (Cell {
                    cell_type: CellType::Revealed,
                    ..old(self).cell_spec(loc.row as int, loc.col as int)
                })
                &&& forall|rr: int, cc: int|
                    old(self).in_bounds(rr, cc) && (rr != loc.row as int || cc != loc.col as int)
                        ==> #[trigger] final (self).cell_spec(rr, cc) == old(self).cell_spec(
                        rr,
                        cc,
                    )
            },
    {
        let rows = self.rows();
        let cols = self.cols();
        if loc.row >= rows || loc.col >= cols {
            return CellRevealResult::OutOfBounds;
        }
        let cell = self.cell_at(loc.row, loc.col);
        match cell.cell_type {
            CellType::Hidden => {
                self.set_kind(loc.row, loc.col, CellType::Revealed);
                if cell.is_mine {
                    CellRevealResult::Mine
                } else {
                    CellRevealResult::Success
                }
            },
            CellType::Revealed => CellRevealResult::AlreadyRevealed,
            CellType::Flagged => CellRevealResult::Flagged,
        }
    }

    /// Reveals all cells in the grid, regardless of their current state.
    ///
    /// Used at game end to show the complete board state.
    pub fn reveal_all(&mut self)
        requires
            old(self).wf(),
        ensures
            final (self).wf(),
            final (self).same_size(old(self)),
            final (self).is_populated() == old(self).is_populated(),
            forall|r: int, c: int|
                old(self).in_bounds(r, c) ==> #[trigger] final (self).cell_spec(r, c) == (Cell {
                    cell_type: CellType::Revealed,
                    ..old(self).cell_spec(r, c)
                }),
    {
        let ghost pre = *old(self);
        let rows = self.rows();
        let cols = self.cols();
        let mut r: usize = 0;
        while r < rows
            invariant
                self.wf(),
                self.same_size(&pre),
                self.is_populated() == pre.is_populated(),
                rows == self.rows_spec(),
                cols == self.cols_spec(),
                r <= rows,
                forall|rr: int, cc: int|
                    pre.in_bounds(rr, cc) && rr < r ==> #[trigger] self.cell_spec(rr, cc) == (Cell {
                        cell_type: CellType::Revealed,
                        ..pre.cell_spec(rr, cc)
                    }),
                forall|rr: int, cc: int|
                    pre.in_bounds(rr, cc) && rr >= r ==> #[trigger] self.cell_spec(rr, cc)
                        == pre.cell_spec(rr, cc),
            decreases rows - r,
        {
            let mut c: usize = 0;
            while c < cols
                invariant
                    self.wf(),
                    self.same_size(&pre),
                    self.is_populated() == pre.is_populated(),
                    rows == self.rows_spec(),
                    cols == self.cols_spec(),
                    r < rows,
                    c <= cols,
                    forall|rr: int, cc: int|
                        pre.in_bounds(rr, cc) && (rr < r || (rr == r && cc < c))
                            ==> #[trigger] self.cell_spec(rr, cc) == (Cell {
                            cell_type: CellType::Revealed,
                            ..pre.cell_spec(rr, cc)
                        }),
                    forall|rr: int, cc: int|
                        pre.in_bounds(rr, cc) && (rr > r || (rr == r && cc >= c))
                            ==> #[trigger] self.cell_spec(rr, cc) == pre.cell_spec(rr, cc),
                decreases cols - c,
            {
                self.set_kind(r, c, CellType::Revealed);
                c = c + 1;
            }
            r = r + 1;
        }
    }

    // ==================== Highlight Operations ====================

    /// Sets the highlight mark on the specified cells.
    ///
    /// Used for visual feedback, such as calling attention to the cells the
    /// hint solver singled out. Every location must be on the grid.
    pub fn highlight_cells(&mut self, locs: Vec<GridLoc>)
        requires
            old(self).wf(),
            forall|i: int| 0 <= i < locs@.len() ==> old(self).loc_in_bounds(#[trigger] locs@[i]),
        ensures
            final (self).wf(),
            final (self).same_size(old(self)),
            final (self).is_populated() == old(self).is_populated(),
            forall|r: int, c: int|
                old(self).in_bounds(r, c) ==> #[trigger] final (self).cell_spec(r, c) == (Cell {
                    highlight: old(self).highlighted(r, c) || locs@.contains(
                        GridLoc { row: r as usize, col: c as usize },
                    ),
                    ..old(self).cell_spec(r, c)
                }),
    {
        let ghost pre = *old(self);
        let mut i: usize = 0;
        while i < locs.len()
            invariant
                self.wf(),
                pre.wf(),
                self.same_size(&pre),
                self.is_populated() == pre.is_populated(),
                i <= locs@.len(),
                forall|k: int| 0 <= k < locs@.len() ==> pre.loc_in_bounds(#[trigger] locs@[k]),
                forall|r: int, c: int|
                    pre.in_bounds(r, c) ==> #[trigger] self.cell_spec(r, c) == (Cell {
                        highlight: pre.highlighted(r, c) || locs@.subrange(0, i as int).contains(
                            GridLoc { row: r as usize, col: c as usize },
                        ),
                        ..pre.cell_spec(r, c)
                    }),
            decreases locs@.len() - i,
        {
            let loc = locs[i];
            self.set_highlight(loc.row, loc.col, true);
            proof {
                assert forall|r: int, c: int| pre.in_bounds(r, c) implies #[trigger] self.cell_spec(
                    r,
                    c,
                ) == (Cell {
                    highlight: pre.highlighted(r, c) || locs@.subrange(0, i + 1).contains(
                        GridLoc { row: r as usize, col: c as usize },
                    ),
                    ..pre.cell_spec(r, c)
                }) by {
                    pre.lemma_dims_bounded();
                    let q = GridLoc { row: r as usize, col: c as usize };
                    if r == loc.row as int && c == loc.col as int {
                        assert(locs@.subrange(0, i + 1)[i as int] == q);
                    }
                    if locs@.subrange(0, i + 1).contains(q) {
                        let k = choose|k: int|
                            0 <= k < i + 1 && (#[trigger] locs@.subrange(0, i + 1)[k]) == q;
                        if k < i {
                            assert(locs@.subrange(0, i as int)[k] == q);
                        }
                    } else {
                        if locs@.subrange(0, i as int).contains(q) {
                            let k = choose|k: int|
                                0 <= k < i && (#[trigger] locs@.subrange(0, i as int)[k]) == q;
                            assert(locs@.subrange(0, i + 1)[k] == q);
                        }
                    }
                }
            }
            i = i + 1;
        }
        proof {
            pre.lemma_dims_bounded();
            assert(locs@.subrange(0, locs@.len() as int) =~= locs@);
        }
    }

    /// Clears the highlight mark on every cell.
    pub fn clear_highlights(&mut self)
        requires
            old(self).wf(),
        ensures
            final (self).wf(),
            final (self).same_size(old(self)),
            final (self).is_populated() == old(self).is_populated(),
            forall|r: int, c: int|
                old(self).in_bounds(r, c) ==> #[trigger] final (self).cell_spec(r, c) == (Cell {
                    highlight: false,
                    ..old(self).cell_spec(r, c)
                }),
    {
        let ghost pre = *old(self);
        let rows = self.rows();
        let cols = self.cols();
        let mut r: usize = 0;
        while r < rows
            invariant
                self.wf(),
                self.same_size(&pre),
                self.is_populated() == pre.is_populated(),
                rows == self.rows_spec(),
                cols == self.cols_spec(),
                r <= rows,
                forall|rr: int, cc: int|
                    pre.in_bounds(rr, cc) && rr < r ==> #[trigger] self.cell_spec(rr, cc) == (Cell {
                        highlight: false,
                        ..pre.cell_spec(rr, cc)
                    }),
                forall|rr: int, cc: int|
                    pre.in_bounds(rr, cc) && rr >= r ==> #[trigger] self.cell_spec(rr, cc)
                        == pre.cell_spec(rr, cc),
            decreases rows - r,
        {
            let mut c: usize = 0;
            while c < cols
                invariant
                    self.wf(),
                    self.same_size(&pre),
                    self.is_populated() == pre.is_populated(),
                    rows == self.rows_spec(),
                    cols == self.cols_spec(),
                    r < rows,
                    c <= cols,
                    forall|rr: int, cc: int|
                        pre.in_bounds(rr, cc) && (rr < r || (rr == r && cc < c))
                            ==> #[trigger] self.cell_spec(rr, cc) == (Cell {
                            highlight: false,
                            ..pre.cell_spec(rr, cc)
                        }),
                    forall|rr: int, cc: int|
                        pre.in_bounds(rr, cc) && (rr > r || (rr == r && cc >= c))
                            ==> #[trigger] self.cell_spec(rr, cc) == pre.cell_spec(rr, cc),
                decreases cols - c,
            {
                self.set_highlight(r, c, false);
                c = c + 1;
            }
            r = r + 1;
        }
    }

    /// Returns `true` if any cell carries the highlight mark.
    pub fn is_animating(&self) -> (b: bool)
        requires
            self.wf(),
        ensures
            b == exists|r: int, c: int| self.in_bounds(r, c) && #[trigger] self.highlighted(r, c),
    {
        let rows = self.rows();
        let cols = self.cols();
        let mut r: usize = 0;
        while r < rows
            invariant
                self.wf(),
                rows == self.rows_spec(),
                cols == self.cols_spec(),
                r <= rows,
                forall|rr: int, cc: int|
                    0 <= rr < r && 0 <= cc < cols ==> !(#[trigger] self.highlighted(rr, cc)),
            decreases rows - r,
        {
            let mut c: usize = 0;
            while c < cols
                invariant
                    self.wf(),
                    rows == self.rows_spec(),
                    cols == self.cols_spec(),
                    r < rows,
                    c <= cols,
                    forall|rr: int, cc: int|
                        0 <= rr < r && 0 <= cc < cols ==> !(#[trigger] self.highlighted(rr, cc)),
                    forall|cc: int| 0 <= cc < c ==> !(#[trigger] self.highlighted(r as int, cc)),
                decreases cols - c,
            {
                if self.cell_at(r, c).highlight {
                    proof {
                        assert(self.highlighted(r as int, c as int));
                    }
                    return true;
                }
                c = c + 1;
            }
            r = r + 1;
        }
        false
    }
}


impl Grid {
    /// Interaction state of the cell at `q`.
    pub open spec fn kind_at(&self, q: GridLoc) -> CellType {
        self.kind(q.row as int, q.col as int)
    }

    /// Whether the cell at `q` holds a mine.
    pub open spec fn loc_mine(&self, q: GridLoc) -> bool {
        self.mine(q.row as int, q.col as int)
    }

    /// Number of hidden cells among the first `n` of row `r`.
    pub open spec fn row_hidden(&self, r: int, n: int) -> int
        decreases n,
    {
        if n <= 0 {
            0
        } else {
            self.row_hidden(r, n - 1) + if self.kind(r, n - 1) is Hidden {
                1int
            } else {
                0int
            }
        }
    }

    /// Number of hidden cells in the first `r` full rows.
    pub open spec fn hidden_upto(&self, r: int) -> int
        decreases r,
    {
        if r <= 0 {
            0
        } else {
            self.hidden_upto(r - 1) + self.row_hidden(r - 1, self.cols_spec())
        }
    }

    /// Number of hidden cells in the whole grid.
    pub open spec fn count_hidden_spec(&self) -> int {
        self.hidden_upto(self.rows_spec())
    }

    /// A partial hidden count is never negative.
    pub proof fn lemma_row_hidden_nonneg(&self, r: int, n: int)
        ensures
            0 <= self.row_hidden(r, n),
        decreases n,
    {
        if n > 0 {
            self.lemma_row_hidden_nonneg(r, n - 1);
        }
    }

    /// The hidden count is never negative.
    pub proof fn lemma_hidden_upto_nonneg(&self, r: int)
        ensures
            0 <= self.hidden_upto(r),
        decreases r,
    {
        if r > 0 {
            self.lemma_hidden_upto_nonneg(r - 1);
            self.lemma_row_hidden_nonneg(r - 1, self.cols_spec());
        }
    }

    /// Row version of the hidden-count update lemma.
    pub proof fn lemma_row_hidden_update(&self, other: &Grid, r: int, c: int, upto: int)
        requires
            0 <= c,
            forall|cc: int|
                0 <= cc < upto && cc != c ==> #[trigger] self.cell_spec(r, cc)
                    == other.cell_spec(r, cc),
        ensures
            c < upto ==> self.row_hidden(r, upto) - other.row_hidden(r, upto)
                == (if self.kind(r, c) is Hidden { 1int } else { 0int })
                    - (if other.kind(r, c) is Hidden { 1int } else { 0int }),
            c >= upto ==> self.row_hidden(r, upto) == other.row_hidden(r, upto),
        decreases upto,
    {
        if upto > 0 {
            self.lemma_row_hidden_update(other, r, c, upto - 1);
        }
    }

    /// Changing one cell changes the hidden count by the difference of the
    /// hidden indicators at that cell.
    pub proof fn lemma_hidden_count_update(&self, other: &Grid, r: int, c: int, upto: int)
        requires
            self.cols_spec() == other.cols_spec(),
            0 <= c < self.cols_spec(),
            0 <= r,
            forall|rr: int, cc: int|
                0 <= rr < upto && 0 <= cc < self.cols_spec() && (rr != r || cc != c)
                    ==> #[trigger] self.cell_spec(rr, cc) == other.cell_spec(rr, cc),
        ensures
            r < upto ==> self.hidden_upto(upto) - other.hidden_upto(upto) == (if self.kind(
                r,
                c,
            ) is Hidden {
                1int
            } else {
                0int
            }) - (if other.kind(r, c) is Hidden {
                1int
            } else {
                0int
            }),
            r >= upto ==> self.hidden_upto(upto) == other.hidden_upto(upto),
        decreases upto,
    {
        if upto > 0 {
            self.lemma_hidden_count_update(other, r, c, upto - 1);
            if r == upto - 1 {
                self.lemma_row_hidden_update(other, r, c, self.cols_spec());
            } else {
                assert forall|cc: int| 0 <= cc < self.cols_spec() implies #[trigger] self.cell_spec(
                    upto - 1,
                    cc,
                ) == other.cell_spec(upto - 1, cc) by {}
                self.lemma_row_hidden_update(other, upto - 1, self.cols_spec(), self.cols_spec());
            }
        }
    }
}


impl Grid {
    /// The hidden-cell count is never negative.
    pub proof fn lemma_hidden_nonneg(&self)
        ensures
            0 <= self.count_hidden_spec(),
    {
        self.lemma_hidden_upto_nonneg(self.rows_spec());
    }

    /// Revealing one hidden cell lowers the hidden-cell count by one.
    pub proof fn lemma_hidden_decrease(&self, prev: &Grid, p: GridLoc)
        requires
            self.same_size(prev),
            prev.loc_in_bounds(p),
            prev.kind_at(p) is Hidden,
            self.kind_at(p) is Revealed,
            forall|rr: int, cc: int|
                prev.in_bounds(rr, cc) && (rr != p.row as int || cc != p.col as int)
                    ==> #[trigger] self.cell_spec(rr, cc) == prev.cell_spec(rr, cc),
        ensures
            self.count_hidden_spec() == prev.count_hidden_spec() - 1,
    {
        self.lemma_hidden_count_update(prev, p.row as int, p.col as int, self.rows_spec());
    }
}


impl Grid {
    /// Placing or clearing a mine in one cell changes the mine count by the
    /// difference of the mine indicators at that cell.
    pub proof fn lemma_mines_count_update(&self, other: &Grid, r: int, c: int)
        requires
            self.rows_spec() == other.rows_spec(),
            self.cols_spec() == other.cols_spec(),
            0 <= r < self.rows_spec(),
            0 <= c < self.cols_spec(),
            forall|rr: int, cc: int|
                self.in_bounds(rr, cc) && (rr != r || cc != c) ==> #[trigger] self.cell_spec(
                    rr,
                    cc,
                ) == other.cell_spec(rr, cc),
        ensures
            self.count_mines_spec() - other.count_mines_spec() == (if self.mine(r, c) {
                1int
            } else {
                0int
            }) - (if other.mine(r, c) {
                1int
            } else {
                0int
            }),
    {
        self.lemma_grid_count_update(other, mine_pred(), r, c, self.rows_spec());
    }

    /// Two grids of the same size with the same mines have the same mine
    /// count.
    pub proof fn lemma_mines_count_congruent(&self, other: &Grid)
        requires
            self.rows_spec() == other.rows_spec(),
            self.cols_spec() == other.cols_spec(),
            forall|r: int, c: int|
                self.in_bounds(r, c) ==> #[trigger] self.mine(r, c) == other.mine(r, c),
        ensures
            self.count_mines_spec() == other.count_mines_spec(),
    {
        assert forall|rr: int, cc: int|
            0 <= rr < self.rows_spec() && 0 <= cc < self.cols_spec() implies mine_pred()(
            #[trigger] self.cell_spec(rr, cc),
        ) == mine_pred()(other.cell_spec(rr, cc)) by {
            assert(self.mine(rr, cc) == other.mine(rr, cc));
        }
        self.lemma_grid_count_congruent(other, mine_pred(), mine_pred(), self.rows_spec());
    }

    /// An unpopulated well-formed grid holds no mines at all.
    pub proof fn lemma_unpopulated_mine_free(&self)
        requires
            self.wf(),
            !self.is_populated(),
        ensures
            self.count_mines_spec() == 0,
    {
        assert(self.grid_count_upto(mine_pred(), self.rows_spec()) == 0) by {
            self.lemma_mine_free_count(self.rows_spec());
        }
    }

    /// Counting mines over mine-free rows gives zero.
    proof fn lemma_mine_free_count(&self, r: int)
        requires
            r <= self.rows_spec(),
            forall|rr: int, cc: int|
                self.in_bounds(rr, cc) ==> !(#[trigger] self.mine(rr, cc)),
        ensures
            self.grid_count_upto(mine_pred(), r) == 0,
        decreases r,
    {
        if r > 0 {
            self.lemma_mine_free_count(r - 1);
            self.lemma_mine_free_row(r - 1, self.cols_spec());
        }
    }

    /// Counting mines over a mine-free row prefix gives zero.
    proof fn lemma_mine_free_row(&self, r: int, n: int)
        requires
            0 <= r < self.rows_spec(),
            n <= self.cols_spec(),
            forall|rr: int, cc: int|
                self.in_bounds(rr, cc) ==> !(#[trigger] self.mine(rr, cc)),
        ensures
            self.row_count(mine_pred(), r, n) == 0,
        decreases n,
    {
        if n > 0 {
            self.lemma_mine_free_row(r, n - 1);
            assert(!self.mine(r, n - 1));
        }
    }
}


impl Grid {
    /// The text of one cell as it stands in a rendered row: a separating
    /// space for every column after the first, the cell's own text, and a
    /// trailing space after a nonzero count.
    pub open spec fn cell_piece(&self, r: int, c: int) -> Seq<char> {
        let nm = self.neighboring_mines(GridLoc { row: r as usize, col: c as usize });
        let sep = if c > 0 {
            " "@
        } else {
            Seq::<char>::empty()
        };
        let tail = if nm == 0 {
            Seq::<char>::empty()
        } else {
            " "@
        };
        sep + crate::cell::cell_text(self.cell_spec(r, c), nm as u8) + tail
    }

    /// The text of the first `n` cells of row `r`.
    pub open spec fn row_text(&self, r: int, n: int) -> Seq<char>
        decreases n,
    {
        if n <= 0 {
            Seq::empty()
        } else {
            self.row_text(r, n - 1) + self.cell_piece(r, n - 1)
        }
    }

    /// The text of the first `r` rows: every row after the first gets a
    /// separating blank line, and every row ends in a line break.
    pub open spec fn grid_text_upto(&self, r: int) -> Seq<char>
        decreases r,
    {
        if r <= 0 {
            Seq::empty()
        } else {
            self.grid_text_upto(r - 1) + (if r - 1 > 0 {
                "\n"@
            } else {
                Seq::<char>::empty()
            }) + self.row_text(r - 1, self.cols_spec()) + "\n"@
        }
    }

    /// The whole grid as text.
    pub open spec fn grid_text(&self) -> Seq<char> {
        self.grid_text_upto(self.rows_spec())
    }

    /// Renders the grid as text, row by row: each cell shows its own text
    /// for its neighboring-mine count, cells are separated by spaces, and
    /// rows by line breaks.
    pub fn to_string(&self) -> (r: String)
        requires
            self.wf(),
        ensures
            r@ == self.grid_text(),
    {
        let rows = self.rows();
        let cols = self.cols();
        let mut out = String::new();
        let mut row: usize = 0;
        while row < rows
            invariant
                self.wf(),
                rows == self.rows_spec(),
                cols == self.cols_spec(),
                row <= rows,
                out@ == self.grid_text_upto(row as int),
            decreases rows - row,
        {
            if row > 0 {
                out.append("\n");
            }
            let ghost head = out@;
            let mut col: usize = 0;
            while col < cols
                invariant
                    self.wf(),
                    rows == self.rows_spec(),
                    cols == self.cols_spec(),
                    row < rows,
                    col <= cols,
                    out@ == head + self.row_text(row as int, col as int),
                decreases cols - col,
            {
                if col > 0 {
                    out.append(" ");
                }
                let loc = GridLoc { row, col };
                let nm = self.count_neighboring_mines(loc);
                let text = self.cell_at(row, col).to_string(nm);
                out.append(text.as_str());
                if nm != 0 {
                    out.append(" ");
                }
                proof {
                    assert(out@ =~= head + self.row_text(row as int, col + 1));
                }
                col = col + 1;
            }
            out.append("\n");
            proof {
                assert(out@ =~= self.grid_text_upto(row + 1));
            }
            row = row + 1;
        }
        out
    }
}

} // verus!









