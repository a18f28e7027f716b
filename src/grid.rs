use vstd::arithmetic::div_mod::{lemma_fundamental_div_mod, lemma_fundamental_div_mod_converse};
use vstd::prelude::*;

verus! {

/// Why a description of the grid or of its fields was rejected.
#[derive(Debug, Clone, Copy, PartialEq, Eq)]
pub enum ConfigError {
    /// The grid has no columns.
    ZeroWidth,
    /// The grid has no rows.
    ZeroHeight,
    /// `width * height` does not fit in a `usize`.
    TooManyCells,
    /// An array handed in does not hold exactly one value per cell.
    FieldLength,
}

/// A `width` by `height` grid of cells stored row-major: cell `n` lies in
/// row `n / width` and column `n % width`, row 0 along one edge.
#[derive(Debug, Clone, Copy, PartialEq, Eq)]
pub struct Grid {
    pub width: usize,
    pub height: usize,
}

/// Splits a cell index into row and column and bounds the indices of its
/// axis neighbours that lie inside the grid.
pub proof fn lemma_cell_split(w: int, h: int, n: int)
    requires
        0 < w,
        0 < h,
        0 <= n < w * h,
    ensures
        n == (n / w) * w + n % w,
        0 <= n % w < w,
        0 <= n / w < h,
        n % w != 0 ==> n >= 1,
        n % w != w - 1 ==> n + 1 < w * h,
        n / w != 0 ==> n >= w,
        n / w != h - 1 ==> n + w < w * h,
{
    lemma_fundamental_div_mod(n, w);
    let q = n / w;
    let r = n % w;
    assert(0 <= r < w);
    assert(n == q * w + r) by (nonlinear_arith)
        requires
            n == w * q + r,
    ;
    assert(0 <= q < h) by (nonlinear_arith)
        requires
            n == q * w + r,
            0 <= r < w,
            0 <= n < w * h,
            0 < w,
    ;
    assert(q != h - 1 ==> n + w < w * h) by (nonlinear_arith)
        requires
            n == q * w + r,
            0 <= r < w,
            0 <= q < h,
    ;
    assert(r != w - 1 ==> n + 1 < w * h) by (nonlinear_arith)
        requires
            n == q * w + r,
            0 <= r < w,
            0 <= q < h,
    ;
    assert(q != 0 ==> n >= w) by (nonlinear_arith)
        requires
            n == q * w + r,
            0 <= r,
            0 <= q,
            0 < w,
    ;
}

/// The cell in row `r` and column `c` lies inside the grid, and its index
/// splits back into that row and column.
pub proof fn lemma_cell_join(w: int, h: int, r: int, c: int)
    requires
        0 <= r < h,
        0 <= c < w,
    ensures
        0 <= r * w + c < w * h,
        (r * w + c) / w == r,
        (r * w + c) % w == c,
{
    assert(0 <= r * w + c < w * h) by (nonlinear_arith)
        requires
            0 <= r < h,
            0 <= c < w,
    ;
    lemma_fundamental_div_mod_converse(r * w + c, w, r, c);
}

/// Fixed zero boundary: on each edge the missing neighbour of a cell reads
/// as `zero`, and every neighbour that is read from the field lies inside
/// the grid, beside the cell in the same row or the same column.
pub proof fn lemma_star_boundary<T>(grid: Grid, field: Seq<T>, n: int, zero: T)
    requires
        grid.wf(),
        0 <= n < grid.cells(),
    ensures
        grid.on_left_edge(n) ==> grid.star(field, n, zero).0 == zero,
        grid.on_right_edge(n) ==> grid.star(field, n, zero).1 == zero,
        grid.on_top_edge(n) ==> grid.star(field, n, zero).2 == zero,
        grid.on_bottom_edge(n) ==> grid.star(field, n, zero).3 == zero,
        !grid.on_left_edge(n) ==> {
            &&& 0 <= n - 1 < grid.cells()
            &&& grid.row_of(n - 1) == grid.row_of(n)
            &&& grid.col_of(n - 1) == grid.col_of(n) - 1
            &&& grid.star(field, n, zero).0 == field[n - 1]
        },
        !grid.on_right_edge(n) ==> {
            &&& 0 <= n + 1 < grid.cells()
            &&& grid.row_of(n + 1) == grid.row_of(n)
            &&& grid.col_of(n + 1) == grid.col_of(n) + 1
            &&& grid.star(field, n, zero).1 == field[n + 1]
        },
        !grid.on_top_edge(n) ==> {
            &&& 0 <= n - grid.width < grid.cells()
            &&& grid.row_of(n - grid.width) == grid.row_of(n) - 1
            &&& grid.col_of(n - grid.width) == grid.col_of(n)
            &&& grid.star(field, n, zero).2 == field[n - grid.width]
        },
        !grid.on_bottom_edge(n) ==> {
            &&& 0 <= n + grid.width < grid.cells()
            &&& grid.row_of(n + grid.width) == grid.row_of(n) + 1
            &&& grid.col_of(n + grid.width) == grid.col_of(n)
            &&& grid.star(field, n, zero).3 == field[n + grid.width]
        },
{
    let w = grid.width as int;
    let h = grid.height as int;
    lemma_cell_split(w, h, n);
    let r = n / w;
    let c = n % w;
    if c != 0 {
        lemma_cell_join(w, h, r, c - 1);
    }
    if c != w - 1 {
        lemma_cell_join(w, h, r, c + 1);
    }
    if r != 0 {
        lemma_cell_join(w, h, r - 1, c);
        assert((r - 1) * w + c == n - w) by (nonlinear_arith)
            requires
                n == r * w + c,
        ;
    }
    if r != h - 1 {
        lemma_cell_join(w, h, r + 1, c);
        assert((r + 1) * w + c == n + w) by (nonlinear_arith)
            requires
                n == r * w + c,
        ;
    }
}

impl Grid {
    /// The grid has cells and their count fits in a `usize`.
    pub open spec fn wf(self) -> bool {
        &&& self.width > 0
        &&& self.height > 0
        &&& self.width * self.height <= usize::MAX
    }

    pub open spec fn cells(self) -> int {
        self.width * self.height
    }

    pub open spec fn row_of(self, n: int) -> int {
        n / (self.width as int)
    }

    pub open spec fn col_of(self, n: int) -> int {
        n % (self.width as int)
    }

    pub open spec fn center_row(self) -> int {
        self.height as int / 2
    }

    pub open spec fn center_col(self) -> int {
        self.width as int / 2
    }

    /// The cell in the middle row and the middle column (integer division).
    pub open spec fn center_cell(self) -> int {
        self.center_row() * self.width + self.center_col()
    }

    pub open spec fn on_left_edge(self, n: int) -> bool {
        self.col_of(n) == 0
    }

    pub open spec fn on_right_edge(self, n: int) -> bool {
        self.col_of(n) == self.width - 1
    }

    pub open spec fn on_top_edge(self, n: int) -> bool {
        self.row_of(n) == 0
    }

    pub open spec fn on_bottom_edge(self, n: int) -> bool {
        self.row_of(n) == self.height - 1
    }

    /// The values of the four axis neighbours of cell `n` in `field`, as
    /// (left, right, top, bottom). A neighbour outside the grid reads as
    /// `zero`: the field is held at zero just beyond the border.
    pub open spec fn star<T>(self, field: Seq<T>, n: int, zero: T) -> (T, T, T, T) {
        (
            if self.on_left_edge(n) {
                zero
            } else {
                field[n - 1]
            },
            if self.on_right_edge(n) {
                zero
            } else {
                field[n + 1]
            },
            if self.on_top_edge(n) {
                zero
            } else {
                field[n - self.width]
            },
            if self.on_bottom_edge(n) {
                zero
            } else {
                field[n + self.width]
            },
        )
    }

    /// Squared distance, in cell units, from cell `n` to the centre cell.
    pub open spec fn dist_sq(self, n: int) -> int {
        let dx = self.col_of(n) - self.center_col();
        let dy = self.row_of(n) - self.center_row();
        dx * dx + dy * dy
    }

    /// Builds a grid; fails on an empty grid or one whose cell count
    /// does not fit in a `usize`.
    pub fn new(width: usize, height: usize) -> (r: Result<Grid, ConfigError>)
        ensures
            width == 0 ==> r == Err::<Grid, ConfigError>(ConfigError::ZeroWidth),
            width > 0 && height == 0 ==> r == Err::<Grid, ConfigError>(ConfigError::ZeroHeight),
            width > 0 && height > 0 && width * height > usize::MAX ==> r == Err::<
                Grid,
                ConfigError,
            >(ConfigError::TooManyCells),
            width > 0 && height > 0 && width * height <= usize::MAX ==> r == Ok::<
                Grid,
                ConfigError,
            >(Grid { width, height }),
            r is Ok ==> r->Ok_0.wf(),
    {
        if width == 0 {
            return Err(ConfigError::ZeroWidth);
        }
        if height == 0 {
            return Err(ConfigError::ZeroHeight);
        }
        match width.checked_mul(height) {
            None => Err(ConfigError::TooManyCells),
            Some(_) => Ok(Grid { width, height }),
        }
    }

    /// Number of cells.
    pub fn len(&self) -> (r: usize)
        requires
            self.wf(),
        ensures
            r == self.cells(),
    {
        self.width * self.height
    }

    /// Row of cell `n`.
    pub fn row(&self, n: usize) -> (r: usize)
        requires
            self.wf(),
        ensures
            r == self.row_of(n as int),
    {
        n / self.width
    }

    /// Column of cell `n`.
    pub fn col(&self, n: usize) -> (r: usize)
        requires
            self.wf(),
        ensures
            r == self.col_of(n as int),
    {
        n % self.width
    }

    /// Index of the cell in row `row` and column `col`.
    pub fn index(&self, row: usize, col: usize) -> (r: usize)
        requires
            self.wf(),
            row < self.height,
            col < self.width,
        ensures
            r == row * self.width + col,
            r < self.cells(),
            self.row_of(r as int) == row,
            self.col_of(r as int) == col,
    {
        proof {
            lemma_cell_join(self.width as int, self.height as int, row as int, col as int);
        }
        row * self.width + col
    }

    /// Index of the centre cell.
    pub fn center(&self) -> (r: usize)
        requires
            self.wf(),
        ensures
            r == self.center_cell(),
            r < self.cells(),
            self.row_of(r as int) == self.center_row(),
            self.col_of(r as int) == self.center_col(),
    {
        self.index(self.height / 2, self.width / 2)
    }

    /// The values of the four axis neighbours of cell `n` in `field`, as
    /// (left, right, top, bottom), with `zero` for a neighbour beyond the
    /// border.
    pub fn neighbors<T: Copy>(&self, field: &Vec<T>, n: usize, zero: T) -> (r: (T, T, T, T))
        requires
            self.wf(),
            field.len() == self.cells(),
            n < self.cells(),
        ensures
            r == self.star(field@, n as int, zero),
    {
        proof {
            lemma_cell_split(self.width as int, self.height as int, n as int);
        }
        let w = self.width;
        let row = n / w;
        let col = n % w;
        let left = if col == 0 {
            zero
        } else {
            field[n - 1]
        };
        let right = if col == w - 1 {
            zero
        } else {
            field[n + 1]
        };
        let top = if row == 0 {
            zero
        } else {
            field[n - w]
        };
        let bottom = if row == self.height - 1 {
            zero
        } else {
            field[n + w]
        };
        (left, right, top, bottom)
    }

    /// Squared distance, in cell units, from cell `n` to the centre cell.
    pub fn distance_sq(&self, n: usize) -> (r: u128)
        requires
            self.wf(),
            n < self.cells(),
        ensures
            r == self.dist_sq(n as int),
    {
        proof {
            lemma_cell_split(self.width as int, self.height as int, n as int);
        }
        let row = n / self.width;
        let col = n % self.width;
        let cr = self.height / 2;
        let cc = self.width / 2;
        let dx: usize = if col >= cc {
            col - cc
        } else {
            cc - col
        };
        let dy: usize = if row >= cr {
            row - cr
        } else {
            cr - row
        };
        assert(dx <= self.width / 2);
        assert(dy <= self.height / 2);
        let dx2 = dx as u128;
        let dy2 = dy as u128;
        assert(dx2 * dx2 + dy2 * dy2 <= u128::MAX) by (nonlinear_arith)
            requires
                dx2 <= 0x8000_0000_0000_0000u128,
                dy2 <= 0x8000_0000_0000_0000u128,
        ;
        assert(dx2 * dx2 == (col - cc) * (col - cc)) by (nonlinear_arith)
            requires
                dx2 == col - cc || dx2 == cc - col,
        ;
        assert(dy2 * dy2 == (row - cr) * (row - cr)) by (nonlinear_arith)
            requires
                dy2 == row - cr || dy2 == cr - row,
        ;
        dx2 * dx2 + dy2 * dy2
    }
}

} // verus!
