use crate::grid::Grid;
use vstd::prelude::*;

verus! {

/// The value that the impulse initial condition puts in cell `n`: `peak` at
/// the centre cell, `side` at its (up to four) axis neighbours inside the
/// grid, `zero` everywhere else.
pub open spec fn impulse_value<T>(grid: Grid, n: int, zero: T, peak: T, side: T) -> T {
    let row = grid.row_of(n);
    let col = grid.col_of(n);
    let cr = grid.center_row();
    let cc = grid.center_col();
    if row == cr && col == cc {
        peak
    } else if (row == cr && (col + 1 == cc || col == cc + 1)) || (col == cc && (row + 1 == cr || row
        == cr + 1)) {
        side
    } else {
        zero
    }
}

/// A field in which two cells hold equal values whenever they lie at the
/// same distance from the centre cell: `profile` gives a single value for
/// each squared distance.
pub open spec fn profile_is_function<T, F: Fn(u128) -> T>(profile: F) -> bool {
    forall|d: u128, x: T, y: T|
        #![trigger profile.ensures((d,), x), profile.ensures((d,), y)]
        profile.ensures((d,), x) && profile.ensures((d,), y) ==> x == y
}

/// Offset of cell `n` from the centre cell, as (column offset, row offset).
pub open spec fn offset(grid: Grid, n: int) -> (int, int) {
    (grid.col_of(n) - grid.center_col(), grid.row_of(n) - grid.center_row())
}

/// The quiescent field: every cell holds `zero`.
pub fn quiescent<T: Copy>(grid: &Grid, zero: T) -> (r: Vec<T>)
    requires
        grid.wf(),
    ensures
        r.len() == grid.cells(),
        forall|i: int| 0 <= i < r.len() ==> r[i] == zero,
{
    let n = grid.len();
    let mut v: Vec<T> = Vec::new();
    let mut i: usize = 0;
    while i < n
        invariant
            n == grid.cells(),
            i <= n,
            v.len() == i,
            forall|j: int| 0 <= j < i ==> v[j] == zero,
        decreases n - i,
    {
        v.push(zero);
        i += 1;
    }
    v
}

/// A radially symmetric field: cell `n` holds what `profile` gives for its
/// squared distance, in cell units, from the centre cell. A Gaussian pulse
/// is `profile(d) = amplitude * exp(-d / (2 sigma^2)) / (sigma * sqrt(2 pi))`.
pub fn radial<T, F: Fn(u128) -> T>(grid: &Grid, profile: &F) -> (r: Vec<T>)
    requires
        grid.wf(),
        forall|d: u128| profile.requires((d,)),
    ensures
        r.len() == grid.cells(),
        forall|i: int|
            0 <= i < r.len() ==> profile.ensures((grid.dist_sq(i) as u128,), #[trigger] r[i]),
{
    let n = grid.len();
    let mut v: Vec<T> = Vec::new();
    let mut i: usize = 0;
    while i < n
        invariant
            n == grid.cells(),
            grid.wf(),
            i <= n,
            v.len() == i,
            forall|d: u128| profile.requires((d,)),
            forall|j: int|
                0 <= j < i ==> profile.ensures((grid.dist_sq(j) as u128,), #[trigger] v[j]),
        decreases n - i,
    {
        let d = grid.distance_sq(i);
        v.push(profile(d));
        i += 1;
    }
    v
}

/// The impulse field: `peak` at the centre cell, `side` at its axis
/// neighbours that lie inside the grid, `zero` elsewhere.
pub fn impulse<T: Copy>(grid: &Grid, zero: T, peak: T, side: T) -> (r: Vec<T>)
    requires
        grid.wf(),
    ensures
        r.len() == grid.cells(),
        forall|i: int|
            0 <= i < r.len() ==> #[trigger] r[i] == impulse_value(*grid, i, zero, peak, side),
{
    let n = grid.len();
    let cr = grid.height / 2;
    let cc = grid.width / 2;
    let mut v: Vec<T> = Vec::new();
    let mut i: usize = 0;
    while i < n
        invariant
            n == grid.cells(),
            grid.wf(),
            cr == grid.center_row(),
            cc == grid.center_col(),
            i <= n,
            v.len() == i,
            forall|j: int| 0 <= j < i ==> #[trigger] v[j] == impulse_value(*grid, j, zero, peak, side),
        decreases n - i,
    {
        let row = grid.row(i);
        let col = grid.col(i);
        let x = if row == cr && col == cc {
            peak
        } else if (row == cr && (col + 1 == cc || col == cc + 1)) || (col == cc && (row + 1 == cr
            || row == cr + 1)) {
            side
        } else {
            zero
        };
        v.push(x);
        i += 1;
    }
    v
}

/// Two cells at the same distance from the centre hold the same value of a
/// radial field whose profile gives one value per distance.
pub proof fn lemma_radial_equal_distance<T, F: Fn(u128) -> T>(
    grid: Grid,
    field: Seq<T>,
    profile: F,
    a: int,
    b: int,
)
    requires
        grid.wf(),
        field.len() == grid.cells(),
        0 <= a < field.len(),
        0 <= b < field.len(),
        forall|i: int|
            0 <= i < field.len() ==> profile.ensures((grid.dist_sq(i) as u128,), #[trigger] field[i]),
        profile_is_function(profile),
        grid.dist_sq(a) == grid.dist_sq(b),
    ensures
        field[a] == field[b],
{
    assert(profile.ensures((grid.dist_sq(a) as u128,), field[a]));
    assert(profile.ensures((grid.dist_sq(b) as u128,), field[b]));
}

/// Radial symmetry of the radial field: the cells at offsets (dx, dy) and
/// (-dx, dy) from the centre hold equal values, and so do those at (dx, dy)
/// and (dx, -dy), and at (dx, dy) and (dy, dx), when the profile gives one
/// value per distance.
pub proof fn lemma_radial_mirror<T, F: Fn(u128) -> T>(
    grid: Grid,
    field: Seq<T>,
    profile: F,
    a: int,
    b: int,
)
    requires
        grid.wf(),
        field.len() == grid.cells(),
        0 <= a < field.len(),
        0 <= b < field.len(),
        forall|i: int|
            0 <= i < field.len() ==> profile.ensures((grid.dist_sq(i) as u128,), #[trigger] field[i]),
        profile_is_function(profile),
        offset(grid, b) == (-offset(grid, a).0, offset(grid, a).1) || offset(grid, b) == (
            offset(grid, a).0,
            -offset(grid, a).1,
        ) || offset(grid, b) == (offset(grid, a).1, offset(grid, a).0),
    ensures
        field[a] == field[b],
{
    let (dx, dy) = offset(grid, a);
    assert(grid.dist_sq(a) == dx * dx + dy * dy);
    assert((-dx) * (-dx) == dx * dx) by (nonlinear_arith);
    assert((-dy) * (-dy) == dy * dy) by (nonlinear_arith);
    lemma_radial_equal_distance(grid, field, profile, a, b);
}

} // verus!
