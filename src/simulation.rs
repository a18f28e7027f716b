use crate::grid::{lemma_cell_split, ConfigError, Grid};
use vstd::prelude::*;

verus! {

/// What a scheme's update rule sees of one cell: its value, the values of
/// its four axis neighbours in the same generation (the ghost value beyond
/// the border), and the cell's entry in the second array of the state
/// (the velocity, or the previous generation).
#[derive(Debug)]
pub struct Cell<T> {
    pub value: T,
    pub left: T,
    pub right: T,
    pub top: T,
    pub bottom: T,
    pub aux: T,
}

/// A simulation state as a mathematical value.
pub struct FieldState<T> {
    pub grid: Grid,
    /// The displacement field, row-major.
    pub current: Seq<T>,
    /// The velocity field, or the previous displacement field, by scheme.
    pub aux: Seq<T>,
    /// Elapsed simulated time.
    pub time: T,
    /// The value of the field just beyond the border.
    pub zero: T,
}

impl<T> FieldState<T> {
    pub open spec fn wf(self) -> bool {
        &&& self.grid.wf()
        &&& self.current.len() == self.grid.cells()
        &&& self.aux.len() == self.grid.cells()
    }

    /// The stencil of cell `n`, read from the current generation.
    pub open spec fn cell(self, n: int) -> Cell<T> {
        let s = self.grid.star(self.current, n, self.zero);
        Cell { value: self.current[n], left: s.0, right: s.1, top: s.2, bottom: s.3, aux: self.aux[n] }
    }
}

/// `f` gives a single result for each argument.
pub open spec fn is_function<A, R, F: Fn(A) -> R>(f: F) -> bool {
    forall|x: A, r1: R, r2: R|
        #![trigger f.ensures((x,), r1), f.ensures((x,), r2)]
        f.ensures((x,), r1) && f.ensures((x,), r2) ==> r1 == r2
}

/// `next` is one step of `prev` under `rule`, `drive` being the value forced
/// on the centre cell, if any. Every cell's new (value, aux) pair is a
/// result of `rule` on the previous generation's stencil at that cell, but
/// for a driven centre cell, whose value is the drive value.
pub open spec fn step_with<T, F: Fn(Cell<T>) -> (T, T)>(
    prev: FieldState<T>,
    next: FieldState<T>,
    rule: F,
    drive: Option<T>,
) -> bool {
    let c = prev.grid.center_cell();
    &&& next.grid == prev.grid
    &&& next.zero == prev.zero
    &&& next.current.len() == prev.current.len()
    &&& next.aux.len() == prev.aux.len()
    &&& forall|n: int|
        0 <= n < prev.grid.cells() && !(drive is Some && n == c) ==> rule.ensures(
            (prev.cell(n),),
            (#[trigger] next.current[n], next.aux[n]),
        )
    &&& drive is Some ==> {
        &&& next.current[c] == drive->0
        &&& exists|p: T| rule.ensures((prev.cell(c),), (p, next.aux[c]))
    }
}

/// `next` is one step of `prev`: `clock` takes the old time to the new one
/// and names the drive value, and the cells follow `step_with`.
pub open spec fn is_step<T, F: Fn(Cell<T>) -> (T, T), K: Fn(T) -> (T, Option<T>)>(
    prev: FieldState<T>,
    next: FieldState<T>,
    rule: F,
    clock: K,
) -> bool {
    exists|drive: Option<T>|
        #![trigger step_with(prev, next, rule, drive)]
        clock.ensures((prev.time,), (next.time, drive)) && step_with(prev, next, rule, drive)
}

/// `end` is reached from `start` by `n` steps.
pub open spec fn runs<T, F: Fn(Cell<T>) -> (T, T), K: Fn(T) -> (T, Option<T>)>(
    start: FieldState<T>,
    end: FieldState<T>,
    n: nat,
    rule: F,
    clock: K,
) -> bool
    decreases n,
{
    if n == 0 {
        end == start
    } else {
        exists|mid: FieldState<T>|
            #![trigger is_step(mid, end, rule, clock)]
            runs(start, mid, (n - 1) as nat, rule, clock) && is_step(mid, end, rule, clock)
    }
}

/// `total` is a sum, folded with `plus` from `zero` in cell order, of one
/// result of `density` for each cell.
pub open spec fn is_total<T, D: Fn(Cell<T>) -> T, A: Fn((T, T)) -> T>(
    s: FieldState<T>,
    density: D,
    plus: A,
    total: T,
) -> bool {
    exists|terms: Seq<T>, sums: Seq<T>|
        #![trigger terms.len(), sums.len()]
        {
            &&& terms.len() == s.grid.cells()
            &&& sums.len() == s.grid.cells() + 1
            &&& sums[0] == s.zero
            &&& forall|n: int|
                0 <= n < s.grid.cells() ==> density.ensures((s.cell(n),), #[trigger] terms[n])
                    && plus.ensures(((sums[n], terms[n]),), sums[n + 1])
            &&& total == sums[s.grid.cells()]
        }
}

/// Two steps of one state under functional rules agree: with `rule` and
/// `clock` each giving one result per argument, a step is determined by the
/// state it starts from.
pub proof fn lemma_step_deterministic<
    T,
    F: Fn(Cell<T>) -> (T, T),
    K: Fn(T) -> (T, Option<T>),
>(prev: FieldState<T>, a: FieldState<T>, b: FieldState<T>, rule: F, clock: K)
    requires
        prev.wf(),
        is_function(rule),
        is_function(clock),
        is_step(prev, a, rule, clock),
        is_step(prev, b, rule, clock),
    ensures
        a == b,
{
    let da = choose|d: Option<T>| clock.ensures((prev.time,), (a.time, d)) && step_with(prev, a, rule, d);
    let db = choose|d: Option<T>| clock.ensures((prev.time,), (b.time, d)) && step_with(prev, b, rule, d);
    assert(clock.ensures((prev.time,), (a.time, da)) && clock.ensures((prev.time,), (b.time, db)));
    assert((a.time, da) == (b.time, db));
    let c = prev.grid.center_cell();
    assert forall|n: int| 0 <= n < prev.grid.cells() implies a.current[n] == b.current[n]
        && a.aux[n] == b.aux[n] by {
        if da is Some && n == c {
            let pa = choose|p: T| rule.ensures((prev.cell(c),), (p, a.aux[c]));
            let pb = choose|p: T| rule.ensures((prev.cell(c),), (p, b.aux[c]));
            assert(rule.ensures((prev.cell(c),), (pa, a.aux[c])) && rule.ensures((prev.cell(c),), (pb, b.aux[c])));
        } else {
            assert(rule.ensures((prev.cell(n),), (a.current[n], a.aux[n])));
            assert(rule.ensures((prev.cell(n),), (b.current[n], b.aux[n])));
        }
    }
    assert(a.current =~= b.current);
    assert(a.aux =~= b.aux);
}

/// A step after `n` steps makes `n + 1` steps: `n` calls of `step` in a
/// row relate the first and last states as `multi_step(n)` does.
pub proof fn lemma_runs_extend<T, F: Fn(Cell<T>) -> (T, T), K: Fn(T) -> (T, Option<T>)>(
    start: FieldState<T>,
    mid: FieldState<T>,
    end: FieldState<T>,
    n: nat,
    rule: F,
    clock: K,
)
    requires
        runs(start, mid, n, rule, clock),
        is_step(mid, end, rule, clock),
    ensures
        runs(start, end, n + 1, rule, clock),
{
}

/// Runs keep the state well formed.
pub proof fn lemma_runs_wf<T, F: Fn(Cell<T>) -> (T, T), K: Fn(T) -> (T, Option<T>)>(
    start: FieldState<T>,
    end: FieldState<T>,
    n: nat,
    rule: F,
    clock: K,
)
    requires
        start.wf(),
        runs(start, end, n, rule, clock),
    ensures
        end.wf(),
    decreases n,
{
    if n > 0 {
        let mid = choose|mid: FieldState<T>|
            runs(start, mid, (n - 1) as nat, rule, clock) && is_step(mid, end, rule, clock);
        lemma_runs_wf(start, mid, (n - 1) as nat, rule, clock);
    }
}

/// `multi_step(n)` equals `n` sequential calls of `step`: under functional
/// rules, any two states reached from one start by `n` steps are equal, so
/// the state that `multi_step(n)` leaves is the one that `n` calls of `step`
/// leave (which `lemma_runs_extend` shows to be reached by `n` steps).
pub proof fn lemma_runs_deterministic<T, F: Fn(Cell<T>) -> (T, T), K: Fn(T) -> (T, Option<T>)>(
    start: FieldState<T>,
    a: FieldState<T>,
    b: FieldState<T>,
    n: nat,
    rule: F,
    clock: K,
)
    requires
        start.wf(),
        is_function(rule),
        is_function(clock),
        runs(start, a, n, rule, clock),
        runs(start, b, n, rule, clock),
    ensures
        a == b,
    decreases n,
{
    if n > 0 {
        let ma = choose|mid: FieldState<T>|
            runs(start, mid, (n - 1) as nat, rule, clock) && is_step(mid, a, rule, clock);
        let mb = choose|mid: FieldState<T>|
            runs(start, mid, (n - 1) as nat, rule, clock) && is_step(mid, b, rule, clock);
        lemma_runs_deterministic(start, ma, mb, (n - 1) as nat, rule, clock);
        lemma_runs_wf(start, ma, (n - 1) as nat, rule, clock);
        lemma_step_deterministic(ma, a, b, rule, clock);
    }
}

/// Every cell of the field, and of the second array, holds the ghost value.
pub open spec fn is_quiescent<T>(s: FieldState<T>) -> bool {
    &&& forall|n: int| 0 <= n < s.current.len() ==> #[trigger] s.current[n] == s.zero
    &&& forall|n: int| 0 <= n < s.aux.len() ==> #[trigger] s.aux[n] == s.zero
}

/// A quiescent field stays quiescent for any number of steps when no source
/// drives it and the rule takes a stencil of zeros to zeros.
pub proof fn lemma_quiescent_stays_zero<
    T,
    F: Fn(Cell<T>) -> (T, T),
    K: Fn(T) -> (T, Option<T>),
>(start: FieldState<T>, end: FieldState<T>, n: nat, rule: F, clock: K)
    requires
        start.wf(),
        is_quiescent(start),
        forall|r: (T, T)|
            rule.ensures(
                (Cell {
                    value: start.zero,
                    left: start.zero,
                    right: start.zero,
                    top: start.zero,
                    bottom: start.zero,
                    aux: start.zero,
                },),
                r,
            ) ==> r == (start.zero, start.zero),
        forall|t: T, r: (T, Option<T>)| clock.ensures((t,), r) ==> r.1 is None,
        runs(start, end, n, rule, clock),
    ensures
        end.wf(),
        end.zero == start.zero,
        is_quiescent(end),
    decreases n,
{
    if n > 0 {
        let mid = choose|mid: FieldState<T>|
            runs(start, mid, (n - 1) as nat, rule, clock) && is_step(mid, end, rule, clock);
        lemma_quiescent_stays_zero(start, mid, (n - 1) as nat, rule, clock);
        let d = choose|d: Option<T>| clock.ensures((mid.time,), (end.time, d)) && step_with(mid, end, rule, d);
        assert(clock.ensures((mid.time,), (end.time, d)));
        assert(d is None);
        assert forall|i: int| 0 <= i < end.current.len() implies end.current[i] == end.zero
            && end.aux[i] == end.zero by {
            lemma_cell_split(mid.grid.width as int, mid.grid.height as int, i);
            assert(mid.cell(i) == Cell {
                value: start.zero,
                left: start.zero,
                right: start.zero,
                top: start.zero,
                bottom: start.zero,
                aux: start.zero,
            });
            assert(rule.ensures((mid.cell(i),), (end.current[i], end.aux[i])));
        }
    }
}

/// A field on a grid, advanced in time by an explicit scheme. The scheme's
/// arithmetic is a rule handed to `step`; the simulation owns the arrays,
/// the boundary and the order of the updates: each step computes the whole
/// new generation from the old one before publishing it.
pub struct Simulation<T> {
    grid: Grid,
    current: Vec<T>,
    aux: Vec<T>,
    time: T,
    zero: T,
}

impl<T: Copy> View for Simulation<T> {
    type V = FieldState<T>;

    closed spec fn view(&self) -> FieldState<T> {
        FieldState {
            grid: self.grid,
            current: self.current@,
            aux: self.aux@,
            time: self.time,
            zero: self.zero,
        }
    }
}

impl<T: Copy> Simulation<T> {
    /// Builds a simulation from its initial fields. Fails on an empty grid,
    /// one whose cell count does not fit in a `usize`, or a field whose
    /// length is not the number of cells.
    pub fn new(grid: Grid, initial: Vec<T>, aux: Vec<T>, start: T, zero: T) -> (r: Result<
        Simulation<T>,
        ConfigError,
    >)
        ensures
            grid.width == 0 ==> r == Err::<Simulation<T>, ConfigError>(ConfigError::ZeroWidth),
            grid.width > 0 && grid.height == 0 ==> r == Err::<Simulation<T>, ConfigError>(
                ConfigError::ZeroHeight,
            ),
            grid.width > 0 && grid.height > 0 && grid.width * grid.height > usize::MAX ==> r
                == Err::<Simulation<T>, ConfigError>(ConfigError::TooManyCells),
            grid.wf() && (initial.len() != grid.cells() || aux.len() != grid.cells()) ==> r
                == Err::<Simulation<T>, ConfigError>(ConfigError::FieldLength),
            grid.wf() && initial.len() == grid.cells() && aux.len() == grid.cells() ==> r is Ok,
            r is Ok ==> r->Ok_0@ == (FieldState { grid, current: initial@, aux: aux@, time: start, zero }),
            r is Ok ==> r->Ok_0@.wf(),
    {
        let g = match Grid::new(grid.width, grid.height) {
            Ok(g) => g,
            Err(e) => return Err(e),
        };
        let n = g.len();
        if initial.len() != n || aux.len() != n {
            return Err(ConfigError::FieldLength);
        }
        Ok(Simulation { grid: g, current: initial, aux, time: start, zero })
    }

    /// The grid.
    pub fn grid(&self) -> (r: Grid)
        ensures
            r == self@.grid,
    {
        self.grid
    }

    /// The current displacement field.
    pub fn field(&self) -> (r: &Vec<T>)
        ensures
            r@ == self@.current,
    {
        &self.current
    }

    /// The second array of the state: velocity or previous generation.
    pub fn aux_field(&self) -> (r: &Vec<T>)
        ensures
            r@ == self@.aux,
    {
        &self.aux
    }

    /// Elapsed simulated time.
    pub fn time(&self) -> (r: T)
        ensures
            r == self@.time,
    {
        self.time
    }

    /// The four axis neighbours of cell `n` in the current field, as
    /// (left, right, top, bottom), with the ghost value beyond the border.
    pub fn get_star(&self, n: usize) -> (r: (T, T, T, T))
        requires
            self@.wf(),
            n < self@.grid.cells(),
        ensures
            r == self@.grid.star(self@.current, n as int, self@.zero),
    {
        self.grid.neighbors(&self.current, n, self.zero)
    }

    /// The stencil of cell `n`.
    pub fn cell(&self, n: usize) -> (r: Cell<T>)
        requires
            self@.wf(),
            n < self@.grid.cells(),
        ensures
            r == self@.cell(n as int),
    {
        let (left, right, top, bottom) = self.get_star(n);
        Cell { value: self.current[n], left, right, top, bottom, aux: self.aux[n] }
    }

    /// Advances one timestep. Each cell's new (value, aux) pair comes from
    /// `rule` applied to that cell's stencil in the old generation; the whole
    /// new generation is computed before it replaces the old one. `clock`
    /// takes the old time to the new one and may name a value that is then
    /// forced on the centre cell (a driven source). Returns the new field.
    pub fn step<F: Fn(Cell<T>) -> (T, T), K: Fn(T) -> (T, Option<T>)>(
        &mut self,
        rule: &F,
        clock: &K,
    ) -> (r: &Vec<T>)
        requires
            old(self)@.wf(),
            forall|c: Cell<T>| rule.requires((c,)),
            forall|t: T| clock.requires((t,)),
        ensures
            final(self)@.wf(),
            is_step(old(self)@, final(self)@, *rule, *clock),
            r@ == final(self)@.current,
    {
        let ghost prev = self@;
        let n = self.grid.len();
        let mut next_cur: Vec<T> = Vec::new();
        let mut next_aux: Vec<T> = Vec::new();
        let mut i: usize = 0;
        while i < n
            invariant
                self@ == prev,
                prev.wf(),
                n == prev.grid.cells(),
                i <= n,
                next_cur.len() == i,
                next_aux.len() == i,
                forall|c: Cell<T>| rule.requires((c,)),
                forall|j: int|
                    0 <= j < i ==> rule.ensures((prev.cell(j),), (#[trigger] next_cur@[j], next_aux@[j])),
            decreases n - i,
        {
            let c = self.cell(i);
            let (u, a) = rule(c);
            next_cur.push(u);
            next_aux.push(a);
            i += 1;
        }
        let (t, drive) = clock(self.time);
        let ghost undriven = next_cur@;
        let center = self.grid.center();
        match drive {
            Some(v) => {
                next_cur.set(center, v);
            },
            None => {},
        }
        self.current = next_cur;
        self.aux = next_aux;
        self.time = t;
        proof {
            let next = self@;
            if drive is Some {
                assert(rule.ensures((prev.cell(center as int),), (undriven[center as int], next.aux[center as int])));
            }
            assert(step_with(prev, next, *rule, drive));
        }
        &self.current
    }

    /// Advances `n` timesteps, each one a `step`; with `n == 0` the state is
    /// left as it is. Returns the field after the last step.
    pub fn multi_step<F: Fn(Cell<T>) -> (T, T), K: Fn(T) -> (T, Option<T>)>(
        &mut self,
        n: u32,
        rule: &F,
        clock: &K,
    ) -> (r: &Vec<T>)
        requires
            old(self)@.wf(),
            forall|c: Cell<T>| rule.requires((c,)),
            forall|t: T| clock.requires((t,)),
        ensures
            final(self)@.wf(),
            runs(old(self)@, final(self)@, n as nat, *rule, *clock),
            n == 0 ==> final(self)@ == old(self)@,
            r@ == final(self)@.current,
    {
        let ghost start = self@;
        let mut k: u32 = 0;
        while k < n
            invariant
                self@.wf(),
                k <= n,
                runs(start, self@, k as nat, *rule, *clock),
                forall|c: Cell<T>| rule.requires((c,)),
                forall|t: T| clock.requires((t,)),
            decreases n - k,
        {
            let ghost before = self@;
            let _ = self.step(rule, clock);
            proof {
                assert(runs(start, before, k as nat, *rule, *clock) && is_step(before, self@, *rule, *clock));
                assert(runs(start, self@, (k + 1) as nat, *rule, *clock));
            }
            k += 1;
        }
        &self.current
    }

    /// Sums one energy density per cell: `density` gives a cell's share from
    /// its stencil (for the quadratic functional, half of the squared
    /// velocity plus the squared central-difference gradient scaled by the
    /// squared wave speed), and `plus` folds the shares from the ghost value
    /// in cell order.
    pub fn energy<D: Fn(Cell<T>) -> T, A: Fn((T, T)) -> T>(&self, density: &D, plus: &A) -> (r: T)
        requires
            self@.wf(),
            forall|c: Cell<T>| density.requires((c,)),
            forall|p: (T, T)| plus.requires((p,)),
        ensures
            is_total(self@, *density, *plus, r),
    {
        let ghost s = self@;
        let n = self.grid.len();
        let mut total = self.zero;
        let ghost mut terms: Seq<T> = Seq::empty();
        let ghost mut sums: Seq<T> = seq![self.zero];
        let mut i: usize = 0;
        while i < n
            invariant
                self@ == s,
                s.wf(),
                n == s.grid.cells(),
                i <= n,
                terms.len() == i,
                sums.len() == i + 1,
                sums[0] == s.zero,
                sums[i as int] == total,
                forall|c: Cell<T>| density.requires((c,)),
                forall|p: (T, T)| plus.requires((p,)),
                forall|j: int|
                    0 <= j < i ==> density.ensures((s.cell(j),), #[trigger] terms[j]) && plus.ensures(
                        ((sums[j], terms[j]),),
                        sums[j + 1],
                    ),
            decreases n - i,
        {
            let c = self.cell(i);
            let e = density(c);
            let next = plus((total, e));
            proof {
                terms = terms.push(e);
                sums = sums.push(next);
            }
            total = next;
            i += 1;
        }
        proof {
            assert(terms.len() == s.grid.cells() && sums.len() == s.grid.cells() + 1);
        }
        total
    }
}

} // verus!
