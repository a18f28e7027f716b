use wave_sim::grid::{ConfigError, Grid};
use wave_sim::init::{impulse, quiescent, radial};
use wave_sim::pattern::{get_sin, sin_pattern};
use wave_sim::simulation::{Cell, Simulation};

const SIGMA_WIDE: f64 = 4.0;

fn gaussian(dist_sq: u128, sigma: f64, amplitude: f64) -> f64 {
    let d2 = dist_sq as f64;
    (-0.5 * d2 / (sigma * sigma)).exp() / (sigma * (2.0 * std::f64::consts::PI).sqrt()) * amplitude
}

fn laplacian(c: &Cell<f64>, h: f64) -> f64 {
    (c.left - 2.0 * c.value + c.right) / (h * h) + (c.top - 2.0 * c.value + c.bottom) / (h * h)
}

/// Symplectic Euler: velocity from the old displacement, displacement from
/// the old velocity. Returns (displacement, velocity).
fn velocity_rule(speed: f64, dt: f64, h: f64) -> impl Fn(Cell<f64>) -> (f64, f64) {
    move |c: Cell<f64>| {
        let accel = speed * speed * laplacian(&c, h);
        (c.value + c.aux * dt, c.aux + accel * dt)
    }
}

/// Central differences: returns (next generation, current generation).
fn central_rule(speed: f64, dt: f64, h: f64) -> impl Fn(Cell<f64>) -> (f64, f64) {
    move |c: Cell<f64>| {
        let next = 2.0 * c.value - c.aux + speed * speed * dt * dt * laplacian(&c, h);
        (next, c.value)
    }
}

fn plain_clock(dt: f64) -> impl Fn(f64) -> (f64, Option<f64>) {
    move |t: f64| (t + dt, None)
}

fn driven_clock(dt: f64) -> impl Fn(f64) -> (f64, Option<f64>) {
    move |t: f64| (t + dt, Some((5.0 * t).sin()))
}

fn velocity_density(speed: f64, h: f64) -> impl Fn(Cell<f64>) -> f64 {
    move |c: Cell<f64>| {
        let gx = (c.right - c.left) / (2.0 * h);
        let gy = (c.bottom - c.top) / (2.0 * h);
        0.5 * (c.aux * c.aux + speed * speed * (gx * gx + gy * gy))
    }
}

fn sum(p: (f64, f64)) -> f64 {
    p.0 + p.1
}

fn sim_3x3() -> Simulation<f64> {
    let field = vec![0.0, 1.0, 2.0, 3.0, 4.0, 5.0, 6.0, 7.0, 8.0];
    Simulation::new(Grid { width: 3, height: 3 }, field.clone(), field, 0.0, 0.0).unwrap()
}

#[test]
fn test_get_star() {
    let sim = sim_3x3();
    assert_eq!(sim.get_star(0), (0.0, 1.0, 0.0, 3.0));
    assert_eq!(sim.get_star(1), (0.0, 2.0, 0.0, 4.0));
    assert_eq!(sim.get_star(2), (1.0, 0.0, 0.0, 5.0));
    assert_eq!(sim.get_star(3), (0.0, 4.0, 0.0, 6.0));
    assert_eq!(sim.get_star(4), (3.0, 5.0, 1.0, 7.0));
    assert_eq!(sim.get_star(5), (4.0, 0.0, 2.0, 8.0));
    assert_eq!(sim.get_star(6), (0.0, 7.0, 3.0, 0.0));
    assert_eq!(sim.get_star(7), (6.0, 8.0, 4.0, 0.0));
    assert_eq!(sim.get_star(8), (7.0, 0.0, 5.0, 0.0));
}

#[test]
fn test_gaus() {
    let grid = Grid::new(9, 9).unwrap();
    let field = radial(&grid, &|d: u128| gaussian(d, SIGMA_WIDE, 1.0));
    let left = grid.index(4, 3);
    let right = grid.index(4, 5);
    assert_eq!(field[left], field[right]);
}

#[test]
fn grid_rejects_empty_and_oversized() {
    assert_eq!(Grid::new(0, 5), Err(ConfigError::ZeroWidth));
    assert_eq!(Grid::new(0, 0), Err(ConfigError::ZeroWidth));
    assert_eq!(Grid::new(5, 0), Err(ConfigError::ZeroHeight));
    assert_eq!(Grid::new(usize::MAX, 2), Err(ConfigError::TooManyCells));
    assert_eq!(Grid::new(4, 3), Ok(Grid { width: 4, height: 3 }));
}

#[test]
fn grid_geometry() {
    let grid = Grid::new(4, 3).unwrap();
    assert_eq!(grid.len(), 12);
    assert_eq!(grid.row(7), 1);
    assert_eq!(grid.col(7), 3);
    assert_eq!(grid.index(2, 1), 9);
    // middle row 3 / 2 = 1, middle column 4 / 2 = 2
    assert_eq!(grid.center(), 6);
    assert_eq!(grid.distance_sq(0), 4 + 1);
    assert_eq!(grid.distance_sq(11), 1 + 1);
    assert_eq!(grid.distance_sq(6), 0);
}

#[test]
fn neighbors_on_border_read_zero_ghosts() {
    let grid = Grid::new(3, 3).unwrap();
    let field = vec![0.0, 1.0, 2.0, 3.0, 4.0, 5.0, 6.0, 7.0, 8.0];
    assert_eq!(grid.neighbors(&field, 4, 0.0), (3.0, 5.0, 1.0, 7.0));
    assert_eq!(grid.neighbors(&field, 0, 0.0), (0.0, 1.0, 0.0, 3.0));
    assert_eq!(grid.neighbors(&field, 8, -1.0), (7.0, -1.0, 5.0, -1.0));
    let single = Grid::new(1, 1).unwrap();
    assert_eq!(single.neighbors(&vec![9.0], 0, 0.0), (0.0, 0.0, 0.0, 0.0));
}

#[test]
fn simulation_rejects_bad_configuration() {
    let ok = Simulation::new(Grid { width: 2, height: 2 }, vec![0.0; 4], vec![0.0; 4], 0.0, 0.0);
    assert!(ok.is_ok());
    let short = Simulation::new(Grid { width: 2, height: 2 }, vec![0.0; 3], vec![0.0; 4], 0.0, 0.0);
    assert!(matches!(short, Err(ConfigError::FieldLength)));
    let short_aux = Simulation::new(Grid { width: 2, height: 2 }, vec![0.0; 4], vec![0.0; 5], 0.0, 0.0);
    assert!(matches!(short_aux, Err(ConfigError::FieldLength)));
    let no_width = Simulation::new(Grid { width: 0, height: 2 }, vec![], vec![], 0.0, 0.0);
    assert!(matches!(no_width, Err(ConfigError::ZeroWidth)));
    let no_height = Simulation::new(Grid { width: 2, height: 0 }, vec![], vec![], 0.0, 0.0);
    assert!(matches!(no_height, Err(ConfigError::ZeroHeight)));
    let huge = Simulation::new(Grid { width: usize::MAX, height: 3 }, vec![], vec![], 0.0, 0.0);
    assert!(matches!(huge, Err(ConfigError::TooManyCells)));
}

#[test]
fn quiescent_is_all_zero() {
    let grid = Grid::new(5, 4).unwrap();
    let field = quiescent(&grid, 0.0);
    assert_eq!(field.len(), 20);
    assert!(field.iter().all(|x| *x == 0.0));
}

#[test]
fn impulse_marks_centre_and_axis_neighbours() {
    let grid = Grid::new(5, 5).unwrap();
    let field = impulse(&grid, 0.0, 2.0, 1.0);
    let mut expected = vec![0.0; 25];
    expected[12] = 2.0;
    expected[11] = 1.0;
    expected[13] = 1.0;
    expected[7] = 1.0;
    expected[17] = 1.0;
    assert_eq!(field, expected);
    // on a 2 x 1 grid the centre is the right cell; its right neighbour is off the grid
    let narrow = Grid::new(2, 1).unwrap();
    assert_eq!(impulse(&narrow, 0.0, 2.0, 1.0), vec![1.0, 2.0]);
}

#[test]
fn radial_field_is_symmetric_about_the_centre() {
    let grid = Grid::new(101, 101).unwrap();
    let field = radial(&grid, &|d: u128| gaussian(d, SIGMA_WIDE, 25.0));
    for (dx, dy) in [(1usize, 0usize), (3, 4), (7, 2), (50, 50)] {
        let a = field[grid.index(50 + dy, 50 + dx)];
        assert_eq!(a, field[grid.index(50 + dy, 50 - dx)]);
        assert_eq!(a, field[grid.index(50 - dy, 50 + dx)]);
        assert_eq!(a, field[grid.index(50 + dx, 50 + dy)]);
    }
    let peak = field[grid.center()];
    assert!((peak - 25.0 / (SIGMA_WIDE * (2.0 * std::f64::consts::PI).sqrt())).abs() < 1e-12);
}

#[test]
fn radial_passes_squared_distance() {
    let grid = Grid::new(3, 2).unwrap();
    // centre is row 1, column 1
    let field = radial(&grid, &|d: u128| d as u64);
    assert_eq!(field, vec![2, 1, 2, 1, 0, 1]);
}

#[test]
fn quiescent_field_stays_zero() {
    let grid = Grid::new(6, 5).unwrap();
    let mut sim =
        Simulation::new(grid, quiescent(&grid, 0.0), quiescent(&grid, 0.0), 0.0, 0.0).unwrap();
    let rule = velocity_rule(1.0, 1e-3, 0.1);
    for _ in 0..20 {
        let f = sim.step(&rule, &plain_clock(1e-3));
        assert!(f.iter().all(|x| *x == 0.0));
    }
    let f = sim.multi_step(30, &central_rule(1.0, 1e-3, 0.1), &plain_clock(1e-3));
    assert!(f.iter().all(|x| *x == 0.0));
    assert!(sim.aux_field().iter().all(|x| *x == 0.0));
}

#[test]
fn multi_step_zero_leaves_state_unchanged() {
    let mut sim = sim_3x3();
    let before = sim.field().clone();
    let out = sim.multi_step(0, &velocity_rule(1.0, 0.01, 1.0), &plain_clock(0.01)).clone();
    assert_eq!(out, before);
    assert_eq!(sim.time(), 0.0);
}

#[test]
fn multi_step_equals_repeated_step() {
    let grid = Grid::new(7, 6).unwrap();
    let start = impulse(&grid, 0.0, 1.0, 0.5);
    let mut a = Simulation::new(grid, start.clone(), quiescent(&grid, 0.0), 0.0, 0.0).unwrap();
    let mut b = Simulation::new(grid, start, quiescent(&grid, 0.0), 0.0, 0.0).unwrap();
    let rule = central_rule(1.0, 0.05, 1.0);
    let clock = driven_clock(0.05);
    a.multi_step(5, &rule, &clock);
    for _ in 0..5 {
        b.step(&rule, &clock);
    }
    assert_eq!(a.field(), b.field());
    assert_eq!(a.aux_field(), b.aux_field());
    assert_eq!(a.time(), b.time());
}

#[test]
fn velocity_step_exact_values() {
    // one row of three cells, h = 1, c = 1, dt = 0.5
    let grid = Grid::new(3, 1).unwrap();
    let mut sim = Simulation::new(grid, vec![0.0, 1.0, 0.0], vec![0.0, 0.0, 2.0], 0.0, 0.0).unwrap();
    let f = sim.step(&velocity_rule(1.0, 0.5, 1.0), &plain_clock(0.5)).clone();
    // displacement uses the old velocity
    assert_eq!(f, vec![0.0, 1.0, 1.0]);
    // laplacians: left 1, centre -4 (row of one: top and bottom are ghosts), right 1
    assert_eq!(sim.aux_field(), &vec![0.5, -2.0, 2.5]);
    assert_eq!(sim.time(), 0.5);
}

#[test]
fn central_step_drives_centre_and_keeps_previous() {
    let grid = Grid::new(3, 3).unwrap();
    let mut sim =
        Simulation::new(grid, impulse(&grid, 0.0, 1.0, 0.0), quiescent(&grid, 0.0), 0.25, 0.0)
            .unwrap();
    let before = sim.field().clone();
    let f = sim.step(&central_rule(1.0, 0.1, 1.0), &driven_clock(0.1)).clone();
    assert_eq!(f[4], (5.0 * 0.25f64).sin());
    // c^2 dt^2 * laplacian of the unit impulse at an edge neighbour = 0.01 * 1
    assert!((f[1] - 0.01).abs() < 1e-15);
    assert_eq!(f[0], 0.0);
    assert_eq!(sim.aux_field(), &before);
    assert!((sim.time() - 0.35).abs() < 1e-15);
}

#[test]
fn border_cells_see_zero_beyond_the_grid() {
    // a unit value in a corner spreads inward only; the ghosts stay zero
    let grid = Grid::new(4, 4).unwrap();
    let mut start = quiescent(&grid, 0.0);
    start[0] = 1.0;
    let mut sim = Simulation::new(grid, start, quiescent(&grid, 0.0), 0.0, 0.0).unwrap();
    let f = sim.step(&central_rule(1.0, 0.1, 1.0), &plain_clock(0.1)).clone();
    // centre: 2 - 0 + 0.01 * (0 - 2 + 0 + 0 - 2 + 0) = 1.96
    assert!((f[0] - 1.96).abs() < 1e-12);
    assert!((f[1] - 0.01).abs() < 1e-12);
    assert!((f[4] - 0.01).abs() < 1e-12);
    assert_eq!(f[5], 0.0);
    assert_eq!(sim.get_star(0), (0.0, f[1], 0.0, f[4]));
}

#[test]
fn energy_exact_value() {
    let grid = Grid::new(2, 1).unwrap();
    let sim = Simulation::new(grid, vec![1.0, 3.0], vec![2.0, 0.0], 0.0, 0.0).unwrap();
    // h = 1, c = 1: cell 0 gradient (3 - 0) / 2, cell 1 gradient (0 - 1) / 2
    let e = sim.energy(&velocity_density(1.0, 1.0), &sum);
    assert_eq!(e, 0.5 * (4.0 + 2.25) + 0.5 * 0.25);
    let counted = sim.energy(&|_c: Cell<f64>| 1.0, &sum);
    assert_eq!(counted, 2.0);
}

#[test]
fn energy_is_non_negative() {
    let grid = Grid::new(20, 20).unwrap();
    let start = radial(&grid, &|d: u128| gaussian(d, SIGMA_WIDE, -3.0));
    let mut sim = Simulation::new(grid, start, quiescent(&grid, 0.0), 0.0, 0.0).unwrap();
    let density = velocity_density(1.0, 0.05);
    for _ in 0..10 {
        assert!(sim.energy(&density, &sum) >= 0.0);
        sim.multi_step(3, &velocity_rule(1.0, 1e-3, 0.05), &plain_clock(1e-3));
    }
}

#[test]
fn gaussian_pulse_scenario_stays_bounded() {
    let grid = Grid::new(100, 100).unwrap();
    let speed = 0.01;
    let dt = 1e-4;
    let h = 1.0 / 100.0;
    let start = radial(&grid, &|d: u128| gaussian(d, SIGMA_WIDE, 25.0));
    assert_eq!(grid.center(), grid.index(50, 50));
    let mut sim = Simulation::new(grid, start.clone(), quiescent(&grid, 0.0), 0.0, 0.0).unwrap();
    let density = velocity_density(speed, h);
    let e0 = sim.energy(&density, &sum);
    let f = sim.multi_step(50, &velocity_rule(speed, dt, h), &plain_clock(dt)).clone();
    let e1 = sim.energy(&density, &sum);
    assert!(f.iter().all(|x| x.is_finite()));
    assert!(e0.is_finite() && e1.is_finite() && e0 > 0.0);
    assert!(e1 / e0 > 0.1 && e1 / e0 < 10.0);
    assert!((sim.time() - 50.0 * dt).abs() < 1e-12);
    assert_ne!(f, start);
    for i in 0..100 {
        for n in [grid.index(0, i), grid.index(99, i), grid.index(i, 0), grid.index(i, 99)] {
            assert!(f[n].abs() < 1e-20);
        }
    }
}

#[test]
fn sin_pattern_fills_rows() {
    let img = sin_pattern(7, &|row: usize, t: u128| (row as u128 + t) as u8);
    for n in 0..10000 {
        assert_eq!(img[n], (n / 100 + 7) as u8);
    }
}

#[test]
fn get_sin_gives_banded_image() {
    let shade = |row: usize, t: u128| {
        let phase = row as f64 / 100.0 * 2.0 * std::f64::consts::PI + t as f64 / 100.0;
        ((phase.sin() + 1.0) * 127.0) as u8
    };
    let img = get_sin(&shade).unwrap();
    for row in 0..100 {
        for col in 0..100 {
            assert_eq!(img[row * 100 + col], img[row * 100]);
        }
    }
    let distinct: std::collections::BTreeSet<u8> = img.iter().copied().collect();
    assert!(distinct.len() > 10);
}
