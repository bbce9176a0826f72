use plasma_simulation::difference::{axis_stencil, AxisStencil};
use plasma_simulation::interpolation::{axis_cell, axis_gather_cell, Cell, Corner};
use plasma_simulation::mesh::Dimensions;
use plasma_simulation::particles::{on_maximum_face, quiet_start_weight_eighths, wall_crossed, Wall};
use plasma_simulation::solver::{SolverProgress, SolverStatus, CONVERGENCE_CHECK_INTERVAL};

fn weight(c: &Corner, di: f64, dj: f64, dk: f64) -> f64 {
    let f = |upper: bool, d: f64| if upper { d } else { 1.0 - d };
    f(c.upper_i, di) * f(c.upper_j, dj) * f(c.upper_k, dk)
}

#[test]
fn cell_containing_accepts_only_the_interpolatable_range() {
    let d = Dimensions::new(5, 5, 5);
    assert_eq!(d.cell_containing(0, 0, 0), Some(Cell { i: 0, j: 0, k: 0 }));
    assert_eq!(d.cell_containing(3, 2, 1), Some(Cell { i: 3, j: 2, k: 1 }));
    assert_eq!(d.cell_containing(4, 0, 0), None);
    assert_eq!(d.cell_containing(0, -1, 0), None);
    assert_eq!(d.cell_containing(0, 0, 9), None);
    assert_eq!(axis_cell(5, 3), Some(3));
    assert_eq!(axis_cell(5, 4), None);
    assert_eq!(axis_cell(0, 0), None);
}

#[test]
fn cell_corners_in_order() {
    let d = Dimensions::new(5, 5, 5);
    let cs = d.cell_corners(Cell { i: 1, j: 2, k: 3 });
    let nodes: Vec<(usize, usize, usize)> = cs.iter().map(|c| (c.i, c.j, c.k)).collect();
    assert_eq!(
        nodes,
        vec![
            (1, 2, 3),
            (2, 2, 3),
            (2, 3, 3),
            (1, 3, 3),
            (1, 2, 4),
            (2, 2, 4),
            (2, 3, 4),
            (1, 3, 4)
        ]
    );
    assert!(cs[6].upper_i && cs[6].upper_j && cs[6].upper_k);
    assert!(!cs[0].upper_i && !cs[0].upper_j && !cs[0].upper_k);
}

#[test]
fn corner_weights_sum_to_one() {
    let d = Dimensions::new(5, 5, 5);
    let cs = d.cell_corners(Cell { i: 0, j: 0, k: 0 });
    for (di, dj, dk) in [(0.0, 0.0, 0.0), (0.25, 0.5, 0.75), (0.9, 0.1, 0.3)] {
        let total: f64 = cs.iter().map(|c| weight(c, di, dj, dk)).sum();
        assert!((total - 1.0).abs() < 1e-12);
    }
}

#[test]
fn scatter_then_gather_at_a_node_and_halfway() {
    let d = Dimensions::new(4, 4, 4);
    let cell = Cell { i: 1, j: 1, k: 1 };
    let cs = d.cell_corners(cell);
    let mut values = vec![0.0f64; d.node_count()];
    for c in cs.iter() {
        values[d.flat_index(c.i, c.j, c.k)] += 1.0 * weight(c, 0.0, 0.0, 0.0);
    }
    let gathered: f64 = cs
        .iter()
        .map(|c| weight(c, 0.0, 0.0, 0.0) * values[d.flat_index(c.i, c.j, c.k)])
        .sum();
    assert_eq!(gathered, 1.0);

    let mut values = vec![0.0f64; d.node_count()];
    values[d.flat_index(1, 1, 1)] = 2.0;
    values[d.flat_index(2, 1, 1)] = 6.0;
    let halfway: f64 = cs
        .iter()
        .map(|c| weight(c, 0.5, 0.0, 0.0) * values[d.flat_index(c.i, c.j, c.k)])
        .sum();
    assert_eq!(halfway, 4.0);
}

#[test]
fn stencils_at_ends_and_inside() {
    assert_eq!(axis_stencil(5, 0), AxisStencil { n0: 0, n1: 1, n2: 2, c0: -3, c1: 4, c2: -1 });
    assert_eq!(axis_stencil(5, 4), AxisStencil { n0: 2, n1: 3, n2: 4, c0: 1, c1: -4, c2: 3 });
    assert_eq!(axis_stencil(5, 2), AxisStencil { n0: 1, n1: 2, n2: 3, c0: -1, c1: 0, c2: 1 });
}

#[test]
fn linear_potential_gives_uniform_field() {
    let n = 6;
    let h = 0.5;
    let phi: Vec<f64> = (0..n).map(|x| 1.0 + 3.0 * (x as f64 * h)).collect();
    for i in 0..n {
        let s = axis_stencil(n, i);
        let sum = s.c0 as f64 * phi[s.n0] + s.c1 as f64 * phi[s.n1] + s.c2 as f64 * phi[s.n2];
        let e = -sum / (2.0 * h);
        assert!((e + 3.0).abs() < 1e-12);
    }
}

#[test]
fn solver_checks_every_interval_and_converges() {
    let mut p = SolverProgress::new(100);
    assert_eq!(p.status, SolverStatus::Iterating);
    let mut checks = Vec::new();
    while p.is_iterating() {
        if p.residual_check_due() {
            checks.push(p.iteration);
        }
        let below = p.iteration >= 50;
        p.finish_sweep(below);
    }
    assert_eq!(checks, vec![CONVERGENCE_CHECK_INTERVAL, 50]);
    assert!(p.converged());
    assert_eq!(p.iteration, 50);
}

#[test]
fn solver_exhausts_without_convergence() {
    let mut p = SolverProgress::new(30);
    let mut sweeps = 0;
    while p.is_iterating() {
        p.finish_sweep(false);
        sweeps += 1;
    }
    assert_eq!(sweeps, 30);
    assert_eq!(p.status, SolverStatus::Exhausted);
    assert!(!p.converged());
    assert_eq!(SolverProgress::new(0).status, SolverStatus::Exhausted);
}

#[test]
fn zero_source_converges_at_first_check() {
    let mut p = SolverProgress::new(4000);
    while p.is_iterating() {
        p.finish_sweep(0.0 < 1e-6);
    }
    assert!(p.converged());
    assert_eq!(p.iteration, 25);
}

#[test]
fn walls_crossed() {
    assert_eq!(wall_crossed(5, -1), Wall::Low);
    assert_eq!(wall_crossed(5, 0), Wall::Inside);
    assert_eq!(wall_crossed(5, 3), Wall::Inside);
    assert_eq!(wall_crossed(5, 4), Wall::High);
    assert_eq!(wall_crossed(5, 7), Wall::High);
}

#[test]
fn reflection_keeps_particle_inside_with_reversed_velocity() {
    let (lo, hi) = (0.0f64, 1.0f64);
    let (x, v) = (1.25f64, 2.0f64);
    let (x2, v2) = match wall_crossed(5, (x * 4.0).floor() as i64) {
        Wall::High => (2.0 * hi - x, -v),
        Wall::Low => (2.0 * lo - x, -v),
        Wall::Inside => (x, v),
    };
    assert!(lo < x2 && x2 < hi);
    assert_eq!(v2, -2.0);
    assert_eq!(v2 * v2, v * v);
}

#[test]
fn quiet_start_weights_add_up_to_cells() {
    let counts = Dimensions::new(3, 4, 5);
    assert_eq!(quiet_start_weight_eighths(counts, 0, 0, 0), 1);
    assert_eq!(quiet_start_weight_eighths(counts, 1, 1, 1), 8);
    let mut eighths = 0usize;
    for i in 0..3 {
        for j in 0..4 {
            for k in 0..5 {
                eighths += quiet_start_weight_eighths(counts, i, j, k) as usize;
            }
        }
    }
    let density = 1e11;
    let volume = 0.2 * 0.2 * 0.3;
    let weight = density * volume / counts.cell_count() as f64;
    let total = weight * eighths as f64 / 8.0;
    assert!((total - density * volume).abs() <= 1e-9 * density * volume);
    assert!(on_maximum_face(5, 4));
    assert!(!on_maximum_face(5, 3));
}

#[test]
fn gather_cell_covers_the_last_node() {
    let d = Dimensions::new(5, 5, 5);
    assert_eq!(d.gather_cell(4, 0, 2), Some(Cell { i: 3, j: 0, k: 2 }));
    assert_eq!(d.gather_cell(3, 3, 3), Some(Cell { i: 3, j: 3, k: 3 }));
    assert_eq!(d.gather_cell(5, 0, 0), None);
    assert_eq!(d.gather_cell(0, -1, 0), None);
    assert_eq!(axis_gather_cell(5, 4), Some(3));
    assert_eq!(axis_gather_cell(5, 0), Some(0));
    assert_eq!(axis_gather_cell(5, 5), None);
}
