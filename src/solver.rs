use vstd::prelude::*;

use crate::mesh::{lemma_flat_in_range, Dimensions};

verus! {

/// The potential solver checks its residual once every this many sweeps.
pub const CONVERGENCE_CHECK_INTERVAL: usize = 25;

/// Where an iterative potential solve stands.
#[derive(Clone, Copy, Debug, PartialEq, Eq, Structural)]
pub enum SolverStatus {
    /// More sweeps are to be made.
    Iterating,
    /// A residual check found the residual below the tolerance.
    Converged,
    /// Every allowed sweep was made without convergence.
    Exhausted,
}

/// The control state of an iterative potential solve: which sweep comes next
/// and whether the solve has ended.
#[derive(Clone, Copy, Debug, PartialEq, Eq, Structural)]
pub struct SolverProgress {
    /// Number of the sweep under way (counted from zero), or of the last one
    /// once the solve has converged.
    pub iteration: usize,
    pub max_iterations: usize,
    pub status: SolverStatus,
}

/// Whether the residual is checked after sweep number `iteration`: every
/// `CONVERGENCE_CHECK_INTERVAL`-th sweep, never after the first one.
pub open spec fn check_due(iteration: int) -> bool {
    iteration != 0 && iteration % (CONVERGENCE_CHECK_INTERVAL as int) == 0
}

impl SolverProgress {
    pub open spec fn wf(self) -> bool {
        &&& self.iteration <= self.max_iterations
        &&& self.status is Iterating ==> self.iteration < self.max_iterations
        &&& self.status is Exhausted ==> self.iteration == self.max_iterations
        &&& self.status is Converged ==> check_due(self.iteration as int)
    }

    /// The state before the first sweep of a solve allowed `max_iterations` sweeps.
    pub fn new(max_iterations: usize) -> (r: Self)
        ensures
            r.wf(),
            r.iteration == 0,
            r.max_iterations == max_iterations,
            r.status == if max_iterations == 0 {
                SolverStatus::Exhausted
            } else {
                SolverStatus::Iterating
            },
    {
        let status = if max_iterations == 0 {
            SolverStatus::Exhausted
        } else {
            SolverStatus::Iterating
        };
        SolverProgress { iteration: 0, max_iterations, status }
    }

    /// Whether another sweep is to be made.
    pub fn is_iterating(&self) -> (r: bool)
        ensures
            r == self.status is Iterating,
    {
        matches!(self.status, SolverStatus::Iterating)
    }

    /// Whether the solve ended by convergence.
    pub fn converged(&self) -> (r: bool)
        ensures
            r == self.status is Converged,
    {
        matches!(self.status, SolverStatus::Converged)
    }

    /// Whether the residual is to be computed after the sweep under way.
    pub open spec fn residual_check_due_spec(self) -> bool {
        self.status is Iterating && check_due(self.iteration as int)
    }

    /// Whether the residual is to be computed after the sweep under way.
    pub fn residual_check_due(&self) -> (r: bool)
        ensures
            r == self.residual_check_due_spec(),
    {
        self.is_iterating() && self.iteration != 0 && self.iteration % CONVERGENCE_CHECK_INTERVAL
            == 0
    }

    /// Records the end of the sweep under way. `residual_below_tolerance` is read
    /// only when a residual check was due after it: then the solve converges when
    /// it holds. Otherwise the next sweep comes, unless none is left.
    pub fn finish_sweep(&mut self, residual_below_tolerance: bool)
        requires
            old(self).wf(),
            old(self).status is Iterating,
        ensures
            final(self).wf(),
            final(self).max_iterations == old(self).max_iterations,
            check_due(old(self).iteration as int) && residual_below_tolerance ==> (final(self).status
                is Converged && final(self).iteration == old(self).iteration),
            !(check_due(old(self).iteration as int) && residual_below_tolerance) ==> (final(self).iteration
                == old(self).iteration + 1 && final(self).status == (if old(self).iteration + 1 == old(self).max_iterations {
                SolverStatus::Exhausted
            } else {
                SolverStatus::Iterating
            })),
    {
        if self.residual_check_due() && residual_below_tolerance {
            self.status = SolverStatus::Converged;
        } else {
            self.iteration = self.iteration + 1;
            if self.iteration == self.max_iterations {
                self.status = SolverStatus::Exhausted;
            }
        }
    }
}

/// Twice the sum of the inverse squared spacings `w` of the three axes: the
/// weight of a node's own potential in the discrete potential equation.
pub open spec fn diagonal(w: (real, real, real)) -> real {
    2real * (w.0 + w.1 + w.2)
}

/// The charge term plus the spacing-weighted potentials of the neighbours of an
/// interior node: `source` is the charge density over the permittivity, `lo`
/// and `hi` the potentials of the two neighbours along each axis.
pub open spec fn neighbour_sum(
    source: real,
    lo: (real, real, real),
    hi: (real, real, real),
    w: (real, real, real),
) -> real {
    source + w.0 * (lo.0 + hi.0) + w.1 * (lo.1 + hi.1) + w.2 * (lo.2 + hi.2)
}

/// The over-relaxed update of a node holding `current`, toward the
/// Gauss-Seidel value `gs` (the `gs` with `diagonal(w) * gs == neighbour_sum`).
pub open spec fn relaxed_value(current: real, gs: real) -> real {
    current + (7real / 5real) * (gs - current)
}

/// The residual of the discrete potential equation at an interior node.
pub open spec fn residual_at(
    current: real,
    source: real,
    lo: (real, real, real),
    hi: (real, real, real),
    w: (real, real, real),
) -> real {
    neighbour_sum(source, lo, hi, w) - current * diagonal(w)
}

/// The node after `(i, j, k)` along `axis` (0, 1 or 2), by `step` nodes.
pub open spec fn shifted(d: Dimensions, i: int, j: int, k: int, axis: int, step: int) -> int {
    if axis == 0 {
        d.flat(i + step, j, k)
    } else if axis == 1 {
        d.flat(i, j + step, k)
    } else {
        d.flat(i, j, k + step)
    }
}

/// Whether `(i, j, k)` is an interior node, one with a neighbour on both sides
/// along every axis.
pub open spec fn is_interior(d: Dimensions, i: int, j: int, k: int) -> bool {
    1 <= i < d.x - 1 && 1 <= j < d.y - 1 && 1 <= k < d.z - 1
}

/// Potentials `phi` after relaxing the listed interior nodes in turn, each
/// toward its Gauss-Seidel value from the potentials as updated so far.
/// `source` holds the charge density over the permittivity at each node.
pub open spec fn sweep(
    d: Dimensions,
    phi: Seq<real>,
    source: Seq<real>,
    w: (real, real, real),
    nodes: Seq<(int, int, int)>,
) -> Seq<real>
    decreases nodes.len(),
{
    if nodes.len() == 0 {
        phi
    } else {
        let (i, j, k) = nodes[0];
        let n = d.flat(i, j, k);
        let lo = (phi[shifted(d, i, j, k, 0, -1)], phi[shifted(d, i, j, k, 1, -1)], phi[shifted(d, i, j, k, 2, -1)]);
        let hi = (phi[shifted(d, i, j, k, 0, 1)], phi[shifted(d, i, j, k, 1, 1)], phi[shifted(d, i, j, k, 2, 1)]);
        let gs = neighbour_sum(source[n], lo, hi, w) / diagonal(w);
        sweep(d, phi.update(n, relaxed_value(phi[n], gs)), source, w, nodes.drop_first())
    }
}

pub open spec fn all_zero(v: Seq<real>) -> bool {
    forall|n: int| 0 <= n < v.len() ==> #[trigger] v[n] == 0real
}

/// With no charge anywhere and a potential that is zero everywhere (grounded
/// walls included), a sweep over interior nodes in any order leaves the
/// potential zero.
pub proof fn lemma_zero_source_sweep(
    d: Dimensions,
    phi: Seq<real>,
    source: Seq<real>,
    w: (real, real, real),
    nodes: Seq<(int, int, int)>,
)
    requires
        w.0 > 0real,
        w.1 > 0real,
        w.2 > 0real,
        phi.len() == d.nodes(),
        source.len() == d.nodes(),
        all_zero(phi),
        all_zero(source),
        forall|m: int| 0 <= m < nodes.len() ==> is_interior(d, #[trigger] nodes[m].0, nodes[m].1, nodes[m].2),
    ensures
        all_zero(sweep(d, phi, source, w, nodes)),
        sweep(d, phi, source, w, nodes).len() == d.nodes(),
    decreases nodes.len(),
{
    if nodes.len() > 0 {
        let (i, j, k) = nodes[0];
        assert(is_interior(d, nodes[0].0, nodes[0].1, nodes[0].2));
        let n = d.flat(i, j, k);
        lemma_flat_in_range(d, i, j, k);
        lemma_flat_in_range(d, i - 1, j, k);
        lemma_flat_in_range(d, i + 1, j, k);
        lemma_flat_in_range(d, i, j - 1, k);
        lemma_flat_in_range(d, i, j + 1, k);
        lemma_flat_in_range(d, i, j, k - 1);
        lemma_flat_in_range(d, i, j, k + 1);
        let lo = (phi[shifted(d, i, j, k, 0, -1)], phi[shifted(d, i, j, k, 1, -1)], phi[shifted(d, i, j, k, 2, -1)]);
        let hi = (phi[shifted(d, i, j, k, 0, 1)], phi[shifted(d, i, j, k, 1, 1)], phi[shifted(d, i, j, k, 2, 1)]);
        assert(lo == (0real, 0real, 0real));
        assert(hi == (0real, 0real, 0real));
        assert(source[n] == 0real);
        let gs = neighbour_sum(source[n], lo, hi, w) / diagonal(w);
        lemma_zero_gauss_seidel(w, gs);
        let next = phi.update(n, relaxed_value(phi[n], gs));
        assert(all_zero(next));
        assert forall|m: int| 0 <= m < nodes.drop_first().len() implies is_interior(
            d,
            #[trigger] nodes.drop_first()[m].0,
            nodes.drop_first()[m].1,
            nodes.drop_first()[m].2,
        ) by {
            assert(nodes.drop_first()[m] == nodes[m + 1]);
            assert(is_interior(d, nodes[m + 1].0, nodes[m + 1].1, nodes[m + 1].2));
        }
        lemma_zero_source_sweep(d, next, source, w, nodes.drop_first());
    }
}

proof fn lemma_zero_gauss_seidel(w: (real, real, real), gs: real)
    requires
        w.0 > 0real,
        w.1 > 0real,
        w.2 > 0real,
        gs == neighbour_sum(0real, (0real, 0real, 0real), (0real, 0real, 0real), w) / diagonal(w),
    ensures
        gs == 0real,
        relaxed_value(0real, gs) == 0real,
{
    let (a, b, c) = w;
    let dg = diagonal(w);
    assert(neighbour_sum(0real, (0real, 0real, 0real), (0real, 0real, 0real), w) == 0real) by (nonlinear_arith)
        requires
            neighbour_sum(0real, (0real, 0real, 0real), (0real, 0real, 0real), w) == 0real + a * (0real
                + 0real) + b * (0real + 0real) + c * (0real + 0real),
    ;
    assert(dg > 0real);
    assert(gs == 0real) by (nonlinear_arith)
        requires
            dg > 0real,
            gs == 0real / dg,
    ;
    assert(relaxed_value(0real, gs) == 0real) by (nonlinear_arith)
        requires
            gs == 0real,
            relaxed_value(0real, gs) == 0real + (7real / 5real) * (gs - 0real),
    ;
}

/// With no charge and a potential that is zero all around it, a node shows no
/// residual; together with `lemma_zero_source_sweep`, a solve with zero charge
/// and grounded walls keeps a zero potential and converges at its first
/// residual check (sweep `CONVERGENCE_CHECK_INTERVAL`) for any positive
/// tolerance.
pub proof fn lemma_zero_source(w: (real, real, real), progress: SolverProgress)
    requires
        progress.status is Iterating,
        progress.iteration == CONVERGENCE_CHECK_INTERVAL,
    ensures
        residual_at(0real, 0real, (0real, 0real, 0real), (0real, 0real, 0real), w) == 0real,
        progress.residual_check_due_spec(),
{
    let (a, b, c) = w;
    assert(residual_at(0real, 0real, (0real, 0real, 0real), (0real, 0real, 0real), w) == 0real)
        by (nonlinear_arith)
        requires
            residual_at(0real, 0real, (0real, 0real, 0real), (0real, 0real, 0real), w) == 0real + a * (0real
                + 0real) + b * (0real + 0real) + c * (0real + 0real) - 0real * (2real * (a + b + c)),
    ;
}

} // verus!
