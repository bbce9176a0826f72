use vstd::prelude::*;

verus! {

/// A three-node second-order difference along one axis of a mesh: the field
/// component at the node is `-(c0 * phi[n0] + c1 * phi[n1] + c2 * phi[n2]) / (2 * h)`
/// for node spacing `h`.
#[derive(Clone, Copy, Debug, PartialEq, Eq, Structural)]
pub struct AxisStencil {
    pub n0: usize,
    pub n1: usize,
    pub n2: usize,
    pub c0: i8,
    pub c1: i8,
    pub c2: i8,
}

/// The stencil at node `i` of an axis with `n` nodes: one-sided three-point
/// differences on the two ends, a centred difference everywhere else.
pub open spec fn stencil_at(n: int, i: int) -> AxisStencil {
    if i == 0 {
        AxisStencil { n0: 0, n1: 1, n2: 2, c0: -3i8, c1: 4, c2: -1i8 }
    } else if i == n - 1 {
        AxisStencil {
            n0: (n - 3) as usize,
            n1: (n - 2) as usize,
            n2: (n - 1) as usize,
            c0: 1,
            c1: -4i8,
            c2: 3,
        }
    } else {
        AxisStencil {
            n0: (i - 1) as usize,
            n1: i as usize,
            n2: (i + 1) as usize,
            c0: -1i8,
            c1: 0,
            c2: 1,
        }
    }
}

/// The weighted potential difference that stencil `s` takes of node potentials
/// `phi`; the field component is its negation over twice the node spacing.
pub open spec fn difference_sum(s: AxisStencil, phi: spec_fn(int) -> real) -> real {
    (s.c0 as real) * phi(s.n0 as int) + (s.c1 as real) * phi(s.n1 as int) + (s.c2 as real) * phi(
        s.n2 as int,
    )
}

/// The difference stencil at node `i` of an axis with `n` nodes.
pub fn axis_stencil(n: usize, i: usize) -> (r: AxisStencil)
    requires
        n >= 3,
        i < n,
    ensures
        r == stencil_at(n as int, i as int),
        r.n0 < n && r.n1 < n && r.n2 < n,
{
    if i == 0 {
        AxisStencil { n0: 0, n1: 1, n2: 2, c0: -3, c1: 4, c2: -1 }
    } else if i == n - 1 {
        AxisStencil { n0: n - 3, n1: n - 2, n2: n - 1, c0: 1, c1: -4, c2: 3 }
    } else {
        AxisStencil { n0: i - 1, n1: i, n2: i + 1, c0: -1, c1: 0, c2: 1 }
    }
}

/// A potential that grows linearly along an axis by `g` per node,
/// `phi = a + g * node`, gives the difference `2 * g` at every node of the axis,
/// ends included: with node spacing `h` and slope `m = g / h` the field
/// `-difference / (2 * h)` is the uniform `-m`. A potential constant along an
/// axis (`g == 0`) gives no field along it.
pub proof fn lemma_linear_potential_uniform_field(n: int, i: int, a: real, g: real)
    requires
        3 <= n <= usize::MAX,
        0 <= i < n,
    ensures
        difference_sum(stencil_at(n, i), |x: int| a + (x as real) * g) == 2real * g,
{
    let s = stencil_at(n, i);
    let phi = |x: int| a + (x as real) * g;
    let (x0, x1, x2) = (s.n0 as real, s.n1 as real, s.n2 as real);
    let (c0, c1, c2) = (s.c0 as real, s.c1 as real, s.c2 as real);
    assert(difference_sum(s, phi) == c0 * (a + x0 * g) + c1 * (a + x1 * g) + c2 * (a + x2 * g));
    if i == 0 {
        assert(x0 == 0real && x1 == 1real && x2 == 2real);
        assert(c0 == -3real && c1 == 4real && c2 == -1real);
        assert(c0 * (a + x0 * g) + c1 * (a + x1 * g) + c2 * (a + x2 * g) == 2real * g)
            by (nonlinear_arith)
            requires
                x0 == 0real && x1 == 1real && x2 == 2real,
                c0 == -3real && c1 == 4real && c2 == -1real,
        ;
    } else {
        let e = if i == n - 1 {
            n - 1
        } else {
            i + 1
        };
        assert(s.n2 as int == e && s.n1 as int == e - 1 && s.n0 as int == e - 2);
        let er = e as real;
        assert(x2 == er && x1 == er - 1real && x0 == er - 2real);
        if i == n - 1 {
            assert(c0 == 1real && c1 == -4real && c2 == 3real);
            assert(c0 * (a + x0 * g) + c1 * (a + x1 * g) + c2 * (a + x2 * g) == 2real * g)
                by (nonlinear_arith)
                requires
                    x2 == er && x1 == er - 1real && x0 == er - 2real,
                    c0 == 1real && c1 == -4real && c2 == 3real,
            ;
        } else {
            assert(c0 == -1real && c1 == 0real && c2 == 1real);
            assert(c0 * (a + x0 * g) + c1 * (a + x1 * g) + c2 * (a + x2 * g) == 2real * g)
                by (nonlinear_arith)
                requires
                    x2 == er && x1 == er - 1real && x0 == er - 2real,
                    c0 == -1real && c1 == 0real && c2 == 1real,
            ;
        }
    }
}

} // verus!
