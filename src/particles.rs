use vstd::prelude::*;

use crate::mesh::Dimensions;

verus! {

/// The wall of the mesh that a particle has crossed along one axis, if any.
#[derive(Clone, Copy, Debug, PartialEq, Eq, Structural)]
pub enum Wall {
    Inside,
    /// Below the origin plane.
    Low,
    /// At or beyond the plane of the last node.
    High,
}

/// The wall crossed by a point along an axis running from `lo` to `hi`.
pub open spec fn wall_of(lo: real, hi: real, x: real) -> Wall {
    if x < lo {
        Wall::Low
    } else if x >= hi {
        Wall::High
    } else {
        Wall::Inside
    }
}

/// Position and velocity along one axis after specular reflection off `wall`:
/// the position is mirrored in the wall's plane and the velocity reversed.
pub open spec fn reflect(wall: Wall, lo: real, hi: real, x: real, v: real) -> (real, real) {
    match wall {
        Wall::Low => (2real * lo - x, -v),
        Wall::High => (2real * hi - x, -v),
        Wall::Inside => (x, v),
    }
}

/// The wall crossed along an axis of `n` nodes by a particle whose logical
/// coordinate on that axis rounds down to `f`: below `0` is the low wall, at
/// or beyond `n - 1` the high one.
pub fn wall_crossed(n: usize, f: i64) -> (r: Wall)
    ensures
        r == (if f < 0 {
            Wall::Low
        } else if f >= n - 1 {
            Wall::High
        } else {
            Wall::Inside
        }),
{
    if f < 0 {
        Wall::Low
    } else if n == 0 || f as u64 >= (n - 1) as u64 {
        Wall::High
    } else {
        Wall::Inside
    }
}

/// Deciding on the coordinate rounded down gives the same wall as deciding on
/// the logical coordinate `lc` itself, for an axis of `n` nodes.
pub proof fn lemma_wall_from_rounded_down(n: int, f: int, lc: real)
    requires
        f as real <= lc < (f + 1) as real,
    ensures
        wall_of(0real, (n - 1) as real, lc) == (if f < 0 {
            Wall::Low
        } else if f >= n - 1 {
            Wall::High
        } else {
            Wall::Inside
        }),
{
}

/// A particle that leaves the domain along an axis, by less than the domain's
/// extent, is brought back strictly inside by reflection, with the velocity
/// component reversed: same magnitude, same square.
pub proof fn lemma_reflection_stays_inside(lo: real, hi: real, x: real, v: real)
    requires
        lo < hi,
        (2real * lo - hi < x < lo) || (hi < x < 2real * hi - lo),
    ensures
        ({
            let (x2, v2) = reflect(wall_of(lo, hi, x), lo, hi, x, v);
            &&& lo < x2 < hi
            &&& v2 == -v
            &&& v2 * v2 == v * v
        }),
{
    assert((-v) * (-v) == v * v) by (nonlinear_arith);
}

/// Weight of the macroparticle placed at node `(i, j, k)` of a quiet-start
/// lattice with `counts` nodes per axis, in eighths of the full macroparticle
/// weight: halved once for each face of the lattice that the node lies on.
pub fn quiet_start_weight_eighths(counts: Dimensions, i: usize, j: usize, k: usize) -> (r: u8)
    requires
        counts.contains(i as int, j as int, k as int),
    ensures
        r == counts.node_eighths(i as int, j as int, k as int),
{
    counts.node_volume_eighths(i, j, k)
}

/// Whether lattice node `i` of an axis with `n` nodes lies on the lattice's
/// maximum face, where a particle is moved slightly back into the box.
pub fn on_maximum_face(n: usize, i: usize) -> (r: bool)
    ensures
        r == (i == n - 1),
{
    n > 0 && i == n - 1
}

/// A quiet start loads exactly the requested number of real particles. Each
/// lattice node carries `weight` times its fraction (`node_eighths / 8`), where
/// `weight * cells == total`; the boundary halvings make the fractions add up to
/// the number of lattice cells, so the carried weights add up to `total`.
pub proof fn lemma_quiet_start_conserves_mass(counts: Dimensions, weight: real, total: real)
    requires
        counts.x >= 2,
        counts.y >= 2,
        counts.z >= 2,
        weight * (counts.cells() as real) == total,
    ensures
        weight * (counts.total_node_eighths() as real) == 8real * total,
{
    crate::mesh::lemma_node_volumes_partition(counts);
    let cr = counts.cells() as real;
    assert(counts.total_node_eighths() as real == 8real * cr);
    assert(weight * (8real * cr) == 8real * (weight * cr)) by (nonlinear_arith);
}

} // verus!
