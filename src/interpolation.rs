use vstd::prelude::*;

use crate::mesh::{lemma_flat_in_range, Dimensions};

verus! {

/// A cell of a structured mesh, named by its lowest node.
#[derive(Clone, Copy, Debug, PartialEq, Eq, Structural)]
pub struct Cell {
    pub i: usize,
    pub j: usize,
    pub k: usize,
}

/// One of the eight nodes of a cell. `upper_i` tells whether the node lies on the
/// cell's upper side along the first axis (and so on), which decides its weight.
#[derive(Clone, Copy, Debug, PartialEq, Eq, Structural)]
pub struct Corner {
    pub i: usize,
    pub j: usize,
    pub k: usize,
    pub upper_i: bool,
    pub upper_j: bool,
    pub upper_k: bool,
}

/// The share of a corner along one axis, for a point at fractional offset `d`
/// from the cell's lower side: `d` for the upper node, `1 - d` for the lower one.
pub open spec fn corner_factor(upper: bool, d: real) -> real {
    if upper {
        d
    } else {
        1real - d
    }
}

/// The trilinear (cloud-in-cell) weight of a corner for a point at fractional
/// offsets `(di, dj, dk)` inside the cell.
pub open spec fn corner_weight(c: Corner, di: real, dj: real, dk: real) -> real {
    corner_factor(c.upper_i, di) * corner_factor(c.upper_j, dj) * corner_factor(c.upper_k, dk)
}

pub open spec fn corner_of(cell: Cell, a: bool, b: bool, c: bool) -> Corner {
    Corner {
        i: (if a { cell.i + 1 } else { cell.i as int }) as usize,
        j: (if b { cell.j + 1 } else { cell.j as int }) as usize,
        k: (if c { cell.k + 1 } else { cell.k as int }) as usize,
        upper_i: a,
        upper_j: b,
        upper_k: c,
    }
}

/// The eight corners of a cell, lower `k` face first, each face walked
/// counter-clockwise from the lowest node.
pub open spec fn corners_of(cell: Cell) -> Seq<Corner> {
    seq![
        corner_of(cell, false, false, false),
        corner_of(cell, true, false, false),
        corner_of(cell, true, true, false),
        corner_of(cell, false, true, false),
        corner_of(cell, false, false, true),
        corner_of(cell, true, false, true),
        corner_of(cell, true, true, true),
        corner_of(cell, false, true, true),
    ]
}

/// Sum of the weights of the given corners.
pub open spec fn weights_total(cs: Seq<Corner>, di: real, dj: real, dk: real) -> real
    decreases cs.len(),
{
    if cs.len() == 0 {
        0real
    } else {
        corner_weight(cs[0], di, dj, dk) + weights_total(cs.drop_first(), di, dj, dk)
    }
}

/// The value that trilinear interpolation (gather) reads from node values `v`
/// at fractional offsets `(di, dj, dk)` inside `cell`.
pub open spec fn gather_value(
    d: Dimensions,
    v: Seq<real>,
    cell: Cell,
    di: real,
    dj: real,
    dk: real,
) -> real {
    gather_over(d, v, corners_of(cell), di, dj, dk)
}

/// Sum over the corners `cs` of each corner's weight times its node's value.
pub open spec fn gather_over(
    d: Dimensions,
    v: Seq<real>,
    cs: Seq<Corner>,
    di: real,
    dj: real,
    dk: real,
) -> real
    decreases cs.len(),
{
    if cs.len() == 0 {
        0real
    } else {
        corner_weight(cs[0], di, dj, dk) * v[d.flat(cs[0].i as int, cs[0].j as int, cs[0].k as int)]
            + gather_over(d, v, cs.drop_first(), di, dj, dk)
    }
}

/// Node values `v` after depositing `value` (scatter) at fractional offsets
/// `(di, dj, dk)` inside `cell`: each corner gains `value` times its weight.
pub open spec fn scatter_values(
    d: Dimensions,
    v: Seq<real>,
    cell: Cell,
    di: real,
    dj: real,
    dk: real,
    value: real,
) -> Seq<real> {
    scatter_over(d, v, corners_of(cell), di, dj, dk, value)
}

/// Node values `v` after each corner of `cs` in turn gains `value` times its weight.
pub open spec fn scatter_over(
    d: Dimensions,
    v: Seq<real>,
    cs: Seq<Corner>,
    di: real,
    dj: real,
    dk: real,
    value: real,
) -> Seq<real>
    decreases cs.len(),
{
    if cs.len() == 0 {
        v
    } else {
        let n = d.flat(cs[0].i as int, cs[0].j as int, cs[0].k as int);
        scatter_over(
            d,
            v.update(n, v[n] + value * corner_weight(cs[0], di, dj, dk)),
            cs.drop_first(),
            di,
            dj,
            dk,
            value,
        )
    }
}

impl Dimensions {
    /// Whether all eight nodes of `cell` are nodes of the mesh.
    pub open spec fn holds_cell(self, cell: Cell) -> bool {
        cell.i + 1 < self.x && cell.j + 1 < self.y && cell.k + 1 < self.z
    }

    /// The cell of a point whose logical coordinate has integer parts
    /// `(fi, fj, fk)` (rounded down), or `None` when the point lies outside
    /// `[0, n - 1)` on some axis, where nothing is interpolated.
    pub fn cell_containing(&self, fi: i64, fj: i64, fk: i64) -> (r: Option<Cell>)
        ensures
            r is Some <==> (0 <= fi < self.x - 1 && 0 <= fj < self.y - 1 && 0 <= fk < self.z - 1),
            r is Some ==> r == Some(Cell { i: fi as usize, j: fj as usize, k: fk as usize }),
            r is Some ==> self.holds_cell(r->0),
    {
        match (axis_cell(self.x, fi), axis_cell(self.y, fj), axis_cell(self.z, fk)) {
            (Some(i), Some(j), Some(k)) => Some(Cell { i, j, k }),
            _ => None,
        }
    }

    /// The cell to read (gather) from at a point whose logical coordinate has
    /// integer parts `(fi, fj, fk)`, or `None` when the point lies outside
    /// `[0, n - 1]` on some axis. A point on the last node of an axis is read
    /// from the cell below it, at offset one.
    pub fn gather_cell(&self, fi: i64, fj: i64, fk: i64) -> (r: Option<Cell>)
        requires
            self.x >= 2,
            self.y >= 2,
            self.z >= 2,
        ensures
            r is Some <==> (0 <= fi < self.x && 0 <= fj < self.y && 0 <= fk < self.z),
            r is Some ==> r == Some(
                Cell {
                    i: (if fi == self.x - 1 { fi - 1 } else { fi as int }) as usize,
                    j: (if fj == self.y - 1 { fj - 1 } else { fj as int }) as usize,
                    k: (if fk == self.z - 1 { fk - 1 } else { fk as int }) as usize,
                },
            ),
            r is Some ==> self.holds_cell(r->0),
    {
        match (axis_gather_cell(self.x, fi), axis_gather_cell(self.y, fj), axis_gather_cell(self.z, fk)) {
            (Some(i), Some(j), Some(k)) => Some(Cell { i, j, k }),
            _ => None,
        }
    }

    /// The eight corners of `cell`, each with the side of the cell it lies on.
    pub fn cell_corners(&self, cell: Cell) -> (r: [Corner; 8])
        requires
            self.holds_cell(cell),
        ensures
            r@ == corners_of(cell),
    {
        let (i, j, k) = (cell.i, cell.j, cell.k);
        let r = [
            Corner { i, j, k, upper_i: false, upper_j: false, upper_k: false },
            Corner { i: i + 1, j, k, upper_i: true, upper_j: false, upper_k: false },
            Corner { i: i + 1, j: j + 1, k, upper_i: true, upper_j: true, upper_k: false },
            Corner { i, j: j + 1, k, upper_i: false, upper_j: true, upper_k: false },
            Corner { i, j, k: k + 1, upper_i: false, upper_j: false, upper_k: true },
            Corner { i: i + 1, j, k: k + 1, upper_i: true, upper_j: false, upper_k: true },
            Corner { i: i + 1, j: j + 1, k: k + 1, upper_i: true, upper_j: true, upper_k: true },
            Corner { i, j: j + 1, k: k + 1, upper_i: false, upper_j: true, upper_k: true },
        ];
        assert(r@ =~= corners_of(cell));
        r
    }
}

/// The lower node of the interval of an axis of `n` nodes that holds a point
/// whose coordinate along the axis rounds down to `f`, or `None` when the point
/// lies outside `[0, n - 1)`.
pub fn axis_cell(n: usize, f: i64) -> (r: Option<usize>)
    ensures
        r is Some <==> 0 <= f < n - 1,
        r is Some ==> r == Some(f as usize),
{
    if f < 0 || n == 0 {
        None
    } else if (f as u64) < (n - 1) as u64 {
        Some(f as usize)
    } else {
        None
    }
}

/// The lower node of the interval of an axis of `n >= 2` nodes to read from at
/// a point whose coordinate rounds down to `f`, or `None` outside `[0, n - 1]`:
/// the last node is read from the interval below it.
pub fn axis_gather_cell(n: usize, f: i64) -> (r: Option<usize>)
    requires
        n >= 2,
    ensures
        r is Some <==> 0 <= f < n,
        r is Some ==> r == Some((if f == n - 1 { f - 1 } else { f as int }) as usize),
{
    if f < 0 || f as u64 >= n as u64 {
        None
    } else if f as u64 == (n - 1) as u64 {
        Some(n - 2)
    } else {
        Some(f as usize)
    }
}

/// The eight trilinear weights of a cell add up to one, wherever in the cell the
/// point lies: deposition neither creates nor loses any of the deposited value.
pub proof fn lemma_weights_sum_to_one(cell: Cell, di: real, dj: real, dk: real)
    ensures
        weights_total(corners_of(cell), di, dj, dk) == 1real,
{
    let cs = corners_of(cell);
    let (a, b, c) = (di, dj, dk);
    let (p, q, r) = (1real - di, 1real - dj, 1real - dk);
    lemma_weights_total_unfold(cs, di, dj, dk);
    assert(p * q * r + a * q * r == q * r) by (nonlinear_arith)
        requires
            p == 1real - a,
    ;
    assert(a * b * r + p * b * r == b * r) by (nonlinear_arith)
        requires
            p == 1real - a,
    ;
    assert(p * q * c + a * q * c == q * c) by (nonlinear_arith)
        requires
            p == 1real - a,
    ;
    assert(a * b * c + p * b * c == b * c) by (nonlinear_arith)
        requires
            p == 1real - a,
    ;
    assert(q * r + b * r == r) by (nonlinear_arith)
        requires
            q == 1real - b,
    ;
    assert(q * c + b * c == c) by (nonlinear_arith)
        requires
            q == 1real - b,
    ;
}

proof fn lemma_weights_total_unfold(cs: Seq<Corner>, di: real, dj: real, dk: real)
    requires
        cs.len() == 8,
    ensures
        weights_total(cs, di, dj, dk) == corner_weight(cs[0], di, dj, dk) + corner_weight(cs[1], di, dj, dk)
            + corner_weight(cs[2], di, dj, dk) + corner_weight(cs[3], di, dj, dk) + corner_weight(
            cs[4],
            di,
            dj,
            dk,
        ) + corner_weight(cs[5], di, dj, dk) + corner_weight(cs[6], di, dj, dk) + corner_weight(
            cs[7],
            di,
            dj,
            dk,
        ),
{
    assert(weights_total(cs.subrange(8, 8), di, dj, dk) == 0real);
    assert forall|m: int| 0 <= m < 8 implies #[trigger] weights_total(cs.subrange(m, 8), di, dj, dk)
        == corner_weight(cs[m], di, dj, dk) + weights_total(cs.subrange(m + 1, 8), di, dj, dk) by {
        assert(cs.subrange(m, 8).drop_first() =~= cs.subrange(m + 1, 8));
    }
    assert(cs.subrange(0, 8) =~= cs);
    assert(weights_total(cs.subrange(7, 8), di, dj, dk) == corner_weight(cs[7], di, dj, dk) + 0real);
}

/// Whether every corner of `cs` is a node of the mesh and has weight zero.
pub open spec fn all_weightless(
    d: Dimensions,
    cs: Seq<Corner>,
    di: real,
    dj: real,
    dk: real,
) -> bool {
    forall|n: int|
        0 <= n < cs.len() ==> d.contains(
            #[trigger] cs[n].i as int,
            cs[n].j as int,
            cs[n].k as int,
        ) && corner_weight(cs[n], di, dj, dk) == 0real
}

proof fn lemma_weightless(
    d: Dimensions,
    v: Seq<real>,
    cs: Seq<Corner>,
    di: real,
    dj: real,
    dk: real,
    value: real,
)
    requires
        v.len() == d.nodes(),
        all_weightless(d, cs, di, dj, dk),
    ensures
        gather_over(d, v, cs, di, dj, dk) == 0real,
        scatter_over(d, v, cs, di, dj, dk, value) == v,
    decreases cs.len(),
{
    if cs.len() > 0 {
        let c = cs[0];
        let n = d.flat(c.i as int, c.j as int, c.k as int);
        assert(corner_weight(c, di, dj, dk) == 0real);
        lemma_flat_in_range(d, c.i as int, c.j as int, c.k as int);
        assert(v.update(n, v[n] + value * corner_weight(c, di, dj, dk)) =~= v);
        let rest = cs.drop_first();
        assert forall|m: int| 0 <= m < rest.len() implies d.contains(
            rest[m].i as int,
            rest[m].j as int,
            rest[m].k as int,
        ) && corner_weight(rest[m], di, dj, dk) == 0real by {
            assert(rest[m] == cs[m + 1]);
            assert(d.contains(cs[m + 1].i as int, cs[m + 1].j as int, cs[m + 1].k as int));
            assert(corner_weight(cs[m + 1], di, dj, dk) == 0real);
        }
        assert(all_weightless(d, rest, di, dj, dk));
        lemma_weightless(d, v, cs.drop_first(), di, dj, dk, value);
    }
}

/// The corners of a cell in range of the mesh are nodes of it; a corner on the
/// upper side of an axis along which the offset is zero weighs nothing.
proof fn lemma_corners_weightless_from(
    d: Dimensions,
    cell: Cell,
    first: int,
    di: real,
    dj: real,
    dk: real,
)
    requires
        d.holds_cell(cell),
        0 <= first <= 8,
        forall|n: int|
            first <= n < 8 ==> {
                let c = #[trigger] corners_of(cell)[n];
                (c.upper_i && di == 0real) || (c.upper_j && dj == 0real) || (c.upper_k && dk == 0real)
            },
    ensures
        all_weightless(d, corners_of(cell).subrange(first, 8), di, dj, dk),
{
    let cs = corners_of(cell);
    let rest = cs.subrange(first, 8);
    assert forall|m: int| 0 <= m < rest.len() implies d.contains(
        rest[m].i as int,
        rest[m].j as int,
        rest[m].k as int,
    ) && corner_weight(rest[m], di, dj, dk) == 0real by {
        let c = cs[first + m];
        assert(rest[m] == c);
        let (a, b, e) = (
            corner_factor(c.upper_i, di),
            corner_factor(c.upper_j, dj),
            corner_factor(c.upper_k, dk),
        );
        assert(a == 0real || b == 0real || e == 0real);
        assert(a * b * e == 0real) by (nonlinear_arith)
            requires
                a == 0real || b == 0real || e == 0real,
        ;
    }
}

/// Depositing a value exactly on a node and reading at that node again gives
/// back what the node held plus the value; on a cleared field, exactly the value.
pub proof fn lemma_scatter_gather_at_node(d: Dimensions, v: Seq<real>, cell: Cell, value: real)
    requires
        d.holds_cell(cell),
        v.len() == d.nodes(),
    ensures
        gather_value(d, scatter_values(d, v, cell, 0real, 0real, 0real, value), cell, 0real, 0real, 0real)
            == v[d.flat(cell.i as int, cell.j as int, cell.k as int)] + value,
        (forall|n: int| 0 <= n < v.len() ==> v[n] == 0real) ==> gather_value(
            d,
            scatter_values(d, v, cell, 0real, 0real, 0real, value),
            cell,
            0real,
            0real,
            0real,
        ) == value,
{
    let cs = corners_of(cell);
    let z = 0real;
    let n0 = d.flat(cell.i as int, cell.j as int, cell.k as int);
    lemma_flat_in_range(d, cell.i as int, cell.j as int, cell.k as int);
    assert(cs[0] == corner_of(cell, false, false, false));
    assert(corner_factor(false, z) == 1real);
    assert(corner_weight(cs[0], z, z, z) == 1real * 1real * 1real);
    let w = v.update(n0, v[n0] + value * 1real);
    lemma_corners_weightless_from(d, cell, 1, z, z, z);
    assert(cs.subrange(1, 8) =~= cs.drop_first());
    lemma_weightless(d, w, cs.drop_first(), z, z, z, value);
    assert(scatter_values(d, v, cell, z, z, z, value) == w);
    assert(gather_over(d, w, cs, z, z, z) == 1real * w[n0] + gather_over(
        d,
        w,
        cs.drop_first(),
        z,
        z,
        z,
    ));
}

/// Reading halfway between two neighbouring nodes along the first axis gives the
/// mean of their values.
pub proof fn lemma_gather_halfway(d: Dimensions, v: Seq<real>, cell: Cell)
    requires
        d.holds_cell(cell),
        v.len() == d.nodes(),
    ensures
        gather_value(d, v, cell, 1real / 2real, 0real, 0real) == (v[d.flat(
            cell.i as int,
            cell.j as int,
            cell.k as int,
        )] + v[d.flat(cell.i + 1, cell.j as int, cell.k as int)]) / 2real,
{
    let cs = corners_of(cell);
    let (h, z) = (1real / 2real, 0real);
    lemma_flat_in_range(d, cell.i as int, cell.j as int, cell.k as int);
    lemma_flat_in_range(d, cell.i + 1, cell.j as int, cell.k as int);
    assert(cs[0] == corner_of(cell, false, false, false));
    assert(cs[1] == corner_of(cell, true, false, false));
    assert(corner_factor(false, z) == 1real);
    assert(corner_factor(false, h) == h);
    assert(corner_factor(true, h) == h);
    assert(corner_weight(cs[0], h, z, z) == h * 1real * 1real);
    assert(corner_weight(cs[1], h, z, z) == h * 1real * 1real);
    let rest = cs.drop_first().drop_first();
    lemma_corners_weightless_from(d, cell, 2, h, z, z);
    assert(cs.subrange(2, 8) =~= rest);
    lemma_weightless(d, v, rest, h, z, z, z);
    assert(gather_over(d, v, cs.drop_first(), h, z, z) == h * v[d.flat(
        cell.i + 1,
        cell.j as int,
        cell.k as int,
    )] + gather_over(d, v, rest, h, z, z));
}

} // verus!
