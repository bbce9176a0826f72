use vstd::arithmetic::mul::lemma_mul_is_distributive_add;
use vstd::prelude::*;

verus! {

/// The number of nodes along the x, y and z axes of a structured mesh.
#[derive(Clone, Copy, Debug, PartialEq, Eq, Structural)]
pub struct Dimensions {
    /// Nodes along the x-axis.
    pub x: usize,
    /// Nodes along the y-axis.
    pub y: usize,
    /// Nodes along the z-axis.
    pub z: usize,
}

/// Extent of node `i` of an axis with `n` nodes, in half cells: a node on either
/// end of the axis owns half a cell, every other node a whole one.
pub open spec fn axis_halves(n: int, i: int) -> int {
    if i == 0 || i == n - 1 {
        1
    } else {
        2
    }
}

/// Sum of `axis_halves(n, i)` over `i` in `0..m`.
pub open spec fn axis_halves_sum(n: int, m: int) -> int
    decreases m,
{
    if m <= 0 {
        0
    } else {
        axis_halves_sum(n, m - 1) + axis_halves(n, m - 1)
    }
}

/// Along one axis, the node extents add up to the `n - 1` cells of the axis.
pub proof fn lemma_axis_halves_sum(n: int, m: int)
    requires
        2 <= n,
        1 <= m <= n,
    ensures
        axis_halves_sum(n, m) == if m == n {
            2 * (n - 1)
        } else {
            2 * m - 1
        },
    decreases m,
{
    if m > 1 {
        lemma_axis_halves_sum(n, m - 1);
    } else {
        assert(axis_halves_sum(n, 0) == 0);
    }
}

impl Dimensions {
    /// Every axis has an interior, so that second differences can be taken.
    pub open spec fn valid(self) -> bool {
        &&& self.x >= 3
        &&& self.y >= 3
        &&& self.z >= 3
        &&& self.x * self.y * self.z <= usize::MAX
    }

    pub open spec fn nodes(self) -> int {
        self.x * self.y * self.z
    }

    pub open spec fn cells(self) -> int {
        (self.x - 1) * (self.y - 1) * (self.z - 1)
    }

    pub open spec fn interior_nodes(self) -> int {
        (self.x - 2) * (self.y - 2) * (self.z - 2)
    }

    pub open spec fn contains(self, i: int, j: int, k: int) -> bool {
        0 <= i < self.x && 0 <= j < self.y && 0 <= k < self.z
    }

    /// Position of node `(i, j, k)` in row-major order, `k` varying fastest.
    pub open spec fn flat(self, i: int, j: int, k: int) -> int {
        (i * self.y + j) * self.z + k
    }

    pub open spec fn on_boundary(self, i: int, j: int, k: int) -> bool {
        i == 0 || i == self.x - 1 || j == 0 || j == self.y - 1 || k == 0 || k == self.z - 1
    }

    /// Volume of the region owned by node `(i, j, k)`, in eighths of a cell: halved
    /// once for each axis on whose boundary the node lies.
    pub open spec fn node_eighths(self, i: int, j: int, k: int) -> int {
        axis_halves(self.x as int, i) * axis_halves(self.y as int, j) * axis_halves(
            self.z as int,
            k,
        )
    }

    /// Sum of `node_eighths(i, j, k)` over `k` in `0..m`.
    pub open spec fn eighths_sum_k(self, i: int, j: int, m: int) -> int
        decreases m,
    {
        if m <= 0 {
            0
        } else {
            self.eighths_sum_k(i, j, m - 1) + self.node_eighths(i, j, m - 1)
        }
    }

    /// Sum of `node_eighths(i, j, k)` over `j` in `0..m` and every `k`.
    pub open spec fn eighths_sum_jk(self, i: int, m: int) -> int
        decreases m,
    {
        if m <= 0 {
            0
        } else {
            self.eighths_sum_jk(i, m - 1) + self.eighths_sum_k(i, m - 1, self.z as int)
        }
    }

    /// Sum of `node_eighths(i, j, k)` over `i` in `0..m` and every `j` and `k`.
    pub open spec fn eighths_sum(self, m: int) -> int
        decreases m,
    {
        if m <= 0 {
            0
        } else {
            self.eighths_sum(m - 1) + self.eighths_sum_jk(m - 1, self.y as int)
        }
    }

    /// Volume owned by all the nodes together, in eighths of a cell.
    pub open spec fn total_node_eighths(self) -> int {
        self.eighths_sum(self.x as int)
    }

    /// Creates a new set of dimensions.
    pub fn new(x: usize, y: usize, z: usize) -> (r: Self)
        ensures
            r.x == x,
            r.y == y,
            r.z == z,
    {
        Dimensions { x, y, z }
    }

    /// Whether a mesh of these dimensions can be built: at least three nodes along
    /// every axis, and a node count that fits in `usize`.
    pub fn is_valid(&self) -> (r: bool)
        ensures
            r == self.valid(),
    {
        if self.x < 3 || self.y < 3 || self.z < 3 {
            return false;
        }
        match self.x.checked_mul(self.y) {
            None => {
                proof {
                    vstd::arithmetic::mul::lemma_mul_inequality(self.x as int, self.x * self.y, self.z as int);
                    assert(self.x * self.y * self.z >= self.x * self.y) by (nonlinear_arith)
                        requires self.z >= 3, self.x * self.y >= 0;
                }
                false
            },
            Some(xy) => xy.checked_mul(self.z).is_some(),
        }
    }

    /// Total number of nodes.
    pub fn node_count(&self) -> (r: usize)
        requires
            self.nodes() <= usize::MAX,
        ensures
            r == self.nodes(),
    {
        proof {
            lemma_product_bounds(self.x as int, self.y as int, self.z as int);
        }
        if self.z == 0 {
            proof {
                assert(self.x * self.y * 0 == 0) by (nonlinear_arith);
            }
            0
        } else {
            self.x * self.y * self.z
        }
    }

    /// Number of cells, the boxes spanned by eight neighbouring nodes.
    pub fn cell_count(&self) -> (r: usize)
        requires
            self.x >= 1,
            self.y >= 1,
            self.z >= 1,
            self.nodes() <= usize::MAX,
        ensures
            r == self.cells(),
    {
        proof {
            lemma_product_monotone(
                self.x as int,
                self.y as int,
                self.z as int,
                (self.x - 1) as int,
                (self.y - 1) as int,
                (self.z - 1) as int,
            );
            lemma_product_bounds((self.x - 1) as int, (self.y - 1) as int, (self.z - 1) as int);
        }
        if self.z == 1 {
            proof {
                assert((self.x - 1) * (self.y - 1) * 0 == 0) by (nonlinear_arith);
            }
            0
        } else {
            (self.x - 1) * (self.y - 1) * (self.z - 1)
        }
    }

    /// Number of interior nodes, those on no boundary.
    pub fn interior_node_count(&self) -> (r: usize)
        requires
            self.x >= 2,
            self.y >= 2,
            self.z >= 2,
            self.nodes() <= usize::MAX,
        ensures
            r == self.interior_nodes(),
    {
        proof {
            lemma_product_monotone(
                self.x as int,
                self.y as int,
                self.z as int,
                (self.x - 2) as int,
                (self.y - 2) as int,
                (self.z - 2) as int,
            );
            lemma_product_bounds((self.x - 2) as int, (self.y - 2) as int, (self.z - 2) as int);
        }
        if self.z == 2 {
            proof {
                assert((self.x - 2) * (self.y - 2) * 0 == 0) by (nonlinear_arith);
            }
            0
        } else {
            (self.x - 2) * (self.y - 2) * (self.z - 2)
        }
    }

    /// Position of node `(i, j, k)` in row-major storage.
    pub fn flat_index(&self, i: usize, j: usize, k: usize) -> (r: usize)
        requires
            self.contains(i as int, j as int, k as int),
            self.nodes() <= usize::MAX,
        ensures
            r == self.flat(i as int, j as int, k as int),
            r < self.nodes(),
    {
        proof {
            lemma_flat_in_range(*self, i as int, j as int, k as int);
        }
        (i * self.y + j) * self.z + k
    }

    /// Whether node `(i, j, k)` lies on a face of the mesh.
    pub fn is_boundary_node(&self, i: usize, j: usize, k: usize) -> (r: bool)
        ensures
            r == self.on_boundary(i as int, j as int, k as int),
    {
        i == 0 || (self.x > 0 && i == self.x - 1) || j == 0 || (self.y > 0 && j == self.y - 1)
            || k == 0 || (self.z > 0 && k == self.z - 1)
    }

    /// Volume owned by node `(i, j, k)`, in eighths of a cell: 8 inside, 4 on a
    /// face, 2 on an edge, 1 at a corner.
    pub fn node_volume_eighths(&self, i: usize, j: usize, k: usize) -> (r: u8)
        requires
            self.contains(i as int, j as int, k as int),
        ensures
            r == self.node_eighths(i as int, j as int, k as int),
            r == 1 || r == 2 || r == 4 || r == 8,
    {
        axis_halves_of(self.x, i) * axis_halves_of(self.y, j) * axis_halves_of(self.z, k)
    }
}

impl From<Dimensions> for (usize, usize, usize) {
    fn from(dimensions: Dimensions) -> (r: (usize, usize, usize))
        ensures
            r == (dimensions.x, dimensions.y, dimensions.z),
    {
        (dimensions.x, dimensions.y, dimensions.z)
    }
}

impl vstd::std_specs::convert::FromSpecImpl<Dimensions> for (usize, usize, usize) {
    open spec fn obeys_from_spec() -> bool {
        true
    }

    open spec fn from_spec(dimensions: Dimensions) -> (usize, usize, usize) {
        (dimensions.x, dimensions.y, dimensions.z)
    }
}

fn axis_halves_of(n: usize, i: usize) -> (r: u8)
    requires
        i < n,
    ensures
        r == axis_halves(n as int, i as int),
{
    if i == 0 || i + 1 == n {
        1
    } else {
        2
    }
}

proof fn lemma_product_bounds(a: int, b: int, c: int)
    requires
        a >= 0,
        b >= 0,
        c >= 0,
        a * b * c <= usize::MAX,
    ensures
        a * b <= usize::MAX || c == 0,
        a * b >= 0,
        a * b * c >= 0,
{
    assert(a * b >= 0) by (nonlinear_arith)
        requires
            a >= 0,
            b >= 0,
    ;
    assert(a * b * c >= 0) by (nonlinear_arith)
        requires
            a * b >= 0,
            c >= 0,
    ;
    assert(c == 0 || a * b <= a * b * c) by (nonlinear_arith)
        requires
            a * b >= 0,
            c >= 0,
    ;
}

proof fn lemma_product_monotone(a: int, b: int, c: int, p: int, q: int, r: int)
    requires
        0 <= p <= a,
        0 <= q <= b,
        0 <= r <= c,
    ensures
        p * q * r <= a * b * c,
{
    assert(p * q <= a * b) by (nonlinear_arith)
        requires
            0 <= p <= a,
            0 <= q <= b,
    ;
    assert(p * q * r <= a * b * c) by (nonlinear_arith)
        requires
            0 <= p * q <= a * b,
            0 <= r <= c,
    ;
}

/// Row-major positions of the nodes of a mesh are distinct and in range.
pub proof fn lemma_flat_in_range(d: Dimensions, i: int, j: int, k: int)
    requires
        d.contains(i, j, k),
    ensures
        0 <= d.flat(i, j, k) < d.nodes(),
        0 <= i * d.y <= d.x * d.y <= d.nodes(),
        0 <= i * d.y + j < d.x * d.y,
        0 <= (i * d.y + j) * d.z <= d.nodes(),
{
    let (x, y, z) = (d.x as int, d.y as int, d.z as int);
    assert(0 <= i * y <= x * y) by (nonlinear_arith)
        requires
            0 <= i < x,
            0 <= y,
    ;
    assert(0 <= i * y + j <= x * y - 1) by (nonlinear_arith)
        requires
            0 <= i < x,
            0 <= j < y,
    ;
    assert(0 <= (i * y + j) * z <= (x * y - 1) * z) by (nonlinear_arith)
        requires
            0 <= i * y + j <= x * y - 1,
            0 <= z,
    ;
    assert(0 <= (i * y + j) * z + k <= (x * y - 1) * z + z - 1) by (nonlinear_arith)
        requires
            0 <= i * y + j <= x * y - 1,
            0 <= k < z,
    ;
    assert((x * y - 1) * z + z - 1 == x * y * z - 1) by (nonlinear_arith);
    assert(x * y <= x * y * z) by (nonlinear_arith)
        requires
            0 <= x * y,
            1 <= z,
    ;
}

/// The volumes owned by the nodes of a mesh tile it exactly: counted in eighths
/// of a cell they add up to eight times the number of cells, whatever the
/// dimensions, as long as every axis has at least two nodes.
pub proof fn lemma_node_volumes_partition(d: Dimensions)
    requires
        d.x >= 2,
        d.y >= 2,
        d.z >= 2,
    ensures
        d.total_node_eighths() == 8 * d.cells(),
{
    let (x, y, z) = (d.x as int, d.y as int, d.z as int);
    lemma_eighths_sum(d, x);
    lemma_axis_halves_sum(x, x);
    lemma_axis_halves_sum(y, y);
    lemma_axis_halves_sum(z, z);
    assert(2 * (x - 1) * (2 * (y - 1)) * (2 * (z - 1)) == 8 * ((x - 1) * (y - 1) * (z - 1)))
        by (nonlinear_arith);
}

proof fn lemma_eighths_sum_k(d: Dimensions, i: int, j: int, m: int)
    ensures
        d.eighths_sum_k(i, j, m) == axis_halves(d.x as int, i) * axis_halves(d.y as int, j)
            * axis_halves_sum(d.z as int, m),
    decreases m,
{
    let p = axis_halves(d.x as int, i) * axis_halves(d.y as int, j);
    if m > 0 {
        lemma_eighths_sum_k(d, i, j, m - 1);
        lemma_mul_is_distributive_add(
            p,
            axis_halves_sum(d.z as int, m - 1),
            axis_halves(d.z as int, m - 1),
        );
    }
}

proof fn lemma_eighths_sum_jk(d: Dimensions, i: int, m: int)
    ensures
        d.eighths_sum_jk(i, m) == axis_halves(d.x as int, i) * axis_halves_sum(d.y as int, m)
            * axis_halves_sum(d.z as int, d.z as int),
    decreases m,
{
    if m > 0 {
        let (a, s, e, c) = (
            axis_halves(d.x as int, i),
            axis_halves_sum(d.y as int, m - 1),
            axis_halves(d.y as int, m - 1),
            axis_halves_sum(d.z as int, d.z as int),
        );
        lemma_eighths_sum_jk(d, i, m - 1);
        lemma_eighths_sum_k(d, i, m - 1, d.z as int);
        assert(axis_halves_sum(d.y as int, m) == s + e);
        assert(d.eighths_sum_jk(i, m) == a * s * c + a * e * c);
        assert(a * s * c + a * e * c == a * (s + e) * c) by (nonlinear_arith);
    } else {
        let (a, c) = (axis_halves(d.x as int, i), axis_halves_sum(d.z as int, d.z as int));
        assert(a * 0 * c == 0) by (nonlinear_arith);
    }
}

proof fn lemma_eighths_sum(d: Dimensions, m: int)
    ensures
        d.eighths_sum(m) == axis_halves_sum(d.x as int, m) * axis_halves_sum(d.y as int, d.y as int)
            * axis_halves_sum(d.z as int, d.z as int),
    decreases m,
{
    if m > 0 {
        let (s, e, b, c) = (
            axis_halves_sum(d.x as int, m - 1),
            axis_halves(d.x as int, m - 1),
            axis_halves_sum(d.y as int, d.y as int),
            axis_halves_sum(d.z as int, d.z as int),
        );
        lemma_eighths_sum(d, m - 1);
        lemma_eighths_sum_jk(d, m - 1, d.y as int);
        assert(axis_halves_sum(d.x as int, m) == s + e);
        assert(d.eighths_sum(m) == s * b * c + e * b * c);
        assert(s * b * c + e * b * c == (s + e) * b * c) by (nonlinear_arith);
    } else {
        let (b, c) = (
            axis_halves_sum(d.y as int, d.y as int),
            axis_halves_sum(d.z as int, d.z as int),
        );
        assert(0 * b * c == 0) by (nonlinear_arith);
    }
}

} // verus!
