use vstd::prelude::*;

use crate::mesh::Dimensions;

verus! {

/// A value per node of a structured mesh, stored in row-major order.
#[derive(Clone, Debug)]
pub struct Field<T> {
    data: Vec<T>,
    dimensions: Dimensions,
}

impl<T> View for Field<T> {
    type V = Seq<T>;

    closed spec fn view(&self) -> Seq<T> {
        self.data@
    }
}

impl<T: Copy> Field<T> {
    /// The shape of the field, fixed when it is made.
    pub closed spec fn shape(&self) -> Dimensions {
        self.dimensions
    }

    /// One value per node of the shape.
    pub closed spec fn wf(&self) -> bool {
        &&& self.data@.len() == self.dimensions.nodes()
        &&& self.dimensions.nodes() <= usize::MAX
    }

    /// The value at node `(i, j, k)`.
    pub open spec fn at(&self, i: int, j: int, k: int) -> T {
        self@[self.shape().flat(i, j, k)]
    }

    /// Creates a field of the given shape holding `zero` at every node.
    pub fn new(dimensions: Dimensions, zero: T) -> (r: Self)
        requires
            dimensions.nodes() <= usize::MAX,
        ensures
            r.wf(),
            r.shape() == dimensions,
            r@ == Seq::new(dimensions.nodes() as nat, |n: int| zero),
    {
        let n = dimensions.node_count();
        let mut data: Vec<T> = Vec::with_capacity(n);
        let mut m: usize = 0;
        while m < n
            invariant
                m <= n,
                data@ == Seq::new(m as nat, |p: int| zero),
            decreases n - m,
        {
            data.push(zero);
            m += 1;
            assert(data@ =~= Seq::new(m as nat, |p: int| zero));
        }
        Field { data, dimensions }
    }

    /// The shape of the field.
    pub fn dimensions(&self) -> (r: Dimensions)
        ensures
            r == self.shape(),
    {
        self.dimensions
    }

    /// The value at node `(i, j, k)`.
    pub fn get(&self, i: usize, j: usize, k: usize) -> (r: T)
        requires
            self.wf(),
            self.shape().contains(i as int, j as int, k as int),
        ensures
            r == self.at(i as int, j as int, k as int),
    {
        let n = self.dimensions.flat_index(i, j, k);
        self.data[n]
    }

    /// Replaces the value at node `(i, j, k)`, leaving every other node as it was.
    pub fn set(&mut self, i: usize, j: usize, k: usize, value: T)
        requires
            old(self).wf(),
            old(self).shape().contains(i as int, j as int, k as int),
        ensures
            final(self).wf(),
            final(self).shape() == old(self).shape(),
            final(self)@ == old(self)@.update(old(self).shape().flat(i as int, j as int, k as int), value),
    {
        let n = self.dimensions.flat_index(i, j, k);
        self.data.set(n, value);
    }

    /// Resets every node to `zero`.
    pub fn clear(&mut self, zero: T)
        requires
            old(self).wf(),
        ensures
            final(self).wf(),
            final(self).shape() == old(self).shape(),
            final(self)@ == Seq::new(old(self)@.len(), |n: int| zero),
    {
        let n = self.data.len();
        let mut m: usize = 0;
        while m < n
            invariant
                m <= n,
                n == self.data@.len(),
                self.data@.len() == old(self)@.len(),
                self.dimensions == old(self).shape(),
                forall|p: int| 0 <= p < m ==> self.data@[p] == zero,
            decreases n - m,
        {
            self.data.set(m, zero);
            m += 1;
        }
        assert(self.data@ =~= Seq::new(old(self)@.len(), |p: int| zero));
    }
}

} // verus!
