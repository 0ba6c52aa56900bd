//! The dense rank-3 array behind a subgrid, stored by `ndarray`.
use ndarray::Array3;
use vstd::prelude::*;

verus! {

/// A dense array of 64-bit words with three axes, held in an
/// `ndarray::Array3<u64>`.
///
/// Nothing of the array is visible to the verifier but what
/// [`node_array_shape`] and [`node_array_cells`] name.
#[verifier::external_body]
pub struct NodeArray {
    inner: Array3<u64>,
}

/// The lengths of the three axes of `a`.
pub uninterp spec fn node_array_shape(a: NodeArray) -> (nat, nat, nat);

/// The words that `a` holds, by index triple. Only the entries at indices
/// inside [`node_array_shape`] are meaningful.
pub uninterp spec fn node_array_cells(a: NodeArray) -> Map<(int, int, int), u64>;

impl NodeArray {
    /// Is `(i, j, k)` an index into `self`?
    pub open spec fn has(self, i: int, j: int, k: int) -> bool {
        &&& 0 <= i < node_array_shape(self).0
        &&& 0 <= j < node_array_shape(self).1
        &&& 0 <= k < node_array_shape(self).2
    }

    /// The word at `(i, j, k)`.
    #[verifier::inline]
    pub open spec fn at(self, i: int, j: int, k: int) -> u64 {
        node_array_cells(self)[(i, j, k)]
    }

    /// Calls `Array3::zeros` with the shape `(n0, n1, n2)`: the result has
    /// that shape and holds the word 0 at every index. `ndarray` panics when
    /// the product of the axis lengths that are not zero exceeds
    /// `isize::MAX`, and the allocation behind it when the bytes of the
    /// elements do; the precondition leaves both out.
    #[verifier::external_body]
    pub(crate) fn zeros(n0: usize, n1: usize, n2: usize) -> (a: NodeArray)
        requires
            n0 > 0,
            n1 > 0,
            n2 > 0,
            8 * n0 * n1 * n2 <= isize::MAX,
        ensures
            node_array_shape(a) == (n0 as nat, n1 as nat, n2 as nat),
            forall|i: int, j: int, k: int|
                a.has(i, j, k) ==> #[trigger] node_array_cells(a)[(i, j, k)] == 0,
    {
        NodeArray { inner: Array3::zeros((n0, n1, n2)) }
    }

    /// Reads `self[[i, j, k]]` through `ndarray`'s `Index`, which panics on
    /// an index outside the shape: the result is the word stored there.
    #[verifier::external_body]
    pub(crate) fn get(&self, i: usize, j: usize, k: usize) -> (v: u64)
        requires
            self.has(i as int, j as int, k as int),
        ensures
            v == node_array_cells(*self)[(i as int, j as int, k as int)],
    {
        self.inner[[i, j, k]]
    }

    /// Writes `self[[i, j, k]] = v` through `ndarray`'s `IndexMut`, which
    /// panics on an index outside the shape: the shape stays, the word at
    /// `(i, j, k)` becomes `v`, and every other word stays.
    #[verifier::external_body]
    pub(crate) fn set(&mut self, i: usize, j: usize, k: usize, v: u64)
        requires
            old(self).has(i as int, j as int, k as int),
        ensures
            node_array_shape(*final(self)) == node_array_shape(*old(self)),
            node_array_cells(*final(self)) == node_array_cells(*old(self)).insert(
                (i as int, j as int, k as int),
                v,
            ),
    {
        self.inner[[i, j, k]] = v;
    }
}

} // verus!
