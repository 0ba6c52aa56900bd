//! The subgrid that stores Lagrange-interpolated weights on a dense array
//! of nodes, of which only a window of scale nodes is materialized.
use crate::node_array::{node_array_shape, NodeArray};
use crate::ntuple_grid::Ntuple;
use crate::params::{Axis, SubgridParams};
use crate::subgrid::{MergeError, SliceError, SubgridEnum};
use either::Either;
use vstd::arithmetic::div_mod::{
    lemma_breakdown, lemma_fundamental_div_mod, lemma_mod_bound, lemma_multiply_divide_lt,
};
use vstd::prelude::*;

verus! {

/// `either::Either`, the sum of two types, with its two variants `Left` and
/// `Right`.
#[verifier::external_type_specification]
#[verifier::reject_recursive_types(L)]
#[verifier::reject_recursive_types(R)]
pub struct ExEither<L, R>(Either<L, R>);

/// Is `w` the bit pattern of a binary64 zero, of either sign?
pub open spec fn is_zero(w: u64) -> bool {
    w == 0 || w == 0x8000_0000_0000_0000
}

/// Is `w` the bit pattern of a binary64 zero, of either sign?
#[verifier::when_used_as_spec(is_zero)]
pub fn weight_is_zero(w: u64) -> (r: bool)
    ensures
        r == is_zero(w),
{
    w == 0 || w == 0x8000_0000_0000_0000
}

/// Can `value` be what the luminosity gives for the node `(itau, ix1, ix2)`?
/// A luminosity on the left is asked by the node's indices, one on the right
/// by the node's coordinates, taken from `x1`, `x2` and `q2`.
pub open spec fn luminosity_at<L: Fn(usize, usize, usize) -> u64, R: Fn(u64, u64, u64) -> u64>(
    lumi: Either<&L, &R>,
    x1: Seq<u64>,
    x2: Seq<u64>,
    q2: Seq<u64>,
    itau: int,
    ix1: int,
    ix2: int,
    value: u64,
) -> bool {
    match lumi {
        Either::Left(by_index) => by_index.ensures(
            (ix1 as usize, ix2 as usize, itau as usize),
            value,
        ),
        Either::Right(by_value) => by_value.ensures((x1[ix1], x2[ix2], q2[itau]), value),
    }
}

/// The smallest window that holds both `a` and `b`. A window is a half-open
/// range of scale nodes, empty when its first bound is not below its second;
/// an empty window adds nothing.
pub open spec fn hull(a: (int, int), b: (int, int)) -> (int, int) {
    if a.0 >= a.1 {
        b
    } else if b.0 >= b.1 {
        a
    } else {
        (if a.0 <= b.0 { a.0 } else { b.0 }, if a.1 >= b.1 { a.1 } else { b.1 })
    }
}

/// The index triple that the element `n` stands for, where the elements of
/// an array with `n1` and `n2` entries along its second and third axis are
/// listed with the last index running fastest.
pub open spec fn unflatten(n: int, n1: int, n2: int) -> (int, int, int) {
    (n / (n1 * n2), (n / n2) % n1, n % n2)
}

/// An element is found again from its index triple.
pub proof fn lemma_unflatten(n: int, n1: int, n2: int)
    requires
        0 <= n,
        0 < n1,
        0 < n2,
    ensures
        n == (n1 * n2) * unflatten(n, n1, n2).0 + n2 * unflatten(n, n1, n2).1 + unflatten(
            n,
            n1,
            n2,
        ).2,
        0 <= unflatten(n, n1, n2).0,
        0 <= unflatten(n, n1, n2).1 < n1,
        0 <= unflatten(n, n1, n2).2 < n2,
{
    lemma_breakdown(n, n2, n1);
    assert(n1 * n2 == n2 * n1) by (nonlinear_arith);
    lemma_fundamental_div_mod(n, n1 * n2);
    lemma_mod_bound(n / n2, n1);
    lemma_mod_bound(n, n2);
    assert(0 <= n / (n1 * n2)) by (nonlinear_arith)
        requires
            0 <= n,
            0 < n1 * n2,
    ;
}

/// Does `(i, j, k)` come before `(i0, j0, k0)` when index triples are walked
/// with the last index running fastest?
pub open spec fn precedes(i: int, j: int, k: int, i0: int, j0: int, k0: int) -> bool {
    i < i0 || (i == i0 && (j < j0 || (j == j0 && k < k0)))
}

/// Subgrid which uses Lagrange-interpolation.
///
/// It is a function from node triples `(itau, ix1, ix2)` to weights, see
/// [`LagrangeSubgridV1::cell`], that is zero outside of the window
/// [`LagrangeSubgridV1::window`] of scale nodes that storage exists for.
pub struct LagrangeSubgridV1 {
    grid: Option<NodeArray>,
    params: SubgridParams,
    itaumin: usize,
    itaumax: usize,
}

impl LagrangeSubgridV1 {
    /// The storage, where there is any, has one row for each scale node of a
    /// window that is not empty and lies on the scale axis, and one column
    /// for each node of the two momentum-fraction axes. Every subgrid that
    /// this module hands out is so.
    #[verifier::type_invariant]
    pub closed spec fn well_formed(self) -> bool {
        &&& self.params.allocatable()
        &&& self.grid matches Some(g) ==> {
            &&& self.itaumin < self.itaumax <= self.params.q2().bins()
            &&& node_array_shape(g) == (
                (self.itaumax - self.itaumin) as nat,
                self.params.x1().bins() as nat,
                self.params.x2().bins() as nat,
            )
        }
    }

    /// The parameters that the subgrid was made with.
    pub closed spec fn params(self) -> SubgridParams {
        self.params
    }

    /// The half-open range of scale nodes that are materialized; `(0, 0)`
    /// while there is no storage.
    pub closed spec fn window(self) -> (int, int) {
        match self.grid {
            Some(_) => (self.itaumin as int, self.itaumax as int),
            None => (0, 0),
        }
    }

    /// Is `(itau, ix1, ix2)` a node inside the window?
    pub open spec fn materialized(self, itau: int, ix1: int, ix2: int) -> bool {
        &&& self.window().0 <= itau < self.window().1
        &&& 0 <= ix1 < self.params().x1().bins()
        &&& 0 <= ix2 < self.params().x2().bins()
    }

    /// The weight accumulated on the node `(itau, ix1, ix2)`, as a bit
    /// pattern; the pattern 0 for every node that is not materialized.
    pub closed spec fn cell(self, itau: int, ix1: int, ix2: int) -> u64 {
        match self.grid {
            Some(g) => if self.itaumin <= itau < self.itaumax && 0 <= ix1 < self.params.x1().bins()
                && 0 <= ix2 < self.params.x2().bins() {
                g.at(itau - self.itaumin, ix1, ix2)
            } else {
                0
            },
            None => 0,
        }
    }

    /// Constructor.
    #[must_use]
    pub fn new(subgrid_params: &SubgridParams) -> (r: Self)
        ensures
            r.params() == *subgrid_params,
            r.window() == (0int, 0int),
            forall|itau: int, ix1: int, ix2: int| #[trigger] r.cell(itau, ix1, ix2) == 0,
    {
        proof {
            use_type_invariant(subgrid_params);
        }
        Self { grid: None, params: *subgrid_params, itaumin: 0, itaumax: 0 }
    }

    /// The parameters that the subgrid was made with.
    pub fn subgrid_params(&self) -> (r: SubgridParams)
        ensures
            r == self.params(),
    {
        self.params
    }

    /// Is there no storage, as in a subgrid that was never filled?
    pub fn is_empty(&self) -> (r: bool)
        ensures
            r <==> self.window().0 == self.window().1,
            r ==> self.window() == (0int, 0int),
    {
        proof {
            use_type_invariant(self);
        }
        self.grid.is_none()
    }

    /// The window of materialized scale nodes, as the first node and the
    /// node after the last.
    pub fn q2_slice(&self) -> (r: (usize, usize))
        ensures
            (r.0 as int, r.1 as int) == self.window(),
            r.0 <= r.1 <= self.params().q2().bins(),
    {
        proof {
            use_type_invariant(self);
        }
        if self.grid.is_none() {
            (0, 0)
        } else {
            (self.itaumin, self.itaumax)
        }
    }

    /// Takes the subgrid out of `self` and leaves an empty one with the same
    /// parameters in its place.
    fn release(&mut self) -> (r: Self)
        ensures
            r == *old(self),
            final(self).params == old(self).params,
            final(self).grid is None,
    {
        proof {
            use_type_invariant(&*self);
        }
        let mut this = Self { grid: None, params: self.params, itaumin: 0, itaumax: 0 };
        core::mem::swap(self, &mut this);
        this
    }

    /// A copy of `grid`, whose rows are the scale nodes `[itaumin, itaumax)`,
    /// with rows for the wider window `[new_itaumin, new_itaumax)`: every
    /// weight stays on its node, and the new rows hold zero.
    fn increase_tau(
        grid: &NodeArray,
        itaumin: usize,
        itaumax: usize,
        new_itaumin: usize,
        new_itaumax: usize,
        ny1: usize,
        ny2: usize,
    ) -> (r: NodeArray)
        requires
            new_itaumin <= itaumin < itaumax <= new_itaumax,
            ny1 > 0,
            ny2 > 0,
            node_array_shape(*grid) == ((itaumax - itaumin) as nat, ny1 as nat, ny2 as nat),
            8 * (new_itaumax - new_itaumin) * ny1 * ny2 <= isize::MAX,
        ensures
            node_array_shape(r) == ((new_itaumax - new_itaumin) as nat, ny1 as nat, ny2 as nat),
            forall|a: int, b: int, c: int|
                r.has(a, b, c) ==> #[trigger] r.at(a, b, c) == (if itaumin <= a + new_itaumin
                    < itaumax {
                    grid.at(a + new_itaumin - itaumin, b, c)
                } else {
                    0
                }),
    {
        let min_diff: usize = itaumin - new_itaumin;
        let rows: usize = itaumax - itaumin;
        let new_rows: usize = new_itaumax - new_itaumin;
        let mut new_grid = NodeArray::zeros(new_rows, ny1, ny2);
        for i in 0..rows
            invariant
                min_diff + rows <= new_rows,
                node_array_shape(*grid) == (rows as nat, ny1 as nat, ny2 as nat),
                node_array_shape(new_grid) == (new_rows as nat, ny1 as nat, ny2 as nat),
                forall|a: int, b: int, c: int|
                    new_grid.has(a, b, c) ==> #[trigger] new_grid.at(a, b, c) == (if min_diff <= a
                        < min_diff + i {
                        grid.at(a - min_diff, b, c)
                    } else {
                        0
                    }),
        {
            for j in 0..ny1
                invariant
                    i < rows,
                    min_diff + rows <= new_rows,
                    node_array_shape(*grid) == (rows as nat, ny1 as nat, ny2 as nat),
                    node_array_shape(new_grid) == (new_rows as nat, ny1 as nat, ny2 as nat),
                    forall|a: int, b: int, c: int|
                        new_grid.has(a, b, c) ==> #[trigger] new_grid.at(a, b, c) == (if min_diff
                            <= a && precedes(a - min_diff, b, c, i as int, j as int, 0) {
                            grid.at(a - min_diff, b, c)
                        } else {
                            0
                        }),
            {
                for k in 0..ny2
                    invariant
                        i < rows,
                        j < ny1,
                        min_diff + rows <= new_rows,
                        node_array_shape(*grid) == (rows as nat, ny1 as nat, ny2 as nat),
                        node_array_shape(new_grid) == (new_rows as nat, ny1 as nat, ny2 as nat),
                        forall|a: int, b: int, c: int|
                            new_grid.has(a, b, c) ==> #[trigger] new_grid.at(a, b, c) == (
                            if min_diff <= a && precedes(
                                a - min_diff,
                                b,
                                c,
                                i as int,
                                j as int,
                                k as int,
                            ) {
                                grid.at(a - min_diff, b, c)
                            } else {
                                0
                            }),
                {
                    let value: u64 = grid.get(i, j, k);
                    new_grid.set(i + min_diff, j, k, value);
                }
            }
        }
        new_grid
    }

    /// Is `(itau, ix1, ix2)` one of the nodes of the stencils that start at
    /// the nodes `k1`, `k2` and `k3` of the three axes?
    pub open spec fn in_stencil(
        self,
        k1: int,
        k2: int,
        k3: int,
        itau: int,
        ix1: int,
        ix2: int,
    ) -> bool {
        &&& k3 <= itau <= k3 + self.params().q2().order()
        &&& k1 <= ix1 <= k1 + self.params().x1().order()
        &&& k2 <= ix2 <= k2 + self.params().x2().order()
    }

    /// Is `after` what accumulating a sample on the nodes of its stencils
    /// makes of `before`? The stencils start at the nodes `k1`, `k2` and
    /// `k3`, and `fi1`, `fi2` and `fi3` hold the basis weight of each of
    /// their nodes. The parameters stay; the window grows to hold the scale
    /// stencil; the weight on each node of the stencils is what `deposit`
    /// gives for the weight before and the node's three basis weights; and
    /// every other node keeps its weight.
    pub open spec fn stencil_filled<F: Fn(u64, u64, u64, u64) -> u64>(
        before: Self,
        after: Self,
        k1: int,
        k2: int,
        k3: int,
        fi1: Seq<u64>,
        fi2: Seq<u64>,
        fi3: Seq<u64>,
        deposit: &F,
    ) -> bool {
        &&& after.params() == before.params()
        &&& after.window() == hull(before.window(), (k3, k3 + before.params().q2().order() + 1))
        &&& forall|itau: int, ix1: int, ix2: int|
            before.in_stencil(k1, k2, k3, itau, ix1, ix2) ==> deposit.ensures(
                (before.cell(itau, ix1, ix2), fi1[ix1 - k1], fi2[ix2 - k2], fi3[itau - k3]),
                #[trigger] after.cell(itau, ix1, ix2),
            )
        &&& forall|itau: int, ix1: int, ix2: int|
            !before.in_stencil(k1, k2, k3, itau, ix1, ix2) ==> #[trigger] after.cell(
                itau,
                ix1,
                ix2,
            ) == before.cell(itau, ix1, ix2)
    }

    /// Accumulates one sample on the nodes of its stencils, which start at
    /// the nodes `k1` and `k2` of the momentum-fraction axes and `k3` of the
    /// scale axis and fit on their axes; `fi1`, `fi2` and `fi3` hold the
    /// basis weight of each of their nodes.
    pub fn fill_stencil<F: Fn(u64, u64, u64, u64) -> u64>(
        &mut self,
        k1: usize,
        k2: usize,
        k3: usize,
        fi1: &[u64],
        fi2: &[u64],
        fi3: &[u64],
        deposit: &F,
    )
        requires
            k1 + old(self).params().x1().order() < old(self).params().x1().bins(),
            k2 + old(self).params().x2().order() < old(self).params().x2().bins(),
            k3 + old(self).params().q2().order() < old(self).params().q2().bins(),
            fi1.len() == old(self).params().x1().order() + 1,
            fi2.len() == old(self).params().x2().order() + 1,
            fi3.len() == old(self).params().q2().order() + 1,
            forall|w: u64, b1: u64, b2: u64, b3: u64| deposit.requires((w, b1, b2, b3)),
        ensures
            Self::stencil_filled(
                *old(self),
                *final(self),
                k1 as int,
                k2 as int,
                k3 as int,
                fi1@,
                fi2@,
                fi3@,
                deposit,
            ),
    {
        let this = self.release();
        proof {
            use_type_invariant(&this);
        }
        let LagrangeSubgridV1 { grid, params, itaumin, itaumax } = this;
        let ny1: usize = params.x1().bins();
        let ny2: usize = params.x2().bins();
        let n1: usize = params.x1().order() + 1;
        let n2: usize = params.x2().order() + 1;
        let size: usize = params.q2().order() + 1;
        let lo: usize = match grid {
            Some(_) => if k3 < itaumin {
                k3
            } else {
                itaumin
            },
            None => k3,
        };
        let hi: usize = match grid {
            Some(_) => if k3 + size > itaumax {
                k3 + size
            } else {
                itaumax
            },
            None => k3 + size,
        };
        assert(8 * (hi - lo) * ny1 * ny2 <= isize::MAX) by (nonlinear_arith)
            requires
                0 <= hi - lo <= params.q2().bins(),
                8 * params.q2().bins() * ny1 * ny2 <= isize::MAX,
        ;
        let mut g = match grid {
            Some(old_grid) => if lo < itaumin || hi > itaumax {
                Self::increase_tau(&old_grid, itaumin, itaumax, lo, hi, ny1, ny2)
            } else {
                old_grid
            },
            None => NodeArray::zeros(size, ny1, ny2),
        };
        let ghost before = g;
        assert forall|a: int, b: int, c: int| before.has(a, b, c) implies before.at(a, b, c)
            == this.cell(a + lo, b, c) by {}
        let off: usize = k3 - lo;
        for i3 in 0..size
            invariant
                off + size <= hi - lo,
                k1 + n1 <= ny1,
                k2 + n2 <= ny2,
                fi1.len() == n1,
                fi2.len() == n2,
                fi3.len() == size,
                forall|w: u64, b1: u64, b2: u64, b3: u64| deposit.requires((w, b1, b2, b3)),
                node_array_shape(before) == ((hi - lo) as nat, ny1 as nat, ny2 as nat),
                node_array_shape(g) == ((hi - lo) as nat, ny1 as nat, ny2 as nat),
                forall|a: int, b: int, c: int|
                    g.has(a, b, c) && !(off <= a < off + i3 && k1 <= b < k1 + n1 && k2 <= c < k2
                        + n2) ==> #[trigger] g.at(a, b, c) == before.at(a, b, c),
                forall|a: int, b: int, c: int|
                    off <= a < off + i3 && k1 <= b < k1 + n1 && k2 <= c < k2 + n2
                        ==> deposit.ensures(
                        (before.at(a, b, c), fi1[b - k1], fi2[c - k2], fi3[a - off]),
                        #[trigger] g.at(a, b, c),
                    ),
        {
            for i1 in 0..n1
                invariant
                    i3 < size,
                    off + size <= hi - lo,
                    k1 + n1 <= ny1,
                    k2 + n2 <= ny2,
                    fi1.len() == n1,
                    fi2.len() == n2,
                    fi3.len() == size,
                    forall|w: u64, b1: u64, b2: u64, b3: u64| deposit.requires((w, b1, b2, b3)),
                    node_array_shape(before) == ((hi - lo) as nat, ny1 as nat, ny2 as nat),
                    node_array_shape(g) == ((hi - lo) as nat, ny1 as nat, ny2 as nat),
                    forall|a: int, b: int, c: int|
                        g.has(a, b, c) && !(off <= a && k1 <= b < k1 + n1 && k2 <= c < k2 + n2
                            && precedes(a - off, b - k1, c - k2, i3 as int, i1 as int, 0))
                            ==> #[trigger] g.at(a, b, c) == before.at(a, b, c),
                    forall|a: int, b: int, c: int|
                        off <= a && k1 <= b < k1 + n1 && k2 <= c < k2 + n2 && precedes(
                            a - off,
                            b - k1,
                            c - k2,
                            i3 as int,
                            i1 as int,
                            0,
                        ) ==> deposit.ensures(
                            (before.at(a, b, c), fi1[b - k1], fi2[c - k2], fi3[a - off]),
                            #[trigger] g.at(a, b, c),
                        ),
            {
                for i2 in 0..n2
                    invariant
                        i3 < size,
                        i1 < n1,
                        off + size <= hi - lo,
                        k1 + n1 <= ny1,
                        k2 + n2 <= ny2,
                        fi1.len() == n1,
                        fi2.len() == n2,
                        fi3.len() == size,
                        forall|w: u64, b1: u64, b2: u64, b3: u64|
                            deposit.requires((w, b1, b2, b3)),
                        node_array_shape(before) == ((hi - lo) as nat, ny1 as nat, ny2 as nat),
                        node_array_shape(g) == ((hi - lo) as nat, ny1 as nat, ny2 as nat),
                        forall|a: int, b: int, c: int|
                            g.has(a, b, c) && !(off <= a && k1 <= b < k1 + n1 && k2 <= c < k2 + n2
                                && precedes(a - off, b - k1, c - k2, i3 as int, i1 as int, i2 as int))
                                ==> #[trigger] g.at(a, b, c) == before.at(a, b, c),
                        forall|a: int, b: int, c: int|
                            off <= a && k1 <= b < k1 + n1 && k2 <= c < k2 + n2 && precedes(
                                a - off,
                                b - k1,
                                c - k2,
                                i3 as int,
                                i1 as int,
                                i2 as int,
                            ) ==> deposit.ensures(
                                (before.at(a, b, c), fi1[b - k1], fi2[c - k2], fi3[a - off]),
                                #[trigger] g.at(a, b, c),
                            ),
                {
                    let weight: u64 = g.get(off + i3, k1 + i1, k2 + i2);
                    let sum: u64 = deposit(weight, fi1[i1], fi2[i2], fi3[i3]);
                    g.set(off + i3, k1 + i1, k2 + i2, sum);
                }
            }
        }
        *self = LagrangeSubgridV1 { grid: Some(g), params, itaumin: lo, itaumax: hi };
    }

    /// Does `fi` hold what `basis` gives for each node of the stencil of the
    /// sample `ntuple` that starts at the node `k` of the axis `axis`?
    pub open spec fn weighted<B: Fn(Ntuple, Axis, usize, usize) -> u64>(
        basis: &B,
        ntuple: Ntuple,
        axis: Axis,
        k: int,
        order: int,
        fi: Seq<u64>,
    ) -> bool {
        &&& fi.len() == order + 1
        &&& forall|i: int|
            0 <= i <= order ==> basis.ensures((ntuple, axis, k as usize, i as usize), #[trigger] fi[i])
    }

    /// Is `after` what filling the sample `ntuple` makes of `before`?
    ///
    /// `locate` finds the cells that the sample lies in, of the axis of the
    /// first momentum fraction, of the second, and of the scale axis in
    /// this order, or that it lies outside of the grid. A sample outside of
    /// the grid changes nothing. For any other, the stencil of each axis starts
    /// where [`crate::params::AxisParams::stencil_start_of`] says for the
    /// cell, `basis` gives the basis weight of each node of each stencil, and
    /// the sample is accumulated as [`Self::stencil_filled`] says.
    pub open spec fn filled<
        C: Fn(Ntuple) -> Option<(usize, usize, usize)>,
        B: Fn(Ntuple, Axis, usize, usize) -> u64,
        D: Fn(u64, u64, u64, u64) -> u64,
    >(before: Self, after: Self, ntuple: Ntuple, locate: &C, basis: &B, deposit: &D) -> bool {
        exists|cells: Option<(usize, usize, usize)>| #[trigger]
            locate.ensures((ntuple,), cells) && match cells {
                None => after == before,
                Some((c1, c2, c3)) => {
                    let x1 = before.params().x1();
                    let x2 = before.params().x2();
                    let q2 = before.params().q2();
                    let k1 = x1.stencil_start_of(c1 as int);
                    let k2 = x2.stencil_start_of(c2 as int);
                    let k3 = q2.stencil_start_of(c3 as int);
                    exists|fi1: Seq<u64>, fi2: Seq<u64>, fi3: Seq<u64>|
                        Self::weighted(basis, ntuple, Axis::X1, k1, x1.order() as int, fi1)
                            && Self::weighted(basis, ntuple, Axis::X2, k2, x2.order() as int, fi2)
                            && Self::weighted(basis, ntuple, Axis::Q2, k3, q2.order() as int, fi3)
                            && #[trigger] Self::stencil_filled(
                            before,
                            after,
                            k1,
                            k2,
                            k3,
                            fi1,
                            fi2,
                            fi3,
                            deposit,
                        )
                },
            }
    }

    /// The basis weights of the stencil of `ntuple` that starts at the node
    /// `k` of the axis `axis`, one for each of its `order + 1` nodes.
    fn basis_weights<B: Fn(Ntuple, Axis, usize, usize) -> u64>(
        ntuple: Ntuple,
        axis: Axis,
        k: usize,
        order: usize,
        basis: &B,
    ) -> (fi: Vec<u64>)
        requires
            order < usize::MAX,
            forall|n: Ntuple, a: Axis, k: usize, i: usize| basis.requires((n, a, k, i)),
        ensures
            Self::weighted(basis, ntuple, axis, k as int, order as int, fi@),
    {
        let mut fi: Vec<u64> = Vec::new();
        for i in 0..order + 1
            invariant
                forall|n: Ntuple, a: Axis, k: usize, i: usize| basis.requires((n, a, k, i)),
                fi@.len() == i,
                forall|j: int|
                    0 <= j < i ==> basis.ensures(
                        (ntuple, axis, k, j as usize),
                        #[trigger] fi@[j],
                    ),
        {
            fi.push(basis(ntuple, axis, k, i));
        }
        fi
    }

    /// Fills the sample `ntuple` into the subgrid.
    ///
    /// A sample that `locate` finds outside of the grid is dropped, which
    /// is no error. Any other is interpolated: on each axis the stencil is
    /// centred on the cell that `locate` has found, `basis` is asked for
    /// the basis weight of each of its nodes, the window grows to hold the
    /// scale stencil, and `deposit` adds the sample to the weight on each
    /// node of the three stencils.
    pub fn fill<
        C: Fn(Ntuple) -> Option<(usize, usize, usize)>,
        B: Fn(Ntuple, Axis, usize, usize) -> u64,
        D: Fn(u64, u64, u64, u64) -> u64,
    >(&mut self, ntuple: &Ntuple, locate: &C, basis: &B, deposit: &D)
        requires
            forall|n: Ntuple| locate.requires((n,)),
            forall|n: Ntuple, a: Axis, k: usize, i: usize| basis.requires((n, a, k, i)),
            forall|w: u64, b1: u64, b2: u64, b3: u64| deposit.requires((w, b1, b2, b3)),
        ensures
            Self::filled(*old(self), *final(self), *ntuple, locate, basis, deposit),
    {
        let cells = locate(*ntuple);
        match cells {
            None => {},
            Some((c1, c2, c3)) => {
                let params = self.subgrid_params();
                let k1: usize = params.x1().stencil_start(c1);
                let k2: usize = params.x2().stencil_start(c2);
                let k3: usize = params.q2().stencil_start(c3);
                let fi1 = Self::basis_weights(*ntuple, Axis::X1, k1, params.x1().order(), basis);
                let fi2 = Self::basis_weights(*ntuple, Axis::X2, k2, params.x2().order(), basis);
                let fi3 = Self::basis_weights(*ntuple, Axis::Q2, k3, params.q2().order(), basis);
                self.fill_stencil(
                    k1,
                    k2,
                    k3,
                    fi1.as_slice(),
                    fi2.as_slice(),
                    fi3.as_slice(),
                    deposit,
                );
                assert(Self::stencil_filled(
                    *old(self),
                    *self,
                    k1 as int,
                    k2 as int,
                    k3 as int,
                    fi1@,
                    fi2@,
                    fi3@,
                    deposit,
                ));
            },
        }
        assert(locate.ensures((*ntuple,), cells));
    }

    /// Can `after` be the sum once the node `(itau, ix1, ix2)` has been
    /// visited, where it was `before`? A node whose weight is zero leaves the
    /// sum as it is; for any other, the luminosity is asked for the node, and
    /// `accumulate` is called with the sum, the node's weight, the
    /// luminosity and the node's two momentum-fraction indices.
    pub open spec fn visited<
        L: Fn(usize, usize, usize) -> u64,
        R: Fn(u64, u64, u64) -> u64,
        F: Fn(u64, u64, u64, usize, usize) -> u64,
    >(
        self,
        x1: Seq<u64>,
        x2: Seq<u64>,
        q2: Seq<u64>,
        lumi: Either<&L, &R>,
        accumulate: &F,
        itau: int,
        ix1: int,
        ix2: int,
        before: u64,
        after: u64,
    ) -> bool {
        let sigma = self.cell(itau, ix1, ix2);
        if is_zero(sigma) {
            after == before
        } else {
            exists|value: u64|
                #[trigger] luminosity_at(lumi, x1, x2, q2, itau, ix1, ix2, value)
                    && accumulate.ensures(
                    (before, sigma, value, ix1 as usize, ix2 as usize),
                    after,
                )
        }
    }

    /// Can `sum` be the sum when every node of the window that comes before
    /// `(itau, ix1, ix2)` has been visited? The nodes are walked from the
    /// first scale node of the window, the second momentum-fraction index
    /// running fastest, and the sum starts as the pattern 0.
    pub open spec fn summed_before<
        L: Fn(usize, usize, usize) -> u64,
        R: Fn(u64, u64, u64) -> u64,
        F: Fn(u64, u64, u64, usize, usize) -> u64,
    >(
        self,
        x1: Seq<u64>,
        x2: Seq<u64>,
        q2: Seq<u64>,
        lumi: Either<&L, &R>,
        accumulate: &F,
        itau: int,
        ix1: int,
        ix2: int,
        sum: u64,
    ) -> bool
        decreases itau, ix1, ix2, 0int,
    {
        let ny1 = self.params().x1().bins() as int;
        let ny2 = self.params().x2().bins() as int;
        if ix2 > 0 {
            self.summed_through(x1, x2, q2, lumi, accumulate, itau, ix1, ix2 - 1, sum)
        } else if ix1 > 0 {
            self.summed_through(x1, x2, q2, lumi, accumulate, itau, ix1 - 1, ny2 - 1, sum)
        } else if itau > self.window().0 && itau > 0 {
            self.summed_through(x1, x2, q2, lumi, accumulate, itau - 1, ny1 - 1, ny2 - 1, sum)
        } else {
            sum == 0
        }
    }

    /// Can `sum` be the sum when every node of the window up to
    /// `(itau, ix1, ix2)`, and that node too, has been visited?
    pub open spec fn summed_through<
        L: Fn(usize, usize, usize) -> u64,
        R: Fn(u64, u64, u64) -> u64,
        F: Fn(u64, u64, u64, usize, usize) -> u64,
    >(
        self,
        x1: Seq<u64>,
        x2: Seq<u64>,
        q2: Seq<u64>,
        lumi: Either<&L, &R>,
        accumulate: &F,
        itau: int,
        ix1: int,
        ix2: int,
        sum: u64,
    ) -> bool
        decreases itau, ix1, ix2, 1int,
    {
        exists|prev: u64|
            self.summed_before(x1, x2, q2, lumi, accumulate, itau, ix1, ix2, prev)
                && #[trigger] self.visited(
                x1,
                x2,
                q2,
                lumi,
                accumulate,
                itau,
                ix1,
                ix2,
                prev,
                sum,
            )
    }

    /// Convolutes the subgrid with a luminosity: visits every node of the
    /// window in turn and returns the sum that `accumulate` has built, which
    /// is the pattern 0 for an empty subgrid.
    ///
    /// `x1`, `x2` and `q2` hold the coordinates of the nodes of the three
    /// axes; they are read for a luminosity on the right only.
    pub fn convolute<
        L: Fn(usize, usize, usize) -> u64,
        R: Fn(u64, u64, u64) -> u64,
        F: Fn(u64, u64, u64, usize, usize) -> u64,
    >(
        &self,
        x1: &[u64],
        x2: &[u64],
        q2: &[u64],
        lumi: Either<&L, &R>,
        accumulate: &F,
    ) -> (r: u64)
        requires
            lumi matches Either::Left(by_index) ==> forall|i: usize, j: usize, k: usize|
                by_index.requires((i, j, k)),
            lumi matches Either::Right(by_value) ==> {
                &&& x1.len() == self.params().x1().bins()
                &&& x2.len() == self.params().x2().bins()
                &&& q2.len() == self.params().q2().bins()
                &&& forall|a: u64, b: u64, c: u64| by_value.requires((a, b, c))
            },
            forall|sum: u64, sigma: u64, value: u64, i: usize, j: usize|
                accumulate.requires((sum, sigma, value, i, j)),
        ensures
            self.summed_before(x1@, x2@, q2@, lumi, accumulate, self.window().1, 0, 0, r),
    {
        proof {
            use_type_invariant(self);
        }
        match &self.grid {
            None => 0,
            Some(g) => {
                let lo: usize = self.itaumin;
                let rows: usize = self.itaumax - self.itaumin;
                let ny1: usize = self.params.x1().bins();
                let ny2: usize = self.params.x2().bins();
                let mut sum: u64 = 0;
                for i in 0..rows
                    invariant
                        self.grid == Some(*g),
                        lo == self.itaumin,
                        lo + rows == self.itaumax,
                        self.itaumax <= self.params.q2().bins(),
                        ny1 == self.params.x1().bins(),
                        ny1 > 0,
                        ny2 > 0,
                        ny2 == self.params.x2().bins(),
                        node_array_shape(*g) == (rows as nat, ny1 as nat, ny2 as nat),
                        lumi matches Either::Left(by_index) ==> forall|
                            i: usize,
                            j: usize,
                            k: usize,
                        | by_index.requires((i, j, k)),
                        lumi matches Either::Right(by_value) ==> {
                            &&& x1.len() == ny1
                            &&& x2.len() == ny2
                            &&& q2.len() == self.params.q2().bins()
                            &&& forall|a: u64, b: u64, c: u64| by_value.requires((a, b, c))
                        },
                        forall|sum: u64, sigma: u64, value: u64, i: usize, j: usize|
                            accumulate.requires((sum, sigma, value, i, j)),
                        self.summed_before(x1@, x2@, q2@, lumi, accumulate, lo + i, 0, 0, sum),
                {
                    for j in 0..ny1
                        invariant
                            i < rows,
                            self.grid == Some(*g),
                            lo == self.itaumin,
                            lo + rows == self.itaumax,
                            self.itaumax <= self.params.q2().bins(),
                            ny1 == self.params.x1().bins(),
                        ny1 > 0,
                        ny2 > 0,
                            ny2 == self.params.x2().bins(),
                            node_array_shape(*g) == (rows as nat, ny1 as nat, ny2 as nat),
                            lumi matches Either::Left(by_index) ==> forall|
                                i: usize,
                                j: usize,
                                k: usize,
                            | by_index.requires((i, j, k)),
                            lumi matches Either::Right(by_value) ==> {
                                &&& x1.len() == ny1
                                &&& x2.len() == ny2
                                &&& q2.len() == self.params.q2().bins()
                                &&& forall|a: u64, b: u64, c: u64| by_value.requires((a, b, c))
                            },
                            forall|sum: u64, sigma: u64, value: u64, i: usize, j: usize|
                                accumulate.requires((sum, sigma, value, i, j)),
                            self.summed_before(
                                x1@,
                                x2@,
                                q2@,
                                lumi,
                                accumulate,
                                lo + i,
                                j as int,
                                0,
                                sum,
                            ),
                    {
                        for k in 0..ny2
                            invariant
                                i < rows,
                                j < ny1,
                                self.grid == Some(*g),
                                lo == self.itaumin,
                                lo + rows == self.itaumax,
                                self.itaumax <= self.params.q2().bins(),
                                ny1 == self.params.x1().bins(),
                        ny1 > 0,
                        ny2 > 0,
                                ny2 == self.params.x2().bins(),
                                node_array_shape(*g) == (rows as nat, ny1 as nat, ny2 as nat),
                                lumi matches Either::Left(by_index) ==> forall|
                                    i: usize,
                                    j: usize,
                                    k: usize,
                                | by_index.requires((i, j, k)),
                                lumi matches Either::Right(by_value) ==> {
                                    &&& x1.len() == ny1
                                    &&& x2.len() == ny2
                                    &&& q2.len() == self.params.q2().bins()
                                    &&& forall|a: u64, b: u64, c: u64|
                                        by_value.requires((a, b, c))
                                },
                                forall|sum: u64, sigma: u64, value: u64, i: usize, j: usize|
                                    accumulate.requires((sum, sigma, value, i, j)),
                                self.summed_before(
                                    x1@,
                                    x2@,
                                    q2@,
                                    lumi,
                                    accumulate,
                                    lo + i,
                                    j as int,
                                    k as int,
                                    sum,
                                ),
                        {
                            let ghost prev = sum;
                            let sigma: u64 = g.get(i, j, k);
                            if !weight_is_zero(sigma) {
                                let value: u64 = match lumi {
                                    Either::Left(by_index) => by_index(j, k, lo + i),
                                    Either::Right(by_value) => by_value(x1[j], x2[k], q2[lo + i]),
                                };
                                assert(luminosity_at(
                                    lumi,
                                    x1@,
                                    x2@,
                                    q2@,
                                    lo + i,
                                    j as int,
                                    k as int,
                                    value,
                                ));
                                sum = accumulate(sum, sigma, value, j, k);
                            }
                            assert(self.visited(
                                x1@,
                                x2@,
                                q2@,
                                lumi,
                                accumulate,
                                lo + i,
                                j as int,
                                k as int,
                                prev,
                                sum,
                            ));
                            assert(self.summed_through(
                                x1@,
                                x2@,
                                q2@,
                                lumi,
                                accumulate,
                                lo + i,
                                j as int,
                                k as int,
                                sum,
                            ));
                        }
                    }
                }
                sum
            },
        }
    }

    /// Is `after` what scaling every weight by `factor` makes of `before`?
    /// A `factor` of zero drops the storage, which leaves the subgrid as if
    /// it had never been filled. For any other, the window stays, and the
    /// weight on each node inside it is what `rescale` gives for the weight
    /// before and `factor`.
    pub open spec fn scaled<F: Fn(u64, u64) -> u64>(
        before: Self,
        after: Self,
        factor: u64,
        rescale: &F,
    ) -> bool {
        &&& after.params() == before.params()
        &&& after.window() == (if is_zero(factor) {
            (0int, 0int)
        } else {
            before.window()
        })
        &&& forall|itau: int, ix1: int, ix2: int|
            !is_zero(factor) && before.materialized(itau, ix1, ix2) ==> rescale.ensures(
                (before.cell(itau, ix1, ix2), factor),
                #[trigger] after.cell(itau, ix1, ix2),
            )
        &&& forall|itau: int, ix1: int, ix2: int|
            is_zero(factor) || !before.materialized(itau, ix1, ix2) ==> #[trigger] after.cell(
                itau,
                ix1,
                ix2,
            ) == 0
    }

    /// Scales every weight by `factor`, with `rescale` to multiply; a
    /// `factor` of zero drops the storage.
    pub fn scale<F: Fn(u64, u64) -> u64>(&mut self, factor: u64, rescale: &F)
        requires
            forall|w: u64, f: u64| rescale.requires((w, f)),
        ensures
            Self::scaled(*old(self), *final(self), factor, rescale),
    {
        let this = self.release();
        proof {
            use_type_invariant(&this);
        }
        let LagrangeSubgridV1 { grid, params, itaumin, itaumax } = this;
        if weight_is_zero(factor) {
            return ;
        }
        let ny1: usize = params.x1().bins();
        let ny2: usize = params.x2().bins();
        match grid {
            None => {},
            Some(mut g) => {
                let rows: usize = itaumax - itaumin;
                let ghost before = g;
                for i in 0..rows
                    invariant
                        forall|w: u64, f: u64| rescale.requires((w, f)),
                        node_array_shape(before) == (rows as nat, ny1 as nat, ny2 as nat),
                        node_array_shape(g) == (rows as nat, ny1 as nat, ny2 as nat),
                        forall|a: int, b: int, c: int|
                            g.has(a, b, c) && a >= i ==> #[trigger] g.at(a, b, c) == before.at(
                                a,
                                b,
                                c,
                            ),
                        forall|a: int, b: int, c: int|
                            g.has(a, b, c) && a < i ==> rescale.ensures(
                                (before.at(a, b, c), factor),
                                #[trigger] g.at(a, b, c),
                            ),
                {
                    for j in 0..ny1
                        invariant
                            i < rows,
                            forall|w: u64, f: u64| rescale.requires((w, f)),
                            node_array_shape(before) == (rows as nat, ny1 as nat, ny2 as nat),
                            node_array_shape(g) == (rows as nat, ny1 as nat, ny2 as nat),
                            forall|a: int, b: int, c: int|
                                g.has(a, b, c) && !precedes(a, b, c, i as int, j as int, 0)
                                    ==> #[trigger] g.at(a, b, c) == before.at(a, b, c),
                            forall|a: int, b: int, c: int|
                                g.has(a, b, c) && precedes(a, b, c, i as int, j as int, 0)
                                    ==> rescale.ensures(
                                    (before.at(a, b, c), factor),
                                    #[trigger] g.at(a, b, c),
                                ),
                    {
                        for k in 0..ny2
                            invariant
                                i < rows,
                                j < ny1,
                                forall|w: u64, f: u64| rescale.requires((w, f)),
                                node_array_shape(before) == (rows as nat, ny1 as nat, ny2 as nat),
                                node_array_shape(g) == (rows as nat, ny1 as nat, ny2 as nat),
                                forall|a: int, b: int, c: int|
                                    g.has(a, b, c) && !precedes(
                                        a,
                                        b,
                                        c,
                                        i as int,
                                        j as int,
                                        k as int,
                                    ) ==> #[trigger] g.at(a, b, c) == before.at(a, b, c),
                                forall|a: int, b: int, c: int|
                                    g.has(a, b, c) && precedes(
                                        a,
                                        b,
                                        c,
                                        i as int,
                                        j as int,
                                        k as int,
                                    ) ==> rescale.ensures(
                                        (before.at(a, b, c), factor),
                                        #[trigger] g.at(a, b, c),
                                    ),
                        {
                            let weight: u64 = g.get(i, j, k);
                            let scaled: u64 = rescale(weight, factor);
                            g.set(i, j, k, scaled);
                        }
                    }
                }
                *self = LagrangeSubgridV1 { grid: Some(g), params, itaumin, itaumax };
            },
        }
    }

    /// Exports the weights of the scale node `q2_slice`.
    ///
    /// The element `index` of `grid` stands for the node with the first
    /// momentum-fraction index `index / n` and the second `index % n`, where
    /// `n` is the number of nodes of the second momentum-fraction axis; it
    /// becomes what `export` gives for the weight on that node and the two
    /// indices. Nothing is exported from a subgrid without storage, for a
    /// scale node outside the window, or into a buffer longer than one
    /// slice.
    pub fn fill_q2_slice<F: Fn(u64, usize, usize) -> u64>(
        &self,
        q2_slice: usize,
        grid: &mut [u64],
        export: &F,
    ) -> (r: Result<(), SliceError>)
        requires
            forall|w: u64, i: usize, j: usize| export.requires((w, i, j)),
        ensures
            r == Err::<(), SliceError>(SliceError::Empty) <==> self.window().0
                == self.window().1,
            r == Err::<(), SliceError>(SliceError::OutsideWindow) <==> self.window().0
                != self.window().1 && !(self.window().0 <= q2_slice < self.window().1),
            r == Err::<(), SliceError>(SliceError::BufferTooLong) <==> self.window().0
                <= q2_slice < self.window().1 && old(grid).len() > self.params().x1().bins()
                * self.params().x2().bins(),
            r is Err ==> final(grid)@ == old(grid)@,
            r is Ok ==> final(grid).len() == old(grid).len(),
            r is Ok ==> forall|index: int|
                0 <= index < old(grid).len() ==> export.ensures(
                    (
                        self.cell(
                            q2_slice as int,
                            index / (self.params().x2().bins() as int),
                            index % (self.params().x2().bins() as int),
                        ),
                        (index / (self.params().x2().bins() as int)) as usize,
                        (index % (self.params().x2().bins() as int)) as usize,
                    ),
                    #[trigger] final(grid)[index],
                ),
    {
        proof {
            use_type_invariant(self);
        }
        match &self.grid {
            None => Err(SliceError::Empty),
            Some(g) => {
                if q2_slice < self.itaumin || q2_slice >= self.itaumax {
                    return Err(SliceError::OutsideWindow);
                }
                let ny1: usize = self.params.x1().bins();
                let ny2: usize = self.params.x2().bins();
                assert(ny1 * ny2 <= isize::MAX) by (nonlinear_arith)
                    requires
                        8 * self.params.q2().bins() * ny1 * ny2 <= isize::MAX,
                        self.params.q2().bins() >= 1,
                        ny1 >= 0,
                        ny2 >= 0,
                ;
                let len: usize = grid.len();
                if len > ny1 * ny2 {
                    return Err(SliceError::BufferTooLong);
                }
                let row: usize = q2_slice - self.itaumin;
                for index in 0..len
                    invariant
                        self.grid == Some(*g),
                        row == q2_slice - self.itaumin,
                        self.itaumin <= q2_slice < self.itaumax,
                        ny1 == self.params.x1().bins(),
                        ny2 == self.params.x2().bins(),
                        ny2 > 0,
                        len <= ny1 * ny2,
                        grid.len() == len,
                        old(grid).len() == len,
                        node_array_shape(*g) == (
                            (self.itaumax - self.itaumin) as nat,
                            ny1 as nat,
                            ny2 as nat,
                        ),
                        forall|w: u64, i: usize, j: usize| export.requires((w, i, j)),
                        forall|n: int|
                            0 <= n < index ==> export.ensures(
                                (
                                    self.cell(q2_slice as int, n / (ny2 as int), n % (ny2 as int)),
                                    (n / (ny2 as int)) as usize,
                                    (n % (ny2 as int)) as usize,
                                ),
                                #[trigger] grid[n],
                            ),
                {
                    let ix1: usize = index / ny2;
                    let ix2: usize = index % ny2;
                    assert(ix1 < ny1) by (nonlinear_arith)
                        requires
                            ix1 == index / ny2,
                            index < ny1 * ny2,
                            ny2 > 0,
                    ;
                    let weight: u64 = g.get(row, ix1, ix2);
                    let value: u64 = export(weight, ix1, ix2);
                    grid[index] = value;
                }
                Ok(())
            },
        }
    }

    /// Is `after` what merging `b` into `a` makes of `a`, with `combine` to
    /// add weights? The parameters stay and the window is the hull of the
    /// two windows. Where `a` has no storage, every weight is that of `b`.
    /// Otherwise the weight on each node inside the window of `b` is what
    /// `combine` gives for the weights in `a` and in `b`, and every other
    /// weight is that of `a`.
    pub open spec fn merges<F: Fn(u64, u64) -> u64>(
        a: Self,
        b: Self,
        after: Self,
        combine: &F,
    ) -> bool {
        &&& after.params() == a.params()
        &&& after.window() == hull(a.window(), b.window())
        &&& if a.window().0 == a.window().1 {
            forall|itau: int, ix1: int, ix2: int| #[trigger]
                after.cell(itau, ix1, ix2) == b.cell(itau, ix1, ix2)
        } else {
            &&& forall|itau: int, ix1: int, ix2: int|
                b.materialized(itau, ix1, ix2) ==> combine.ensures(
                    (a.cell(itau, ix1, ix2), b.cell(itau, ix1, ix2)),
                    #[trigger] after.cell(itau, ix1, ix2),
                )
            &&& forall|itau: int, ix1: int, ix2: int|
                !b.materialized(itau, ix1, ix2) ==> #[trigger] after.cell(itau, ix1, ix2)
                    == a.cell(itau, ix1, ix2)
        }
    }

    /// Merges `other` into `self`.
    ///
    /// Only another subgrid of this kind that was made with the same
    /// parameters is merged. Where `self` has no storage it takes that of
    /// `other`, which is left without. Otherwise `other` stays as it is, the
    /// window of `self` grows to hold both windows, and on each node inside
    /// the window of `other` the weight becomes what `combine` gives for the
    /// weight in `self` and the weight in `other`.
    pub fn merge<F: Fn(u64, u64) -> u64>(&mut self, other: &mut SubgridEnum, combine: &F) -> (r:
        Result<(), MergeError>)
        requires
            forall|a: u64, b: u64| combine.requires((a, b)),
        ensures
            r == Err::<(), MergeError>(MergeError::UnsupportedCombination) <==> !(*old(other)
                is LagrangeSubgridV1),
            r == Err::<(), MergeError>(MergeError::ParameterMismatch) <==> (
            *old(other) matches SubgridEnum::LagrangeSubgridV1(o) && o.params() != old(self).params()),
            r is Err ==> *final(self) == *old(self) && *final(other) == *old(other),
            r is Ok ==> (*old(other) matches SubgridEnum::LagrangeSubgridV1(o) ==> {
                &&& Self::merges(*old(self), o, *final(self), combine)
                &&& if old(self).window().0 == old(self).window().1 {
                    *final(other) matches SubgridEnum::LagrangeSubgridV1(e) && e.params()
                        == o.params() && e.window() == (0int, 0int) && forall|
                        itau: int,
                        ix1: int,
                        ix2: int,
                    | #[trigger] e.cell(itau, ix1, ix2) == 0
                } else {
                    *final(other) == *old(other)
                }
            }),
    {
        match other {
            SubgridEnum::LagrangeSubgridV1(other_grid) => {
                proof {
                    use_type_invariant(&*self);
                    use_type_invariant(&*other_grid);
                }
                if self.params != other_grid.params {
                    return Err(MergeError::ParameterMismatch);
                }
                if other_grid.grid.is_none() {
                    return Ok(());
                }
                if self.grid.is_none() {
                    let taken = other_grid.release();
                    *self = taken;
                    return Ok(());
                }
                let this = self.release();
                let LagrangeSubgridV1 { grid, params, itaumin, itaumax } = this;
                let other_itaumin: usize = other_grid.itaumin;
                let other_itaumax: usize = other_grid.itaumax;
                let ny1: usize = params.x1().bins();
                let ny2: usize = params.x2().bins();
                let new_itaumin: usize = if other_itaumin < itaumin {
                    other_itaumin
                } else {
                    itaumin
                };
                let new_itaumax: usize = if other_itaumax > itaumax {
                    other_itaumax
                } else {
                    itaumax
                };
                let offset: usize = other_itaumin - new_itaumin;
                let rows: usize = other_itaumax - other_itaumin;
                assert(8 * (new_itaumax - new_itaumin) * ny1 * ny2 <= isize::MAX)
                    by (nonlinear_arith)
                    requires
                        0 <= new_itaumax - new_itaumin <= params.q2().bins(),
                        8 * params.q2().bins() * ny1 * ny2 <= isize::MAX,
                ;
                let self_grid = grid.unwrap();
                let mut g = if itaumin != new_itaumin || itaumax != new_itaumax {
                    Self::increase_tau(
                        &self_grid,
                        itaumin,
                        itaumax,
                        new_itaumin,
                        new_itaumax,
                        ny1,
                        ny2,
                    )
                } else {
                    self_grid
                };
                let ghost before = g;
                let o: &NodeArray = other_grid.grid.as_ref().unwrap();
                for i in 0..rows
                    invariant
                        offset + rows <= new_itaumax - new_itaumin,
                        forall|a: u64, b: u64| combine.requires((a, b)),
                        node_array_shape(*o) == (rows as nat, ny1 as nat, ny2 as nat),
                        node_array_shape(before) == (
                            (new_itaumax - new_itaumin) as nat,
                            ny1 as nat,
                            ny2 as nat,
                        ),
                        node_array_shape(g) == node_array_shape(before),
                        forall|a: int, b: int, c: int|
                            g.has(a, b, c) && !(offset <= a < offset + i) ==> #[trigger] g.at(
                                a,
                                b,
                                c,
                            ) == before.at(a, b, c),
                        forall|a: int, b: int, c: int|
                            g.has(a, b, c) && offset <= a < offset + i ==> combine.ensures(
                                (before.at(a, b, c), o.at(a - offset, b, c)),
                                #[trigger] g.at(a, b, c),
                            ),
                {
                    for j in 0..ny1
                        invariant
                            i < rows,
                            offset + rows <= new_itaumax - new_itaumin,
                            forall|a: u64, b: u64| combine.requires((a, b)),
                            node_array_shape(*o) == (rows as nat, ny1 as nat, ny2 as nat),
                            node_array_shape(before) == (
                                (new_itaumax - new_itaumin) as nat,
                                ny1 as nat,
                                ny2 as nat,
                            ),
                            node_array_shape(g) == node_array_shape(before),
                            forall|a: int, b: int, c: int|
                                g.has(a, b, c) && !(offset <= a && precedes(
                                    a - offset,
                                    b,
                                    c,
                                    i as int,
                                    j as int,
                                    0,
                                )) ==> #[trigger] g.at(a, b, c) == before.at(a, b, c),
                            forall|a: int, b: int, c: int|
                                g.has(a, b, c) && offset <= a && precedes(
                                    a - offset,
                                    b,
                                    c,
                                    i as int,
                                    j as int,
                                    0,
                                ) ==> combine.ensures(
                                    (before.at(a, b, c), o.at(a - offset, b, c)),
                                    #[trigger] g.at(a, b, c),
                                ),
                    {
                        for k in 0..ny2
                            invariant
                                i < rows,
                                j < ny1,
                                offset + rows <= new_itaumax - new_itaumin,
                                forall|a: u64, b: u64| combine.requires((a, b)),
                                node_array_shape(*o) == (rows as nat, ny1 as nat, ny2 as nat),
                                node_array_shape(before) == (
                                    (new_itaumax - new_itaumin) as nat,
                                    ny1 as nat,
                                    ny2 as nat,
                                ),
                                node_array_shape(g) == node_array_shape(before),
                                forall|a: int, b: int, c: int|
                                    g.has(a, b, c) && !(offset <= a && precedes(
                                        a - offset,
                                        b,
                                        c,
                                        i as int,
                                        j as int,
                                        k as int,
                                    )) ==> #[trigger] g.at(a, b, c) == before.at(a, b, c),
                                forall|a: int, b: int, c: int|
                                    g.has(a, b, c) && offset <= a && precedes(
                                        a - offset,
                                        b,
                                        c,
                                        i as int,
                                        j as int,
                                        k as int,
                                    ) ==> combine.ensures(
                                        (before.at(a, b, c), o.at(a - offset, b, c)),
                                        #[trigger] g.at(a, b, c),
                                    ),
                        {
                            let mine: u64 = g.get(i + offset, j, k);
                            let theirs: u64 = o.get(i, j, k);
                            let sum: u64 = combine(mine, theirs);
                            g.set(i + offset, j, k, sum);
                        }
                    }
                }
                *self = LagrangeSubgridV1 {
                    grid: Some(g),
                    params,
                    itaumin: new_itaumin,
                    itaumax: new_itaumax,
                };
                Ok(())
            },
            _ => Err(MergeError::UnsupportedCombination),
        }
    }

    /// Is `after` what dropping the rows without weight at both ends of the
    /// window makes of `before`? The parameters stay. The window shrinks to
    /// the scale nodes from the first to the last that hold a weight other
    /// than zero, or to nothing where there is none. Inside of it every
    /// weight stays, and every node that is dropped from it held zero.
    pub open spec fn optimized(before: Self, after: Self) -> bool {
        &&& after.params() == before.params()
        &&& after.window() == (0int, 0int) || (before.window().0 <= after.window().0
            < after.window().1 <= before.window().1)
        &&& forall|itau: int, ix1: int, ix2: int|
            after.materialized(itau, ix1, ix2) ==> #[trigger] after.cell(itau, ix1, ix2)
                == before.cell(itau, ix1, ix2)
        &&& forall|itau: int, ix1: int, ix2: int|
            !after.materialized(itau, ix1, ix2) ==> is_zero(
                #[trigger] before.cell(itau, ix1, ix2),
            )
        &&& after.window().0 < after.window().1 ==> after.holds_weight(after.window().0)
            && after.holds_weight(after.window().1 - 1)
    }

    /// Does some node of the scale node `itau` hold a weight other than
    /// zero?
    pub open spec fn holds_weight(self, itau: int) -> bool {
        exists|ix1: int, ix2: int|
            self.materialized(itau, ix1, ix2) && !is_zero(#[trigger] self.cell(itau, ix1, ix2))
    }

    /// Is every word of the row `i` of `grid` a zero?
    fn row_is_zero(grid: &NodeArray, i: usize, ny1: usize, ny2: usize) -> (r: bool)
        requires
            i < node_array_shape(*grid).0,
            node_array_shape(*grid).1 == ny1,
            node_array_shape(*grid).2 == ny2,
        ensures
            r <==> forall|j: int, k: int|
                0 <= j < ny1 && 0 <= k < ny2 ==> is_zero(#[trigger] grid.at(i as int, j, k)),
    {
        for j in 0..ny1
            invariant
                i < node_array_shape(*grid).0,
                node_array_shape(*grid).1 == ny1,
                node_array_shape(*grid).2 == ny2,
                forall|a: int, b: int|
                    0 <= a < j && 0 <= b < ny2 ==> is_zero(#[trigger] grid.at(i as int, a, b)),
        {
            for k in 0..ny2
                invariant
                    j < ny1,
                    i < node_array_shape(*grid).0,
                    node_array_shape(*grid).1 == ny1,
                    node_array_shape(*grid).2 == ny2,
                    forall|a: int, b: int|
                        0 <= a < j && 0 <= b < ny2 ==> is_zero(#[trigger] grid.at(i as int, a, b)),
                    forall|b: int| 0 <= b < k ==> is_zero(#[trigger] grid.at(i as int, j as int, b)),
            {
                if !weight_is_zero(grid.get(i, j, k)) {
                    return false;
                }
            }
        }
        true
    }

    /// A copy of the rows `[first, end)` of `grid`.
    fn rows(grid: &NodeArray, first: usize, end: usize, ny1: usize, ny2: usize) -> (r: NodeArray)
        requires
            first < end <= node_array_shape(*grid).0,
            ny1 > 0,
            ny2 > 0,
            node_array_shape(*grid).1 == ny1,
            node_array_shape(*grid).2 == ny2,
            8 * (end - first) * ny1 * ny2 <= isize::MAX,
        ensures
            node_array_shape(r) == ((end - first) as nat, ny1 as nat, ny2 as nat),
            forall|a: int, b: int, c: int|
                r.has(a, b, c) ==> #[trigger] r.at(a, b, c) == grid.at(a + first, b, c),
    {
        let count: usize = end - first;
        let mut copy = NodeArray::zeros(count, ny1, ny2);
        for i in 0..count
            invariant
                first + count == end,
                end <= node_array_shape(*grid).0,
                node_array_shape(*grid).1 == ny1,
                node_array_shape(*grid).2 == ny2,
                node_array_shape(copy) == (count as nat, ny1 as nat, ny2 as nat),
                forall|a: int, b: int, c: int|
                    copy.has(a, b, c) && a < i ==> #[trigger] copy.at(a, b, c) == grid.at(
                        a + first,
                        b,
                        c,
                    ),
        {
            for j in 0..ny1
                invariant
                    i < count,
                    first + count == end,
                    end <= node_array_shape(*grid).0,
                    node_array_shape(*grid).1 == ny1,
                    node_array_shape(*grid).2 == ny2,
                    node_array_shape(copy) == (count as nat, ny1 as nat, ny2 as nat),
                    forall|a: int, b: int, c: int|
                        copy.has(a, b, c) && precedes(a, b, c, i as int, j as int, 0)
                            ==> #[trigger] copy.at(a, b, c) == grid.at(a + first, b, c),
            {
                for k in 0..ny2
                    invariant
                        i < count,
                        j < ny1,
                        first + count == end,
                        end <= node_array_shape(*grid).0,
                        node_array_shape(*grid).1 == ny1,
                        node_array_shape(*grid).2 == ny2,
                        node_array_shape(copy) == (count as nat, ny1 as nat, ny2 as nat),
                        forall|a: int, b: int, c: int|
                            copy.has(a, b, c) && precedes(a, b, c, i as int, j as int, k as int)
                                ==> #[trigger] copy.at(a, b, c) == grid.at(a + first, b, c),
                {
                    let weight: u64 = grid.get(i + first, j, k);
                    copy.set(i, j, k, weight);
                }
            }
        }
        copy
    }

    /// Makes the storage as small as it can be without a change of what
    /// [`Self::convolute`] returns: the rows at both ends of the window
    /// that hold no weight are dropped, and the storage as a whole where no
    /// node holds a weight.
    pub fn optimize(&mut self)
        ensures
            Self::optimized(*old(self), *final(self)),
    {
        let this = self.release();
        proof {
            use_type_invariant(&this);
        }
        let LagrangeSubgridV1 { grid, params, itaumin, itaumax } = this;
        let ny1: usize = params.x1().bins();
        let ny2: usize = params.x2().bins();
        let g = match grid {
            Some(g) => g,
            None => {
                return ;
            },
        };
        let count: usize = itaumax - itaumin;
        let mut first: usize = 0;
        while first < count && Self::row_is_zero(&g, first, ny1, ny2)
            invariant
                first <= count,
                node_array_shape(g) == (count as nat, ny1 as nat, ny2 as nat),
                forall|i: int, j: int, k: int|
                    0 <= i < first && 0 <= j < ny1 && 0 <= k < ny2 ==> is_zero(
                        #[trigger] g.at(i, j, k),
                    ),
            decreases count - first,
        {
            first += 1;
        }
        if first == count {
            return ;
        }
        let mut end: usize = count;
        while end > first + 1 && Self::row_is_zero(&g, end - 1, ny1, ny2)
            invariant
                first < end <= count,
                node_array_shape(g) == (count as nat, ny1 as nat, ny2 as nat),
                forall|i: int, j: int, k: int|
                    end <= i < count && 0 <= j < ny1 && 0 <= k < ny2 ==> is_zero(
                        #[trigger] g.at(i, j, k),
                    ),
            decreases end,
        {
            end -= 1;
        }
        assert(8 * (end - first) * ny1 * ny2 <= isize::MAX) by (nonlinear_arith)
            requires
                0 <= end - first <= params.q2().bins(),
                8 * params.q2().bins() * ny1 * ny2 <= isize::MAX,
        ;
        let kept = if first == 0 && end == count {
            g
        } else {
            Self::rows(&g, first, end, ny1, ny2)
        };
        *self = LagrangeSubgridV1 {
            grid: Some(kept),
            params,
            itaumin: itaumin + first,
            itaumax: itaumin + end,
        };
        proof {
            let after = *self;
            let lo = itaumin + first;
            let hi = itaumin + end;
            assert(!(forall|j: int, k: int|
                0 <= j < ny1 && 0 <= k < ny2 ==> is_zero(#[trigger] g.at(first as int, j, k))));
            let (j0, k0) = choose|j: int, k: int|
                0 <= j < ny1 && 0 <= k < ny2 && !is_zero(#[trigger] g.at(first as int, j, k));
            assert(after.materialized(lo as int, j0, k0) && !is_zero(
                after.cell(lo as int, j0, k0),
            ));
            if end > first + 1 {
                assert(!(forall|j: int, k: int|
                    0 <= j < ny1 && 0 <= k < ny2 ==> is_zero(
                        #[trigger] g.at(end - 1, j, k),
                    )));
                let (j1, k1) = choose|j: int, k: int|
                    0 <= j < ny1 && 0 <= k < ny2 && !is_zero(#[trigger] g.at(end - 1, j, k));
                assert(after.materialized(hi - 1, j1, k1) && !is_zero(after.cell(hi - 1, j1, k1)));
            } else {
                assert(after.materialized(hi - 1, j0, k0) && !is_zero(after.cell(hi - 1, j0, k0)));
            }
        }
    }

    /// The weights of every node of the window, the second momentum-fraction
    /// index running fastest and the scale node slowest; nothing for a
    /// subgrid without storage.
    pub fn weights(&self) -> (r: Vec<u64>)
        ensures
            r@.len() == (self.window().1 - self.window().0) * self.params().x1().bins()
                * self.params().x2().bins(),
            forall|n: int|
                0 <= n < r@.len() ==> #[trigger] r@[n] == ({
                    let at = unflatten(
                        n,
                        self.params().x1().bins() as int,
                        self.params().x2().bins() as int,
                    );
                    self.cell(self.window().0 + at.0, at.1, at.2)
                }),
    {
        proof {
            use_type_invariant(self);
        }
        let mut r: Vec<u64> = Vec::new();
        match &self.grid {
            None => {
                assert(0 * self.params.x1().bins() * self.params.x2().bins() == 0);
            },
            Some(g) => {
                let rows: usize = self.itaumax - self.itaumin;
                let ny1: usize = self.params.x1().bins();
                let ny2: usize = self.params.x2().bins();
                assert(rows * ny1 * ny2 <= isize::MAX && rows * ny1 <= isize::MAX && ny1 * ny2
                    <= isize::MAX && ny1 * ny2 > 0) by (nonlinear_arith)
                    requires
                        8 * self.params.q2().bins() * ny1 * ny2 <= isize::MAX,
                        0 < rows <= self.params.q2().bins(),
                        ny1 > 0,
                        ny2 > 0,
                ;
                let slice: usize = ny1 * ny2;
                let total: usize = rows * ny1 * ny2;
                for n in 0..total
                    invariant
                        self.grid == Some(*g),
                        rows == self.itaumax - self.itaumin,
                        ny1 == self.params.x1().bins(),
                        ny2 == self.params.x2().bins(),
                        ny1 > 0,
                        ny2 > 0,
                        slice == ny1 * ny2,
                        total == rows * ny1 * ny2,
                        node_array_shape(*g) == (rows as nat, ny1 as nat, ny2 as nat),
                        r@.len() == n,
                        forall|m: int|
                            0 <= m < n ==> #[trigger] r@[m] == ({
                                let at = unflatten(m, ny1 as int, ny2 as int);
                                self.cell(self.itaumin + at.0, at.1, at.2)
                            }),
                {
                    proof {
                        lemma_unflatten(n as int, ny1 as int, ny2 as int);
                        assert(rows * ny1 * ny2 == (ny1 * ny2) * rows) by (nonlinear_arith);
                        lemma_multiply_divide_lt(n as int, (ny1 * ny2) as int, rows as int);
                    }
                    let i: usize = n / slice;
                    let j: usize = (n / ny2) % ny1;
                    let k: usize = n % ny2;
                    r.push(g.get(i, j, k));
                }
            },
        }
        r
    }

    /// The subgrid with the parameters `subgrid_params` and the window
    /// `[itaumin, itaumax)` whose weights are listed in `weights`, the
    /// second momentum-fraction index running fastest and the scale node
    /// slowest. No weights give a subgrid without storage. Any other number
    /// of them gives a subgrid only where the window is not empty, lies on
    /// the scale axis, and has that many nodes.
    pub fn from_weights(
        subgrid_params: &SubgridParams,
        itaumin: usize,
        itaumax: usize,
        weights: &[u64],
    ) -> (r: Option<Self>)
        ensures
            r is Some <==> weights.len() == 0 || (itaumin < itaumax
                <= subgrid_params.q2().bins() && weights.len() == (itaumax - itaumin)
                * subgrid_params.x1().bins() * subgrid_params.x2().bins()),
            r matches Some(grid) ==> {
                &&& grid.params() == *subgrid_params
                &&& grid.window() == (if weights.len() == 0 {
                    (0int, 0int)
                } else {
                    (itaumin as int, itaumax as int)
                })
                &&& forall|n: int|
                    0 <= n < weights.len() ==> #[trigger] weights[n] == ({
                        let at = unflatten(
                            n,
                            subgrid_params.x1().bins() as int,
                            subgrid_params.x2().bins() as int,
                        );
                        grid.cell(itaumin + at.0, at.1, at.2)
                    })
            },
    {
        proof {
            use_type_invariant(subgrid_params);
        }
        let total: usize = weights.len();
        if total == 0 {
            return Some(Self::new(subgrid_params));
        }
        if itaumin >= itaumax || itaumax > subgrid_params.q2().bins() {
            return None;
        }
        let rows: usize = itaumax - itaumin;
        let ny1: usize = subgrid_params.x1().bins();
        let ny2: usize = subgrid_params.x2().bins();
        assert(8 * rows * ny1 * ny2 <= isize::MAX && rows * ny1 * ny2 <= isize::MAX && rows * ny1
            <= isize::MAX && ny1 * ny2 <= isize::MAX && ny1 * ny2 > 0) by (nonlinear_arith)
            requires
                8 * subgrid_params.q2().bins() * ny1 * ny2 <= isize::MAX,
                0 < rows <= subgrid_params.q2().bins(),
                ny1 > 0,
                ny2 > 0,
        ;
        if total != rows * ny1 * ny2 {
            return None;
        }
        let slice: usize = ny1 * ny2;
        let mut g = NodeArray::zeros(rows, ny1, ny2);
        for n in 0..total
            invariant
                ny1 > 0,
                ny2 > 0,
                slice == ny1 * ny2,
                total == rows * ny1 * ny2,
                total == weights.len(),
                node_array_shape(g) == (rows as nat, ny1 as nat, ny2 as nat),
                forall|m: int|
                    0 <= m < n ==> #[trigger] weights[m] == ({
                        let at = unflatten(m, ny1 as int, ny2 as int);
                        g.at(at.0, at.1, at.2)
                    }),
        {
            proof {
                lemma_unflatten(n as int, ny1 as int, ny2 as int);
                assert(rows * ny1 * ny2 == (ny1 * ny2) * rows) by (nonlinear_arith);
                lemma_multiply_divide_lt(n as int, (ny1 * ny2) as int, rows as int);
                assert forall|m: int| 0 <= m < n implies unflatten(m, ny1 as int, ny2 as int)
                    != unflatten(n as int, ny1 as int, ny2 as int) by {
                    lemma_unflatten(m, ny1 as int, ny2 as int);
                }
            }
            let i: usize = n / slice;
            let j: usize = (n / ny2) % ny1;
            let k: usize = n % ny2;
            g.set(i, j, k, weights[n]);
        }
        let r = LagrangeSubgridV1 { grid: Some(g), params: *subgrid_params, itaumin, itaumax };
        assert forall|n: int| 0 <= n < weights.len() implies #[trigger] weights[n] == ({
            let at = unflatten(n, ny1 as int, ny2 as int);
            r.cell(itaumin + at.0, at.1, at.2)
        }) by {
            lemma_unflatten(n, ny1 as int, ny2 as int);
            assert(rows * ny1 * ny2 == (ny1 * ny2) * rows) by (nonlinear_arith);
            lemma_multiply_divide_lt(n, (ny1 * ny2) as int, rows as int);
        }
        Some(r)
    }

    /// A node outside the window carries no weight.
    pub proof fn lemma_zero_outside_window(self, itau: int, ix1: int, ix2: int)
        requires
            !self.materialized(itau, ix1, ix2),
        ensures
            self.cell(itau, ix1, ix2) == 0,
    {
    }

    /// The window is `(0, 0)` or a range of scale nodes of the axis that is
    /// not empty, and every axis has room for a stencil.
    pub proof fn lemma_window_on_axis(self)
        requires
            self.well_formed(),
        ensures
            self.window() == (0int, 0int) || 0 <= self.window().0 < self.window().1
                <= self.params().q2().bins(),
            self.params().allocatable(),
    {
    }

    /// Merging adds node by node: where `combine` computes `op`, and adding
    /// the pattern 0 on either side changes nothing, every node of the
    /// merged subgrid carries `op` of the weights that the two subgrids had
    /// on it.
    pub proof fn lemma_merge_adds_pointwise<F: Fn(u64, u64) -> u64>(
        a: Self,
        b: Self,
        after: Self,
        combine: &F,
        op: spec_fn(u64, u64) -> u64,
    )
        requires
            Self::merges(a, b, after, combine),
            a.params() == b.params(),
            forall|x: u64, y: u64, r: u64| #[trigger] combine.ensures((x, y), r) ==> r == op(x, y),
            forall|x: u64| #[trigger] op(x, 0) == x,
            forall|x: u64| #[trigger] op(0, x) == x,
        ensures
            forall|itau: int, ix1: int, ix2: int| #[trigger]
                after.cell(itau, ix1, ix2) == op(a.cell(itau, ix1, ix2), b.cell(itau, ix1, ix2)),
    {
        assert forall|itau: int, ix1: int, ix2: int| #[trigger]
            after.cell(itau, ix1, ix2) == op(
                a.cell(itau, ix1, ix2),
                b.cell(itau, ix1, ix2),
            ) by {
            if a.window().0 == a.window().1 {
                if !a.materialized(itau, ix1, ix2) {
                    a.lemma_zero_outside_window(itau, ix1, ix2);
                }
            } else if !b.materialized(itau, ix1, ix2) {
                b.lemma_zero_outside_window(itau, ix1, ix2);
            }
        }
    }

    /// Merging is commutative where adding weights is: for a `combine` that
    /// computes a commutative `op` for which the pattern 0 is neutral,
    /// merging `b` into `a` and merging `a` into `b` give the same window
    /// and the same weight on every node.
    pub proof fn lemma_merge_commutes<F: Fn(u64, u64) -> u64>(
        a: Self,
        b: Self,
        a_b: Self,
        b_a: Self,
        combine: &F,
        op: spec_fn(u64, u64) -> u64,
    )
        requires
            a.well_formed(),
            b.well_formed(),
            a.params() == b.params(),
            Self::merges(a, b, a_b, combine),
            Self::merges(b, a, b_a, combine),
            forall|x: u64, y: u64, r: u64| #[trigger] combine.ensures((x, y), r) ==> r == op(x, y),
            forall|x: u64| #[trigger] op(x, 0) == x,
            forall|x: u64| #[trigger] op(0, x) == x,
            forall|x: u64, y: u64| #[trigger] op(x, y) == op(y, x),
        ensures
            a_b.window() == b_a.window(),
            forall|itau: int, ix1: int, ix2: int| #[trigger]
                a_b.cell(itau, ix1, ix2) == b_a.cell(itau, ix1, ix2),
    {
        a.lemma_window_on_axis();
        b.lemma_window_on_axis();
        Self::lemma_merge_adds_pointwise(a, b, a_b, combine, op);
        Self::lemma_merge_adds_pointwise(b, a, b_a, combine, op);
    }

    /// Merging is associative where adding weights is: for a `combine` that
    /// computes an associative `op` for which the pattern 0 is neutral,
    /// merging `c` into the merger of `a` and `b`, and merging the merger of
    /// `b` and `c` into `a`, give the same window and the same weight on
    /// every node.
    pub proof fn lemma_merge_associates<F: Fn(u64, u64) -> u64>(
        a: Self,
        b: Self,
        c: Self,
        a_b: Self,
        ab_c: Self,
        b_c: Self,
        a_bc: Self,
        combine: &F,
        op: spec_fn(u64, u64) -> u64,
    )
        requires
            a.well_formed(),
            b.well_formed(),
            c.well_formed(),
            a.params() == b.params(),
            b.params() == c.params(),
            Self::merges(a, b, a_b, combine),
            Self::merges(a_b, c, ab_c, combine),
            Self::merges(b, c, b_c, combine),
            Self::merges(a, b_c, a_bc, combine),
            forall|x: u64, y: u64, r: u64| #[trigger] combine.ensures((x, y), r) ==> r == op(x, y),
            forall|x: u64| #[trigger] op(x, 0) == x,
            forall|x: u64| #[trigger] op(0, x) == x,
            forall|x: u64, y: u64, z: u64| #[trigger] op(op(x, y), z) == op(x, op(y, z)),
        ensures
            ab_c.window() == a_bc.window(),
            forall|itau: int, ix1: int, ix2: int| #[trigger]
                ab_c.cell(itau, ix1, ix2) == a_bc.cell(itau, ix1, ix2),
    {
        a.lemma_window_on_axis();
        b.lemma_window_on_axis();
        c.lemma_window_on_axis();
        Self::lemma_merge_adds_pointwise(a, b, a_b, combine, op);
        Self::lemma_merge_adds_pointwise(a_b, c, ab_c, combine, op);
        Self::lemma_merge_adds_pointwise(b, c, b_c, combine, op);
        Self::lemma_merge_adds_pointwise(a, b_c, a_bc, combine, op);
    }
}

} // verus!
