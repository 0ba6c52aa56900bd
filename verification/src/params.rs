//! What is fixed about a subgrid when it is made.
use vstd::prelude::*;

verus! {

/// The three axes of a subgrid.
#[derive(Clone, Copy, Debug, PartialEq, Eq, Structural)]
pub enum Axis {
    /// The axis of the first momentum fraction.
    X1,
    /// The axis of the second momentum fraction.
    X2,
    /// The scale axis.
    Q2,
}

/// One interpolation axis in its transformed variable: how many nodes it
/// has, the order of the interpolation along it, and the two ends of its
/// range as binary64 bit patterns.
#[derive(Clone, Copy, Debug, PartialEq, Eq, Structural)]
pub struct AxisParams {
    bins: usize,
    order: usize,
    min: u64,
    max: u64,
}

impl AxisParams {
    /// A full stencil of `order + 1` nodes fits on the axis.
    #[verifier::type_invariant]
    pub open spec fn stencil_fits(self) -> bool {
        self.bins() > self.order()
    }

    /// The number of nodes.
    pub closed spec fn spec_bins(self) -> usize {
        self.bins
    }

    /// The interpolation order.
    pub closed spec fn spec_order(self) -> usize {
        self.order
    }

    /// The lower end of the range.
    pub closed spec fn spec_min(self) -> u64 {
        self.min
    }

    /// The upper end of the range.
    pub closed spec fn spec_max(self) -> u64 {
        self.max
    }

    /// An axis of `bins` nodes interpolated at `order`, or `None` where a
    /// stencil of `order + 1` nodes would not fit on it.
    pub fn new(bins: usize, order: usize, min: u64, max: u64) -> (r: Option<AxisParams>)
        ensures
            r is Some <==> bins > order,
            r matches Some(a) ==> a.bins() == bins && a.order() == order && a.min() == min
                && a.max() == max,
    {
        if bins > order {
            Some(AxisParams { bins, order, min, max })
        } else {
            None
        }
    }

    /// The first node of the stencil for a coordinate that lies in the cell
    /// `cell`, the one between the nodes `cell` and `cell + 1`: the stencil
    /// is centred on the cell as far as the ends of the axis allow.
    pub open spec fn stencil_start_of(self, cell: int) -> int {
        let centred = cell - self.order() / 2;
        let last = self.bins() - 1 - self.order();
        if centred < 0 {
            0
        } else if centred > last {
            last
        } else {
            centred
        }
    }

    /// The first node of the stencil for a coordinate that lies in the cell
    /// `cell`. The stencil fits on the axis, and it holds the cell's node
    /// where the axis does.
    pub fn stencil_start(self, cell: usize) -> (k: usize)
        ensures
            k == self.stencil_start_of(cell as int),
            k + self.order() < self.bins(),
            cell < self.bins() ==> k <= cell <= k + self.order(),
    {
        proof {
            use_type_invariant(self);
        }
        let half: usize = self.order / 2;
        let last: usize = self.bins - 1 - self.order;
        if cell < half {
            0
        } else if cell - half > last {
            last
        } else {
            cell - half
        }
    }

    /// The number of nodes.
    #[verifier::when_used_as_spec(spec_bins)]
    pub fn bins(self) -> (r: usize)
        ensures
            r == self.bins(),
            r > self.order(),
    {
        proof {
            use_type_invariant(self);
        }
        self.bins
    }

    /// The interpolation order.
    #[verifier::when_used_as_spec(spec_order)]
    pub fn order(self) -> (r: usize)
        ensures
            r == self.order(),
            r < self.bins(),
    {
        proof {
            use_type_invariant(self);
        }
        self.order
    }

    /// The lower end of the range.
    #[verifier::when_used_as_spec(spec_min)]
    pub fn min(self) -> (r: u64)
        ensures
            r == self.min(),
    {
        self.min
    }

    /// The upper end of the range.
    #[verifier::when_used_as_spec(spec_max)]
    pub fn max(self) -> (r: u64)
        ensures
            r == self.max(),
    {
        self.max
    }
}

/// The parameters of a subgrid: the scale axis, the two momentum-fraction
/// axes, and whether weights are flattened before they are interpolated.
#[derive(Clone, Copy, Debug, PartialEq, Eq, Structural)]
pub struct SubgridParams {
    q2: AxisParams,
    x1: AxisParams,
    x2: AxisParams,
    reweight: bool,
}

impl SubgridParams {
    /// Every axis takes a full stencil, and a grid with every scale node
    /// materialized can be allocated.
    #[verifier::type_invariant]
    pub open spec fn allocatable(self) -> bool {
        &&& self.q2().stencil_fits()
        &&& self.x1().stencil_fits()
        &&& self.x2().stencil_fits()
        &&& Self::full_size(self.q2(), self.x1(), self.x2()) <= isize::MAX
    }

    /// The scale axis.
    pub closed spec fn spec_q2(self) -> AxisParams {
        self.q2
    }

    /// The axis of the first momentum fraction.
    pub closed spec fn spec_x1(self) -> AxisParams {
        self.x1
    }

    /// The axis of the second momentum fraction.
    pub closed spec fn spec_x2(self) -> AxisParams {
        self.x2
    }

    /// Are weights flattened before they are interpolated?
    pub closed spec fn spec_reweight(self) -> bool {
        self.reweight
    }

    /// The bytes that the nodes of a fully materialized grid take, eight for
    /// each node.
    pub open spec fn full_size(q2: AxisParams, x1: AxisParams, x2: AxisParams) -> int {
        8 * q2.bins() * x1.bins() * x2.bins()
    }

    /// The parameters made of the three axes and the flag, or `None` where
    /// the nodes of a fully materialized grid would take more than
    /// `isize::MAX` bytes.
    pub fn new(q2: AxisParams, x1: AxisParams, x2: AxisParams, reweight: bool) -> (r: Option<
        SubgridParams,
    >)
        ensures
            r is Some <==> Self::full_size(q2, x1, x2) <= isize::MAX,
            r matches Some(p) ==> p.q2() == q2 && p.x1() == x1 && p.x2() == x2 && p.reweight()
                == reweight,
    {
        proof {
            use_type_invariant(q2);
            use_type_invariant(x1);
            use_type_invariant(x2);
        }
        let limit: usize = isize::MAX as usize;
        let a: usize = q2.bins;
        let b: usize = x1.bins;
        let c: usize = x2.bins;
        assert(a >= 1 && b >= 1 && c >= 1);
        match a.checked_mul(8) {
            None => {
                assert(8 * a * b * c > isize::MAX) by (nonlinear_arith)
                    requires
                        8 * a > usize::MAX,
                        b >= 1,
                        c >= 1,
                        usize::MAX >= isize::MAX,
                ;
                None
            },
            Some(ab8) => match ab8.checked_mul(b) {
                None => {
                    assert(8 * a * b * c > isize::MAX) by (nonlinear_arith)
                        requires
                            8 * a * b > usize::MAX,
                            c >= 1,
                            usize::MAX >= isize::MAX,
                    ;
                    None
                },
                Some(abc8) => match abc8.checked_mul(c) {
                    None => None,
                    Some(total) => {
                        if total <= limit {
                            Some(SubgridParams { q2, x1, x2, reweight })
                        } else {
                            None
                        }
                    },
                },
            },
        }
    }

    /// The scale axis.
    #[verifier::when_used_as_spec(spec_q2)]
    pub fn q2(self) -> (r: AxisParams)
        ensures
            r == self.q2(),
    {
        self.q2
    }

    /// The axis of the first momentum fraction.
    #[verifier::when_used_as_spec(spec_x1)]
    pub fn x1(self) -> (r: AxisParams)
        ensures
            r == self.x1(),
    {
        self.x1
    }

    /// The axis of the second momentum fraction.
    #[verifier::when_used_as_spec(spec_x2)]
    pub fn x2(self) -> (r: AxisParams)
        ensures
            r == self.x2(),
    {
        self.x2
    }

    /// Are weights flattened before they are interpolated?
    #[verifier::when_used_as_spec(spec_reweight)]
    pub fn reweight(self) -> (r: bool)
        ensures
            r == self.reweight(),
    {
        self.reweight
    }
}

} // verus!
