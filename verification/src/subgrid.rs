//! The closed set of storage strategies, and what can go wrong between them.
use crate::lagrange_subgrid::LagrangeSubgridV1;
use crate::ntuple_grid::NtupleSubgrid;
use vstd::prelude::*;

verus! {

/// A subgrid of any of the storage strategies.
pub enum SubgridEnum {
    /// Lagrange-interpolated weights on a windowed dense array.
    LagrangeSubgridV1(LagrangeSubgridV1),
    /// Every sample as it was given.
    NtupleSubgrid(NtupleSubgrid),
}

impl SubgridEnum {
    /// Can the two subgrids not be merged for their parameters, though
    /// they use the same storage strategy?
    pub open spec fn mismatch(self, other: Self) -> bool {
        match (self, other) {
            (
                SubgridEnum::LagrangeSubgridV1(a),
                SubgridEnum::LagrangeSubgridV1(b),
            ) => a.params() != b.params(),
            (SubgridEnum::NtupleSubgrid(a), SubgridEnum::NtupleSubgrid(b)) => !(a.bins()
                == b.bins() && a.lumi_len() == b.lumi_len() && a.order() == b.order()),
            _ => false,
        }
    }

    /// Is there no weight in the subgrid: no storage, or no sample?
    pub open spec fn empty(self) -> bool {
        match self {
            SubgridEnum::LagrangeSubgridV1(grid) => grid.window().0 == grid.window().1,
            SubgridEnum::NtupleSubgrid(grid) => forall|bin: int, lumi: int|
                0 <= bin < grid.bins() && 0 <= lumi < grid.lumi_len() ==> (#[trigger] grid.stored(
                    bin,
                    lumi,
                )).len() == 0,
        }
    }

    /// Is there no weight in the subgrid, as in one that was never filled?
    pub fn is_empty(&self) -> (r: bool)
        ensures
            r == self.empty(),
    {
        match self {
            SubgridEnum::LagrangeSubgridV1(grid) => grid.is_empty(),
            SubgridEnum::NtupleSubgrid(grid) => grid.is_empty(),
        }
    }

    /// Merges `other` into `self`, as [`LagrangeSubgridV1::merge`] and
    /// [`NtupleSubgrid::merge`] say. Two subgrids with different storage
    /// strategies cannot be combined.
    pub fn merge<F: Fn(u64, u64) -> u64>(&mut self, other: &mut SubgridEnum, combine: &F) -> (r:
        Result<(), MergeError>)
        requires
            forall|a: u64, b: u64| combine.requires((a, b)),
        ensures
            r == Err::<(), MergeError>(MergeError::UnsupportedCombination) <==> !((*old(self)
                is LagrangeSubgridV1 && *old(other) is LagrangeSubgridV1) || (*old(self)
                is NtupleSubgrid && *old(other) is NtupleSubgrid)),
            r == Err::<(), MergeError>(MergeError::ParameterMismatch) <==> old(self).mismatch(
                *old(other),
            ),
            r is Err ==> *final(self) == *old(self) && *final(other) == *old(other),
            r is Ok ==> match (*old(self), *old(other), *final(self), *final(other)) {
                (
                    SubgridEnum::LagrangeSubgridV1(a),
                    SubgridEnum::LagrangeSubgridV1(b),
                    SubgridEnum::LagrangeSubgridV1(after),
                    SubgridEnum::LagrangeSubgridV1(e),
                ) => {
                    &&& LagrangeSubgridV1::merges(a, b, after, combine)
                    &&& if a.window().0 == a.window().1 {
                        e.params() == b.params() && e.window() == (0int, 0int) && forall|
                            itau: int,
                            ix1: int,
                            ix2: int,
                        | #[trigger] e.cell(itau, ix1, ix2) == 0
                    } else {
                        e == b
                    }
                },
                (
                    SubgridEnum::NtupleSubgrid(a),
                    SubgridEnum::NtupleSubgrid(b),
                    SubgridEnum::NtupleSubgrid(after),
                    SubgridEnum::NtupleSubgrid(e),
                ) => NtupleSubgrid::merges(a, b, after) && e.emptied(b),
                _ => false,
            },
    {
        match self {
            SubgridEnum::LagrangeSubgridV1(grid) => grid.merge(other, combine),
            SubgridEnum::NtupleSubgrid(grid) => match other {
                SubgridEnum::NtupleSubgrid(other_grid) => grid.merge(other_grid),
                _ => Err(MergeError::UnsupportedCombination),
            },
        }
    }

    /// Makes the storage of the subgrid as small as it can be, as
    /// [`LagrangeSubgridV1::optimize`] says; a subgrid of samples stays as
    /// it is.
    pub fn optimize(&mut self)
        ensures
            match (*old(self), *final(self)) {
                (
                    SubgridEnum::LagrangeSubgridV1(before),
                    SubgridEnum::LagrangeSubgridV1(after),
                ) => LagrangeSubgridV1::optimized(before, after),
                (SubgridEnum::NtupleSubgrid(before), SubgridEnum::NtupleSubgrid(after)) => after
                    == before,
                _ => false,
            },
    {
        match self {
            SubgridEnum::LagrangeSubgridV1(grid) => grid.optimize(),
            SubgridEnum::NtupleSubgrid(_) => {},
        }
    }

    /// Scales every weight of the subgrid by `factor`, as
    /// [`LagrangeSubgridV1::scale`] and [`NtupleSubgrid::scale`] say.
    pub fn scale<F: Fn(u64, u64) -> u64>(&mut self, factor: u64, rescale: &F)
        requires
            forall|w: u64, f: u64| rescale.requires((w, f)),
        ensures
            match (*old(self), *final(self)) {
                (
                    SubgridEnum::LagrangeSubgridV1(before),
                    SubgridEnum::LagrangeSubgridV1(after),
                ) => LagrangeSubgridV1::scaled(before, after, factor, rescale),
                (
                    SubgridEnum::NtupleSubgrid(before),
                    SubgridEnum::NtupleSubgrid(after),
                ) => NtupleSubgrid::scaled(before, after, factor, rescale),
                _ => false,
            },
    {
        match self {
            SubgridEnum::LagrangeSubgridV1(grid) => grid.scale(factor, rescale),
            SubgridEnum::NtupleSubgrid(grid) => grid.scale(factor, rescale),
        }
    }
}

/// Why two subgrids were not merged.
#[derive(Clone, Copy, Debug, PartialEq, Eq, Structural)]
pub enum MergeError {
    /// The two subgrids use storage strategies that cannot be combined.
    UnsupportedCombination,
    /// The two subgrids were made with different parameters.
    ParameterMismatch,
}

/// Why a slice of a subgrid was not exported.
#[derive(Clone, Copy, Debug, PartialEq, Eq, Structural)]
pub enum SliceError {
    /// The subgrid has no storage.
    Empty,
    /// The scale node asked for is not inside the window.
    OutsideWindow,
    /// The buffer is longer than one slice.
    BufferTooLong,
}

} // verus!
