//! Why the rows without weight can be dropped.
//!
//! The convolution leaves a node whose weight is zero out. So it returns
//! the same for a subgrid and for what [`LagrangeSubgridV1::optimize`]
//! makes of it, whatever the closures compute.
use crate::lagrange_subgrid::{is_zero, LagrangeSubgridV1};
use either::Either;
use vstd::prelude::*;

verus! {

/// Does every node of the scale nodes `[first, end)` of `grid` hold zero?
pub open spec fn without_weight(grid: LagrangeSubgridV1, first: int, end: int) -> bool {
    forall|itau: int, ix1: int, ix2: int|
        first <= itau < end ==> is_zero(#[trigger] grid.cell(itau, ix1, ix2))
}

/// Inside a row without weight the sum stays what it was at the start of
/// the row.
proof fn lemma_row_without_weight<
    L: Fn(usize, usize, usize) -> u64,
    R: Fn(u64, u64, u64) -> u64,
    F: Fn(u64, u64, u64, usize, usize) -> u64,
>(
    grid: LagrangeSubgridV1,
    x1: Seq<u64>,
    x2: Seq<u64>,
    q2: Seq<u64>,
    lumi: Either<&L, &R>,
    accumulate: &F,
    itau: int,
    ix1: int,
    ix2: int,
    sum: u64,
)
    requires
        without_weight(grid, itau, itau + 1),
        0 <= ix1,
        0 <= ix2,
        grid.params().x2().bins() >= 1,
    ensures
        grid.summed_through(x1, x2, q2, lumi, accumulate, itau, ix1, ix2, sum)
            == grid.summed_before(x1, x2, q2, lumi, accumulate, itau, 0, 0, sum),
        grid.summed_before(x1, x2, q2, lumi, accumulate, itau, ix1, ix2, sum)
            == grid.summed_before(x1, x2, q2, lumi, accumulate, itau, 0, 0, sum),
    decreases ix1, ix2,
{
    let ny2 = grid.params().x2().bins() as int;
    assert(is_zero(grid.cell(itau, ix1, ix2)));
    if ix2 > 0 {
        lemma_row_without_weight(grid, x1, x2, q2, lumi, accumulate, itau, ix1, ix2 - 1, sum);
    } else if ix1 > 0 {
        lemma_row_without_weight(grid, x1, x2, q2, lumi, accumulate, itau, ix1 - 1, ny2 - 1, sum);
    }
    let before = grid.summed_before(x1, x2, q2, lumi, accumulate, itau, ix1, ix2, sum);
    let through = grid.summed_through(x1, x2, q2, lumi, accumulate, itau, ix1, ix2, sum);
    if through {
        let prev = choose|prev: u64|
            grid.summed_before(x1, x2, q2, lumi, accumulate, itau, ix1, ix2, prev)
                && #[trigger] grid.visited(
                x1,
                x2,
                q2,
                lumi,
                accumulate,
                itau,
                ix1,
                ix2,
                prev,
                sum,
            );
        assert(prev == sum);
    }
    if before {
        assert(grid.visited(x1, x2, q2, lumi, accumulate, itau, ix1, ix2, sum, sum));
    }
}

/// Over rows without weight the sum stays what it was before the first of
/// them.
proof fn lemma_rows_without_weight<
    L: Fn(usize, usize, usize) -> u64,
    R: Fn(u64, u64, u64) -> u64,
    F: Fn(u64, u64, u64, usize, usize) -> u64,
>(
    grid: LagrangeSubgridV1,
    x1: Seq<u64>,
    x2: Seq<u64>,
    q2: Seq<u64>,
    lumi: Either<&L, &R>,
    accumulate: &F,
    first: int,
    end: int,
    sum: u64,
)
    requires
        without_weight(grid, first, end),
        0 <= grid.window().0 <= first <= end,
        grid.params().x1().bins() >= 1,
        grid.params().x2().bins() >= 1,
    ensures
        grid.summed_before(x1, x2, q2, lumi, accumulate, end, 0, 0, sum) == grid.summed_before(
            x1,
            x2,
            q2,
            lumi,
            accumulate,
            first,
            0,
            0,
            sum,
        ),
    decreases end - first,
{
    if end > first {
        let ny1 = grid.params().x1().bins() as int;
        let ny2 = grid.params().x2().bins() as int;
        lemma_rows_without_weight(grid, x1, x2, q2, lumi, accumulate, first, end - 1, sum);
        lemma_row_without_weight(
            grid,
            x1,
            x2,
            q2,
            lumi,
            accumulate,
            end - 1,
            ny1 - 1,
            ny2 - 1,
            sum,
        );
    }
}

/// Is `(itau, ix1, ix2)` a node of the scale nodes `[lo, hi)`, or the place
/// behind the last of them?
pub open spec fn on_the_way(
    grid: LagrangeSubgridV1,
    lo: int,
    hi: int,
    itau: int,
    ix1: int,
    ix2: int,
) -> bool {
    &&& lo <= itau <= hi
    &&& 0 <= ix1 < grid.params().x1().bins()
    &&& 0 <= ix2 < grid.params().x2().bins()
    &&& itau < hi || (ix1 == 0 && ix2 == 0)
}

/// Two subgrids that hold the same weights on the nodes of the window of
/// the one build the same sums there, where the other has no weight before
/// that window.
proof fn lemma_same_sum_before<
    L: Fn(usize, usize, usize) -> u64,
    R: Fn(u64, u64, u64) -> u64,
    F: Fn(u64, u64, u64, usize, usize) -> u64,
>(
    wide: LagrangeSubgridV1,
    narrow: LagrangeSubgridV1,
    x1: Seq<u64>,
    x2: Seq<u64>,
    q2: Seq<u64>,
    lumi: Either<&L, &R>,
    accumulate: &F,
    itau: int,
    ix1: int,
    ix2: int,
    sum: u64,
)
    requires
        wide.params() == narrow.params(),
        wide.params().x1().bins() >= 1,
        wide.params().x2().bins() >= 1,
        0 <= wide.window().0 <= narrow.window().0 < narrow.window().1,
        without_weight(wide, wide.window().0, narrow.window().0),
        forall|i: int, j: int, k: int|
            narrow.materialized(i, j, k) ==> #[trigger] narrow.cell(i, j, k) == wide.cell(i, j, k),
        on_the_way(narrow, narrow.window().0, narrow.window().1, itau, ix1, ix2),
    ensures
        wide.summed_before(x1, x2, q2, lumi, accumulate, itau, ix1, ix2, sum)
            == narrow.summed_before(x1, x2, q2, lumi, accumulate, itau, ix1, ix2, sum),
    decreases itau, ix1, ix2, 0int,
{
    let ny1 = wide.params().x1().bins() as int;
    let ny2 = wide.params().x2().bins() as int;
    if ix2 > 0 {
        lemma_same_sum_through(wide, narrow, x1, x2, q2, lumi, accumulate, itau, ix1, ix2 - 1, sum);
    } else if ix1 > 0 {
        lemma_same_sum_through(
            wide,
            narrow,
            x1,
            x2,
            q2,
            lumi,
            accumulate,
            itau,
            ix1 - 1,
            ny2 - 1,
            sum,
        );
    } else if itau > narrow.window().0 {
        lemma_same_sum_through(
            wide,
            narrow,
            x1,
            x2,
            q2,
            lumi,
            accumulate,
            itau - 1,
            ny1 - 1,
            ny2 - 1,
            sum,
        );
    } else {
        lemma_rows_without_weight(
            wide,
            x1,
            x2,
            q2,
            lumi,
            accumulate,
            wide.window().0,
            narrow.window().0,
            sum,
        );
    }
}

/// Two subgrids that hold the same weights on the nodes of the window of
/// the one build the same sums there, through a node as before it.
proof fn lemma_same_sum_through<
    L: Fn(usize, usize, usize) -> u64,
    R: Fn(u64, u64, u64) -> u64,
    F: Fn(u64, u64, u64, usize, usize) -> u64,
>(
    wide: LagrangeSubgridV1,
    narrow: LagrangeSubgridV1,
    x1: Seq<u64>,
    x2: Seq<u64>,
    q2: Seq<u64>,
    lumi: Either<&L, &R>,
    accumulate: &F,
    itau: int,
    ix1: int,
    ix2: int,
    sum: u64,
)
    requires
        wide.params() == narrow.params(),
        wide.params().x1().bins() >= 1,
        wide.params().x2().bins() >= 1,
        0 <= wide.window().0 <= narrow.window().0 < narrow.window().1,
        without_weight(wide, wide.window().0, narrow.window().0),
        forall|i: int, j: int, k: int|
            narrow.materialized(i, j, k) ==> #[trigger] narrow.cell(i, j, k) == wide.cell(i, j, k),
        narrow.materialized(itau, ix1, ix2),
    ensures
        wide.summed_through(x1, x2, q2, lumi, accumulate, itau, ix1, ix2, sum)
            == narrow.summed_through(x1, x2, q2, lumi, accumulate, itau, ix1, ix2, sum),
    decreases itau, ix1, ix2, 1int,
{
    assert(narrow.cell(itau, ix1, ix2) == wide.cell(itau, ix1, ix2));
    if wide.summed_through(x1, x2, q2, lumi, accumulate, itau, ix1, ix2, sum) {
        let prev = choose|prev: u64|
            wide.summed_before(x1, x2, q2, lumi, accumulate, itau, ix1, ix2, prev)
                && #[trigger] wide.visited(
                x1,
                x2,
                q2,
                lumi,
                accumulate,
                itau,
                ix1,
                ix2,
                prev,
                sum,
            );
        lemma_same_sum_before(wide, narrow, x1, x2, q2, lumi, accumulate, itau, ix1, ix2, prev);
        assert(narrow.visited(x1, x2, q2, lumi, accumulate, itau, ix1, ix2, prev, sum));
    }
    if narrow.summed_through(x1, x2, q2, lumi, accumulate, itau, ix1, ix2, sum) {
        let prev = choose|prev: u64|
            narrow.summed_before(x1, x2, q2, lumi, accumulate, itau, ix1, ix2, prev)
                && #[trigger] narrow.visited(
                x1,
                x2,
                q2,
                lumi,
                accumulate,
                itau,
                ix1,
                ix2,
                prev,
                sum,
            );
        lemma_same_sum_before(wide, narrow, x1, x2, q2, lumi, accumulate, itau, ix1, ix2, prev);
        assert(wide.visited(x1, x2, q2, lumi, accumulate, itau, ix1, ix2, prev, sum));
    }
}

/// Optimizing does not change the convolution: whatever the closures
/// compute, a result that the convolution of the subgrid can return is one
/// that the convolution of the optimized subgrid can return, and the other
/// way round.
pub proof fn lemma_optimize_keeps_convolution<
    L: Fn(usize, usize, usize) -> u64,
    R: Fn(u64, u64, u64) -> u64,
    F: Fn(u64, u64, u64, usize, usize) -> u64,
>(
    before: LagrangeSubgridV1,
    after: LagrangeSubgridV1,
    x1: Seq<u64>,
    x2: Seq<u64>,
    q2: Seq<u64>,
    lumi: Either<&L, &R>,
    accumulate: &F,
    result: u64,
)
    requires
        before.well_formed(),
        LagrangeSubgridV1::optimized(before, after),
    ensures
        before.summed_before(x1, x2, q2, lumi, accumulate, before.window().1, 0, 0, result)
            == after.summed_before(x1, x2, q2, lumi, accumulate, after.window().1, 0, 0, result),
{
    before.lemma_window_on_axis();
    let first = before.window().0;
    let end = before.window().1;
    let lo = after.window().0;
    let hi = after.window().1;
    if lo < hi {
        assert forall|i: int, j: int, k: int| first <= i < lo || hi <= i < end implies is_zero(
            #[trigger] before.cell(i, j, k),
        ) by {
            assert(!after.materialized(i, j, k));
        }
        lemma_rows_without_weight(before, x1, x2, q2, lumi, accumulate, hi, end, result);
        lemma_same_sum_before(before, after, x1, x2, q2, lumi, accumulate, hi, 0, 0, result);
    } else {
        assert forall|i: int, j: int, k: int| first <= i < end implies is_zero(
            #[trigger] before.cell(i, j, k),
        ) by {
            assert(!after.materialized(i, j, k));
        }
        lemma_rows_without_weight(before, x1, x2, q2, lumi, accumulate, first, end, result);
    }
}

} // verus!
