//! The subgrid in exact arithmetic.
//!
//! The subgrid leaves all arithmetic to closures, and says of each result
//! which closure calls can have made it. Here the closures are taken to
//! compute exactly: a function `value` tells which whole number a pattern
//! stands for, and each closure is taken to add or to multiply those
//! numbers. Then the convolution is a sum over the nodes of the window, and
//! scaling and merging are linear in it.
use crate::history::{filled_in_turn, sample_filled, Stencils};
use crate::lagrange_subgrid::{is_zero, luminosity_at, LagrangeSubgridV1};
use either::Either;
use vstd::prelude::*;

verus! {

/// Do both patterns of zero stand for the number zero?
pub open spec fn zero_is_zero(value: spec_fn(u64) -> int) -> bool {
    forall|w: u64| is_zero(w) ==> #[trigger] value(w) == 0
}

/// Does `accumulate` add the weight of a node times `term` of that node to
/// the sum, whatever the luminosity gives for the node?
pub open spec fn accumulates_exactly<
    L: Fn(usize, usize, usize) -> u64,
    R: Fn(u64, u64, u64) -> u64,
    F: Fn(u64, u64, u64, usize, usize) -> u64,
>(
    x1: Seq<u64>,
    x2: Seq<u64>,
    q2: Seq<u64>,
    lumi: Either<&L, &R>,
    accumulate: &F,
    value: spec_fn(u64) -> int,
    term: spec_fn(int, int, int) -> int,
) -> bool {
    forall|itau: int, ix1: int, ix2: int, l: u64, sum: u64, sigma: u64, r: u64|
        #![trigger
            luminosity_at(lumi, x1, x2, q2, itau, ix1, ix2, l),
            accumulate.ensures((sum, sigma, l, ix1 as usize, ix2 as usize), r)
        ]
        luminosity_at(lumi, x1, x2, q2, itau, ix1, ix2, l) && accumulate.ensures(
            (sum, sigma, l, ix1 as usize, ix2 as usize),
            r,
        ) ==> value(r) == value(sum) + value(sigma) * term(itau, ix1, ix2)
}

/// The sum of `weight` times `term` over every node that comes before
/// `(itau, ix1, ix2)`, where the nodes are walked from the scale node `lo`,
/// the second momentum-fraction index running fastest, and the two
/// momentum-fraction axes have `ny1` and `ny2` nodes.
pub open spec fn sum_before(
    weight: spec_fn(int, int, int) -> int,
    term: spec_fn(int, int, int) -> int,
    lo: int,
    ny1: int,
    ny2: int,
    itau: int,
    ix1: int,
    ix2: int,
) -> int
    decreases itau, ix1, ix2, 0int,
{
    if ix2 > 0 {
        sum_through(weight, term, lo, ny1, ny2, itau, ix1, ix2 - 1)
    } else if ix1 > 0 {
        sum_through(weight, term, lo, ny1, ny2, itau, ix1 - 1, ny2 - 1)
    } else if itau > lo && itau > 0 {
        sum_through(weight, term, lo, ny1, ny2, itau - 1, ny1 - 1, ny2 - 1)
    } else {
        0
    }
}

/// The sum of `weight` times `term` over every node up to `(itau, ix1,
/// ix2)`, and that node too.
pub open spec fn sum_through(
    weight: spec_fn(int, int, int) -> int,
    term: spec_fn(int, int, int) -> int,
    lo: int,
    ny1: int,
    ny2: int,
    itau: int,
    ix1: int,
    ix2: int,
) -> int
    decreases itau, ix1, ix2, 1int,
{
    sum_before(weight, term, lo, ny1, ny2, itau, ix1, ix2) + weight(itau, ix1, ix2) * term(
        itau,
        ix1,
        ix2,
    )
}

/// The number that the weight on each node of `grid` stands for.
pub open spec fn weight_of(grid: LagrangeSubgridV1, value: spec_fn(u64) -> int) -> spec_fn(
    int,
    int,
    int,
) -> int {
    |itau: int, ix1: int, ix2: int| value(grid.cell(itau, ix1, ix2))
}

/// The sum of the weight times `term` over every node of the window of
/// `grid` that comes before `(itau, ix1, ix2)`.
pub open spec fn total_before(
    grid: LagrangeSubgridV1,
    value: spec_fn(u64) -> int,
    term: spec_fn(int, int, int) -> int,
    itau: int,
    ix1: int,
    ix2: int,
) -> int {
    sum_before(
        weight_of(grid, value),
        term,
        grid.window().0,
        grid.params().x1().bins() as int,
        grid.params().x2().bins() as int,
        itau,
        ix1,
        ix2,
    )
}

/// The sum of the weight times `term` over every node of the window of
/// `grid` up to `(itau, ix1, ix2)`, and that node too.
pub open spec fn total_through(
    grid: LagrangeSubgridV1,
    value: spec_fn(u64) -> int,
    term: spec_fn(int, int, int) -> int,
    itau: int,
    ix1: int,
    ix2: int,
) -> int {
    sum_through(
        weight_of(grid, value),
        term,
        grid.window().0,
        grid.params().x1().bins() as int,
        grid.params().x2().bins() as int,
        itau,
        ix1,
        ix2,
    )
}

/// The sum of the weight times `term` over every node of the window of
/// `grid`.
pub open spec fn total(
    grid: LagrangeSubgridV1,
    value: spec_fn(u64) -> int,
    term: spec_fn(int, int, int) -> int,
) -> int {
    total_before(grid, value, term, grid.window().1, 0, 0)
}

/// Where `accumulate` adds exactly, the sum that the convolution has built
/// before a node stands for the sum over the nodes before it.
proof fn lemma_summed_before_is_total<
    L: Fn(usize, usize, usize) -> u64,
    R: Fn(u64, u64, u64) -> u64,
    F: Fn(u64, u64, u64, usize, usize) -> u64,
>(
    grid: LagrangeSubgridV1,
    x1: Seq<u64>,
    x2: Seq<u64>,
    q2: Seq<u64>,
    lumi: Either<&L, &R>,
    accumulate: &F,
    value: spec_fn(u64) -> int,
    term: spec_fn(int, int, int) -> int,
    itau: int,
    ix1: int,
    ix2: int,
    sum: u64,
)
    requires
        zero_is_zero(value),
        accumulates_exactly(x1, x2, q2, lumi, accumulate, value, term),
        grid.summed_before(x1, x2, q2, lumi, accumulate, itau, ix1, ix2, sum),
    ensures
        value(sum) == total_before(grid, value, term, itau, ix1, ix2),
    decreases itau, ix1, ix2, 0int,
{
    let ny1 = grid.params().x1().bins() as int;
    let ny2 = grid.params().x2().bins() as int;
    if ix2 > 0 {
        lemma_summed_through_is_total(
            grid,
            x1,
            x2,
            q2,
            lumi,
            accumulate,
            value,
            term,
            itau,
            ix1,
            ix2 - 1,
            sum,
        );
    } else if ix1 > 0 {
        lemma_summed_through_is_total(
            grid,
            x1,
            x2,
            q2,
            lumi,
            accumulate,
            value,
            term,
            itau,
            ix1 - 1,
            ny2 - 1,
            sum,
        );
    } else if itau > grid.window().0 && itau > 0 {
        lemma_summed_through_is_total(
            grid,
            x1,
            x2,
            q2,
            lumi,
            accumulate,
            value,
            term,
            itau - 1,
            ny1 - 1,
            ny2 - 1,
            sum,
        );
    } else {
        assert(is_zero(0));
    }
}

/// Where `accumulate` adds exactly, the sum that the convolution has built
/// through a node stands for the sum over the nodes up to it.
proof fn lemma_summed_through_is_total<
    L: Fn(usize, usize, usize) -> u64,
    R: Fn(u64, u64, u64) -> u64,
    F: Fn(u64, u64, u64, usize, usize) -> u64,
>(
    grid: LagrangeSubgridV1,
    x1: Seq<u64>,
    x2: Seq<u64>,
    q2: Seq<u64>,
    lumi: Either<&L, &R>,
    accumulate: &F,
    value: spec_fn(u64) -> int,
    term: spec_fn(int, int, int) -> int,
    itau: int,
    ix1: int,
    ix2: int,
    sum: u64,
)
    requires
        zero_is_zero(value),
        accumulates_exactly(x1, x2, q2, lumi, accumulate, value, term),
        grid.summed_through(x1, x2, q2, lumi, accumulate, itau, ix1, ix2, sum),
    ensures
        value(sum) == total_through(grid, value, term, itau, ix1, ix2),
    decreases itau, ix1, ix2, 1int,
{
    let prev = choose|prev: u64|
        grid.summed_before(x1, x2, q2, lumi, accumulate, itau, ix1, ix2, prev)
            && #[trigger] grid.visited(x1, x2, q2, lumi, accumulate, itau, ix1, ix2, prev, sum);
    lemma_summed_before_is_total(
        grid,
        x1,
        x2,
        q2,
        lumi,
        accumulate,
        value,
        term,
        itau,
        ix1,
        ix2,
        prev,
    );
    let sigma = grid.cell(itau, ix1, ix2);
    if is_zero(sigma) {
        assert(value(sigma) * term(itau, ix1, ix2) == 0) by (nonlinear_arith)
            requires
                value(sigma) == 0,
        ;
    } else {
        let l = choose|l: u64| #[trigger]
            luminosity_at(lumi, x1, x2, q2, itau, ix1, ix2, l) && accumulate.ensures(
                (prev, sigma, l, ix1 as usize, ix2 as usize),
                sum,
            );
        assert(luminosity_at(lumi, x1, x2, q2, itau, ix1, ix2, l));
        assert(accumulate.ensures((prev, sigma, l, ix1 as usize, ix2 as usize), sum));
    }
}

/// In exact arithmetic the convolution is the sum, over the nodes of the
/// window, of the weight of the node times `term` of the node.
pub proof fn lemma_convolute_is_total<
    L: Fn(usize, usize, usize) -> u64,
    R: Fn(u64, u64, u64) -> u64,
    F: Fn(u64, u64, u64, usize, usize) -> u64,
>(
    grid: LagrangeSubgridV1,
    x1: Seq<u64>,
    x2: Seq<u64>,
    q2: Seq<u64>,
    lumi: Either<&L, &R>,
    accumulate: &F,
    value: spec_fn(u64) -> int,
    term: spec_fn(int, int, int) -> int,
    result: u64,
)
    requires
        zero_is_zero(value),
        accumulates_exactly(x1, x2, q2, lumi, accumulate, value, term),
        grid.summed_before(x1, x2, q2, lumi, accumulate, grid.window().1, 0, 0, result),
    ensures
        value(result) == total(grid, value, term),
{
    lemma_summed_before_is_total(
        grid,
        x1,
        x2,
        q2,
        lumi,
        accumulate,
        value,
        term,
        grid.window().1,
        0,
        0,
        result,
    );
}

/// A sum is linear in the weights: the sum of `c` times one weight plus
/// another is `c` times the sum of the one plus the sum of the other.
proof fn lemma_sum_before_is_linear(
    w: spec_fn(int, int, int) -> int,
    u: spec_fn(int, int, int) -> int,
    v: spec_fn(int, int, int) -> int,
    c: int,
    term: spec_fn(int, int, int) -> int,
    lo: int,
    ny1: int,
    ny2: int,
    itau: int,
    ix1: int,
    ix2: int,
)
    requires
        forall|i: int, j: int, k: int| #[trigger] w(i, j, k) == c * u(i, j, k) + v(i, j, k),
    ensures
        sum_before(w, term, lo, ny1, ny2, itau, ix1, ix2) == c * sum_before(
            u,
            term,
            lo,
            ny1,
            ny2,
            itau,
            ix1,
            ix2,
        ) + sum_before(v, term, lo, ny1, ny2, itau, ix1, ix2),
    decreases itau, ix1, ix2, 0int,
{
    if ix2 > 0 {
        lemma_sum_through_is_linear(w, u, v, c, term, lo, ny1, ny2, itau, ix1, ix2 - 1);
    } else if ix1 > 0 {
        lemma_sum_through_is_linear(w, u, v, c, term, lo, ny1, ny2, itau, ix1 - 1, ny2 - 1);
    } else if itau > lo && itau > 0 {
        lemma_sum_through_is_linear(w, u, v, c, term, lo, ny1, ny2, itau - 1, ny1 - 1, ny2 - 1);
    } else {
        assert(c * 0 + 0 == 0);
    }
}

/// A sum is linear in the weights, through a node as before it.
proof fn lemma_sum_through_is_linear(
    w: spec_fn(int, int, int) -> int,
    u: spec_fn(int, int, int) -> int,
    v: spec_fn(int, int, int) -> int,
    c: int,
    term: spec_fn(int, int, int) -> int,
    lo: int,
    ny1: int,
    ny2: int,
    itau: int,
    ix1: int,
    ix2: int,
)
    requires
        forall|i: int, j: int, k: int| #[trigger] w(i, j, k) == c * u(i, j, k) + v(i, j, k),
    ensures
        sum_through(w, term, lo, ny1, ny2, itau, ix1, ix2) == c * sum_through(
            u,
            term,
            lo,
            ny1,
            ny2,
            itau,
            ix1,
            ix2,
        ) + sum_through(v, term, lo, ny1, ny2, itau, ix1, ix2),
    decreases itau, ix1, ix2, 1int,
{
    lemma_sum_before_is_linear(w, u, v, c, term, lo, ny1, ny2, itau, ix1, ix2);
    let t = term(itau, ix1, ix2);
    let su = sum_before(u, term, lo, ny1, ny2, itau, ix1, ix2);
    let sv = sum_before(v, term, lo, ny1, ny2, itau, ix1, ix2);
    let wu = u(itau, ix1, ix2);
    let wv = v(itau, ix1, ix2);
    assert(w(itau, ix1, ix2) == c * wu + wv);
    assert(c * su + sv + (c * wu + wv) * t == c * (su + wu * t) + (sv + wv * t))
        by (nonlinear_arith);
}

/// Nodes without weight add nothing: a sum over nodes that all come before
/// the scale node `end`, before which every weight is zero, is zero.
proof fn lemma_sum_of_nothing(
    w: spec_fn(int, int, int) -> int,
    term: spec_fn(int, int, int) -> int,
    lo: int,
    ny1: int,
    ny2: int,
    end: int,
    itau: int,
    ix1: int,
    ix2: int,
)
    requires
        forall|i: int, j: int, k: int| i < end ==> #[trigger] w(i, j, k) == 0,
        itau < end || (itau == end && ix1 == 0 && ix2 == 0),
    ensures
        sum_before(w, term, lo, ny1, ny2, itau, ix1, ix2) == 0,
    decreases itau, ix1, ix2,
{
    if ix2 > 0 {
        lemma_sum_of_nothing(w, term, lo, ny1, ny2, end, itau, ix1, ix2 - 1);
        assert(w(itau, ix1, ix2 - 1) * term(itau, ix1, ix2 - 1) == 0) by (nonlinear_arith)
            requires
                w(itau, ix1, ix2 - 1) == 0,
        ;
    } else if ix1 > 0 {
        lemma_sum_of_nothing(w, term, lo, ny1, ny2, end, itau, ix1 - 1, ny2 - 1);
        assert(w(itau, ix1 - 1, ny2 - 1) * term(itau, ix1 - 1, ny2 - 1) == 0)
            by (nonlinear_arith)
            requires
                w(itau, ix1 - 1, ny2 - 1) == 0,
        ;
    } else if itau > lo && itau > 0 {
        lemma_sum_of_nothing(w, term, lo, ny1, ny2, end, itau - 1, ny1 - 1, ny2 - 1);
        assert(w(itau - 1, ny1 - 1, ny2 - 1) * term(itau - 1, ny1 - 1, ny2 - 1) == 0)
            by (nonlinear_arith)
            requires
                w(itau - 1, ny1 - 1, ny2 - 1) == 0,
        ;
    }
}

/// Rows without weight before the first row add nothing: a walk can start
/// at an earlier scale node, where every weight before the later one is
/// zero.
proof fn lemma_sum_from_earlier(
    w: spec_fn(int, int, int) -> int,
    term: spec_fn(int, int, int) -> int,
    earlier: int,
    lo: int,
    ny1: int,
    ny2: int,
    itau: int,
    ix1: int,
    ix2: int,
)
    requires
        0 <= earlier <= lo <= itau,
        0 <= ix1,
        0 <= ix2,
        ny1 >= 1,
        ny2 >= 1,
        forall|i: int, j: int, k: int| i < lo ==> #[trigger] w(i, j, k) == 0,
    ensures
        sum_before(w, term, earlier, ny1, ny2, itau, ix1, ix2) == sum_before(
            w,
            term,
            lo,
            ny1,
            ny2,
            itau,
            ix1,
            ix2,
        ),
    decreases itau, ix1, ix2,
{
    if ix2 > 0 {
        lemma_sum_from_earlier(w, term, earlier, lo, ny1, ny2, itau, ix1, ix2 - 1);
    } else if ix1 > 0 {
        lemma_sum_from_earlier(w, term, earlier, lo, ny1, ny2, itau, ix1 - 1, ny2 - 1);
    } else if itau > lo {
        lemma_sum_from_earlier(w, term, earlier, lo, ny1, ny2, itau - 1, ny1 - 1, ny2 - 1);
    } else {
        lemma_sum_of_nothing(w, term, earlier, ny1, ny2, lo, itau, ix1, ix2);
    }
}

/// A row without weight adds nothing: inside such a row the sum is what it
/// was at the start of the row.
proof fn lemma_sum_over_empty_row(
    w: spec_fn(int, int, int) -> int,
    term: spec_fn(int, int, int) -> int,
    lo: int,
    ny1: int,
    ny2: int,
    itau: int,
    ix1: int,
    ix2: int,
)
    requires
        forall|j: int, k: int| #[trigger] w(itau, j, k) == 0,
        0 <= ix1,
        0 <= ix2,
        ny2 >= 1,
    ensures
        sum_through(w, term, lo, ny1, ny2, itau, ix1, ix2) == sum_before(
            w,
            term,
            lo,
            ny1,
            ny2,
            itau,
            0,
            0,
        ),
    decreases ix1, ix2,
{
    assert(w(itau, ix1, ix2) * term(itau, ix1, ix2) == 0) by (nonlinear_arith)
        requires
            w(itau, ix1, ix2) == 0,
    ;
    if ix2 > 0 {
        lemma_sum_over_empty_row(w, term, lo, ny1, ny2, itau, ix1, ix2 - 1);
    } else if ix1 > 0 {
        lemma_sum_over_empty_row(w, term, lo, ny1, ny2, itau, ix1 - 1, ny2 - 1);
    }
}

/// Rows without weight after the last row add nothing: a walk can end at a
/// later scale node, where every weight from the earlier one on is zero.
proof fn lemma_sum_to_later(
    w: spec_fn(int, int, int) -> int,
    term: spec_fn(int, int, int) -> int,
    lo: int,
    ny1: int,
    ny2: int,
    end: int,
    later: int,
)
    requires
        0 <= lo <= end <= later,
        ny1 >= 1,
        ny2 >= 1,
        forall|i: int, j: int, k: int| i >= end ==> #[trigger] w(i, j, k) == 0,
    ensures
        sum_before(w, term, lo, ny1, ny2, later, 0, 0) == sum_before(
            w,
            term,
            lo,
            ny1,
            ny2,
            end,
            0,
            0,
        ),
    decreases later - end,
{
    if later > end {
        lemma_sum_to_later(w, term, lo, ny1, ny2, end, later - 1);
        lemma_sum_over_empty_row(w, term, lo, ny1, ny2, later - 1, ny1 - 1, ny2 - 1);
    }
}

/// The sum over the window of `grid` is the sum over any range of scale
/// nodes that holds the window: outside of its window a subgrid has no
/// weight.
proof fn lemma_total_over_range(
    grid: LagrangeSubgridV1,
    value: spec_fn(u64) -> int,
    term: spec_fn(int, int, int) -> int,
    lo: int,
    hi: int,
)
    requires
        grid.well_formed(),
        zero_is_zero(value),
        0 <= lo <= hi,
        grid.window().0 < grid.window().1 ==> lo <= grid.window().0 && grid.window().1 <= hi,
    ensures
        sum_before(
            weight_of(grid, value),
            term,
            lo,
            grid.params().x1().bins() as int,
            grid.params().x2().bins() as int,
            hi,
            0,
            0,
        ) == total(grid, value, term),
{
    let w = weight_of(grid, value);
    let ny1 = grid.params().x1().bins() as int;
    let ny2 = grid.params().x2().bins() as int;
    let first = grid.window().0;
    let end = grid.window().1;
    grid.lemma_window_on_axis();
    assert(is_zero(0));
    assert forall|i: int, j: int, k: int| !(first <= i < end) implies #[trigger] w(i, j, k)
        == 0 by {
        grid.lemma_zero_outside_window(i, j, k);
    }
    if first < end {
        lemma_sum_to_later(w, term, lo, ny1, ny2, end, hi);
        lemma_sum_from_earlier(w, term, lo, first, ny1, ny2, end, 0, 0);
    } else {
        lemma_sum_of_nothing(w, term, lo, ny1, ny2, hi, hi, 0, 0);
    }
}

/// Does `rescale` multiply the weight by the factor?
pub open spec fn rescales_exactly<F: Fn(u64, u64) -> u64>(
    rescale: &F,
    value: spec_fn(u64) -> int,
) -> bool {
    forall|w: u64, f: u64, r: u64| #[trigger]
        rescale.ensures((w, f), r) ==> value(r) == value(w) * value(f)
}

/// Does `combine` add the two weights?
pub open spec fn combines_exactly<F: Fn(u64, u64) -> u64>(
    combine: &F,
    value: spec_fn(u64) -> int,
) -> bool {
    forall|a: u64, b: u64, r: u64| #[trigger]
        combine.ensures((a, b), r) ==> value(r) == value(a) + value(b)
}

/// Does `deposit` add `contribution` of the three basis weights to the
/// weight on the node?
pub open spec fn deposits_exactly<F: Fn(u64, u64, u64, u64) -> u64>(
    deposit: &F,
    value: spec_fn(u64) -> int,
    contribution: spec_fn(u64, u64, u64) -> int,
) -> bool {
    forall|w: u64, b1: u64, b2: u64, b3: u64, r: u64| #[trigger]
        deposit.ensures((w, b1, b2, b3), r) ==> value(r) == value(w) + contribution(b1, b2, b3)
}

/// Scaling is linear: in exact arithmetic the sum over the scaled subgrid
/// is the factor times the sum over the subgrid, for every factor, zero and
/// the negative ones too.
pub proof fn lemma_scale_is_linear<F: Fn(u64, u64) -> u64>(
    before: LagrangeSubgridV1,
    after: LagrangeSubgridV1,
    factor: u64,
    rescale: &F,
    value: spec_fn(u64) -> int,
    term: spec_fn(int, int, int) -> int,
)
    requires
        before.well_formed(),
        LagrangeSubgridV1::scaled(before, after, factor, rescale),
        zero_is_zero(value),
        rescales_exactly(rescale, value),
    ensures
        total(after, value, term) == value(factor) * total(before, value, term),
{
    let wa = weight_of(after, value);
    let wb = weight_of(before, value);
    let nothing = |i: int, j: int, k: int| 0int;
    let ny1 = before.params().x1().bins() as int;
    let ny2 = before.params().x2().bins() as int;
    let c = value(factor);
    before.lemma_window_on_axis();
    assert(is_zero(0));
    if is_zero(factor) {
        assert(c * total(before, value, term) == 0) by (nonlinear_arith)
            requires
                c == 0,
        ;
    } else {
        let lo = before.window().0;
        let hi = before.window().1;
        assert forall|i: int, j: int, k: int| #[trigger] wa(i, j, k) == c * wb(i, j, k)
            + nothing(i, j, k) by {
            if before.materialized(i, j, k) {
                assert(rescale.ensures((before.cell(i, j, k), factor), after.cell(i, j, k)));
            } else {
                before.lemma_zero_outside_window(i, j, k);
                assert(c * 0 == 0);
            }
        }
        lemma_sum_before_is_linear(wa, wb, nothing, c, term, lo, ny1, ny2, hi, 0, 0);
        lemma_sum_of_nothing(nothing, term, lo, ny1, ny2, hi, hi, 0, 0);
    }
}

/// Merging is additive: in exact arithmetic the sum over the merged subgrid
/// is the sum over the one subgrid plus the sum over the other.
pub proof fn lemma_merge_is_additive<F: Fn(u64, u64) -> u64>(
    a: LagrangeSubgridV1,
    b: LagrangeSubgridV1,
    merged: LagrangeSubgridV1,
    combine: &F,
    value: spec_fn(u64) -> int,
    term: spec_fn(int, int, int) -> int,
)
    requires
        a.well_formed(),
        b.well_formed(),
        a.params() == b.params(),
        LagrangeSubgridV1::merges(a, b, merged, combine),
        zero_is_zero(value),
        combines_exactly(combine, value),
    ensures
        total(merged, value, term) == total(a, value, term) + total(b, value, term),
{
    let wa = weight_of(a, value);
    let wb = weight_of(b, value);
    let wm = weight_of(merged, value);
    let ny1 = a.params().x1().bins() as int;
    let ny2 = a.params().x2().bins() as int;
    let lo = merged.window().0;
    let hi = merged.window().1;
    a.lemma_window_on_axis();
    b.lemma_window_on_axis();
    assert(is_zero(0));
    assert forall|i: int, j: int, k: int| #[trigger] wm(i, j, k) == 1 * wa(i, j, k) + wb(
        i,
        j,
        k,
    ) by {
        if a.window().0 == a.window().1 {
            a.lemma_zero_outside_window(i, j, k);
        } else if b.materialized(i, j, k) {
            assert(combine.ensures((a.cell(i, j, k), b.cell(i, j, k)), merged.cell(i, j, k)));
        } else {
            b.lemma_zero_outside_window(i, j, k);
        }
    }
    lemma_sum_before_is_linear(wm, wa, wb, 1, term, lo, ny1, ny2, hi, 0, 0);
    lemma_total_over_range(a, value, term, lo, hi);
    lemma_total_over_range(b, value, term, lo, hi);
}

/// The number that one sample adds to the weight of each node: its
/// `contribution` on the nodes of its stencils, and nothing on any other.
pub open spec fn sample_weight(
    grid: LagrangeSubgridV1,
    sample: Stencils,
    contribution: spec_fn(u64, u64, u64) -> int,
) -> spec_fn(int, int, int) -> int {
    |itau: int, ix1: int, ix2: int|
        if grid.in_stencil(sample.0, sample.1, sample.2, itau, ix1, ix2) {
            contribution(sample.3[ix1 - sample.0], sample.4[ix2 - sample.1], sample.5[itau - sample.2])
        } else {
            0
        }
}

/// The sum, over the nodes of its stencils, of what one sample adds to the
/// weight of the node times `term` of the node.
pub open spec fn sample_total(
    grid: LagrangeSubgridV1,
    sample: Stencils,
    contribution: spec_fn(u64, u64, u64) -> int,
    term: spec_fn(int, int, int) -> int,
) -> int {
    sum_before(
        sample_weight(grid, sample, contribution),
        term,
        sample.2,
        grid.params().x1().bins() as int,
        grid.params().x2().bins() as int,
        sample.2 + grid.params().q2().order() + 1,
        0,
        0,
    )
}

/// Filling is additive: in exact arithmetic the sum over a subgrid that a
/// sample was filled into is the sum over the subgrid before plus the sum
/// of the sample.
pub proof fn lemma_fill_is_additive<F: Fn(u64, u64, u64, u64) -> u64>(
    before: LagrangeSubgridV1,
    after: LagrangeSubgridV1,
    sample: Stencils,
    deposit: &F,
    value: spec_fn(u64) -> int,
    contribution: spec_fn(u64, u64, u64) -> int,
    term: spec_fn(int, int, int) -> int,
)
    requires
        before.well_formed(),
        0 <= sample.2,
        sample_filled(before, after, sample, deposit),
        zero_is_zero(value),
        deposits_exactly(deposit, value, contribution),
    ensures
        total(after, value, term) == total(before, value, term) + sample_total(
            before,
            sample,
            contribution,
            term,
        ),
{
    let (k1, k2, k3, fi1, fi2, fi3) = sample;
    let wa = weight_of(after, value);
    let wb = weight_of(before, value);
    let ws = sample_weight(before, sample, contribution);
    let ny1 = before.params().x1().bins() as int;
    let ny2 = before.params().x2().bins() as int;
    let lo = after.window().0;
    let hi = after.window().1;
    let end = k3 + before.params().q2().order() + 1;
    before.lemma_window_on_axis();
    assert(is_zero(0));
    assert forall|i: int, j: int, k: int| #[trigger] wa(i, j, k) == 1 * wb(i, j, k) + ws(
        i,
        j,
        k,
    ) by {
        if before.in_stencil(k1, k2, k3, i, j, k) {
            assert(deposit.ensures(
                (before.cell(i, j, k), fi1[j - k1], fi2[k - k2], fi3[i - k3]),
                after.cell(i, j, k),
            ));
        }
    }
    lemma_sum_before_is_linear(wa, wb, ws, 1, term, lo, ny1, ny2, hi, 0, 0);
    lemma_total_over_range(before, value, term, lo, hi);
    lemma_sum_to_later(ws, term, lo, ny1, ny2, end, hi);
    lemma_sum_from_earlier(ws, term, lo, k3, ny1, ny2, end, 0, 0);
}

/// The `term` that is one on the node `(n3, n1, n2)` and zero on every
/// other: the luminosity that picks out one node.
pub open spec fn indicator(n3: int, n1: int, n2: int) -> spec_fn(int, int, int) -> int {
    |itau: int, ix1: int, ix2: int|
        if itau == n3 && ix1 == n1 && ix2 == n2 {
            1int
        } else {
            0int
        }
}

/// Before the node that it picks out, a sum with an indicator is zero; from
/// that node on it is the weight on the node.
proof fn lemma_sum_picks_node(
    w: spec_fn(int, int, int) -> int,
    lo: int,
    ny1: int,
    ny2: int,
    n3: int,
    n1: int,
    n2: int,
    itau: int,
    ix1: int,
    ix2: int,
)
    requires
        0 <= lo <= n3,
        0 <= n1 < ny1,
        0 <= n2 < ny2,
        lo <= itau,
        0 <= ix1 < ny1,
        0 <= ix2 < ny2,
    ensures
        sum_through(w, indicator(n3, n1, n2), lo, ny1, ny2, itau, ix1, ix2) == (if itau < n3 || (
        itau == n3 && (ix1 < n1 || (ix1 == n1 && ix2 < n2))) {
            0
        } else {
            w(n3, n1, n2)
        }),
    decreases itau, ix1, ix2,
{
    let term = indicator(n3, n1, n2);
    let here = w(itau, ix1, ix2) * term(itau, ix1, ix2);
    if itau == n3 && ix1 == n1 && ix2 == n2 {
        assert(w(itau, ix1, ix2) * 1 == w(n3, n1, n2)) by (nonlinear_arith)
            requires
                w(itau, ix1, ix2) == w(n3, n1, n2),
        ;
    } else {
        assert(w(itau, ix1, ix2) * 0 == 0) by (nonlinear_arith);
    }
    if ix2 > 0 {
        lemma_sum_picks_node(w, lo, ny1, ny2, n3, n1, n2, itau, ix1, ix2 - 1);
    } else if ix1 > 0 {
        lemma_sum_picks_node(w, lo, ny1, ny2, n3, n1, n2, itau, ix1 - 1, ny2 - 1);
    } else if itau > lo {
        lemma_sum_picks_node(w, lo, ny1, ny2, n3, n1, n2, itau - 1, ny1 - 1, ny2 - 1);
    }
}

/// A sample on a node is read back exactly: where a sample of the weight
/// `weight` lies on the node `(n3, n1, n2)`, so that its basis weights are
/// one on that node and zero on the other nodes of its stencils, and it is
/// filled into a subgrid without storage, in exact arithmetic the sum with
/// the luminosity that picks out that node is the weight of the sample.
pub proof fn lemma_sample_on_node_is_read_back<F: Fn(u64, u64, u64, u64) -> u64>(
    before: LagrangeSubgridV1,
    after: LagrangeSubgridV1,
    sample: Stencils,
    deposit: &F,
    value: spec_fn(u64) -> int,
    weight: int,
    n3: int,
    n1: int,
    n2: int,
)
    requires
        before.well_formed(),
        before.window() == (0int, 0int),
        sample_filled(before, after, sample, deposit),
        0 <= sample.0,
        0 <= sample.1,
        0 <= sample.2,
        sample.0 + before.params().x1().order() < before.params().x1().bins(),
        sample.1 + before.params().x2().order() < before.params().x2().bins(),
        before.in_stencil(sample.0, sample.1, sample.2, n3, n1, n2),
        forall|j: int|
            0 <= j <= before.params().x1().order() ==> value(#[trigger] sample.3[j]) == (
            if sample.0 + j == n1 {
                1int
            } else {
                0int
            }),
        forall|j: int|
            0 <= j <= before.params().x2().order() ==> value(#[trigger] sample.4[j]) == (
            if sample.1 + j == n2 {
                1int
            } else {
                0int
            }),
        forall|j: int|
            0 <= j <= before.params().q2().order() ==> value(#[trigger] sample.5[j]) == (
            if sample.2 + j == n3 {
                1int
            } else {
                0int
            }),
        zero_is_zero(value),
        deposits_exactly(
            deposit,
            value,
            |b1: u64, b2: u64, b3: u64| weight * value(b1) * value(b2) * value(b3),
        ),
    ensures
        total(after, value, indicator(n3, n1, n2)) == weight,
{
    let (k1, k2, k3, fi1, fi2, fi3) = sample;
    let contribution = |b1: u64, b2: u64, b3: u64| weight * value(b1) * value(b2) * value(b3);
    let term = indicator(n3, n1, n2);
    let ws = sample_weight(before, sample, contribution);
    let ny1 = before.params().x1().bins() as int;
    let ny2 = before.params().x2().bins() as int;
    let end = k3 + before.params().q2().order() + 1;
    lemma_fill_is_additive(before, after, sample, deposit, value, contribution, term);
    assert(total(before, value, term) == 0);
    lemma_sum_picks_node(ws, k3, ny1, ny2, n3, n1, n2, end - 1, ny1 - 1, ny2 - 1);
    assert(value(fi1[n1 - k1]) == 1);
    assert(value(fi2[n2 - k2]) == 1);
    assert(value(fi3[n3 - k3]) == 1);
    assert(ws(n3, n1, n2) == weight * 1 * 1 * 1);
}

/// A sample on a node is read back exactly by the convolution: under the
/// conditions of [`lemma_sample_on_node_is_read_back`], what the
/// convolution with the luminosity that picks out the node returns stands
/// for the weight of the sample.
pub proof fn lemma_convolute_of_sample_on_node<
    L: Fn(usize, usize, usize) -> u64,
    R: Fn(u64, u64, u64) -> u64,
    F: Fn(u64, u64, u64, usize, usize) -> u64,
    D: Fn(u64, u64, u64, u64) -> u64,
>(
    before: LagrangeSubgridV1,
    after: LagrangeSubgridV1,
    sample: Stencils,
    deposit: &D,
    x1: Seq<u64>,
    x2: Seq<u64>,
    q2: Seq<u64>,
    lumi: Either<&L, &R>,
    accumulate: &F,
    value: spec_fn(u64) -> int,
    weight: int,
    n3: int,
    n1: int,
    n2: int,
    result: u64,
)
    requires
        before.well_formed(),
        before.window() == (0int, 0int),
        sample_filled(before, after, sample, deposit),
        0 <= sample.0,
        0 <= sample.1,
        0 <= sample.2,
        sample.0 + before.params().x1().order() < before.params().x1().bins(),
        sample.1 + before.params().x2().order() < before.params().x2().bins(),
        before.in_stencil(sample.0, sample.1, sample.2, n3, n1, n2),
        forall|j: int|
            0 <= j <= before.params().x1().order() ==> value(#[trigger] sample.3[j]) == (
            if sample.0 + j == n1 {
                1int
            } else {
                0int
            }),
        forall|j: int|
            0 <= j <= before.params().x2().order() ==> value(#[trigger] sample.4[j]) == (
            if sample.1 + j == n2 {
                1int
            } else {
                0int
            }),
        forall|j: int|
            0 <= j <= before.params().q2().order() ==> value(#[trigger] sample.5[j]) == (
            if sample.2 + j == n3 {
                1int
            } else {
                0int
            }),
        zero_is_zero(value),
        deposits_exactly(
            deposit,
            value,
            |b1: u64, b2: u64, b3: u64| weight * value(b1) * value(b2) * value(b3),
        ),
        accumulates_exactly(x1, x2, q2, lumi, accumulate, value, indicator(n3, n1, n2)),
        after.summed_before(x1, x2, q2, lumi, accumulate, after.window().1, 0, 0, result),
    ensures
        value(result) == weight,
{
    lemma_sample_on_node_is_read_back(before, after, sample, deposit, value, weight, n3, n1, n2);
    lemma_convolute_is_total(
        after,
        x1,
        x2,
        q2,
        lumi,
        accumulate,
        value,
        indicator(n3, n1, n2),
        result,
    );
}

/// Are the subgrids of a history well-formed, and do the closures of its
/// samples deposit exactly?
pub open spec fn exact_history<D: Fn(u64, u64, u64, u64) -> u64>(
    grids: Seq<LagrangeSubgridV1>,
    samples: Seq<Stencils>,
    deposits: Seq<D>,
    value: spec_fn(u64) -> int,
    contributions: Seq<spec_fn(u64, u64, u64) -> int>,
) -> bool {
    &&& contributions.len() == samples.len()
    &&& forall|i: int| 0 <= i < grids.len() ==> (#[trigger] grids[i]).well_formed()
    &&& forall|i: int|
        0 <= i < samples.len() ==> 0 <= (#[trigger] samples[i]).2 && deposits_exactly(
            &deposits[i],
            value,
            contributions[i],
        )
}

/// However a sequence of samples is split in two, in exact arithmetic the
/// sums over the two subgrids that take one part each add up to the sum
/// over the subgrid that takes them all, after every sample.
proof fn lemma_parts_add_up<D: Fn(u64, u64, u64, u64) -> u64>(
    whole: Seq<LagrangeSubgridV1>,
    part: Seq<LagrangeSubgridV1>,
    rest: Seq<LagrangeSubgridV1>,
    in_part: Seq<bool>,
    samples: Seq<Stencils>,
    deposits: Seq<D>,
    value: spec_fn(u64) -> int,
    contributions: Seq<spec_fn(u64, u64, u64) -> int>,
    term: spec_fn(int, int, int) -> int,
    n: int,
)
    requires
        0 <= n <= in_part.len(),
        filled_in_turn(whole, Seq::new(in_part.len(), |i: int| true), samples, deposits),
        filled_in_turn(part, in_part, samples, deposits),
        filled_in_turn(rest, Seq::new(in_part.len(), |i: int| !in_part[i]), samples, deposits),
        whole[0].params() == part[0].params(),
        whole[0].params() == rest[0].params(),
        exact_history(whole, samples, deposits, value, contributions),
        exact_history(part, samples, deposits, value, contributions),
        exact_history(rest, samples, deposits, value, contributions),
        zero_is_zero(value),
    ensures
        whole[n].params() == whole[0].params(),
        part[n].params() == whole[0].params(),
        rest[n].params() == whole[0].params(),
        total(whole[n], value, term) == total(part[n], value, term) + total(rest[n], value, term),
    decreases n,
{
    let all = Seq::new(in_part.len(), |i: int| true);
    let others = Seq::new(in_part.len(), |i: int| !in_part[i]);
    if n > 0 {
        let i = n - 1;
        lemma_parts_add_up(
            whole,
            part,
            rest,
            in_part,
            samples,
            deposits,
            value,
            contributions,
            term,
            i,
        );
        assert(all[i]);
        assert(others[i] == !in_part[i]);
        assert(whole[i].well_formed() && part[i].well_formed() && rest[i].well_formed());
        assert(0 <= samples[i].2);
        lemma_fill_is_additive(
            whole[i],
            whole[i + 1],
            samples[i],
            &deposits[i],
            value,
            contributions[i],
            term,
        );
        if in_part[i] {
            lemma_fill_is_additive(
                part[i],
                part[i + 1],
                samples[i],
                &deposits[i],
                value,
                contributions[i],
                term,
            );
            assert(sample_weight(part[i], samples[i], contributions[i]) == sample_weight(
                whole[i],
                samples[i],
                contributions[i],
            ));
        } else {
            lemma_fill_is_additive(
                rest[i],
                rest[i + 1],
                samples[i],
                &deposits[i],
                value,
                contributions[i],
                term,
            );
            assert(sample_weight(rest[i], samples[i], contributions[i]) == sample_weight(
                whole[i],
                samples[i],
                contributions[i],
            ));
        }
    }
}

/// Merging what was filled in parts is filling it all: however a sequence
/// of samples is split in two, in exact arithmetic the sum over the merger
/// of the two subgrids that take one part each is the sum over the subgrid
/// that takes them all.
pub proof fn lemma_merge_of_parts_is_whole<
    D: Fn(u64, u64, u64, u64) -> u64,
    C: Fn(u64, u64) -> u64,
>(
    whole: Seq<LagrangeSubgridV1>,
    part: Seq<LagrangeSubgridV1>,
    rest: Seq<LagrangeSubgridV1>,
    merged: LagrangeSubgridV1,
    in_part: Seq<bool>,
    samples: Seq<Stencils>,
    deposits: Seq<D>,
    combine: &C,
    value: spec_fn(u64) -> int,
    contributions: Seq<spec_fn(u64, u64, u64) -> int>,
    term: spec_fn(int, int, int) -> int,
)
    requires
        filled_in_turn(whole, Seq::new(in_part.len(), |i: int| true), samples, deposits),
        filled_in_turn(part, in_part, samples, deposits),
        filled_in_turn(rest, Seq::new(in_part.len(), |i: int| !in_part[i]), samples, deposits),
        whole[0].params() == part[0].params(),
        whole[0].params() == rest[0].params(),
        exact_history(whole, samples, deposits, value, contributions),
        exact_history(part, samples, deposits, value, contributions),
        exact_history(rest, samples, deposits, value, contributions),
        LagrangeSubgridV1::merges(part.last(), rest.last(), merged, combine),
        zero_is_zero(value),
        combines_exactly(combine, value),
    ensures
        total(merged, value, term) == total(whole.last(), value, term),
{
    let n = in_part.len() as int;
    lemma_parts_add_up(
        whole,
        part,
        rest,
        in_part,
        samples,
        deposits,
        value,
        contributions,
        term,
        n,
    );
    assert(part[n].well_formed() && rest[n].well_formed());
    lemma_merge_is_additive(part[n], rest[n], merged, combine, value, term);
}

/// Scaling is linear in the convolution: in exact arithmetic, what the
/// convolution of the scaled subgrid returns stands for the factor times
/// what the convolution of the subgrid returns; for the factor zero that
/// is zero.
pub proof fn lemma_convolute_of_scaled<
    L: Fn(usize, usize, usize) -> u64,
    R: Fn(u64, u64, u64) -> u64,
    F: Fn(u64, u64, u64, usize, usize) -> u64,
    S: Fn(u64, u64) -> u64,
>(
    before: LagrangeSubgridV1,
    after: LagrangeSubgridV1,
    factor: u64,
    rescale: &S,
    x1: Seq<u64>,
    x2: Seq<u64>,
    q2: Seq<u64>,
    lumi: Either<&L, &R>,
    accumulate: &F,
    value: spec_fn(u64) -> int,
    term: spec_fn(int, int, int) -> int,
    result_before: u64,
    result_after: u64,
)
    requires
        before.well_formed(),
        LagrangeSubgridV1::scaled(before, after, factor, rescale),
        zero_is_zero(value),
        rescales_exactly(rescale, value),
        accumulates_exactly(x1, x2, q2, lumi, accumulate, value, term),
        before.summed_before(
            x1,
            x2,
            q2,
            lumi,
            accumulate,
            before.window().1,
            0,
            0,
            result_before,
        ),
        after.summed_before(x1, x2, q2, lumi, accumulate, after.window().1, 0, 0, result_after),
    ensures
        value(result_after) == value(factor) * value(result_before),
{
    lemma_scale_is_linear(before, after, factor, rescale, value, term);
    lemma_convolute_is_total(before, x1, x2, q2, lumi, accumulate, value, term, result_before);
    lemma_convolute_is_total(after, x1, x2, q2, lumi, accumulate, value, term, result_after);
}

/// Merging is additive in the convolution: in exact arithmetic, what the
/// convolution of the merged subgrid returns stands for the sum of what the
/// convolutions of the two subgrids return. So the order in which subgrids
/// are merged changes nothing.
pub proof fn lemma_convolute_of_merged<
    L: Fn(usize, usize, usize) -> u64,
    R: Fn(u64, u64, u64) -> u64,
    F: Fn(u64, u64, u64, usize, usize) -> u64,
    C: Fn(u64, u64) -> u64,
>(
    a: LagrangeSubgridV1,
    b: LagrangeSubgridV1,
    merged: LagrangeSubgridV1,
    combine: &C,
    x1: Seq<u64>,
    x2: Seq<u64>,
    q2: Seq<u64>,
    lumi: Either<&L, &R>,
    accumulate: &F,
    value: spec_fn(u64) -> int,
    term: spec_fn(int, int, int) -> int,
    result_a: u64,
    result_b: u64,
    result_merged: u64,
)
    requires
        a.well_formed(),
        b.well_formed(),
        a.params() == b.params(),
        LagrangeSubgridV1::merges(a, b, merged, combine),
        zero_is_zero(value),
        combines_exactly(combine, value),
        accumulates_exactly(x1, x2, q2, lumi, accumulate, value, term),
        a.summed_before(x1, x2, q2, lumi, accumulate, a.window().1, 0, 0, result_a),
        b.summed_before(x1, x2, q2, lumi, accumulate, b.window().1, 0, 0, result_b),
        merged.summed_before(
            x1,
            x2,
            q2,
            lumi,
            accumulate,
            merged.window().1,
            0,
            0,
            result_merged,
        ),
    ensures
        value(result_merged) == value(result_a) + value(result_b),
{
    lemma_merge_is_additive(a, b, merged, combine, value, term);
    lemma_convolute_is_total(a, x1, x2, q2, lumi, accumulate, value, term, result_a);
    lemma_convolute_is_total(b, x1, x2, q2, lumi, accumulate, value, term, result_b);
    lemma_convolute_is_total(merged, x1, x2, q2, lumi, accumulate, value, term, result_merged);
}

/// The convolution does not tell a merger of parts from the whole: however
/// a sequence of samples is split in two, in exact arithmetic the
/// convolution of the merger of the two subgrids that take one part each,
/// merged in either order, returns what the convolution of the subgrid that
/// takes all samples returns.
pub proof fn lemma_convolute_of_parts_is_whole<
    L: Fn(usize, usize, usize) -> u64,
    R: Fn(u64, u64, u64) -> u64,
    F: Fn(u64, u64, u64, usize, usize) -> u64,
    D: Fn(u64, u64, u64, u64) -> u64,
    C: Fn(u64, u64) -> u64,
>(
    whole: Seq<LagrangeSubgridV1>,
    part: Seq<LagrangeSubgridV1>,
    rest: Seq<LagrangeSubgridV1>,
    part_rest: LagrangeSubgridV1,
    rest_part: LagrangeSubgridV1,
    in_part: Seq<bool>,
    samples: Seq<Stencils>,
    deposits: Seq<D>,
    combine: &C,
    x1: Seq<u64>,
    x2: Seq<u64>,
    q2: Seq<u64>,
    lumi: Either<&L, &R>,
    accumulate: &F,
    value: spec_fn(u64) -> int,
    contributions: Seq<spec_fn(u64, u64, u64) -> int>,
    term: spec_fn(int, int, int) -> int,
    result_whole: u64,
    result_part_rest: u64,
    result_rest_part: u64,
)
    requires
        filled_in_turn(whole, Seq::new(in_part.len(), |i: int| true), samples, deposits),
        filled_in_turn(part, in_part, samples, deposits),
        filled_in_turn(rest, Seq::new(in_part.len(), |i: int| !in_part[i]), samples, deposits),
        whole[0].params() == part[0].params(),
        whole[0].params() == rest[0].params(),
        exact_history(whole, samples, deposits, value, contributions),
        exact_history(part, samples, deposits, value, contributions),
        exact_history(rest, samples, deposits, value, contributions),
        LagrangeSubgridV1::merges(part.last(), rest.last(), part_rest, combine),
        LagrangeSubgridV1::merges(rest.last(), part.last(), rest_part, combine),
        zero_is_zero(value),
        combines_exactly(combine, value),
        accumulates_exactly(x1, x2, q2, lumi, accumulate, value, term),
        whole.last().summed_before(
            x1,
            x2,
            q2,
            lumi,
            accumulate,
            whole.last().window().1,
            0,
            0,
            result_whole,
        ),
        part_rest.summed_before(
            x1,
            x2,
            q2,
            lumi,
            accumulate,
            part_rest.window().1,
            0,
            0,
            result_part_rest,
        ),
        rest_part.summed_before(
            x1,
            x2,
            q2,
            lumi,
            accumulate,
            rest_part.window().1,
            0,
            0,
            result_rest_part,
        ),
    ensures
        value(result_part_rest) == value(result_whole),
        value(result_rest_part) == value(result_whole),
{
    let n = in_part.len() as int;
    lemma_parts_add_up(
        whole,
        part,
        rest,
        in_part,
        samples,
        deposits,
        value,
        contributions,
        term,
        n,
    );
    assert(part[n].well_formed() && rest[n].well_formed());
    lemma_merge_is_additive(part[n], rest[n], part_rest, combine, value, term);
    lemma_merge_is_additive(rest[n], part[n], rest_part, combine, value, term);
    lemma_convolute_is_total(
        whole[n],
        x1,
        x2,
        q2,
        lumi,
        accumulate,
        value,
        term,
        result_whole,
    );
    lemma_convolute_is_total(
        part_rest,
        x1,
        x2,
        q2,
        lumi,
        accumulate,
        value,
        term,
        result_part_rest,
    );
    lemma_convolute_is_total(
        rest_part,
        x1,
        x2,
        q2,
        lumi,
        accumulate,
        value,
        term,
        result_rest_part,
    );
}

} // verus!
