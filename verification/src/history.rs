//! What a sequence of samples makes of a subgrid.
//!
//! A history is the sequence of the states of a subgrid that starts without
//! storage and is filled with one sample after the other. Its window is at
//! all times the union of the scale stencils of the samples so far, and a
//! weight changes only when a stencil holds its node.
use crate::lagrange_subgrid::{hull, LagrangeSubgridV1};
use vstd::prelude::*;

verus! {

/// The stencils of one sample: the nodes `k1`, `k2` and `k3` at which they
/// start, and the basis weights `fi1`, `fi2` and `fi3` of their nodes.
pub type Stencils = (int, int, int, Seq<u64>, Seq<u64>, Seq<u64>);

/// Is `after` what accumulating the sample with the stencils `sample` makes
/// of `before`, as [`LagrangeSubgridV1::stencil_filled`] says?
pub open spec fn sample_filled<F: Fn(u64, u64, u64, u64) -> u64>(
    before: LagrangeSubgridV1,
    after: LagrangeSubgridV1,
    sample: Stencils,
    deposit: &F,
) -> bool {
    LagrangeSubgridV1::stencil_filled(
        before,
        after,
        sample.0,
        sample.1,
        sample.2,
        sample.3,
        sample.4,
        sample.5,
        deposit,
    )
}

/// Is `grids` the history of a subgrid that starts without storage and into
/// which, of the samples with the stencils `samples`, those that `picked`
/// picks are filled one after the other, each with its own `deposit`?
pub open spec fn filled_in_turn<D: Fn(u64, u64, u64, u64) -> u64>(
    grids: Seq<LagrangeSubgridV1>,
    picked: Seq<bool>,
    samples: Seq<Stencils>,
    deposits: Seq<D>,
) -> bool {
    &&& grids.len() == picked.len() + 1
    &&& samples.len() == picked.len()
    &&& deposits.len() == picked.len()
    &&& grids[0].window() == (0int, 0int)
    &&& forall|i: int|
        0 <= i < picked.len() ==> if #[trigger] picked[i] {
            sample_filled(grids[i], grids[i + 1], samples[i], &deposits[i])
        } else {
            grids[i + 1] == grids[i]
        }
}

/// The window that is there when stencils of `order + 1` scale nodes, which
/// start at the nodes `starts`, have been filled one after the other into a
/// subgrid whose window was `from`.
pub open spec fn window_after_fills(from: (int, int), starts: Seq<int>, order: int) -> (int, int)
    decreases starts.len(),
{
    if starts.len() == 0 {
        from
    } else {
        hull(
            window_after_fills(from, starts.drop_last(), order),
            (starts.last(), starts.last() + order + 1),
        )
    }
}

/// However many samples are filled into an empty subgrid, its window is the
/// union of their scale stencils: it holds every one of them, it starts
/// where the first of them starts, and it ends where the last of them ends.
pub proof fn lemma_window_is_union_of_stencils(starts: Seq<int>, order: int)
    requires
        order >= 0,
        starts.len() > 0,
    ensures
        forall|i: int|
            0 <= i < starts.len() ==> window_after_fills((0, 0), starts, order).0
                <= #[trigger] starts[i] && starts[i] + order + 1 <= window_after_fills(
                (0, 0),
                starts,
                order,
            ).1,
        exists|i: int|
            0 <= i < starts.len() && window_after_fills((0, 0), starts, order).0
                == #[trigger] starts[i],
        exists|i: int|
            0 <= i < starts.len() && window_after_fills((0, 0), starts, order).1
                == #[trigger] starts[i] + order + 1,
    decreases starts.len(),
{
    let w = window_after_fills((0, 0), starts, order);
    let last = starts.len() - 1;
    if starts.len() == 1 {
        assert(window_after_fills((0, 0), starts.drop_last(), order) == (0int, 0int));
        assert(w.0 == starts[last]);
        assert(w.1 == starts[last] + order + 1);
    } else {
        let front = starts.drop_last();
        let v = window_after_fills((0, 0), front, order);
        lemma_window_is_union_of_stencils(front, order);
        let lo = choose|i: int| 0 <= i < front.len() && v.0 == #[trigger] front[i];
        let hi = choose|i: int| 0 <= i < front.len() && v.1 == #[trigger] front[i] + order + 1;
        assert(front[lo] == starts[lo]);
        assert(front[hi] == starts[hi]);
        assert(v.0 < v.1);
        assert forall|i: int| 0 <= i < starts.len() implies w.0 <= #[trigger] starts[i]
            && starts[i] + order + 1 <= w.1 by {
            if i < last {
                assert(front[i] == starts[i]);
            }
        }
        if w.0 == v.0 {
            assert(w.0 == starts[lo]);
        } else {
            assert(w.0 == starts[last]);
        }
        if w.1 == v.1 {
            assert(w.1 == starts[hi] + order + 1);
        } else {
            assert(w.1 == starts[last] + order + 1);
        }
    }
}

/// The nodes at which the scale stencils of the first `n` of `samples`
/// start.
pub open spec fn scale_starts(samples: Seq<Stencils>, n: int) -> Seq<int> {
    Seq::new(n as nat, |i: int| samples[i].2)
}

/// The window of a subgrid is what its samples make it: after any number of
/// samples of a history it is the window that their scale stencils give,
/// one after the other.
pub proof fn lemma_window_of_history<D: Fn(u64, u64, u64, u64) -> u64>(
    grids: Seq<LagrangeSubgridV1>,
    samples: Seq<Stencils>,
    deposits: Seq<D>,
    n: int,
)
    requires
        filled_in_turn(grids, Seq::new(samples.len(), |i: int| true), samples, deposits),
        0 <= n <= samples.len(),
    ensures
        grids[n].params() == grids[0].params(),
        grids[n].window() == window_after_fills(
            (0, 0),
            scale_starts(samples, n),
            grids[0].params().q2().order() as int,
        ),
    decreases n,
{
    let picked = Seq::new(samples.len(), |i: int| true);
    let order = grids[0].params().q2().order() as int;
    if n > 0 {
        lemma_window_of_history(grids, samples, deposits, n - 1);
        assert(picked[n - 1]);
        assert(scale_starts(samples, n).drop_last() =~= scale_starts(samples, n - 1));
        assert(scale_starts(samples, n).last() == samples[n - 1].2);
    }
}

/// The window of a subgrid is the union of every stencil ever written:
/// after any number of samples of a history, but at least one, the window
/// holds the scale stencil of each of them, starts where the first of them
/// starts and ends where the last of them ends.
pub proof fn lemma_window_holds_every_stencil<D: Fn(u64, u64, u64, u64) -> u64>(
    grids: Seq<LagrangeSubgridV1>,
    samples: Seq<Stencils>,
    deposits: Seq<D>,
    n: int,
)
    requires
        filled_in_turn(grids, Seq::new(samples.len(), |i: int| true), samples, deposits),
        0 < n <= samples.len(),
    ensures
        forall|i: int|
            0 <= i < n ==> grids[n].window().0 <= (#[trigger] samples[i]).2 && samples[i].2
                + grids[0].params().q2().order() + 1 <= grids[n].window().1,
        exists|i: int| 0 <= i < n && grids[n].window().0 == (#[trigger] samples[i]).2,
        exists|i: int|
            0 <= i < n && grids[n].window().1 == (#[trigger] samples[i]).2
                + grids[0].params().q2().order() + 1,
{
    let order = grids[0].params().q2().order() as int;
    let starts = scale_starts(samples, n);
    lemma_window_of_history(grids, samples, deposits, n);
    lemma_window_is_union_of_stencils(starts, order);
    let w = grids[n].window();
    assert forall|i: int| 0 <= i < n implies w.0 <= (#[trigger] samples[i]).2 && samples[i].2
        + order + 1 <= w.1 by {
        assert(starts[i] == samples[i].2);
    }
    let first = choose|i: int| 0 <= i < starts.len() && w.0 == #[trigger] starts[i];
    assert(w.0 == samples[first].2);
    let last = choose|i: int| 0 <= i < starts.len() && w.1 == #[trigger] starts[i] + order + 1;
    assert(w.1 == samples[last].2 + order + 1);
}

/// What was written stays: from one state of a history to a later one, a
/// node keeps its weight where no stencil of the samples between them holds
/// it, however the window has grown.
pub proof fn lemma_history_keeps_weights<D: Fn(u64, u64, u64, u64) -> u64>(
    grids: Seq<LagrangeSubgridV1>,
    picked: Seq<bool>,
    samples: Seq<Stencils>,
    deposits: Seq<D>,
    from: int,
    to: int,
    itau: int,
    ix1: int,
    ix2: int,
)
    requires
        filled_in_turn(grids, picked, samples, deposits),
        0 <= from <= to <= picked.len(),
        forall|i: int|
            from <= i < to && #[trigger] picked[i] ==> !grids[i].in_stencil(
                samples[i].0,
                samples[i].1,
                samples[i].2,
                itau,
                ix1,
                ix2,
            ),
    ensures
        grids[to].cell(itau, ix1, ix2) == grids[from].cell(itau, ix1, ix2),
    decreases to - from,
{
    if from < to {
        lemma_history_keeps_weights(
            grids,
            picked,
            samples,
            deposits,
            from,
            to - 1,
            itau,
            ix1,
            ix2,
        );
        if picked[to - 1] {
            assert(sample_filled(
                grids[to - 1],
                grids[to - 1 + 1],
                samples[to - 1],
                &deposits[to - 1],
            ));
        } else {
            assert(grids[to - 1 + 1] == grids[to - 1]);
        }
    }
}

} // verus!
