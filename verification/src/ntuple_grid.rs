//! The subgrid that keeps every sample as it was given.
use crate::subgrid::MergeError;
use vstd::prelude::*;

verus! {

/// One sample: the two momentum fractions, the scale and the weight, each
/// as a binary64 bit pattern.
#[derive(Clone, Copy, Debug, PartialEq, Eq, Structural)]
pub struct Ntuple {
    pub x1: u64,
    pub x2: u64,
    pub q2: u64,
    pub weight: u64,
}

impl Ntuple {
    /// The sample made of the four values.
    pub fn new(x1: u64, x2: u64, q2: u64, weight: u64) -> (r: Self)
        ensures
            r == (Ntuple { x1, x2, q2, weight }),
    {
        Self { x1, x2, q2, weight }
    }
}

/// The perturbative order that a subgrid belongs to: the powers of the two
/// couplings and of the two scale logarithms.
#[derive(Clone, Copy, Debug, PartialEq, Eq, Structural)]
pub struct SubgridData {
    pub alphas: u32,
    pub alpha: u32,
    pub logxir: u32,
    pub logxif: u32,
}

/// Are the samples `after` the samples `before`, each with its weight
/// replaced by what `rescale` gives for that weight and `factor`?
pub open spec fn rescaled<F: Fn(u64, u64) -> u64>(
    before: Seq<Ntuple>,
    after: Seq<Ntuple>,
    factor: u64,
    rescale: &F,
) -> bool {
    &&& after.len() == before.len()
    &&& forall|i: int|
        0 <= i < before.len() ==> {
            &&& (#[trigger] after[i]).x1 == before[i].x1
            &&& after[i].x2 == before[i].x2
            &&& after[i].q2 == before[i].q2
            &&& rescale.ensures((before[i].weight, factor), after[i].weight)
        }
}

/// Can `sum` be what `accumulate` has built when it was called for each of
/// `samples` in turn? It is called with the sum so far, which starts as the
/// pattern 0, and the sample.
pub open spec fn folded<F: Fn(u64, Ntuple) -> u64>(
    samples: Seq<Ntuple>,
    accumulate: &F,
    sum: u64,
) -> bool
    decreases samples.len(),
{
    if samples.len() == 0 {
        sum == 0
    } else {
        exists|prev: u64|
            folded(samples.drop_last(), accumulate, prev) && #[trigger] accumulate.ensures(
                (prev, samples.last()),
                sum,
            )
    }
}

/// Structure holding a grid with an n-tuple as the storage method for
/// weights: for each observable bin and each luminosity channel, the samples
/// in the order in which they were filled.
pub struct NtupleSubgrid {
    ntuples: Vec<Vec<Vec<Ntuple>>>,
    lumi_len: usize,
    subgrid_data: SubgridData,
}

impl NtupleSubgrid {
    #[verifier::type_invariant]
    spec fn every_bin_has_every_channel(self) -> bool {
        forall|bin: int|
            0 <= bin < self.ntuples@.len() ==> (#[trigger] self.ntuples@[bin])@.len()
                == self.lumi_len
    }

    /// The number of observable bins.
    pub closed spec fn bins(self) -> nat {
        self.ntuples@.len()
    }

    /// The number of luminosity channels.
    pub closed spec fn lumi_len(self) -> nat {
        self.lumi_len as nat
    }

    /// The samples stored for the bin `bin` and the channel `lumi`, oldest
    /// first.
    pub closed spec fn stored(self, bin: int, lumi: int) -> Seq<Ntuple> {
        self.ntuples@[bin]@[lumi]@
    }

    /// The order that the subgrid belongs to.
    pub closed spec fn order(self) -> SubgridData {
        self.subgrid_data
    }

    /// Constructor.
    #[must_use]
    pub fn new(lumi_len: usize, bins: usize, subgrid_data: SubgridData) -> (r: Self)
        requires
            lumi_len > 0,
            bins > 0,
        ensures
            r.bins() == bins,
            r.lumi_len() == lumi_len,
            r.order() == subgrid_data,
            forall|bin: int, lumi: int|
                0 <= bin < bins && 0 <= lumi < lumi_len ==> #[trigger] r.stored(bin, lumi)
                    == Seq::<Ntuple>::empty(),
    {
        let mut ntuples: Vec<Vec<Vec<Ntuple>>> = Vec::new();
        for bin in 0..bins
            invariant
                ntuples@.len() == bin,
                forall|b: int|
                    0 <= b < bin ==> (#[trigger] ntuples@[b])@.len() == lumi_len,
                forall|b: int, l: int|
                    0 <= b < bin && 0 <= l < lumi_len ==> (#[trigger] ntuples@[b]@[l])@
                        == Seq::<Ntuple>::empty(),
        {
            let mut row: Vec<Vec<Ntuple>> = Vec::new();
            for lumi in 0..lumi_len
                invariant
                    row@.len() == lumi,
                    forall|l: int| 0 <= l < lumi ==> (#[trigger] row@[l])@ == Seq::<Ntuple>::empty(),
            {
                row.push(Vec::new());
            }
            ntuples.push(row);
        }
        Self { ntuples, lumi_len, subgrid_data }
    }

    /// The subgrid that holds the samples `ntuples`, listed for each bin and
    /// in it for each channel, or `None` where there is no bin, no channel,
    /// or not the same number of channels in every bin.
    pub fn from_ntuples(ntuples: Vec<Vec<Vec<Ntuple>>>, subgrid_data: SubgridData) -> (r: Option<
        Self,
    >)
        ensures
            r is Some <==> ntuples@.len() > 0 && ntuples@[0]@.len() > 0 && forall|bin: int|
                0 <= bin < ntuples@.len() ==> (#[trigger] ntuples@[bin])@.len()
                    == ntuples@[0]@.len(),
            r matches Some(grid) ==> {
                &&& grid.bins() == ntuples@.len()
                &&& grid.lumi_len() == ntuples@[0]@.len()
                &&& grid.order() == subgrid_data
                &&& forall|bin: int, lumi: int|
                    0 <= bin < grid.bins() && 0 <= lumi < grid.lumi_len()
                        ==> #[trigger] grid.stored(bin, lumi) == ntuples@[bin]@[lumi]@
            },
    {
        let bins: usize = ntuples.len();
        if bins == 0 {
            return None;
        }
        let lumi_len: usize = ntuples[0].len();
        if lumi_len == 0 {
            return None;
        }
        for bin in 0..bins
            invariant
                bins == ntuples@.len(),
                lumi_len == ntuples@[0]@.len(),
                forall|b: int| 0 <= b < bin ==> (#[trigger] ntuples@[b])@.len() == lumi_len,
        {
            if ntuples[bin].len() != lumi_len {
                return None;
            }
        }
        Some(Self { ntuples, lumi_len, subgrid_data })
    }

    /// Those samples of every bin and channel.
    pub fn ntuples(&self) -> (r: &Vec<Vec<Vec<Ntuple>>>)
        ensures
            r@.len() == self.bins(),
            forall|bin: int|
                0 <= bin < self.bins() ==> (#[trigger] r@[bin])@.len() == self.lumi_len(),
            forall|bin: int, lumi: int|
                0 <= bin < self.bins() && 0 <= lumi < self.lumi_len() ==> (#[trigger] r@[bin]@[lumi])@
                    == self.stored(bin, lumi),
    {
        proof {
            use_type_invariant(self);
        }
        &self.ntuples
    }

    /// Stores one sample in the bin `obs_index`: for each channel the
    /// momentum fractions and the scale with that channel's weight.
    pub fn fill(&mut self, x1: u64, x2: u64, q2: u64, obs_index: usize, weights: &[u64])
        requires
            weights.len() == old(self).lumi_len(),
            obs_index < old(self).bins(),
        ensures
            final(self).bins() == old(self).bins(),
            final(self).lumi_len() == old(self).lumi_len(),
            final(self).order() == old(self).order(),
            forall|bin: int, lumi: int|
                0 <= bin < old(self).bins() && 0 <= lumi < old(self).lumi_len()
                    ==> #[trigger] final(self).stored(bin, lumi) == (if bin == obs_index {
                    old(self).stored(bin, lumi).push(
                        Ntuple { x1, x2, q2, weight: weights[lumi] },
                    )
                } else {
                    old(self).stored(bin, lumi)
                }),
    {
        proof {
            use_type_invariant(&*self);
        }
        let lumi_len: usize = self.lumi_len;
        let mut this = Self { ntuples: Vec::new(), lumi_len, subgrid_data: self.subgrid_data };
        core::mem::swap(self, &mut this);
        let NtupleSubgrid { mut ntuples, lumi_len, subgrid_data } = this;
        let ghost before = ntuples;
        for lumi_index in 0..lumi_len
            invariant
                weights.len() == lumi_len,
                obs_index < ntuples@.len(),
                ntuples@.len() == before@.len(),
                forall|b: int|
                    0 <= b < ntuples@.len() ==> (#[trigger] ntuples@[b])@.len() == lumi_len,
                forall|b: int|
                    0 <= b < before@.len() ==> (#[trigger] before@[b])@.len() == lumi_len,
                forall|b: int, l: int|
                    0 <= b < ntuples@.len() && 0 <= l < lumi_len ==> (#[trigger] ntuples@[b]@[l])@
                        == (if b == obs_index && l < lumi_index {
                        before@[b]@[l]@.push(Ntuple { x1, x2, q2, weight: weights[l] })
                    } else {
                        before@[b]@[l]@
                    }),
        {
            let weight: u64 = weights[lumi_index];
            ntuples[obs_index][lumi_index].push(Ntuple::new(x1, x2, q2, weight));
        }
        *self = NtupleSubgrid { ntuples, lumi_len, subgrid_data };
    }

    /// Is `after` what scaling every weight by `factor` makes of `before`?
    /// Every sample stays where it is, with its weight replaced by what
    /// `rescale` gives for the weight and `factor`.
    pub open spec fn scaled<F: Fn(u64, u64) -> u64>(
        before: Self,
        after: Self,
        factor: u64,
        rescale: &F,
    ) -> bool {
        &&& after.bins() == before.bins()
        &&& after.lumi_len() == before.lumi_len()
        &&& after.order() == before.order()
        &&& forall|bin: int, lumi: int|
            0 <= bin < before.bins() && 0 <= lumi < before.lumi_len() ==> rescaled(
                before.stored(bin, lumi),
                #[trigger] after.stored(bin, lumi),
                factor,
                rescale,
            )
    }

    /// Scales the weight of every sample by `factor`, with `rescale` to
    /// multiply.
    pub fn scale<F: Fn(u64, u64) -> u64>(&mut self, factor: u64, rescale: &F)
        requires
            forall|w: u64, f: u64| rescale.requires((w, f)),
        ensures
            Self::scaled(*old(self), *final(self), factor, rescale),
    {
        proof {
            use_type_invariant(&*self);
        }
        let lumi_len: usize = self.lumi_len;
        let mut this = Self { ntuples: Vec::new(), lumi_len, subgrid_data: self.subgrid_data };
        core::mem::swap(self, &mut this);
        let NtupleSubgrid { mut ntuples, lumi_len, subgrid_data } = this;
        let ghost before = ntuples;
        let bins: usize = ntuples.len();
        for i in 0..bins
            invariant
                ntuples@.len() == bins,
                before@.len() == bins,
                forall|w: u64, f: u64| rescale.requires((w, f)),
                forall|b: int|
                    0 <= b < bins ==> (#[trigger] ntuples@[b])@.len() == lumi_len,
                forall|b: int| 0 <= b < bins ==> (#[trigger] before@[b])@.len() == lumi_len,
                forall|b: int, l: int|
                    0 <= b < i && 0 <= l < lumi_len ==> rescaled(
                        before@[b]@[l]@,
                        (#[trigger] ntuples@[b]@[l])@,
                        factor,
                        rescale,
                    ),
                forall|b: int| i <= b < bins ==> #[trigger] ntuples@[b] == before@[b],
        {
            Self::scale_bin(&mut ntuples[i], factor, rescale);
        }
        *self = NtupleSubgrid { ntuples, lumi_len, subgrid_data };
    }

    /// Rescales the samples of every channel of one bin.
    fn scale_bin<F: Fn(u64, u64) -> u64>(bin: &mut Vec<Vec<Ntuple>>, factor: u64, rescale: &F)
        requires
            forall|w: u64, f: u64| rescale.requires((w, f)),
        ensures
            final(bin)@.len() == old(bin)@.len(),
            forall|l: int|
                0 <= l < old(bin)@.len() ==> rescaled(
                    old(bin)@[l]@,
                    (#[trigger] final(bin)@[l])@,
                    factor,
                    rescale,
                ),
    {
        let channels: usize = bin.len();
        for j in 0..channels
            invariant
                bin@.len() == channels,
                old(bin)@.len() == channels,
                forall|w: u64, f: u64| rescale.requires((w, f)),
                forall|l: int|
                    0 <= l < j ==> rescaled(old(bin)@[l]@, (#[trigger] bin@[l])@, factor, rescale),
                forall|l: int| j <= l < channels ==> #[trigger] bin@[l] == old(bin)@[l],
        {
            Self::scale_channel(&mut bin[j], factor, rescale);
        }
    }

    /// Rescales the samples of one channel of one bin.
    fn scale_channel<F: Fn(u64, u64) -> u64>(samples: &mut Vec<Ntuple>, factor: u64, rescale: &F)
        requires
            forall|w: u64, f: u64| rescale.requires((w, f)),
        ensures
            rescaled(old(samples)@, final(samples)@, factor, rescale),
    {
        let count: usize = samples.len();
        for k in 0..count
            invariant
                samples@.len() == count,
                old(samples)@.len() == count,
                forall|w: u64, f: u64| rescale.requires((w, f)),
                forall|i: int|
                    0 <= i < k ==> {
                        &&& (#[trigger] samples@[i]).x1 == old(samples)@[i].x1
                        &&& samples@[i].x2 == old(samples)@[i].x2
                        &&& samples@[i].q2 == old(samples)@[i].q2
                        &&& rescale.ensures((old(samples)@[i].weight, factor), samples@[i].weight)
                    },
                forall|i: int| k <= i < count ==> #[trigger] samples@[i] == old(samples)@[i],
        {
            let sample: Ntuple = samples[k];
            let weight: u64 = rescale(sample.weight, factor);
            samples[k] = Ntuple::new(sample.x1, sample.x2, sample.q2, weight);
        }
    }

    /// Is there no sample in any bin and channel?
    pub fn is_empty(&self) -> (r: bool)
        ensures
            r <==> forall|bin: int, lumi: int|
                0 <= bin < self.bins() && 0 <= lumi < self.lumi_len() ==> (#[trigger] self.stored(
                    bin,
                    lumi,
                )).len() == 0,
    {
        proof {
            use_type_invariant(self);
        }
        let bins: usize = self.ntuples.len();
        let lumi_len: usize = self.lumi_len;
        for bin in 0..bins
            invariant
                bins == self.ntuples@.len(),
                lumi_len == self.lumi_len,
                forall|b: int| 0 <= b < bins ==> (#[trigger] self.ntuples@[b])@.len() == lumi_len,
                forall|b: int, l: int|
                    0 <= b < bin && 0 <= l < lumi_len ==> (#[trigger] self.stored(b, l)).len()
                        == 0,
        {
            for lumi in 0..lumi_len
                invariant
                    bin < bins,
                    bins == self.ntuples@.len(),
                    lumi_len == self.lumi_len,
                    self.ntuples@[bin as int]@.len() == lumi_len,
                    forall|b: int, l: int|
                        0 <= b < bin && 0 <= l < lumi_len ==> (#[trigger] self.stored(b, l)).len()
                            == 0,
                    forall|l: int|
                        0 <= l < lumi ==> (#[trigger] self.stored(bin as int, l)).len() == 0,
            {
                if self.ntuples[bin][lumi].len() > 0 {
                    assert(self.stored(bin as int, lumi as int).len() > 0);
                    return false;
                }
            }
        }
        true
    }

    /// Convolutes the samples of the bin `obs_index` and the channel
    /// `lumi_index`: `accumulate` is called for each of them in the order
    /// in which they were filled, and what it has built is returned, which
    /// is the pattern 0 where there is no sample.
    pub fn convolute<F: Fn(u64, Ntuple) -> u64>(
        &self,
        obs_index: usize,
        lumi_index: usize,
        accumulate: &F,
    ) -> (r: u64)
        requires
            obs_index < self.bins(),
            lumi_index < self.lumi_len(),
            forall|sum: u64, ntuple: Ntuple| accumulate.requires((sum, ntuple)),
        ensures
            folded(self.stored(obs_index as int, lumi_index as int), accumulate, r),
    {
        proof {
            use_type_invariant(self);
        }
        let samples: &Vec<Ntuple> = &self.ntuples[obs_index][lumi_index];
        let count: usize = samples.len();
        let mut sum: u64 = 0;
        assert(samples@.take(0) =~= Seq::<Ntuple>::empty());
        for k in 0..count
            invariant
                count == samples@.len(),
                forall|sum: u64, ntuple: Ntuple| accumulate.requires((sum, ntuple)),
                folded(samples@.take(k as int), accumulate, sum),
        {
            let ghost prev = sum;
            sum = accumulate(sum, samples[k]);
            assert(samples@.take(k + 1).drop_last() =~= samples@.take(k as int));
            assert(samples@.take(k + 1).last() == samples@[k as int]);
        }
        assert(samples@.take(count as int) =~= samples@);
        sum
    }

    /// Is `after` what merging `b` into `a` makes of `a`? In every bin and
    /// channel it holds the samples of `a` and then those of `b`.
    pub open spec fn merges(a: Self, b: Self, after: Self) -> bool {
        &&& after.bins() == a.bins()
        &&& after.lumi_len() == a.lumi_len()
        &&& after.order() == a.order()
        &&& forall|bin: int, lumi: int|
            0 <= bin < a.bins() && 0 <= lumi < a.lumi_len() ==> #[trigger] after.stored(bin, lumi)
                == a.stored(bin, lumi) + b.stored(bin, lumi)
    }

    /// Is the subgrid as `before` was, but for its samples, of which there
    /// are none?
    pub open spec fn emptied(self, before: Self) -> bool {
        &&& self.bins() == before.bins()
        &&& self.lumi_len() == before.lumi_len()
        &&& self.order() == before.order()
        &&& forall|bin: int, lumi: int|
            0 <= bin < self.bins() && 0 <= lumi < self.lumi_len() ==> #[trigger] self.stored(
                bin,
                lumi,
            ) == Seq::<Ntuple>::empty()
    }

    /// Merges `other` into `self`: the samples of `other` are moved behind
    /// those of `self`, bin by bin and channel by channel. Only a subgrid
    /// with the same bins and channels and of the same order is merged.
    pub fn merge(&mut self, other: &mut NtupleSubgrid) -> (r: Result<(), MergeError>)
        ensures
            r == Err::<(), MergeError>(MergeError::ParameterMismatch) <==> !(old(self).bins()
                == old(other).bins() && old(self).lumi_len() == old(other).lumi_len() && old(self).order() == old(other).order()),
            r is Err ==> r == Err::<(), MergeError>(MergeError::ParameterMismatch) && *final(self)
                == *old(self) && *final(other) == *old(other),
            r is Ok ==> Self::merges(*old(self), *old(other), *final(self)) && final(other).emptied(*old(other)),
    {
        proof {
            use_type_invariant(&*self);
            use_type_invariant(&*other);
        }
        let lumi_len: usize = self.lumi_len;
        if self.ntuples.len() != other.ntuples.len() || lumi_len != other.lumi_len
            || self.subgrid_data != other.subgrid_data {
            return Err(MergeError::ParameterMismatch);
        }
        let mut this = Self { ntuples: Vec::new(), lumi_len, subgrid_data: self.subgrid_data };
        core::mem::swap(self, &mut this);
        let NtupleSubgrid { ntuples: mut mine, lumi_len, subgrid_data } = this;
        let mut that = Self { ntuples: Vec::new(), lumi_len, subgrid_data };
        core::mem::swap(other, &mut that);
        let NtupleSubgrid { ntuples: mut theirs, lumi_len: _, subgrid_data: _ } = that;
        let ghost mine_before = mine;
        let ghost theirs_before = theirs;
        let bins: usize = mine.len();
        for bin in 0..bins
            invariant
                mine@.len() == bins,
                theirs@.len() == bins,
                mine_before@.len() == bins,
                theirs_before@.len() == bins,
                forall|b: int| 0 <= b < bins ==> (#[trigger] mine@[b])@.len() == lumi_len,
                forall|b: int| 0 <= b < bins ==> (#[trigger] theirs@[b])@.len() == lumi_len,
                forall|b: int| 0 <= b < bins ==> (#[trigger] mine_before@[b])@.len() == lumi_len,
                forall|b: int|
                    0 <= b < bins ==> (#[trigger] theirs_before@[b])@.len() == lumi_len,
                forall|b: int| bin <= b < bins ==> #[trigger] mine@[b] == mine_before@[b],
                forall|b: int| bin <= b < bins ==> #[trigger] theirs@[b] == theirs_before@[b],
                forall|b: int, l: int|
                    0 <= b < bin && 0 <= l < lumi_len ==> (#[trigger] mine@[b]@[l])@
                        == mine_before@[b]@[l]@ + theirs_before@[b]@[l]@,
                forall|b: int, l: int|
                    0 <= b < bin && 0 <= l < lumi_len ==> (#[trigger] theirs@[b]@[l])@
                        == Seq::<Ntuple>::empty(),
        {
            Self::merge_bin(&mut mine[bin], &mut theirs[bin]);
        }
        *self = NtupleSubgrid { ntuples: mine, lumi_len, subgrid_data };
        *other = NtupleSubgrid { ntuples: theirs, lumi_len, subgrid_data };
        Ok(())
    }

    /// Moves the samples of every channel of one bin behind those of
    /// another.
    fn merge_bin(mine: &mut Vec<Vec<Ntuple>>, theirs: &mut Vec<Vec<Ntuple>>)
        requires
            old(mine)@.len() == old(theirs)@.len(),
        ensures
            final(mine)@.len() == old(mine)@.len(),
            final(theirs)@.len() == old(theirs)@.len(),
            forall|l: int|
                0 <= l < old(mine)@.len() ==> (#[trigger] final(mine)@[l])@ == old(mine)@[l]@
                    + old(theirs)@[l]@,
            forall|l: int|
                0 <= l < old(mine)@.len() ==> (#[trigger] final(theirs)@[l])@
                    == Seq::<Ntuple>::empty(),
    {
        let channels: usize = mine.len();
        for lumi in 0..channels
            invariant
                mine@.len() == channels,
                theirs@.len() == channels,
                old(mine)@.len() == channels,
                old(theirs)@.len() == channels,
                forall|l: int| lumi <= l < channels ==> #[trigger] mine@[l] == old(mine)@[l],
                forall|l: int| lumi <= l < channels ==> #[trigger] theirs@[l] == old(theirs)@[l],
                forall|l: int|
                    0 <= l < lumi ==> (#[trigger] mine@[l])@ == old(mine)@[l]@ + old(theirs)@[l]@,
                forall|l: int|
                    0 <= l < lumi ==> (#[trigger] theirs@[l])@ == Seq::<Ntuple>::empty(),
        {
            mine[lumi].append(&mut theirs[lumi]);
        }
    }

    /// The order that the subgrid belongs to.
    pub fn data(&self) -> (r: &SubgridData)
        ensures
            *r == self.order(),
    {
        &self.subgrid_data
    }
}

} // verus!
