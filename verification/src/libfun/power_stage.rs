//! How often a testcase is mutated, by its score.

use vstd::prelude::*;

use crate::double::{Double, ONE_BITS};
use crate::feature_sched::factor::{compute_factor, factor_applies, factorable, factored};
use crate::feature_sched::metadata::{FactorParams, PathWeightMeta, WeightStats};

verus! {

/// The bit pattern of 100, the score that stands for one run.
pub const DIVISOR_BITS: u64 = 0x4059_0000_0000_0000;

/// A stage that runs another one as often as the testcase's score says.
pub struct FeatureAwarePowerStage<T> {
    pub inner: T,
    /// The score that stands for one run.
    pub energy_divisor: Double,
}

impl<T> FeatureAwarePowerStage<T> {
    /// A stage with the usual divisor.
    pub fn new(inner: T) -> (r: Self)
        ensures
            r.inner == inner,
            r.energy_divisor == (Double { bits: DIVISOR_BITS }),
    {
        FeatureAwarePowerStage { inner, energy_divisor: Double { bits: DIVISOR_BITS } }
    }

    /// A stage with another divisor.
    pub fn with_divisor(inner: T, energy_divisor: Double) -> (r: Self)
        ensures
            r.inner == inner,
            r.energy_divisor == energy_divisor,
    {
        FeatureAwarePowerStage { inner, energy_divisor }
    }

    /// The testcase's score: its own one, times its factor where the features steer the
    /// scheduling. `times` multiplies; the other calculations are as for [`compute_factor`].
    pub fn perf_score<
        G: Fn(Double, WeightStats, FactorParams) -> Double,
        B: Fn(Double, Double) -> Double,
        M: Fn(Double, Double) -> Double,
    >(
        base: Double,
        params: &FactorParams,
        enabled: bool,
        stats: Option<WeightStats>,
        weight: Option<PathWeightMeta>,
        gain: &G,
        blend: &B,
        times: &M,
    ) -> (r: Double)
        requires
            factorable(*gain, *blend),
            factor_applies(enabled, stats, weight) ==> params.gmin.at_most(params.gmax),
            forall|x: Double, y: Double| #[trigger] call_requires(*times, (x, y)),
        ensures
            !enabled ==> r == base,
            enabled ==> exists|factor: Double| #[trigger]
                factored(*gain, *blend, *params, enabled, stats, weight, factor) && call_ensures(
                    *times,
                    (base, factor),
                    r,
                ),
    {
        if !enabled {
            return base;
        }
        let factor: Double = compute_factor(params, enabled, stats, weight, gain, blend);
        assert(call_requires(*times, (base, factor)));
        times(base, factor)
    }

    /// How often the testcase is run: as many whole times as its score holds the divisor, and at
    /// least once. `whole` cuts a number of at least 1 down to a count, and `over` divides.
    pub fn runs<O: Fn(Double, Double) -> Double, W: Fn(Double) -> usize>(
        &self,
        perf: Double,
        over: &O,
        whole: &W,
    ) -> (r: usize)
        requires
            forall|x: Double, y: Double| #[trigger] call_requires(*over, (x, y)),
            forall|x: Double| #[trigger] call_requires(*whole, (x,)),
        ensures
            exists|share: Double| #[trigger]
                call_ensures(*over, (perf, self.energy_divisor), share) && if (Double {
                    bits: ONE_BITS,
                }).below(share) {
                    call_ensures(*whole, (share,), r)
                } else {
                    r == 1
                },
    {
        assert(call_requires(*over, (perf, self.energy_divisor)));
        let share: Double = over(perf, self.energy_divisor);
        if Double::one().lt(share) {
            assert(call_requires(*whole, (share,)));
            whole(share)
        } else {
            1
        }
    }
}

/// A testcase keeps its own score while the features are disabled. Else that is multiplied by the factor
/// that is formed for it.
pub proof fn scores_are_multiplied<
    T,
    G: Fn(Double, WeightStats, FactorParams) -> Double,
    B: Fn(Double, Double) -> Double,
    M: Fn(Double, Double) -> Double,
>(
    base: Double,
    params: FactorParams,
    enabled: bool,
    stats: Option<WeightStats>,
    weight: Option<PathWeightMeta>,
    gain: G,
    blend: B,
    times: M,
    factor: Double,
    r: Double,
)
    requires
        call_ensures(
            FeatureAwarePowerStage::<T>::perf_score::<G, B, M>,
            (base, &params, enabled, stats, weight, &gain, &blend, &times),
            r,
        ),
        forall|x: Double| #[trigger]
            factored(gain, blend, params, enabled, stats, weight, x) ==> x == factor,
    ensures
        !enabled ==> r == base,
        enabled ==> call_ensures(times, (base, factor), r),
{
}

/// A testcase runs as often as its score holds the divisor, and at least once.
pub proof fn scores_become_runs<T, O: Fn(Double, Double) -> Double, W: Fn(Double) -> usize>(
    stage: FeatureAwarePowerStage<T>,
    perf: Double,
    over: O,
    whole: W,
    share: Double,
    r: usize,
)
    requires
        call_ensures(
            FeatureAwarePowerStage::<T>::runs::<O, W>,
            (&stage, perf, &over, &whole),
            r,
        ),
        forall|x: Double| #[trigger]
            call_ensures(over, (perf, stage.energy_divisor), x) ==> x == share,
    ensures
        share.at_most(Double { bits: 0x3FF0_0000_0000_0000 }) || share.nan() ==> r == 1,
        (Double { bits: 0x3FF0_0000_0000_0000 }).below(share) ==> call_ensures(whole, (share,), r),
{
}

/// A score of a hundred stands for one run unless another is given.
pub proof fn a_hundred_is_one_run<T>(inner: T, divisor: Double, r: FeatureAwarePowerStage<T>)
    ensures
        call_ensures(FeatureAwarePowerStage::<T>::new, (inner,), r) ==> r.inner == inner
            && r.energy_divisor == (Double { bits: 0x4059_0000_0000_0000 }),
        call_ensures(FeatureAwarePowerStage::<T>::with_divisor, (inner, divisor), r) ==> r.inner
            == inner && r.energy_divisor == divisor,
{
}

} // verus!
