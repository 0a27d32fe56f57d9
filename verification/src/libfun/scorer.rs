//! The score of a testcase, with its feature factor.

use vstd::prelude::*;

use crate::double::Double;
use crate::feature_sched::factor::{compute_factor, factor_applies, factorable, factored};
use crate::feature_sched::metadata::{FactorParams, PathWeightMeta, WeightStats};

verus! {

/// The score that takes the feature factor into account.
#[derive(Clone, Copy, PartialEq, Eq, Structural, Debug, Default)]
pub struct FeatureAwareFastScore;

impl FeatureAwareFastScore {
    /// The score of a testcase: its own score times its feature factor. `times` multiplies; the
    /// other calculations are as for [`compute_factor`].
    pub fn compute<
        G: Fn(Double, WeightStats, FactorParams) -> Double,
        B: Fn(Double, Double) -> Double,
        T: Fn(Double, Double) -> Double,
    >(
        base: Double,
        params: &FactorParams,
        enabled: bool,
        stats: Option<WeightStats>,
        weight: Option<PathWeightMeta>,
        gain: &G,
        blend: &B,
        times: &T,
    ) -> (r: Double)
        requires
            factorable(*gain, *blend),
            factor_applies(enabled, stats, weight) ==> params.gmin.at_most(params.gmax),
            forall|x: Double, y: Double| #[trigger] call_requires(*times, (x, y)),
        ensures
            exists|factor: Double| #[trigger]
                factored(*gain, *blend, *params, enabled, stats, weight, factor) && call_ensures(
                    *times,
                    (base, factor),
                    r,
                ),
    {
        let factor: Double = compute_factor(params, enabled, stats, weight, gain, blend);
        assert(call_requires(*times, (base, factor)));
        times(base, factor)
    }
}

/// The score of a testcase is its own score multiplied by the factor that is formed for it.
pub proof fn scores_are_multiplied<
    G: Fn(Double, WeightStats, FactorParams) -> Double,
    B: Fn(Double, Double) -> Double,
    T: Fn(Double, Double) -> Double,
>(
    base: Double,
    params: FactorParams,
    enabled: bool,
    stats: Option<WeightStats>,
    weight: Option<PathWeightMeta>,
    gain: G,
    blend: B,
    times: T,
    factor: Double,
    r: Double,
)
    requires
        call_ensures(
            FeatureAwareFastScore::compute::<G, B, T>,
            (base, &params, enabled, stats, weight, &gain, &blend, &times),
            r,
        ),
        forall|x: Double| #[trigger]
            factored(gain, blend, params, enabled, stats, weight, x) ==> x == factor,
    ensures
        call_ensures(times, (base, factor), r),
{
}

} // verus!
