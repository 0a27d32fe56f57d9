//! Running statistics over the path weights.

use vstd::prelude::*;

use super::metadata::WeightStats;
use crate::double::Double;

verus! {

/// The bit pattern of 1e-9, the spread of fewer than two weights.
pub const SIGMA_FLOOR_BITS: u64 = 0x3E11_2E0B_E826_D695;

/// The statistics before the first weight.
pub open spec fn no_stats() -> WeightStats {
    WeightStats { n: 0, mu: Double { bits: 0 }, m2: Double { bits: 0 } }
}

impl Default for WeightStats {
    fn default() -> (r: Self)
        ensures
            r == no_stats(),
    {
        WeightStats { n: 0, mu: Double::zero(), m2: Double::zero() }
    }
}

/// `advance` gave the mean and the sum of squared deviations of `after`, which counts one weight
/// more than `before`.
pub open spec fn advanced<A: Fn(u64, WeightStats, Double) -> (Double, Double)>(
    advance: A,
    before: WeightStats,
    w: Double,
    after: WeightStats,
) -> bool {
    after.n == before.n + 1 && call_ensures(advance, (after.n, before, w), (after.mu, after.m2))
}

impl WeightStats {
    /// Takes one weight into account. `advance` works out the new mean and the new sum of squared
    /// deviations from the new count, the statistics so far and the weight.
    pub fn update<A: Fn(u64, WeightStats, Double) -> (Double, Double)>(
        &mut self,
        w: Double,
        advance: &A,
    )
        requires
            old(self).n < u64::MAX,
            call_requires(*advance, ((old(self).n + 1) as u64, *old(self), w)),
        ensures
            advanced(*advance, *old(self), w, *final(self)),
    {
        let n: u64 = self.n + 1;
        let moments: (Double, Double) = advance(n, *self, w);
        *self = WeightStats { n, mu: moments.0, m2: moments.1 };
    }

    /// The spread of the weights. `root` works out the standard deviation from the sum of squared
    /// deviations and the degrees of freedom, of which there must be at least one.
    pub fn sigma<R: Fn(Double, u64) -> Double>(&self, root: &R) -> (r: Double)
        requires
            self.n > 1 ==> call_requires(*root, (self.m2, (self.n - 1) as u64)),
        ensures
            self.n > 1 ==> call_ensures(*root, (self.m2, (self.n - 1) as u64), r),
            self.n <= 1 ==> r == (Double { bits: SIGMA_FLOOR_BITS }),
    {
        if self.n > 1 {
            root(self.m2, self.n - 1)
        } else {
            Double { bits: SIGMA_FLOOR_BITS }
        }
    }
}

/// Statistics that took in one weight after the other count each of them once.
pub proof fn every_weight_is_counted<A: Fn(u64, WeightStats, Double) -> (Double, Double)>(
    advance: A,
    weights: Seq<Double>,
    steps: Seq<WeightStats>,
    n: nat,
)
    requires
        steps.len() == weights.len() + 1,
        n <= weights.len(),
        steps[0] == no_stats(),
        forall|i: int|
            #![trigger weights[i]]
            0 <= i < weights.len() ==> advanced(advance, steps[i], weights[i], steps[i + 1]),
    ensures
        steps[n as int].n == n,
    decreases n,
{
    if n > 0 {
        every_weight_is_counted(advance, weights, steps, (n - 1) as nat);
        assert(advanced(advance, steps[n - 1], weights[n - 1], steps[n as int]));
    }
}

/// The mean and the sum of squared deviations are what the calculation gives for the new count, the
/// statistics before, and the weight that is taken in.
pub proof fn moments_follow_the_weight<A: Fn(u64, WeightStats, Double) -> (Double, Double)>(
    advance: A,
    before: WeightStats,
    w: Double,
    after: WeightStats,
    mean: Double,
    deviations: Double,
)
    requires
        before.n < u64::MAX,
        advanced(advance, before, w, after),
        forall|x: (Double, Double)| #[trigger]
            call_ensures(advance, ((before.n + 1) as u64, before, w), x) ==> x == (
                mean,
                deviations,
            ),
    ensures
        after == (WeightStats { n: (before.n + 1) as u64, mu: mean, m2: deviations }),
{
    assert(call_ensures(
        advance,
        ((before.n + 1) as u64, before, w),
        (after.mu, after.m2),
    ));
}

/// The spread is taken over one less than the number of weights, and is the floor where fewer than two
/// were counted.
pub proof fn spread_of_weights<R: Fn(Double, u64) -> Double>(
    stats: WeightStats,
    root: R,
    r: Double,
)
    requires
        call_ensures(WeightStats::sigma::<R>, (&stats, &root), r),
    ensures
        stats.n < 2 ==> r == (Double { bits: 0x3E11_2E0B_E826_D695 }),
        stats.n >= 2 ==> call_ensures(root, (stats.m2, (stats.n - 1) as u64), r),
{
}

} // verus!
