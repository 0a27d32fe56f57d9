//! How much a testcase's path weight counts in its score.

use vstd::prelude::*;

use super::metadata::{FactorParams, PathWeightMeta, WeightStats, BETA_BITS, GMAX_BITS};
use crate::double::{Double, HALF_BITS, ONE_BITS};

verus! {

/// The bit pattern of 0.2.
pub const ALPHA_BITS: u64 = 0x3FC9_9999_9999_999A;

impl Default for FactorParams {
    fn default() -> (r: Self)
        ensures
            r == (FactorParams {
                alpha: Double { bits: ALPHA_BITS },
                beta: Double { bits: BETA_BITS },
                gmin: Double { bits: HALF_BITS },
                gmax: Double { bits: GMAX_BITS },
                use_tanh: false,
            }),
    {
        FactorParams {
            alpha: Double { bits: ALPHA_BITS },
            beta: Double { bits: BETA_BITS },
            gmin: Double { bits: HALF_BITS },
            gmax: Double { bits: GMAX_BITS },
            use_tanh: false,
        }
    }
}

/// Is there a factor to form? There is with the features enabled, a weight for the testcase and
/// statistics over two weights or more.
pub open spec fn factor_applies(
    enabled: bool,
    stats: Option<WeightStats>,
    weight: Option<PathWeightMeta>,
) -> bool {
    enabled && stats is Some && weight is Some && (stats->0).n >= 2
}

/// A gain within its bounds; one that is not finite counts as 1.
pub open spec fn bounded_gain(g: Double, params: FactorParams) -> Double {
    let sound = if g.finite() {
        g
    } else {
        Double { bits: ONE_BITS }
    };
    sound.bounded(params.gmin, params.gmax)
}

/// `r` is the factor of a testcase: 1 where there is none to form, else what `blend` made of the
/// bounded gain.
pub open spec fn factored<
    G: Fn(Double, WeightStats, FactorParams) -> Double,
    B: Fn(Double, Double) -> Double,
>(
    gain: G,
    blend: B,
    params: FactorParams,
    enabled: bool,
    stats: Option<WeightStats>,
    weight: Option<PathWeightMeta>,
    r: Double,
) -> bool {
    if factor_applies(enabled, stats, weight) {
        exists|g: Double| #[trigger]
            call_ensures(gain, ((weight->0).w, stats->0, params), g) && call_ensures(
                blend,
                (params.alpha, bounded_gain(g, params)),
                r,
            )
    } else {
        r == (Double { bits: ONE_BITS })
    }
}

/// Can the two calculations be asked for anything?
pub open spec fn factorable<
    G: Fn(Double, WeightStats, FactorParams) -> Double,
    B: Fn(Double, Double) -> Double,
>(gain: G, blend: B) -> bool {
    &&& forall|w: Double, s: WeightStats, p: FactorParams| #[trigger]
        call_requires(gain, (w, s, p))
    &&& forall|a: Double, g: Double| #[trigger] call_requires(blend, (a, g))
}

/// The factor of a testcase.
///
/// `gain` maps the weight's distance from the mean to a gain, by the slope and the curve that the
/// parameters name; `blend` mixes the bounded gain with 1 by the share alpha.
pub fn compute_factor<
    G: Fn(Double, WeightStats, FactorParams) -> Double,
    B: Fn(Double, Double) -> Double,
>(
    params: &FactorParams,
    enabled: bool,
    stats: Option<WeightStats>,
    weight: Option<PathWeightMeta>,
    gain: &G,
    blend: &B,
) -> (r: Double)
    requires
        factorable(*gain, *blend),
        factor_applies(enabled, stats, weight) ==> params.gmin.at_most(params.gmax),
    ensures
        factored(*gain, *blend, *params, enabled, stats, weight, r),
{
    if !enabled {
        return Double::one();
    }
    let s: WeightStats = match stats {
        Some(s) => s,
        None => {
            return Double::one();
        },
    };
    let pw: PathWeightMeta = match weight {
        Some(pw) => pw,
        None => {
            return Double::one();
        },
    };
    if s.n < 2 {
        return Double::one();
    }
    assert(call_requires(*gain, (pw.w, s, *params)));
    let raw: Double = gain(pw.w, s, *params);
    let sound: Double = if raw.is_finite() {
        raw
    } else {
        Double::one()
    };
    let g: Double = sound.clamp(params.gmin, params.gmax);
    assert(g == bounded_gain(raw, *params));
    assert(call_requires(*blend, (params.alpha, g)));
    blend(params.alpha, g)
}

/// A finite gain that lies within its bounds is kept. One that lies below them becomes the lower
/// bound, one above them the upper bound, and one that is not finite counts as a gain of 1.
pub proof fn gains_within_bounds_are_kept(g: Double, params: FactorParams)
    requires
        params.gmin.at_most(params.gmax),
    ensures
        g.finite() && params.gmin.at_most(g) && g.at_most(params.gmax) ==> bounded_gain(g, params)
            == g,
        g.finite() && g.below(params.gmin) ==> bounded_gain(g, params) == params.gmin,
        g.finite() && params.gmax.below(g) ==> bounded_gain(g, params) == params.gmax,
        !g.finite() ==> bounded_gain(g, params) == bounded_gain(
            Double { bits: 0x3FF0_0000_0000_0000 },
            params,
        ),
{
}

/// A testcase has the factor 1 as long as the features are disabled, as it has no path weight, and as
/// fewer than two weights were counted.
pub proof fn no_factor_to_form<
    G: Fn(Double, WeightStats, FactorParams) -> Double,
    B: Fn(Double, Double) -> Double,
>(
    gain: G,
    blend: B,
    params: FactorParams,
    enabled: bool,
    stats: Option<WeightStats>,
    weight: Option<PathWeightMeta>,
    r: Double,
)
    requires
        factored(gain, blend, params, enabled, stats, weight, r),
        !enabled || stats is None || weight is None || (stats->0).n < 2,
    ensures
        r == (Double { bits: 0x3FF0_0000_0000_0000 }),
{
}

/// With the features enabled, a path weight, and statistics over two weights or more, the factor is
/// what blending by alpha makes of the gain of that weight: of the gain itself where it lies within
/// its bounds, of the nearer bound where it does not, and of 1 within the bounds where it is not
/// finite.
pub proof fn factor_blends_the_gain<
    G: Fn(Double, WeightStats, FactorParams) -> Double,
    B: Fn(Double, Double) -> Double,
>(
    gain: G,
    blend: B,
    params: FactorParams,
    stats: WeightStats,
    w: Double,
    g: Double,
    r: Double,
)
    requires
        params.gmin.at_most(params.gmax),
        stats.n >= 2,
        forall|x: Double| #[trigger] call_ensures(gain, (w, stats, params), x) ==> x == g,
        factored(gain, blend, params, true, Some(stats), Some(PathWeightMeta { w }), r),
    ensures
        g.finite() && params.gmin.at_most(g) && g.at_most(params.gmax) ==> call_ensures(
            blend,
            (params.alpha, g),
            r,
        ),
        g.finite() && g.below(params.gmin) ==> call_ensures(blend, (params.alpha, params.gmin), r),
        g.finite() && params.gmax.below(g) ==> call_ensures(blend, (params.alpha, params.gmax), r),
        !g.finite() && params.gmin.at_most(Double { bits: 0x3FF0_0000_0000_0000 }) && (Double {
            bits: 0x3FF0_0000_0000_0000,
        }).at_most(params.gmax) ==> call_ensures(
            blend,
            (params.alpha, Double { bits: 0x3FF0_0000_0000_0000 }),
            r,
        ),
{
}

/// The computed factor is 1 where none is formed. Else it is what blending by alpha makes of the gain,
/// which is kept where it lies within its bounds.
pub proof fn computed_factors_blend_the_gain<
    G: Fn(Double, WeightStats, FactorParams) -> Double,
    B: Fn(Double, Double) -> Double,
>(
    gain: G,
    blend: B,
    params: FactorParams,
    enabled: bool,
    stats: WeightStats,
    w: Double,
    g: Double,
    r: Double,
)
    requires
        params.gmin.at_most(params.gmax),
        forall|x: Double| #[trigger] call_ensures(gain, (w, stats, params), x) ==> x == g,
        g.finite() && params.gmin.at_most(g) && g.at_most(params.gmax),
        call_ensures(
            compute_factor::<G, B>,
            (&params, enabled, Some(stats), Some(PathWeightMeta { w }), &gain, &blend),
            r,
        ),
    ensures
        enabled && stats.n >= 2 ==> call_ensures(blend, (params.alpha, g), r),
        !enabled || stats.n < 2 ==> r == (Double { bits: 0x3FF0_0000_0000_0000 }),
{
    if enabled && stats.n >= 2 {
        factor_blends_the_gain(gain, blend, params, stats, w, g, r);
    }
}

} // verus!
