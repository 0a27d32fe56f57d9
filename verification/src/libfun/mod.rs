//! The fuzzer with a fixed set of eight features, whose search over weight vectors runs in
//! windows of time.

pub mod features_map;
pub mod power_stage;
pub mod scorer;
pub mod startup;
pub mod tpe;
pub mod tpe_stage;

use vstd::prelude::*;

use crate::double::{Double, NAN_BITS, ONE_BITS};
use crate::feature_sched::metadata::{
    copy_numbers, initial_params, FactorParams, BETA_BITS, GMAX_BITS,
};

verus! {

/// The switches and settings of a fuzzer that keeps them apart from its state.
pub struct Settings {
    /// Has the exploring phase ended?
    pub features_active: bool,
    pub feat_enabled: bool,
    pub feat_exists: bool,
    pub feat_val0: Double,
    pub alpha_init: Double,
    pub factor_params: FactorParams,
    pub current_v: Vec<Double>,
}

impl Settings {
    /// The settings before any are made.
    pub fn new() -> (r: Self)
        ensures
            !r.features_active,
            !r.feat_enabled,
            !r.feat_exists,
            r.feat_val0 == (Double { bits: 0 }),
            r.alpha_init == (Double { bits: NAN_BITS }),
            r.factor_params == initial_params(),
            r.current_v@.len() == 0,
    {
        Settings {
            features_active: false,
            feat_enabled: false,
            feat_exists: false,
            feat_val0: Double::zero(),
            alpha_init: Double { bits: NAN_BITS },
            factor_params: FactorParams {
                alpha: Double { bits: ONE_BITS },
                beta: Double { bits: BETA_BITS },
                gmin: Double::zero(),
                gmax: Double { bits: GMAX_BITS },
                use_tanh: false,
            },
            current_v: Vec::new(),
        }
    }
}

/// Do the features steer the scheduling?
pub fn features_enabled(settings: &Settings) -> (r: bool)
    ensures
        r == settings.feat_enabled,
{
    settings.feat_enabled
}

/// Sets whether the features steer the scheduling.
pub fn set_features_enabled(settings: &mut Settings, v: bool)
    ensures
        *final(settings) == (Settings { feat_enabled: v, ..*old(settings) }),
{
    settings.feat_enabled = v;
}

/// Was a feature map loaded?
pub fn feat_exists(settings: &Settings) -> (r: bool)
    ensures
        r == settings.feat_exists,
{
    settings.feat_exists
}

/// Sets whether a feature map was loaded.
pub fn set_feat_exists(settings: &mut Settings, v: bool)
    ensures
        *final(settings) == (Settings { feat_exists: v, ..*old(settings) }),
{
    settings.feat_exists = v;
}

/// Sets the factor parameters.
pub fn set_factor_params(settings: &mut Settings, p: FactorParams)
    ensures
        *final(settings) == (Settings { factor_params: p, ..*old(settings) }),
{
    settings.factor_params = p;
}

/// The factor parameters.
pub fn get_factor_params(settings: &Settings) -> (r: FactorParams)
    ensures
        r == settings.factor_params,
{
    settings.factor_params
}

/// The weight vector in use.
pub fn get_current_weight_vec(settings: &Settings) -> (r: Vec<Double>)
    ensures
        r@ == settings.current_v@,
{
    copy_numbers(&settings.current_v)
}

/// Lets the features steer the scheduling where exploring is over, a feature map was loaded, and
/// the feature mode is not 0.
pub fn recompute_features_enabled(settings: &mut Settings, feat_mode: u8)
    ensures
        *final(settings) == (Settings {
            feat_enabled: old(settings).features_active && old(settings).feat_exists && feat_mode
                != 0,
            ..*old(settings)
        }),
{
    settings.feat_enabled = settings.features_active && settings.feat_exists && feat_mode != 0;
}

/// Sets the weight of the first coverage site.
pub fn set_feat0(settings: &mut Settings, v: Double)
    ensures
        *final(settings) == (Settings { feat_val0: v, ..*old(settings) }),
{
    settings.feat_val0 = v;
}

/// The weight of the first coverage site.
pub fn get_feat0(settings: &Settings) -> (r: Double)
    ensures
        r == settings.feat_val0,
{
    settings.feat_val0
}

/// Sets the initial alpha.
pub fn set_alpha_init(settings: &mut Settings, v: Double)
    ensures
        *final(settings) == (Settings { alpha_init: v, ..*old(settings) }),
{
    settings.alpha_init = v;
}

/// The initial alpha, NaN where none is set.
pub fn get_alpha_init(settings: &Settings) -> (r: Double)
    ensures
        r == settings.alpha_init,
{
    settings.alpha_init
}

/// The features are enabled exactly where the exploring phase has ended, there is a feature map, and
/// the mode is not 0; no other setting changes.
pub proof fn enabling_needs_everything(settings: &mut Settings, feat_mode: u8)
    requires
        call_ensures(recompute_features_enabled, (settings, feat_mode), ()),
    ensures
        final(settings).feat_enabled <==> old(settings).features_active && old(settings).feat_exists
            && feat_mode > 0,
        final(settings).features_active == old(settings).features_active,
        final(settings).feat_exists == old(settings).feat_exists,
        final(settings).factor_params == old(settings).factor_params,
        final(settings).alpha_init == old(settings).alpha_init,
        final(settings).current_v == old(settings).current_v,
{
}

} // verus!
