//! Feature-aware scheduling: the schema, the feature map, the search over weight vectors.
//!
//! What the scheduler remembers between its steps stands in a [`SchedulerState`]; the functions
//! here read and write it.

pub mod accounting_stage;
pub mod candidates;
pub mod factor;
pub mod features_map;
pub mod metadata;
pub mod sancov_index_feedback;
pub mod schema;
pub mod stats;
pub mod sums;
pub mod tpe;
pub mod tpe_stage;
pub mod vec_mask;
pub mod vectors;
pub mod weights;

use vstd::prelude::*;

use crate::clock::now_epoch_ms;
use crate::double::Double;
use metadata::{
    arrays, copy_numbers, copy_rows, copy_specs, copy_texts, initial_globals, rows, specs,
    ExploreCreditMeta, FactorParams, FeatureGlobalsMeta, FeatureSpec, FeaturesMapMeta,
    FeaturesMatrixMeta, GlobalStatsMeta, GlobalsView, HistoryView, TpeHistoryMeta, WeightStats,
};
use vectors::{any_same, askable, found_among, found_nowhere, CANDIDATE_EPS_BITS};

verus! {

/// Everything that the scheduler keeps with the fuzzer's state. What is not there yet is `None`.
pub struct SchedulerState {
    pub globals: Option<FeatureGlobalsMeta>,
    pub feat_mode: Option<u8>,
    pub features_map: Option<FeaturesMapMeta>,
    pub features_matrix: Option<FeaturesMatrixMeta>,
    pub tpe_history: Option<TpeHistoryMeta>,
    pub global_stats: Option<GlobalStatsMeta>,
    pub explore_credits: Option<ExploreCreditMeta>,
}

/// The model of a [`FeaturesMatrixMeta`].
pub ghost struct MatrixView {
    pub columns: Map<Seq<char>, Seq<Double>>,
    pub sites: usize,
}

/// The model of a [`SchedulerState`]. Settings that were never made have their initial values.
pub ghost struct StateView {
    pub globals: GlobalsView,
    pub feat_mode: Option<u8>,
    pub feats: Option<Seq<Double>>,
    pub matrix: Option<MatrixView>,
    pub history: Option<HistoryView>,
    pub stats: Option<WeightStats>,
    pub credits: Option<Seq<Double>>,
}

impl View for SchedulerState {
    type V = StateView;

    open spec fn view(&self) -> StateView {
        StateView {
            globals: match self.globals {
                Some(g) => g@,
                None => initial_globals(),
            },
            feat_mode: self.feat_mode,
            feats: match self.features_map {
                Some(m) => Some(m.feats@),
                None => None,
            },
            matrix: match self.features_matrix {
                Some(m) => Some(MatrixView { columns: arrays(m.matrix@), sites: m.sites }),
                None => None,
            },
            history: match self.tpe_history {
                Some(h) => Some(h@),
                None => None,
            },
            stats: match self.global_stats {
                Some(s) => Some(s.stats),
                None => None,
            },
            credits: match self.explore_credits {
                Some(c) => Some(c.credits@),
                None => None,
            },
        }
    }
}

impl SchedulerState {
    /// A state in which nothing has been set.
    pub fn new() -> (r: Self)
        ensures
            r@ == (StateView {
                globals: initial_globals(),
                feat_mode: None,
                feats: None,
                matrix: None,
                history: None,
                stats: None,
                credits: None,
            }),
    {
        SchedulerState {
            globals: None,
            feat_mode: None,
            features_map: None,
            features_matrix: None,
            tpe_history: None,
            global_stats: None,
            explore_credits: None,
        }
    }
}

/// The settings, to be changed; those that were never made start from their initial values.
fn globals_mut(state: &mut SchedulerState) -> (g: &mut FeatureGlobalsMeta)
    ensures
        g@ == old(state)@.globals,
        final(state)@ == (StateView { globals: final(g)@, ..old(state)@ }),
{
    state.globals.get_or_insert(FeatureGlobalsMeta::default())
}

/// Has the exploring phase ended?
pub fn get_features_active(state: &SchedulerState) -> (r: bool)
    ensures
        r == state@.globals.features_active,
{
    match &state.globals {
        Some(g) => g.features_active,
        None => false,
    }
}

/// Was a feature map loaded?
pub fn get_feat_exists(state: &SchedulerState) -> (r: bool)
    ensures
        r == state@.globals.feat_exists,
{
    match &state.globals {
        Some(g) => g.feat_exists,
        None => false,
    }
}

/// Does the feature map allow the search over weight vectors?
pub fn get_tpe_satisfied(state: &SchedulerState) -> (r: bool)
    ensures
        r == state@.globals.tpe_satisfied,
{
    match &state.globals {
        Some(g) => g.tpe_satisfied,
        None => false,
    }
}

/// The weight of the first coverage site.
pub fn get_feat0(state: &SchedulerState) -> (r: Double)
    ensures
        r == state@.globals.feat_val0,
{
    match &state.globals {
        Some(g) => g.feat_val0,
        None => Double { bits: 0 },
    }
}

/// The length of the exploring phase in seconds.
pub fn get_explore_time(state: &SchedulerState) -> (r: u64)
    ensures
        r == state@.globals.explore_time_secs,
{
    match &state.globals {
        Some(g) => g.explore_time_secs,
        None => 43200,
    }
}

/// The length of one round of the search in seconds.
pub fn get_tpe_period(state: &SchedulerState) -> (r: u64)
    ensures
        r == state@.globals.tpe_period_secs,
{
    match &state.globals {
        Some(g) => g.tpe_period_secs,
        None => 600,
    }
}

/// The initial alpha, NaN where none is set.
pub fn get_alpha_init(state: &SchedulerState) -> (r: Double)
    ensures
        r == state@.globals.alpha_init,
{
    match &state.globals {
        Some(g) => g.alpha_init,
        None => Double { bits: crate::double::NAN_BITS },
    }
}

/// When fuzzing began, in milliseconds since the Unix epoch.
pub fn get_fuzz_start(state: &SchedulerState) -> (r: u64)
    ensures
        r == state@.globals.fuzz_start_epoch_ms,
{
    match &state.globals {
        Some(g) => g.fuzz_start_epoch_ms,
        None => 0,
    }
}

/// The number of active features.
pub fn get_active_dim(state: &SchedulerState) -> (r: usize)
    ensures
        r == state@.globals.feature_dim,
{
    match &state.globals {
        Some(g) => g.feature_dim,
        None => 0,
    }
}

/// The factor parameters.
pub fn get_factor_params(state: &SchedulerState) -> (r: FactorParams)
    ensures
        r == state@.globals.factor_params,
{
    match &state.globals {
        Some(g) => g.factor_params,
        None => FeatureGlobalsMeta::default().factor_params,
    }
}

/// The weight vector in use: alpha, then one weight for each active feature.
pub fn get_current_weight_vec(state: &SchedulerState) -> (r: Vec<Double>)
    ensures
        r@ == state@.globals.current_v,
{
    match &state.globals {
        Some(g) => copy_numbers(&g.current_v),
        None => {
            let r: Vec<Double> = Vec::new();
            assert(r@ =~= state@.globals.current_v);
            r
        },
    }
}

/// The weight vectors that wait to be tried.
pub fn get_v_candidates(state: &SchedulerState) -> (r: Vec<Vec<Double>>)
    ensures
        rows(r@) == state@.globals.v_candidates,
{
    match &state.globals {
        Some(g) => copy_rows(&g.v_candidates),
        None => {
            let r: Vec<Vec<Double>> = Vec::new();
            assert(rows(r@) =~= state@.globals.v_candidates);
            r
        },
    }
}

/// The names of the active features.
pub fn get_active_feature_names(state: &SchedulerState) -> (r: Vec<String>)
    ensures
        crate::text::texts(r@) == state@.globals.active_feature_names,
{
    match &state.globals {
        Some(g) => copy_texts(&g.active_feature_names),
        None => {
            let r: Vec<String> = Vec::new();
            assert(crate::text::texts(r@) =~= state@.globals.active_feature_names);
            r
        },
    }
}

/// The features of the schema.
pub fn get_schema_features(state: &SchedulerState) -> (r: Vec<FeatureSpec>)
    ensures
        specs(r@) == state@.globals.schema_features,
{
    match &state.globals {
        Some(g) => copy_specs(&g.schema_features),
        None => {
            let r: Vec<FeatureSpec> = Vec::new();
            assert(specs(r@) =~= state@.globals.schema_features);
            r
        },
    }
}

/// The active features.
pub fn get_active_features(state: &SchedulerState) -> (r: Vec<FeatureSpec>)
    ensures
        specs(r@) == state@.globals.active_features,
{
    match &state.globals {
        Some(g) => copy_specs(&g.active_features),
        None => {
            let r: Vec<FeatureSpec> = Vec::new();
            assert(specs(r@) =~= state@.globals.active_features);
            r
        },
    }
}

/// The feature mask.
pub fn get_vec_mask(state: &SchedulerState) -> (r: Vec<bool>)
    ensures
        r@ == state@.globals.vec_mask,
{
    match &state.globals {
        Some(g) => {
            let r: Vec<bool> = g.vec_mask.clone();
            assert(r@ =~= g.vec_mask@);
            r
        },
        None => Vec::new(),
    }
}

/// The feature mode, 1 where none was set.
pub open spec fn mode_of(s: StateView) -> u8 {
    match s.feat_mode {
        Some(m) => m,
        None => 1,
    }
}

/// Do the features steer the scheduling? They do once exploring is over, with a feature map, in
/// any mode but 0.
pub open spec fn enabled(s: StateView) -> bool {
    s.globals.features_active && s.globals.feat_exists && mode_of(s) != 0
}

/// The feature mode: 0 off, 1 weights, 2 power, 3 both.
pub fn get_feat_mode(state: &SchedulerState) -> (r: u8)
    ensures
        r == mode_of(state@),
{
    match state.feat_mode {
        Some(m) => m,
        None => 1,
    }
}

/// Do the features steer the scheduling?
pub fn get_features_enabled(state: &SchedulerState) -> (r: bool)
    ensures
        r == enabled(state@),
{
    get_features_active(state) && get_feat_exists(state) && get_feat_mode(state) != 0
}

/// Sets whether the exploring phase has ended.
pub fn set_features_active(state: &mut SchedulerState, v: bool)
    ensures
        final(state)@ == (StateView {
            globals: GlobalsView { features_active: v, ..old(state)@.globals },
            ..old(state)@
        }),
{
    let g: &mut FeatureGlobalsMeta = globals_mut(state);
    g.features_active = v;
}

/// Sets whether a feature map was loaded.
pub fn set_feat_exists(state: &mut SchedulerState, v: bool)
    ensures
        final(state)@ == (StateView {
            globals: GlobalsView { feat_exists: v, ..old(state)@.globals },
            ..old(state)@
        }),
{
    let g: &mut FeatureGlobalsMeta = globals_mut(state);
    g.feat_exists = v;
}

/// Sets whether the feature map allows the search.
pub fn set_tpe_satisfied(state: &mut SchedulerState, v: bool)
    ensures
        final(state)@ == (StateView {
            globals: GlobalsView { tpe_satisfied: v, ..old(state)@.globals },
            ..old(state)@
        }),
{
    let g: &mut FeatureGlobalsMeta = globals_mut(state);
    g.tpe_satisfied = v;
}

/// Sets the weight of the first coverage site.
pub fn set_feat0(state: &mut SchedulerState, v: Double)
    ensures
        final(state)@ == (StateView {
            globals: GlobalsView { feat_val0: v, ..old(state)@.globals },
            ..old(state)@
        }),
{
    let g: &mut FeatureGlobalsMeta = globals_mut(state);
    g.feat_val0 = v;
}

/// Sets the length of the exploring phase in seconds.
pub fn set_explore_time(state: &mut SchedulerState, secs: u64)
    ensures
        final(state)@ == (StateView {
            globals: GlobalsView { explore_time_secs: secs, ..old(state)@.globals },
            ..old(state)@
        }),
{
    let g: &mut FeatureGlobalsMeta = globals_mut(state);
    g.explore_time_secs = secs;
}

/// Sets the length of one round of the search in seconds.
pub fn set_tpe_period(state: &mut SchedulerState, secs: u64)
    ensures
        final(state)@ == (StateView {
            globals: GlobalsView { tpe_period_secs: secs, ..old(state)@.globals },
            ..old(state)@
        }),
{
    let g: &mut FeatureGlobalsMeta = globals_mut(state);
    g.tpe_period_secs = secs;
}

/// Sets the initial alpha.
pub fn set_alpha_init(state: &mut SchedulerState, v: Double)
    ensures
        final(state)@ == (StateView {
            globals: GlobalsView { alpha_init: v, ..old(state)@.globals },
            ..old(state)@
        }),
{
    let g: &mut FeatureGlobalsMeta = globals_mut(state);
    g.alpha_init = v;
}

/// Sets the factor parameters.
pub fn set_factor_params(state: &mut SchedulerState, p: FactorParams)
    ensures
        final(state)@ == (StateView {
            globals: GlobalsView { factor_params: p, ..old(state)@.globals },
            ..old(state)@
        }),
{
    let g: &mut FeatureGlobalsMeta = globals_mut(state);
    g.factor_params = p;
}

/// Sets when fuzzing began.
pub fn set_fuzz_start_at(state: &mut SchedulerState, now_ms: u64)
    ensures
        final(state)@ == (StateView {
            globals: GlobalsView { fuzz_start_epoch_ms: now_ms, ..old(state)@.globals },
            ..old(state)@
        }),
{
    let g: &mut FeatureGlobalsMeta = globals_mut(state);
    g.fuzz_start_epoch_ms = now_ms;
}

/// Sets the time at which fuzzing began to what the clock says now. The rest of the state stays.
pub fn set_fuzz_start(state: &mut SchedulerState)
    ensures
        final(state)@ == (StateView {
            globals: GlobalsView {
                fuzz_start_epoch_ms: final(state)@.globals.fuzz_start_epoch_ms,
                ..old(state)@.globals
            },
            ..old(state)@
        }),
{
    let now_ms: u64 = now_epoch_ms();
    set_fuzz_start_at(state, now_ms);
}

/// Sets the schema, the mask and the features that the mask leaves active. Their names and their
/// number follow from them.
pub fn set_schema_info(
    state: &mut SchedulerState,
    schema_version: u64,
    schema_features: Vec<FeatureSpec>,
    vec_mask: Vec<bool>,
    active_features: Vec<FeatureSpec>,
)
    ensures
        final(state)@ == (StateView {
            globals: GlobalsView {
                schema_version: schema_version,
                schema_features: specs(schema_features@),
                vec_mask: vec_mask@,
                active_features: specs(active_features@),
                active_feature_names: specs(active_features@).map_values(
                    |f: metadata::FeatureSpecView| f.name,
                ),
                feature_dim: active_features@.len() as usize,
                ..old(state)@.globals
            },
            ..old(state)@
        }),
{
    let mut names: Vec<String> = Vec::new();
    let mut i: usize = 0;
    while i < active_features.len()
        invariant
            i <= active_features@.len(),
            names@.len() == i,
            forall|k: int| 0 <= k < i ==> (#[trigger] names@[k])@ == active_features@[k].name@,
        decreases active_features@.len() - i,
    {
        names.push(active_features[i].name.clone());
        i = i + 1;
    }
    proof {
        let wanted = specs(active_features@).map_values(|f: metadata::FeatureSpecView| f.name);
        assert(crate::text::texts(names@) =~= wanted);
    }
    let dim: usize = active_features.len();
    let g: &mut FeatureGlobalsMeta = globals_mut(state);
    g.schema_version = schema_version;
    g.schema_features = schema_features;
    g.active_feature_names = names;
    g.feature_dim = dim;
    g.vec_mask = vec_mask;
    g.active_features = active_features;
}

/// Adds a weight vector to those that wait, unless one of them is the same. `within` says whether
/// two numbers are at most so far apart.
pub fn push_v_candidate<F: Fn(Double, Double, Double) -> bool>(
    state: &mut SchedulerState,
    v: Vec<Double>,
    within: &F,
)
    requires
        askable(*within),
    ensures
        ({
            let eps = Double { bits: CANDIDATE_EPS_BITS };
            let pool = old(state)@.globals.v_candidates;
            ||| found_among(*within, pool, v@, eps) && final(state)@ == old(state)@
            ||| found_nowhere(*within, pool, v@, eps) && final(state)@ == (StateView {
                globals: GlobalsView { v_candidates: pool.push(v@), ..old(state)@.globals },
                ..old(state)@
            })
        }),
{
    let g: &mut FeatureGlobalsMeta = globals_mut(state);
    if !any_same(&g.v_candidates, &v, Double { bits: CANDIDATE_EPS_BITS }, within) {
        let ghost before = g.v_candidates@;
        g.v_candidates.push(v);
        assert(rows(g.v_candidates@) =~= rows(before).push(v@));
    }
}

/// Replaces the weight vectors that wait to be tried.
pub fn replace_v_candidates(state: &mut SchedulerState, v: Vec<Vec<Double>>)
    ensures
        final(state)@ == (StateView {
            globals: GlobalsView { v_candidates: rows(v@), ..old(state)@.globals },
            ..old(state)@
        }),
{
    let g: &mut FeatureGlobalsMeta = globals_mut(state);
    g.v_candidates = v;
}

/// Sets the weight vector in use.
pub fn set_current_weight_vec(state: &mut SchedulerState, v: Vec<Double>)
    ensures
        final(state)@ == (StateView {
            globals: GlobalsView { current_v: v@, ..old(state)@.globals },
            ..old(state)@
        }),
{
    let g: &mut FeatureGlobalsMeta = globals_mut(state);
    g.current_v = v;
}

/// Sets the feature mode; what is above 3 becomes 3.
pub fn set_feat_mode(state: &mut SchedulerState, m: u8)
    ensures
        final(state)@ == (StateView {
            feat_mode: Some(
                if m > 3 {
                    3
                } else {
                    m
                },
            ),
            ..old(state)@
        }),
{
    let bounded: u8 = if m > 3 {
        3
    } else {
        m
    };
    state.feat_mode = Some(bounded);
}

/// The features count once the exploring phase has ended, where there is a feature map and the mode is
/// not 0. Without a mode they count as in mode 1.
pub proof fn features_need_everything(s: StateView)
    ensures
        enabled(s) <==> s.globals.features_active && s.globals.feat_exists && s.feat_mode != Some(
            0u8,
        ),
        s.feat_mode is None ==> mode_of(s) == 1,
        s.feat_mode matches Some(m) ==> mode_of(s) == m,
{
}

/// Nothing is active at first: exploring takes twelve hours from the epoch, a round of the search ten
/// minutes, and no vector, candidate or feature is known.
pub proof fn settings_begin_cold()
    ensures
        ({
            let g = initial_globals();
            &&& !g.features_active && !g.feat_exists && !g.tpe_satisfied
            &&& g.explore_time_secs == 12 * 60 * 60
            &&& g.tpe_period_secs == 10 * 60
            &&& g.alpha_init.nan()
            &&& g.factor_params.alpha == (Double { bits: 0x3FF0_0000_0000_0000 })
            &&& g.factor_params.beta == (Double { bits: 0x3FE3_3333_3333_3333 })
            &&& g.factor_params.gmin.null()
            &&& g.factor_params.gmax == (Double { bits: 0x4008_0000_0000_0000 })
            &&& !g.factor_params.use_tanh
            &&& g.current_v.len() == 0 && g.v_candidates.len() == 0
            &&& g.feature_dim == 0 && g.active_feature_names.len() == 0
            &&& g.fuzz_start_epoch_ms == 0
        }),
{
}

/// The model of the state holds everything that is stored.
pub proof fn state_is_modelled(state: SchedulerState)
    ensures
        state.globals matches Some(g) ==> state@.globals == g@,
        state.globals is None ==> state@.globals == initial_globals(),
        state@.feat_mode == state.feat_mode,
        state.features_map is None <==> state@.feats is None,
        state.features_map matches Some(m) ==> state@.feats == Some(m.feats@),
        state.features_matrix is None <==> state@.matrix is None,
        state.features_matrix matches Some(m) ==> state@.matrix == Some(
            MatrixView { columns: arrays(m.matrix@), sites: m.sites },
        ),
        state.tpe_history is None <==> state@.history is None,
        state.tpe_history matches Some(h) ==> state@.history == Some(h@),
        state.global_stats is None <==> state@.stats is None,
        state.global_stats matches Some(s) ==> state@.stats == Some(s.stats),
        state.explore_credits is None <==> state@.credits is None,
        state.explore_credits matches Some(c) ==> state@.credits == Some(c.credits@),
{
}

/// A mode above 3 counts as 3, and setting one changes nothing else.
pub proof fn modes_end_at_three(state: &mut SchedulerState, m: u8)
    requires
        call_ensures(set_feat_mode, (state, m), ()),
    ensures
        m <= 3 ==> mode_of(final(state)@) == m,
        m > 3 ==> mode_of(final(state)@) == 3,
        final(state)@.globals == old(state)@.globals,
        final(state)@.feats == old(state)@.feats,
{
}

/// The active features give the names and the number of features that everything else goes by, and the
/// vectors stay as they are.
pub proof fn active_features_are_named(
    state: &mut SchedulerState,
    schema_version: u64,
    schema_features: Vec<FeatureSpec>,
    vec_mask: Vec<bool>,
    active_features: Vec<FeatureSpec>,
    i: int,
)
    requires
        call_ensures(
            set_schema_info,
            (state, schema_version, schema_features, vec_mask, active_features),
            (),
        ),
        0 <= i < active_features@.len() <= usize::MAX,
    ensures
        final(state)@.globals.feature_dim == active_features@.len(),
        final(state)@.globals.active_feature_names.len() == active_features@.len(),
        final(state)@.globals.active_feature_names[i] == active_features@[i].name@,
        final(state)@.globals.active_features[i] == active_features@[i]@,
        final(state)@.globals.vec_mask == vec_mask@,
        final(state)@.globals.schema_version == schema_version,
        final(state)@.globals.schema_features.len() == schema_features@.len(),
        final(state)@.globals.v_candidates == old(state)@.globals.v_candidates,
        final(state)@.globals.current_v == old(state)@.globals.current_v,
        final(state)@.feats == old(state)@.feats,
        final(state)@.matrix == old(state)@.matrix,
{
}

/// A vector joins those that wait, at their end, unless it is among them already.
pub proof fn new_vectors_wait<F: Fn(Double, Double, Double) -> bool>(
    state: &mut SchedulerState,
    v: Vec<Double>,
    within: F,
)
    requires
        vectors::steady(within),
        call_ensures(push_v_candidate::<F>, (state, v, &within), ()),
    ensures
        found_among(
            within,
            old(state)@.globals.v_candidates,
            v@,
            Double { bits: CANDIDATE_EPS_BITS },
        ) ==> final(state)@ == old(state)@,
        found_nowhere(
            within,
            old(state)@.globals.v_candidates,
            v@,
            Double { bits: CANDIDATE_EPS_BITS },
        ) ==> final(state)@.globals.v_candidates == old(state)@.globals.v_candidates.push(v@),
        final(state)@ == (StateView {
            globals: GlobalsView {
                v_candidates: final(state)@.globals.v_candidates,
                ..old(state)@.globals
            },
            ..old(state)@
        }),
{
    vectors::among_or_nowhere(
        within,
        old(state)@.globals.v_candidates,
        v@,
        Double { bits: CANDIDATE_EPS_BITS },
    );
}

} // verus!
