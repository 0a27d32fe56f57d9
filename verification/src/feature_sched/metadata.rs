//! What the scheduler keeps about its features.

use vstd::prelude::*;

use crate::double::{Double, NAN_BITS, ONE_BITS};
use crate::table::Table;

verus! {

/// The bit pattern of 0.6.
pub const BETA_BITS: u64 = 0x3FE3_3333_3333_3333;

/// The bit pattern of 3.0.
pub const GMAX_BITS: u64 = 0x4008_0000_0000_0000;

/// One feature of the schema.
#[derive(Debug)]
pub struct FeatureSpec {
    pub id: String,
    pub name: String,
    pub group: Option<String>,
    pub aliases: Option<Vec<String>>,
}

/// The model of a [`FeatureSpec`].
pub ghost struct FeatureSpecView {
    pub id: Seq<char>,
    pub name: Seq<char>,
    pub group: Option<Seq<char>>,
    pub aliases: Option<Seq<Seq<char>>>,
}

impl View for FeatureSpec {
    type V = FeatureSpecView;

    open spec fn view(&self) -> FeatureSpecView {
        FeatureSpecView {
            id: self.id@,
            name: self.name@,
            group: match self.group {
                Some(g) => Some(g@),
                None => None,
            },
            aliases: match self.aliases {
                Some(a) => Some(crate::text::texts(a@)),
                None => None,
            },
        }
    }
}

/// The models of a list of features.
pub open spec fn specs(list: Seq<FeatureSpec>) -> Seq<FeatureSpecView> {
    list.map_values(|f: FeatureSpec| f@)
}

/// A copy of a list of texts.
pub fn copy_texts(list: &Vec<String>) -> (r: Vec<String>)
    ensures
        r@ == list@,
{
    let mut r: Vec<String> = Vec::new();
    let mut i: usize = 0;
    while i < list.len()
        invariant
            i <= list@.len(),
            r@ == list@.take(i as int),
        decreases list@.len() - i,
    {
        r.push(list[i].clone());
        assert(list@.take(i + 1) =~= list@.take(i as int).push(list@[i as int]));
        i = i + 1;
    }
    assert(list@.take(list@.len() as int) =~= list@);
    r
}

impl Clone for FeatureSpec {
    fn clone(&self) -> (r: Self)
        ensures
            r@ == self@,
    {
        FeatureSpec {
            id: self.id.clone(),
            name: self.name.clone(),
            group: match &self.group {
                Some(g) => Some(g.clone()),
                None => None,
            },
            aliases: match &self.aliases {
                Some(a) => Some(copy_texts(a)),
                None => None,
            },
        }
    }
}

/// The feature schema.
#[derive(Debug)]
pub struct FeatureSchemaFile {
    pub schema_version: u64,
    pub features: Vec<FeatureSpec>,
}

/// The model of a [`FeatureSchemaFile`].
pub ghost struct SchemaView {
    pub schema_version: u64,
    pub features: Seq<FeatureSpecView>,
}

impl View for FeatureSchemaFile {
    type V = SchemaView;

    open spec fn view(&self) -> SchemaView {
        SchemaView { schema_version: self.schema_version, features: specs(self.features@) }
    }
}

/// The indexes of the coverage map that an input reached.
#[derive(Debug)]
pub struct SancovIndexesMetadata {
    pub list: Vec<usize>,
}

impl SancovIndexesMetadata {
    /// The indexes as they are given.
    pub fn new(list: Vec<usize>) -> (r: Self)
        ensures
            r.list@ == list@,
    {
        SancovIndexesMetadata { list }
    }
}

/// The weight of the path that an input takes.
#[derive(Clone, Copy, PartialEq, Eq, Structural, Debug)]
pub struct PathWeightMeta {
    pub w: Double,
}

/// How the feature factor is formed.
#[derive(Clone, Copy, PartialEq, Eq, Structural, Debug)]
pub struct FactorParams {
    pub alpha: Double,
    pub beta: Double,
    pub gmin: Double,
    pub gmax: Double,
    pub use_tanh: bool,
}

/// Factor parameters that are kept with the fuzzer's state.
#[derive(Clone, Copy, PartialEq, Eq, Structural, Debug)]
pub struct FactorParamsMeta {
    pub params: FactorParams,
}

/// Running mean and spread of the path weights.
#[derive(Clone, Copy, PartialEq, Eq, Structural, Debug)]
pub struct WeightStats {
    pub n: u64,
    pub mu: Double,
    pub m2: Double,
}

/// The statistics over all inputs so far.
#[derive(Clone, Copy, PartialEq, Eq, Structural, Debug)]
pub struct GlobalStatsMeta {
    pub stats: WeightStats,
}

/// One weight per coverage site.
#[derive(Debug)]
pub struct FeaturesMapMeta {
    pub feats: Vec<Double>,
}

/// The feature map: one array over the coverage sites for each feature.
pub struct FeaturesMatrixMeta {
    pub matrix: Table<Vec<Double>>,
    pub sites: usize,
}

/// Rows of numbers.
pub open spec fn rows(v: Seq<Vec<Double>>) -> Seq<Seq<Double>> {
    v.map_values(|r: Vec<Double>| r@)
}

/// Arrays by name.
pub open spec fn arrays(t: Map<Seq<char>, Vec<Double>>) -> Map<Seq<char>, Seq<Double>> {
    t.map_values(|r: Vec<Double>| r@)
}

/// A copy of a list of numbers.
pub fn copy_numbers(v: &Vec<Double>) -> (r: Vec<Double>)
    ensures
        r@ == v@,
{
    let r: Vec<Double> = v.clone();
    assert(r@ =~= v@);
    r
}

/// A copy of rows of numbers.
pub fn copy_rows(v: &Vec<Vec<Double>>) -> (r: Vec<Vec<Double>>)
    ensures
        rows(r@) == rows(v@),
{
    let mut r: Vec<Vec<Double>> = Vec::new();
    let mut i: usize = 0;
    while i < v.len()
        invariant
            i <= v@.len(),
            r@.len() == i,
            forall|k: int| 0 <= k < i ==> (#[trigger] r@[k])@ == v@[k]@,
        decreases v@.len() - i,
    {
        r.push(copy_numbers(&v[i]));
        i = i + 1;
    }
    assert(rows(r@) =~= rows(v@));
    r
}

/// A copy of a list of features.
pub fn copy_specs(v: &Vec<FeatureSpec>) -> (r: Vec<FeatureSpec>)
    ensures
        specs(r@) == specs(v@),
{
    let mut r: Vec<FeatureSpec> = Vec::new();
    let mut i: usize = 0;
    while i < v.len()
        invariant
            i <= v@.len(),
            r@.len() == i,
            forall|k: int| 0 <= k < i ==> (#[trigger] r@[k])@ == v@[k]@,
        decreases v@.len() - i,
    {
        r.push(v[i].clone());
        i = i + 1;
    }
    assert(specs(r@) =~= specs(v@));
    r
}

/// The settings and the current choices of the scheduler.
#[derive(Debug)]
pub struct FeatureGlobalsMeta {
    pub features_active: bool,
    pub feat_exists: bool,
    pub tpe_satisfied: bool,
    pub feat_val0: Double,
    pub explore_time_secs: u64,
    pub tpe_period_secs: u64,
    pub alpha_init: Double,
    pub factor_params: FactorParams,
    pub current_v: Vec<Double>,
    pub v_candidates: Vec<Vec<Double>>,
    pub fuzz_start_epoch_ms: u64,
    pub schema_version: u64,
    pub schema_features: Vec<FeatureSpec>,
    pub vec_mask: Vec<bool>,
    pub active_features: Vec<FeatureSpec>,
    pub active_feature_names: Vec<String>,
    pub feature_dim: usize,
}

/// The model of a [`FeatureGlobalsMeta`].
pub ghost struct GlobalsView {
    pub features_active: bool,
    pub feat_exists: bool,
    pub tpe_satisfied: bool,
    pub feat_val0: Double,
    pub explore_time_secs: u64,
    pub tpe_period_secs: u64,
    pub alpha_init: Double,
    pub factor_params: FactorParams,
    pub current_v: Seq<Double>,
    pub v_candidates: Seq<Seq<Double>>,
    pub fuzz_start_epoch_ms: u64,
    pub schema_version: u64,
    pub schema_features: Seq<FeatureSpecView>,
    pub vec_mask: Seq<bool>,
    pub active_features: Seq<FeatureSpecView>,
    pub active_feature_names: Seq<Seq<char>>,
    pub feature_dim: usize,
}

impl View for FeatureGlobalsMeta {
    type V = GlobalsView;

    open spec fn view(&self) -> GlobalsView {
        GlobalsView {
            features_active: self.features_active,
            feat_exists: self.feat_exists,
            tpe_satisfied: self.tpe_satisfied,
            feat_val0: self.feat_val0,
            explore_time_secs: self.explore_time_secs,
            tpe_period_secs: self.tpe_period_secs,
            alpha_init: self.alpha_init,
            factor_params: self.factor_params,
            current_v: self.current_v@,
            v_candidates: rows(self.v_candidates@),
            fuzz_start_epoch_ms: self.fuzz_start_epoch_ms,
            schema_version: self.schema_version,
            schema_features: specs(self.schema_features@),
            vec_mask: self.vec_mask@,
            active_features: specs(self.active_features@),
            active_feature_names: crate::text::texts(self.active_feature_names@),
            feature_dim: self.feature_dim,
        }
    }
}

/// The factor parameters before any are set.
pub open spec fn initial_params() -> FactorParams {
    FactorParams {
        alpha: Double { bits: ONE_BITS },
        beta: Double { bits: BETA_BITS },
        gmin: Double { bits: 0 },
        gmax: Double { bits: GMAX_BITS },
        use_tanh: false,
    }
}

/// The settings before any are made: twelve hours of exploring, ten minutes for each round of the
/// search, and no initial alpha.
pub open spec fn initial_globals() -> GlobalsView {
    GlobalsView {
        features_active: false,
        feat_exists: false,
        tpe_satisfied: false,
        feat_val0: Double { bits: 0 },
        explore_time_secs: 43200,
        tpe_period_secs: 600,
        alpha_init: Double { bits: NAN_BITS },
        factor_params: initial_params(),
        current_v: Seq::empty(),
        v_candidates: Seq::empty(),
        fuzz_start_epoch_ms: 0,
        schema_version: 0,
        schema_features: Seq::empty(),
        vec_mask: Seq::empty(),
        active_features: Seq::empty(),
        active_feature_names: Seq::empty(),
        feature_dim: 0,
    }
}

impl Default for FeatureGlobalsMeta {
    fn default() -> (r: Self)
        ensures
            r@ == initial_globals(),
    {
        let r = FeatureGlobalsMeta {
            features_active: false,
            feat_exists: false,
            tpe_satisfied: false,
            feat_val0: Double { bits: 0 },
            explore_time_secs: 43200,
            tpe_period_secs: 600,
            alpha_init: Double { bits: NAN_BITS },
            factor_params: FactorParams {
                alpha: Double { bits: ONE_BITS },
                beta: Double { bits: BETA_BITS },
                gmin: Double { bits: 0 },
                gmax: Double { bits: GMAX_BITS },
                use_tanh: false,
            },
            current_v: Vec::new(),
            v_candidates: Vec::new(),
            fuzz_start_epoch_ms: 0,
            schema_version: 0,
            schema_features: Vec::new(),
            vec_mask: Vec::new(),
            active_features: Vec::new(),
            active_feature_names: Vec::new(),
            feature_dim: 0,
        };
        assert(r@.v_candidates =~= initial_globals().v_candidates);
        assert(r@.schema_features =~= initial_globals().schema_features);
        assert(r@.active_features =~= initial_globals().active_features);
        assert(r@.active_feature_names =~= initial_globals().active_feature_names);
        r
    }
}

/// The history of the search, as it is kept across restarts.
#[derive(Debug)]
pub struct TpeHistoryMeta {
    /// Vector, reward and time of each trial.
    pub trials: Vec<(Vec<Double>, Double, u64)>,
    pub last_vec: Vec<Double>,
    pub last_check_ms: Option<u64>,
    pub last_corpus: Option<usize>,
    pub last_cov: Option<usize>,
    pub max_trials: usize,
}

/// The model of a [`TpeHistoryMeta`].
pub ghost struct HistoryView {
    pub trials: Seq<(Seq<Double>, Double, u64)>,
    pub last_vec: Seq<Double>,
    pub last_check_ms: Option<u64>,
    pub last_corpus: Option<usize>,
    pub last_cov: Option<usize>,
    pub max_trials: usize,
}

/// The models of the kept trials.
pub open spec fn kept_trials(v: Seq<(Vec<Double>, Double, u64)>) -> Seq<(Seq<Double>, Double, u64)> {
    v.map_values(|t: (Vec<Double>, Double, u64)| (t.0@, t.1, t.2))
}

impl View for TpeHistoryMeta {
    type V = HistoryView;

    open spec fn view(&self) -> HistoryView {
        HistoryView {
            trials: kept_trials(self.trials@),
            last_vec: self.last_vec@,
            last_check_ms: self.last_check_ms,
            last_corpus: self.last_corpus,
            last_cov: self.last_cov,
            max_trials: self.max_trials,
        }
    }
}

/// The history before the first trial.
pub open spec fn initial_history() -> HistoryView {
    HistoryView {
        trials: Seq::empty(),
        last_vec: Seq::empty(),
        last_check_ms: None,
        last_corpus: None,
        last_cov: None,
        max_trials: 0,
    }
}

impl Default for TpeHistoryMeta {
    fn default() -> (r: Self)
        ensures
            r@ == initial_history(),
    {
        let r = TpeHistoryMeta {
            trials: Vec::new(),
            last_vec: Vec::new(),
            last_check_ms: None,
            last_corpus: None,
            last_cov: None,
            max_trials: 0,
        };
        assert(r@.trials =~= initial_history().trials);
        r
    }
}

/// What each active feature earned while the fuzzer explored.
#[derive(Debug)]
pub struct ExploreCreditMeta {
    pub credits: Vec<Double>,
}

/// Models of lists hold the model of each element in its place, and models of arrays by name the same
/// arrays under the same names.
pub proof fn models_keep_every_element(
    numbers: Seq<Vec<Double>>,
    named: Map<Seq<char>, Vec<Double>>,
    features: Seq<FeatureSpec>,
    trials: Seq<(Vec<Double>, Double, u64)>,
    name: Seq<char>,
    i: int,
)
    ensures
        rows(numbers).len() == numbers.len(),
        0 <= i < numbers.len() ==> rows(numbers)[i] == numbers[i]@,
        arrays(named).dom() == named.dom(),
        named.dom().contains(name) ==> arrays(named)[name] == named[name]@,
        specs(features).len() == features.len(),
        0 <= i < features.len() ==> specs(features)[i].id == features[i].id@
            && specs(features)[i].name == features[i].name@,
        kept_trials(trials).len() == trials.len(),
        0 <= i < trials.len() ==> kept_trials(trials)[i] == (trials[i].0@, trials[i].1, trials[i].2),
{
}

/// The model of the settings holds each of them.
pub proof fn settings_are_modelled(g: FeatureGlobalsMeta)
    ensures
        g@.features_active == g.features_active,
        g@.feat_exists == g.feat_exists,
        g@.tpe_satisfied == g.tpe_satisfied,
        g@.feat_val0 == g.feat_val0,
        g@.explore_time_secs == g.explore_time_secs,
        g@.tpe_period_secs == g.tpe_period_secs,
        g@.alpha_init == g.alpha_init,
        g@.factor_params == g.factor_params,
        g@.current_v == g.current_v@,
        g@.v_candidates == rows(g.v_candidates@),
        g@.fuzz_start_epoch_ms == g.fuzz_start_epoch_ms,
        g@.vec_mask == g.vec_mask@,
        g@.feature_dim == g.feature_dim,
        g@.active_feature_names.len() == g.active_feature_names@.len(),
{
}

} // verus!
