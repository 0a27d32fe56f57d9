//! Accounting for the testcase at hand: its path weight, its factor, and the statistics over all
//! weights. And the decision when exploring is over.

use vstd::prelude::*;

use super::factor::{compute_factor, factorable, factored};
use super::metadata::{
    FactorParams, GlobalStatsMeta, GlobalsView, PathWeightMeta, SancovIndexesMetadata, WeightStats,
};
use super::sancov_index_feedback::{list_of, note_indexes, noted, reached_indexes};
use super::stats::{advanced, no_stats};
use super::sums::{sum_up, summable, summed};
use super::{
    enabled, get_active_dim, get_alpha_init, get_current_weight_vec, get_explore_time,
    get_factor_params, get_feat0, get_feat_exists, get_feat_mode, get_features_active,
    get_features_enabled, get_fuzz_start, mode_of, set_factor_params, set_feat0,
    set_features_active, SchedulerState, StateView,
};
use crate::clock::now_epoch_ms;
use crate::double::{Double, ONE_BITS};
use crate::text::{decimal, decimal_text, join, join_text, texts};

verus! {

/// What is kept with the current testcase. What is not there yet is `None`.
pub struct EntryMeta {
    pub indexes: Option<SancovIndexesMetadata>,
    pub weight: Option<PathWeightMeta>,
    /// What the testcase's score is multiplied by.
    pub perf_mult: Option<Double>,
}

/// The model of an [`EntryMeta`].
pub ghost struct EntryView {
    pub indexes: Option<Seq<usize>>,
    pub weight: Option<PathWeightMeta>,
    pub perf_mult: Option<Double>,
}

impl View for EntryMeta {
    type V = EntryView;

    open spec fn view(&self) -> EntryView {
        EntryView {
            indexes: list_of(self.indexes),
            weight: self.weight,
            perf_mult: self.perf_mult,
        }
    }
}

/// The model of the current testcase, if there is one.
pub open spec fn entry_of(entry: Option<EntryMeta>) -> Option<EntryView> {
    match entry {
        Some(e) => Some(e@),
        None => None,
    }
}

/// The coverage map of a run and its initial value.
pub struct ObservedMap {
    pub map: Vec<u8>,
    pub initial: u8,
}

/// The weights of the listed sites; 0 for a site that has none.
pub open spec fn picked(feats: Seq<Double>, list: Seq<usize>) -> Seq<Double> {
    list.map_values(
        |i: usize|
            if i < feats.len() {
                feats[i as int]
            } else {
                Double { bits: 0 }
            },
    )
}

/// The weight of a path: the sum of the weights of its sites, from left to right.
pub fn path_weight<A: Fn(Double, Double) -> Double>(
    feats: &Vec<Double>,
    list: &Vec<usize>,
    plus: &A,
) -> (r: Double)
    requires
        summable(*plus),
    ensures
        summed(*plus, picked(feats@, list@), r),
{
    let mut terms: Vec<Double> = Vec::new();
    let mut i: usize = 0;
    while i < list.len()
        invariant
            i <= list@.len(),
            terms@.len() == i,
            forall|k: int| 0 <= k < i ==> terms@[k] == picked(feats@, list@)[k],
        decreases list@.len() - i,
    {
        let at: usize = list[i];
        terms.push(
            if at < feats.len() {
                feats[at]
            } else {
                Double::zero()
            },
        );
        i = i + 1;
    }
    assert(terms@ =~= picked(feats@, list@));
    sum_up(&terms, plus)
}

/// The model of a coverage map that was handed in.
pub open spec fn seen(observed: Option<ObservedMap>) -> Option<(Seq<u8>, u8)> {
    match observed {
        Some(o) => Some((o.map@, o.initial)),
        None => None,
    }
}

/// The sites of the current testcase: those it keeps, or else those of the run at hand.
pub open spec fn sites_now(entry: EntryView, observed: Option<(Seq<u8>, u8)>) -> Option<
    Seq<usize>,
> {
    match entry.indexes {
        Some(list) => Some(list),
        None => match observed {
            Some(o) => noted(None, o.0, o.1),
            None => None,
        },
    }
}

/// Is there a weight to work out?
pub open spec fn accounts(
    s: StateView,
    entry: Option<EntryView>,
    observed: Option<(Seq<u8>, u8)>,
) -> bool {
    enabled(s) && entry is Some && sites_now(entry->0, observed) is Some
}

/// The statistics so far.
pub open spec fn stats_so_far(s: StateView) -> WeightStats {
    match s.stats {
        Some(stats) => stats,
        None => no_stats(),
    }
}

/// The weight of the first coverage site, 0 where there is none.
pub open spec fn first_weight(feats: Seq<Double>) -> Double {
    if feats.len() > 0 {
        feats[0]
    } else {
        Double { bits: 0 }
    }
}

/// Does the current testcase lack its sites, so that the coverage map of the run is needed?
pub fn wants_map(state: &SchedulerState, entry: &Option<EntryMeta>) -> (r: bool)
    ensures
        r == (enabled(state@) && entry is Some && (entry->0)@.indexes is None),
{
    get_features_enabled(state) && match entry {
        Some(e) => e.indexes.is_none(),
        None => false,
    }
}

/// Is there a weight to work out?
pub fn will_account(
    state: &SchedulerState,
    entry: &Option<EntryMeta>,
    observed: &Option<ObservedMap>,
) -> (r: bool)
    ensures
        r == accounts(state@, entry_of(*entry), seen(*observed)),
{
    if !get_features_enabled(state) {
        return false;
    }
    match entry {
        Some(e) => e.indexes.is_some() || match observed {
            Some(o) => reached_indexes(&o.map, o.initial).len() > 0,
            None => false,
        },
        None => false,
    }
}

/// Accounts for the current testcase and gives its path weight and its factor.
///
/// With the features disabled the testcase loses its multiplier and nothing else happens. A
/// testcase without sites first gets those of the run at hand; one that reached no site is left
/// alone. The statistics take the weight into account only after the factor was formed.
pub fn account_entry<
    A: Fn(Double, Double) -> Double,
    G: Fn(Double, WeightStats, FactorParams) -> Double,
    B: Fn(Double, Double) -> Double,
    U: Fn(u64, WeightStats, Double) -> (Double, Double),
>(
    state: &mut SchedulerState,
    entry: &mut Option<EntryMeta>,
    observed: &Option<ObservedMap>,
    plus: &A,
    gain: &G,
    blend: &B,
    advance: &U,
) -> (r: Result<Option<(Double, Double)>, String>)
    requires
        summable(*plus),
        factorable(*gain, *blend),
        forall|n: u64, s: WeightStats, w: Double| #[trigger] call_requires(*advance, (n, s, w)),
        accounts(old(state)@, entry_of(*old(entry)), seen(*observed)) ==> {
            &&& old(state)@.feats is Some
            &&& stats_so_far(old(state)@).n < u64::MAX
            &&& stats_so_far(old(state)@).n >= 2
                ==> old(state)@.globals.factor_params.gmin.at_most(
                old(state)@.globals.factor_params.gmax,
            )
        },
    ensures
        !enabled(old(state)@) ==> {
            &&& r == Ok::<Option<(Double, Double)>, String>(None)
            &&& final(state)@ == old(state)@
            &&& entry_of(*final(entry)) == match entry_of(*old(entry)) {
                Some(e) => Some(EntryView { perf_mult: None, ..e }),
                None => None,
            }
        },
        enabled(old(state)@) && (*old(entry)) is None ==> {
            &&& r == Ok::<Option<(Double, Double)>, String>(None)
            &&& final(state)@ == old(state)@
            &&& (*final(entry)) is None
        },
        r is Err <==> enabled(old(state)@) && (*old(entry)) is Some && (
        (*old(entry))->0)@.indexes is None && observed is None,
        r is Err ==> {
            &&& (r->Err_0)@ == "sancov observer not found"@
            &&& final(state)@ == old(state)@
            &&& entry_of(*final(entry)) == entry_of(*old(entry))
        },
        enabled(old(state)@) && r is Ok && (*old(entry)) is Some && sites_now(
            ((*old(entry))->0)@,
            seen(*observed),
        ) is None ==> {
            &&& r == Ok::<Option<(Double, Double)>, String>(None)
            &&& final(state)@ == old(state)@
            &&& entry_of(*final(entry)) == entry_of(*old(entry))
        },
        accounts(old(state)@, entry_of(*old(entry)), seen(*observed)) ==> {
            let list = sites_now(((*old(entry))->0)@, seen(*observed))->0;
            let feats = old(state)@.feats->0;
            &&& r matches Ok(Some(p))
            &&& summed(*plus, picked(feats, list), p.0)
            &&& factored(
                *gain,
                *blend,
                old(state)@.globals.factor_params,
                true,
                old(state)@.stats,
                Some(PathWeightMeta { w: p.0 }),
                p.1,
            )
            &&& entry_of(*final(entry)) == Some(
                EntryView {
                    indexes: Some(list),
                    weight: Some(PathWeightMeta { w: p.0 }),
                    perf_mult: Some(p.1),
                },
            )
            &&& final(state)@.stats is Some
            &&& advanced(*advance, stats_so_far(old(state)@), p.0, final(state)@.stats->0)
            &&& final(state)@ == (StateView {
                globals: GlobalsView {
                    feat_val0: first_weight(feats),
                    ..old(state)@.globals
                },
                stats: final(state)@.stats,
                ..old(state)@
            })
        },
{
    if !get_features_enabled(state) {
        match entry.take() {
            Some(e) => {
                *entry = Some(EntryMeta { indexes: e.indexes, weight: e.weight, perf_mult: None });
            },
            None => {},
        }
        return Ok(None);
    }
    let mut e: EntryMeta = match entry.take() {
        Some(e) => e,
        None => {
            return Ok(None);
        },
    };
    if e.indexes.is_none() {
        match observed {
            Some(o) => {
                note_indexes(&mut e.indexes, &o.map, o.initial);
            },
            None => {
                *entry = Some(e);
                return Err("sancov observer not found".to_owned());
            },
        }
    }
    let (first, w): (Double, Double) = match (&e.indexes, &state.features_map) {
        (Some(m), Some(f)) => (
            if f.feats.len() > 0 {
                f.feats[0]
            } else {
                Double::zero()
            },
            path_weight(&f.feats, &m.list, plus),
        ),
        _ => {
            *entry = Some(e);
            return Ok(None);
        },
    };
    set_feat0(state, first);
    let params: FactorParams = get_factor_params(state);
    let stats: Option<WeightStats> = match &state.global_stats {
        Some(g) => Some(g.stats),
        None => None,
    };
    let factor: Double = compute_factor(
        &params,
        true,
        stats,
        Some(PathWeightMeta { w }),
        gain,
        blend,
    );
    e.weight = Some(PathWeightMeta { w });
    e.perf_mult = Some(factor);
    let mut next: WeightStats = match stats {
        Some(s) => s,
        None => WeightStats::default(),
    };
    assert(call_requires(*advance, ((next.n + 1) as u64, next, w)));
    next.update(w, advance);
    state.global_stats = Some(GlobalStatsMeta { stats: next });
    *entry = Some(e);
    Ok(Some((w, factor)))
}

/// Is exploring over, `now_ms` milliseconds after the Unix epoch?
pub open spec fn explored(s: StateView, now_ms: u64) -> bool {
    let elapsed = if now_ms > s.globals.fuzz_start_epoch_ms {
        now_ms - s.globals.fuzz_start_epoch_ms
    } else {
        0
    };
    elapsed >= s.globals.explore_time_secs * 1000
}

/// The state once exploring is over: the features are active, and alpha starts from its initial
/// value, 1 where none is set.
pub open spec fn activated(s: StateView) -> StateView {
    StateView {
        globals: GlobalsView {
            features_active: true,
            factor_params: FactorParams {
                alpha: if s.globals.alpha_init.nan() {
                    Double { bits: ONE_BITS }
                } else {
                    s.globals.alpha_init
                },
                ..s.globals.factor_params
            },
            ..s.globals
        },
        ..s
    }
}

/// Can the features be used at all? They cannot in mode 0, nor without a feature map.
pub open spec fn usable(s: StateView) -> bool {
    mode_of(s) != 0 && s.globals.feat_exists
}

/// The state after the question whether exploring is over.
pub open spec fn after_asking(s: StateView, now_ms: u64) -> StateView {
    if usable(s) && !s.globals.features_active && explored(s, now_ms) {
        activated(s)
    } else {
        s
    }
}

/// In mode 0, and without a feature map, the features never become active, whatever the clock says.
pub proof fn cold_forever(s: StateView, now_ms: u64)
    requires
        !usable(s),
    ensures
        after_asking(s, now_ms) == s,
        !enabled(after_asking(s, now_ms)),
{
}

/// Once exploring is over the features stay active, and nothing is set a second time.
pub proof fn active_for_good(s: StateView, now_ms: u64, later_ms: u64)
    ensures
        after_asking(s, now_ms).globals.features_active ==> after_asking(
            after_asking(s, now_ms),
            later_ms,
        ) == after_asking(s, now_ms),
{
}

/// With a feature map and a mode other than 0 the features steer the scheduling from the moment
/// that exploring is over.
pub proof fn active_after_exploring(s: StateView, now_ms: u64)
    requires
        usable(s),
        explored(s, now_ms),
    ensures
        enabled(after_asking(s, now_ms)),
{
}

/// Ends exploring where its time is over, and says whether it just did.
pub fn end_exploring(state: &mut SchedulerState, now_ms: u64) -> (r: bool)
    ensures
        final(state)@ == after_asking(old(state)@, now_ms),
        r == (usable(old(state)@) && !old(state)@.globals.features_active && explored(
            old(state)@,
            now_ms,
        )),
{
    if get_feat_mode(state) == 0 || !get_feat_exists(state) || get_features_active(state) {
        return false;
    }
    let start_ms: u64 = get_fuzz_start(state);
    let elapsed: u64 = if now_ms > start_ms {
        now_ms - start_ms
    } else {
        0
    };
    if (elapsed as u128) < (get_explore_time(state) as u128) * 1000 {
        return false;
    }
    set_features_active(state, true);
    let alpha_init: Double = get_alpha_init(state);
    let mut params: FactorParams = get_factor_params(state);
    params.alpha = if alpha_init.is_nan() {
        Double::one()
    } else {
        alpha_init
    };
    set_factor_params(state, params);
    true
}

/// What is shown of the accounting.
#[derive(Debug)]
pub struct FeaturesReport {
    pub enabled: bool,
    pub active: bool,
    pub feat_mode: u8,
    pub feat_exists: bool,
    pub params: FactorParams,
    pub active_dim: usize,
    pub v_candidates_len: usize,
    pub current_v: Vec<Double>,
    pub feat0: Double,
    pub path_w: Double,
    pub factor: Double,
}

/// Does the report show the state, a path weight and a factor?
pub open spec fn reports(r: FeaturesReport, s: StateView, w: Double, factor: Double) -> bool {
    &&& r.enabled == enabled(s)
    &&& r.active == s.globals.features_active
    &&& r.feat_mode == mode_of(s)
    &&& r.feat_exists == s.globals.feat_exists
    &&& r.params == s.globals.factor_params
    &&& r.active_dim == s.globals.feature_dim
    &&& r.v_candidates_len == s.globals.v_candidates.len()
    &&& r.current_v@ == s.globals.current_v
    &&& r.feat0 == s.globals.feat_val0
    &&& r.path_w == w
    &&& r.factor == factor
}

/// The report on the state, a path weight and a factor.
pub fn report_on(state: &SchedulerState, w: Double, factor: Double) -> (r: FeaturesReport)
    ensures
        reports(r, state@, w, factor),
{
    let n: usize = match &state.globals {
        Some(g) => {
            assert(g.v_candidates@.len() == state@.globals.v_candidates.len());
            g.v_candidates.len()
        },
        None => 0,
    };
    FeaturesReport {
        enabled: get_features_enabled(state),
        active: get_features_active(state),
        feat_mode: get_feat_mode(state),
        feat_exists: get_feat_exists(state),
        params: get_factor_params(state),
        active_dim: get_active_dim(state),
        v_candidates_len: n,
        current_v: get_current_weight_vec(state),
        feat0: get_feat0(state),
        path_w: w,
        factor,
    }
}

/// What was last reported of the search.
pub struct FeaturesAccountingStage {
    pub last_emit_tpe_ts: u64,
    pub last_emit_trials_len: usize,
}

/// When the search was last checked, and how many trials it has.
pub open spec fn search_progress(s: StateView) -> (u64, nat) {
    match s.history {
        Some(h) => (
            match h.last_check_ms {
                Some(ms) => ms,
                None => 0,
            },
            h.trials.len(),
        ),
        None => (0, 0),
    }
}

impl FeaturesAccountingStage {
    /// A stage that has not reported anything yet.
    pub fn new() -> (r: Self)
        ensures
            r.last_emit_tpe_ts == 0,
            r.last_emit_trials_len == 0,
    {
        FeaturesAccountingStage { last_emit_tpe_ts: 0, last_emit_trials_len: 0 }
    }

    /// Has the search moved on since the last report?
    pub open spec fn outdated(self, s: StateView) -> bool {
        search_progress(s).0 > self.last_emit_tpe_ts || search_progress(s).1
            > self.last_emit_trials_len
    }

    /// Notes how far the search is, and says whether it has moved on since the last report.
    pub fn should_fire(&mut self, state: &SchedulerState) -> (r: bool)
        ensures
            r == old(self).outdated(state@),
            r ==> final(self).last_emit_tpe_ts == search_progress(state@).0
                && final(self).last_emit_trials_len == search_progress(state@).1,
            !r ==> *final(self) == *old(self),
    {
        let (ts, len): (u64, usize) = match &state.tpe_history {
            Some(h) => {
                assert(h@.trials.len() == h.trials@.len());
                (
                    match h.last_check_ms {
                        Some(ms) => ms,
                        None => 0,
                    },
                    h.trials.len(),
                )
            },
            None => (0, 0),
        };
        if ts > self.last_emit_tpe_ts || len > self.last_emit_trials_len {
            self.last_emit_tpe_ts = ts;
            self.last_emit_trials_len = len;
            true
        } else {
            false
        }
    }

    /// The report on a testcase that was accounted for, where the search has moved on since the
    /// last one. `accounted` is what [`account_entry`] gave.
    pub fn report(&mut self, state: &SchedulerState, accounted: Option<(Double, Double)>) -> (r:
        Option<FeaturesReport>)
        ensures
            match accounted {
                Some(p) if old(self).outdated(state@) => r is Some && reports(
                    r->0,
                    state@,
                    p.0,
                    p.1,
                ) && final(self).last_emit_tpe_ts == search_progress(state@).0
                    && final(self).last_emit_trials_len == search_progress(state@).1,
                _ => r is None && *final(self) == *old(self),
            },
    {
        match accounted {
            Some(p) => if self.should_fire(state) {
                Some(report_on(state, p.0, p.1))
            } else {
                None
            },
            None => None,
        }
    }

    /// Is there something to account for, `now_ms` milliseconds after the Unix epoch? Ends
    /// exploring where its time is over.
    pub fn should_restart_at(state: &mut SchedulerState, now_ms: u64) -> (r: bool)
        ensures
            final(state)@ == after_asking(old(state)@, now_ms),
            r == enabled(final(state)@),
    {
        if get_feat_mode(state) != 0 && get_feat_exists(state) && get_features_active(state) {
            return true;
        }
        end_exploring(state, now_ms)
    }

    /// Is there something to account for? Ends exploring where its time is over by the clock.
    pub fn should_restart(state: &mut SchedulerState) -> (r: bool)
        ensures
            exists|now_ms: u64| final(state)@ == #[trigger] after_asking(old(state)@, now_ms),
            r == enabled(final(state)@),
    {
        let now_ms: u64 = now_epoch_ms();
        Self::should_restart_at(state, now_ms)
    }
}

/// The text of a truth value.
pub open spec fn truth(b: bool) -> Seq<char> {
    if b {
        "true"@
    } else {
        "false"@
    }
}

/// The text of a truth value.
pub fn truth_text(b: bool) -> (r: &'static str)
    ensures
        r@ == truth(b),
{
    if b {
        "true"
    } else {
        "false"
    }
}

/// A list of numbers in brackets, cut off after `maxn`, with its length.
pub open spec fn short_list(numbers: Seq<Seq<char>>, maxn: nat) -> Seq<char> {
    let shown = if numbers.len() > maxn {
        numbers.take(maxn as int)
    } else {
        numbers
    };
    let tail = if numbers.len() > maxn {
        ",..."@
    } else {
        ""@
    };
    "["@ + join(shown, ","@) + tail + "](len="@ + decimal(numbers.len()) + ")"@
}

/// A list of numbers in brackets, cut off after `maxn`, with its length. The caller gives the
/// numbers as text.
pub fn fmt_vec_short(numbers: &Vec<String>, maxn: usize) -> (r: String)
    ensures
        r@ == short_list(texts(numbers@), maxn as nat),
{
    let take: usize = if numbers.len() > maxn {
        maxn
    } else {
        numbers.len()
    };
    let mut shown: Vec<String> = Vec::new();
    let mut i: usize = 0;
    while i < take
        invariant
            i <= take <= numbers@.len(),
            texts(shown@) == texts(numbers@).take(i as int),
        decreases take - i,
    {
        let ghost before = shown@;
        shown.push(numbers[i].clone());
        assert(texts(shown@) =~= texts(before).push(texts(numbers@)[i as int]));
        assert(texts(numbers@).take(i + 1) =~= texts(numbers@).take(i as int).push(
            texts(numbers@)[i as int],
        ));
        i = i + 1;
    }
    let mut out: String = "[".to_owned();
    out.append(join_text(&shown, ",").as_str());
    if numbers.len() > take {
        out.append(",...");
    } else {
        out.append("");
    }
    out.append("](len=");
    out.append(decimal_text(numbers.len() as u64).as_str());
    out.append(")");
    proof {
        if numbers@.len() <= maxn {
            assert(texts(numbers@).take(take as int) =~= texts(numbers@));
        }
    }
    out
}

/// The numbers of a report as text.
pub struct ReportNumbers {
    pub alpha: String,
    pub beta: String,
    pub gmin: String,
    pub gmax: String,
    pub current_v: Vec<String>,
    pub feat0: String,
    pub path_w: String,
    pub factor: String,
}

/// The first part of a report's line: switches and parameters.
pub open spec fn settings_line(r: FeaturesReport, x: ReportNumbers) -> Seq<char> {
    "enabled="@ + truth(r.enabled) + ", active="@ + truth(r.active) + ", feat_mode="@ + decimal(
        r.feat_mode as nat,
    ) + ", feat_exists="@ + truth(r.feat_exists) + ", alpha="@ + x.alpha@ + ", beta="@ + x.beta@
        + ", gmin="@ + x.gmin@ + ", gmax="@ + x.gmax@ + ", use_tanh="@ + truth(r.params.use_tanh)
}

/// The last part of a report's line: vectors, weights and the factor.
pub open spec fn weights_line(r: FeaturesReport, x: ReportNumbers, maxn: nat) -> Seq<char> {
    ", v_candidates_len="@ + decimal(r.v_candidates_len as nat) + ", current_v="@ + short_list(
        texts(x.current_v@),
        maxn,
    ) + ", feat0="@ + x.feat0@ + ", path_w="@ + x.path_w@ + ", factor="@ + x.factor@
}

fn settings_text(r: &FeaturesReport, x: &ReportNumbers) -> (out: String)
    ensures
        out@ == settings_line(*r, *x),
{
    let mut out: String = "enabled=".to_owned();
    out.append(truth_text(r.enabled));
    out.append(", active=");
    out.append(truth_text(r.active));
    out.append(", feat_mode=");
    out.append(decimal_text(r.feat_mode as u64).as_str());
    out.append(", feat_exists=");
    out.append(truth_text(r.feat_exists));
    out.append(", alpha=");
    out.append(x.alpha.as_str());
    out.append(", beta=");
    out.append(x.beta.as_str());
    out.append(", gmin=");
    out.append(x.gmin.as_str());
    out.append(", gmax=");
    out.append(x.gmax.as_str());
    out.append(", use_tanh=");
    out.append(truth_text(r.params.use_tanh));
    out
}

fn weights_text(r: &FeaturesReport, x: &ReportNumbers, maxn: usize) -> (out: String)
    ensures
        out@ == weights_line(*r, *x, maxn as nat),
{
    let mut out: String = ", v_candidates_len=".to_owned();
    out.append(decimal_text(r.v_candidates_len as u64).as_str());
    out.append(", current_v=");
    out.append(fmt_vec_short(&x.current_v, maxn).as_str());
    out.append(", feat0=");
    out.append(x.feat0.as_str());
    out.append(", path_w=");
    out.append(x.path_w.as_str());
    out.append(", factor=");
    out.append(x.factor.as_str());
    out
}

/// The line that shows a report; of the weight vector as many numbers as it should have.
pub fn features_info_text(r: &FeaturesReport, x: &ReportNumbers) -> (out: String)
    requires
        r.active_dim < usize::MAX,
    ensures
        out@ == settings_line(*r, *x) + ", active_dim="@ + decimal(r.active_dim as nat)
            + weights_line(*r, *x, (1 + r.active_dim) as nat),
{
    let mut out: String = settings_text(r, x);
    out.append(", active_dim=");
    out.append(decimal_text(r.active_dim as u64).as_str());
    out.append(weights_text(r, x, 1 + r.active_dim).as_str());
    out
}

/// The line that shows a report without the number of active features; of the weight vector the
/// first eight numbers.
pub fn features_info_text_short(r: &FeaturesReport, x: &ReportNumbers) -> (out: String)
    ensures
        out@ == settings_line(*r, *x) + weights_line(*r, *x, 8),
{
    let mut out: String = settings_text(r, x);
    out.append(weights_text(r, x, 8).as_str());
    out
}

/// Of each site that is listed the weight of that very site is picked, and 0 where it has none.
pub proof fn listed_sites_weigh(feats: Seq<Double>, list: Seq<usize>, i: int)
    requires
        0 <= i < list.len(),
    ensures
        picked(feats, list).len() == list.len(),
        list[i] < feats.len() ==> picked(feats, list)[i] == feats[list[i] as int],
        list[i] >= feats.len() ==> picked(feats, list)[i] == (Double { bits: 0 }),
{
}

/// The sites that are stored with a testcase count. Where none are stored, those count that its run
/// reached, if it reached any.
pub proof fn stored_sites_count(entry: EntryView, map: Seq<u8>, initial: u8)
    requires
        map.len() <= usize::MAX,
    ensures
        entry.indexes is Some ==> sites_now(entry, Some((map, initial))) == entry.indexes
            && sites_now(entry, None) == entry.indexes,
        entry.indexes is None ==> sites_now(entry, None) is None,
        entry.indexes is None && (forall|i: int|
            0 <= i < map.len() ==> #[trigger] map[i] == initial) ==> sites_now(
            entry,
            Some((map, initial)),
        ) is None,
        entry.indexes is None && (exists|i: int|
            0 <= i < map.len() && #[trigger] map[i] != initial) ==> sites_now(
            entry,
            Some((map, initial)),
        ) is Some && forall|i: int|
            0 <= i < map.len() ==> ((sites_now(entry, Some((map, initial)))->0).contains(i as usize)
                <==> #[trigger] map[i] != initial),
{
    super::sancov_index_feedback::reached_sites_are_noted(None, map, initial);
}

/// A testcase is accounted for exactly where the features count, the testcase is there, and its sites
/// are known.
pub proof fn what_is_accounted_for(
    s: StateView,
    entry: Option<EntryView>,
    observed: Option<(Seq<u8>, u8)>,
)
    ensures
        accounts(s, entry, observed) ==> s.globals.features_active && s.globals.feat_exists
            && s.feat_mode != Some(0u8) && entry is Some && ((entry->0).indexes is Some
            || observed is Some),
        s.globals.features_active && s.globals.feat_exists && s.feat_mode != Some(0u8)
            && entry is Some && (entry->0).indexes is Some ==> accounts(s, entry, observed),
        s.stats matches Some(x) ==> stats_so_far(s) == x,
        s.stats is None ==> stats_so_far(s).n == 0 && stats_so_far(s).mu.null() && stats_so_far(
            s,
        ).m2.null(),
{
}

/// The exploring phase is over once its length in seconds has passed since fuzzing began.
pub proof fn exploring_ends_on_time(s: StateView, now_ms: u64)
    ensures
        explored(s, now_ms) <==> s.globals.explore_time_secs == 0 || now_ms
            >= s.globals.fuzz_start_epoch_ms + s.globals.explore_time_secs * 1000,
{
}

/// Asking changes nothing before the exploring phase is over, without a feature map, in mode 0, and
/// once the features are active. Else it activates them, with the initial alpha, or 1 where there is
/// none, and changes nothing more.
pub proof fn asking_activates_in_time(s: StateView, now_ms: u64)
    ensures
        s.globals.explore_time_secs > 0 && now_ms < s.globals.fuzz_start_epoch_ms
            + s.globals.explore_time_secs * 1000 ==> after_asking(s, now_ms) == s,
        !s.globals.feat_exists || s.feat_mode == Some(0u8) || s.globals.features_active
            ==> after_asking(s, now_ms) == s,
        s.globals.feat_exists && s.feat_mode != Some(0u8) && !s.globals.features_active && (
        s.globals.explore_time_secs == 0 || now_ms >= s.globals.fuzz_start_epoch_ms
            + s.globals.explore_time_secs * 1000) ==> ({
            let t = after_asking(s, now_ms);
            &&& t.globals.features_active
            &&& s.globals.alpha_init.nan() ==> t.globals.factor_params.alpha == (Double {
                bits: 0x3FF0_0000_0000_0000,
            })
            &&& !s.globals.alpha_init.nan() ==> t.globals.factor_params.alpha
                == s.globals.alpha_init
            &&& t == (StateView {
                globals: GlobalsView {
                    features_active: true,
                    factor_params: FactorParams {
                        alpha: t.globals.factor_params.alpha,
                        ..s.globals.factor_params
                    },
                    ..s.globals
                },
                ..s
            })
        }),
{
}

/// A report is due exactly where the search was kept later than at the last report, or has more trials
/// than then. Right after a report none is due.
pub proof fn reports_follow_the_search(stage: FeaturesAccountingStage, s: StateView)
    ensures
        s.history is None ==> !stage.outdated(s),
        s.history matches Some(h) ==> (stage.outdated(s) <==> (h.last_check_ms is Some
            && h.last_check_ms->0 > stage.last_emit_tpe_ts) || h.trials.len()
            > stage.last_emit_trials_len),
        stage.last_emit_tpe_ts == search_progress(s).0 && stage.last_emit_trials_len
            == search_progress(s).1 ==> !stage.outdated(s),
{
}

/// A report tells the settings as they are, and the path weight and the factor that it is given.
pub proof fn reports_tell_the_state(r: FeaturesReport, s: StateView, w: Double, factor: Double)
    requires
        reports(r, s, w, factor),
    ensures
        r.path_w == w && r.factor == factor,
        r.enabled <==> s.globals.features_active && s.globals.feat_exists && s.feat_mode != Some(
            0u8,
        ),
        r.active == s.globals.features_active && r.feat_exists == s.globals.feat_exists,
        r.params == s.globals.factor_params && r.feat0 == s.globals.feat_val0,
        r.active_dim == s.globals.feature_dim && r.v_candidates_len
            == s.globals.v_candidates.len() && r.current_v@ == s.globals.current_v,
{
}

/// A list is shown whole where it is no longer than allowed, else its beginning and three dots. Its
/// length is told either way.
pub proof fn long_lists_are_cut(numbers: Seq<Seq<char>>, maxn: nat)
    ensures
        numbers.len() <= maxn ==> short_list(numbers, maxn) == "["@ + join(numbers, ","@)
            + "](len="@ + decimal(numbers.len()) + ")"@,
        numbers.len() > maxn ==> short_list(numbers, maxn) == "["@ + join(
            numbers.take(maxn as int),
            ","@,
        ) + ",..."@ + "](len="@ + decimal(numbers.len()) + ")"@,
{
    reveal_strlit("");
    assert("["@ + join(numbers, ","@) + ""@ =~= "["@ + join(numbers, ","@));
}

/// The weight of the first site is that of the map, and 0 where the map is empty.
pub proof fn first_site_weighs(feats: Seq<Double>)
    ensures
        feats.len() > 0 ==> first_weight(feats) == feats[0],
        feats.len() == 0 ==> first_weight(feats) == (Double { bits: 0 }),
{
}

/// The models of a testcase and of an observed run hold what they are models of.
pub proof fn testcases_are_modelled(entry: Option<EntryMeta>, observed: Option<ObservedMap>)
    ensures
        entry is None <==> entry_of(entry) is None,
        entry matches Some(e) ==> (entry_of(entry)->0).weight == e.weight && (entry_of(
            entry,
        )->0).perf_mult == e.perf_mult && (e.indexes is None <==> (entry_of(
            entry,
        )->0).indexes is None) && (e.indexes matches Some(m) ==> (entry_of(entry)->0).indexes == Some(
            m.list@,
        )),
        observed is None <==> seen(observed) is None,
        observed matches Some(o) ==> seen(observed) == Some((o.map@, o.initial)),
{
}

/// Accounting for a testcase with stored sites adds up the weights of these sites, forms the factor of
/// the sum, and stores both with it. The sum is counted once in the statistics, and the weight of the
/// first site is noted.
pub proof fn testcases_are_accounted_for<
    A: Fn(Double, Double) -> Double,
    G: Fn(Double, WeightStats, FactorParams) -> Double,
    B: Fn(Double, Double) -> Double,
    U: Fn(u64, WeightStats, Double) -> (Double, Double),
>(
    state: &mut SchedulerState,
    entry: &mut Option<EntryMeta>,
    observed: Option<ObservedMap>,
    plus: A,
    gain: G,
    blend: B,
    advance: U,
    w: Double,
    factor: Double,
    r: Result<Option<(Double, Double)>, String>,
)
    requires
        call_ensures(
            account_entry::<A, G, B, U>,
            (state, entry, &observed, &plus, &gain, &blend, &advance),
            r,
        ),
        enabled(old(state)@),
        *old(entry) is Some,
        ((*old(entry))->0)@.indexes is Some,
        old(state)@.feats is Some,
        forall|x: Double| #[trigger]
            summed(
                plus,
                picked(old(state)@.feats->0, ((*old(entry))->0)@.indexes->0),
                x,
            ) ==> x == w,
        forall|x: Double| #[trigger]
            factored(
                gain,
                blend,
                old(state)@.globals.factor_params,
                true,
                old(state)@.stats,
                Some(PathWeightMeta { w }),
                x,
            ) ==> x == factor,
    ensures
        r == Ok::<Option<(Double, Double)>, String>(Some((w, factor))),
        *final(entry) is Some,
        ((*final(entry))->0)@ == (EntryView {
            indexes: ((*old(entry))->0)@.indexes,
            weight: Some(PathWeightMeta { w }),
            perf_mult: Some(factor),
        }),
        final(state)@.stats is Some,
        old(state)@.stats matches Some(s) ==> (final(state)@.stats->0).n == s.n + 1,
        old(state)@.stats is None ==> (final(state)@.stats->0).n == 1,
        (old(state)@.feats->0).len() > 0 ==> final(state)@.globals.feat_val0 == (
        old(state)@.feats->0)[0],
        final(state)@.feats == old(state)@.feats,
        final(state)@.globals.current_v == old(state)@.globals.current_v,
{
}

/// While the features are disabled, a testcase loses its factor, and nothing else changes.
pub proof fn disabled_features_leave_no_factor<
    A: Fn(Double, Double) -> Double,
    G: Fn(Double, WeightStats, FactorParams) -> Double,
    B: Fn(Double, Double) -> Double,
    U: Fn(u64, WeightStats, Double) -> (Double, Double),
>(
    state: &mut SchedulerState,
    entry: &mut Option<EntryMeta>,
    observed: Option<ObservedMap>,
    plus: A,
    gain: G,
    blend: B,
    advance: U,
    r: Result<Option<(Double, Double)>, String>,
)
    requires
        call_ensures(
            account_entry::<A, G, B, U>,
            (state, entry, &observed, &plus, &gain, &blend, &advance),
            r,
        ),
        !(old(state)@.globals.features_active && old(state)@.globals.feat_exists && old(
            state,
        )@.feat_mode != Some(0u8)),
    ensures
        r == Ok::<Option<(Double, Double)>, String>(None),
        final(state)@ == old(state)@,
        *old(entry) is Some <==> *final(entry) is Some,
        *old(entry) is Some ==> ((*final(entry))->0)@ == (EntryView {
            perf_mult: None,
            ..((*old(entry))->0)@
        }),
{
}

/// A report is told once: asked again of the same state, none is due.
pub proof fn reports_are_told_once(
    stage: &mut FeaturesAccountingStage,
    again: &mut FeaturesAccountingStage,
    state: SchedulerState,
    first: bool,
    second: bool,
)
    requires
        call_ensures(FeaturesAccountingStage::should_fire, (stage, &state), first),
        *old(again) == *final(stage),
        call_ensures(FeaturesAccountingStage::should_fire, (again, &state), second),
    ensures
        !second,
        *final(again) == *final(stage),
{
}

/// A run is observed for a testcase exactly where the features count and its sites are not stored.
pub proof fn runs_are_observed_where_needed(
    state: SchedulerState,
    entry: Option<EntryMeta>,
    r: bool,
)
    requires
        call_ensures(wants_map, (&state, &entry), r),
    ensures
        r <==> state@.globals.features_active && state@.globals.feat_exists && state@.feat_mode
            != Some(0u8) && entry is Some && (entry->0).indexes is None,
{
}

/// The stage goes on exactly where the features count, which they do from the end of the exploring phase
/// on, with a feature map and in another mode than 0.
pub proof fn stage_goes_on_after_exploring(state: &mut SchedulerState, now_ms: u64, r: bool)
    requires
        call_ensures(FeaturesAccountingStage::should_restart_at, (state, now_ms), r),
    ensures
        r <==> old(state)@.globals.feat_exists && old(state)@.feat_mode != Some(0u8) && (old(
            state,
        )@.globals.features_active || old(state)@.globals.explore_time_secs == 0 || now_ms >= old(
            state,
        )@.globals.fuzz_start_epoch_ms + old(state)@.globals.explore_time_secs * 1000),
        r ==> final(state)@.globals.features_active,
        !r ==> final(state)@ == old(state)@,
{
    asking_activates_in_time(old(state)@, now_ms);
}

} // verus!
