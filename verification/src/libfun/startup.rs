//! What is settled before fuzzing begins.

use vstd::prelude::*;

use super::features_map::matrix_of;
use crate::double::Double;
use crate::feature_sched::accounting_stage::{after_asking, cold_forever};
use crate::feature_sched::metadata::{
    FactorParams, FeaturesMapMeta, FeaturesMatrixMeta, GlobalsView,
};
use crate::feature_sched::{
    enabled, set_alpha_init, set_explore_time, set_factor_params, set_feat_exists, set_feat_mode,
    set_tpe_period, MatrixView, SchedulerState, StateView,
};
use crate::table::Table;
use crate::text::{decimal, decimal_text};

verus! {

/// The settings that the user gives.
#[derive(Clone, Copy, PartialEq, Eq, Structural, Debug)]
pub struct FunArgs {
    pub factor_params: FactorParams,
    pub feat_mode: u8,
    pub explore_time_secs: u64,
    pub tpe_period_secs: u64,
}

impl FunArgs {
    /// The settings with exploring given in hours and the period of the search in minutes; `None`
    /// where they are too many.
    pub fn with_times(
        factor_params: FactorParams,
        feat_mode: u8,
        explore_hours: u64,
        tpe_minutes: u64,
    ) -> (r: Option<FunArgs>)
        ensures
            match r {
                Some(a) => a.factor_params == factor_params && a.feat_mode == feat_mode
                    && a.explore_time_secs == explore_hours * 3600 && a.tpe_period_secs
                    == tpe_minutes * 60,
                None => explore_hours * 3600 > u64::MAX || tpe_minutes * 60 > u64::MAX,
            },
    {
        match (explore_hours.checked_mul(3600), tpe_minutes.checked_mul(60)) {
            (Some(explore_time_secs), Some(tpe_period_secs)) => Some(
                FunArgs { factor_params, feat_mode, explore_time_secs, tpe_period_secs },
            ),
            _ => None,
        }
    }
}

/// The feature map that was loaded, if any: the weights of the sites, and the arrays by feature.
pub open spec fn loaded_map(map: Option<(Vec<Double>, Option<Table<Vec<Double>>>)>) -> Option<
    (Seq<Double>, Option<Map<Seq<char>, Seq<Double>>>),
> {
    match map {
        Some(p) => Some((p.0@, matrix_of(p.1))),
        None => None,
    }
}

/// The state once everything is settled. Without a feature map the features stay off.
pub open spec fn configured(
    s: StateView,
    args: FunArgs,
    map: Option<(Seq<Double>, Option<Map<Seq<char>, Seq<Double>>>)>,
    sites: usize,
) -> StateView {
    StateView {
        globals: GlobalsView {
            feat_exists: map is Some,
            alpha_init: args.factor_params.alpha,
            explore_time_secs: args.explore_time_secs,
            tpe_period_secs: args.tpe_period_secs,
            factor_params: args.factor_params,
            ..s.globals
        },
        feat_mode: Some(
            if args.feat_mode > 3 {
                3
            } else {
                args.feat_mode
            },
        ),
        feats: match map {
            Some(p) => Some(p.0),
            None => s.feats,
        },
        matrix: match map {
            Some((_, Some(columns))) => Some(MatrixView { columns, sites }),
            _ => s.matrix,
        },
        ..s
    }
}

/// A run that was settled without a feature map stays cold: whenever it is asked whether exploring
/// is over, the features stay off.
pub proof fn cold_without_map(s: StateView, args: FunArgs, sites: usize, now_ms: u64)
    ensures
        !enabled(after_asking(configured(s, args, None, sites), now_ms)),
{
    cold_forever(configured(s, args, None, sites), now_ms);
}

/// Settles everything before fuzzing begins. `map` is the feature map that was loaded, if any, for
/// so many coverage sites.
pub fn configure(
    state: &mut SchedulerState,
    args: &FunArgs,
    map: Option<(Vec<Double>, Option<Table<Vec<Double>>>)>,
    sites: usize,
)
    ensures
        final(state)@ == configured(old(state)@, *args, loaded_map(map), sites),
{
    let exists: bool = map.is_some();
    match map {
        Some((feats, matrix)) => {
            state.features_map = Some(FeaturesMapMeta { feats });
            match matrix {
                Some(m) => {
                    state.features_matrix = Some(FeaturesMatrixMeta { matrix: m, sites });
                },
                None => {},
            }
        },
        None => {},
    }
    set_feat_exists(state, exists);
    set_alpha_init(state, args.factor_params.alpha);
    set_feat_mode(state, args.feat_mode);
    set_explore_time(state, args.explore_time_secs);
    set_tpe_period(state, args.tpe_period_secs);
    set_factor_params(state, args.factor_params);
}

/// How many coverage sites there are: one counter each. The table of program counters has two
/// words for each, and must be of the same size. The arguments are the bounds of the counters and
/// of the table as addresses, and the size of a word.
pub fn coverage_sites(
    start: usize,
    stop: usize,
    pcs_start: usize,
    pcs_stop: usize,
    word_len: usize,
) -> (r: Result<usize, String>)
    requires
        pcs_start <= pcs_stop,
        0 < 2 * word_len <= usize::MAX,
    ensures
        match r {
            Ok(n) => start <= stop && n == stop - start && n == (pcs_stop - pcs_start) / (2
                * word_len),
            Err(e) => if stop < start {
                e@ == "sancov cntrs pointers inverted?"@
            } else {
                &&& stop - start != (pcs_stop - pcs_start) / (2 * word_len)
                &&& e@ == "sancov cntrs/pcs size mismatch: "@ + decimal((stop - start) as nat)
                    + " vs "@ + decimal(((pcs_stop - pcs_start) / (2 * word_len)) as nat)
            },
        },
{
    if stop < start {
        return Err("sancov cntrs pointers inverted?".to_owned());
    }
    let sites: usize = stop - start;
    let pcs_sites: usize = (pcs_stop - pcs_start) / (2 * word_len);
    if sites != pcs_sites {
        let mut e: String = "sancov cntrs/pcs size mismatch: ".to_owned();
        e.append(decimal_text(sites as u64).as_str());
        e.append(" vs ");
        e.append(decimal_text(pcs_sites as u64).as_str());
        return Err(e);
    }
    Ok(sites)
}

/// Configuring makes the settings of the arguments, with the mode at most 3. The initial alpha is that of
/// the factor. With a feature map its weights are stored, and its arrays where it has them; without one
/// those stored before stay. Nothing else changes.
pub proof fn arguments_are_set(
    s: StateView,
    args: FunArgs,
    feats: Seq<Double>,
    columns: Map<Seq<char>, Seq<Double>>,
    sites: usize,
)
    ensures
        ({
            let t = configured(s, args, None, sites);
            &&& !t.globals.feat_exists
            &&& t.feats == s.feats
            &&& t.matrix == s.matrix
            &&& t.globals.alpha_init == args.factor_params.alpha
            &&& t.globals.factor_params == args.factor_params
            &&& t.globals.explore_time_secs == args.explore_time_secs
            &&& t.globals.tpe_period_secs == args.tpe_period_secs
            &&& args.feat_mode <= 3 ==> t.feat_mode == Some(args.feat_mode)
            &&& args.feat_mode > 3 ==> t.feat_mode == Some(3u8)
            &&& t == (StateView {
                globals: GlobalsView {
                    feat_exists: false,
                    alpha_init: t.globals.alpha_init,
                    factor_params: t.globals.factor_params,
                    explore_time_secs: t.globals.explore_time_secs,
                    tpe_period_secs: t.globals.tpe_period_secs,
                    ..s.globals
                },
                feat_mode: t.feat_mode,
                ..s
            })
        }),
        ({
            let without = configured(s, args, None, sites);
            let t = configured(s, args, Some((feats, None)), sites);
            t == (StateView {
                globals: GlobalsView { feat_exists: true, ..without.globals },
                feats: Some(feats),
                ..without
            })
        }),
        ({
            let without = configured(s, args, None, sites);
            let t = configured(s, args, Some((feats, Some(columns))), sites);
            t == (StateView {
                globals: GlobalsView { feat_exists: true, ..without.globals },
                feats: Some(feats),
                matrix: Some(MatrixView { columns, sites }),
                ..without
            })
        }),
{
}

/// Hours of exploring and minutes of searching become seconds, where these can be counted.
pub proof fn times_become_seconds(
    factor_params: FactorParams,
    feat_mode: u8,
    hours: u64,
    minutes: u64,
    r: Option<FunArgs>,
)
    requires
        call_ensures(FunArgs::with_times, (factor_params, feat_mode, hours, minutes), r),
    ensures
        hours * 3600 <= u64::MAX && minutes * 60 <= u64::MAX ==> r is Some,
        r matches Some(a) ==> a.explore_time_secs == hours * 60 * 60 && a.tpe_period_secs == minutes
            * 60 && a.factor_params == factor_params && a.feat_mode == feat_mode,
{
}

/// The coverage sites are as many as there are counters, where there are as many entries of two words
/// in the table of program counters; any other number is refused.
pub proof fn counters_match_the_table(
    start: usize,
    sites: usize,
    pcs_start: usize,
    entries: usize,
    word_len: usize,
    r: Result<usize, String>,
)
    requires
        word_len > 0,
        start + sites <= usize::MAX,
        pcs_start + entries * (2 * word_len) <= usize::MAX,
        call_ensures(
            coverage_sites,
            (
                start,
                (start + sites) as usize,
                pcs_start,
                (pcs_start + entries * (2 * word_len)) as usize,
                word_len,
            ),
            r,
        ),
    ensures
        sites == entries ==> r == Ok::<usize, String>(sites),
        sites != entries ==> r is Err,
{
    let w = 2 * word_len as int;
    assert((entries * w) / w == entries) by (nonlinear_arith)
        requires
            w > 0,
    ;
}

/// What is loaded of a feature map is told as it is: the weights, and the arrays where there are any.
pub proof fn loaded_maps_are_modelled(
    feats: Vec<Double>,
    matrix: Option<Table<Vec<Double>>>,
)
    ensures
        loaded_map(None) is None,
        loaded_map(Some((feats, matrix))) is Some,
        (loaded_map(Some((feats, matrix)))->0).0 == feats@,
        matrix is None ==> (loaded_map(Some((feats, matrix)))->0).1 is None,
        matrix matches Some(m) ==> (loaded_map(Some((feats, matrix)))->0).1 == Some(
            crate::feature_sched::metadata::arrays(m@),
        ),
{
}

} // verus!
