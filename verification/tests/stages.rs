use bofuzz::double::Double;
use bofuzz::feature_sched::accounting_stage::{
    account_entry, features_info_text, features_info_text_short, fmt_vec_short, report_on,
    wants_map, will_account, EntryMeta, FeaturesAccountingStage, ObservedMap, ReportNumbers,
};
use bofuzz::feature_sched::factor::compute_factor;
use bofuzz::feature_sched::metadata::{
    FactorParams, FeatureSpec, FeaturesMapMeta, PathWeightMeta, SancovIndexesMetadata,
    TpeHistoryMeta, WeightStats,
};
use bofuzz::feature_sched::sancov_index_feedback::{append_metadata, reached_indexes};
use bofuzz::feature_sched::tpe_stage::{vector_text, TpeStage, WindowNumbers, WindowStep};
use bofuzz::feature_sched::weights::WeightMath;
use bofuzz::feature_sched::{
    get_factor_params, get_feat0, get_features_active, get_features_enabled, get_v_candidates,
    replace_v_candidates, set_alpha_init, set_explore_time, set_feat_exists, set_feat_mode,
    set_features_active, set_fuzz_start, set_fuzz_start_at, set_schema_info, set_tpe_satisfied,
    SchedulerState,
};
use bofuzz::libfun::tpe::{Kde, TpeParams, Trial};

fn d(x: f64) -> Double {
    Double { bits: x.to_bits() }
}

fn f(x: Double) -> f64 {
    f64::from_bits(x.bits)
}

fn ds(v: &[f64]) -> Vec<Double> {
    v.iter().map(|x| d(*x)).collect()
}

fn fs(v: &[Double]) -> Vec<f64> {
    v.iter().map(|x| f(*x)).collect()
}

fn plus(x: Double, y: Double) -> Double {
    d(f(x) + f(y))
}

fn sigma(s: &WeightStats) -> f64 {
    f(s.sigma(&|m2: Double, n: u64| d((f(m2) / n as f64).sqrt())))
}

fn gain(w: Double, s: WeightStats, p: FactorParams) -> Double {
    let z = (f(w) - f(s.mu)) / (sigma(&s) + 1e-9);
    if p.use_tanh {
        d(1.0 + (f(p.beta) * z).tanh())
    } else {
        d((f(p.beta) * z).exp())
    }
}

fn blend(alpha: Double, g: Double) -> Double {
    d(1.0 + f(alpha) * (f(g) - 1.0))
}

fn advance(n: u64, s: WeightStats, w: Double) -> (Double, Double) {
    let delta = f(w) - f(s.mu);
    let mu = f(s.mu) + delta / n as f64;
    (d(mu), d(f(s.m2) + delta * (f(w) - mu)))
}

fn steered() -> SchedulerState {
    let mut state = SchedulerState::new();
    set_features_active(&mut state, true);
    set_feat_exists(&mut state, true);
    state.features_map = Some(FeaturesMapMeta { feats: ds(&[0.5, 2.0, 4.0]) });
    state
}

fn account(
    state: &mut SchedulerState,
    entry: &mut Option<EntryMeta>,
    observed: &Option<ObservedMap>,
) -> Result<Option<(Double, Double)>, String> {
    account_entry(state, entry, observed, &plus, &gain, &blend, &advance)
}

fn entry(list: Option<Vec<usize>>) -> Option<EntryMeta> {
    Some(EntryMeta {
        indexes: list.map(SancovIndexesMetadata::new),
        weight: None,
        perf_mult: Some(d(9.0)),
    })
}

#[test]
fn weights_are_counted() {
    let mut s = WeightStats::default();
    assert_eq!(sigma(&s), 1e-9);
    for w in [2.0, 4.0, 4.0, 4.0, 5.0, 5.0, 7.0, 9.0] {
        s.update(d(w), &advance);
    }
    assert_eq!(s.n, 8);
    assert_eq!(f(s.mu), 5.0);
    assert!((sigma(&s) - (32.0f64 / 7.0).sqrt()).abs() < 1e-12);
}

#[test]
fn the_factor_is_one_where_nothing_can_be_said() {
    let p = FactorParams::default();
    assert_eq!((f(p.alpha), f(p.beta), f(p.gmin), f(p.gmax)), (0.2, 0.6, 0.5, 3.0));
    let stats = WeightStats { n: 5, mu: d(1.0), m2: d(4.0) };
    let w = Some(PathWeightMeta { w: d(100.0) });
    let factor = |on: bool, s: Option<WeightStats>, w: Option<PathWeightMeta>| {
        f(compute_factor(&p, on, s, w, &gain, &blend))
    };
    assert_eq!(factor(false, Some(stats), w), 1.0);
    assert_eq!(factor(true, None, w), 1.0);
    assert_eq!(factor(true, Some(stats), None), 1.0);
    assert_eq!(factor(true, Some(WeightStats { n: 1, ..stats }), w), 1.0);
    assert_eq!(factor(true, Some(stats), w), 1.0 + 0.2 * (3.0 - 1.0));
    let low = Some(PathWeightMeta { w: d(-100.0) });
    assert_eq!(factor(true, Some(stats), low), 1.0 + 0.2 * (0.5 - 1.0));
    let odd = Some(PathWeightMeta { w: d(f64::NAN) });
    assert_eq!(factor(true, Some(stats), odd), 1.0);
}

#[test]
fn reached_sites_are_listed() {
    assert_eq!(reached_indexes(&vec![0, 3, 0, 1], 0), [1, 3]);
    assert_eq!(reached_indexes(&vec![7, 7], 7), [0usize; 0]);
    let mut meta = None;
    assert_eq!(append_metadata(&mut meta, &vec![0, 0], 0), (0, 2));
    assert!(meta.is_none());
    assert_eq!(append_metadata(&mut meta, &vec![0, 1, 1], 0), (2, 3));
    assert_eq!(meta.as_ref().unwrap().list, [1, 2]);
    assert_eq!(append_metadata(&mut meta, &vec![0, 0], 0), (2, 2));
}

#[test]
fn a_disabled_testcase_loses_its_multiplier() {
    let mut state = SchedulerState::new();
    let mut e = entry(Some(vec![1]));
    assert!(!wants_map(&state, &e));
    assert_eq!(account(&mut state, &mut e, &None), Ok(None));
    assert!(e.as_ref().unwrap().perf_mult.is_none());
    assert!(e.as_ref().unwrap().indexes.is_some());
    let mut nothing = None;
    assert_eq!(account(&mut state, &mut nothing, &None), Ok(None));
}

#[test]
fn a_testcase_gets_its_weight_and_factor() {
    let mut state = steered();
    let mut e = entry(Some(vec![1, 2, 99]));
    assert_eq!(account(&mut state, &mut e, &None), Ok(Some((d(6.0), d(1.0)))));
    let kept = e.as_ref().unwrap();
    assert_eq!(kept.weight, Some(PathWeightMeta { w: d(6.0) }));
    assert_eq!(kept.perf_mult, Some(d(1.0)));
    assert_eq!(f(get_feat0(&state)), 0.5);
    let stats = state.global_stats.as_ref().unwrap().stats;
    assert_eq!((stats.n, f(stats.mu), f(stats.m2)), (1, 6.0, 0.0));
}

#[test]
fn the_statistics_come_after_the_factor() {
    let mut state = steered();
    for (site, weight) in [(0, 0.5), (1, 2.0)] {
        let mut e = entry(Some(vec![site]));
        assert_eq!(account(&mut state, &mut e, &None), Ok(Some((d(weight), d(1.0)))));
    }
    let mut e = entry(Some(vec![2]));
    let (w, factor) = account(&mut state, &mut e, &None).unwrap().unwrap();
    assert_eq!(f(w), 4.0);
    assert_eq!(f(factor), 3.0);
    assert_eq!(state.global_stats.as_ref().unwrap().stats.n, 3);
}

#[test]
fn missing_sites_are_taken_from_the_run() {
    let mut state = steered();
    let mut e = entry(None);
    assert!(wants_map(&state, &e));
    assert_eq!(
        account(&mut state, &mut e, &None),
        Err("sancov observer not found".to_string())
    );
    assert!(e.is_some());
    let empty = Some(ObservedMap { map: vec![0, 0, 0], initial: 0 });
    assert_eq!(account(&mut state, &mut e, &empty), Ok(None));
    assert!(state.global_stats.is_none());
    assert!(!will_account(&state, &e, &empty));
    let run = Some(ObservedMap { map: vec![0, 1, 0], initial: 0 });
    assert!(will_account(&state, &e, &run));
    assert_eq!(account(&mut state, &mut e, &run), Ok(Some((d(2.0), d(1.0)))));
    assert_eq!(e.as_ref().unwrap().indexes.as_ref().unwrap().list, [1]);
    assert!(!wants_map(&state, &e));
}

#[test]
fn exploring_ends_when_its_time_is_over() {
    let mut state = SchedulerState::new();
    set_fuzz_start_at(&mut state, 1_000);
    set_explore_time(&mut state, 10);
    assert!(!FeaturesAccountingStage::should_restart_at(&mut state, 99_000));
    set_feat_exists(&mut state, true);
    assert!(!FeaturesAccountingStage::should_restart_at(&mut state, 10_999));
    assert!(!get_features_active(&state));
    assert!(FeaturesAccountingStage::should_restart_at(&mut state, 11_000));
    assert!(get_features_active(&state));
    assert_eq!(f(get_factor_params(&state).alpha), 1.0);
    set_alpha_init(&mut state, d(0.3));
    assert!(FeaturesAccountingStage::should_restart_at(&mut state, 0));
    assert_eq!(f(get_factor_params(&state).alpha), 1.0);
}

#[test]
fn alpha_starts_from_its_initial_value() {
    let mut state = SchedulerState::new();
    set_feat_exists(&mut state, true);
    set_alpha_init(&mut state, d(0.3));
    set_explore_time(&mut state, 0);
    set_fuzz_start(&mut state);
    assert!(FeaturesAccountingStage::should_restart(&mut state));
    assert_eq!(f(get_factor_params(&state).alpha), 0.3);
}

#[test]
fn mode_zero_stays_cold() {
    let mut state = SchedulerState::new();
    set_feat_exists(&mut state, true);
    set_feat_mode(&mut state, 0);
    set_explore_time(&mut state, 0);
    assert!(!FeaturesAccountingStage::should_restart_at(&mut state, u64::MAX));
    assert!(!get_features_enabled(&state));
}

#[test]
fn a_long_exploring_phase_does_not_overflow() {
    let mut state = SchedulerState::new();
    set_feat_exists(&mut state, true);
    set_explore_time(&mut state, u64::MAX);
    assert!(!FeaturesAccountingStage::should_restart_at(&mut state, u64::MAX));
}

#[test]
fn reports_come_when_the_search_moves_on() {
    let mut state = steered();
    let mut stage = FeaturesAccountingStage::new();
    let accounted = Some((d(6.0), d(1.5)));
    assert!(stage.report(&state, accounted).is_none());
    state.tpe_history = Some(TpeHistoryMeta { last_check_ms: Some(5), ..TpeHistoryMeta::default() });
    assert!(stage.report(&state, None).is_none());
    let r = stage.report(&state, accounted).unwrap();
    assert!(r.enabled && r.active && r.feat_exists);
    assert_eq!((f(r.path_w), f(r.factor)), (6.0, 1.5));
    assert!(stage.report(&state, accounted).is_none());
    state.tpe_history.as_mut().unwrap().trials.push((vec![], d(1.0), 0));
    assert!(stage.report(&state, accounted).is_some());
}

fn t(s: &str) -> String {
    s.to_string()
}

fn report_numbers() -> ReportNumbers {
    ReportNumbers {
        alpha: t("1.00"),
        beta: t("0.60"),
        gmin: t("0.00"),
        gmax: t("3.00"),
        current_v: vec![t("0.500"), t("0.250"), t("0.125")],
        feat0: t("0.000"),
        path_w: t("6.000"),
        factor: t("1.500"),
    }
}

#[test]
fn reports_are_written_out() {
    let state = steered();
    let r = report_on(&state, d(6.0), d(1.5));
    assert_eq!(
        features_info_text(&r, &report_numbers()),
        "enabled=true, active=true, feat_mode=1, feat_exists=true, \
         alpha=1.00, beta=0.60, gmin=0.00, gmax=3.00, use_tanh=false, \
         active_dim=0, v_candidates_len=0, current_v=[0.500,...](len=3), feat0=0.000, \
         path_w=6.000, factor=1.500"
    );
    assert_eq!(
        features_info_text_short(&r, &report_numbers()),
        "enabled=true, active=true, feat_mode=1, feat_exists=true, \
         alpha=1.00, beta=0.60, gmin=0.00, gmax=3.00, use_tanh=false, \
         v_candidates_len=0, current_v=[0.500,0.250,0.125](len=3), feat0=0.000, \
         path_w=6.000, factor=1.500"
    );
}

#[test]
fn long_lists_are_cut_off() {
    let v = vec![t("1.000"), t("2.000")];
    assert_eq!(fmt_vec_short(&v, 2), "[1.000,2.000](len=2)");
    assert_eq!(fmt_vec_short(&v, 1), "[1.000,...](len=2)");
    assert_eq!(fmt_vec_short(&v, 0), "[,...](len=2)");
    assert_eq!(fmt_vec_short(&vec![], 3), "[](len=0)");
}

fn within(x: Double, y: Double, eps: Double) -> bool {
    (f(x) - f(y)).abs() <= f(eps)
}

fn even(n: usize) -> Double {
    d(1.0 / (n as f64).sqrt())
}

fn norm(v: &Vec<Double>) -> Double {
    d(v.iter().map(|x| f(*x) * f(*x)).sum::<f64>().sqrt())
}

fn over(x: Double, y: Double) -> Double {
    d(f(x) / f(y))
}

fn weigh(z: &Vec<Double>, v: &Vec<Double>) -> Double {
    d(z.iter().zip(v).map(|(a, b)| f(*a) * f(*b)).sum())
}

fn number(n: i64) -> Double {
    d(n as f64)
}

fn project(v: &Vec<Double>) -> Vec<Double> {
    v.clone()
}

fn two_features() -> SchedulerState {
    let spec = |n: &str| FeatureSpec { id: t(n), name: t(n), group: None, aliases: None };
    let mut state = steered();
    set_tpe_satisfied(&mut state, true);
    set_schema_info(
        &mut state,
        3,
        vec![spec("a"), spec("b")],
        vec![true, true],
        vec![spec("a"), spec("b")],
    );
    state
}

#[test]
fn the_first_window_puts_a_vector_to_use() {
    let math = WeightMath { even, norm, over, weigh };
    let mut state = two_features();
    replace_v_candidates(&mut state, vec![ds(&[2.0, 1.0, 0.0]), ds(&[0.5, 0.0, 1.0])]);
    let mut stage = TpeStage::new(TpeParams::default(), t("edges"));
    assert_eq!(stage.edges_name, "edges");
    assert!(stage.should_restart(&state, 100));
    assert_eq!(stage.begin(&mut state, 40, 100, 7_000, &number, &math), WindowStep::Idle);
    assert!(!stage.first_window);
    assert_eq!(f(get_factor_params(&state).alpha), 1.0);
    assert_eq!(stage.opt.state.last_cov, Some(40));
    assert_eq!(stage.opt.state.window_start, Some(100));
    assert_eq!(state.tpe_history.as_ref().unwrap().last_check_ms, Some(7_000));
    assert!(!stage.should_restart(&state, 60_000_000_099));
    assert_eq!(stage.begin(&mut state, 50, 60_000_000_099, 8_000, &number, &math), WindowStep::Idle);
    assert_eq!(stage.opt.state.last_cov, Some(40));

    assert!(stage.should_restart(&state, 60_000_000_100));
    let step = stage.begin(&mut state, 52, 60_000_000_100, 9_000, &number, &math);
    assert_eq!(step, WindowStep::Suggest(d(12.0)));
    assert_eq!(stage.opt.state.trials.len(), 1);
    let draw = |_: &Vec<Double>, _: Double| panic!("asked for a draw");
    let unasked = Kde {
        density: |_: &Vec<Trial>, _: &Vec<Double>, _: Double| panic!("asked for a density"),
        over,
    };
    let v = stage.choose_next(&mut state, 1, &within, &project, &draw, &unasked);
    assert_eq!(fs(&v), [0.5, 0.0, 1.0]);
    assert!(get_v_candidates(&state).is_empty());
    stage.finish(&mut state, &v, 52, 60_000_000_100, 9_000, &math);
    assert_eq!(f(get_factor_params(&state).alpha), 0.5);
    assert_eq!(stage.opt.state.window_start, Some(60_000_000_100));
    assert_eq!(state.tpe_history.as_ref().unwrap().trials.len(), 1);
}

#[test]
fn a_window_without_vectors_starts_from_the_even_one() {
    let math = WeightMath { even, norm, over, weigh };
    let mut state = two_features();
    let mut stage = TpeStage::new(TpeParams::default(), t("edges"));
    stage.begin(&mut state, 0, 5, 5, &number, &math);
    let half = 1.0 / 2.0f64.sqrt();
    assert_eq!(fs(&stage.opt.last_vec()), [1.0, half, half]);
}

#[test]
fn vectors_are_labelled() {
    let names = vec![t("a")];
    assert_eq!(
        vector_text(&vec![t("0.50"), t("1.00"), t("0.00")], &names),
        "[alpha=0.50,a=1.00,?=0.00]"
    );
    assert_eq!(vector_text(&vec![t("0.50")], &names), "[]");
    let stage = TpeStage::new(TpeParams::default(), t("edges"));
    let x = WindowNumbers {
        reward: t("12.00"),
        alpha: t("0.50"),
        v_norm: t("1.00"),
        vector: vec![t("0.50"), t("0.00"), t("1.00")],
        bw: t("0.15"),
        gamma: t("0.20"),
    };
    assert_eq!(
        stage.info_text(&two_features(), &x, 52, 3),
        "reward=ΔEdges=12.00, Coverage=52, trials=0, corpus=3, alpha=0.50, v_norm=1.00, \
         v=[alpha=0.50,a=0.00,b=1.00], active_dim=2, bw=0.15, gamma=0.20, samples=64, period=60s"
    );
}
