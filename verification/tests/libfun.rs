use bofuzz::double::Double;
use bofuzz::feature_sched::accounting_stage::end_exploring;
use bofuzz::feature_sched::metadata::{
    FactorParams, FeaturesMatrixMeta, PathWeightMeta, TpeHistoryMeta, WeightStats,
};
use bofuzz::feature_sched::weights::WeightMath;
use bofuzz::feature_sched::{
    get_current_weight_vec, get_factor_params as state_params, get_feat_exists, get_feat_mode,
    get_tpe_satisfied, get_v_candidates, replace_v_candidates, set_alpha_init as set_state_alpha,
    set_current_weight_vec, set_explore_time, set_feat_exists as set_state_feat_exists,
    set_features_active, set_tpe_satisfied, SchedulerState,
};
use bofuzz::libfun::features_map::{
    apply_v_to_features, attr_order, combine_feature_matrix_to_weights,
    default_candidates_with_order, default_prior, ensure_v_candidates_for, fit_candidates,
    load_and_align_features_map, normalize_prior_order, parse_candidates, parse_prior_order,
    FeatsJson,
};
use bofuzz::libfun::power_stage::FeatureAwarePowerStage;
use bofuzz::libfun::scorer::FeatureAwareFastScore;
use bofuzz::libfun::startup::{configure, coverage_sites, FunArgs};
use bofuzz::libfun::tpe::{
    base_at, lg_score, sample_from_kde_reflect, Kde, TpeOptimizer, TpeParams, Trial,
};
use bofuzz::libfun::tpe_stage::{weights_text, TpeStage, WindowNumbers};
use bofuzz::libfun::{
    feat_exists, features_enabled, get_alpha_init, get_current_weight_vec as settings_vec,
    get_factor_params, get_feat0, recompute_features_enabled, set_alpha_init, set_factor_params,
    set_feat0, set_feat_exists, set_features_enabled, Settings,
};
use bofuzz::table::Table;
use libafl_bolts::rands::StdRand;

fn d(x: f64) -> Double {
    Double { bits: x.to_bits() }
}

fn f(x: Double) -> f64 {
    f64::from_bits(x.bits)
}

fn ds(v: &[f64]) -> Vec<Double> {
    v.iter().map(|x| d(*x)).collect()
}

fn fs(v: &[Double]) -> Vec<f64> {
    v.iter().map(|x| f(*x)).collect()
}

fn within(x: Double, y: Double, eps: Double) -> bool {
    (f(x) - f(y)).abs() <= f(eps)
}

fn even(n: usize) -> Double {
    d(1.0 / (n as f64).sqrt())
}

fn norm(v: &Vec<Double>) -> Double {
    d(v.iter().map(|x| f(*x) * f(*x)).sum::<f64>().sqrt())
}

fn over(x: Double, y: Double) -> Double {
    d(f(x) / f(y))
}

fn weigh(z: &Vec<Double>, v: &Vec<Double>) -> Double {
    d(z.iter().zip(v).map(|(a, b)| f(*a) * f(*b)).sum())
}

fn number(n: i64) -> Double {
    d(n as f64)
}

fn project(v: &Vec<Double>) -> Vec<Double> {
    v.iter().map(|x| x.clamp_unit()).collect()
}

fn full_map(value: f64, sites: usize) -> Table<Vec<Double>> {
    let mut map: Table<Vec<Double>> = Table::new();
    for name in attr_order() {
        map.insert(name, ds(&vec![value; sites]));
    }
    map
}

#[test]
fn switches_and_settings_are_kept() {
    let mut s = Settings::new();
    assert!(!features_enabled(&s) && !feat_exists(&s));
    assert!(get_alpha_init(&s).is_nan());
    assert_eq!(f(get_feat0(&s)), 0.0);
    assert!(settings_vec(&s).is_empty());
    assert_eq!(f(get_factor_params(&s).gmax), 3.0);
    set_features_enabled(&mut s, true);
    assert!(features_enabled(&s));
    set_feat_exists(&mut s, true);
    assert!(feat_exists(&s));
    recompute_features_enabled(&mut s, 1);
    assert!(!features_enabled(&s));
    s.features_active = true;
    recompute_features_enabled(&mut s, 1);
    assert!(features_enabled(&s));
    recompute_features_enabled(&mut s, 0);
    assert!(!features_enabled(&s));
    set_feat0(&mut s, d(2.0));
    set_alpha_init(&mut s, d(0.1));
    assert_eq!((f(get_feat0(&s)), f(get_alpha_init(&s))), (2.0, 0.1));
    set_factor_params(&mut s, FactorParams::default());
    assert_eq!(f(get_factor_params(&s).alpha), 0.2);
}

#[test]
fn orders_count_from_zero_or_from_one() {
    assert_eq!(normalize_prior_order(vec![], 3), None);
    assert_eq!(normalize_prior_order(vec![2, 0], 3), Some(vec![2, 0, 1]));
    assert_eq!(normalize_prior_order(vec![3, 1], 3), Some(vec![2, 0, 1]));
    assert_eq!(normalize_prior_order(vec![1, 1, 2], 3), Some(vec![0, 1, 2]));
    assert_eq!(normalize_prior_order(vec![0, 3], 3), None);
    assert_eq!(normalize_prior_order(vec![9], 3), None);
    assert_eq!(normalize_prior_order(vec![1], 0), None);
}

#[test]
fn orders_are_read_from_their_text() {
    assert_eq!(parse_prior_order("[8,1]", 8), Some(vec![7, 0, 1, 2, 3, 4, 5, 6]));
    assert_eq!(parse_prior_order("[8,0]", 8), None);
    assert_eq!(parse_prior_order("{}", 8), None);
    assert_eq!(parse_prior_order("[]", 8), None);
}

#[test]
fn the_even_vector_comes_last() {
    let cands = default_candidates_with_order(2, &vec![1, 0, 1], d(0.5));
    let cands: Vec<Vec<f64>> = cands.iter().map(|v| fs(v)).collect();
    assert_eq!(cands, [vec![0.0, 1.0], vec![1.0, 0.0], vec![0.5, 0.5]]);
}

#[test]
fn candidates_start_in_the_usual_order() {
    let mut state = SchedulerState::new();
    ensure_v_candidates_for(&mut state, None, None, &|_n: usize| d(0.25));
    let cands = get_v_candidates(&state);
    assert_eq!(cands.len(), 9);
    for (k, place) in default_prior().iter().enumerate() {
        assert_eq!(cands[k].len(), 9);
        assert_eq!(f(cands[k][0]), 0.5);
        assert_eq!(f(cands[k][1 + place]), 1.0);
    }
    assert_eq!(fs(&cands[8]), [0.5, 0.25, 0.25, 0.25, 0.25, 0.25, 0.25, 0.25, 0.25]);
    assert_eq!(get_current_weight_vec(&state), cands[0]);
}

#[test]
fn candidates_of_a_file_are_fitted() {
    let math = WeightMath { even, norm, over, weigh };
    let listed = vec![ds(&[0.6, 0.8]), ds(&[0.0, 0.0, 5.0]), ds(&[f64::NAN, -1.0])];
    let fit: Vec<Vec<f64>> = fit_candidates(&listed, 2, &math).iter().map(|v| fs(v)).collect();
    let n = (0.6f64 * 0.6 + 0.8 * 0.8).sqrt();
    let half = 1.0 / 2.0f64.sqrt();
    assert_eq!(fit, [vec![0.6 / n, 0.8 / n], vec![half, half], vec![half, half]]);
    assert_eq!(fs(&fit_candidates(&vec![], 4, &math)[0]), [0.5; 4]);
    assert_eq!(parse_candidates("[[1, 0], [0]]", 2, &math).map(|c| c.len()), Some(2));
    assert_eq!(fs(&parse_candidates("[[0, 7]]", 2, &math).unwrap()[0]), [0.0, 1.0]);
    assert_eq!(parse_candidates("[[", 2, &math), None);

    let mut state = SchedulerState::new();
    set_state_alpha(&mut state, d(2.0));
    ensure_v_candidates_for(&mut state, Some(vec![0]), Some(vec![ds(&[0.1])]), &even);
    assert_eq!(fs(&get_v_candidates(&state)[0]), [1.0, 0.1]);
    ensure_v_candidates_for(&mut state, None, None, &even);
    assert_eq!(get_v_candidates(&state).len(), 1);
}

#[test]
fn every_map_fault_has_its_text() {
    let math = WeightMath { even, norm, over, weigh };
    let mut map: Table<Vec<Double>> = Table::new();
    map.insert("imme".to_string(), ds(&[1.0]));
    assert_eq!(
        combine_feature_matrix_to_weights(&map, &ds(&[1.0]), &math),
        Err("error: missing feature dimension 'strc'".to_string())
    );
    let mut map = full_map(1.0, 2);
    map.insert("mem".to_string(), ds(&[1.0]));
    assert_eq!(
        combine_feature_matrix_to_weights(&map, &ds(&[1.0]), &math),
        Err("error: feature dimension length mismatch: 'mem' has len 1, expected 2".to_string())
    );
    let out = combine_feature_matrix_to_weights(&full_map(2.0, 2), &ds(&[1.0]), &math);
    assert_eq!(fs(&out.unwrap()), [2.0, 2.0]);
}

#[test]
fn flat_maps_do_not_allow_the_search() {
    let math = WeightMath { even, norm, over, weigh };
    let mut state = SchedulerState::new();
    set_tpe_satisfied(&mut state, true);
    let (feats, matrix) =
        load_and_align_features_map(&mut state, FeatsJson::Raw(ds(&[1.0, 2.0])), 3, &math)
            .unwrap_or_else(|e| panic!("{}", e));
    assert_eq!(fs(&feats), [1.0, 2.0, 0.0]);
    assert!(matrix.is_none() && !get_tpe_satisfied(&state));
    let obj = FeatsJson::Obj { features: ds(&[1.0, 2.0]) };
    let (feats, _) =
        load_and_align_features_map(&mut state, obj, 1, &math).unwrap_or_else(|e| panic!("{}", e));
    assert_eq!(fs(&feats), [1.0]);
}

#[test]
fn maps_by_feature_allow_the_search() {
    let math = WeightMath { even, norm, over, weigh };
    let mut state = SchedulerState::new();
    let mut v = vec![0.7, 1.0];
    v.extend([0.0; 7]);
    replace_v_candidates(&mut state, vec![ds(&v)]);
    let (feats, matrix) =
        load_and_align_features_map(&mut state, FeatsJson::Dict(full_map(3.0, 1)), 2, &math)
            .unwrap_or_else(|e| panic!("{}", e));
    assert_eq!(fs(&feats), [3.0, 0.0]);
    assert!(get_tpe_satisfied(&state));
    assert_eq!(matrix.unwrap().len(), 8);
    assert_eq!(f(get_current_weight_vec(&state)[0]), 1.0);
    assert_eq!(fs(&get_current_weight_vec(&state)[1..]), v[1..]);
    let bad: Table<Vec<Double>> = Table::new();
    let r = load_and_align_features_map(&mut state, FeatsJson::Dict(bad), 2, &math);
    assert_eq!(r.err(), Some("error: missing feature dimension 'imme'".to_string()));
}

#[test]
fn weights_are_applied_to_the_eight_features() {
    let math = WeightMath { even, norm, over, weigh };
    let mut state = SchedulerState::new();
    state.features_matrix = Some(FeaturesMatrixMeta { matrix: full_map(2.0, 1), sites: 1 });
    assert_eq!(apply_v_to_features(&mut state, &ds(&[1.0]), &math), Ok(()));
    assert_eq!(fs(&state.features_map.as_ref().unwrap().feats), [2.0]);
    assert_eq!(fs(&get_current_weight_vec(&state)), [1.0, 1.0]);
    state.features_matrix = Some(FeaturesMatrixMeta { matrix: Table::new(), sites: 1 });
    assert!(apply_v_to_features(&mut state, &ds(&[0.5]), &math).is_err());
    assert_eq!(fs(&get_current_weight_vec(&state)), [1.0, 1.0]);
}

fn search(rewards: &[f64]) -> TpeOptimizer {
    let mut opt = TpeOptimizer::new(TpeParams::default());
    for (i, r) in rewards.iter().enumerate() {
        opt.observe(&ds(&[i as f64 / 10.0; 9]), d(*r));
    }
    opt
}

#[test]
fn windows_follow_the_clock() {
    let p = TpeParams::default();
    assert_eq!((f(p.gamma), p.samples, f(p.bw), p.period), (0.2, 64, 0.15, 60));
    let mut opt = TpeOptimizer::new(p);
    assert!(opt.window_due(0));
    assert_eq!(opt.window_elapsed(99), 0);
    opt.advance_window(1_000);
    assert!(!opt.window_due(60_000_000_999));
    assert!(opt.window_due(60_000_001_000));
    assert_eq!(opt.window_elapsed(1_250), 250);
    assert_eq!(opt.window_elapsed(10), 0);
}

#[test]
fn rewards_are_differences() {
    let mut opt = TpeOptimizer::new(TpeParams::default());
    assert_eq!(opt.take_reward_from_coverage(10), None);
    assert_eq!(opt.take_reward_from_coverage(17), Some(7));
    assert_eq!(opt.take_reward_from_coverage(15), Some(-2));
    opt.set_last_cov(20);
    assert_eq!(opt.take_reward_from_coverage(20), Some(0));
    opt.set_last_corpus(3);
    assert_eq!(opt.take_reward_from_corpus(8), Some(5));
    assert!(!opt.has_last_vec());
    opt.init_vec_if_empty(&ds(&[0.5]));
    opt.init_vec_if_empty(&ds(&[0.9]));
    assert_eq!(fs(&opt.last_vec()), [0.5]);
    opt.set_last_vec(&ds(&[0.1]));
    assert!(opt.has_last_vec());
}

#[test]
fn at_most_so_many_trials_are_remembered() {
    let mut opt = search(&[]);
    for i in 0..1030 {
        opt.observe(&ds(&[0.5]), d(i as f64));
    }
    assert_eq!(opt.state.trials.len(), 1024);
    assert_eq!(f(opt.state.trials[0].reward), 6.0);
}

#[test]
fn a_kept_search_is_taken_up_once() {
    let mut opt = search(&[1.0, 2.0, 3.0]);
    opt.set_last_vec(&ds(&[0.4]));
    opt.set_last_cov(9);
    let mut state = SchedulerState::new();
    opt.persist_to_meta_at(&mut state, 77);
    let kept = state.tpe_history.as_ref().unwrap();
    assert_eq!((kept.max_trials, kept.last_cov, kept.last_check_ms), (1024, Some(9), Some(77)));
    let mut fresh = search(&[]);
    fresh.restore_once(&state, 500);
    assert_eq!(fresh.state.trials.len(), 3);
    assert_eq!(fs(&fresh.last_vec()), [0.4]);
    assert_eq!((fresh.state.window_start, fresh.state.last_cov), (Some(500), None));
    fresh.observe(&ds(&[0.9]), d(9.0));
    fresh.restore_once(&state, 900);
    assert_eq!(fresh.state.trials.len(), 4);

    state.tpe_history.as_mut().unwrap().max_trials = 2;
    opt.persist_to_meta_at(&mut state, 78);
    assert_eq!(state.tpe_history.as_ref().unwrap().trials.len(), 2);
    let mut other = search(&[]);
    other.restore_once(&state, 0);
    assert_eq!(f(other.state.trials[0].reward), 2.0);

    opt.persist_to_meta(&mut state);
    assert!(state.tpe_history.as_ref().unwrap().last_check_ms.unwrap() > 1_600_000_000_000);
    let mut bare = search(&[]);
    bare.restore_once(&SchedulerState::new(), 1);
    assert!(bare.state.restored_once && bare.state.window_start.is_none());
}

#[test]
fn trials_are_split_by_a_threshold() {
    assert!(search(&[1.0, 2.0, 3.0, 4.0]).split_l_g(1).is_none());
    let opt = search(&[3.0, 1.0, 5.0, 5.0, 2.0]);
    let (l, g, y) = opt.split_l_g(1).unwrap();
    let rewards = |ts: &Vec<Trial>| ts.iter().map(|t| f(t.reward)).collect::<Vec<_>>();
    assert_eq!((rewards(&l), rewards(&g), f(y)), (vec![5.0, 5.0], vec![1.0, 2.0, 3.0], 5.0));
    assert_eq!((f(l[0].vec[0]), f(l[1].vec[0])), (0.2, 0.3));
    let (l, g, y) = opt.split_l_g(3).unwrap();
    assert_eq!((rewards(&l), rewards(&g), f(y)), (vec![3.0, 5.0, 5.0], vec![1.0, 2.0], 3.0));
    assert!(opt.split_l_g(9).is_none());
    assert!(search(&[1.0; 5]).split_l_g(1).is_none());
}

fn unasked() -> Kde<
    impl Fn(&Vec<Trial>, &Vec<Double>, Double) -> Double,
    impl Fn(Double, Double) -> Double,
> {
    Kde {
        density: |_: &Vec<Trial>, _: &Vec<Double>, _: Double| panic!("asked for a density"),
        over,
    }
}

/// Draws the given vectors, one after the other.
fn given(vs: &[f64]) -> impl Fn(&Vec<Double>, Double) -> Vec<Double> {
    let left = std::cell::RefCell::new(vs.to_vec());
    move |_: &Vec<Double>, _: Double| ds(&[left.borrow_mut().remove(0); 9])
}

/// The share of the trials whose alpha is no farther from that of the vector than the bandwidth.
fn near(set: &Vec<Trial>, v: &Vec<Double>, bw: Double) -> Double {
    let n = set.iter().filter(|t| (f(t.vec[0]) - f(v[0])).abs() <= f(bw)).count();
    d(n as f64 / set.len() as f64)
}

/// The trials that earned 5 make a vector as likely as `score` says, all others likely by 1.
fn ranked<S: Fn(&Vec<Double>) -> f64>(
    score: S,
) -> Kde<impl Fn(&Vec<Trial>, &Vec<Double>, Double) -> Double, impl Fn(Double, Double) -> Double> {
    Kde {
        density: move |set: &Vec<Trial>, v: &Vec<Double>, _: Double| {
            if set.iter().all(|t| f(t.reward) == 5.0) {
                d(score(v))
            } else {
                d(1.0)
            }
        },
        over,
    }
}

#[test]
fn a_score_compares_good_trials_with_others() {
    let kde = Kde { density: near, over };
    let opt = search(&[3.0, 1.0, 5.0, 4.0, 2.0]);
    let (good, other, _) = opt.split_l_g(1).unwrap();
    let at = |x: f64| f(lg_score(&good, &other, &ds(&[x; 9]), d(0.15), &kde));
    assert_eq!(at(0.1), 2.0);
    assert_eq!(at(0.4), 0.0);
    assert_eq!(at(0.9), f64::INFINITY);
    assert_eq!(opt.l_over_g(1, &ds(&[0.1; 9]), &kde).map(f), Some(2.0));
    assert_eq!(opt.l_over_g(2, &ds(&[0.1; 9]), &kde).map(f), Some(0.75));
    assert_eq!(opt.l_over_g(1, &ds(&[0.9; 9]), &kde).map(f), Some(f64::INFINITY));
    assert_eq!(search(&[]).l_over_g(1, &ds(&[0.1; 9]), &unasked()), None);
    let mut wide = search(&[3.0, 1.0, 5.0, 4.0, 2.0]);
    wide.params.bw = d(9.0);
    assert_eq!(wide.l_over_g(1, &ds(&[0.9; 9]), &kde).map(f), Some(1.0));
    assert_eq!(f(opt.best_by_lg(1, &kde).unwrap()[0]), 0.1);
}

#[test]
fn scores_rank_the_history() {
    let opt = search(&[3.0, 1.0, 5.0, 4.0, 2.0]);
    let share = |n: usize, gamma: Double| (n as f64 * f(gamma)).ceil() as usize;
    assert_eq!(opt.good_quota(&share), 1);
    let scores =
        ranked(|v: &Vec<Double>| [0.1, 0.9, 0.9, 0.2, 0.3][(f(v[0]) * 10.0).round() as usize]);
    let best = opt.best_by_lg(1, &scores).unwrap();
    assert_eq!(f(best[0]), 0.1);
    assert_eq!(search(&[1.0]).best_by_lg(1, &unasked()), None);
    let mut short = TpeOptimizer::new(TpeParams::default());
    for i in 0..5 {
        short.observe(&ds(&[0.5; 8]), d(i as f64));
    }
    assert_eq!(short.best_by_lg(1, &unasked()), None);
}

#[test]
fn the_most_promising_draw_joins_the_pool() {
    let opt = search(&[3.0, 1.0, 5.0, 5.0, 2.0]);
    let mut state = SchedulerState::new();
    replace_v_candidates(&mut state, vec![ds(&[0.77; 9])]);
    let scores = ranked(|v: &Vec<Double>| if f(v[0]) == 0.8 { 2.0 } else { 1.5 });
    let drawn = given(&[0.9, 0.8]);
    assert_eq!(opt.gen_kde_candidates(&mut state, 1, &within, &drawn, &scores), 1);
    assert_eq!(f(get_v_candidates(&state)[1][0]), 0.8);
    let again = given(&[0.8, 0.2]);
    assert_eq!(opt.gen_kde_candidates(&mut state, 1, &within, &again, &unasked()), 0);
    let level = ranked(|_: &Vec<Double>| 1.0);
    let dull = given(&[0.6, 0.65]);
    assert_eq!(opt.gen_kde_candidates(&mut state, 1, &within, &dull, &level), 0);
    let none = search(&[]);
    assert_eq!(none.gen_kde_candidates(&mut state, 1, &within, &given(&[]), &unasked()), 0);
}

#[test]
fn vectors_are_drawn_around_the_good_trials() {
    let opt = search(&[3.0, 1.0, 5.0, 5.0, 2.0]);
    let mut state = SchedulerState::new();
    let up = |base: &Vec<Double>, bw: Double| ds(&[f(base[0]) + f(bw); 9]);
    let scores = ranked(|v: &Vec<Double>| 2.0 - f(v[0]));
    assert_eq!(opt.gen_kde_candidates(&mut state, 1, &within, &up, &scores), 1);
    assert_eq!(fs(&get_v_candidates(&state)[0]), [0.2 + 0.15; 9]);
}

#[test]
fn all_promising_draws_join_the_pool() {
    let mut opt = search(&[3.0, 1.0, 5.0, 4.0, 2.0]);
    opt.params.samples = 4;
    let mut state = SchedulerState::new();
    let mut rng = StdRand::new();
    let drawn = given(&[0.9, 0.9, 0.8, 0.1]);
    let high = ranked(|_: &Vec<Double>| 2.0);
    let n = opt.gen_kde_candidates_allin_L(&mut state, 1, &within, &drawn, &high, &mut rng);
    assert_eq!((n, get_v_candidates(&state).len()), (2, 2));
    let level = ranked(|_: &Vec<Double>| 1.0);
    let fresh = given(&[0.5, 0.6, 0.65, 0.7]);
    let n = opt.gen_kde_candidates_allin_L(&mut state, 1, &within, &fresh, &level, &mut rng);
    assert_eq!(n, 0);
    let some = ranked(|v: &Vec<Double>| if f(v[0]) < 0.62 { 3.0 } else { 0.5 });
    let fresh = given(&[0.5, 0.6, 0.65, 0.7]);
    let n = opt.gen_kde_candidates_allin_L(&mut state, 1, &within, &fresh, &some, &mut rng);
    assert_eq!(n, 2);
    let none = search(&[]);
    let drawn = given(&[]);
    let n = none.gen_kde_candidates_allin_L(&mut state, 1, &within, &drawn, &unasked(), &mut rng);
    assert_eq!(n, 0);
}

#[test]
fn the_search_settles_for_good() {
    let mut opt = search(&[3.0, 1.0, 5.0, 4.0, 2.0]);
    let mut state = SchedulerState::new();
    replace_v_candidates(&mut state, vec![ds(&[0.3; 9]), ds(&[7.0; 9])]);
    let scores =
        ranked(|v: &Vec<Double>| [0.1, 0.9, 0.5, 0.2, 0.3][(f(v[0]) * 10.0).round() as usize]);
    let v = opt.suggest(&mut state, 1, &within, &project, &given(&[0.2]), &unasked());
    assert_eq!(fs(&v), [1.0; 9]);
    assert!(!opt.state.lock_best);
    let v = opt.suggest(&mut state, 1, &within, &project, &given(&[0.2]), &scores);
    assert_eq!(fs(&v), [0.1; 9]);
    assert!(opt.state.lock_best);
    replace_v_candidates(&mut state, vec![ds(&[0.66; 9])]);
    let v = opt.suggest(&mut state, 1, &within, &project, &given(&[]), &unasked());
    assert_eq!(fs(&v), [0.1; 9]);
    assert_eq!(get_v_candidates(&state).len(), 1);
}

#[test]
fn a_promising_draw_is_suggested() {
    let mut opt = search(&[3.0, 1.0, 5.0, 4.0, 2.0]);
    let mut state = SchedulerState::new();
    let kde = Kde { density: near, over };
    let v = opt.suggest(&mut state, 1, &within, &project, &given(&[0.15]), &kde);
    assert_eq!(fs(&v), [0.15; 9]);
    assert!(!opt.state.lock_best);
    let v = opt.suggest(&mut state, 1, &within, &project, &given(&[0.4]), &kde);
    assert_eq!(fs(&v), [0.1; 9]);
    assert!(opt.state.lock_best);
}

#[test]
fn a_search_without_history_settles_on_the_middle() {
    let mut opt = search(&[]);
    let mut state = SchedulerState::new();
    let v = opt.suggest(&mut state, 1, &within, &project, &given(&[]), &unasked());
    assert_eq!(fs(&v), [0.5; 9]);
    let mut other = search(&[]);
    other.set_last_vec(&ds(&[0.4]));
    let v = other.suggest(&mut state, 1, &within, &project, &given(&[]), &unasked());
    assert_eq!(fs(&v), [0.4]);
}

#[test]
fn a_base_is_one_of_the_trials() {
    let mut rng = StdRand::new();
    let set = search(&[1.0, 2.0, 3.0]).state.trials;
    assert_eq!(fs(&base_at(&set, 1)), [0.1; 9]);
    assert_eq!(fs(&base_at(&set, 2)), [0.2; 9]);
    let mut mixed = search(&[]);
    mixed.observe(&ds(&[0.5]), d(1.0));
    mixed.observe(&ds(&[0.6, 0.7]), d(2.0));
    assert_eq!(fs(&base_at(&mixed.state.trials, 1)), [0.6]);
    let mut seen = [false; 3];
    let up = |base: &Vec<Double>, bw: Double| ds(&[f(base[0]) + f(bw)]);
    for _ in 0..500 {
        let v = sample_from_kde_reflect(&set, d(1.0), &up, &mut rng);
        seen[set.iter().position(|t| f(t.vec[0]) + 1.0 == f(v[0])).unwrap()] = true;
    }
    assert_eq!(seen, [true, true, true]);
}

#[test]
fn a_window_is_rewarded_by_new_testcases() {
    let math = WeightMath { even, norm, over, weigh };
    let mut state = SchedulerState::new();
    set_features_active(&mut state, true);
    set_state_feat_exists(&mut state, true);
    set_tpe_satisfied(&mut state, true);
    set_current_weight_vec(&mut state, ds(&[0.2; 8]));
    replace_v_candidates(&mut state, vec![ds(&[0.25; 9])]);
    state.features_matrix = Some(FeaturesMatrixMeta { matrix: full_map(2.0, 1), sites: 1 });
    let mut stage = TpeStage::new(TpeParams::default());
    stage.opt.set_last_corpus(3);
    assert!(stage.should_restart(&state, 10));
    assert_eq!(f(stage.begin(&state, 8, &number)), 5.0);
    assert_eq!(fs(&stage.opt.state.trials[0].vec)[..2], [1.0, 0.2]);
    let v = stage.choose_next(&mut state, 1, &within, &project, &given(&[]), &unasked());
    assert_eq!(fs(&v), [0.25; 9]);
    assert_eq!(stage.finish(&mut state, &v, 10, 99, &math), Ok(()));
    assert_eq!(f(state_params(&state).alpha), 0.25);
    assert_eq!(state.tpe_history.as_ref().unwrap().trials.len(), 1);
    assert!(!stage.should_restart(&state, 60_000_000_009));
    assert!(stage.should_restart(&state, 60_000_000_010));

    state.features_matrix = Some(FeaturesMatrixMeta { matrix: Table::new(), sites: 1 });
    assert!(stage.finish(&mut state, &ds(&[0.75; 9]), 20, 99, &math).is_err());
    assert_eq!(stage.opt.state.window_start, Some(10));
    assert_eq!(stage.finish(&mut state, &ds(&[0.75; 8]), 20, 99, &math), Ok(()));
}

#[test]
fn a_window_is_shown() {
    let t = |s: &str| s.to_string();
    let numbers: Vec<String> = (0..9).map(|i| format!("0.{}0", i)).collect();
    assert_eq!(weights_text(&numbers), "[0.10,0.20,0.30,0.40,0.50,0.60,0.70,0.80]");
    assert_eq!(weights_text(&vec![t("1")]), "[]");
    let stage = TpeStage::new(TpeParams::default());
    let x = WindowNumbers {
        reward: t("5.00"),
        alpha: t("0.00"),
        v_norm: t("1.00"),
        vector: vec![],
        bw: t("0.15"),
        gamma: t("0.20"),
    };
    assert_eq!(
        stage.info_text(&x, 8),
        "[TPE] reward=ΔCorpus=5.00, trials=0, corpus=8, alpha=0.00, v_norm=1.00, v8=[], \
         bw=0.15, gamma=0.20, samples=64, period=60s"
    );
    let mut opt = search(&[1.0]);
    opt.state.trials[0].vec = ds(&[0.5]);
    assert_eq!(
        opt.snapshot_trials_text(&vec![t("1.000")], &vec![vec![t("0.5000")]]),
        "[tpe-trials] count=1\n[tpe-trial #0] iteration=0 reward=ΔEdges=1.000 simplex=[0.5000] len=1\n"
    );
}

#[test]
fn scores_are_multiplied_by_the_factor() {
    let gain = |_w: Double, _s: WeightStats, _p: FactorParams| d(2.0);
    let blend = |a: Double, g: Double| d(1.0 + f(a) * (f(g) - 1.0));
    let times = |x: Double, y: Double| d(f(x) * f(y));
    let p = FactorParams::default();
    let s = Some(WeightStats { n: 2, mu: d(0.0), m2: d(1.0) });
    let w = Some(PathWeightMeta { w: d(1.0) });
    let score = FeatureAwareFastScore::compute(d(50.0), &p, true, s, w, &gain, &blend, &times);
    assert_eq!(f(score), 60.0);
    type Stage = FeatureAwarePowerStage<u8>;
    assert_eq!(f(Stage::perf_score(d(50.0), &p, true, s, w, &gain, &blend, &times)), 60.0);
    assert_eq!(f(Stage::perf_score(d(50.0), &p, false, s, w, &gain, &blend, &times)), 50.0);
    let stage = FeatureAwarePowerStage::new(1u8);
    let whole = |x: Double| f(x) as usize;
    assert_eq!(stage.runs(d(60.0), &over, &whole), 1);
    assert_eq!(stage.runs(d(f64::NAN), &over, &whole), 1);
    assert_eq!(stage.runs(d(750.0), &over, &whole), 7);
    assert_eq!(FeatureAwarePowerStage::with_divisor(1u8, d(10.0)).runs(d(60.0), &over, &whole), 6);
}

#[test]
fn exploring_ends_once() {
    let mut state = SchedulerState::new();
    set_state_feat_exists(&mut state, true);
    set_explore_time(&mut state, 1);
    assert!(!end_exploring(&mut state, 999));
    assert!(end_exploring(&mut state, 1_000));
    assert!(!end_exploring(&mut state, 2_000));
}

#[test]
fn the_settings_of_the_user_are_settled() {
    let args = FunArgs::with_times(FactorParams::default(), 2, 12, 10).unwrap();
    assert_eq!((args.explore_time_secs, args.tpe_period_secs), (43_200, 600));
    assert_eq!(FunArgs::with_times(FactorParams::default(), 2, u64::MAX, 1), None);
    let mut state = SchedulerState::new();
    configure(&mut state, &args, None, 4);
    assert!(!get_feat_exists(&state));
    assert_eq!(get_feat_mode(&state), 2);
    assert_eq!(f(state_params(&state).alpha), 0.2);
    configure(&mut state, &args, Some((ds(&[1.0]), Some(full_map(1.0, 1)))), 4);
    assert!(get_feat_exists(&state));
    assert_eq!(state.features_matrix.as_ref().unwrap().sites, 4);
}

#[test]
fn coverage_sites_are_counted() {
    assert_eq!(coverage_sites(100, 104, 0, 64, 8), Ok(4));
    assert_eq!(
        coverage_sites(104, 100, 0, 64, 8),
        Err("sancov cntrs pointers inverted?".to_string())
    );
    assert_eq!(
        coverage_sites(100, 105, 0, 64, 8),
        Err("sancov cntrs/pcs size mismatch: 5 vs 4".to_string())
    );
}

#[test]
fn the_history_starts_empty() {
    let h = TpeHistoryMeta::default();
    assert!(h.trials.is_empty() && h.last_check_ms.is_none() && h.max_trials == 0);
}
