use bofuzz::double::Double;
use bofuzz::feature_sched::metadata::ExploreCreditMeta;
use bofuzz::feature_sched::tpe::{
    center_at, sample_one_from_kde, LogKde, TpeOptimizer, TpeParams, MAX_TRIALS,
};
use bofuzz::feature_sched::{get_v_candidates, replace_v_candidates, set_schema_info, SchedulerState};
use libafl_bolts::rands::StdRand;

fn d(x: f64) -> Double {
    Double { bits: x.to_bits() }
}

fn f(x: Double) -> f64 {
    f64::from_bits(x.bits)
}

fn ds(v: &[f64]) -> Vec<Double> {
    v.iter().map(|x| d(*x)).collect()
}

fn fs(v: &[Double]) -> Vec<f64> {
    v.iter().map(|x| f(*x)).collect()
}

fn within(x: Double, y: Double, eps: Double) -> bool {
    (f(x) - f(y)).abs() <= f(eps)
}

fn normalize(v: &Vec<Double>) -> Option<Vec<Double>> {
    let sum: f64 = v.iter().map(|x| f(*x)).sum();
    if v.len() == 1 {
        Some(v.clone())
    } else if !sum.is_finite() || sum <= 0.0 {
        None
    } else {
        Some(v.iter().map(|x| d(f(*x) / sum)).collect())
    }
}

fn search() -> TpeOptimizer {
    TpeOptimizer::new(TpeParams::default())
}

fn record(opt: &mut TpeOptimizer, i: u64, v: &[f64], reward: f64) {
    opt.observe_trial(i, &ds(v), d(reward), i, i + 1, &within, &normalize);
}

#[test]
fn the_search_has_its_defaults() {
    let p = TpeParams::default();
    assert_eq!((f(p.gamma), p.samples, f(p.bw)), (0.15, 16, 0.05));
    assert_eq!((p.period, p.trials_threshold, p.re_tpe_threshold), (600, 5, 3600));
}

#[test]
fn a_repeated_trial_only_raises_its_reward() {
    let mut opt = search();
    record(&mut opt, 1, &[0.2, 0.8], 3.0);
    record(&mut opt, 2, &[0.2, 0.8], 2.0);
    assert_eq!(opt.state.trials.len(), 1);
    assert_eq!(f(opt.state.trials[0].reward), 3.0);
    record(&mut opt, 1, &[0.9, 0.1], 5.0);
    assert_eq!(opt.state.trials.len(), 1);
    assert_eq!(f(opt.state.trials[0].reward), 5.0);
    assert_eq!(opt.state.trials[0].active_end_ms, 2);
    assert_eq!(fs(&opt.state.trials[0].vector), [0.2, 0.8]);
    record(&mut opt, 3, &[0.9, 0.1], 1.0);
    assert_eq!(opt.state.trials.len(), 2);
    opt.observe_trial(4, &vec![], d(9.0), 0, 0, &within, &normalize);
    assert_eq!(opt.state.trials.len(), 2);
}

#[test]
fn the_history_is_bounded() {
    let mut opt = search();
    for i in 0..(MAX_TRIALS as u64 + 3) {
        record(&mut opt, i, &[(i % 2) as f64], i as f64);
    }
    assert_eq!(opt.state.trials.len(), MAX_TRIALS);
    assert_eq!(opt.state.trials[0].iteration, 3);
}

#[test]
fn the_last_of_the_best_trials_is_the_best() {
    let mut opt = search();
    assert_eq!(opt.best_by_reward(), None);
    assert_eq!(opt.best_vec(), None);
    record(&mut opt, 1, &[0.1], 2.0);
    record(&mut opt, 2, &[0.2], 5.0);
    record(&mut opt, 3, &[0.3], 5.0);
    record(&mut opt, 4, &[0.4], 1.0);
    assert_eq!(fs(&opt.best_by_reward().unwrap()), [0.3]);
    opt.lock_best();
    assert!(opt.is_locked());
    assert_eq!(fs(&opt.best_vec().unwrap()), [0.3]);
    opt.unlock();
    assert!(!opt.is_locked());
}

#[test]
fn a_search_without_trials_settles_on_the_vector_in_use() {
    let mut opt = search();
    opt.set_last_vec(&ds(&[2.0, 2.0]), &normalize);
    assert_eq!(fs(&opt.last_vec()), [0.5, 0.5]);
    opt.set_last_vec(&ds(&[0.0, 0.0]), &normalize);
    assert_eq!(fs(&opt.last_vec()), [0.0, 0.0]);
    opt.lock_best();
    assert_eq!(fs(&opt.best_vec().unwrap()), [0.0, 0.0]);
}

#[test]
fn a_restart_gives_the_trials_back() {
    let mut opt = search();
    record(&mut opt, 10, &[0.25, 0.75], 3.0);
    record(&mut opt, 11, &[3.0, 1.0], 4.0);
    opt.set_last_vec(&ds(&[0.75, 0.25]), &normalize);
    let mut state = SchedulerState::new();
    opt.persist_to_meta_at(&mut state, 555);
    let kept = state.tpe_history.as_ref().unwrap();
    assert_eq!(kept.max_trials, MAX_TRIALS);
    assert_eq!(kept.last_check_ms, Some(555));
    assert_eq!(kept.trials[1].2, 12);

    state.tpe_history.as_mut().unwrap().trials.push((vec![], d(9.0), 1));
    let mut fresh = search();
    fresh.restore_once(&state, &normalize);
    assert_eq!(fresh.state.trials.len(), 2);
    assert_eq!(fresh.state.trials[1].iteration, 1);
    assert_eq!(f(fresh.state.trials[1].reward), 4.0);
    assert_eq!(fs(&fresh.state.trials[1].vector), [0.75, 0.25]);
    assert_eq!(fs(&fresh.last_vec()), [0.75, 0.25]);
    fresh.restore_once(&SchedulerState::new(), &normalize);
    assert_eq!(fresh.state.trials.len(), 2);
}

#[test]
fn the_clock_is_kept_with_the_history() {
    let opt = search();
    let mut state = SchedulerState::new();
    opt.persist_to_meta(&mut state);
    assert!(state.tpe_history.as_ref().unwrap().last_check_ms.unwrap() > 1_600_000_000_000);
}

#[test]
fn tried_vectors_are_passed_over() {
    let mut opt = search();
    record(&mut opt, 1, &[0.1, 0.9], 1.0);
    let mut state = SchedulerState::new();
    replace_v_candidates(
        &mut state,
        vec![ds(&[0.1, 0.9]), ds(&[5.0, 5.0]), ds(&[0.0, 0.0])],
    );
    let v = opt.next_untried_from_pool(&mut state, &within, &normalize);
    assert_eq!(v.map(|v| fs(&v)), Some(vec![0.5, 0.5]));
    assert_eq!(get_v_candidates(&state).len(), 1);
    assert_eq!(opt.next_untried_from_pool(&mut state, &within, &normalize), None);
    assert!(get_v_candidates(&state).is_empty());
}

fn rewarded() -> TpeOptimizer {
    let mut opt = search();
    for (i, r) in [5.0, 1.0, 4.0, 0.0, 3.0, 2.0].iter().enumerate() {
        record(&mut opt, i as u64, &[i as f64 / 10.0], *r);
    }
    opt
}

#[test]
fn the_history_is_split_by_reward() {
    let opt = rewarded();
    assert_eq!(opt.count_rewarded(), 5);
    let share = |n: usize, gamma: Double| (n as f64 * f(gamma)).ceil() as usize;
    assert_eq!(opt.good_quota(&share), 1);
    let (good, bad) = opt.split_good_bad(2).unwrap();
    assert_eq!(good.iter().map(|v| f(v[0])).collect::<Vec<_>>(), [0.0, 0.2]);
    assert_eq!(bad.len(), 4);
    assert_eq!(bad.iter().map(|v| f(v[0])).collect::<Vec<_>>(), [0.1, 0.3, 0.4, 0.5]);
    let (good, _) = opt.split_good_bad(0).unwrap();
    assert_eq!(good.len(), 1);
    assert_eq!(good.len() + opt.split_good_bad(0).unwrap().1.len(), 6);
    let mut few = search();
    record(&mut few, 1, &[0.5], 1.0);
    assert!(few.split_good_bad(1).is_none());
}

fn minus(x: Double, y: Double) -> Double {
    d(f(x) - f(y))
}

/// Less the farther the vector is from the nearest center.
fn nearness(v: &Vec<Double>, centers: &Vec<Vec<Double>>, _bw: Double) -> Double {
    let far = centers.iter().map(|c| (f(c[0]) - f(v[0])).abs()).fold(f64::INFINITY, f64::min);
    d(-far)
}

#[test]
fn the_next_vector_is_suggested() {
    let mut opt = rewarded();
    let mut state = SchedulerState::new();
    replace_v_candidates(&mut state, vec![ds(&[0.9])]);
    let mut rng = StdRand::new();
    let kde = LogKde { log_pdf: nearness, minus };
    let up = |center: &Vec<Double>, bw: Double| ds(&[f(center[0]) + f(bw) / 2.0]);
    let v = opt.suggest_next(&mut state, 1, &within, &normalize, &up, &kde, &mut rng);
    assert_eq!(v.map(|v| fs(&v)), Some(vec![0.9]));
    assert!(get_v_candidates(&state).is_empty());
    let v = opt.suggest_next(&mut state, 1, &within, &normalize, &up, &kde, &mut rng);
    assert_eq!(v.map(|v| fs(&v)), Some(vec![0.025]));
    assert!(!opt.is_locked());
    let far = |center: &Vec<Double>, _: Double| ds(&[f(center[0]) + 0.4]);
    let v = opt.suggest_next(&mut state, 1, &within, &normalize, &far, &kde, &mut rng);
    assert!(v.is_none() && opt.is_locked());
    assert_eq!(fs(&opt.best_vec().unwrap()), [0.0]);
    replace_v_candidates(&mut state, vec![ds(&[0.9])]);
    let v = opt.suggest_next(&mut state, 1, &within, &normalize, &up, &kde, &mut rng);
    assert!(v.is_none() && get_v_candidates(&state).len() == 1);
    let mut few = search();
    record(&mut few, 1, &[0.9], 1.0);
    let v = few.suggest_next(&mut state, 1, &within, &normalize, &up, &kde, &mut rng);
    assert!(v.is_none() && !few.is_locked() && get_v_candidates(&state).is_empty());
}

#[test]
fn a_drawn_vector_is_judged() {
    let mut opt = rewarded();
    let kde = LogKde { log_pdf: nearness, minus };
    assert_eq!(opt.judge_draw(1, ds(&[0.04]), &kde).map(|v| fs(&v)), Some(vec![0.04]));
    assert!(!opt.is_locked());
    assert_eq!(opt.judge_draw(1, ds(&[0.4]), &kde), None);
    assert!(opt.is_locked());
}

#[test]
fn a_gain_that_is_not_a_number_does_not_settle() {
    let mut opt = rewarded();
    let lost = |_: &Vec<Double>, _: &Vec<Vec<Double>>, _: Double| d(f64::NAN);
    assert!(opt.judge_draw(1, ds(&[0.4]), &LogKde { log_pdf: lost, minus }).is_some());
    assert!(!opt.is_locked());
}

#[test]
fn a_draw_without_gain_settles() {
    let level = |_: &Vec<Double>, _: &Vec<Vec<Double>>, _: Double| d(1.0);
    let mut opt = rewarded();
    assert_eq!(opt.judge_draw(1, ds(&[0.4]), &LogKde { log_pdf: level, minus }), None);
    assert!(opt.is_locked());
    let mut few = search();
    record(&mut few, 1, &[0.5], 1.0);
    assert_eq!(few.judge_draw(1, ds(&[0.4]), &LogKde { log_pdf: level, minus }), None);
    assert!(!few.is_locked());
}

#[test]
fn a_draw_is_judged_with_the_bandwidth_and_both_sides() {
    let seen = std::cell::RefCell::new(Vec::new());
    let log_pdf = |_: &Vec<Double>, centers: &Vec<Vec<Double>>, bw: Double| {
        seen.borrow_mut().push((centers.len(), f(bw)));
        d(0.0)
    };
    rewarded().judge_draw(2, ds(&[0.4]), &LogKde { log_pdf, minus });
    assert_eq!(*seen.borrow(), [(2, 0.05), (4, 0.05)]);
}

#[test]
fn drawn_vectors_are_queued_behind_the_others() {
    let opt = search();
    let mut state = SchedulerState::new();
    replace_v_candidates(&mut state, vec![ds(&[0.5])]);
    let left = std::cell::RefCell::new(vec![0.5, 0.7, 0.7, 0.1]);
    let given = |_: &Vec<Double>, _: Double| ds(&[left.borrow_mut().remove(0)]);
    opt.enqueue_samples_around(&mut state, &ds(&[0.0]), 4, &given, &within);
    let pool: Vec<f64> = get_v_candidates(&state).iter().map(|v| f(v[0])).collect();
    assert_eq!(pool, [0.5, 0.7, 0.1]);
    let up = |center: &Vec<Double>, bw: Double| ds(&[f(center[0]) + f(bw)]);
    opt.enqueue_samples_around(&mut state, &ds(&[0.25]), 0, &up, &within);
    assert_eq!(f(get_v_candidates(&state)[3][0]), 0.25 + 0.05);
    assert_eq!(TpeOptimizer::draw_count(0), 1);
    assert_eq!(TpeOptimizer::draw_count(16), 16);
}

#[test]
fn the_first_center_comes_from_the_credits() {
    let mut state = SchedulerState::new();
    let plus = |x: Double, y: Double| d(f(x) + f(y));
    let share = |n: usize| d(1.0 / n as f64);
    let center = |state: &SchedulerState| {
        TpeOptimizer::prior_center(state, d(1e-9), &plus, &normalize, &share).map(|(v, told)| (fs(&v), told))
    };
    assert_eq!(center(&state), None);
    let opt = search();
    let same = |center: &Vec<Double>, _: Double| center.clone();
    let enqueue = |state: &mut SchedulerState| {
        opt.enqueue_prior_candidates_from_credits(
            state, d(1e-9), &plus, &normalize, &share, &same, &within,
        )
    };
    assert_eq!(enqueue(&mut state), None);
    assert!(get_v_candidates(&state).is_empty());

    let spec = |n: &str| bofuzz::feature_sched::metadata::FeatureSpec {
        id: n.to_string(),
        name: n.to_string(),
        group: None,
        aliases: None,
    };
    set_schema_info(
        &mut state,
        3,
        vec![spec("a"), spec("b")],
        vec![true, true],
        vec![spec("a"), spec("b")],
    );
    assert_eq!(center(&state), Some((vec![0.5, 0.5], false)));
    state.explore_credits = Some(ExploreCreditMeta { credits: ds(&[9.0, 3.0]) });
    assert_eq!(center(&state), Some((vec![0.75, 0.25], true)));
    state.explore_credits = Some(ExploreCreditMeta { credits: ds(&[0.0, -1.0]) });
    assert_eq!(center(&state), Some((vec![0.5, 0.5], false)));
    state.explore_credits = Some(ExploreCreditMeta { credits: ds(&[9.0]) });
    assert_eq!(center(&state), Some((vec![0.5, 0.5], false)));
    state.explore_credits = Some(ExploreCreditMeta { credits: ds(&[1.0, -9.0]) });
    assert_eq!(center(&state), Some((vec![0.5, 0.5], true)));
    assert_eq!(enqueue(&mut state), Some(true));
    assert_eq!(get_v_candidates(&state), vec![ds(&[0.5, 0.5])]);
    state.explore_credits = Some(ExploreCreditMeta { credits: ds(&[9.0, 3.0]) });
    assert_eq!(enqueue(&mut state), Some(true));
    assert_eq!(get_v_candidates(&state)[1], ds(&[0.75, 0.25]));
    state.explore_credits = None;
    assert_eq!(enqueue(&mut state), Some(false));
    assert_eq!(get_v_candidates(&state).len(), 2);
}

#[test]
fn a_settled_search_starts_anew() {
    let mut opt = search();
    let mut state = SchedulerState::new();
    let invert = |best: &Vec<Double>| ds(&[1.0 - f(best[0])]);
    let up = |center: &Vec<Double>, bw: Double| ds(&[f(center[0]) + f(bw)]);
    opt.enqueue_inverse_candidates(&mut state, &invert, &up, &within);
    assert!(get_v_candidates(&state).is_empty());
    record(&mut opt, 1, &[0.75], 1.0);
    opt.lock_best();
    opt.params.samples = 0;
    opt.enqueue_inverse_candidates(&mut state, &invert, &up, &within);
    assert!(!opt.is_locked());
    assert_eq!(get_v_candidates(&state), vec![ds(&[0.25 + 0.05])]);
}

#[test]
fn a_center_is_one_of_the_given() {
    let mut rng = StdRand::new();
    let up = |center: &Vec<Double>, bw: Double| ds(&[f(center[0]) + f(bw)]);
    assert_eq!(sample_one_from_kde(&vec![], d(1.0), &up, &mut rng), None);
    let centers = vec![ds(&[0.1]), ds(&[0.2]), ds(&[0.3])];
    assert_eq!(fs(&center_at(&centers, 0)), [0.1]);
    assert_eq!(fs(&center_at(&centers, 2)), [0.3]);
    let mut seen = [false; 3];
    for _ in 0..500 {
        let v = sample_one_from_kde(&centers, d(1.0), &up, &mut rng).unwrap();
        let at = centers.iter().position(|c| f(c[0]) + 1.0 == f(v[0])).unwrap();
        seen[at] = true;
    }
    assert_eq!(seen, [true, true, true]);
}

#[test]
fn the_history_is_shown() {
    let mut opt = search();
    record(&mut opt, 7, &[0.25, 0.75], 2.0);
    let text = opt.snapshot_trials_text(
        &vec!["2.000".to_string()],
        &vec![vec!["0.2500".to_string(), "0.7500".to_string()]],
    );
    assert_eq!(
        text,
        "[tpe-trials] count=1\n[tpe-trial #0] iteration=7 reward=ΔEdges=2.000 simplex=[0.2500,0.7500] len=2\n"
    );
}
