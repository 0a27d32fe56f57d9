use bofuzz::double::Double;
use bofuzz::feature_sched::candidates::{
    active_prior_indices, check_candidates, check_prior_order, ensure_v_candidates_for,
    initial_alpha, one_hot, parse_candidates, parse_prior_order, uniform_vec,
};
use bofuzz::feature_sched::metadata::{
    FeatureSchemaFile, FeatureSpec, FeaturesMapMeta, FeaturesMatrixMeta,
};
use bofuzz::feature_sched::vectors::vecn_eq;
use bofuzz::feature_sched::weights::{
    align, apply_v_to_features, clean_weights, combine_feature_matrix_to_weights,
    initial_weights, load_and_align_features_map, prepare_v, take_up_features_map, WeightMath,
};
use bofuzz::feature_sched::{
    get_active_dim, get_active_feature_names, get_active_features, get_alpha_init,
    get_current_weight_vec, get_explore_time, get_factor_params, get_feat0, get_feat_exists,
    get_feat_mode, get_features_active, get_features_enabled, get_fuzz_start, get_schema_features,
    get_tpe_period, get_tpe_satisfied, get_v_candidates, get_vec_mask, push_v_candidate,
    replace_v_candidates, set_alpha_init, set_current_weight_vec, set_explore_time,
    set_factor_params, set_feat0, set_feat_exists, set_feat_mode, set_features_active,
    set_fuzz_start, set_fuzz_start_at, set_schema_info, set_tpe_period, set_tpe_satisfied,
    SchedulerState,
};
use bofuzz::table::Table;

fn d(x: f64) -> Double {
    Double { bits: x.to_bits() }
}

fn f(x: Double) -> f64 {
    f64::from_bits(x.bits)
}

fn ds(v: &[f64]) -> Vec<Double> {
    v.iter().map(|x| d(*x)).collect()
}

fn fs(v: &[Double]) -> Vec<f64> {
    v.iter().map(|x| f(*x)).collect()
}

fn within(x: Double, y: Double, eps: Double) -> bool {
    (f(x) - f(y)).abs() <= f(eps)
}

fn even(n: usize) -> Double {
    d(1.0 / (n as f64).sqrt())
}

fn norm(v: &Vec<Double>) -> Double {
    d(v.iter().map(|x| f(*x) * f(*x)).sum::<f64>().sqrt())
}

fn over(x: Double, y: Double) -> Double {
    d(f(x) / f(y))
}

fn weigh(z: &Vec<Double>, v: &Vec<Double>) -> Double {
    let mag = f(norm(z));
    let dot: f64 = z.iter().zip(v).map(|(a, b)| f(*a) * f(*b)).sum();
    d(dot * (1.0 / (z.len() as f64).sqrt()) * mag)
}

fn names(list: &[&str]) -> Vec<String> {
    list.iter().map(|s| s.to_string()).collect()
}

fn feature(name: &str) -> FeatureSpec {
    FeatureSpec { id: name.to_uppercase(), name: name.to_string(), group: None, aliases: None }
}

#[test]
fn single_features_and_even_vectors() {
    assert_eq!(fs(&one_hot(3, 1)), [0.0, 1.0, 0.0]);
    assert_eq!(fs(&one_hot(2, 5)), [0.0, 0.0]);
    assert_eq!(fs(&uniform_vec(2, d(0.25))), [0.25, 0.25]);
}

#[test]
fn the_starting_alpha_is_bounded() {
    assert_eq!(f(initial_alpha(d(0.3))), 0.3);
    assert_eq!(f(initial_alpha(d(7.0))), 1.0);
    assert_eq!(f(initial_alpha(d(-7.0))), 0.0);
    assert_eq!(f(initial_alpha(d(f64::NAN))), 0.5);
    assert_eq!(f(initial_alpha(d(f64::INFINITY))), 0.5);
}

#[test]
fn default_candidates_come_in_schema_order() {
    let mut state = SchedulerState::new();
    set_alpha_init(&mut state, d(0.25));
    let mask = vec![true, false, true];
    let half = |_n: usize| d(0.5);
    assert!(ensure_v_candidates_for(&mut state, None, 2, &mask, 3, &half, &norm).is_ok());
    let cands: Vec<Vec<f64>> = get_v_candidates(&state).iter().map(|v| fs(v)).collect();
    assert_eq!(
        cands,
        [vec![0.25, 0.5, 0.5], vec![0.25, 1.0, 0.0], vec![0.25, 0.0, 1.0]]
    );
    assert_eq!(fs(&get_current_weight_vec(&state)), [0.25, 0.5, 0.5]);
}

#[test]
fn a_candidate_file_takes_their_place() {
    let mut state = SchedulerState::new();
    let mask = vec![true];
    let file = Some(Ok("[[0.5, 1]]".to_string()));
    assert!(ensure_v_candidates_for(&mut state, file, 1, &mask, 1, &even, &norm).is_ok());
    assert_eq!(fs(&get_v_candidates(&state)[0]), [0.5, 1.0]);
    let again = Some(Ok("no list at all".to_string()));
    assert!(ensure_v_candidates_for(&mut state, again, 1, &mask, 1, &even, &norm).is_ok());
    assert_eq!(get_v_candidates(&state).len(), 1);
    assert_eq!(fs(&get_v_candidates(&state)[0]), [0.5, 1.0]);
}

#[test]
fn a_wrong_candidate_file_is_fatal() {
    let mut state = SchedulerState::new();
    let file = Some(Err("bad".to_string()));
    assert_eq!(
        ensure_v_candidates_for(&mut state, file, 1, &vec![true], 1, &even, &norm),
        Err("bad".to_string())
    );
    let file = Some(Ok("[[0.5, 1, 1]]".to_string()));
    assert_eq!(
        ensure_v_candidates_for(&mut state, file, 1, &vec![true], 1, &even, &norm),
        Err("BOFuzz candidate error: candidate 0 has length 3, expected 2 (1 + active_dim=1)"
            .to_string())
    );
    assert!(get_v_candidates(&state).is_empty());
    let file = Some(Ok("[]".to_string()));
    assert!(ensure_v_candidates_for(&mut state, file, 1, &vec![true], 1, &even, &norm).is_ok());
    assert_eq!(get_v_candidates(&state).len(), 2);
}

#[test]
fn every_candidate_fault_is_named() {
    let cands = vec![ds(&[0.5, 1.0, 0.0]), ds(&[0.5, 1.0])];
    assert_eq!(
        check_candidates(&cands, 2, &norm),
        Err("BOFuzz candidate error: candidate 1 has length 2, expected 3 (1 + active_dim=2)"
            .to_string())
    );
    let cands = vec![ds(&[0.5, f64::NAN, 0.0])];
    assert_eq!(
        check_candidates(&cands, 2, &norm),
        Err("BOFuzz candidate error: candidate 0 has non-finite value at index 1".to_string())
    );
    let cands = vec![ds(&[0.5, 0.0, 0.0])];
    assert_eq!(
        check_candidates(&cands, 2, &norm),
        Err("BOFuzz candidate error: candidate 0 has zero-norm weights".to_string())
    );
    assert_eq!(check_candidates(&vec![ds(&[0.5, 0.0, 2.0])], 2, &norm), Ok(()));
}

#[test]
fn candidates_are_read_from_their_text() {
    let cands = parse_candidates("[[0.5, 1, 0], [2.5e-1, -0.0, 3]]", 2, &norm).unwrap();
    assert_eq!(cands, [ds(&[0.5, 1.0, 0.0]), ds(&[0.25, -0.0, 3.0])]);
    assert_eq!(parse_candidates("[]", 2, &norm), Ok(vec![]));
    assert_eq!(
        parse_candidates("[[0.5]]", 2, &norm),
        Err("BOFuzz candidate error: candidate 0 has length 1, expected 3 (1 + active_dim=2)"
            .to_string())
    );
    for text in ["[[0.5, \"1\"]]", "[1]", "[[0.5", "[[1e999]]"] {
        match parse_candidates(text, 1, &norm) {
            Err(e) => assert!(e.starts_with("Candidates JSON parse error: "), "{}", e),
            Ok(_) => panic!("accepted {}", text),
        }
    }
}

#[test]
fn prior_orders_are_checked() {
    assert_eq!(check_prior_order(&vec![2, 1], 2), Ok(vec![2, 1]));
    assert_eq!(
        check_prior_order(&vec![0], 2),
        Err("BOFuzz prior-order error: index 0 is invalid, prior indexes are one-based (1..2)"
            .to_string())
    );
    assert_eq!(
        check_prior_order(&vec![3], 2),
        Err("BOFuzz prior-order error: index 3 > schema_dim 2".to_string())
    );
    assert_eq!(
        check_prior_order(&vec![1, 1], 2),
        Err("BOFuzz prior-order error: duplicate index 1".to_string())
    );
}

#[test]
fn prior_orders_are_read_from_their_text() {
    assert_eq!(parse_prior_order("[3, 1]", 3), Ok(vec![3, 1]));
    match parse_prior_order("[1,", 3) {
        Err(e) => assert!(e.starts_with("Prior order JSON parse error: ")),
        Ok(_) => panic!("accepted"),
    }
    assert_eq!(
        parse_prior_order("[-1]", 3),
        Err("Prior order JSON parse error: invalid value: integer `-1`, expected usize at line 1 column 3"
            .to_string())
    );
    assert_eq!(active_prior_indices(&vec![3, 2, 1], &vec![true, false, true]), [1, 0]);
}

#[test]
fn vectors_are_the_same_up_to_a_distance() {
    let eps = d(1e-3);
    assert!(vecn_eq(&ds(&[0.5, 0.5]), &ds(&[0.5005, 0.4995]), eps, &within));
    assert!(!vecn_eq(&ds(&[0.5, 0.5]), &ds(&[0.502, 0.5]), eps, &within));
    assert!(!vecn_eq(&ds(&[0.5]), &ds(&[0.5, 0.5]), eps, &within));
    assert!(vecn_eq(&ds(&[]), &ds(&[]), eps, &within));
}

#[test]
fn a_waiting_vector_is_not_added_twice() {
    let mut state = SchedulerState::new();
    push_v_candidate(&mut state, ds(&[0.5, 0.5]), &within);
    push_v_candidate(&mut state, ds(&[0.5001, 0.5]), &within);
    push_v_candidate(&mut state, ds(&[0.6, 0.5]), &within);
    assert_eq!(get_v_candidates(&state).len(), 2);
    replace_v_candidates(&mut state, vec![]);
    assert!(get_v_candidates(&state).is_empty());
}

#[test]
fn settings_start_from_their_defaults() {
    let state = SchedulerState::new();
    assert!(!get_features_active(&state));
    assert!(!get_feat_exists(&state));
    assert!(!get_tpe_satisfied(&state));
    assert_eq!(f(get_feat0(&state)), 0.0);
    assert_eq!(get_explore_time(&state), 12 * 60 * 60);
    assert_eq!(get_tpe_period(&state), 10 * 60);
    assert!(get_alpha_init(&state).is_nan());
    assert_eq!(get_fuzz_start(&state), 0);
    assert_eq!(get_active_dim(&state), 0);
    assert_eq!(get_feat_mode(&state), 1);
    assert!(!get_features_enabled(&state));
    let p = get_factor_params(&state);
    assert_eq!((f(p.alpha), f(p.beta), f(p.gmin), f(p.gmax)), (1.0, 0.6, 0.0, 3.0));
    assert!(!p.use_tanh);
}

#[test]
fn settings_are_kept() {
    let mut state = SchedulerState::new();
    set_features_active(&mut state, true);
    set_feat_exists(&mut state, true);
    assert!(get_features_enabled(&state));
    set_feat_mode(&mut state, 0);
    assert!(!get_features_enabled(&state));
    set_feat_mode(&mut state, 9);
    assert_eq!(get_feat_mode(&state), 3);
    set_tpe_satisfied(&mut state, true);
    assert!(get_tpe_satisfied(&state));
    set_feat0(&mut state, d(2.0));
    assert_eq!(f(get_feat0(&state)), 2.0);
    set_explore_time(&mut state, 5);
    set_tpe_period(&mut state, 6);
    assert_eq!((get_explore_time(&state), get_tpe_period(&state)), (5, 6));
    set_fuzz_start_at(&mut state, 77);
    assert_eq!(get_fuzz_start(&state), 77);
    set_current_weight_vec(&mut state, ds(&[0.1]));
    assert_eq!(fs(&get_current_weight_vec(&state)), [0.1]);
    let mut p = get_factor_params(&state);
    p.gmax = d(9.0);
    set_factor_params(&mut state, p);
    assert_eq!(f(get_factor_params(&state).gmax), 9.0);
}

#[test]
fn the_clock_gives_the_start() {
    let mut state = SchedulerState::new();
    set_fuzz_start(&mut state);
    assert!(get_fuzz_start(&state) > 1_600_000_000_000);
    assert_eq!(get_explore_time(&state), 43200);
}

#[test]
fn names_and_number_follow_from_the_active_features() {
    let mut state = SchedulerState::new();
    set_schema_info(
        &mut state,
        3,
        vec![feature("a"), feature("b")],
        vec![false, true],
        vec![feature("b")],
    );
    assert_eq!(get_active_dim(&state), 1);
    assert_eq!(get_active_feature_names(&state), ["b"]);
    assert_eq!(get_schema_features(&state).len(), 2);
    assert_eq!(get_active_features(&state)[0].id, "B");
    assert_eq!(get_vec_mask(&state), [false, true]);
}

#[test]
fn weights_are_cleaned_and_scaled() {
    let math = WeightMath { even, norm, over, weigh };
    assert_eq!(
        fs(&clean_weights(&ds(&[f64::NAN, -1.0, 3.0, 0.5]), 5)),
        [0.0, 0.0, 1.0, 0.5, 0.0]
    );
    assert_eq!(fs(&prepare_v(&ds(&[0.3, 0.4, 9.0]), 2, &math)), [0.3 / 0.5, 0.4 / 0.5]);
    assert_eq!(fs(&prepare_v(&ds(&[0.0, -1.0, 0.0, 0.0]), 4, &math)), [0.5; 4]);
}

#[test]
fn aligning_cuts_and_fills() {
    assert_eq!(fs(&align(ds(&[1.0, 2.0, 3.0]), 2)), [1.0, 2.0]);
    assert_eq!(fs(&align(ds(&[1.0]), 3)), [1.0, 0.0, 0.0]);
    assert_eq!(fs(&align(align(ds(&[1.0]), 3), 3)), [1.0, 0.0, 0.0]);
}

#[test]
fn a_map_is_combined_with_weights() {
    let math = WeightMath { even, norm, over, weigh };
    let mut map: Table<Vec<Double>> = Table::new();
    map.insert("a".to_string(), ds(&[3.0, 1.0]));
    map.insert("b".to_string(), ds(&[4.0]));
    let out = combine_feature_matrix_to_weights(&map, &ds(&[1.0, 0.0]), &names(&["a", "b"]), &math);
    let half = 1.0 / 2.0f64.sqrt();
    assert_eq!(fs(&out), [3.0 * half * 5.0, 1.0 * half * 1.0]);
    assert!(combine_feature_matrix_to_weights(&map, &ds(&[1.0]), &names(&[]), &math).is_empty());
    assert!(
        combine_feature_matrix_to_weights(&map, &ds(&[1.0]), &names(&["zz"]), &math).is_empty()
    );
    map.insert("zz".to_string(), ds(&[8.0, 8.0, 8.0]));
    let same = combine_feature_matrix_to_weights(&map, &ds(&[1.0, 0.0]), &names(&["a", "b"]), &math);
    assert_eq!(same, out);
}

#[test]
fn loading_a_map_uses_the_first_candidate() {
    let math = WeightMath { even, norm, over, weigh };
    let mut state = SchedulerState::new();
    replace_v_candidates(&mut state, vec![ds(&[0.9, 1.0, 0.0])]);
    let mut map: Table<Vec<Double>> = Table::new();
    map.insert("a".to_string(), ds(&[2.0, 1.0]));
    map.insert("b".to_string(), ds(&[0.0, 0.0]));
    assert_eq!(fs(&initial_weights(&state, 2, &even)), [1.0, 0.0]);
    let feats = take_up_features_map(&mut state, &map, 3, 2, &names(&["a", "b"]), &math);
    let half = 1.0 / 2.0f64.sqrt();
    assert_eq!(fs(&feats), [2.0 * half * 2.0, 1.0 * half * 1.0, 0.0]);
    assert!(get_tpe_satisfied(&state));
    assert_eq!(fs(&get_current_weight_vec(&state)), [1.0, 1.0, 0.0]);
}

#[test]
fn a_map_is_loaded_from_its_text() {
    let math = WeightMath { even, norm, over, weigh };
    let mut b = feature("b");
    b.aliases = Some(vec!["beta".to_string()]);
    let schema = FeatureSchemaFile { schema_version: 3, features: vec![feature("a"), b] };
    let wanted = names(&["b"]);
    let mask = vec![false, true];
    let text = "{\"a\": [1, 2], \"beta\": [3, 0.5], \"other\": [7]}";
    let load = |state: &mut SchedulerState,
                file: Option<Result<String, String>>,
                text: &str| {
        load_and_align_features_map(state, file, text, &schema, 2, 1, &wanted, &mask, &math)
    };

    let mut state = SchedulerState::new();
    let (feats, map) = load(&mut state, None, text).unwrap();
    assert_eq!(fs(&feats), [9.0, 0.25]);
    assert_eq!(map.get(&"b".to_string()).map(|v| fs(v)), Some(vec![3.0, 0.5]));
    assert_eq!(map.get(&"beta".to_string()).map(|v| fs(v)), Some(vec![3.0, 0.5]));
    assert_eq!(map.get(&"other".to_string()).map(|v| fs(v)), Some(vec![7.0]));
    assert_eq!(map.len(), 4);
    assert_eq!(get_v_candidates(&state).len(), 2);
    assert!(get_tpe_satisfied(&state));
    assert_eq!(fs(&get_current_weight_vec(&state)), [1.0, 1.0]);

    let mut state = SchedulerState::new();
    let file = Some(Ok("[[0.25, 1]]".to_string()));
    assert!(load(&mut state, file, text).is_ok());
    assert_eq!(fs(&get_v_candidates(&state)[0]), [0.25, 1.0]);

    let mut state = SchedulerState::new();
    let r = load(&mut state, None, "{\"a\": [1, 2], \"b\": [3]}");
    assert_eq!(
        r.err(),
        Some("BOFuzz feature-map error: feature B b length 1 != expected 2".to_string())
    );
    assert_eq!(get_v_candidates(&state).len(), 2);
    assert!(!get_tpe_satisfied(&state));

    let named = "{\"a\": [1, 2], \"b\": [3, 4], \"c\": [5]}";
    let (_, map) = load(&mut SchedulerState::new(), None, named).unwrap();
    assert_eq!(map.len(), 3);
    assert_eq!(map.get(&"b".to_string()).map(|v| fs(v)), Some(vec![3.0, 4.0]));

    let r = load(&mut state, None, "{\"a\": [1, 2], \"b\": [3, 4], \"other\": true}");
    assert_eq!(
        r.err(),
        Some("json parse err: invalid type: boolean `true`, expected a sequence at line 1 column 40"
            .to_string())
    );

    let mut state = SchedulerState::new();
    let r = load(&mut state, Some(Err("bad".to_string())), text);
    assert_eq!(r.err(), Some("bad".to_string()));
    assert!(get_v_candidates(&state).is_empty());
}

#[test]
fn applying_weights_combines_anew() {
    let math = WeightMath { even, norm, over, weigh };
    let mut state = SchedulerState::new();
    set_schema_info(&mut state, 3, vec![feature("a")], vec![true], vec![feature("a")]);
    let mut map: Table<Vec<Double>> = Table::new();
    map.insert("a".to_string(), ds(&[2.0]));
    state.features_matrix = Some(FeaturesMatrixMeta { matrix: map, sites: 2 });
    apply_v_to_features(&mut state, &ds(&[0.5]), &math);
    assert_eq!(fs(&state.features_map.as_ref().unwrap().feats), [4.0, 0.0]);
    assert_eq!(fs(&get_current_weight_vec(&state)), [1.0, 0.5]);

    let mut flat = SchedulerState::new();
    flat.features_map = Some(FeaturesMapMeta { feats: ds(&[7.0]) });
    apply_v_to_features(&mut flat, &vec![], &math);
    assert_eq!(fs(&flat.features_map.as_ref().unwrap().feats), [7.0]);
    assert!(get_current_weight_vec(&flat).is_empty());

    let mut bare = SchedulerState::new();
    apply_v_to_features(&mut bare, &ds(&[0.5]), &math);
    assert!(bare.features_map.as_ref().unwrap().feats.is_empty());
}
