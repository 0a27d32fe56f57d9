use bofuzz::double::Double;
use bofuzz::feature_sched::features_map::{
    derive_dir_and_target, features_map_name, parse_feature_map, prior_order_name,
    resolve_feature_key, v_candidates_name, validate_feature_map,
};
use bofuzz::feature_sched::metadata::{FeatureSchemaFile, FeatureSpec};
use bofuzz::feature_sched::schema::{compute_active_features, validate_schema};
use bofuzz::feature_sched::vec_mask::{mask_or_all, parse_vec_mask};
use bofuzz::json::JsonValue;
use bofuzz::table::Table;

fn d(x: f64) -> Double {
    Double { bits: x.to_bits() }
}

fn spec(id: &str, name: &str, aliases: &[&str]) -> FeatureSpec {
    FeatureSpec {
        id: id.to_string(),
        name: name.to_string(),
        group: None,
        aliases: if aliases.is_empty() {
            None
        } else {
            Some(aliases.iter().map(|a| a.to_string()).collect())
        },
    }
}

fn schema(features: Vec<FeatureSpec>) -> FeatureSchemaFile {
    FeatureSchemaFile { schema_version: 3, features }
}

fn three() -> FeatureSchemaFile {
    schema(vec![
        spec("I00", "bb_instruction_count", &[]),
        spec("I01", "numeric_immediate_count", &[]),
        spec("S07", "centrality", &["betweenness"]),
    ])
}

fn refused<T>(r: Result<T, String>) -> String {
    match r {
        Ok(_) => panic!("accepted"),
        Err(e) => e,
    }
}

#[test]
fn a_sound_schema_is_accepted() {
    assert!(validate_schema(&three()).is_ok());
    assert!(validate_schema(&schema(vec![spec("a", "x", &["x"])])).is_ok());
}

#[test]
fn every_schema_fault_is_named() {
    let mut s = three();
    s.schema_version = 2;
    assert_eq!(
        refused(validate_schema(&s)),
        "BOFuzz feature schema error: schema_version must be 3, got 2"
    );
    assert_eq!(
        refused(validate_schema(&schema(vec![]))),
        "BOFuzz feature schema error: features list is empty"
    );
    assert_eq!(
        refused(validate_schema(&schema(vec![spec("a", "x", &[]), spec("a", "y", &[])]))),
        "BOFuzz feature schema error: duplicate feature id 'a'"
    );
    assert_eq!(
        refused(validate_schema(&schema(vec![spec("a", "x", &[]), spec("b", "x", &[])]))),
        "BOFuzz feature schema error: duplicate feature name 'x'"
    );
    assert_eq!(
        refused(validate_schema(&schema(vec![spec("a", "x", &["y"]), spec("b", "y", &[])]))),
        "BOFuzz feature schema error: alias 'y' for a collides with canonical name"
    );
}

#[test]
fn the_three_mask_formats_agree() {
    let wanted = vec![true, true, false, true];
    assert_eq!(parse_vec_mask("1101", 4), Ok(wanted.clone()));
    assert_eq!(parse_vec_mask("1,1,0,1", 4), Ok(wanted.clone()));
    assert_eq!(parse_vec_mask("[1,1,0,1]", 4), Ok(wanted.clone()));
    assert_eq!(parse_vec_mask("  [ 1 , 1,0, +1 ]\n", 4), Ok(wanted));
}

#[test]
fn the_documented_masks_are_read() {
    let m = parse_vec_mask("1111111100000000", 16).unwrap();
    assert_eq!(m.iter().filter(|b| **b).count(), 8);
    assert!(m[0] && m[7] && !m[8]);
    assert_eq!(
        parse_vec_mask("[1,1,1,1,1,1,1,1,0,0,0,0,0,0,0,0]", 16).unwrap(),
        m
    );
}

#[test]
fn without_a_mask_all_features_are_enabled() {
    assert_eq!(mask_or_all(None, 3), Ok(vec![true; 3]));
    assert_eq!(mask_or_all(Some("010"), 3), Ok(vec![false, true, false]));
    assert!(mask_or_all(Some("000"), 3).is_err());
}

#[test]
fn every_mask_fault_is_named() {
    assert_eq!(
        refused(parse_vec_mask("10", 3)),
        "BOFuzz vec-mask error: mask length 2 != schema feature length 3 from features_schema.json"
    );
    assert_eq!(
        refused(parse_vec_mask("000", 3)),
        "BOFuzz vec-mask error: all-zero mask disables every schema feature"
    );
    assert_eq!(
        refused(parse_vec_mask("1x0", 3)),
        "BOFuzz vec-mask error: non-binary value 'x' in mask"
    );
    assert_eq!(
        refused(parse_vec_mask("1,2,0", 3)),
        "BOFuzz vec-mask error: non-binary value in mask"
    );
    assert_eq!(
        refused(parse_vec_mask("[1,,0]", 3)),
        "BOFuzz vec-mask error: non-binary value in mask"
    );
    assert_eq!(
        refused(parse_vec_mask("", 3)),
        "BOFuzz vec-mask error: mask length 0 != schema feature length 3 from features_schema.json"
    );
}

#[test]
fn a_mask_leaves_its_features_active() {
    let active = compute_active_features(&three(), &[true, false, true]);
    let names: Vec<&str> = active.iter().map(|f| f.name.as_str()).collect();
    assert_eq!(names, ["bb_instruction_count", "centrality"]);
    assert_eq!(active[1].aliases, Some(vec!["betweenness".to_string()]));
    assert!(compute_active_features(&three(), &[false, false]).is_empty());
}

#[test]
fn the_name_wins_over_an_alias() {
    let mut keys: Table<u8> = Table::new();
    keys.insert("betweenness".to_string(), 1);
    let f = spec("S07", "centrality", &["btwn", "betweenness"]);
    assert_eq!(resolve_feature_key(&keys, &f), Some("betweenness".to_string()));
    keys.insert("centrality".to_string(), 2);
    assert_eq!(resolve_feature_key(&keys, &f), Some("centrality".to_string()));
    let old: Table<u8> = Table::new();
    assert_eq!(resolve_feature_key(&old, &f), None);
}

#[test]
fn a_feature_map_is_read_from_its_text() {
    let text = r#"{"bb_instruction_count": [1, 2.5], "numeric_immediate_count": [0, -1],
                   "betweenness": [0.25, 1e3], "unknown": "x"}"#;
    let map = match parse_feature_map(text, &three(), 2) {
        Ok(m) => m,
        Err(e) => panic!("{}", e),
    };
    assert_eq!(map.get(&"bb_instruction_count".to_string()), Some(&vec![d(1.0), d(2.5)]));
    assert_eq!(map.get(&"numeric_immediate_count".to_string()), Some(&vec![d(0.0), d(-1.0)]));
    assert_eq!(map.get(&"centrality".to_string()), Some(&vec![d(0.25), d(1000.0)]));
    assert_eq!(map.get(&"betweenness".to_string()), None);
    assert_eq!(map.len(), 3);
}

#[test]
fn every_map_fault_is_named() {
    let parse = |text: &str, sites: usize| refused(parse_feature_map(text, &three(), sites));
    assert!(parse("{", 1).starts_with("BOFuzz feature-map error: invalid JSON: "));
    assert_eq!(
        parse(r#"{"features": [1]}"#, 1),
        "BOFuzz feature-map error: legacy {{\"features\": [...]}} format not supported"
    );
    assert_eq!(
        parse(r#"{"bb_instruction_count": [1]}"#, 1),
        "BOFuzz feature-map error: missing feature I01 numeric_immediate_count"
    );
    assert_eq!(
        parse(r#"{"bb_instruction_count": 1}"#, 1),
        "BOFuzz feature-map error: feature I00 bb_instruction_count is not an array"
    );
    assert_eq!(
        parse(r#"{"bb_instruction_count": [1, "2"]}"#, 1),
        "BOFuzz feature-map error: feature I00 bb_instruction_count contains non-numeric value at index 1"
    );
    assert_eq!(
        parse(
            r#"{"bb_instruction_count": [1], "numeric_immediate_count": [1, 2], "centrality": [1]}"#,
            1
        ),
        "BOFuzz feature-map error: feature I01 numeric_immediate_count length 2 != expected 1"
    );
    assert_eq!(
        parse(
            r#"{"bb_instruction_count": [1], "numeric_immediate_count": [1], "centrality": [1]}"#,
            5
        ),
        "BOFuzz feature-map error: feature array length 1 != sancov_sites 5"
    );
}

#[test]
fn numbers_that_are_not_finite_are_refused() {
    let mut map: Table<JsonValue> = Table::new();
    map.insert("x".to_string(), JsonValue::Array(vec![Some(d(1.0)), Some(d(f64::INFINITY))]));
    assert_eq!(
        refused(validate_feature_map(&map, &schema(vec![spec("a", "x", &[])]), 2)),
        "BOFuzz feature-map error: feature a x contains non-finite value at index 1"
    );
}

#[test]
fn the_old_eight_key_map_is_refused() {
    let text = r#"{"imme": [1], "strc": [1], "mem": [1], "arith": [1],
                   "indeg": [1], "offsp": [1], "btw": [1], "depth": [1]}"#;
    assert_eq!(
        refused(parse_feature_map(text, &three(), 1)),
        "BOFuzz feature-map error: missing feature I00 bb_instruction_count"
    );
}

#[test]
fn the_target_is_taken_from_the_file_name() {
    let s = |t: &str| Some(t.to_string());
    assert_eq!(
        derive_dir_and_target(Some("dir"), s("zlib_features_map.json"), s("zlib_features_map")),
        Some(("dir", "zlib".to_string()))
    );
    assert_eq!(
        derive_dir_and_target(Some("dir"), s("zlib.json"), s("zlib")),
        Some(("dir", "zlib".to_string()))
    );
    assert_eq!(derive_dir_and_target(None::<u8>, s("a"), s("a")), None);
    assert_eq!(derive_dir_and_target(Some(1u8), None, s("a")), None);
    assert_eq!(derive_dir_and_target(Some(1u8), s("a"), None), None);
}

#[test]
fn files_are_named_after_their_target() {
    assert_eq!(features_map_name("zlib"), "zlib_features_map.json");
    assert_eq!(v_candidates_name("zlib"), "zlib_v_candidates.json");
    assert_eq!(prior_order_name("zlib"), "zlib_prior_order.json");
    let named = |t: &str| derive_dir_and_target(Some(0u8), Some(features_map_name(t)), None);
    assert_eq!(named("x_features_ma"), Some((0, "x_features_ma".to_string())));
    assert_eq!(named("a_features_map_b"), Some((0, "a".to_string())));
}

#[test]
fn tables_hold_one_value_for_each_name() {
    let mut t: Table<u8> = Table::new();
    t.insert("a".to_string(), 1);
    t.insert("b".to_string(), 2);
    t.insert("a".to_string(), 3);
    assert_eq!(t.len(), 2);
    assert_eq!(t.get(&"a".to_string()), Some(&3));
    assert!(t.contains(&"b".to_string()));
    assert!(!t.contains(&"c".to_string()));
}
