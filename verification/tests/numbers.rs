use bofuzz::double::Double;
use bofuzz::text::{
    chars_of, decimal_text, find, is_space, join_text, parse_bit, seconds_text, split_ranges,
};

fn d(x: f64) -> Double {
    Double { bits: x.to_bits() }
}

#[test]
fn comparisons_follow_the_numbers() {
    let values = [
        f64::NEG_INFINITY,
        -2.5,
        -1.0,
        -0.0,
        0.0,
        5e-324,
        1e-6,
        0.5,
        1.0,
        1.5,
        f64::MAX,
        f64::INFINITY,
        f64::NAN,
    ];
    for x in values {
        for y in values {
            assert_eq!(d(x).lt(d(y)), x < y, "{} < {}", x, y);
            assert_eq!(d(x).le(d(y)), x <= y, "{} <= {}", x, y);
        }
        assert_eq!(d(x).is_nan(), x.is_nan());
        assert_eq!(d(x).is_finite(), x.is_finite());
        assert_eq!(d(x).is_zero(), x == 0.0);
    }
}

#[test]
fn clamping_keeps_what_lies_inside() {
    assert_eq!(d(0.25).clamp_unit(), d(0.25));
    assert_eq!(d(-3.0).clamp_unit(), d(0.0));
    assert_eq!(d(7.0).clamp_unit(), d(1.0));
    assert_eq!(d(-0.0).clamp_unit(), d(-0.0));
    assert!(d(f64::NAN).clamp_unit().is_nan());
    assert_eq!(d(9.0).clamp(d(0.5), d(3.0)), d(3.0));
    assert_eq!(d(0.1).clamp(d(0.5), d(3.0)), d(0.5));
}

#[test]
fn clamping_twice_is_clamping_once() {
    for x in [-1.0, 0.0, 0.3, 1.0, 2.0] {
        assert_eq!(d(x).clamp_unit().clamp_unit(), d(x).clamp_unit());
    }
}

#[test]
fn constants_are_the_numbers_they_name() {
    assert_eq!(bofuzz::double::ONE_BITS, 1.0f64.to_bits());
    assert_eq!(bofuzz::double::HALF_BITS, 0.5f64.to_bits());
    assert_eq!(bofuzz::double::NAN_BITS, f64::NAN.to_bits());
    assert_eq!(bofuzz::double::INFINITE_MAGNITUDE, f64::INFINITY.to_bits());
    assert_eq!(bofuzz::feature_sched::metadata::BETA_BITS, 0.6f64.to_bits());
    assert_eq!(bofuzz::feature_sched::metadata::GMAX_BITS, 3.0f64.to_bits());
    assert_eq!(bofuzz::feature_sched::factor::ALPHA_BITS, 0.2f64.to_bits());
    assert_eq!(bofuzz::feature_sched::stats::SIGMA_FLOOR_BITS, 1e-9f64.to_bits());
    assert_eq!(bofuzz::feature_sched::tpe::GAMMA_BITS, 0.15f64.to_bits());
    assert_eq!(bofuzz::feature_sched::tpe::BANDWIDTH_BITS, 0.05f64.to_bits());
    assert_eq!(bofuzz::feature_sched::vectors::CANDIDATE_EPS_BITS, 1e-3f64.to_bits());
    assert_eq!(bofuzz::feature_sched::vectors::TRIAL_EPS_BITS, 1e-6f64.to_bits());
    assert_eq!(bofuzz::libfun::tpe::SCORE_FLOOR_BITS, (1.0f64 + 1e-6).to_bits());
    assert_eq!(bofuzz::libfun::power_stage::DIVISOR_BITS, 100.0f64.to_bits());
}

#[test]
fn numerals_are_written_in_decimal() {
    assert_eq!(decimal_text(0), "0");
    assert_eq!(decimal_text(7), "7");
    assert_eq!(decimal_text(1024), "1024");
    assert_eq!(decimal_text(u64::MAX), u64::MAX.to_string());
}

#[test]
fn white_space_is_that_of_unicode() {
    for u in 0..0x3100u32 {
        if let Some(c) = char::from_u32(u) {
            assert_eq!(is_space(c), c.is_whitespace(), "U+{:04X}", u);
        }
    }
}

#[test]
fn bits_are_parsed_as_numerals() {
    let parse = |s: &str| {
        let cs = chars_of(s);
        let n = cs.len();
        parse_bit(&cs, 0, n)
    };
    assert_eq!(parse("0"), Some(false));
    assert_eq!(parse("1"), Some(true));
    assert_eq!(parse("+1"), Some(true));
    assert_eq!(parse("0001"), Some(true));
    assert_eq!(parse("2"), None);
    assert_eq!(parse("256"), None);
    assert_eq!(parse("-1"), None);
    assert_eq!(parse(""), None);
    assert_eq!(parse("x"), None);
}

#[test]
fn splitting_and_joining_undo_each_other() {
    for s in ["", ",", "a", "a,b", ",a,,b,"] {
        let cs = chars_of(s);
        let parts: Vec<String> = split_ranges(&cs, 0, cs.len(), ',')
            .iter()
            .map(|r| cs[r.0..r.1].iter().collect())
            .collect();
        assert_eq!(parts, s.split(',').map(String::from).collect::<Vec<_>>());
        assert_eq!(join_text(&parts, ","), s);
    }
}

#[test]
fn the_first_occurrence_is_found() {
    let at = |s: &str, n: &str| find(&chars_of(s), &chars_of(n));
    assert_eq!(at("zlib_features_map.json", "_features_map"), Some(4));
    assert_eq!(at("a_features_map_features_map", "_features_map"), Some(1));
    assert_eq!(at("zlib.json", "_features_map"), None);
    assert_eq!(at("", "x"), None);
    assert_eq!(at("abc", ""), Some(0));
}

#[test]
fn spans_are_counted_in_seconds() {
    assert_eq!(seconds_text(0), "0ns");
    assert_eq!(seconds_text(600), "600s");
}
