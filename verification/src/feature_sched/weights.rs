//! From the feature map and a weight vector to one weight for every coverage site.

use vstd::prelude::*;

use super::candidates::{
    candidates_set, constant_of, ensure_v_candidates_for, file_read, uniform_vec, with_alpha,
};
use super::features_map::{arrays_read, parse_feature_arrays};
use super::metadata::{
    arrays, copy_numbers, rows, FeatureSchemaFile, FeaturesMapMeta, GlobalsView,
};
use super::{
    get_active_feature_names, get_factor_params, get_v_candidates, set_current_weight_vec,
    set_tpe_satisfied, SchedulerState, StateView,
};
use crate::double::Double;
use crate::json::json_columns;
use crate::table::Table;
use crate::text::texts;

verus! {

/// The number of a feature at a coverage site; 0 where the map has none.
pub open spec fn value_at(map: Map<Seq<char>, Seq<Double>>, name: Seq<char>, i: int) -> Double {
    if map.dom().contains(name) && i < map[name].len() {
        map[name][i]
    } else {
        Double { bits: 0 }
    }
}

/// The numbers of the active features at one coverage site.
pub open spec fn row_of(
    map: Map<Seq<char>, Seq<Double>>,
    names: Seq<Seq<char>>,
    i: int,
) -> Seq<Double> {
    Seq::new(names.len(), |j: int| value_at(map, names[j], i))
}

/// The number of coverage sites that a feature map speaks of: the length of the first active
/// feature's array.
pub open spec fn sites_of(map: Map<Seq<char>, Seq<Double>>, names: Seq<Seq<char>>) -> nat {
    if names.len() > 0 && map.dom().contains(names[0]) {
        map[names[0]].len()
    } else {
        0
    }
}

/// The arithmetic that goes into the weights.
pub struct WeightMath<E, N, O, W> {
    /// The weight of each of so many features where all weigh the same.
    pub even: E,
    /// The Euclidean norm.
    pub norm: N,
    /// One number over another.
    pub over: O,
    /// The weight of a coverage site, from its numbers and the weights of the features.
    pub weigh: W,
}

/// Can the arithmetic be asked for anything?
pub open spec fn computable<
    E: Fn(usize) -> Double,
    N: Fn(&Vec<Double>) -> Double,
    O: Fn(Double, Double) -> Double,
    W: Fn(&Vec<Double>, &Vec<Double>) -> Double,
>(math: WeightMath<E, N, O, W>) -> bool {
    &&& forall|d: usize| #[trigger] call_requires(math.even, (d,))
    &&& forall|v: &Vec<Double>| #[trigger] call_requires(math.norm, (v,))
    &&& forall|x: Double, y: Double| #[trigger] call_requires(math.over, (x, y))
    &&& forall|z: &Vec<Double>, v: &Vec<Double>| #[trigger] call_requires(math.weigh, (z, v))
}

/// Each component of `out` is what `over` gave for that of `v` over `norm`.
pub open spec fn scaled<O: Fn(Double, Double) -> Double>(
    over: O,
    v: Seq<Double>,
    norm: Double,
    out: Seq<Double>,
) -> bool {
    out.len() == v.len() && forall|i: int|
        0 <= i < v.len() ==> call_ensures(over, (v[i], norm), #[trigger] out[i])
}

/// `out` are `d` weights that are all what `even` gave.
pub open spec fn evened<E: Fn(usize) -> Double>(even: E, d: usize, out: Seq<Double>) -> bool {
    exists|w: Double| #[trigger] call_ensures(even, (d,), w) && out == constant_of(d as nat, w)
}

/// The weights as they are used: cleaned and scaled to length one, and even ones where nothing
/// is left to scale.
pub open spec fn prepared<
    E: Fn(usize) -> Double,
    N: Fn(&Vec<Double>) -> Double,
    O: Fn(Double, Double) -> Double,
    W: Fn(&Vec<Double>, &Vec<Double>) -> Double,
>(math: WeightMath<E, N, O, W>, v_raw: Seq<Double>, d: usize, out: Seq<Double>) -> bool {
    exists|z: &Vec<Double>, norm: Double|
        z@ == clean_of(v_raw, d as nat) && #[trigger] call_ensures(math.norm, (z,), norm) && if (
        Double { bits: 0 }).below(norm) {
            scaled(math.over, z@, norm, out)
        } else {
            evened(math.even, d, out)
        }
}

/// `weigh` gave `w` for the numbers `row` and the weights `v`.
pub open spec fn weighed<W: Fn(&Vec<Double>, &Vec<Double>) -> Double>(
    weigh: W,
    row: Seq<Double>,
    v: Seq<Double>,
    w: Double,
) -> bool {
    exists|z: &Vec<Double>, u: &Vec<Double>|
        z@ == row && u@ == v && #[trigger] call_ensures(weigh, (z, u), w)
}

/// One weight for each coverage site of the map: what `weigh` gave for its row and the weights.
pub open spec fn weighed_all<W: Fn(&Vec<Double>, &Vec<Double>) -> Double>(
    weigh: W,
    map: Map<Seq<char>, Seq<Double>>,
    names: Seq<Seq<char>>,
    v: Seq<Double>,
    out: Seq<Double>,
) -> bool {
    out.len() == sites_of(map, names) && forall|i: int|
        0 <= i < out.len() ==> weighed(weigh, row_of(map, names, i), v, #[trigger] out[i])
}

/// One weight for each coverage site of the map, by the given weights of the features. Without
/// features there is none.
pub open spec fn combined<
    E: Fn(usize) -> Double,
    N: Fn(&Vec<Double>) -> Double,
    O: Fn(Double, Double) -> Double,
    W: Fn(&Vec<Double>, &Vec<Double>) -> Double,
>(
    math: WeightMath<E, N, O, W>,
    map: Map<Seq<char>, Seq<Double>>,
    v_in: Seq<Double>,
    names: Seq<Seq<char>>,
    out: Seq<Double>,
) -> bool {
    if names.len() == 0 {
        out.len() == 0
    } else {
        exists|v: Seq<Double>| #[trigger]
            prepared(math, v_in, names.len() as usize, v) && weighed_all(
                math.weigh,
                map,
                names,
                v,
                out,
            )
    }
}

/// The numbers of the active features at one coverage site.
pub fn feature_row(map: &Table<Vec<Double>>, active_feature_names: &Vec<String>, i: usize) -> (r:
    Vec<Double>)
    ensures
        r@ == row_of(arrays(map@), texts(active_feature_names@), i as int),
{
    let ghost m = arrays(map@);
    let ghost names = texts(active_feature_names@);
    let mut r: Vec<Double> = Vec::new();
    let mut j: usize = 0;
    while j < active_feature_names.len()
        invariant
            j <= active_feature_names@.len(),
            m == arrays(map@),
            names == texts(active_feature_names@),
            r@.len() == j,
            forall|k: int| 0 <= k < j ==> r@[k] == value_at(m, names[k], i as int),
        decreases active_feature_names@.len() - j,
    {
        assert(names[j as int] == active_feature_names@[j as int]@);
        let x: Double = match map.get(&active_feature_names[j]) {
            Some(array) => {
                assert(m[names[j as int]] == array@);
                if i < array.len() {
                    array[i]
                } else {
                    Double::zero()
                }
            },
            None => Double::zero(),
        };
        assert(x == value_at(m, names[j as int], i as int));
        r.push(x);
        j = j + 1;
    }
    assert(r@ =~= row_of(m, names, i as int));
    r
}

/// A weight that a caller gave, made usable: 0 where it is no finite number, and forced into the
/// unit interval.
pub open spec fn clean(w: Double) -> Double {
    if w.finite() {
        w.unit()
    } else {
        Double { bits: 0 }
    }
}

/// The given weights made usable: as many as there are features, 0 for those that are not given.
pub open spec fn clean_of(v: Seq<Double>, d: nat) -> Seq<Double> {
    Seq::new(
        d,
        |i: int|
            if i < v.len() {
                clean(v[i])
            } else {
                Double { bits: 0 }
            },
    )
}

/// The given weights made usable, before they are scaled to length one.
pub fn clean_weights(v_raw: &Vec<Double>, d: usize) -> (r: Vec<Double>)
    ensures
        r@ == clean_of(v_raw@, d as nat),
        forall|i: int|
            0 <= i < d ==> (Double { bits: 0 }).at_most(#[trigger] r@[i]) && r@[i].at_most(
                Double { bits: crate::double::ONE_BITS },
            ),
{
    let mut r: Vec<Double> = Vec::new();
    let mut i: usize = 0;
    while i < d
        invariant
            i <= d,
            r@.len() == i,
            forall|k: int| 0 <= k < i ==> r@[k] == clean_of(v_raw@, d as nat)[k],
        decreases d - i,
    {
        let x: Double = if i < v_raw.len() && v_raw[i].is_finite() {
            v_raw[i].clamp_unit()
        } else {
            Double::zero()
        };
        r.push(x);
        i = i + 1;
    }
    assert(r@ =~= clean_of(v_raw@, d as nat));
    r
}

/// So many weights that are all the same.
pub fn even_weights<E: Fn(usize) -> Double>(d: usize, even: &E) -> (r: Vec<Double>)
    requires
        forall|n: usize| #[trigger] call_requires(*even, (n,)),
    ensures
        evened(*even, d, r@),
{
    assert(call_requires(*even, (d,)));
    let w: Double = even(d);
    uniform_vec(d, w)
}

/// The weights as they are used: cleaned and scaled to length one, and even ones where nothing
/// is left to scale.
pub fn prepare_v<
    E: Fn(usize) -> Double,
    N: Fn(&Vec<Double>) -> Double,
    O: Fn(Double, Double) -> Double,
    W: Fn(&Vec<Double>, &Vec<Double>) -> Double,
>(v_raw: &Vec<Double>, d: usize, math: &WeightMath<E, N, O, W>) -> (r: Vec<Double>)
    requires
        computable(*math),
    ensures
        prepared(*math, v_raw@, d, r@),
{
    let v: Vec<Double> = clean_weights(v_raw, d);
    assert(call_requires(math.norm, (&v,)));
    let norm: Double = (math.norm)(&v);
    if !Double::zero().lt(norm) {
        let even: Vec<Double> = even_weights(d, &math.even);
        assert(call_ensures(math.norm, (&v,), norm));
        return even;
    }
    let mut out: Vec<Double> = Vec::new();
    let mut i: usize = 0;
    while i < v.len()
        invariant
            computable(*math),
            i <= v@.len(),
            out@.len() == i,
            forall|k: int|
                0 <= k < i ==> call_ensures(math.over, (v@[k], norm), #[trigger] out@[k]),
        decreases v@.len() - i,
    {
        assert(call_requires(math.over, (v@[i as int], norm)));
        let x: Double = (math.over)(v[i], norm);
        out.push(x);
        i = i + 1;
    }
    assert(scaled(math.over, v@, norm, out@));
    assert(call_ensures(math.norm, (&v,), norm));
    out
}

/// One weight for every coverage site, by the given weights of the features.
pub fn combine_feature_matrix_to_weights<
    E: Fn(usize) -> Double,
    N: Fn(&Vec<Double>) -> Double,
    O: Fn(Double, Double) -> Double,
    W: Fn(&Vec<Double>, &Vec<Double>) -> Double,
>(
    map: &Table<Vec<Double>>,
    v_in: &Vec<Double>,
    active_feature_names: &Vec<String>,
    math: &WeightMath<E, N, O, W>,
) -> (r: Vec<Double>)
    requires
        computable(*math),
    ensures
        combined(*math, arrays(map@), v_in@, texts(active_feature_names@), r@),
{
    let ghost m = arrays(map@);
    let ghost names = texts(active_feature_names@);
    let mut out: Vec<Double> = Vec::new();
    let d: usize = active_feature_names.len();
    assert(names.len() == d);
    if d == 0 {
        return out;
    }
    let v: Vec<Double> = prepare_v(v_in, d, math);
    assert(names[0] == active_feature_names@[0]@);
    let n: usize = match map.get(&active_feature_names[0]) {
        Some(array) => {
            assert(m[names[0]] == array@);
            array.len()
        },
        None => 0,
    };
    let mut i: usize = 0;
    while i < n
        invariant
            i <= n,
            n == sites_of(m, names),
            m == arrays(map@),
            names == texts(active_feature_names@),
            computable(*math),
            out@.len() == i,
            forall|k: int|
                0 <= k < i ==> weighed(math.weigh, row_of(m, names, k), v@, #[trigger] out@[k]),
        decreases n - i,
    {
        let z: Vec<Double> = feature_row(map, active_feature_names, i);
        assert(call_requires(math.weigh, (&z, &v)));
        let w: Double = (math.weigh)(&z, &v);
        assert(weighed(math.weigh, row_of(m, names, i as int), v@, w));
        out.push(w);
        i = i + 1;
    }
    assert(names.len() as usize == d);
    assert(prepared(*math, v_in@, names.len() as usize, v@));
    assert(weighed_all(math.weigh, m, names, v@, out@));
    out
}

/// Do the maps have the same arrays of the named features?
pub open spec fn agree_on(
    map: Map<Seq<char>, Seq<Double>>,
    other: Map<Seq<char>, Seq<Double>>,
    names: Seq<Seq<char>>,
) -> bool {
    forall|j: int|
        #![trigger names[j]]
        0 <= j < names.len() ==> map.dom().contains(names[j]) == other.dom().contains(names[j]) && (
        map.dom().contains(names[j]) ==> map[names[j]] == other[names[j]])
}

/// Only the arrays of the named features count: maps that agree on them give the same weights. There
/// is one weight for each number of the first feature's array, and none where that is missing or no
/// feature is named.
pub proof fn only_named_arrays_count<
    E: Fn(usize) -> Double,
    N: Fn(&Vec<Double>) -> Double,
    O: Fn(Double, Double) -> Double,
    W: Fn(&Vec<Double>, &Vec<Double>) -> Double,
>(
    math: WeightMath<E, N, O, W>,
    map: Map<Seq<char>, Seq<Double>>,
    other: Map<Seq<char>, Seq<Double>>,
    v_in: Seq<Double>,
    names: Seq<Seq<char>>,
    out: Seq<Double>,
)
    requires
        agree_on(map, other, names),
    ensures
        combined(math, map, v_in, names, out) == combined(math, other, v_in, names, out),
        combined(math, map, v_in, names, out) ==> out.len() == sites_of(map, names),
{
    assert forall|i: int| row_of(map, names, i) == row_of(other, names, i) by {
        assert(row_of(map, names, i) =~= row_of(other, names, i));
    }
    if names.len() > 0 {
        assert(map.dom().contains(names[0]) <==> other.dom().contains(names[0]));
        assert(sites_of(map, names) == sites_of(other, names));
        assert forall|v: Seq<Double>|
            weighed_all(math.weigh, map, names, v, out) == #[trigger] weighed_all(
                math.weigh,
                other,
                names,
                v,
                out,
            ) by {
            assert forall|i: int| 0 <= i < out.len() implies weighed(
                math.weigh,
                row_of(map, names, i),
                v,
                #[trigger] out[i],
            ) == weighed(math.weigh, row_of(other, names, i), v, out[i]) by {
                assert(row_of(map, names, i) == row_of(other, names, i));
            }
        }
        if combined(math, map, v_in, names, out) {
            let v = choose|v: Seq<Double>| #[trigger]
                prepared(math, v_in, names.len() as usize, v) && weighed_all(
                    math.weigh,
                    map,
                    names,
                    v,
                    out,
                );
            assert(weighed_all(math.weigh, other, names, v, out));
            assert(combined(math, other, v_in, names, out));
        }
        if combined(math, other, v_in, names, out) {
            let v = choose|v: Seq<Double>| #[trigger]
                prepared(math, v_in, names.len() as usize, v) && weighed_all(
                    math.weigh,
                    other,
                    names,
                    v,
                    out,
                );
            assert(weighed_all(math.weigh, other, names, v, out));
            assert(weighed_all(math.weigh, map, names, v, out));
            assert(combined(math, map, v_in, names, out));
        }
    }
}

/// Does the arithmetic give one answer to one question?
pub open spec fn single_valued<
    E: Fn(usize) -> Double,
    N: Fn(&Vec<Double>) -> Double,
    O: Fn(Double, Double) -> Double,
    W: Fn(&Vec<Double>, &Vec<Double>) -> Double,
>(math: WeightMath<E, N, O, W>) -> bool {
    &&& forall|d: usize, x: Double, y: Double| #[trigger]
        call_ensures(math.even, (d,), x) && #[trigger] call_ensures(math.even, (d,), y) ==> x == y
    &&& forall|a: &Vec<Double>, b: &Vec<Double>, x: Double, y: Double|
        a@ == b@ && #[trigger] call_ensures(math.norm, (a,), x) && #[trigger] call_ensures(
            math.norm,
            (b,),
            y,
        ) ==> x == y
    &&& forall|p: Double, q: Double, x: Double, y: Double| #[trigger]
        call_ensures(math.over, (p, q), x) && #[trigger] call_ensures(math.over, (p, q), y) ==> x
            == y
    &&& forall|
        a: &Vec<Double>,
        b: &Vec<Double>,
        u: &Vec<Double>,
        v: &Vec<Double>,
        x: Double,
        y: Double,
    |
        a@ == b@ && u@ == v@ && #[trigger] call_ensures(math.weigh, (a, u), x)
            && #[trigger] call_ensures(math.weigh, (b, v), y) ==> x == y
}

/// The prepared weights are determined by the given ones.
proof fn preparing_is_determined<
    E: Fn(usize) -> Double,
    N: Fn(&Vec<Double>) -> Double,
    O: Fn(Double, Double) -> Double,
    W: Fn(&Vec<Double>, &Vec<Double>) -> Double,
>(math: WeightMath<E, N, O, W>, v_raw: Seq<Double>, d: usize, a: Seq<Double>, b: Seq<Double>)
    requires
        single_valued(math),
        prepared(math, v_raw, d, a),
        prepared(math, v_raw, d, b),
    ensures
        a == b,
{
    let (y, norm) = choose|z: &Vec<Double>, norm: Double|
        z@ == clean_of(v_raw, d as nat) && #[trigger] call_ensures(math.norm, (z,), norm) && if (
        Double { bits: 0 }).below(norm) {
            scaled(math.over, z@, norm, a)
        } else {
            evened(math.even, d, a)
        };
    let (z, other) = choose|z: &Vec<Double>, norm: Double|
        z@ == clean_of(v_raw, d as nat) && #[trigger] call_ensures(math.norm, (z,), norm) && if (
        Double { bits: 0 }).below(norm) {
            scaled(math.over, z@, norm, b)
        } else {
            evened(math.even, d, b)
        };
    assert(y@ == z@);
    assert(norm == other);
    if (Double { bits: 0 }).below(norm) {
        assert forall|i: int| 0 <= i < a.len() implies a[i] == b[i] by {
            assert(call_ensures(math.over, (y@[i], norm), a[i]));
            assert(call_ensures(math.over, (z@[i], norm), b[i]));
        }
        assert(a =~= b);
    }
}

/// The weights of the coverage sites are determined by the weights of the features and the arrays of
/// the named features, where the arithmetic gives one answer to one question: two maps that agree on
/// the named arrays give equal weights.
pub proof fn weights_are_determined<
    E: Fn(usize) -> Double,
    N: Fn(&Vec<Double>) -> Double,
    O: Fn(Double, Double) -> Double,
    W: Fn(&Vec<Double>, &Vec<Double>) -> Double,
>(
    math: WeightMath<E, N, O, W>,
    map: Map<Seq<char>, Seq<Double>>,
    other: Map<Seq<char>, Seq<Double>>,
    v_in: Seq<Double>,
    names: Seq<Seq<char>>,
    out: Seq<Double>,
    other_out: Seq<Double>,
)
    requires
        single_valued(math),
        agree_on(map, other, names),
        combined(math, map, v_in, names, out),
        combined(math, other, v_in, names, other_out),
    ensures
        out == other_out,
        out.len() == sites_of(map, names),
{
    only_named_arrays_count(math, map, other, v_in, names, other_out);
    assert(combined(math, map, v_in, names, other_out));
    if names.len() > 0 {
        let d = names.len() as usize;
        let v = choose|v: Seq<Double>| #[trigger]
            prepared(math, v_in, d, v) && weighed_all(math.weigh, map, names, v, out);
        let w = choose|v: Seq<Double>| #[trigger]
            prepared(math, v_in, d, v) && weighed_all(math.weigh, map, names, v, other_out);
        preparing_is_determined(math, v_in, d, v, w);
        assert forall|i: int| 0 <= i < out.len() implies out[i] == other_out[i] by {
            assert(weighed(math.weigh, row_of(map, names, i), v, out[i]));
            assert(weighed(math.weigh, row_of(map, names, i), v, other_out[i]));
        }
    }
    assert(out =~= other_out);
}

/// The first `sites` numbers; zeros where there are fewer.
pub open spec fn aligned(v: Seq<Double>, sites: nat) -> Seq<Double> {
    Seq::new(
        sites,
        |i: int|
            if i < v.len() {
                v[i]
            } else {
                Double { bits: 0 }
            },
    )
}

/// The first `sites` numbers; zeros where there are fewer.
pub fn align(v: Vec<Double>, sites: usize) -> (r: Vec<Double>)
    ensures
        r@ == aligned(v@, sites as nat),
{
    let mut r: Vec<Double> = v;
    if r.len() < sites {
        r.resize(sites, Double::zero());
    }
    if r.len() > sites {
        r.truncate(sites);
    }
    assert(r@ =~= aligned(v@, sites as nat));
    r
}

/// Aligning what is aligned changes nothing, and neither does aligning what already fits.
pub proof fn align_is_idempotent(v: Seq<Double>, sites: nat)
    ensures
        aligned(aligned(v, sites), sites) == aligned(v, sites),
        v.len() == sites ==> aligned(v, sites) == v,
{
    assert(aligned(aligned(v, sites), sites) =~= aligned(v, sites));
    if v.len() == sites {
        assert(aligned(v, sites) =~= v);
    }
}

/// The weights of a candidate: all but alpha, which comes first.
pub fn weights_of(candidate: &Vec<Double>) -> (r: Vec<Double>)
    requires
        candidate@.len() > 0,
    ensures
        r@ == candidate@.skip(1),
{
    let mut r: Vec<Double> = Vec::new();
    let mut i: usize = 1;
    while i < candidate.len()
        invariant
            1 <= i <= candidate@.len(),
            r@ == candidate@.subrange(1, i as int),
        decreases candidate@.len() - i,
    {
        r.push(candidate[i]);
        assert(candidate@.subrange(1, i + 1) =~= candidate@.subrange(1, i as int).push(
            candidate@[i as int],
        ));
        i = i + 1;
    }
    assert(candidate@.subrange(1, candidate@.len() as int) =~= candidate@.skip(1));
    r
}

/// The weights that a feature map is first combined with: those of the first candidate, or else
/// even ones.
pub open spec fn first_weights<E: Fn(usize) -> Double>(
    even: E,
    cands: Seq<Seq<Double>>,
    dim: usize,
    out: Seq<Double>,
) -> bool {
    if cands.len() > 0 {
        out == cands[0].skip(1)
    } else {
        evened(even, dim, out)
    }
}

/// The weights that a feature map is first combined with.
pub fn initial_weights<E: Fn(usize) -> Double>(
    state: &SchedulerState,
    active_dim: usize,
    even: &E,
) -> (r: Vec<Double>)
    requires
        forall|n: usize| #[trigger] call_requires(*even, (n,)),
        state@.globals.v_candidates.len() > 0 ==> state@.globals.v_candidates[0].len() > 0,
    ensures
        first_weights(*even, state@.globals.v_candidates, active_dim, r@),
{
    let cands: Vec<Vec<Double>> = get_v_candidates(state);
    if cands.len() > 0 {
        assert(rows(cands@)[0] == cands@[0]@);
        weights_of(&cands[0])
    } else {
        even_weights(active_dim, even)
    }
}

/// A state in which `v` are the weights in use, behind the alpha of the factor parameters.
pub open spec fn using_weights(s: StateView, v: Seq<Double>) -> StateView {
    StateView {
        globals: GlobalsView {
            current_v: seq![s.globals.factor_params.alpha.unit()] + v,
            ..s.globals
        },
        ..s
    }
}

/// Makes `v` the weights in use, behind the alpha of the factor parameters.
pub fn use_weights(state: &mut SchedulerState, v: &Vec<Double>)
    ensures
        final(state)@ == using_weights(old(state)@, v@),
{
    let alpha: Double = get_factor_params(state).alpha.clamp_unit();
    set_current_weight_vec(state, with_alpha(alpha, v));
}

/// A feature map has been taken into use: combined with the first weights, and the result `out`
/// fitted to the coverage sites. The first weights are those in use now, and the search over weight
/// vectors is allowed.
pub open spec fn taken_up<
    E: Fn(usize) -> Double,
    N: Fn(&Vec<Double>) -> Double,
    O: Fn(Double, Double) -> Double,
    W: Fn(&Vec<Double>, &Vec<Double>) -> Double,
>(
    math: WeightMath<E, N, O, W>,
    s: StateView,
    columns: Map<Seq<char>, Seq<Double>>,
    sites: nat,
    dim: usize,
    names: Seq<Seq<char>>,
    out: Seq<Double>,
    t: StateView,
) -> bool {
    exists|first: Seq<Double>, feats: Seq<Double>|
        {
            &&& #[trigger] first_weights(math.even, s.globals.v_candidates, dim, first)
            &&& #[trigger] combined(math, columns, first, names, feats)
            &&& out == aligned(feats, sites)
            &&& t == using_weights(
                StateView { globals: GlobalsView { tpe_satisfied: true, ..s.globals }, ..s },
                first,
            )
        }
}

/// Takes a feature map into use: combines it with the first weights, fits the result to the
/// coverage sites, and allows the search over weight vectors from now on. Gives the weights of the
/// sites.
pub fn take_up_features_map<
    E: Fn(usize) -> Double,
    N: Fn(&Vec<Double>) -> Double,
    O: Fn(Double, Double) -> Double,
    W: Fn(&Vec<Double>, &Vec<Double>) -> Double,
>(
    state: &mut SchedulerState,
    map: &Table<Vec<Double>>,
    sites: usize,
    active_dim: usize,
    active_feature_names: &Vec<String>,
    math: &WeightMath<E, N, O, W>,
) -> (r: Vec<Double>)
    requires
        computable(*math),
        old(state)@.globals.v_candidates.len() > 0 ==> old(
            state,
        )@.globals.v_candidates[0].len() > 0,
    ensures
        taken_up(
            *math,
            old(state)@,
            arrays(map@),
            sites as nat,
            active_dim,
            texts(active_feature_names@),
            r@,
            final(state)@,
        ),
{
    let first: Vec<Double> = initial_weights(state, active_dim, &math.even);
    let feats: Vec<Double> = combine_feature_matrix_to_weights(
        map,
        &first,
        active_feature_names,
        math,
    );
    set_tpe_satisfied(state, true);
    use_weights(state, &first);
    align(feats, sites)
}

/// A feature map has been read and taken into use, or else its fault is told and nothing has
/// changed.
pub open spec fn map_loaded<
    E: Fn(usize) -> Double,
    N: Fn(&Vec<Double>) -> Double,
    O: Fn(Double, Double) -> Double,
    W: Fn(&Vec<Double>, &Vec<Double>) -> Double,
>(
    math: WeightMath<E, N, O, W>,
    s: StateView,
    read: Result<Map<Seq<char>, Seq<Double>>, Seq<char>>,
    sites: nat,
    dim: usize,
    names: Seq<Seq<char>>,
    r: Result<(Vec<Double>, Table<Vec<Double>>), String>,
    t: StateView,
) -> bool {
    match read {
        Err(e) => r is Err && (r->Err_0)@ == e && t == s,
        Ok(columns) => r is Ok && arrays((r->Ok_0).1@) == columns && taken_up(
            math,
            s,
            columns,
            sites,
            dim,
            names,
            (r->Ok_0).0@,
            t,
        ),
    }
}

/// Loads a feature map: sees to it that there are candidates, reads the map from its text, checks
/// it against the schema, and takes it into use. Gives the weights of the coverage sites and the
/// map itself: all arrays that it holds, and each feature of the schema under its canonical name.
///
/// `file` is the text of the candidate file, or why it cannot be read; `None` where there is no such
/// file.
pub fn load_and_align_features_map<
    E: Fn(usize) -> Double,
    N: Fn(&Vec<Double>) -> Double,
    O: Fn(Double, Double) -> Double,
    W: Fn(&Vec<Double>, &Vec<Double>) -> Double,
>(
    state: &mut SchedulerState,
    file: Option<Result<String, String>>,
    text: &str,
    schema: &FeatureSchemaFile,
    sites: usize,
    active_dim: usize,
    active_feature_names: &Vec<String>,
    mask: &Vec<bool>,
    math: &WeightMath<E, N, O, W>,
) -> (r: Result<(Vec<Double>, Table<Vec<Double>>), String>)
    requires
        computable(*math),
        active_dim < usize::MAX,
        old(state)@.globals.v_candidates.len() > 0 ==> old(
            state,
        )@.globals.v_candidates[0].len() > 0,
    ensures
        old(state)@.globals.v_candidates.len() > 0 ==> map_loaded(
            *math,
            old(state)@,
            arrays_read(json_columns(text@), schema@.features, sites as nat),
            sites as nat,
            active_dim,
            texts(active_feature_names@),
            r,
            final(state)@,
        ),
        old(state)@.globals.v_candidates.len() == 0 ==> exists|
            read: Option<Result<Seq<Seq<Double>>, Seq<char>>>,
        | #[trigger]
            file_read(math.norm, file, active_dim as nat, read) && match read {
                Some(Err(e)) => r is Err && (r->Err_0)@ == e && final(state)@ == old(state)@,
                _ => exists|mid: StateView| #[trigger]
                    candidates_set(
                        math.even,
                        old(state)@,
                        read,
                        active_dim,
                        mask@,
                        schema@.features.len(),
                        mid,
                    ) && map_loaded(
                        *math,
                        mid,
                        arrays_read(json_columns(text@), schema@.features, sites as nat),
                        sites as nat,
                        active_dim,
                        texts(active_feature_names@),
                        r,
                        final(state)@,
                    ),
            },
{
    assert(call_requires(math.even, (active_dim,)));
    match ensure_v_candidates_for(
        state,
        file,
        active_dim,
        mask,
        schema.features.len(),
        &math.even,
        &math.norm,
    ) {
        Err(e) => {
            return Err(e);
        },
        Ok(_) => {},
    }
    match parse_feature_arrays(text, schema, sites) {
        Err(e) => Err(e),
        Ok(map) => {
            let feats: Vec<Double> = take_up_features_map(
                state,
                &map,
                sites,
                active_dim,
                active_feature_names,
                math,
            );
            Ok((feats, map))
        },
    }
}

/// What the weights of the coverage sites become when the weights `v` for the features are
/// applied. With a feature map they are combined anew; without one they stay.
pub open spec fn reapplied<
    E: Fn(usize) -> Double,
    N: Fn(&Vec<Double>) -> Double,
    O: Fn(Double, Double) -> Double,
    W: Fn(&Vec<Double>, &Vec<Double>) -> Double,
>(
    math: WeightMath<E, N, O, W>,
    s: StateView,
    v: Seq<Double>,
    names: Seq<Seq<char>>,
    feats: Seq<Double>,
) -> bool {
    if s.matrix is Some {
        exists|out: Seq<Double>| #[trigger]
            combined(math, (s.matrix->0).columns, v, names, out) && feats == aligned(
                out,
                (s.matrix->0).sites as nat,
            )
    } else if s.feats is Some {
        feats == s.feats->0
    } else {
        feats == Seq::<Double>::empty()
    }
}

/// The state once weights for the features are applied: the weights of the sites are `feats`, and
/// `v` are the weights in use unless there are none.
pub open spec fn with_weights(s: StateView, v: Seq<Double>, feats: Seq<Double>) -> StateView {
    let stored = StateView { feats: Some(feats), ..s };
    if v.len() == 0 {
        stored
    } else {
        using_weights(stored, v)
    }
}

/// Applies weights for the named features: combines the feature map anew, and makes the weights
/// those in use unless there are none.
pub fn apply_weights<
    E: Fn(usize) -> Double,
    N: Fn(&Vec<Double>) -> Double,
    O: Fn(Double, Double) -> Double,
    W: Fn(&Vec<Double>, &Vec<Double>) -> Double,
>(
    state: &mut SchedulerState,
    v: &Vec<Double>,
    names: &Vec<String>,
    math: &WeightMath<E, N, O, W>,
)
    requires
        computable(*math),
    ensures
        final(state)@.feats is Some,
        reapplied(*math, old(state)@, v@, texts(names@), final(state)@.feats->0),
        final(state)@ == with_weights(old(state)@, v@, final(state)@.feats->0),
{
    let ghost before = state@;
    let feats: Vec<Double> = match &state.features_matrix {
        Some(m) => {
            let out: Vec<Double> = combine_feature_matrix_to_weights(&m.matrix, v, names, math);
            let fitted: Vec<Double> = align(out, m.sites);
            assert(combined(*math, (before.matrix->0).columns, v@, texts(names@), out@));
            assert(fitted@ == aligned(out@, (before.matrix->0).sites as nat));
            assert(reapplied(*math, before, v@, texts(names@), fitted@));
            fitted
        },
        None => match &state.features_map {
            Some(m) => {
                let same: Vec<Double> = copy_numbers(&m.feats);
                assert(reapplied(*math, before, v@, texts(names@), same@));
                same
            },
            None => {
                let fitted: Vec<Double> = Vec::new();
                assert(reapplied(*math, before, v@, texts(names@), fitted@));
                fitted
            },
        },
    };
    state.features_map = Some(FeaturesMapMeta { feats });
    if v.len() > 0 {
        use_weights(state, v);
    }
}

/// Applies weights for the active features: combines the feature map anew, and makes the weights
/// those in use unless there are none.
pub fn apply_v_to_features<
    E: Fn(usize) -> Double,
    N: Fn(&Vec<Double>) -> Double,
    O: Fn(Double, Double) -> Double,
    W: Fn(&Vec<Double>, &Vec<Double>) -> Double,
>(state: &mut SchedulerState, v: &Vec<Double>, math: &WeightMath<E, N, O, W>)
    requires
        computable(*math),
    ensures
        final(state)@.feats is Some,
        reapplied(
            *math,
            old(state)@,
            v@,
            old(state)@.globals.active_feature_names,
            final(state)@.feats->0,
        ),
        final(state)@ == with_weights(old(state)@, v@, final(state)@.feats->0),
{
    let names: Vec<String> = get_active_feature_names(state);
    apply_weights(state, v, &names, math);
}

/// At a coverage site the number of the feature that is named at a place stands at that place: the
/// number that its array has for the site, and 0 where it has none.
pub proof fn rows_follow_the_names(
    map: Map<Seq<char>, Seq<Double>>,
    names: Seq<Seq<char>>,
    i: int,
    j: int,
)
    requires
        0 <= i,
        0 <= j < names.len(),
    ensures
        row_of(map, names, i).len() == names.len(),
        map.dom().contains(names[j]) && i < map[names[j]].len() ==> row_of(map, names, i)[j]
            == map[names[j]][i],
        !map.dom().contains(names[j]) || i >= map[names[j]].len() ==> row_of(map, names, i)[j] == (
        Double { bits: 0 }),
{
}

/// Weights between 0 and 1 are used as they are given, greater ones count as 1, and negative ones,
/// those that are no finite number and missing ones count as 0. Those that are too many do not count.
pub proof fn cleaning_keeps_shares(v: Seq<Double>, d: nat, i: int)
    requires
        0 <= i < d,
    ensures
        clean_of(v, d).len() == d,
        i < v.len() && (Double { bits: 0 }).at_most(v[i]) && v[i].at_most(
            Double { bits: 0x3FF0_0000_0000_0000 },
        ) ==> clean_of(v, d)[i] == v[i],
        i < v.len() && v[i].finite() && (Double { bits: 0x3FF0_0000_0000_0000 }).below(v[i])
            ==> clean_of(v, d)[i] == (Double { bits: 0x3FF0_0000_0000_0000 }),
        i < v.len() && v[i].below(Double { bits: 0 }) ==> clean_of(v, d)[i] == (Double { bits: 0 }),
        i >= v.len() || !v[i].finite() ==> clean_of(v, d)[i] == (Double { bits: 0 }),
{
    if i < v.len() {
        crate::double::unit_keeps_shares(v[i]);
        crate::double::kinds_of_numbers(v[i]);
    }
}

/// Weights between 0 and 1 are divided, each in its place, by the length of the vector that they
/// form. Where that length is not positive all of them become equal.
pub proof fn weights_are_scaled_in_place<
    E: Fn(usize) -> Double,
    N: Fn(&Vec<Double>) -> Double,
    O: Fn(Double, Double) -> Double,
    W: Fn(&Vec<Double>, &Vec<Double>) -> Double,
>(
    math: WeightMath<E, N, O, W>,
    v: Seq<Double>,
    d: usize,
    length: Double,
    out: Seq<Double>,
)
    requires
        prepared(math, v, d, out),
        v.len() == d,
        forall|i: int|
            0 <= i < v.len() ==> (Double { bits: 0 }).at_most(#[trigger] v[i]) && v[i].at_most(
                Double { bits: 0x3FF0_0000_0000_0000 },
            ),
        forall|z: &Vec<Double>, x: Double|
            z@ == v && #[trigger] call_ensures(math.norm, (z,), x) ==> x == length,
    ensures
        out.len() == d,
        (Double { bits: 0 }).below(length) ==> forall|i: int|
            0 <= i < d ==> call_ensures(math.over, (v[i], length), #[trigger] out[i]),
        !(Double { bits: 0 }).below(length) ==> exists|w: Double| #[trigger]
            call_ensures(math.even, (d,), w) && forall|i: int| 0 <= i < d ==> out[i] == w,
{
    assert forall|i: int| 0 <= i < d implies #[trigger] clean_of(v, d as nat)[i] == v[i] by {
        cleaning_keeps_shares(v, d as nat, i);
    }
    assert(clean_of(v, d as nat) =~= v);
    let (z, norm) = choose|z: &Vec<Double>, norm: Double|
        z@ == clean_of(v, d as nat) && #[trigger] call_ensures(math.norm, (z,), norm) && if (
        Double { bits: 0 }).below(norm) {
            scaled(math.over, z@, norm, out)
        } else {
            evened(math.even, d, out)
        };
    assert(norm == length);
    if !(Double { bits: 0 }).below(length) {
        let w = choose|w: Double| #[trigger]
            call_ensures(math.even, (d,), w) && out == constant_of(d as nat, w);
        assert(forall|i: int| 0 <= i < d ==> out[i] == w);
    }
}

/// Each weight goes with its feature. Where `w` is all that the given weights can be prepared to, a
/// coverage site weighs what `weigh` gives for `w` and a row that has, at each place, what the array
/// of the feature named there has for the site.
pub proof fn weights_go_with_their_features<
    E: Fn(usize) -> Double,
    N: Fn(&Vec<Double>) -> Double,
    O: Fn(Double, Double) -> Double,
    W: Fn(&Vec<Double>, &Vec<Double>) -> Double,
>(
    math: WeightMath<E, N, O, W>,
    map: Map<Seq<char>, Seq<Double>>,
    v: Seq<Double>,
    names: Seq<Seq<char>>,
    w: Seq<Double>,
    out: Seq<Double>,
    i: int,
)
    requires
        combined(math, map, v, names, out),
        0 < names.len(),
        map.dom().contains(names[0]),
        forall|u: Seq<Double>| #[trigger] prepared(math, v, names.len() as usize, u) ==> u == w,
        0 <= i < map[names[0]].len(),
    ensures
        out.len() == map[names[0]].len(),
        exists|z: &Vec<Double>, u: &Vec<Double>| #[trigger]
            call_ensures(math.weigh, (z, u), out[i]) && u@ == w && z@.len() == names.len()
                && forall|j: int|
                #![trigger names[j]]
                0 <= j < names.len() ==> z@[j] == if map.dom().contains(names[j]) && i
                    < map[names[j]].len() {
                    map[names[j]][i]
                } else {
                    Double { bits: 0 }
                },
{
    let p = choose|p: Seq<Double>| #[trigger]
        prepared(math, v, names.len() as usize, p) && weighed_all(math.weigh, map, names, p, out);
    assert(p == w);
    assert(weighed(math.weigh, row_of(map, names, i), w, out[i]));
    let (z, u) = choose|z: &Vec<Double>, u: &Vec<Double>|
        z@ == row_of(map, names, i) && u@ == w && #[trigger] call_ensures(
            math.weigh,
            (z, u),
            out[i],
        );
    assert(call_ensures(math.weigh, (z, u), out[i]));
}

/// Applying weights gives every coverage site what combining the stored map with those very weights
/// gives it, and 0 to a site that the map does not speak of.
pub proof fn applied_weights_are_combined<
    E: Fn(usize) -> Double,
    N: Fn(&Vec<Double>) -> Double,
    O: Fn(Double, Double) -> Double,
    W: Fn(&Vec<Double>, &Vec<Double>) -> Double,
>(
    math: WeightMath<E, N, O, W>,
    s: StateView,
    v: Seq<Double>,
    names: Seq<Seq<char>>,
    out: Seq<Double>,
    feats: Seq<Double>,
)
    requires
        single_valued(math),
        s.matrix is Some,
        combined(math, (s.matrix->0).columns, v, names, out),
        reapplied(math, s, v, names, feats),
    ensures
        feats.len() == (s.matrix->0).sites,
        forall|i: int|
            0 <= i < feats.len() ==> #[trigger] feats[i] == if i < out.len() {
                out[i]
            } else {
                Double { bits: 0 }
            },
{
    let columns = (s.matrix->0).columns;
    let other = choose|other: Seq<Double>| #[trigger]
        combined(math, columns, v, names, other) && feats == aligned(
            other,
            (s.matrix->0).sites as nat,
        );
    weights_are_determined(math, columns, columns, v, names, out, other);
}

/// Without a feature map, applying weights leaves the weights of the coverage sites as they are.
pub proof fn nothing_to_combine<
    E: Fn(usize) -> Double,
    N: Fn(&Vec<Double>) -> Double,
    O: Fn(Double, Double) -> Double,
    W: Fn(&Vec<Double>, &Vec<Double>) -> Double,
>(
    math: WeightMath<E, N, O, W>,
    s: StateView,
    v: Seq<Double>,
    names: Seq<Seq<char>>,
    feats: Seq<Double>,
)
    requires
        s.matrix is None,
        reapplied(math, s, v, names, feats),
    ensures
        s.feats is Some ==> Some(feats) == s.feats,
        s.feats is None ==> feats.len() == 0,
{
}

/// Applied weights are the ones in use from then on, behind the alpha of the factor parameters; no
/// weights leave those in use as they are. Besides these and the weights of the coverage sites
/// nothing changes.
pub proof fn applied_weights_are_in_use(s: StateView, v: Seq<Double>, feats: Seq<Double>)
    ensures
        ({
            let t = with_weights(s, v, feats);
            &&& t.feats == Some(feats)
            &&& v.len() > 0 ==> t.globals.current_v.len() == 1 + v.len()
            &&& v.len() > 0 ==> t.globals.current_v[0] == s.globals.factor_params.alpha.unit()
            &&& forall|i: int|
                0 <= i < v.len() ==> #[trigger] t.globals.current_v[i + 1] == v[i]
            &&& v.len() == 0 ==> t.globals.current_v == s.globals.current_v
            &&& t == (StateView {
                feats: t.feats,
                globals: GlobalsView { current_v: t.globals.current_v, ..s.globals },
                ..s
            })
        }),
{
}

/// A feature map that is taken up is combined with the weights of the first candidate: those are in
/// use from then on, the search is allowed, and nothing else changes. Applying the same weights to the
/// stored map gives the same weights to the coverage sites.
pub proof fn first_candidate_is_applied<
    E: Fn(usize) -> Double,
    N: Fn(&Vec<Double>) -> Double,
    O: Fn(Double, Double) -> Double,
    W: Fn(&Vec<Double>, &Vec<Double>) -> Double,
>(
    math: WeightMath<E, N, O, W>,
    s: StateView,
    columns: Map<Seq<char>, Seq<Double>>,
    sites: usize,
    dim: usize,
    names: Seq<Seq<char>>,
    out: Seq<Double>,
    t: StateView,
    later: StateView,
    feats: Seq<Double>,
)
    requires
        single_valued(math),
        taken_up(math, s, columns, sites as nat, dim, names, out, t),
        s.globals.v_candidates.len() > 0,
        later.matrix == Some(super::MatrixView { columns, sites }),
        reapplied(math, later, s.globals.v_candidates[0].skip(1), names, feats),
    ensures
        feats == out,
        out.len() == sites,
        t.globals.tpe_satisfied,
        t.globals.current_v == seq![s.globals.factor_params.alpha.unit()]
            + s.globals.v_candidates[0].skip(1),
        t == (StateView {
            globals: GlobalsView {
                tpe_satisfied: true,
                current_v: t.globals.current_v,
                ..s.globals
            },
            ..s
        }),
{
    let (first, raw) = choose|first: Seq<Double>, raw: Seq<Double>|
        {
            &&& #[trigger] first_weights(math.even, s.globals.v_candidates, dim, first)
            &&& #[trigger] combined(math, columns, first, names, raw)
            &&& out == aligned(raw, sites as nat)
            &&& t == using_weights(
                StateView { globals: GlobalsView { tpe_satisfied: true, ..s.globals }, ..s },
                first,
            )
        };
    applied_weights_are_combined(math, later, first, names, raw, feats);
    assert(feats =~= out);
}

/// Without candidates a feature map is taken up with weights that are all the same.
pub proof fn even_weights_come_first<
    E: Fn(usize) -> Double,
    N: Fn(&Vec<Double>) -> Double,
    O: Fn(Double, Double) -> Double,
    W: Fn(&Vec<Double>, &Vec<Double>) -> Double,
>(
    math: WeightMath<E, N, O, W>,
    s: StateView,
    columns: Map<Seq<char>, Seq<Double>>,
    sites: usize,
    dim: usize,
    names: Seq<Seq<char>>,
    w: Double,
    out: Seq<Double>,
    t: StateView,
)
    requires
        taken_up(math, s, columns, sites as nat, dim, names, out, t),
        s.globals.v_candidates.len() == 0,
        forall|x: Double| #[trigger] call_ensures(math.even, (dim,), x) ==> x == w,
    ensures
        t.globals.current_v.len() == 1 + dim,
        t.globals.current_v[0] == s.globals.factor_params.alpha.unit(),
        forall|i: int| 1 <= i <= dim ==> #[trigger] t.globals.current_v[i] == w,
        t.globals.tpe_satisfied,
        out.len() == sites,
{
    let (first, raw) = choose|first: Seq<Double>, raw: Seq<Double>|
        {
            &&& #[trigger] first_weights(math.even, s.globals.v_candidates, dim, first)
            &&& #[trigger] combined(math, columns, first, names, raw)
            &&& out == aligned(raw, sites as nat)
            &&& t == using_weights(
                StateView { globals: GlobalsView { tpe_satisfied: true, ..s.globals }, ..s },
                first,
            )
        };
    assert(evened(math.even, dim, first));
}

/// A feature map that is refused changes nothing, and one that is accepted is handed on whole.
pub proof fn refused_maps_change_nothing<
    E: Fn(usize) -> Double,
    N: Fn(&Vec<Double>) -> Double,
    O: Fn(Double, Double) -> Double,
    W: Fn(&Vec<Double>, &Vec<Double>) -> Double,
>(
    math: WeightMath<E, N, O, W>,
    s: StateView,
    read: Result<Map<Seq<char>, Seq<Double>>, Seq<char>>,
    sites: nat,
    dim: usize,
    names: Seq<Seq<char>>,
    r: Result<(Vec<Double>, Table<Vec<Double>>), String>,
    t: StateView,
)
    requires
        map_loaded(math, s, read, sites, dim, names, r, t),
    ensures
        r is Ok <==> read is Ok,
        r is Err ==> t == s && read == Err::<Map<Seq<char>, Seq<Double>>, Seq<char>>((r->Err_0)@),
        r is Ok ==> read == Ok::<Map<Seq<char>, Seq<Double>>, Seq<char>>(arrays((r->Ok_0).1@))
            && (r->Ok_0).0@.len() == sites,
{
}

/// Weights that are applied are in use from then on, and every coverage site weighs what combining the
/// stored map with those very weights gives it.
pub proof fn applying_combines_anew<
    E: Fn(usize) -> Double,
    N: Fn(&Vec<Double>) -> Double,
    O: Fn(Double, Double) -> Double,
    W: Fn(&Vec<Double>, &Vec<Double>) -> Double,
>(
    state: &mut SchedulerState,
    v: Vec<Double>,
    math: WeightMath<E, N, O, W>,
    out: Seq<Double>,
    i: int,
)
    requires
        single_valued(math),
        call_ensures(apply_v_to_features::<E, N, O, W>, (state, &v, &math), ()),
        old(state)@.matrix is Some,
        combined(
            math,
            (old(state)@.matrix->0).columns,
            v@,
            old(state)@.globals.active_feature_names,
            out,
        ),
        v@.len() > 0,
        0 <= i < (old(state)@.matrix->0).sites,
    ensures
        final(state)@.feats is Some,
        (final(state)@.feats->0).len() == (old(state)@.matrix->0).sites,
        final(state)@.feats->0[i] == (if i < out.len() {
            out[i]
        } else {
            Double { bits: 0 }
        }),
        final(state)@.globals.current_v == seq![old(state)@.globals.factor_params.alpha.unit()]
            + v@,
        final(state)@.globals.v_candidates == old(state)@.globals.v_candidates,
        final(state)@.matrix == old(state)@.matrix,
{
    applied_weights_are_combined(
        math,
        old(state)@,
        v@,
        old(state)@.globals.active_feature_names,
        out,
        final(state)@.feats->0,
    );
}

/// With candidates, loading a feature map gives one weight for each coverage site and the arrays, or
/// else what is wrong with it; then nothing changes. The weights of the first candidate are in use from
/// then on, and the search is allowed.
pub proof fn loaded_maps_use_the_first_candidate<
    E: Fn(usize) -> Double,
    N: Fn(&Vec<Double>) -> Double,
    O: Fn(Double, Double) -> Double,
    W: Fn(&Vec<Double>, &Vec<Double>) -> Double,
>(
    state: &mut SchedulerState,
    file: Option<Result<String, String>>,
    text: &str,
    schema: FeatureSchemaFile,
    sites: usize,
    active_dim: usize,
    names: Vec<String>,
    mask: Vec<bool>,
    math: WeightMath<E, N, O, W>,
    r: Result<(Vec<Double>, Table<Vec<Double>>), String>,
)
    requires
        call_ensures(
            load_and_align_features_map::<E, N, O, W>,
            (state, file, text, &schema, sites, active_dim, &names, &mask, &math),
            r,
        ),
        old(state)@.globals.v_candidates.len() > 0,
    ensures
        r is Ok <==> arrays_read(json_columns(text@), schema@.features, sites as nat) is Ok,
        r is Err ==> final(state)@ == old(state)@,
        r is Ok ==> (r->Ok_0).0@.len() == sites && final(state)@.globals.tpe_satisfied
            && final(state)@.globals.current_v == seq![
            old(state)@.globals.factor_params.alpha.unit(),
        ] + old(state)@.globals.v_candidates[0].skip(1),
        final(state)@.globals.v_candidates == old(state)@.globals.v_candidates,
{
}

} // verus!
