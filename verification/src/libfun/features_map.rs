//! The feature map of the fixed set of eight features, and the vectors that the search starts from.

use vstd::prelude::*;

use crate::double::Double;
use crate::feature_sched::candidates::{
    constant_of, initial_alpha, one_hot, one_hot_of, starting_alpha, uniform_vec, with_alpha,
    with_candidates,
};
use crate::feature_sched::metadata::{arrays, copy_numbers, rows, GlobalsView};
use crate::feature_sched::weights::{
    self, align, aligned, apply_weights, combined, computable, even_weights, evened, first_weights,
    initial_weights, prepare_v, prepared, reapplied, use_weights, using_weights, with_weights,
    WeightMath,
};
use crate::feature_sched::{
    get_alpha_init, get_current_weight_vec, get_v_candidates, replace_v_candidates,
    set_current_weight_vec, set_tpe_satisfied, SchedulerState, StateView,
};
use crate::json::{json_indexes, json_rows, parse_indexes, parse_rows};
use crate::table::Table;
use crate::text::{decimal, decimal_text, texts};

verus! {

/// The names of the features.
pub open spec fn attr_names() -> Seq<Seq<char>> {
    seq!["imme"@, "strc"@, "mem"@, "arith"@, "indeg"@, "offsp"@, "btw"@, "depth"@]
}

/// The number of features.
pub const ATTRS: usize = 8;

/// The names of the features.
pub fn attr_order() -> (r: Vec<String>)
    ensures
        texts(r@) == attr_names(),
        r@.len() == ATTRS,
{
    let mut r: Vec<String> = Vec::new();
    r.push("imme".to_owned());
    r.push("strc".to_owned());
    r.push("mem".to_owned());
    r.push("arith".to_owned());
    r.push("indeg".to_owned());
    r.push("offsp".to_owned());
    r.push("btw".to_owned());
    r.push("depth".to_owned());
    assert(texts(r@) =~= attr_names());
    r
}

/// The order in which the single features are tried where no other is given.
pub open spec fn usual_order() -> Seq<usize> {
    seq![6, 0, 5, 1, 2, 3, 4, 7]
}

/// The order in which the single features are tried where no other is given.
pub fn default_prior() -> (r: Vec<usize>)
    ensures
        r@ == usual_order(),
{
    let mut r: Vec<usize> = Vec::new();
    r.push(6);
    r.push(0);
    r.push(5);
    r.push(1);
    r.push(2);
    r.push(3);
    r.push(4);
    r.push(7);
    assert(r@ =~= usual_order());
    r
}

/// Do the indexes count from zero?
pub open spec fn zero_based(raw: Seq<usize>, d: nat) -> bool {
    forall|i: int| 0 <= i < raw.len() ==> #[trigger] raw[i] < d
}

/// Do the indexes count from one?
pub open spec fn one_based(raw: Seq<usize>, d: nat) -> bool {
    forall|i: int| 0 <= i < raw.len() ==> 1 <= #[trigger] raw[i] <= d
}

/// The indexes, counted from zero.
pub open spec fn shifted(raw: Seq<usize>, d: nat) -> Seq<usize> {
    if one_based(raw, d) {
        raw.map_values(|x: usize| (x - 1) as usize)
    } else {
        raw
    }
}

/// A list without what occurred in it before.
pub open spec fn firsts(s: Seq<usize>) -> Seq<usize>
    decreases s.len(),
{
    if s.len() == 0 {
        Seq::empty()
    } else {
        let before = firsts(s.drop_last());
        if before.contains(s.last()) {
            before
        } else {
            before.push(s.last())
        }
    }
}

/// A list with those of the numbers below `n` that it lacks behind it.
pub open spec fn filled(s: Seq<usize>, n: nat) -> Seq<usize>
    decreases n,
{
    if n == 0 {
        s
    } else {
        let before = filled(s, (n - 1) as nat);
        if s.contains((n - 1) as usize) {
            before
        } else {
            before.push((n - 1) as usize)
        }
    }
}

/// The order that a list of indexes stands for: what is listed, each once, then the rest. A list
/// that is empty, or counts neither from zero nor from one, stands for none.
pub open spec fn prior_order(raw: Seq<usize>, d: nat) -> Option<Seq<usize>> {
    if raw.len() == 0 || !(zero_based(raw, d) || one_based(raw, d)) {
        None
    } else {
        Some(filled(firsts(shifted(raw, d)), d))
    }
}

proof fn firsts_once(s: Seq<usize>, d: nat)
    requires
        zero_based(s, d),
    ensures
        firsts(s).no_duplicates(),
        zero_based(firsts(s), d),
    decreases s.len(),
{
    if s.len() > 0 {
        let front = s.drop_last();
        assert(zero_based(front, d)) by {
            assert forall|i: int| 0 <= i < front.len() implies #[trigger] front[i] < d by {
                assert(front[i] == s[i]);
            }
        }
        firsts_once(front, d);
        assert(s[s.len() - 1] < d);
    }
}

proof fn filled_once(s: Seq<usize>, d: nat, n: nat)
    requires
        s.no_duplicates(),
        zero_based(s, d),
        n <= d <= usize::MAX,
    ensures
        filled(s, n).no_duplicates(),
        zero_based(filled(s, n), d),
        forall|x: usize| x < n ==> #[trigger] filled(s, n).contains(x),
        forall|x: usize| #[trigger]
            filled(s, n).contains(x) ==> s.contains(x) || x < n,
        s.len() <= filled(s, n).len(),
        filled(s, n).take(s.len() as int) == s,
    decreases n,
{
    if n == 0 {
        assert(s.take(s.len() as int) =~= s);
    } else {
        filled_once(s, d, (n - 1) as nat);
        let before = filled(s, (n - 1) as nat);
        let all = filled(s, n);
        let last = (n - 1) as usize;
        assert(all.take(s.len() as int) =~= before.take(s.len() as int));
        if s.contains(last) {
            let k = choose|k: int| 0 <= k < s.len() && s[k] == last;
            assert(before.take(s.len() as int)[k] == last);
            assert(before[k] == last);
            assert forall|x: usize| x < n implies #[trigger] all.contains(x) by {
                if x == last {
                    assert(all[k] == x);
                } else {
                    assert(before.contains(x));
                }
            }
        } else {
            assert(!before.contains(last));
            assert(all == before.push(last));
            assert(all[before.len() as int] == last);
            assert forall|x: usize| x < n implies #[trigger] all.contains(x) by {
                if x < last {
                    assert(before.contains(x));
                    let k = choose|k: int| 0 <= k < before.len() && before[k] == x;
                    assert(all[k] == x);
                }
            }
            assert forall|x: usize| #[trigger] all.contains(x) implies s.contains(x) || x < n by {
                let k = choose|k: int| 0 <= k < all.len() && all[k] == x;
                if k < before.len() {
                    assert(before[k] == x);
                    assert(before.contains(x));
                }
            }
        }
    }
}

/// Every order names each feature exactly once.
pub proof fn orders_are_complete(raw: Seq<usize>, d: nat)
    requires
        d <= usize::MAX,
        prior_order(raw, d) is Some,
    ensures
        (prior_order(raw, d)->0).len() == d,
        (prior_order(raw, d)->0).no_duplicates(),
        forall|x: usize| x < d ==> #[trigger] (prior_order(raw, d)->0).contains(x),
        zero_based(prior_order(raw, d)->0, d),
{
    let from_zero = shifted(raw, d);
    assert(zero_based(from_zero, d)) by {
        assert forall|i: int| 0 <= i < from_zero.len() implies #[trigger] from_zero[i] < d by {
            assert(one_based(raw, d) ==> from_zero[i] == (raw[i] - 1) as usize);
            assert(one_based(raw, d) ==> 1 <= raw[i] <= d);
        }
    }
    firsts_once(from_zero, d);
    filled_once(firsts(from_zero), d, d);
    let order = prior_order(raw, d)->0;
    let ints = order.map_values(|x: usize| x as int);
    vstd::set_lib::lemma_int_range(0, d as int);
    assert(ints.to_set() =~= vstd::set_lib::set_int_range(0, d as int)) by {
        assert forall|x: int| vstd::set_lib::set_int_range(0, d as int).contains(x) implies
            ints.to_set().contains(x) by {
            assert(order.contains(x as usize));
            let k = choose|k: int| 0 <= k < order.len() && order[k] == x as usize;
            assert(ints[k] == x);
        }
        assert forall|x: int| ints.to_set().contains(x) implies vstd::set_lib::set_int_range(
            0,
            d as int,
        ).contains(x) by {
            let k = choose|k: int| 0 <= k < ints.len() && ints[k] == x;
            assert(order[k] < d);
        }
    }
    assert(ints.no_duplicates());
    ints.unique_seq_to_set();
}

/// A list that counts from one stands for the same order as the list that counts from zero, unless
/// the latter can be read as counting from one as well.
pub proof fn counting_does_not_matter(raw: Seq<usize>, d: nat)
    requires
        raw.len() > 0,
        one_based(raw, d),
        !one_based(raw.map_values(|x: usize| (x - 1) as usize), d),
    ensures
        prior_order(raw, d) == prior_order(raw.map_values(|x: usize| (x - 1) as usize), d),
{
    let from_zero = raw.map_values(|x: usize| (x - 1) as usize);
    assert forall|i: int| 0 <= i < from_zero.len() implies #[trigger] from_zero[i] < d by {
        assert(1 <= raw[i] <= d);
    }
}

/// Does a list hold a number?
fn holds(list: &Vec<usize>, x: usize) -> (r: bool)
    ensures
        r == list@.contains(x),
{
    let mut i: usize = 0;
    while i < list.len()
        invariant
            i <= list@.len(),
            forall|k: int| 0 <= k < i ==> list@[k] != x,
        decreases list@.len() - i,
    {
        if list[i] == x {
            assert(list@[i as int] == x);
            return true;
        }
        i = i + 1;
    }
    false
}

/// The order that a list of indexes stands for: what is listed, each once, then the rest. A list
/// that is empty, or counts neither from zero nor from one, stands for none.
pub fn normalize_prior_order(raw: Vec<usize>, d: usize) -> (r: Option<Vec<usize>>)
    ensures
        match r {
            Some(order) => prior_order(raw@, d as nat) == Some(order@),
            None => prior_order(raw@, d as nat) is None,
        },
{
    if raw.len() == 0 {
        return None;
    }
    let mut from_zero: bool = true;
    let mut from_one: bool = true;
    let mut i: usize = 0;
    while i < raw.len()
        invariant
            i <= raw@.len(),
            from_zero == (forall|k: int| 0 <= k < i ==> #[trigger] raw@[k] < d),
            from_one == (forall|k: int| 0 <= k < i ==> 1 <= #[trigger] raw@[k] <= d),
        decreases raw@.len() - i,
    {
        if !(raw[i] < d) {
            from_zero = false;
        }
        if !(1 <= raw[i] && raw[i] <= d) {
            from_one = false;
        }
        i = i + 1;
    }
    assert(from_zero == zero_based(raw@, d as nat));
    assert(from_one == one_based(raw@, d as nat));
    if !from_zero && !from_one {
        return None;
    }
    let ghost indexes = shifted(raw@, d as nat);
    let mut order: Vec<usize> = Vec::new();
    let mut j: usize = 0;
    assert(indexes.take(0) =~= Seq::<usize>::empty());
    while j < raw.len()
        invariant
            j <= raw@.len(),
            from_one == one_based(raw@, d as nat),
            indexes == shifted(raw@, d as nat),
            order@ == firsts(indexes.take(j as int)),
        decreases raw@.len() - j,
    {
        let x: usize = if from_one {
            assert(1 <= raw@[j as int]);
            raw[j] - 1
        } else {
            raw[j]
        };
        assert(indexes.take(j + 1).drop_last() =~= indexes.take(j as int));
        assert(indexes.take(j + 1).last() == x);
        if !holds(&order, x) {
            order.push(x);
        }
        j = j + 1;
    }
    assert(indexes.take(raw@.len() as int) =~= indexes);
    let ghost listed = order@;
    let n: usize = order.len();
    let mut k: usize = 0;
    while k < d
        invariant
            k <= d,
            n == listed.len(),
            n <= order@.len(),
            order@.take(n as int) == listed,
            listed == firsts(indexes),
            order@ == filled(listed, k as nat),
            forall|y: usize| #[trigger] order@.contains(y) ==> listed.contains(y) || y < k,
            forall|y: usize| #[trigger] listed.contains(y) ==> order@.contains(y),
        decreases d - k,
    {
        let ghost before = order@;
        if !holds(&order, k) {
            assert(!listed.contains(k));
            order.push(k);
            proof {
                assert(order@.take(n as int) =~= before.take(n as int));
                assert forall|y: usize| #[trigger] order@.contains(y) implies listed.contains(y)
                    || y < k + 1 by {
                    let at = choose|at: int| 0 <= at < order@.len() && order@[at] == y;
                    if at < before.len() {
                        assert(before[at] == y);
                        assert(before.contains(y));
                    }
                }
                assert forall|y: usize| #[trigger] listed.contains(y) implies order@.contains(
                    y,
                ) by {
                    assert(before.contains(y));
                    let at = choose|at: int| 0 <= at < before.len() && before[at] == y;
                    assert(order@[at] == y);
                }
            }
        } else {
            assert(listed.contains(k));
        }
        k = k + 1;
    }
    Some(order)
}

/// The order that the text of an order file stands for, if it is a list of indexes that stands for
/// one.
pub fn parse_prior_order(text: &str, d: usize) -> (r: Option<Vec<usize>>)
    ensures
        match json_indexes(text@, usize::BITS) {
            Err(_) => r is None,
            Ok(raw) => match r {
                Some(order) => prior_order(raw, d as nat) == Some(order@),
                None => prior_order(raw, d as nat) is None,
            },
        },
{
    match parse_indexes(text) {
        Ok(raw) => normalize_prior_order(raw, d),
        Err(_) => None,
    }
}

/// The vectors of the single features in the given order, at most as many as there are features,
/// then the even vector.
pub open spec fn ordered_vectors(d: nat, order: Seq<usize>, uniform_weight: Double) -> Seq<
    Seq<Double>,
> {
    let shown = if order.len() > d {
        order.take(d as int)
    } else {
        order
    };
    shown.map_values(|i: usize| one_hot_of(d, i as int)).push(constant_of(d, uniform_weight))
}

/// The vectors of the single features in the given order, then the even vector.
pub fn default_candidates_with_order(d: usize, order: &Vec<usize>, uniform_weight: Double) -> (r:
    Vec<Vec<Double>>)
    ensures
        rows(r@) == ordered_vectors(d as nat, order@, uniform_weight),
{
    let n: usize = if order.len() > d {
        d
    } else {
        order.len()
    };
    let ghost wanted = ordered_vectors(d as nat, order@, uniform_weight);
    let mut r: Vec<Vec<Double>> = Vec::new();
    let mut i: usize = 0;
    while i < n
        invariant
            i <= n <= order@.len(),
            n == (if order@.len() > d {
                d as nat
            } else {
                order@.len()
            }),
            wanted == ordered_vectors(d as nat, order@, uniform_weight),
            r@.len() == i,
            forall|k: int| 0 <= k < i ==> (#[trigger] r@[k])@ == wanted[k],
        decreases n - i,
    {
        let v: Vec<Double> = one_hot(d, order[i]);
        assert(v@ == wanted[i as int]);
        r.push(v);
        i = i + 1;
    }
    r.push(uniform_vec(d, uniform_weight));
    assert(rows(r@) =~= wanted);
    r
}

/// The candidates of a file as they are used: each with as many weights as there are features,
/// and the even vector where the file lists none.
pub open spec fn fitted<
    E: Fn(usize) -> Double,
    N: Fn(&Vec<Double>) -> Double,
    O: Fn(Double, Double) -> Double,
    W: Fn(&Vec<Double>, &Vec<Double>) -> Double,
>(
    math: WeightMath<E, N, O, W>,
    listed: Seq<Seq<Double>>,
    d: usize,
    out: Seq<Seq<Double>>,
) -> bool {
    if listed.len() == 0 {
        out.len() == 1 && evened(math.even, d, out[0])
    } else {
        out.len() == listed.len() && forall|i: int|
            0 <= i < listed.len() ==> prepared(math, #[trigger] listed[i], d, out[i])
    }
}

/// The candidates of a file as they are used.
pub fn fit_candidates<
    E: Fn(usize) -> Double,
    N: Fn(&Vec<Double>) -> Double,
    O: Fn(Double, Double) -> Double,
    W: Fn(&Vec<Double>, &Vec<Double>) -> Double,
>(listed: &Vec<Vec<Double>>, d: usize, math: &WeightMath<E, N, O, W>) -> (r: Vec<Vec<Double>>)
    requires
        computable(*math),
    ensures
        fitted(*math, rows(listed@), d, rows(r@)),
{
    let mut r: Vec<Vec<Double>> = Vec::new();
    if listed.len() == 0 {
        let even: Vec<Double> = even_weights(d, &math.even);
        r.push(even);
        assert(rows(r@)[0] == even@);
        assert(rows(listed@).len() == 0);
        return r;
    }
    let mut i: usize = 0;
    while i < listed.len()
        invariant
            computable(*math),
            i <= listed@.len(),
            r@.len() == i,
            forall|k: int|
                #![trigger rows(listed@)[k]]
                0 <= k < i ==> prepared(*math, rows(listed@)[k], d, rows(r@)[k]),
        decreases listed@.len() - i,
    {
        let ghost before = r@;
        let v: Vec<Double> = prepare_v(&listed[i], d, math);
        assert(rows(listed@)[i as int] == listed@[i as int]@);
        r.push(v);
        assert(rows(r@) =~= rows(before).push(v@));
        i = i + 1;
    }
    r
}

/// The candidates of a file as they are used, from its text; `None` where it is no list of vectors.
pub fn parse_candidates<
    E: Fn(usize) -> Double,
    N: Fn(&Vec<Double>) -> Double,
    O: Fn(Double, Double) -> Double,
    W: Fn(&Vec<Double>, &Vec<Double>) -> Double,
>(text: &str, d: usize, math: &WeightMath<E, N, O, W>) -> (r: Option<Vec<Vec<Double>>>)
    requires
        computable(*math),
    ensures
        match json_rows(text@) {
            Ok(listed) => r is Some && fitted(*math, listed, d, rows((r->0)@)),
            Err(_) => r is None,
        },
{
    match parse_rows(text) {
        Ok(listed) => Some(fit_candidates(&listed, d, math)),
        Err(_) => None,
    }
}

/// Vectors with alpha in front of each.
pub open spec fn behind_alpha(alpha: Double, vs: Seq<Seq<Double>>) -> Seq<Seq<Double>> {
    vs.map_values(|v: Seq<Double>| seq![alpha] + v)
}

/// The candidates that a run starts with: those of the file, else the single features in the given
/// order, or the usual one, and the even vector last.
pub open spec fn starting_candidates(
    prior: Option<Seq<usize>>,
    file: Option<Seq<Seq<Double>>>,
    alpha_init: Double,
    uniform_weight: Double,
) -> Seq<Seq<Double>> {
    let order = match prior {
        Some(order) => order,
        None => usual_order(),
    };
    let vs = match file {
        Some(vs) if vs.len() > 0 => vs,
        _ => ordered_vectors(ATTRS as nat, order, uniform_weight),
    };
    behind_alpha(starting_alpha(alpha_init), vs)
}

/// Sees to it that there are candidates. `prior` is the order of an order file and `file` the
/// fitted candidates of a candidate file, `None` where there is no such file or it is of no use.
/// `even` gives the weight of each of so many features in the even vector.
pub fn ensure_v_candidates_for<E: Fn(usize) -> Double>(
    state: &mut SchedulerState,
    prior: Option<Vec<usize>>,
    file: Option<Vec<Vec<Double>>>,
    even: &E,
)
    requires
        call_requires(*even, (ATTRS,)),
    ensures
        exists|w: Double| #[trigger]
            call_ensures(*even, (ATTRS,), w) && final(state)@ == with_candidates(
                old(state)@,
                starting_candidates(
                    match prior {
                        Some(order) => Some(order@),
                        None => None,
                    },
                    match file {
                        Some(vs) => Some(rows(vs@)),
                        None => None,
                    },
                    old(state)@.globals.alpha_init,
                    w,
                ),
            ),
{
    let uniform_weight: Double = even(ATTRS);
    if get_v_candidates(state).len() > 0 {
        return ;
    }
    let order: Vec<usize> = match prior {
        Some(order) => order,
        None => default_prior(),
    };
    let mut listed: Vec<Vec<Double>> = Vec::new();
    match file {
        Some(vs) => {
            listed = vs;
        },
        None => {},
    }
    let vs: Vec<Vec<Double>> = if listed.len() > 0 {
        listed
    } else {
        default_candidates_with_order(ATTRS, &order, uniform_weight)
    };
    assert(rows(vs@).len() > 0);
    let alpha: Double = initial_alpha(get_alpha_init(state));
    let mut cands: Vec<Vec<Double>> = Vec::new();
    let mut i: usize = 0;
    while i < vs.len()
        invariant
            i <= vs@.len(),
            cands@.len() == i,
            forall|k: int| 0 <= k < i ==> (#[trigger] cands@[k])@ == seq![alpha] + vs@[k]@,
        decreases vs@.len() - i,
    {
        cands.push(with_alpha(alpha, &vs[i]));
        i = i + 1;
    }
    assert(rows(cands@) =~= behind_alpha(alpha, rows(vs@)));
    let first: Vec<Double> = copy_numbers(&cands[0]);
    assert(first@ == rows(cands@)[0]);
    replace_v_candidates(state, cands);
    if get_current_weight_vec(state).len() == 0 {
        set_current_weight_vec(state, first);
    }
}

/// What is wrong with a feature map.
pub ghost enum DimFault {
    /// The feature at this place is missing.
    Missing(int),
    /// The array of the feature at this place is not as long as the first one.
    Length(int),
}

/// The first feature that is missing, from place `i` on.
pub open spec fn first_missing(map: Map<Seq<char>, Seq<Double>>, i: int) -> Option<int>
    decreases ATTRS - i,
{
    if i >= ATTRS {
        None
    } else if !map.dom().contains(attr_names()[i]) {
        Some(i)
    } else {
        first_missing(map, i + 1)
    }
}

/// The first feature whose array has another length than the first one, from place `i` on.
pub open spec fn first_uneven(map: Map<Seq<char>, Seq<Double>>, i: int) -> Option<int>
    decreases ATTRS - i,
{
    if i >= ATTRS {
        None
    } else if map[attr_names()[i]].len() != map[attr_names()[0]].len() {
        Some(i)
    } else {
        first_uneven(map, i + 1)
    }
}

/// What is wrong with a feature map, if anything is.
pub open spec fn dim_fault(map: Map<Seq<char>, Seq<Double>>) -> Option<DimFault> {
    match first_missing(map, 0) {
        Some(i) => Some(DimFault::Missing(i)),
        None => match first_uneven(map, 0) {
            Some(i) => Some(DimFault::Length(i)),
            None => None,
        },
    }
}

/// What is said about a fault.
pub open spec fn dim_fault_text(map: Map<Seq<char>, Seq<Double>>, f: DimFault) -> Seq<char> {
    match f {
        DimFault::Missing(i) => "error: missing feature dimension '"@ + attr_names()[i] + "'"@,
        DimFault::Length(i) => "error: feature dimension length mismatch: '"@ + attr_names()[i]
            + "' has len "@ + decimal(map[attr_names()[i]].len()) + ", expected "@ + decimal(
            map[attr_names()[0]].len(),
        ),
    }
}

/// A faultless map holds all features, with arrays of one length.
pub proof fn faultless_maps_are_even(map: Map<Seq<char>, Seq<Double>>)
    requires
        dim_fault(map) is None,
    ensures
        forall|i: int|
            0 <= i < ATTRS ==> map.dom().contains(#[trigger] attr_names()[i])
                && map[attr_names()[i]].len() == map[attr_names()[0]].len(),
{
    none_missing(map, 0);
    none_uneven(map, 0);
}

proof fn none_missing(map: Map<Seq<char>, Seq<Double>>, i: int)
    requires
        0 <= i,
        first_missing(map, i) is None,
    ensures
        forall|k: int| i <= k < ATTRS ==> map.dom().contains(#[trigger] attr_names()[k]),
    decreases ATTRS - i,
{
    if i < ATTRS {
        none_missing(map, i + 1);
    }
}

proof fn none_uneven(map: Map<Seq<char>, Seq<Double>>, i: int)
    requires
        0 <= i,
        first_uneven(map, i) is None,
    ensures
        forall|k: int|
            i <= k < ATTRS ==> map[#[trigger] attr_names()[k]].len() == map[attr_names()[0]].len(),
    decreases ATTRS - i,
{
    if i < ATTRS {
        none_uneven(map, i + 1);
    }
}

/// Is a feature map complete and even?
fn check_dims(map: &Table<Vec<Double>>, names: &Vec<String>) -> (r: Result<(), String>)
    requires
        texts(names@) == attr_names(),
        names@.len() == ATTRS,
    ensures
        match r {
            Ok(_) => dim_fault(arrays(map@)) is None,
            Err(e) => dim_fault(arrays(map@)) is Some && e@ == dim_fault_text(
                arrays(map@),
                dim_fault(arrays(map@))->0,
            ),
        },
{
    let ghost m = arrays(map@);
    let mut i: usize = 0;
    while i < ATTRS
        invariant
            i <= ATTRS,
            m == arrays(map@),
            texts(names@) == attr_names(),
            names@.len() == ATTRS,
            first_missing(m, 0) == first_missing(m, i as int),
            forall|k: int| 0 <= k < i ==> m.dom().contains(#[trigger] attr_names()[k]),
        decreases ATTRS - i,
    {
        assert(attr_names()[i as int] == names@[i as int]@);
        if !map.contains(&names[i]) {
            let mut e: String = "error: missing feature dimension '".to_owned();
            e.append(names[i].as_str());
            e.append("'");
            return Err(e);
        }
        i = i + 1;
    }
    assert(attr_names()[0] == names@[0]@);
    assert(m.dom().contains(attr_names()[0]));
    let expected: usize = match map.get(&names[0]) {
        Some(array) => {
            assert(m[attr_names()[0]] == array@);
            array.len()
        },
        None => 0,
    };
    let mut j: usize = 0;
    while j < ATTRS
        invariant
            j <= ATTRS,
            m == arrays(map@),
            texts(names@) == attr_names(),
            names@.len() == ATTRS,
            expected == m[attr_names()[0]].len(),
            first_missing(m, 0) is None,
            first_uneven(m, 0) == first_uneven(m, j as int),
            forall|k: int| 0 <= k < ATTRS ==> m.dom().contains(#[trigger] attr_names()[k]),
        decreases ATTRS - j,
    {
        assert(attr_names()[j as int] == names@[j as int]@);
        assert(m.dom().contains(attr_names()[j as int]));
        match map.get(&names[j]) {
            Some(array) => {
                assert(m[attr_names()[j as int]] == array@);
                if array.len() != expected {
                    let mut e: String =
                        "error: feature dimension length mismatch: '".to_owned();
                    e.append(names[j].as_str());
                    e.append("' has len ");
                    e.append(decimal_text(array.len() as u64).as_str());
                    e.append(", expected ");
                    e.append(decimal_text(expected as u64).as_str());
                    return Err(e);
                }
            },
            None => {},
        }
        j = j + 1;
    }
    Ok(())
}

/// One weight for every coverage site, by the given weights of the features. A map that lacks a
/// feature, or whose arrays differ in length, is an error.
pub fn combine_feature_matrix_to_weights<
    E: Fn(usize) -> Double,
    N: Fn(&Vec<Double>) -> Double,
    O: Fn(Double, Double) -> Double,
    W: Fn(&Vec<Double>, &Vec<Double>) -> Double,
>(map: &Table<Vec<Double>>, v_in: &Vec<Double>, math: &WeightMath<E, N, O, W>) -> (r: Result<
    Vec<Double>,
    String,
>)
    requires
        computable(*math),
    ensures
        match r {
            Ok(feats) => dim_fault(arrays(map@)) is None && combined(
                *math,
                arrays(map@),
                v_in@,
                attr_names(),
                feats@,
            ),
            Err(e) => dim_fault(arrays(map@)) is Some && e@ == dim_fault_text(
                arrays(map@),
                dim_fault(arrays(map@))->0,
            ),
        },
{
    let names: Vec<String> = attr_order();
    match check_dims(map, &names) {
        Ok(_) => Ok(weights::combine_feature_matrix_to_weights(map, v_in, &names, math)),
        Err(e) => Err(e),
    }
}

/// A feature map as a file may hold it.
pub enum FeatsJson {
    /// One weight for each coverage site.
    Raw(Vec<Double>),
    /// The same under one key.
    Obj { features: Vec<Double> },
    /// An array for each feature.
    Dict(Table<Vec<Double>>),
}

/// What a feature map gives: weights of the coverage sites, and the arrays where there are any.
pub open spec fn loaded<
    E: Fn(usize) -> Double,
    N: Fn(&Vec<Double>) -> Double,
    O: Fn(Double, Double) -> Double,
    W: Fn(&Vec<Double>, &Vec<Double>) -> Double,
>(
    math: WeightMath<E, N, O, W>,
    parsed: FeatsJson,
    first: Seq<Double>,
    feats: Seq<Double>,
    matrix: Option<Map<Seq<char>, Seq<Double>>>,
) -> bool {
    match parsed {
        FeatsJson::Raw(feat) => feats == feat@ && matrix is None,
        FeatsJson::Obj { features } => feats == features@ && matrix is None,
        FeatsJson::Dict(map) => combined(math, arrays(map@), first, attr_names(), feats) && matrix
            == Some(arrays(map@)),
    }
}

/// The state once a feature map is loaded: only arrays by feature allow the search, and then the
/// first weights are those in use.
pub open spec fn after_loading(s: StateView, parsed: FeatsJson, first: Seq<Double>) -> StateView {
    let told = StateView {
        globals: GlobalsView { tpe_satisfied: parsed is Dict, ..s.globals },
        ..s
    };
    if parsed is Dict {
        using_weights(told, first)
    } else {
        told
    }
}

/// The arrays that were handed out.
pub open spec fn matrix_of(matrix: Option<Table<Vec<Double>>>) -> Option<
    Map<Seq<char>, Seq<Double>>,
> {
    match matrix {
        Some(m) => Some(arrays(m@)),
        None => None,
    }
}

/// Takes a feature map into use. Gives the weights of the coverage sites, fitted to their number,
/// and the arrays by feature where the map has them. Faulty arrays are an error, and then nothing
/// changes.
pub fn load_and_align_features_map<
    E: Fn(usize) -> Double,
    N: Fn(&Vec<Double>) -> Double,
    O: Fn(Double, Double) -> Double,
    W: Fn(&Vec<Double>, &Vec<Double>) -> Double,
>(
    state: &mut SchedulerState,
    parsed: FeatsJson,
    sites: usize,
    math: &WeightMath<E, N, O, W>,
) -> (r: Result<(Vec<Double>, Option<Table<Vec<Double>>>), String>)
    requires
        computable(*math),
        old(state)@.globals.v_candidates.len() > 0 ==> old(
            state,
        )@.globals.v_candidates[0].len() > 0,
    ensures
        r is Err <==> (parsed matches FeatsJson::Dict(map) && dim_fault(arrays(map@)) is Some),
        match r {
            Ok(p) => exists|first: Seq<Double>, feats: Seq<Double>|
                {
                    &&& #[trigger] first_weights(
                        math.even,
                        old(state)@.globals.v_candidates,
                        ATTRS,
                        first,
                    )
                    &&& #[trigger] loaded(*math, parsed, first, feats, matrix_of(p.1))
                    &&& p.0@ == aligned(feats, sites as nat)
                    &&& final(state)@ == after_loading(old(state)@, parsed, first)
                },
            Err(e) => parsed matches FeatsJson::Dict(map) && e@ == dim_fault_text(
                arrays(map@),
                dim_fault(arrays(map@))->0,
            ) && final(state)@ == old(state)@,
        },
{
    let first: Vec<Double> = initial_weights(state, ATTRS, &math.even);
    let ghost whole = parsed;
    match parsed {
        FeatsJson::Raw(feat) => {
            set_tpe_satisfied(state, false);
            let none: Option<Table<Vec<Double>>> = None;
            assert(loaded(*math, whole, first@, feat@, matrix_of(none)));
            Ok((align(feat, sites), none))
        },
        FeatsJson::Obj { features } => {
            set_tpe_satisfied(state, false);
            let none: Option<Table<Vec<Double>>> = None;
            assert(loaded(*math, whole, first@, features@, matrix_of(none)));
            Ok((align(features, sites), none))
        },
        FeatsJson::Dict(map) => match combine_feature_matrix_to_weights(&map, &first, math) {
            Ok(feats) => {
                set_tpe_satisfied(state, true);
                use_weights(state, &first);
                let out: Option<Table<Vec<Double>>> = Some(map);
                assert(loaded(*math, whole, first@, feats@, matrix_of(out)));
                Ok((align(feats, sites), out))
            },
            Err(e) => Err(e),
        },
    }
}

/// Applies weights for the features: combines the feature map anew, and makes the weights those
/// in use unless there are none. A faulty map is an error, and then nothing changes.
pub fn apply_v_to_features<
    E: Fn(usize) -> Double,
    N: Fn(&Vec<Double>) -> Double,
    O: Fn(Double, Double) -> Double,
    W: Fn(&Vec<Double>, &Vec<Double>) -> Double,
>(state: &mut SchedulerState, v: &Vec<Double>, math: &WeightMath<E, N, O, W>) -> (r: Result<
    (),
    String,
>)
    requires
        computable(*math),
    ensures
        r is Err <==> old(state)@.matrix is Some && dim_fault((old(state)@.matrix->0).columns) is Some,
        match r {
            Ok(_) => final(state)@.feats is Some && reapplied(
                *math,
                old(state)@,
                v@,
                attr_names(),
                final(state)@.feats->0,
            ) && final(state)@ == with_weights(old(state)@, v@, final(state)@.feats->0),
            Err(e) => e@ == dim_fault_text(
                (old(state)@.matrix->0).columns,
                dim_fault((old(state)@.matrix->0).columns)->0,
            ) && final(state)@ == old(state)@,
        },
{
    let names: Vec<String> = attr_order();
    match &state.features_matrix {
        Some(m) => match check_dims(&m.matrix, &names) {
            Ok(_) => {},
            Err(e) => {
                return Err(e);
            },
        },
        None => {},
    }
    apply_weights(state, v, &names, math);
    Ok(())
}

/// Of numbers that come once each nothing is left out.
proof fn firsts_of_distinct(s: Seq<usize>)
    requires
        s.no_duplicates(),
    ensures
        firsts(s) == s,
    decreases s.len(),
{
    if s.len() > 0 {
        let front = s.drop_last();
        assert forall|i: int, j: int|
            0 <= i < front.len() && 0 <= j < front.len() && i != j implies front[i] != front[j] by {
            assert(s[i] != s[j]);
        }
        firsts_of_distinct(front);
        if front.contains(s.last()) {
            let i = front.index_of(s.last());
            assert(s[i] == s[s.len() - 1]);
        }
        assert(firsts(s) =~= s);
    } else {
        assert(firsts(s) =~= s);
    }
}

/// What is filled in rises.
proof fn filled_rises(s: Seq<usize>, n: nat)
    requires
        n <= usize::MAX,
    ensures
        s.len() <= filled(s, n).len(),
        filled(s, n).take(s.len() as int) == s,
        forall|i: int| s.len() <= i < filled(s, n).len() ==> #[trigger] filled(s, n)[i] < n,
        forall|i: int, j: int|
            s.len() <= i < j < filled(s, n).len() ==> #[trigger] filled(s, n)[i]
                < #[trigger] filled(s, n)[j],
    decreases n,
{
    if n == 0 {
        assert(s.take(s.len() as int) =~= s);
    } else {
        filled_rises(s, (n - 1) as nat);
        assert(filled(s, n).take(s.len() as int) =~= filled(s, (n - 1) as nat).take(
            s.len() as int,
        ));
    }
}

/// Of repeated numbers the first one counts.
pub proof fn repeated_features_count_once(s: Seq<usize>, x: usize)
    ensures
        firsts(s).contains(x) <==> s.contains(x),
        s.contains(x) ==> firsts(s.push(x)) == firsts(s),
        !s.contains(x) ==> firsts(s.push(x)) == firsts(s).push(x),
    decreases s.len(),
{
    assert(s.push(x).drop_last() =~= s);
    if s.len() > 0 {
        repeated_features_count_once(s.drop_last(), x);
        let before = firsts(s.drop_last());
        let front = s.drop_last();
        if front.contains(x) {
            let i = front.index_of(x);
            assert(s[i] == x);
            let k = before.index_of(x);
            assert(firsts(s)[k] == x);
        }
        if s.last() == x {
            assert(s.contains(x));
            if !before.contains(x) {
                assert(firsts(s)[before.len() as int] == x);
            }
        }
        if s.contains(x) && s.last() != x {
            let i = s.index_of(x);
            assert(front[i] == x);
        }
        if firsts(s).contains(x) {
            let k = firsts(s).index_of(x);
            if k < before.len() {
                assert(before[k] == x);
            }
        }
    }
}

/// Features that are listed once each come first, in the order in which they are listed, whether they
/// are counted from 0 or from 1. All others follow in the order of their numbers.
pub proof fn listed_features_come_first(raw: Seq<usize>, d: nat, i: int, j: int)
    requires
        raw.len() > 0,
        raw.no_duplicates(),
        d <= usize::MAX,
        zero_based(raw, d) && raw.contains(0) || one_based(raw, d),
        0 <= i < raw.len(),
        raw.len() <= j < d,
    ensures
        prior_order(raw, d) is Some,
        (prior_order(raw, d)->0).len() == d,
        one_based(raw, d) ==> (prior_order(raw, d)->0)[i] == raw[i] - 1,
        !one_based(raw, d) ==> (prior_order(raw, d)->0)[i] == raw[i],
        j > raw.len() ==> (prior_order(raw, d)->0)[j - 1] < (prior_order(raw, d)->0)[j],
{
    if raw.contains(0) {
        let k = raw.index_of(0);
        assert(raw[k] == 0);
        assert(!one_based(raw, d));
    }
    let s = shifted(raw, d);
    assert forall|a: int, b: int| 0 <= a < s.len() && 0 <= b < s.len() && a != b implies s[a]
        != s[b] by {
        assert(raw[a] != raw[b]);
        if one_based(raw, d) {
            assert(1 <= raw[a] && 1 <= raw[b]);
        }
    }
    firsts_of_distinct(s);
    filled_rises(s, d);
    orders_are_complete(raw, d);
    assert(filled(s, d).take(s.len() as int)[i] == s[i]);
    if one_based(raw, d) {
        assert(1 <= raw[i]);
    }
}

/// An order is refused exactly where it is empty, names a feature beyond the last, or names both the
/// one before the first and the one behind the last.
pub proof fn prior_orders_are_told_apart(raw: Seq<usize>, d: nat)
    ensures
        prior_order(raw, d) is None <==> raw.len() == 0 || (exists|i: int|
            0 <= i < raw.len() && #[trigger] raw[i] > d) || ((exists|i: int|
            0 <= i < raw.len() && #[trigger] raw[i] == d) && (exists|i: int|
            0 <= i < raw.len() && #[trigger] raw[i] == 0)),
{
    if raw.len() > 0 && !zero_based(raw, d) {
        let i = choose|i: int| 0 <= i < raw.len() && !(#[trigger] raw[i] < d);
        assert(raw[i] >= d);
    }
    if raw.len() > 0 && !one_based(raw, d) {
        let i = choose|i: int| 0 <= i < raw.len() && !(1 <= #[trigger] raw[i] <= d);
        assert(raw[i] == 0 || raw[i] > d);
    }
}

/// There is one vector for each feature of the order, with the weight 1 for this feature and 0 for all
/// others, and behind them one with the same weight everywhere.
pub proof fn vectors_follow_the_order(
    d: nat,
    order: Seq<usize>,
    uniform_weight: Double,
    i: int,
    j: int,
)
    requires
        order.len() <= d,
        0 <= i <= order.len(),
        0 <= j < d,
    ensures
        ordered_vectors(d, order, uniform_weight).len() == order.len() + 1,
        ordered_vectors(d, order, uniform_weight)[i].len() == d,
        i < order.len() && order[i] == j ==> ordered_vectors(d, order, uniform_weight)[i][j] == (
        Double { bits: 0x3FF0_0000_0000_0000 }),
        i < order.len() && order[i] != j ==> ordered_vectors(d, order, uniform_weight)[i][j] == (
        Double { bits: 0 }),
        i == order.len() ==> ordered_vectors(d, order, uniform_weight)[i][j] == uniform_weight,
{
}

/// The candidates of a file are scaled each for itself, in their order. A file that lists none gives one
/// candidate with the same weight everywhere.
pub proof fn file_candidates_are_scaled<
    E: Fn(usize) -> Double,
    N: Fn(&Vec<Double>) -> Double,
    O: Fn(Double, Double) -> Double,
    W: Fn(&Vec<Double>, &Vec<Double>) -> Double,
>(
    math: WeightMath<E, N, O, W>,
    listed: Seq<Seq<Double>>,
    d: usize,
    out: Seq<Seq<Double>>,
    i: int,
    length: Double,
)
    requires
        fitted(math, listed, d, out),
        0 <= i < listed.len(),
        listed[i].len() == d,
        forall|j: int|
            0 <= j < d ==> (Double { bits: 0 }).at_most(#[trigger] listed[i][j])
                && listed[i][j].at_most(Double { bits: 0x3FF0_0000_0000_0000 }),
        forall|z: &Vec<Double>, x: Double|
            z@ == listed[i] && #[trigger] call_ensures(math.norm, (z,), x) ==> x == length,
        (Double { bits: 0 }).below(length),
    ensures
        out.len() == listed.len(),
        out[i].len() == d,
        forall|j: int|
            0 <= j < d ==> call_ensures(math.over, (listed[i][j], length), #[trigger] out[i][j]),
{
    crate::feature_sched::weights::weights_are_scaled_in_place(math, listed[i], d, length, out[i]);
}

/// A file that lists no candidate gives one with the same weight everywhere.
pub proof fn empty_files_give_even_weights<
    E: Fn(usize) -> Double,
    N: Fn(&Vec<Double>) -> Double,
    O: Fn(Double, Double) -> Double,
    W: Fn(&Vec<Double>, &Vec<Double>) -> Double,
>(
    math: WeightMath<E, N, O, W>,
    d: usize,
    w: Double,
    out: Seq<Seq<Double>>,
    j: int,
)
    requires
        fitted(math, Seq::<Seq<Double>>::empty(), d, out),
        forall|x: Double| #[trigger] call_ensures(math.even, (d,), x) ==> x == w,
        0 <= j < d,
    ensures
        out.len() == 1,
        out[0].len() == d,
        out[0][j] == w,
{
    assert(evened(math.even, d, out[0]));
}

/// A run starts with the candidates of its file, in their order and behind the initial alpha. Without
/// any it starts with one vector for each of the eight features in the given order, and the even one
/// comes last.
pub proof fn runs_start_in_order(
    prior: Option<Seq<usize>>,
    file: Option<Seq<Seq<Double>>>,
    alpha_init: Double,
    w: Double,
    i: int,
    j: int,
)
    requires
        prior matches Some(order) ==> order.len() == 8,
        0 <= j < 8,
        0 <= i,
    ensures
        ({
            let cands = starting_candidates(prior, file, alpha_init, w);
            let alpha = starting_alpha(alpha_init);
            &&& file is Some && (file->0).len() > 0 ==> cands.len() == (file->0).len() && (i
                < cands.len() ==> cands[i] == seq![alpha] + (file->0)[i])
            &&& file is None || (file->0).len() == 0 ==> cands.len() == 9 && (i <= 8
                ==> cands[i].len() == 9 && cands[i][0] == alpha)
            &&& (file is None || (file->0).len() == 0) && i < 8 ==> ({
                let x = match prior {
                    Some(order) => order[i],
                    None => seq![6usize, 0, 5, 1, 2, 3, 4, 7][i],
                };
                cands[i][1 + j] == if x == j {
                    Double { bits: 0x3FF0_0000_0000_0000 }
                } else {
                    Double { bits: 0 }
                }
            })
            &&& (file is None || (file->0).len() == 0) && i == 8 ==> cands[i][1 + j] == w
        }),
{
    let order = match prior {
        Some(order) => order,
        None => usual_order(),
    };
    assert(order.len() == 8);
    if file is None || (file->0).len() == 0 {
        assert(starting_candidates(prior, file, alpha_init, w) == behind_alpha(
            starting_alpha(alpha_init),
            ordered_vectors(8, order, w),
        ));
        if i <= 8 {
            vectors_follow_the_order(8, order, w, i, j);
        }
    }
}

/// Nothing is missing where every feature is there.
proof fn nothing_missing(map: Map<Seq<char>, Seq<Double>>, i: int)
    requires
        0 <= i,
        forall|k: int| 0 <= k < ATTRS ==> map.dom().contains(#[trigger] attr_names()[k]),
    ensures
        first_missing(map, i) is None,
    decreases ATTRS - i,
{
    if i < ATTRS {
        assert(map.dom().contains(attr_names()[i]));
        nothing_missing(map, i + 1);
    }
}

/// Nothing is uneven where all arrays are as long as the first one.
proof fn nothing_uneven(map: Map<Seq<char>, Seq<Double>>, i: int)
    requires
        0 <= i,
        forall|k: int|
            0 <= k < ATTRS ==> map[#[trigger] attr_names()[k]].len() == map[attr_names()[0]].len(),
    ensures
        first_uneven(map, i) is None,
    decreases ATTRS - i,
{
    if i < ATTRS {
        assert(map[attr_names()[i]].len() == map[attr_names()[0]].len());
        nothing_uneven(map, i + 1);
    }
}

/// What is missing first is missing, and nothing before it.
proof fn missing_at_first(map: Map<Seq<char>, Seq<Double>>, i: int)
    requires
        0 <= i,
    ensures
        first_missing(map, i) matches Some(k) ==> i <= k < ATTRS && !map.dom().contains(
            attr_names()[k],
        ) && forall|m: int| i <= m < k ==> map.dom().contains(#[trigger] attr_names()[m]),
    decreases ATTRS - i,
{
    if i < ATTRS {
        missing_at_first(map, i + 1);
    }
}

/// What is uneven first is uneven, and nothing before it.
proof fn uneven_at_first(map: Map<Seq<char>, Seq<Double>>, i: int)
    requires
        0 <= i,
    ensures
        first_uneven(map, i) matches Some(k) ==> i <= k < ATTRS && map[attr_names()[k]].len()
            != map[attr_names()[0]].len() && forall|m: int|
            i <= m < k ==> map[#[trigger] attr_names()[m]].len() == map[attr_names()[0]].len(),
    decreases ATTRS - i,
{
    if i < ATTRS {
        uneven_at_first(map, i + 1);
    }
}

/// A feature map is accepted exactly where it has all eight features and their arrays have one length.
/// Of a map that is not, the first feature that is missing is told, and where none is missing the first
/// whose array has another length than that of the first feature.
pub proof fn dims_are_told_apart(map: Map<Seq<char>, Seq<Double>>)
    ensures
        attr_names().len() == 8,
        dim_fault(map) is None <==> forall|k: int|
            0 <= k < 8 ==> map.dom().contains(#[trigger] attr_names()[k])
                && map[attr_names()[k]].len() == map[attr_names()[0]].len(),
        dim_fault(map) matches Some(DimFault::Missing(k)) ==> 0 <= k < 8 && !map.dom().contains(
            attr_names()[k],
        ) && forall|m: int| 0 <= m < k ==> map.dom().contains(#[trigger] attr_names()[m]),
        dim_fault(map) matches Some(DimFault::Length(k)) ==> 0 <= k < 8
            && map[attr_names()[k]].len() != map[attr_names()[0]].len() && forall|m: int|
            0 <= m < 8 ==> map.dom().contains(#[trigger] attr_names()[m]),
{
    missing_at_first(map, 0);
    uneven_at_first(map, 0);
    if first_missing(map, 0) is None {
        none_missing(map, 0);
    }
    if dim_fault(map) is None {
        faultless_maps_are_even(map);
    }
    if forall|k: int|
        0 <= k < 8 ==> map.dom().contains(#[trigger] attr_names()[k]) && map[attr_names()[k]].len()
            == map[attr_names()[0]].len() {
        nothing_missing(map, 0);
        nothing_uneven(map, 0);
    }
}

/// A map that lists one number for each site gives these numbers as they are, and the search is not
/// allowed. A map with an array for each feature is combined with the first weights: those are in use
/// from then on, the search is allowed, and the arrays are kept. Nothing else changes.
pub proof fn loading_takes_numbers_or_arrays<
    E: Fn(usize) -> Double,
    N: Fn(&Vec<Double>) -> Double,
    O: Fn(Double, Double) -> Double,
    W: Fn(&Vec<Double>, &Vec<Double>) -> Double,
>(
    math: WeightMath<E, N, O, W>,
    s: StateView,
    parsed: FeatsJson,
    first: Seq<Double>,
    feats: Seq<Double>,
    matrix: Option<Map<Seq<char>, Seq<Double>>>,
)
    requires
        loaded(math, parsed, first, feats, matrix),
    ensures
        parsed matches FeatsJson::Raw(numbers) ==> feats == numbers@ && matrix is None,
        parsed matches FeatsJson::Obj { features } ==> feats == features@ && matrix is None,
        parsed matches FeatsJson::Dict(map) ==> matrix == Some(arrays(map@)) && combined(
            math,
            arrays(map@),
            first,
            attr_names(),
            feats,
        ),
        ({
            let t = after_loading(s, parsed, first);
            &&& t.globals.tpe_satisfied <==> parsed is Dict
            &&& parsed is Dict ==> t.globals.current_v == seq![s.globals.factor_params.alpha.unit()]
                + first
            &&& !(parsed is Dict) ==> t.globals.current_v == s.globals.current_v
            &&& t == (StateView {
                globals: GlobalsView {
                    tpe_satisfied: t.globals.tpe_satisfied,
                    current_v: t.globals.current_v,
                    ..s.globals
                },
                ..s
            })
        }),
{
}

/// A map that lists one number for each site is loaded as it is: cut or filled with 0 to the number of
/// sites, and without arrays.
pub proof fn listed_numbers_are_loaded<
    E: Fn(usize) -> Double,
    N: Fn(&Vec<Double>) -> Double,
    O: Fn(Double, Double) -> Double,
    W: Fn(&Vec<Double>, &Vec<Double>) -> Double,
>(
    state: &mut SchedulerState,
    numbers: Vec<Double>,
    sites: usize,
    math: WeightMath<E, N, O, W>,
    r: Result<(Vec<Double>, Option<Table<Vec<Double>>>), String>,
    i: int,
)
    requires
        call_ensures(
            load_and_align_features_map::<E, N, O, W>,
            (state, FeatsJson::Raw(numbers), sites, &math),
            r,
        ),
        0 <= i < sites,
    ensures
        r is Ok,
        (r->Ok_0).0@.len() == sites,
        (r->Ok_0).0@[i] == (if i < numbers@.len() {
            numbers@[i]
        } else {
            Double { bits: 0 }
        }),
        (r->Ok_0).1 is None,
        !final(state)@.globals.tpe_satisfied,
        final(state)@.globals.current_v == old(state)@.globals.current_v,
{
}

/// Seeing to it that there are candidates takes those of a file, in their order and behind the initial
/// alpha, and keeps those that are there.
pub proof fn candidates_come_from_the_file<E: Fn(usize) -> Double>(
    state: &mut SchedulerState,
    prior: Option<Vec<usize>>,
    file: Vec<Vec<Double>>,
    even: E,
    i: int,
)
    requires
        call_ensures(
            ensure_v_candidates_for::<E>,
            (state, prior, Some(file), &even),
            (),
        ),
        0 <= i < file@.len(),
    ensures
        old(state)@.globals.v_candidates.len() > 0 ==> final(state)@ == old(state)@,
        old(state)@.globals.v_candidates.len() == 0 ==> final(state)@.globals.v_candidates.len()
            == file@.len() && final(state)@.globals.v_candidates[i] == seq![
            starting_alpha(old(state)@.globals.alpha_init),
        ] + file@[i]@,
{
}

} // verus!
