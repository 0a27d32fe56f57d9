//! The weight vectors to be tried: those of a file, or else the uniform vector and one vector for
//! each active feature.

use vstd::prelude::*;

use super::metadata::{copy_numbers, rows};
use super::schema::set_count;
use super::{
    get_alpha_init, get_current_weight_vec, get_v_candidates, replace_v_candidates,
    set_current_weight_vec, SchedulerState, StateView,
};
use super::metadata::GlobalsView;
use crate::double::{Double, HALF_BITS, ONE_BITS};
use crate::json::{json_indexes, json_rows, parse_indexes, parse_rows};
use crate::text::{decimal, decimal_text};

verus! {

/// A vector of length `d` that is 1 at one place and 0 elsewhere; all 0 if there is no such place.
pub open spec fn one_hot_of(d: nat, idx: int) -> Seq<Double> {
    Seq::new(
        d,
        |i: int|
            if i == idx {
                Double { bits: ONE_BITS }
            } else {
                Double { bits: 0 }
            },
    )
}

/// A vector of length `d` with the same weight everywhere.
pub open spec fn constant_of(d: nat, weight: Double) -> Seq<Double> {
    Seq::new(d, |i: int| weight)
}

/// A vector that is 1 at one place and 0 elsewhere.
pub fn one_hot(d: usize, idx: usize) -> (r: Vec<Double>)
    ensures
        r@ == one_hot_of(d as nat, idx as int),
{
    let mut r: Vec<Double> = Vec::new();
    let mut i: usize = 0;
    while i < d
        invariant
            i <= d,
            r@.len() == i,
            forall|k: int| 0 <= k < i ==> r@[k] == one_hot_of(d as nat, idx as int)[k],
        decreases d - i,
    {
        r.push(
            if i == idx {
                Double::one()
            } else {
                Double::zero()
            },
        );
        i = i + 1;
    }
    assert(r@ =~= one_hot_of(d as nat, idx as int));
    r
}

/// A vector with the same weight everywhere.
pub fn uniform_vec(d: usize, weight: Double) -> (r: Vec<Double>)
    ensures
        r@ == constant_of(d as nat, weight),
{
    let mut r: Vec<Double> = Vec::new();
    let mut i: usize = 0;
    while i < d
        invariant
            i <= d,
            r@.len() == i,
            forall|k: int| 0 <= k < i ==> r@[k] == weight,
        decreases d - i,
    {
        r.push(weight);
        i = i + 1;
    }
    assert(r@ =~= constant_of(d as nat, weight));
    r
}

/// A vector with alpha in front.
pub fn with_alpha(alpha: Double, weights: &Vec<Double>) -> (r: Vec<Double>)
    ensures
        r@ == seq![alpha] + weights@,
{
    let mut r: Vec<Double> = Vec::new();
    r.push(alpha);
    let mut i: usize = 0;
    while i < weights.len()
        invariant
            i <= weights@.len(),
            r@ == seq![alpha] + weights@.take(i as int),
        decreases weights@.len() - i,
    {
        r.push(weights[i]);
        assert(weights@.take(i + 1) =~= weights@.take(i as int).push(weights@[i as int]));
        assert(r@ =~= seq![alpha] + weights@.take(i + 1));
        i = i + 1;
    }
    assert(weights@.take(weights@.len() as int) =~= weights@);
    r
}

/// What is wrong with a prior order.
pub ghost enum OrderFault {
    /// It names feature 0, though features are counted from 1.
    Zero,
    /// It names this feature, and there are not so many.
    Beyond(usize),
    /// It names this feature twice.
    Duplicate(usize),
}

/// The first fault of a prior order over `dim` features, from place `i` on.
pub open spec fn order_fault(raw: Seq<usize>, dim: nat, i: int) -> Option<OrderFault>
    decreases raw.len() - i,
{
    if i >= raw.len() {
        None
    } else if raw[i] < 1 {
        Some(OrderFault::Zero)
    } else if raw[i] > dim {
        Some(OrderFault::Beyond(raw[i]))
    } else if raw.take(i).contains(raw[i]) {
        Some(OrderFault::Duplicate(raw[i]))
    } else {
        order_fault(raw, dim, i + 1)
    }
}

/// The words of a prior order's fault.
pub open spec fn order_fault_text(dim: nat, f: OrderFault) -> Seq<char> {
    match f {
        OrderFault::Zero =>
            "BOFuzz prior-order error: index 0 is invalid, prior indexes are one-based (1.."@
            + decimal(dim) + ")"@,
        OrderFault::Beyond(i) => "BOFuzz prior-order error: index "@ + decimal(i as nat)
            + " > schema_dim "@ + decimal(dim),
        OrderFault::Duplicate(i) => "BOFuzz prior-order error: duplicate index "@ + decimal(
            i as nat,
        ),
    }
}

/// Is the number among the first `n` of the list?
fn seen_before(raw: &Vec<usize>, n: usize, x: usize) -> (r: bool)
    requires
        n <= raw@.len(),
    ensures
        r == raw@.take(n as int).contains(x),
{
    let mut k: usize = 0;
    while k < n
        invariant
            k <= n <= raw@.len(),
            forall|j: int| 0 <= j < k ==> raw@[j] != x,
        decreases n - k,
    {
        if raw[k] == x {
            assert(raw@.take(n as int)[k as int] == x);
            return true;
        }
        k = k + 1;
    }
    false
}

/// Checks a prior order: distinct places of the schema, counted from 1.
pub fn check_prior_order(raw: &Vec<usize>, schema_dim: usize) -> (r: Result<Vec<usize>, String>)
    ensures
        match r {
            Ok(order) => order_fault(raw@, schema_dim as nat, 0) is None && order@ == raw@,
            Err(e) => order_fault(raw@, schema_dim as nat, 0) is Some && e@ == order_fault_text(
                schema_dim as nat,
                order_fault(raw@, schema_dim as nat, 0)->0,
            ),
        },
{
    let mut order: Vec<usize> = Vec::new();
    let mut i: usize = 0;
    while i < raw.len()
        invariant
            i <= raw@.len(),
            order@ == raw@.take(i as int),
            order_fault(raw@, schema_dim as nat, i as int) == order_fault(
                raw@,
                schema_dim as nat,
                0,
            ),
        decreases raw@.len() - i,
    {
        let idx: usize = raw[i];
        if idx < 1 {
            let mut e: String =
                "BOFuzz prior-order error: index 0 is invalid, prior indexes are one-based (1..".to_owned();
            e.append(decimal_text(schema_dim as u64).as_str());
            e.append(")");
            return Err(e);
        }
        if idx > schema_dim {
            let mut e: String = "BOFuzz prior-order error: index ".to_owned();
            e.append(decimal_text(idx as u64).as_str());
            e.append(" > schema_dim ");
            e.append(decimal_text(schema_dim as u64).as_str());
            return Err(e);
        }
        if seen_before(raw, i, idx) {
            let mut e: String = "BOFuzz prior-order error: duplicate index ".to_owned();
            e.append(decimal_text(idx as u64).as_str());
            return Err(e);
        }
        order.push(idx);
        assert(raw@.take(i + 1) =~= raw@.take(i as int).push(idx));
        i = i + 1;
    }
    assert(raw@.take(raw@.len() as int) =~= raw@);
    Ok(order)
}

/// Reads a prior order from its JSON text and checks it.
pub fn parse_prior_order(text: &str, schema_dim: usize) -> (r: Result<Vec<usize>, String>)
    ensures
        match json_indexes(text@, usize::BITS) {
            Err(e) => r matches Err(f) && f@ == "Prior order JSON parse error: "@ + e,
            Ok(raw) => match r {
                Ok(order) => order_fault(raw, schema_dim as nat, 0) is None && order@ == raw,
                Err(e) => order_fault(raw, schema_dim as nat, 0) is Some && e@ == order_fault_text(
                    schema_dim as nat,
                    order_fault(raw, schema_dim as nat, 0)->0,
                ),
            },
        },
{
    match parse_indexes(text) {
        Err(e) => {
            let mut f: String = "Prior order JSON parse error: ".to_owned();
            f.append(e.as_str());
            Err(f)
        },
        Ok(raw) => check_prior_order(&raw, schema_dim),
    }
}

/// A prior order without a fault names each feature at most once.
pub proof fn orders_do_not_repeat(raw: Seq<usize>, dim: nat, i: int)
    requires
        0 <= i,
        order_fault(raw, dim, i) is None,
    ensures
        forall|a: int, b: int|
            0 <= a < b < raw.len() && i <= b ==> raw[a] != raw[b],
        forall|b: int| i <= b < raw.len() ==> 1 <= #[trigger] raw[b] <= dim,
    decreases raw.len() - i,
{
    if i < raw.len() {
        orders_do_not_repeat(raw, dim, i + 1);
        assert forall|a: int, b: int| 0 <= a < b < raw.len() && i <= b implies raw[a] != raw[b] by {
            if b == i && raw[a] == raw[b] {
                assert(raw.take(i)[a] == raw[i]);
            }
        }
    }
}

/// The places, among the active features, of the features that an order names; those that the
/// mask leaves out are passed over.
pub open spec fn active_places(order: Seq<usize>, mask: Seq<bool>) -> Seq<int>
    decreases order.len(),
{
    if order.len() == 0 {
        Seq::empty()
    } else {
        let before = active_places(order.drop_last(), mask);
        let z = order.last() - 1;
        if z < mask.len() && mask[z] {
            before.push(set_count(mask.take(z + 1)) - 1)
        } else {
            before
        }
    }
}

/// How many of the first `n` entries of a mask are set.
fn count_set(mask: &Vec<bool>, n: usize) -> (r: usize)
    requires
        n <= mask@.len(),
    ensures
        r == set_count(mask@.take(n as int)),
        r <= n,
{
    let mut c: usize = 0;
    let mut i: usize = 0;
    assert(mask@.take(0) =~= Seq::<bool>::empty());
    while i < n
        invariant
            i <= n <= mask@.len(),
            c <= i,
            c == set_count(mask@.take(i as int)),
        decreases n - i,
    {
        assert(mask@.take(i + 1).drop_last() =~= mask@.take(i as int));
        if mask[i] {
            c = c + 1;
        }
        i = i + 1;
    }
    c
}

/// The places, among the active features, of the features that an order names. The order counts
/// features from 1.
pub fn active_prior_indices(order: &Vec<usize>, mask: &Vec<bool>) -> (r: Vec<usize>)
    requires
        forall|i: int| 0 <= i < order@.len() ==> 1 <= #[trigger] order@[i],
    ensures
        r@.map_values(|i: usize| i as int) == active_places(order@, mask@),
{
    let mut r: Vec<usize> = Vec::new();
    let mut i: usize = 0;
    assert(order@.take(0) =~= Seq::<usize>::empty());
    assert(r@.map_values(|i: usize| i as int) =~= Seq::<int>::empty());
    while i < order.len()
        invariant
            i <= order@.len(),
            forall|k: int| 0 <= k < order@.len() ==> 1 <= #[trigger] order@[k],
            r@.map_values(|i: usize| i as int) == active_places(order@.take(i as int), mask@),
        decreases order@.len() - i,
    {
        assert(order@.take(i + 1).drop_last() =~= order@.take(i as int));
        let z: usize = order[i] - 1;
        let ghost before = r@;
        if z < mask.len() && mask[z] {
            let c: usize = count_set(mask, z + 1);
            assert(mask@.take(z + 1).drop_last() =~= mask@.take(z as int));
            r.push(c - 1);
            assert(r@.map_values(|i: usize| i as int) =~= before.map_values(
                |i: usize| i as int,
            ).push(c - 1));
        }
        i = i + 1;
    }
    assert(order@.take(order@.len() as int) =~= order@);
    r
}

/// The order of the schema itself: 1, 2, 3 and so on.
pub open spec fn schema_order(n: nat) -> Seq<usize> {
    Seq::new(n, |i: int| (i + 1) as usize)
}

/// In the order of the schema the active features come one after the other, and none is left out.
pub proof fn schema_order_is_active_order(n: nat, mask: Seq<bool>)
    requires
        n <= usize::MAX,
    ensures
        active_places(schema_order(n), mask) == Seq::new(
            set_count(
                mask.take(
                    if n < mask.len() {
                        n as int
                    } else {
                        mask.len() as int
                    },
                ),
            ),
            |i: int| i,
        ),
    decreases n,
{
    if n == 0 {
        assert(mask.take(0) =~= Seq::<bool>::empty());
        assert(schema_order(n) =~= Seq::<usize>::empty());
    } else {
        let m = (n - 1) as nat;
        schema_order_is_active_order(m, mask);
        assert(schema_order(n).drop_last() =~= schema_order(m));
        assert(schema_order(n).last() == n);
        if m < mask.len() {
            assert(mask.take(n as int).drop_last() =~= mask.take(m as int));
        }
    }
    assert(active_places(schema_order(n), mask) =~= Seq::new(
        set_count(
            mask.take(
                if n < mask.len() {
                    n as int
                } else {
                    mask.len() as int
                },
            ),
        ),
        |i: int| i,
    ));
}

/// What is wrong with a list of candidates.
pub ghost enum CandidateFault {
    /// The candidate at this place has the wrong length.
    Length(int),
    /// The candidate at this place has, at that place, a number that is infinite or NaN.
    NotFinite(int, int),
    /// All weights of the candidate at this place vanish.
    ZeroNorm(int),
}

/// The first place of a vector, from `k` on, that holds no finite number.
pub open spec fn first_unbounded(v: Seq<Double>, k: int) -> Option<int>
    decreases v.len() - k,
{
    if k >= v.len() {
        None
    } else if !v[k].finite() {
        Some(k)
    } else {
        first_unbounded(v, k + 1)
    }
}

/// The first fault of a list of candidates, from place `i` on. `norms` holds the Euclidean norm
/// of the weights of each candidate, that is of all its numbers but alpha, which is the first.
pub open spec fn candidate_fault(
    cands: Seq<Seq<Double>>,
    norms: Seq<Double>,
    dim: nat,
    i: int,
) -> Option<CandidateFault>
    decreases cands.len() - i,
{
    if i >= cands.len() {
        None
    } else if cands[i].len() != 1 + dim {
        Some(CandidateFault::Length(i))
    } else if first_unbounded(cands[i], 0) is Some {
        Some(CandidateFault::NotFinite(i, first_unbounded(cands[i], 0)->0))
    } else if norms[i].null() {
        Some(CandidateFault::ZeroNorm(i))
    } else {
        candidate_fault(cands, norms, dim, i + 1)
    }
}

/// The words of a fault among candidates.
pub open spec fn candidate_fault_text(
    cands: Seq<Seq<Double>>,
    dim: nat,
    f: CandidateFault,
) -> Seq<char> {
    match f {
        CandidateFault::Length(i) => "BOFuzz candidate error: candidate "@ + decimal(i as nat)
            + " has length "@ + decimal(cands[i].len()) + ", expected "@ + decimal(1 + dim)
            + " (1 + active_dim="@ + decimal(dim) + ")"@,
        CandidateFault::NotFinite(i, j) => "BOFuzz candidate error: candidate "@ + decimal(
            i as nat,
        ) + " has non-finite value at index "@ + decimal(j as nat),
        CandidateFault::ZeroNorm(i) => "BOFuzz candidate error: candidate "@ + decimal(i as nat)
            + " has zero-norm weights"@,
    }
}

/// The place of the first number that is not finite.
fn find_unbounded(v: &Vec<Double>) -> (r: Option<usize>)
    ensures
        match r {
            Some(k) => first_unbounded(v@, 0) == Some(k as int),
            None => first_unbounded(v@, 0) is None,
        },
{
    let mut k: usize = 0;
    while k < v.len()
        invariant
            k <= v@.len(),
            first_unbounded(v@, k as int) == first_unbounded(v@, 0),
        decreases v@.len() - k,
    {
        if !v[k].is_finite() {
            return Some(k);
        }
        k = k + 1;
    }
    None
}

/// Checks candidates, given the Euclidean norms of their weights.
fn check_with_norms(cands: &Vec<Vec<Double>>, norms: &Vec<Double>, active_dim: usize) -> (r:
    Result<(), String>)
    requires
        norms@.len() == cands@.len(),
        active_dim < usize::MAX,
    ensures
        match r {
            Ok(_) => candidate_fault(rows(cands@), norms@, active_dim as nat, 0) is None,
            Err(e) => candidate_fault(rows(cands@), norms@, active_dim as nat, 0) is Some && e@
                == candidate_fault_text(
                rows(cands@),
                active_dim as nat,
                candidate_fault(rows(cands@), norms@, active_dim as nat, 0)->0,
            ),
        },
{
    let ghost all = rows(cands@);
    let expected: usize = 1 + active_dim;
    let mut i: usize = 0;
    while i < cands.len()
        invariant
            i <= cands@.len(),
            norms@.len() == cands@.len(),
            all == rows(cands@),
            expected == 1 + active_dim,
            candidate_fault(all, norms@, active_dim as nat, i as int) == candidate_fault(
                all,
                norms@,
                active_dim as nat,
                0,
            ),
        decreases cands@.len() - i,
    {
        assert(all[i as int] == cands@[i as int]@);
        if cands[i].len() != expected {
            let mut e: String = "BOFuzz candidate error: candidate ".to_owned();
            e.append(decimal_text(i as u64).as_str());
            e.append(" has length ");
            e.append(decimal_text(cands[i].len() as u64).as_str());
            e.append(", expected ");
            e.append(decimal_text(expected as u64).as_str());
            e.append(" (1 + active_dim=");
            e.append(decimal_text(active_dim as u64).as_str());
            e.append(")");
            return Err(e);
        }
        match find_unbounded(&cands[i]) {
            Some(j) => {
                let mut e: String = "BOFuzz candidate error: candidate ".to_owned();
                e.append(decimal_text(i as u64).as_str());
                e.append(" has non-finite value at index ");
                e.append(decimal_text(j as u64).as_str());
                return Err(e);
            },
            None => {},
        }
        if norms[i].is_zero() {
            let mut e: String = "BOFuzz candidate error: candidate ".to_owned();
            e.append(decimal_text(i as u64).as_str());
            e.append(" has zero-norm weights");
            return Err(e);
        }
        i = i + 1;
    }
    Ok(())
}

/// No number is infinite or NaN where no such place is found.
proof fn all_bounded(v: Seq<Double>, k: int)
    requires
        0 <= k,
        first_unbounded(v, k) is None,
    ensures
        forall|i: int| k <= i < v.len() ==> (#[trigger] v[i]).finite(),
    decreases v.len() - k,
{
    if k < v.len() {
        all_bounded(v, k + 1);
    }
}

/// Accepted candidates hold alpha and exactly one finite weight for each active feature.
pub proof fn accepted_candidates_fit(
    cands: Seq<Seq<Double>>,
    norms: Seq<Double>,
    dim: nat,
    i: int,
)
    requires
        0 <= i,
        candidate_fault(cands, norms, dim, i) is None,
    ensures
        forall|k: int|
            i <= k < cands.len() ==> (#[trigger] cands[k]).len() == 1 + dim && !norms[k].null()
                && forall|j: int| 0 <= j < cands[k].len() ==> (#[trigger] cands[k][j]).finite(),
    decreases cands.len() - i,
{
    if i < cands.len() {
        accepted_candidates_fit(cands, norms, dim, i + 1);
        all_bounded(cands[i], 0);
    }
}

/// The weights of a candidate: all but alpha, which comes first.
pub open spec fn behind_first(v: Seq<Double>) -> Seq<Double> {
    if v.len() > 0 {
        v.skip(1)
    } else {
        v
    }
}

/// `norms` are what `norm` gave for the weights of the candidates.
pub open spec fn normed<N: Fn(&Vec<Double>) -> Double>(
    norm: N,
    cands: Seq<Seq<Double>>,
    norms: Seq<Double>,
) -> bool {
    norms.len() == cands.len() && forall|i: int|
        0 <= i < cands.len() ==> normed_one(norm, cands[i], #[trigger] norms[i])
}

/// `r` is what `norm` gave for the weights of a candidate.
pub open spec fn normed_one<N: Fn(&Vec<Double>) -> Double>(
    norm: N,
    cand: Seq<Double>,
    r: Double,
) -> bool {
    exists|z: &Vec<Double>| z@ == behind_first(cand) && #[trigger] call_ensures(norm, (z,), r)
}

/// Is `refusal` what is said of the first fault of the candidates, `None` where there is no fault?
pub open spec fn checked<N: Fn(&Vec<Double>) -> Double>(
    norm: N,
    cands: Seq<Seq<Double>>,
    dim: nat,
    refusal: Option<Seq<char>>,
) -> bool {
    exists|norms: Seq<Double>| #[trigger]
        normed(norm, cands, norms) && refusal == match candidate_fault(cands, norms, dim, 0) {
            Some(f) => Some(candidate_fault_text(cands, dim, f)),
            None => None,
        }
}

/// Checks the candidates of a file: each must have alpha and one weight for each active feature,
/// all of them finite, and weights that are not all 0. `norm` gives the Euclidean norm.
pub fn check_candidates<N: Fn(&Vec<Double>) -> Double>(
    cands: &Vec<Vec<Double>>,
    active_dim: usize,
    norm: &N,
) -> (r: Result<(), String>)
    requires
        forall|z: &Vec<Double>| #[trigger] call_requires(*norm, (z,)),
        active_dim < usize::MAX,
    ensures
        checked(
            *norm,
            rows(cands@),
            active_dim as nat,
            match r {
                Ok(_) => None,
                Err(e) => Some(e@),
            },
        ),
{
    let mut norms: Vec<Double> = Vec::new();
    let mut i: usize = 0;
    while i < cands.len()
        invariant
            forall|z: &Vec<Double>| #[trigger] call_requires(*norm, (z,)),
            i <= cands@.len(),
            norms@.len() == i,
            forall|k: int|
                0 <= k < i ==> normed_one(*norm, rows(cands@)[k], #[trigger] norms@[k]),
        decreases cands@.len() - i,
    {
        let mut weights: Vec<Double> = copy_numbers(&cands[i]);
        if weights.len() > 0 {
            weights.remove(0);
            assert(weights@ =~= cands@[i as int]@.skip(1));
        }
        assert(rows(cands@)[i as int] == cands@[i as int]@);
        assert(call_requires(*norm, (&weights,)));
        let x: Double = norm(&weights);
        assert(call_ensures(*norm, (&weights,), x));
        norms.push(x);
        i = i + 1;
    }
    assert(normed(*norm, rows(cands@), norms@));
    check_with_norms(cands, &norms, active_dim)
}

/// `out` are the candidates of a file, given what its text was read as; where it does not hold
/// candidates, what is said of it.
pub open spec fn candidates_read<N: Fn(&Vec<Double>) -> Double>(
    norm: N,
    json: Result<Seq<Seq<Double>>, Seq<char>>,
    dim: nat,
    out: Result<Seq<Seq<Double>>, Seq<char>>,
) -> bool {
    match json {
        Err(e) => out == Err::<Seq<Seq<Double>>, Seq<char>>(
            "Candidates JSON parse error: "@ + e,
        ),
        Ok(listed) => match out {
            Ok(cands) => cands == listed && checked(norm, listed, dim, None),
            Err(e) => checked(norm, listed, dim, Some(e)),
        },
    }
}

/// The model of candidates, or of what is said instead.
pub open spec fn outcome_of(r: Result<Vec<Vec<Double>>, String>) -> Result<
    Seq<Seq<Double>>,
    Seq<char>,
> {
    match r {
        Ok(cands) => Ok(rows(cands@)),
        Err(e) => Err(e@),
    }
}

/// The candidates of a file, from its text.
pub fn parse_candidates<N: Fn(&Vec<Double>) -> Double>(
    text: &str,
    active_dim: usize,
    norm: &N,
) -> (r: Result<Vec<Vec<Double>>, String>)
    requires
        forall|z: &Vec<Double>| #[trigger] call_requires(*norm, (z,)),
        active_dim < usize::MAX,
    ensures
        candidates_read(*norm, json_rows(text@), active_dim as nat, outcome_of(r)),
{
    match parse_rows(text) {
        Err(e) => {
            let mut f: String = "Candidates JSON parse error: ".to_owned();
            f.append(e.as_str());
            Err(f)
        },
        Ok(cands) => match check_candidates(&cands, active_dim, norm) {
            Ok(_) => Ok(cands),
            Err(e) => Err(e),
        },
    }
}

/// The alpha with which candidates start: the initial alpha, or 0.5 where it is no finite number,
/// forced into the unit interval.
pub open spec fn starting_alpha(alpha_init: Double) -> Double {
    if alpha_init.finite() {
        alpha_init.unit()
    } else {
        Double { bits: HALF_BITS }
    }
}

/// The candidates of a run without a candidate file: the uniform vector first, then one vector
/// for each of the given active features, each of them with alpha in front.
pub open spec fn default_vectors(
    alpha: Double,
    dim: nat,
    uniform_weight: Double,
    places: Seq<int>,
) -> Seq<Seq<Double>> {
    seq![seq![alpha] + constant_of(dim, uniform_weight)] + places.map_values(
        |p: int| seq![alpha] + one_hot_of(dim, p),
    )
}

/// The alpha with which candidates start.
pub fn initial_alpha(alpha_init: Double) -> (r: Double)
    ensures
        r == starting_alpha(alpha_init),
{
    if alpha_init.is_finite() {
        alpha_init.clamp_unit()
    } else {
        Double { bits: HALF_BITS }
    }
}

/// The candidates of a run without a candidate file.
pub fn default_candidates(
    alpha: Double,
    active_dim: usize,
    uniform_weight: Double,
    places: &Vec<usize>,
) -> (r: Vec<Vec<Double>>)
    ensures
        rows(r@) == default_vectors(
            alpha,
            active_dim as nat,
            uniform_weight,
            places@.map_values(|i: usize| i as int),
        ),
{
    let ghost wanted = default_vectors(
        alpha,
        active_dim as nat,
        uniform_weight,
        places@.map_values(|i: usize| i as int),
    );
    let mut r: Vec<Vec<Double>> = Vec::new();
    r.push(with_alpha(alpha, &uniform_vec(active_dim, uniform_weight)));
    let mut i: usize = 0;
    while i < places.len()
        invariant
            i <= places@.len(),
            r@.len() == i + 1,
            wanted == default_vectors(
                alpha,
                active_dim as nat,
                uniform_weight,
                places@.map_values(|i: usize| i as int),
            ),
            forall|k: int| 0 <= k < r@.len() ==> (#[trigger] r@[k])@ == wanted[k],
        decreases places@.len() - i,
    {
        let v: Vec<Double> = with_alpha(alpha, &one_hot(active_dim, places[i]));
        assert(v@ == wanted[i + 1]);
        r.push(v);
        i = i + 1;
    }
    assert(rows(r@) =~= wanted);
    r
}

/// The order of the schema: 1, 2, 3 and so on.
fn count_up(n: usize) -> (r: Vec<usize>)
    ensures
        r@ == schema_order(n as nat),
{
    let mut r: Vec<usize> = Vec::new();
    let mut i: usize = 0;
    while i < n
        invariant
            i <= n,
            r@ == schema_order(i as nat),
        decreases n - i,
    {
        r.push(i + 1);
        i = i + 1;
        assert(r@ =~= schema_order(i as nat));
    }
    r
}

/// `read` is what a candidate file gives: nothing where there is none, why it cannot be read where
/// it cannot, else what its text stands for.
pub open spec fn file_read<N: Fn(&Vec<Double>) -> Double>(
    norm: N,
    file: Option<Result<String, String>>,
    dim: nat,
    read: Option<Result<Seq<Seq<Double>>, Seq<char>>>,
) -> bool {
    match file {
        None => read is None,
        Some(Err(e)) => read == Some(Err::<Seq<Seq<Double>>, Seq<char>>(e@)),
        Some(Ok(text)) => read is Some && candidates_read(
            norm,
            json_rows(text@),
            dim,
            read->0,
        ),
    }
}

/// The model of what a candidate file gives.
pub open spec fn given_by(r: Option<Result<Vec<Vec<Double>>, String>>) -> Option<
    Result<Seq<Seq<Double>>, Seq<char>>,
> {
    match r {
        Some(o) => Some(outcome_of(o)),
        None => None,
    }
}

/// What a candidate file gives.
fn read_file<N: Fn(&Vec<Double>) -> Double>(
    file: Option<Result<String, String>>,
    active_dim: usize,
    norm: &N,
) -> (r: Option<Result<Vec<Vec<Double>>, String>>)
    requires
        forall|z: &Vec<Double>| #[trigger] call_requires(*norm, (z,)),
        active_dim < usize::MAX,
    ensures
        file_read(*norm, file, active_dim as nat, given_by(r)),
{
    match file {
        None => None,
        Some(Err(e)) => Some(Err(e)),
        Some(Ok(text)) => Some(parse_candidates(text.as_str(), active_dim, norm)),
    }
}

/// The candidates that a candidate file lists, where there is one and nothing is wrong with it.
pub open spec fn listed(read: Option<Result<Seq<Seq<Double>>, Seq<char>>>) -> Option<
    Seq<Seq<Double>>,
> {
    match read {
        Some(Ok(cands)) => Some(cands),
        _ => None,
    }
}

/// The candidates that a run starts with, given those of a candidate file, if there is one.
pub open spec fn starting_candidates(
    file: Option<Seq<Seq<Double>>>,
    alpha_init: Double,
    dim: nat,
    mask: Seq<bool>,
    schema_dim: nat,
    uniform_weight: Double,
) -> Seq<Seq<Double>> {
    if file is Some && file->0.len() > 0 {
        file->0
    } else {
        default_vectors(
            starting_alpha(alpha_init),
            dim,
            uniform_weight,
            active_places(schema_order(schema_dim), mask),
        )
    }
}

/// The state once the candidates are there. If none were, the starting candidates take their
/// place, and the first of them becomes the vector in use unless one is in use already.
pub open spec fn with_candidates(s: StateView, cands: Seq<Seq<Double>>) -> StateView {
    if s.globals.v_candidates.len() > 0 {
        s
    } else {
        StateView {
            globals: GlobalsView {
                v_candidates: cands,
                current_v: if s.globals.current_v.len() == 0 {
                    cands[0]
                } else {
                    s.globals.current_v
                },
                ..s.globals
            },
            ..s
        }
    }
}

/// The state once the candidates are there, given what a candidate file gave. `even` gave the weight
/// of each active feature in the uniform vector.
pub open spec fn candidates_set<E: Fn(usize) -> Double>(
    even: E,
    s: StateView,
    read: Option<Result<Seq<Seq<Double>>, Seq<char>>>,
    dim: usize,
    mask: Seq<bool>,
    schema_dim: nat,
    t: StateView,
) -> bool {
    exists|w: Double| #[trigger]
        call_ensures(even, (dim,), w) && t == with_candidates(
            s,
            starting_candidates(
                listed(read),
                s.globals.alpha_init,
                dim as nat,
                mask,
                schema_dim,
                w,
            ),
        )
}

/// Has every vector this length?
pub open spec fn of_length(vs: Seq<Seq<Double>>, n: nat) -> bool {
    forall|i: int| 0 <= i < vs.len() ==> (#[trigger] vs[i]).len() == n
}

/// Sees to it that there are candidates.
///
/// `file` is the text of the candidate file, or why it cannot be read; `None` where there is no such
/// file. A file that is there but wrong is an error; one that lists nothing counts as none. `even`
/// gives the weight of each of so many features in the uniform vector, and `norm` the Euclidean
/// norm.
pub fn ensure_v_candidates_for<E: Fn(usize) -> Double, N: Fn(&Vec<Double>) -> Double>(
    state: &mut SchedulerState,
    file: Option<Result<String, String>>,
    active_dim: usize,
    mask: &Vec<bool>,
    schema_dim: usize,
    even: &E,
    norm: &N,
) -> (r: Result<(), String>)
    requires
        call_requires(*even, (active_dim,)),
        forall|z: &Vec<Double>| #[trigger] call_requires(*norm, (z,)),
        active_dim < usize::MAX,
    ensures
        old(state)@.globals.v_candidates.len() > 0 ==> r is Ok && final(state)@ == old(state)@,
        old(state)@.globals.v_candidates.len() == 0 ==> exists|
            read: Option<Result<Seq<Seq<Double>>, Seq<char>>>,
        | #[trigger]
            file_read(*norm, file, active_dim as nat, read) && match read {
                Some(Err(e)) => r is Err && (r->Err_0)@ == e && final(state)@ == old(state)@,
                _ => r is Ok && candidates_set(
                    *even,
                    old(state)@,
                    read,
                    active_dim,
                    mask@,
                    schema_dim as nat,
                    final(state)@,
                ),
            },
        old(state)@.globals.v_candidates.len() == 0 && r is Ok
            ==> final(state)@.globals.v_candidates.len() > 0 && of_length(
            final(state)@.globals.v_candidates,
            1 + active_dim as nat,
        ),
        old(state)@.globals.v_candidates.len() == 0 && r is Ok ==> (file matches Some(Ok(text))
            ==> (json_rows(text@) matches Ok(cands) ==> (cands.len() > 0
            ==> final(state)@.globals.v_candidates == cands))),
{
    if get_v_candidates(state).len() > 0 {
        return Ok(());
    }
    let ghost before = state@;
    let given: Option<Result<Vec<Vec<Double>>, String>> = read_file(file, active_dim, norm);
    let ghost read = given_by(given);
    assert(file_read(*norm, file, active_dim as nat, read));
    let mut from_file: Vec<Vec<Double>> = Vec::new();
    match given {
        Some(Err(e)) => {
            return Err(e);
        },
        Some(Ok(v)) => {
            from_file = v;
        },
        None => {},
    }
    let uniform_weight: Double = even(active_dim);
    let cands: Vec<Vec<Double>> = if from_file.len() > 0 {
        from_file
    } else {
        let order: Vec<usize> = count_up(schema_dim);
        let places: Vec<usize> = active_prior_indices(&order, mask);
        default_candidates(
            initial_alpha(get_alpha_init(state)),
            active_dim,
            uniform_weight,
            &places,
        )
    };
    assert(rows(cands@).len() > 0);
    let first: Vec<Double> = copy_numbers(&cands[0]);
    assert(first@ == rows(cands@)[0]);
    let ghost wanted = starting_candidates(
        listed(read),
        before.globals.alpha_init,
        active_dim as nat,
        mask@,
        schema_dim as nat,
        uniform_weight,
    );
    assert(rows(cands@) == wanted);
    proof {
        starting_candidates_fit(
            *norm,
            listed(read),
            before.globals.alpha_init,
            active_dim as nat,
            mask@,
            schema_dim as nat,
            uniform_weight,
        );
    }
    replace_v_candidates(state, cands);
    if get_current_weight_vec(state).len() == 0 {
        set_current_weight_vec(state, first);
    }
    assert(state@ == with_candidates(before, wanted));
    assert(candidates_set(
        *even,
        before,
        read,
        active_dim,
        mask@,
        schema_dim as nat,
        state@,
    ));
    Ok(())
}

/// Every candidate that a run starts with has alpha and one weight for each active feature, and
/// there is at least one.
pub proof fn starting_candidates_fit<N: Fn(&Vec<Double>) -> Double>(
    norm: N,
    file: Option<Seq<Seq<Double>>>,
    alpha_init: Double,
    dim: nat,
    mask: Seq<bool>,
    schema_dim: nat,
    uniform_weight: Double,
)
    requires
        file is Some ==> checked(norm, file->0, dim, None),
    ensures
        ({
            let cands = starting_candidates(
                file,
                alpha_init,
                dim,
                mask,
                schema_dim,
                uniform_weight,
            );
            cands.len() > 0 && of_length(cands, 1 + dim)
        }),
{
    if file is Some {
        let norms = choose|norms: Seq<Double>| #[trigger]
            normed(norm, file->0, norms) && candidate_fault(file->0, norms, dim, 0) is None;
        accepted_candidates_fit(file->0, norms, dim, 0);
    }
}

/// Without a candidate file the order of the candidates is fixed: the uniform vector, then the
/// vectors of the single features in the order in which the schema lists the active ones.
pub proof fn default_candidate_order(
    alpha_init: Double,
    mask: Seq<bool>,
    uniform_weight: Double,
)
    requires
        mask.len() <= usize::MAX,
    ensures
        ({
            let dim = set_count(mask);
            let alpha = starting_alpha(alpha_init);
            let cands = starting_candidates(
                None,
                alpha_init,
                dim,
                mask,
                mask.len(),
                uniform_weight,
            );
            &&& cands.len() == 1 + dim
            &&& cands[0] == seq![alpha] + constant_of(dim, uniform_weight)
            &&& forall|i: int|
                0 <= i < dim ==> #[trigger] cands[i + 1] == seq![alpha] + one_hot_of(dim, i)
        }),
{
    schema_order_is_active_order(mask.len(), mask);
    assert(mask.take(mask.len() as int) =~= mask);
    let dim = set_count(mask);
    let places = active_places(schema_order(mask.len()), mask);
    assert(places == Seq::new(dim, |i: int| i));
}

/// A vector that picks one feature has the weight 1 at its place and 0 at every other, and a uniform
/// one the same weight everywhere.
pub proof fn single_and_uniform_vectors(d: nat, p: int, weight: Double, i: int)
    requires
        0 <= i < d,
    ensures
        one_hot_of(d, p).len() == d,
        one_hot_of(d, p)[i] == (if i == p {
            Double { bits: 0x3FF0_0000_0000_0000 }
        } else {
            Double { bits: 0 }
        }),
        constant_of(d, weight).len() == d,
        constant_of(d, weight)[i] == weight,
{
}

/// A prior order is refused exactly where it names a feature twice or one that is not among 1 to
/// `dim`.
pub proof fn orders_are_told_apart(raw: Seq<usize>, dim: nat)
    ensures
        order_fault(raw, dim, 0) is None <==> raw.no_duplicates() && forall|i: int|
            0 <= i < raw.len() ==> 1 <= #[trigger] raw[i] <= dim,
{
    if order_fault(raw, dim, 0) is None {
        orders_do_not_repeat(raw, dim, 0);
    }
    if raw.no_duplicates() && forall|i: int| 0 <= i < raw.len() ==> 1 <= #[trigger] raw[i] <= dim {
        no_order_fault(raw, dim, 0);
    }
}

/// Nothing is found wrong with distinct places of the schema.
proof fn no_order_fault(raw: Seq<usize>, dim: nat, i: int)
    requires
        0 <= i,
        raw.no_duplicates(),
        forall|k: int| 0 <= k < raw.len() ==> 1 <= #[trigger] raw[k] <= dim,
    ensures
        order_fault(raw, dim, i) is None,
    decreases raw.len() - i,
{
    if i < raw.len() {
        if raw.take(i).contains(raw[i]) {
            let k = raw.take(i).index_of(raw[i]);
            assert(raw[k] == raw[i]);
        }
        no_order_fault(raw, dim, i + 1);
    }
}

/// What is told of a prior order is its first fault: up to there every number is a place of the
/// schema and none comes twice.
pub proof fn first_order_fault(raw: Seq<usize>, dim: nat, i: int)
    requires
        0 <= i,
        raw.take(i).no_duplicates(),
        forall|k: int| 0 <= k < i && k < raw.len() ==> 1 <= #[trigger] raw[k] <= dim,
    ensures
        order_fault(raw, dim, i) matches Some(f) ==> exists|p: int|
            {
                &&& i <= p < raw.len()
                &&& forall|a: int, b: int| 0 <= a < b < p ==> raw[a] != raw[b]
                &&& forall|k: int| 0 <= k < p ==> 1 <= #[trigger] raw[k] <= dim
                &&& match f {
                    OrderFault::Zero => #[trigger] raw[p] == 0,
                    OrderFault::Beyond(x) => raw[p] == x && x > dim,
                    OrderFault::Duplicate(x) => raw[p] == x && 1 <= x <= dim && exists|a: int|
                        0 <= a < p && #[trigger] raw[a] == x,
                }
            },
    decreases raw.len() - i,
{
    if i < raw.len() {
        assert forall|a: int, b: int| 0 <= a < b < i implies raw[a] != raw[b] by {
            assert(raw.take(i)[a] != raw.take(i)[b]);
        }
        if raw[i] >= 1 && raw[i] <= dim {
            if raw.take(i).contains(raw[i]) {
                let a = raw.take(i).index_of(raw[i]);
                assert(raw[a] == raw[i]);
            } else {
                let t = raw.take(i + 1);
                assert forall|a: int, b: int|
                    0 <= a < t.len() && 0 <= b < t.len() && a != b implies t[a] != t[b] by {
                    if a < i {
                        assert(raw.take(i)[a] == t[a]);
                    }
                    if b < i {
                        assert(raw.take(i)[b] == t[b]);
                    }
                }
                first_order_fault(raw, dim, i + 1);
            }
        }
    }
}

/// The places of the features that an order names follow the order, and of a single feature the place
/// is its own among the active ones: that which it has there, and none where the mask leaves it out.
pub proof fn places_point_at_their_features(
    a: Seq<usize>,
    b: Seq<usize>,
    x: usize,
    fs: Seq<super::metadata::FeatureSpecView>,
    mask: Seq<bool>,
)
    requires
        1 <= x <= fs.len(),
        fs.len() == mask.len(),
    ensures
        active_places(a + b, mask) == active_places(a, mask) + active_places(b, mask),
        !mask[x - 1] ==> active_places(seq![x], mask).len() == 0,
        mask[x - 1] ==> active_places(seq![x], mask).len() == 1 && 0 <= active_places(
            seq![x],
            mask,
        )[0] < super::schema::active_of(fs, mask).len() && super::schema::active_of(
            fs,
            mask,
        )[active_places(seq![x], mask)[0]] == fs[x - 1],
    decreases b.len(),
{
    reveal_with_fuel(active_places, 2);
    assert(seq![x].drop_last() =~= Seq::<usize>::empty());
    assert(mask.take(x as int).drop_last() =~= mask.take(x - 1));
    if mask[x - 1] {
        super::schema::active_features_keep_their_order(fs, mask, x - 1);
    }
    if b.len() == 0 {
        assert(a + b =~= a);
        assert(active_places(a, mask) + active_places(b, mask) =~= active_places(a, mask));
    } else {
        places_point_at_their_features(a, b.drop_last(), x, fs, mask);
        assert((a + b).drop_last() =~= a + b.drop_last());
        assert(active_places(a + b, mask) =~= active_places(a, mask) + active_places(b, mask));
    }
}

/// A vector without a place that is not finite has none.
proof fn bounded_everywhere(v: Seq<Double>, k: int)
    requires
        0 <= k,
        forall|i: int| 0 <= i < v.len() ==> (#[trigger] v[i]).finite(),
    ensures
        first_unbounded(v, k) is None,
    decreases v.len() - k,
{
    if k < v.len() {
        bounded_everywhere(v, k + 1);
    }
}

/// The place that is found holds no finite number, and those before it do.
proof fn unbounded_at_last(v: Seq<Double>, k: int)
    requires
        0 <= k,
    ensures
        first_unbounded(v, k) matches Some(j) ==> k <= j < v.len() && !v[j].finite() && forall|
            i: int,
        |
            k <= i < j ==> (#[trigger] v[i]).finite(),
    decreases v.len() - k,
{
    if k < v.len() {
        unbounded_at_last(v, k + 1);
    }
}

/// Nothing is found wrong with candidates that fit.
proof fn no_candidate_fault(cands: Seq<Seq<Double>>, norms: Seq<Double>, dim: nat, i: int)
    requires
        0 <= i,
        norms.len() == cands.len(),
        forall|k: int|
            0 <= k < cands.len() ==> (#[trigger] cands[k]).len() == 1 + dim && forall|j: int|
                0 <= j < cands[k].len() ==> (#[trigger] cands[k][j]).finite(),
        forall|k: int| 0 <= k < cands.len() ==> !(#[trigger] norms[k]).null(),
    ensures
        candidate_fault(cands, norms, dim, i) is None,
    decreases cands.len() - i,
{
    if i < cands.len() {
        bounded_everywhere(cands[i], 0);
        no_candidate_fault(cands, norms, dim, i + 1);
    }
}

/// Candidates with alpha and one weight for each active feature, all of them finite and the weights
/// never of length 0, are accepted.
pub proof fn fitting_candidates_are_accepted<N: Fn(&Vec<Double>) -> Double>(
    norm: N,
    cands: Seq<Seq<Double>>,
    dim: nat,
    refusal: Option<Seq<char>>,
)
    requires
        checked(norm, cands, dim, refusal),
        forall|k: int|
            0 <= k < cands.len() ==> (#[trigger] cands[k]).len() == 1 + dim && forall|j: int|
                0 <= j < cands[k].len() ==> (#[trigger] cands[k][j]).finite(),
        forall|z: &Vec<Double>, x: Double| #[trigger] call_ensures(norm, (z,), x) ==> !x.null(),
    ensures
        refusal is None,
{
    let norms = choose|norms: Seq<Double>| #[trigger]
        normed(norm, cands, norms) && refusal == match candidate_fault(cands, norms, dim, 0) {
            Some(f) => Some(candidate_fault_text(cands, dim, f)),
            None => None,
        };
    assert forall|k: int| 0 <= k < cands.len() implies !(#[trigger] norms[k]).null() by {
        assert(normed_one(norm, cands[k], norms[k]));
    }
    no_candidate_fault(cands, norms, dim, 0);
}

/// Candidates are refused where one of them has the wrong length, a number that is not finite, or
/// weights whose length can only be 0.
pub proof fn unfit_candidates_are_refused<N: Fn(&Vec<Double>) -> Double>(
    norm: N,
    cands: Seq<Seq<Double>>,
    dim: nat,
    refusal: Option<Seq<char>>,
    i: int,
)
    requires
        checked(norm, cands, dim, refusal),
        0 <= i < cands.len(),
        cands[i].len() != 1 + dim || (exists|j: int|
            0 <= j < cands[i].len() && !(#[trigger] cands[i][j]).finite()) || (forall|
            z: &Vec<Double>,
            x: Double,
        |
            z@ == cands[i].skip(1) && #[trigger] call_ensures(norm, (z,), x) ==> x.null()),
    ensures
        refusal is Some,
{
    let norms = choose|norms: Seq<Double>| #[trigger]
        normed(norm, cands, norms) && refusal == match candidate_fault(cands, norms, dim, 0) {
            Some(f) => Some(candidate_fault_text(cands, dim, f)),
            None => None,
        };
    if refusal is None {
        accepted_candidates_fit(cands, norms, dim, 0);
        assert(normed_one(norm, cands[i], norms[i]));
        assert(cands[i].len() == 1 + dim);
        assert(!norms[i].null());
        let z = choose|z: &Vec<Double>|
            z@ == behind_first(cands[i]) && #[trigger] call_ensures(norm, (z,), norms[i]);
        assert(call_ensures(norm, (z,), norms[i]));
    }
}

/// What is told of candidates is their first fault: every candidate before it fits.
pub proof fn first_candidate_fault(
    cands: Seq<Seq<Double>>,
    norms: Seq<Double>,
    dim: nat,
    i: int,
)
    requires
        0 <= i,
    ensures
        match candidate_fault(cands, norms, dim, i) {
            Some(CandidateFault::Length(p)) => i <= p < cands.len() && cands[p].len() != 1 + dim
                && candidate_fault(cands.take(p), norms, dim, i) is None,
            Some(CandidateFault::NotFinite(p, j)) => i <= p < cands.len() && cands[p].len() == 1
                + dim && 0 <= j < cands[p].len() && !cands[p][j].finite() && (forall|m: int|
                0 <= m < j ==> (#[trigger] cands[p][m]).finite()) && candidate_fault(
                cands.take(p),
                norms,
                dim,
                i,
            ) is None,
            Some(CandidateFault::ZeroNorm(p)) => i <= p < cands.len() && cands[p].len() == 1 + dim
                && norms[p].null() && (forall|m: int|
                0 <= m < cands[p].len() ==> (#[trigger] cands[p][m]).finite()) && candidate_fault(
                cands.take(p),
                norms,
                dim,
                i,
            ) is None,
            None => true,
        },
    decreases cands.len() - i,
{
    if i < cands.len() {
        let c = cands[i];
        unbounded_at_last(c, 0);
        if first_unbounded(c, 0) is None {
            all_bounded(c, 0);
        }
        if c.len() == 1 + dim && first_unbounded(c, 0) is None && !norms[i].null() {
            first_candidate_fault(cands, norms, dim, i + 1);
        }
    }
}

/// A faultless candidate file that lists anything gives exactly its candidates, in the order of the
/// file. The first of them is the vector in use from then on unless there was one, and nothing else
/// changes.
pub proof fn files_give_their_candidates<
    E: Fn(usize) -> Double,
    N: Fn(&Vec<Double>) -> Double,
>(
    even: E,
    norm: N,
    s: StateView,
    text: String,
    cands: Seq<Seq<Double>>,
    read: Option<Result<Seq<Seq<Double>>, Seq<char>>>,
    dim: usize,
    mask: Seq<bool>,
    schema_dim: nat,
    t: StateView,
)
    requires
        s.globals.v_candidates.len() == 0,
        json_rows(text@) == Ok::<Seq<Seq<Double>>, Seq<char>>(cands),
        cands.len() > 0,
        file_read(norm, Some(Ok(text)), dim as nat, read),
        !(read matches Some(Err(_))),
        candidates_set(even, s, read, dim, mask, schema_dim, t),
    ensures
        t.globals.v_candidates == cands,
        s.globals.current_v.len() == 0 ==> t.globals.current_v == cands[0],
        s.globals.current_v.len() > 0 ==> t.globals.current_v == s.globals.current_v,
        t == (StateView {
            globals: GlobalsView {
                v_candidates: t.globals.v_candidates,
                current_v: t.globals.current_v,
                ..s.globals
            },
            ..s
        }),
{
}

/// Candidates that are there already stay, whatever a file gives.
pub proof fn candidates_stay<E: Fn(usize) -> Double>(
    even: E,
    s: StateView,
    read: Option<Result<Seq<Seq<Double>>, Seq<char>>>,
    dim: usize,
    mask: Seq<bool>,
    schema_dim: nat,
    t: StateView,
)
    requires
        s.globals.v_candidates.len() > 0,
        candidates_set(even, s, read, dim, mask, schema_dim, t),
    ensures
        t == s,
{
}

/// Without a candidate file, or with one that lists nothing, there is one candidate with the even
/// weight everywhere, and behind it one for each active feature, in the order of the schema, that has
/// the weight 1 for this feature and 0 for all others. Each has the initial alpha in front.
pub proof fn runs_start_with_single_features<E: Fn(usize) -> Double>(
    even: E,
    s: StateView,
    read: Option<Result<Seq<Seq<Double>>, Seq<char>>>,
    dim: usize,
    mask: Seq<bool>,
    w: Double,
    t: StateView,
    i: int,
    j: int,
)
    requires
        s.globals.v_candidates.len() == 0,
        read matches Some(Ok(cands)) ==> cands.len() == 0,
        mask.len() <= usize::MAX,
        dim == set_count(mask),
        forall|x: Double| #[trigger] call_ensures(even, (dim,), x) ==> x == w,
        candidates_set(even, s, read, dim, mask, mask.len(), t),
        0 <= i <= dim,
        0 <= j <= dim,
    ensures
        t.globals.v_candidates.len() == 1 + dim,
        t.globals.v_candidates[i].len() == 1 + dim,
        j == 0 && s.globals.alpha_init.finite() ==> t.globals.v_candidates[i][j]
            == s.globals.alpha_init.unit(),
        j == 0 && !s.globals.alpha_init.finite() ==> t.globals.v_candidates[i][j] == (Double {
            bits: 0x3FE0_0000_0000_0000,
        }),
        j > 0 && i == 0 ==> t.globals.v_candidates[i][j] == w,
        j > 0 && i == j ==> t.globals.v_candidates[i][j] == (Double { bits: 0x3FF0_0000_0000_0000 }),
        j > 0 && i > 0 && i != j ==> t.globals.v_candidates[i][j] == (Double { bits: 0 }),
{
    default_candidate_order(s.globals.alpha_init, mask, w);
    let got = choose|x: Double| #[trigger]
        call_ensures(even, (dim,), x) && t == with_candidates(
            s,
            starting_candidates(
                listed(read),
                s.globals.alpha_init,
                dim as nat,
                mask,
                mask.len(),
                x,
            ),
        );
    assert(got == w);
    let cands = starting_candidates(None, s.globals.alpha_init, dim as nat, mask, mask.len(), w);
    assert(t.globals.v_candidates == cands);
    if i > 0 {
        assert(cands[(i - 1) + 1] == seq![starting_alpha(s.globals.alpha_init)] + one_hot_of(
            dim as nat,
            i - 1,
        ));
    }
}

/// A file that cannot be read, or holds something else than candidates, is told of and gives none.
pub proof fn broken_files_are_told<N: Fn(&Vec<Double>) -> Double>(
    norm: N,
    file: Option<Result<String, String>>,
    dim: nat,
    read: Option<Result<Seq<Seq<Double>>, Seq<char>>>,
)
    requires
        file_read(norm, file, dim, read),
    ensures
        file is None <==> read is None,
        file matches Some(Err(e)) ==> read == Some(Err::<Seq<Seq<Double>>, Seq<char>>(e@)),
        file matches Some(Ok(text)) ==> (json_rows(text@) is Err ==> read->0 is Err),
        file matches Some(Ok(text)) ==> (read->0 is Ok ==> read->0 == json_rows(text@)),
{
}

/// Candidates take the place of none, in their order, and the first of them is in use from then on
/// unless a vector was. Candidates that are there already stay, and then nothing changes.
pub proof fn candidates_take_the_place_of_none(s: StateView, cands: Seq<Seq<Double>>)
    ensures
        s.globals.v_candidates.len() > 0 ==> with_candidates(s, cands) == s,
        s.globals.v_candidates.len() == 0 ==> ({
            let t = with_candidates(s, cands);
            &&& t.globals.v_candidates == cands
            &&& s.globals.current_v.len() == 0 ==> t.globals.current_v == cands[0]
            &&& s.globals.current_v.len() > 0 ==> t.globals.current_v == s.globals.current_v
            &&& t == (StateView {
                globals: GlobalsView {
                    v_candidates: t.globals.v_candidates,
                    current_v: t.globals.current_v,
                    ..s.globals
                },
                ..s
            })
        }),
{
}

/// Candidates start with the initial alpha where it lies between 0 and 1, with the nearer of these where
/// it does not, and with a half where it is no finite number.
pub proof fn candidates_start_with_alpha(alpha_init: Double)
    ensures
        (Double { bits: 0 }).at_most(alpha_init) && alpha_init.at_most(Double { bits: 0x3FF0_0000_0000_0000 })
            ==> starting_alpha(alpha_init) == alpha_init,
        alpha_init.finite() && alpha_init.below(Double { bits: 0 }) ==> starting_alpha(alpha_init)
            == (Double { bits: 0 }),
        alpha_init.finite() && (Double { bits: 0x3FF0_0000_0000_0000 }).below(alpha_init) ==> starting_alpha(alpha_init) == (
        Double { bits: 0x3FF0_0000_0000_0000 }),
        !alpha_init.finite() ==> starting_alpha(alpha_init) == (Double {
            bits: 0x3FE0_0000_0000_0000,
        }),
{
    crate::double::unit_keeps_shares(alpha_init);
    crate::double::kinds_of_numbers(alpha_init);
}

/// What a candidate file gives is told as it is: its candidates, or what is said of it, or nothing where
/// there is no file. Only candidates count as listed.
pub proof fn given_candidates_are_modelled(
    r: Result<Vec<Vec<Double>>, String>,
    read: Option<Result<Seq<Seq<Double>>, Seq<char>>>,
)
    ensures
        r matches Ok(cands) ==> outcome_of(r) == Ok::<Seq<Seq<Double>>, Seq<char>>(rows(cands@)),
        r matches Err(e) ==> outcome_of(r) == Err::<Seq<Seq<Double>>, Seq<char>>(e@),
        given_by(Some(r)) == Some(outcome_of(r)),
        given_by(None) is None,
        read matches Some(Ok(cands)) ==> listed(read) == Some(cands),
        !(read matches Some(Ok(_))) ==> listed(read) is None,
{
}

/// Seeing to it that there are candidates takes those of a faultless file that lists any, keeps those
/// that are there, and refuses a file that cannot be read without changing anything.
pub proof fn candidates_come_from_the_file<
    E: Fn(usize) -> Double,
    N: Fn(&Vec<Double>) -> Double,
>(
    state: &mut SchedulerState,
    file: Option<Result<String, String>>,
    active_dim: usize,
    mask: Vec<bool>,
    schema_dim: usize,
    even: E,
    norm: N,
    r: Result<(), String>,
)
    requires
        call_ensures(
            ensure_v_candidates_for::<E, N>,
            (state, file, active_dim, &mask, schema_dim, &even, &norm),
            r,
        ),
    ensures
        old(state)@.globals.v_candidates.len() > 0 ==> r is Ok && final(state)@ == old(state)@,
        old(state)@.globals.v_candidates.len() == 0 && r is Ok ==> (file matches Some(Ok(text))
            ==> (json_rows(text@) matches Ok(cands) ==> (cands.len() > 0
            ==> final(state)@.globals.v_candidates == cands))),
        r is Err ==> final(state)@ == old(state)@,
        old(state)@.globals.v_candidates.len() == 0 ==> (file matches Some(Err(e)) ==> r is Err && (
        r->Err_0)@ == e@),
        old(state)@.globals.v_candidates.len() == 0 && file is None ==> r is Ok,
{
}

} // verus!
