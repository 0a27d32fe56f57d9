//! When two weight vectors count as the same.

use vstd::prelude::*;

use crate::double::Double;

verus! {

/// The bit pattern of 1e-3, the distance below which two candidates are the same.
pub const CANDIDATE_EPS_BITS: u64 = 0x3F50_624D_D2F1_A9FC;

/// The bit pattern of 1e-6, the distance below which a trial repeats the one before.
pub const TRIAL_EPS_BITS: u64 = 0x3EB0_C6F7_A0B5_ED8D;

/// Can `within` be asked about any two numbers?
pub open spec fn askable<F: Fn(Double, Double, Double) -> bool>(within: F) -> bool {
    forall|x: Double, y: Double, eps: Double| #[trigger] call_requires(within, (x, y, eps))
}

/// The vectors have one length, and `within` found every pair of components at most `eps` apart.
pub open spec fn found_same<F: Fn(Double, Double, Double) -> bool>(
    within: F,
    a: Seq<Double>,
    b: Seq<Double>,
    eps: Double,
) -> bool {
    a.len() == b.len() && forall|i: int|
        #![trigger a[i]]
        0 <= i < a.len() ==> call_ensures(within, (a[i], b[i], eps), true)
}

/// The vectors differ in length, or `within` found some pair of components more than `eps` apart.
pub open spec fn found_other<F: Fn(Double, Double, Double) -> bool>(
    within: F,
    a: Seq<Double>,
    b: Seq<Double>,
    eps: Double,
) -> bool {
    a.len() != b.len() || exists|i: int|
        #![trigger a[i]]
        0 <= i < a.len() && call_ensures(within, (a[i], b[i], eps), false)
}

/// One of the vectors was found to be the same as `v`.
pub open spec fn found_among<F: Fn(Double, Double, Double) -> bool>(
    within: F,
    list: Seq<Seq<Double>>,
    v: Seq<Double>,
    eps: Double,
) -> bool {
    exists|i: int| 0 <= i < list.len() && found_same(within, #[trigger] list[i], v, eps)
}

/// Each of the vectors was found to differ from `v`.
pub open spec fn found_nowhere<F: Fn(Double, Double, Double) -> bool>(
    within: F,
    list: Seq<Seq<Double>>,
    v: Seq<Double>,
    eps: Double,
) -> bool {
    forall|i: int| 0 <= i < list.len() ==> found_other(within, #[trigger] list[i], v, eps)
}

/// Does `within` give one answer to one question?
pub open spec fn steady<F: Fn(Double, Double, Double) -> bool>(within: F) -> bool {
    forall|x: Double, y: Double, eps: Double|
        !(#[trigger] call_ensures(within, (x, y, eps), true) && call_ensures(
            within,
            (x, y, eps),
            false,
        ))
}

/// With a comparison that gives one answer to one question, the two findings exclude each other.
pub proof fn findings_exclude<F: Fn(Double, Double, Double) -> bool>(
    within: F,
    a: Seq<Double>,
    b: Seq<Double>,
    eps: Double,
)
    requires
        steady(within),
    ensures
        !(found_same(within, a, b, eps) && found_other(within, a, b, eps)),
{
    if found_same(within, a, b, eps) && found_other(within, a, b, eps) {
        let i = choose|i: int|
            #![trigger a[i]]
            0 <= i < a.len() && call_ensures(within, (a[i], b[i], eps), false);
        assert(call_ensures(within, (a[i], b[i], eps), true));
    }
}

/// Are the vectors of one length and component by component at most `eps` apart? The distance of
/// two numbers is left to `within`.
pub fn vecn_eq<F: Fn(Double, Double, Double) -> bool>(
    a: &Vec<Double>,
    b: &Vec<Double>,
    eps: Double,
    within: &F,
) -> (r: bool)
    requires
        askable(*within),
    ensures
        r ==> found_same(*within, a@, b@, eps),
        !r ==> found_other(*within, a@, b@, eps),
{
    if a.len() != b.len() {
        return false;
    }
    let mut i: usize = 0;
    while i < a.len()
        invariant
            askable(*within),
            i <= a@.len(),
            a@.len() == b@.len(),
            forall|k: int|
                #![trigger a@[k]]
                0 <= k < i ==> call_ensures(*within, (a@[k], b@[k], eps), true),
        decreases a@.len() - i,
    {
        assert(call_requires(*within, (a@[i as int], b@[i as int], eps)));
        if !within(a[i], b[i], eps) {
            return false;
        }
        i = i + 1;
    }
    true
}

/// Is one of the vectors the same as `v`?
pub fn any_same<F: Fn(Double, Double, Double) -> bool>(
    list: &Vec<Vec<Double>>,
    v: &Vec<Double>,
    eps: Double,
    within: &F,
) -> (r: bool)
    requires
        askable(*within),
    ensures
        r ==> found_among(*within, super::metadata::rows(list@), v@, eps),
        !r ==> found_nowhere(*within, super::metadata::rows(list@), v@, eps),
{
    let ghost all = super::metadata::rows(list@);
    let mut i: usize = 0;
    while i < list.len()
        invariant
            askable(*within),
            i <= list@.len(),
            all == super::metadata::rows(list@),
            forall|k: int| 0 <= k < i ==> found_other(*within, #[trigger] all[k], v@, eps),
        decreases list@.len() - i,
    {
        if vecn_eq(&list[i], v, eps, within) {
            assert(found_same(*within, all[i as int], v@, eps));
            return true;
        }
        assert(found_other(*within, all[i as int], v@, eps));
        i = i + 1;
    }
    false
}

/// Two vectors are the same exactly if they are so without their last components and those are within
/// reach of each other too, and they differ as soon as one pair of components does.
pub proof fn sameness_is_by_component<F: Fn(Double, Double, Double) -> bool>(
    within: F,
    a: Seq<Double>,
    b: Seq<Double>,
    x: Double,
    y: Double,
    eps: Double,
)
    requires
        a.len() == b.len(),
    ensures
        found_same(within, Seq::<Double>::empty(), Seq::<Double>::empty(), eps),
        found_same(within, a.push(x), b.push(y), eps) <==> found_same(within, a, b, eps)
            && call_ensures(within, (x, y, eps), true),
        found_other(within, a.push(x), b.push(y), eps) <==> found_other(within, a, b, eps)
            || call_ensures(within, (x, y, eps), false),
        !found_other(within, Seq::<Double>::empty(), Seq::<Double>::empty(), eps),
        !found_same(within, a.push(x), b, eps) && !found_same(within, a, b.push(y), eps),
        found_other(within, a.push(x), b, eps) && found_other(within, a, b.push(y), eps),
{
    let p = a.push(x);
    let q = b.push(y);
    assert(p[a.len() as int] == x && q[b.len() as int] == y);
    if found_same(within, p, q, eps) {
        assert forall|i: int| #![trigger a[i]] 0 <= i < a.len() implies call_ensures(
            within,
            (a[i], b[i], eps),
            true,
        ) by {
            assert(p[i] == a[i] && q[i] == b[i]);
        }
    }
    if found_same(within, a, b, eps) && call_ensures(within, (x, y, eps), true) {
        assert forall|i: int| #![trigger p[i]] 0 <= i < p.len() implies call_ensures(
            within,
            (p[i], q[i], eps),
            true,
        ) by {
            if i < a.len() {
                assert(a[i] == p[i]);
            }
        }
    }
    if found_other(within, p, q, eps) {
        let i = choose|i: int|
            #![trigger p[i]]
            0 <= i < p.len() && call_ensures(within, (p[i], q[i], eps), false);
        if i < a.len() {
            assert(a[i] == p[i]);
        }
    }
    if found_other(within, a, b, eps) {
        let i = choose|i: int|
            #![trigger a[i]]
            0 <= i < a.len() && call_ensures(within, (a[i], b[i], eps), false);
        assert(p[i] == a[i]);
    }
}

/// A vector is among others exactly if it is the same as the last one or among those before it, and
/// nowhere among them exactly if it differs from the last one and is nowhere among those before it.
pub proof fn findings_go_through_the_list<F: Fn(Double, Double, Double) -> bool>(
    within: F,
    list: Seq<Seq<Double>>,
    w: Seq<Double>,
    v: Seq<Double>,
    eps: Double,
)
    ensures
        !found_among(within, Seq::<Seq<Double>>::empty(), v, eps),
        found_nowhere(within, Seq::<Seq<Double>>::empty(), v, eps),
        found_among(within, list.push(w), v, eps) <==> found_among(within, list, v, eps)
            || found_same(within, w, v, eps),
        found_nowhere(within, list.push(w), v, eps) <==> found_nowhere(within, list, v, eps)
            && found_other(within, w, v, eps),
{
    let all = list.push(w);
    assert(all[list.len() as int] == w);
    if found_among(within, list, v, eps) {
        let i = choose|i: int| 0 <= i < list.len() && found_same(within, #[trigger] list[i], v, eps);
        assert(all[i] == list[i]);
    }
    if found_among(within, all, v, eps) {
        let i = choose|i: int| 0 <= i < all.len() && found_same(within, #[trigger] all[i], v, eps);
        if i < list.len() {
            assert(all[i] == list[i]);
        }
    }
    if found_nowhere(within, all, v, eps) {
        assert forall|i: int| 0 <= i < list.len() implies found_other(
            within,
            #[trigger] list[i],
            v,
            eps,
        ) by {
            assert(all[i] == list[i]);
        }
    }
    if found_nowhere(within, list, v, eps) && found_other(within, w, v, eps) {
        assert forall|i: int| 0 <= i < all.len() implies found_other(
            within,
            #[trigger] all[i],
            v,
            eps,
        ) by {
            if i < list.len() {
                assert(all[i] == list[i]);
            }
        }
    }
}

/// With a comparison that gives one answer to one question, a vector cannot be both among others and
/// nowhere among them.
pub proof fn among_or_nowhere<F: Fn(Double, Double, Double) -> bool>(
    within: F,
    list: Seq<Seq<Double>>,
    v: Seq<Double>,
    eps: Double,
)
    requires
        steady(within),
    ensures
        !(found_among(within, list, v, eps) && found_nowhere(within, list, v, eps)),
{
    if found_among(within, list, v, eps) && found_nowhere(within, list, v, eps) {
        let i = choose|i: int| 0 <= i < list.len() && found_same(within, #[trigger] list[i], v, eps);
        findings_exclude(within, list[i], v, eps);
    }
}

/// Vectors count as the same for the pool within 1e-3, and as those of one trial within 1e-6.
pub proof fn tolerances_are_fixed()
    ensures
        CANDIDATE_EPS_BITS == 0x3F50_624D_D2F1_A9FC,
        TRIAL_EPS_BITS == 0x3EB0_C6F7_A0B5_ED8D,
        (Double { bits: 0 }).below(Double { bits: TRIAL_EPS_BITS }),
        (Double { bits: TRIAL_EPS_BITS }).below(Double { bits: CANDIDATE_EPS_BITS }),
{
}

} // verus!
