//! Sums, with the addition left to the caller.

use vstd::prelude::*;

use crate::double::Double;

verus! {

/// The sums that adding up the terms from left to right goes through, beginning with 0.
pub open spec fn running_sums<A: Fn(Double, Double) -> Double>(
    plus: A,
    terms: Seq<Double>,
    total: Double,
    sums: Seq<Double>,
) -> bool {
    &&& sums.len() == terms.len() + 1
    &&& sums[0] == (Double { bits: 0 })
    &&& sums[terms.len() as int] == total
    &&& forall|i: int|
        #![trigger terms[i]]
        0 <= i < terms.len() ==> call_ensures(plus, (sums[i], terms[i]), sums[i + 1])
}

/// `total` is what `plus` made of the terms, from left to right.
pub open spec fn summed<A: Fn(Double, Double) -> Double>(
    plus: A,
    terms: Seq<Double>,
    total: Double,
) -> bool {
    exists|sums: Seq<Double>| running_sums(plus, terms, total, sums)
}

/// Can `plus` be asked for any two numbers?
pub open spec fn summable<A: Fn(Double, Double) -> Double>(plus: A) -> bool {
    forall|x: Double, y: Double| #[trigger] call_requires(plus, (x, y))
}

/// The sum of the terms, from left to right.
pub fn sum_up<A: Fn(Double, Double) -> Double>(list: &Vec<Double>, plus: &A) -> (r: Double)
    requires
        summable(*plus),
    ensures
        summed(*plus, list@, r),
{
    let ghost terms = list@;
    let mut total: Double = Double::zero();
    let ghost mut sums = seq![total];
    let mut i: usize = 0;
    while i < list.len()
        invariant
            summable(*plus),
            i <= list@.len(),
            terms == list@,
            sums.len() == i + 1,
            sums[0] == (Double { bits: 0 }),
            sums[i as int] == total,
            forall|k: int|
                #![trigger terms[k]]
                0 <= k < i ==> call_ensures(*plus, (sums[k], terms[k]), sums[k + 1]),
        decreases list@.len() - i,
    {
        let ghost before = sums;
        let term: Double = list[i];
        assert(term == terms[i as int]);
        assert(call_requires(*plus, (total, term)));
        total = plus(total, term);
        proof {
            sums = before.push(total);
            assert forall|k: int| #![trigger terms[k]] 0 <= k < i implies call_ensures(
                *plus,
                (sums[k], terms[k]),
                sums[k + 1],
            ) by {
                assert(call_ensures(*plus, (before[k], terms[k]), before[k + 1]));
            }
        }
        i = i + 1;
    }
    assert(running_sums(*plus, terms, total, sums));
    total
}

/// Those of the numbers that are positive.
pub open spec fn positives(s: Seq<Double>) -> Seq<Double>
    decreases s.len(),
{
    if s.len() == 0 {
        Seq::empty()
    } else if (Double { bits: 0 }).below(s.last()) {
        positives(s.drop_last()).push(s.last())
    } else {
        positives(s.drop_last())
    }
}

/// Those of the numbers that are positive.
pub fn positive_ones(list: &Vec<Double>) -> (r: Vec<Double>)
    ensures
        r@ == positives(list@),
{
    let mut r: Vec<Double> = Vec::new();
    let mut i: usize = 0;
    while i < list.len()
        invariant
            i <= list@.len(),
            r@ == positives(list@.take(i as int)),
        decreases list@.len() - i,
    {
        assert(list@.take(i + 1).drop_last() =~= list@.take(i as int));
        if Double::zero().lt(list[i]) {
            r.push(list[i]);
        }
        i = i + 1;
    }
    assert(list@.take(list@.len() as int) =~= list@);
    r
}

/// Adding up nothing gives 0, and one more term is added to the sum of those before it.
pub proof fn sums_add_the_last_term<A: Fn(Double, Double) -> Double>(
    plus: A,
    terms: Seq<Double>,
    total: Double,
)
    requires
        summed(plus, terms, total),
    ensures
        terms.len() == 0 ==> total == (Double { bits: 0 }),
        terms.len() > 0 ==> exists|before: Double| #[trigger]
            summed(plus, terms.drop_last(), before) && call_ensures(
                plus,
                (before, terms.last()),
                total,
            ),
{
    let sums = choose|sums: Seq<Double>| running_sums(plus, terms, total, sums);
    if terms.len() > 0 {
        let front = terms.drop_last();
        let before = sums[terms.len() - 1];
        assert(call_ensures(plus, (before, terms[terms.len() - 1]), total));
        assert forall|i: int| #![trigger front[i]] 0 <= i < front.len() implies call_ensures(
            plus,
            (sums.drop_last()[i], front[i]),
            sums.drop_last()[i + 1],
        ) by {
            assert(front[i] == terms[i]);
        }
        assert(running_sums(plus, front, before, sums.drop_last()));
        assert(summed(plus, front, before));
    }
}

/// The positive ones of a list are those of its parts one after the other, and of a single number
/// they are that number where it is greater than 0.
pub proof fn positives_are_picked(a: Seq<Double>, b: Seq<Double>, x: Double)
    ensures
        positives(a + b) == positives(a) + positives(b),
        (Double { bits: 0 }).below(x) ==> positives(seq![x]) == seq![x],
        !(Double { bits: 0 }).below(x) ==> positives(seq![x]) == Seq::<Double>::empty(),
    decreases b.len(),
{
    assert(seq![x].drop_last() =~= Seq::<Double>::empty());
    assert(positives(Seq::<Double>::empty()) =~= Seq::<Double>::empty());
    assert(Seq::<Double>::empty().push(x) =~= seq![x]);
    if b.len() == 0 {
        assert(a + b =~= a);
        assert(positives(a) + positives(b) =~= positives(a));
    } else {
        positives_are_picked(a, b.drop_last(), x);
        assert((a + b).drop_last() =~= a + b.drop_last());
        assert(positives(a + b) =~= positives(a) + positives(b));
    }
}

} // verus!
