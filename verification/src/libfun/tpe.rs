//! The search over vectors of alpha and one weight for each feature, in windows of time.

use vstd::prelude::*;

use libafl_bolts::rands::StdRand;

use crate::clock::now_epoch_ms;
use crate::double::{Double, HALF_BITS, INFINITE_MAGNITUDE};
use crate::feature_sched::candidates::of_length;
use crate::feature_sched::metadata::{
    copy_numbers, kept_trials, rows, HistoryView, TpeHistoryMeta,
};
use crate::feature_sched::tpe::{
    draw_one, drawable, drawn_from, drawn_one, form_of, last_of, left_over, passed_over, queued_one,
    text_rows, trial_lines, trials_text, with_pool, MAX_TRIALS,
};
use crate::feature_sched::vectors::{
    any_same, askable, found_among, found_nowhere, found_other, steady, CANDIDATE_EPS_BITS,
};
use crate::feature_sched::{
    get_v_candidates, push_v_candidate, replace_v_candidates, SchedulerState, StateView,
};
use crate::rng::draw_below;
use crate::text::texts;

verus! {

/// The bit pattern of 0.2.
pub const GOOD_SHARE_BITS: u64 = 0x3FC9_9999_9999_999A;

/// The bit pattern of 0.15.
pub const BANDWIDTH_BITS: u64 = 0x3FC3_3333_3333_3333;

/// The bit pattern of 1 + 1e-6, the score that a drawn vector has to exceed.
pub const SCORE_FLOOR_BITS: u64 = 0x3FF0_0001_0C6F_7A0B;

/// The number of trials below which the history is not split.
pub const LEAST_TRIALS: usize = 5;

/// The number of components of a weight vector: alpha and one for each of the eight features.
pub const VECTOR_LEN: usize = 9;

/// How the search is conducted.
#[derive(Clone, Copy, PartialEq, Eq, Structural, Debug)]
pub struct TpeParams {
    /// The share of the trials that counts as good.
    pub gamma: Double,
    /// How many vectors are drawn at a time.
    pub samples: usize,
    /// The bandwidth of the density estimates.
    pub bw: Double,
    /// The length of a window in seconds.
    pub period: u64,
}

impl Default for TpeParams {
    fn default() -> (r: Self)
        ensures
            r == (TpeParams {
                gamma: Double { bits: GOOD_SHARE_BITS },
                samples: 64,
                bw: Double { bits: BANDWIDTH_BITS },
                period: 60,
            }),
    {
        TpeParams {
            gamma: Double { bits: GOOD_SHARE_BITS },
            samples: 64,
            bw: Double { bits: BANDWIDTH_BITS },
            period: 60,
        }
    }
}

/// One trial: a vector and what it earned.
#[derive(Debug)]
pub struct Trial {
    pub vec: Vec<Double>,
    pub reward: Double,
}

/// The model of a [`Trial`].
pub ghost struct Point {
    pub vec: Seq<Double>,
    pub reward: Double,
}

impl View for Trial {
    type V = Point;

    open spec fn view(&self) -> Point {
        Point { vec: self.vec@, reward: self.reward }
    }
}

/// The models of a list of trials.
pub open spec fn points(v: Seq<Trial>) -> Seq<Point> {
    v.map_values(|t: Trial| t@)
}

/// What the search remembers.
#[derive(Debug)]
pub struct TpeState {
    pub trials: Vec<Trial>,
    pub last_vec: Vec<Double>,
    /// When the window began, in nanoseconds of a clock that the caller reads.
    pub window_start: Option<u64>,
    pub last_corpus: Option<usize>,
    pub last_cov: Option<usize>,
    pub no_new_counter: usize,
    pub lock_best: bool,
    pub best_fixed: Vec<Double>,
    pub restored_once: bool,
}

/// The model of a [`TpeState`].
pub ghost struct WindowView {
    pub trials: Seq<Point>,
    pub last_vec: Seq<Double>,
    pub window_start: Option<u64>,
    pub last_corpus: Option<usize>,
    pub last_cov: Option<usize>,
    pub no_new_counter: usize,
    pub lock_best: bool,
    pub best_fixed: Seq<Double>,
    pub restored_once: bool,
}

impl View for TpeState {
    type V = WindowView;

    open spec fn view(&self) -> WindowView {
        WindowView {
            trials: points(self.trials@),
            last_vec: self.last_vec@,
            window_start: self.window_start,
            last_corpus: self.last_corpus,
            last_cov: self.last_cov,
            no_new_counter: self.no_new_counter,
            lock_best: self.lock_best,
            best_fixed: self.best_fixed@,
            restored_once: self.restored_once,
        }
    }
}

/// The search before it has done anything.
pub open spec fn initial_search() -> WindowView {
    WindowView {
        trials: Seq::empty(),
        last_vec: Seq::empty(),
        window_start: None,
        last_corpus: None,
        last_cov: None,
        no_new_counter: 0,
        lock_best: false,
        best_fixed: Seq::empty(),
        restored_once: false,
    }
}

impl Default for TpeState {
    fn default() -> (r: Self)
        ensures
            r@ == initial_search(),
    {
        let r = TpeState {
            trials: Vec::new(),
            last_vec: Vec::new(),
            window_start: None,
            last_corpus: None,
            last_cov: None,
            no_new_counter: 0,
            lock_best: false,
            best_fixed: Vec::new(),
            restored_once: false,
        };
        assert(r@.trials =~= initial_search().trials);
        r
    }
}

/// The search.
pub struct TpeOptimizer {
    pub params: TpeParams,
    pub state: TpeState,
}

/// A copy of a trial.
fn copy_trial(t: &Trial) -> (r: Trial)
    ensures
        r@ == t@,
{
    Trial { vec: copy_numbers(&t.vec), reward: t.reward }
}

/// A trial put into an ascending list, behind all that earned no more.
pub open spec fn put_in(s: Seq<Point>, t: Point) -> Seq<Point>
    decreases s.len(),
{
    if s.len() == 0 || !t.reward.below(s.last().reward) {
        s.push(t)
    } else {
        put_in(s.drop_last(), t).push(s.last())
    }
}

/// The trials by ascending reward; those that earned the same stay in their order.
pub open spec fn ascending(ts: Seq<Point>) -> Seq<Point>
    decreases ts.len(),
{
    if ts.len() == 0 {
        Seq::empty()
    } else {
        put_in(ascending(ts.drop_last()), ts.last())
    }
}

/// Is none of the rewards NaN?
pub open spec fn ordered_rewards(ts: Seq<Point>) -> bool {
    forall|i: int| 0 <= i < ts.len() ==> !(#[trigger] ts[i]).reward.nan()
}

/// Does no trial earn less than one before it?
pub open spec fn rising(s: Seq<Point>) -> bool {
    forall|i: int, j: int|
        0 <= i <= j < s.len() ==> (#[trigger] s[i]).reward.rank() <= (#[trigger] s[j]).reward.rank()
}

/// Putting a trial in keeps the order, and adds that trial and nothing else.
proof fn put_in_keeps_order(s: Seq<Point>, t: Point)
    requires
        rising(s),
        ordered_rewards(s),
        !t.reward.nan(),
    ensures
        rising(put_in(s, t)),
        ordered_rewards(put_in(s, t)),
        put_in(s, t).len() == s.len() + 1,
        put_in(s, t).to_multiset() == s.to_multiset().insert(t),
        forall|i: int|
            0 <= i < put_in(s, t).len() ==> (#[trigger] put_in(s, t)[i]).reward.rank()
                <= t.reward.rank() || (s.len() > 0 && put_in(s, t)[i].reward.rank()
                <= s.last().reward.rank()),
    decreases s.len(),
{
    broadcast use vstd::seq_lib::group_to_multiset_ensures;

    if s.len() == 0 || !t.reward.below(s.last().reward) {
        let r = s.push(t);
        assert forall|i: int, j: int| 0 <= i <= j < r.len() implies (
        #[trigger] r[i]).reward.rank() <= (#[trigger] r[j]).reward.rank() by {
            if j == s.len() && i < s.len() {
                assert(s[i].reward.rank() <= s[s.len() - 1].reward.rank());
            }
        }
    } else {
        let front = s.drop_last();
        assert(ordered_rewards(front)) by {
            assert forall|i: int| 0 <= i < front.len() implies !(
            #[trigger] front[i]).reward.nan() by {
                assert(front[i] == s[i]);
            }
        }
        assert(rising(front)) by {
            assert forall|i: int, j: int| 0 <= i <= j < front.len() implies (
            #[trigger] front[i]).reward.rank() <= (#[trigger] front[j]).reward.rank() by {
                assert(front[i] == s[i] && front[j] == s[j]);
            }
        }
        put_in_keeps_order(front, t);
        let mid = put_in(front, t);
        let r = mid.push(s.last());
        assert(s =~= front.push(s.last()));
        assert(mid.to_multiset().insert(s.last()) =~= s.to_multiset().insert(t));
        assert forall|i: int| 0 <= i < mid.len() implies (#[trigger] mid[i]).reward.rank()
            <= s.last().reward.rank() by {
            if front.len() > 0 {
                assert(s[front.len() - 1].reward.rank() <= s[s.len() - 1].reward.rank());
            }
        }
        assert forall|i: int, j: int| 0 <= i <= j < r.len() implies (
        #[trigger] r[i]).reward.rank() <= (#[trigger] r[j]).reward.rank() by {
            if j < mid.len() {
                assert(mid[i].reward.rank() <= mid[j].reward.rank());
            }
        }
    }
}

/// Sorting orders the trials by what they earned, and neither adds nor drops one.
pub proof fn ascending_is_sorted(ts: Seq<Point>)
    requires
        ordered_rewards(ts),
    ensures
        rising(ascending(ts)),
        ordered_rewards(ascending(ts)),
        ascending(ts).len() == ts.len(),
        ascending(ts).to_multiset() == ts.to_multiset(),
    decreases ts.len(),
{
    broadcast use vstd::seq_lib::group_to_multiset_ensures;

    if ts.len() > 0 {
        let front = ts.drop_last();
        assert(ordered_rewards(front)) by {
            assert forall|i: int| 0 <= i < front.len() implies !(
            #[trigger] front[i]).reward.nan() by {
                assert(front[i] == ts[i]);
            }
        }
        ascending_is_sorted(front);
        assert(!ts[ts.len() - 1].reward.nan());
        put_in_keeps_order(ascending(front), ts.last());
        assert(ts =~= front.push(ts.last()));
    } else {
        assert(ascending(ts) =~= ts);
    }
}

/// Where a trial goes: behind the last one that earned no more.
proof fn put_in_at(s: Seq<Point>, t: Point, p: int)
    requires
        0 <= p <= s.len(),
        forall|i: int| p <= i < s.len() ==> t.reward.below((#[trigger] s[i]).reward),
        p > 0 ==> !t.reward.below(s[p - 1].reward),
    ensures
        put_in(s, t) == s.insert(p, t),
    decreases s.len(),
{
    if s.len() == 0 || p == s.len() {
        assert(s.insert(p, t) =~= s.push(t));
    } else {
        assert(t.reward.below(s[s.len() - 1].reward));
        let front = s.drop_last();
        assert forall|i: int| p <= i < front.len() implies t.reward.below(
            (#[trigger] front[i]).reward,
        ) by {
            assert(front[i] == s[i]);
        }
        put_in_at(front, t, p);
        assert(s.insert(p, t) =~= front.insert(p, t).push(s.last()));
    }
}

/// The trials by ascending reward.
fn sort_trials(ts: &Vec<Trial>) -> (r: Vec<Trial>)
    ensures
        points(r@) == ascending(points(ts@)),
{
    let ghost all = points(ts@);
    let mut r: Vec<Trial> = Vec::new();
    let mut i: usize = 0;
    assert(points(r@) =~= ascending(all.take(0)));
    while i < ts.len()
        invariant
            i <= ts@.len(),
            all == points(ts@),
            r@.len() == i,
            points(r@) == ascending(all.take(i as int)),
        decreases ts@.len() - i,
    {
        let t: Trial = copy_trial(&ts[i]);
        let ghost s = points(r@);
        let mut p: usize = r.len();
        while p > 0 && t.reward.lt(r[p - 1].reward)
            invariant
                p <= r@.len(),
                s == points(r@),
                forall|k: int| p <= k < s.len() ==> t@.reward.below((#[trigger] s[k]).reward),
            ensures
                p <= r@.len(),
                forall|k: int| p <= k < s.len() ==> t@.reward.below((#[trigger] s[k]).reward),
                p > 0 ==> !t@.reward.below(s[p - 1].reward),
            decreases p,
        {
            assert(s[p - 1] == r@[p - 1]@);
            p = p - 1;
        }
        proof {
            put_in_at(s, t@, p as int);
            assert(all.take(i + 1).drop_last() =~= all.take(i as int));
            assert(all.take(i + 1).last() == t@);
        }
        let ghost before = r@;
        r.insert(p, t);
        assert(points(r@) =~= points(before).insert(p as int, t@));
        i = i + 1;
    }
    assert(all.take(ts@.len() as int) =~= all);
    r
}

/// Those of the first `n` trials that reach the reward `y`, or those that do not.
pub open spec fn reaching(ts: Seq<Point>, y: Double, reach: bool, n: nat) -> Seq<Point>
    decreases n,
{
    if n == 0 {
        Seq::empty()
    } else {
        let before = reaching(ts, y, reach, (n - 1) as nat);
        if y.at_most(ts[n - 1].reward) == reach {
            before.push(ts[n - 1])
        } else {
            before
        }
    }
}

/// A quota forced into what is possible: at least one, at most all.
pub open spec fn quota_of(quota: nat, n: nat) -> nat {
    if quota < 1 {
        1
    } else if quota > n {
        n
    } else {
        quota
    }
}

/// The reward that a trial has to reach to be among the good ones: with `quota` trials asked for,
/// what the last of them earned.
pub open spec fn threshold(ts: Seq<Point>, quota: nat) -> Double {
    let sorted = ascending(ts);
    sorted[sorted.len() - quota_of(quota, sorted.len())].reward
}

/// The good trials.
pub open spec fn good_points(ts: Seq<Point>, quota: nat) -> Seq<Point> {
    reaching(ascending(ts), threshold(ts, quota), true, ascending(ts).len())
}

/// The other trials.
pub open spec fn other_points(ts: Seq<Point>, quota: nat) -> Seq<Point> {
    reaching(ascending(ts), threshold(ts, quota), false, ascending(ts).len())
}

/// Can the history be split? It can with enough trials, unless all of them are good.
pub open spec fn splits(ts: Seq<Point>, quota: nat) -> bool {
    ts.len() >= LEAST_TRIALS && good_points(ts, quota).len() > 0 && other_points(ts, quota).len()
        > 0
}

/// Every trial is on one side of the split, and the good ones earned more than the others.
pub proof fn split_orders_trials(ts: Seq<Point>, quota: nat)
    requires
        ts.len() > 0,
        ordered_rewards(ts),
    ensures
        good_points(ts, quota).len() + other_points(ts, quota).len() == ts.len(),
        good_points(ts, quota).len() >= quota_of(quota, ts.len()),
        forall|i: int, j: int|
            0 <= i < other_points(ts, quota).len() && 0 <= j < good_points(ts, quota).len() ==> (
            #[trigger] other_points(ts, quota)[i]).reward.rank() < (#[trigger] good_points(
                ts,
                quota,
            )[j]).reward.rank(),
{
    ascending_is_sorted(ts);
    let sorted = ascending(ts);
    let k = quota_of(quota, sorted.len());
    let y = threshold(ts, quota);
    assert(!sorted[sorted.len() - k].reward.nan());
    split_first(sorted, y, sorted.len());
    count_reaching(sorted, y, (sorted.len() - k) as nat, sorted.len());
}

proof fn split_first(sorted: Seq<Point>, y: Double, n: nat)
    requires
        n <= sorted.len(),
        ordered_rewards(sorted),
        !y.nan(),
    ensures
        reaching(sorted, y, true, n).len() + reaching(sorted, y, false, n).len() == n,
        forall|i: int|
            0 <= i < reaching(sorted, y, true, n).len() ==> y.rank() <= (#[trigger] reaching(
                sorted,
                y,
                true,
                n,
            )[i]).reward.rank(),
        forall|i: int|
            0 <= i < reaching(sorted, y, false, n).len() ==> (#[trigger] reaching(
                sorted,
                y,
                false,
                n,
            )[i]).reward.rank() < y.rank(),
    decreases n,
{
    if n > 0 {
        split_first(sorted, y, (n - 1) as nat);
        assert(!sorted[n - 1].reward.nan());
    }
}

proof fn count_reaching(sorted: Seq<Point>, y: Double, from: nat, n: nat)
    requires
        from <= n <= sorted.len(),
        from < sorted.len(),
        rising(sorted),
        ordered_rewards(sorted),
        y == sorted[from as int].reward,
    ensures
        reaching(sorted, y, true, n).len() >= n - from,
    decreases n - from,
{
    if n > from {
        count_reaching(sorted, y, from, (n - 1) as nat);
        assert(sorted[from as int].reward.rank() <= sorted[n - 1].reward.rank());
        assert(!sorted[n - 1].reward.nan());
    }
}

/// The arithmetic of the density estimates.
pub struct Kde<D, O> {
    /// How likely a vector is under some trials, with a bandwidth.
    pub density: D,
    /// One number over another.
    pub over: O,
}

/// Can the arithmetic be asked for anything?
pub open spec fn estimable<
    D: Fn(&Vec<Trial>, &Vec<Double>, Double) -> Double,
    O: Fn(Double, Double) -> Double,
>(kde: Kde<D, O>) -> bool {
    &&& forall|set: &Vec<Trial>, v: &Vec<Double>, bw: Double| #[trigger]
        call_requires(kde.density, (set, v, bw))
    &&& forall|x: Double, y: Double| #[trigger] call_requires(kde.over, (x, y))
}

/// `density` gave `x` for the vector `v` under the trials `set`.
pub open spec fn estimated<D: Fn(&Vec<Trial>, &Vec<Double>, Double) -> Double>(
    density: D,
    set: Seq<Point>,
    v: Seq<Double>,
    bw: Double,
    x: Double,
) -> bool {
    exists|a: &Vec<Trial>, z: &Vec<Double>|
        points(a@) == set && z@ == v && #[trigger] call_ensures(density, (a, z, bw), x)
}

/// The score of the vector `v` is `x`: how many times likelier it is under the good trials than
/// under the others, without bound where the others rule it out.
pub open spec fn scored_between<
    D: Fn(&Vec<Trial>, &Vec<Double>, Double) -> Double,
    O: Fn(Double, Double) -> Double,
>(
    kde: Kde<D, O>,
    good: Seq<Point>,
    other: Seq<Point>,
    v: Seq<Double>,
    bw: Double,
    x: Double,
) -> bool {
    exists|l: Double, g: Double|
        {
            &&& #[trigger] estimated(kde.density, good, v, bw, l)
            &&& #[trigger] estimated(kde.density, other, v, bw, g)
            &&& if (Double { bits: 0 }).below(g) {
                call_ensures(kde.over, (l, g), x)
            } else {
                x == (Double { bits: INFINITE_MAGNITUDE })
            }
        }
}

/// The score of the vector `v` is `x`, with the good trials of the history `ts` against its other
/// ones.
pub open spec fn scored_one<
    D: Fn(&Vec<Trial>, &Vec<Double>, Double) -> Double,
    O: Fn(Double, Double) -> Double,
>(
    kde: Kde<D, O>,
    ts: Seq<Point>,
    quota: nat,
    bw: Double,
    v: Seq<Double>,
    x: Double,
) -> bool {
    scored_between(kde, good_points(ts, quota), other_points(ts, quota), v, bw, x)
}

/// The score of a vector, with some trials against others.
pub fn lg_score<
    D: Fn(&Vec<Trial>, &Vec<Double>, Double) -> Double,
    O: Fn(Double, Double) -> Double,
>(
    good: &Vec<Trial>,
    other: &Vec<Trial>,
    v: &Vec<Double>,
    bw: Double,
    kde: &Kde<D, O>,
) -> (r: Double)
    requires
        estimable(*kde),
    ensures
        scored_between(*kde, points(good@), points(other@), v@, bw, r),
{
    assert(call_requires(kde.density, (good, v, bw)));
    assert(call_requires(kde.density, (other, v, bw)));
    let l: Double = (kde.density)(good, v, bw);
    let g: Double = (kde.density)(other, v, bw);
    assert(estimated(kde.density, points(good@), v@, bw, l));
    assert(estimated(kde.density, points(other@), v@, bw, g));
    if Double::zero().lt(g) {
        assert(call_requires(kde.over, (l, g)));
        (kde.over)(l, g)
    } else {
        Double { bits: INFINITE_MAGNITUDE }
    }
}

/// The first of the open places with the greatest score, among the first `n`. A score that is NaN
/// is neither replaced nor replaces another.
pub open spec fn top_place(open: Seq<bool>, scores: Seq<Double>, n: nat) -> Option<int>
    decreases n,
{
    if n == 0 {
        None
    } else {
        let i = n - 1;
        match top_place(open, scores, i as nat) {
            None => if open[i] {
                Some(i)
            } else {
                None
            },
            Some(b) => if open[i] && scores[b].below(scores[i]) {
                Some(i)
            } else {
                Some(b)
            },
        }
    }
}

/// The top place is open, and no open place has a greater score, where none is NaN.
pub proof fn top_place_is_top(open: Seq<bool>, scores: Seq<Double>, n: nat)
    requires
        n <= open.len(),
        n <= scores.len(),
        forall|i: int| 0 <= i < n ==> !(#[trigger] scores[i]).nan(),
    ensures
        match top_place(open, scores, n) {
            Some(b) => 0 <= b < n && open[b] && forall|i: int|
                0 <= i < n && #[trigger] open[i] ==> scores[i].rank() <= scores[b].rank(),
            None => forall|i: int| 0 <= i < n ==> !#[trigger] open[i],
        },
    decreases n,
{
    if n > 0 {
        top_place_is_top(open, scores, (n - 1) as nat);
        assert(!scores[n - 1].nan());
    }
}

/// The vectors of the trials.
pub open spec fn tried_points(ts: Seq<Point>) -> Seq<Seq<Double>> {
    ts.map_values(|t: Point| t.vec)
}

/// Which trials have all components: those are open to be the best.
pub open spec fn complete(ts: Seq<Point>) -> Seq<bool> {
    ts.map_values(|t: Point| t.vec.len() >= VECTOR_LEN)
}

/// The best vector by score among the trials that have all components.
pub open spec fn best_scored(ts: Seq<Point>, quota: nat, scores: Seq<Double>) -> Option<
    Seq<Double>,
> {
    if splits(ts, quota) {
        match top_place(complete(ts), scores, ts.len()) {
            Some(b) => Some(ts[b].vec),
            None => None,
        }
    } else {
        None
    }
}

/// `scores` holds the score of the vector of each trial that has all components.
pub open spec fn scored<
    D: Fn(&Vec<Trial>, &Vec<Double>, Double) -> Double,
    O: Fn(Double, Double) -> Double,
>(kde: Kde<D, O>, ts: Seq<Point>, quota: nat, bw: Double, scores: Seq<Double>) -> bool {
    scores.len() == ts.len() && forall|i: int|
        0 <= i < ts.len() && ts[i].vec.len() >= VECTOR_LEN ==> scored_one(
            kde,
            ts,
            quota,
            bw,
            ts[i].vec,
            #[trigger] scores[i],
        )
}

/// `best` is the vector of the history with the greatest score. Where the history cannot be split,
/// nothing is scored and there is none.
pub open spec fn best_found<
    D: Fn(&Vec<Trial>, &Vec<Double>, Double) -> Double,
    O: Fn(Double, Double) -> Double,
>(kde: Kde<D, O>, ts: Seq<Point>, quota: nat, bw: Double, best: Option<Seq<Double>>) -> bool {
    if splits(ts, quota) {
        exists|scores: Seq<Double>| #[trigger]
            scored(kde, ts, quota, bw, scores) && best == best_scored(ts, quota, scores)
    } else {
        best is None
    }
}

impl TpeOptimizer {
    /// Splits the history by reward into good trials and the others, both by ascending reward, and
    /// gives the reward that tells them apart. `quota` is how many good ones are asked for; all
    /// trials that earned as much as the last of them are good too.
    pub fn split_l_g(&self, quota: usize) -> (r: Option<(Vec<Trial>, Vec<Trial>, Double)>)
        requires
            self.state@.trials.len() >= LEAST_TRIALS ==> ordered_rewards(self.state@.trials),
        ensures
            match r {
                Some(p) => splits(self.state@.trials, quota as nat) && points(p.0@) == good_points(
                    self.state@.trials,
                    quota as nat,
                ) && points(p.1@) == other_points(self.state@.trials, quota as nat) && p.2
                    == threshold(self.state@.trials, quota as nat),
                None => !splits(self.state@.trials, quota as nat),
            },
    {
        if self.state.trials.len() < LEAST_TRIALS {
            return None;
        }
        let sorted: Vec<Trial> = sort_trials(&self.state.trials);
        let ghost ts = self.state@.trials;
        let ghost all = ascending(ts);
        proof {
            ascending_is_sorted(ts);
        }
        let n: usize = sorted.len();
        assert(n == all.len());
        let k: usize = if quota < 1 {
            1
        } else if quota > n {
            n
        } else {
            quota
        };
        assert(all[n - k] == sorted@[n - k]@);
        let y_star: Double = sorted[n - k].reward;
        let mut lset: Vec<Trial> = Vec::new();
        let mut gset: Vec<Trial> = Vec::new();
        assert(points(lset@) =~= reaching(all, y_star, true, 0));
        assert(points(gset@) =~= reaching(all, y_star, false, 0));
        let mut i: usize = 0;
        while i < n
            invariant
                i <= n,
                n == sorted@.len(),
                all == points(sorted@),
                points(lset@) == reaching(all, y_star, true, i as nat),
                points(gset@) == reaching(all, y_star, false, i as nat),
            decreases n - i,
        {
            assert(all[i as int] == sorted@[i as int]@);
            let t: Trial = copy_trial(&sorted[i]);
            let ghost l0 = lset@;
            let ghost g0 = gset@;
            if y_star.le(t.reward) {
                lset.push(t);
                assert(points(lset@) =~= points(l0).push(t@));
            } else {
                gset.push(t);
                assert(points(gset@) =~= points(g0).push(t@));
            }
            i = i + 1;
        }
        assert(points(lset@).len() == lset@.len());
        assert(points(gset@).len() == gset@.len());
        if lset.len() == 0 || gset.len() == 0 {
            return None;
        }
        Some((lset, gset, y_star))
    }

    /// How many good trials are asked for: what `share` makes of the number of trials and the share
    /// that counts as good.
    pub fn good_quota<Q: Fn(usize, Double) -> usize>(&self, share: &Q) -> (r: usize)
        requires
            forall|n: usize, gamma: Double| #[trigger] call_requires(*share, (n, gamma)),
        ensures
            exists|n: usize|
                n == self.state@.trials.len() && #[trigger] call_ensures(
                    *share,
                    (n, self.params.gamma),
                    r,
                ),
    {
        let n: usize = self.state.trials.len();
        assert(call_requires(*share, (n, self.params.gamma)));
        share(n, self.params.gamma)
    }

    /// The score of a vector, where the history can be split.
    pub fn l_over_g<
        D: Fn(&Vec<Trial>, &Vec<Double>, Double) -> Double,
        O: Fn(Double, Double) -> Double,
    >(&self, quota: usize, v: &Vec<Double>, kde: &Kde<D, O>) -> (r: Option<Double>)
        requires
            self.state@.trials.len() >= LEAST_TRIALS ==> ordered_rewards(self.state@.trials),
            estimable(*kde),
        ensures
            r is Some <==> splits(self.state@.trials, quota as nat),
            r is Some ==> scored_one(
                *kde,
                self.state@.trials,
                quota as nat,
                self.params.bw,
                v@,
                r->0,
            ),
    {
        match self.split_l_g(quota) {
            Some(p) => Some(lg_score(&p.0, &p.1, v, self.params.bw, kde)),
            None => None,
        }
    }

    /// The vector with the greatest score in the history, among those that have all components.
    /// Densities are asked for only where the history can be split, and only of vectors that have
    /// all components.
    pub fn best_by_lg<
        D: Fn(&Vec<Trial>, &Vec<Double>, Double) -> Double,
        O: Fn(Double, Double) -> Double,
    >(&self, quota: usize, kde: &Kde<D, O>) -> (r: Option<Vec<Double>>)
        requires
            self.state@.trials.len() >= LEAST_TRIALS ==> ordered_rewards(self.state@.trials),
            estimable(*kde),
        ensures
            best_found(*kde, self.state@.trials, quota as nat, self.params.bw, form_of(r)),
    {
        let (lset, gset): (Vec<Trial>, Vec<Trial>) = match self.split_l_g(quota) {
            Some(p) => (p.0, p.1),
            None => {
                return None;
            },
        };
        let ghost ts = self.state@.trials;
        let ghost open = complete(ts);
        let bw: Double = self.params.bw;
        let n: usize = self.state.trials.len();
        let mut scores: Vec<Double> = Vec::new();
        let mut best: Option<usize> = None;
        let mut i: usize = 0;
        while i < n
            invariant
                estimable(*kde),
                i <= n,
                n == self.state.trials@.len(),
                scores@.len() == i,
                ts == self.state@.trials,
                open == complete(ts),
                points(lset@) == good_points(ts, quota as nat),
                points(gset@) == other_points(ts, quota as nat),
                forall|k: int|
                    0 <= k < i && ts[k].vec.len() >= VECTOR_LEN ==> scored_one(
                        *kde,
                        ts,
                        quota as nat,
                        bw,
                        ts[k].vec,
                        #[trigger] scores@[k],
                    ),
                match best {
                    Some(b) => b < i && top_place(open, scores@, i as nat) == Some(b as int),
                    None => top_place(open, scores@, i as nat) is None,
                },
            decreases n - i,
        {
            let t: &Trial = &self.state.trials[i];
            assert(ts[i as int] == t@);
            assert(open[i as int] == (ts[i as int].vec.len() >= VECTOR_LEN));
            let ghost before = scores@;
            if t.vec.len() >= VECTOR_LEN {
                let x: Double = lg_score(&lset, &gset, &t.vec, bw, kde);
                assert(scored_one(*kde, ts, quota as nat, bw, ts[i as int].vec, x));
                scores.push(x);
                match best {
                    None => {
                        best = Some(i);
                    },
                    Some(b) => {
                        if scores[b].lt(x) {
                            best = Some(i);
                        }
                    },
                }
            } else {
                scores.push(Double::zero());
            }
            proof {
                top_place_by_first(open, before, scores@, i as nat);
            }
            i = i + 1;
        }
        assert(scored(*kde, ts, quota as nat, bw, scores@));
        match best {
            Some(b) => {
                assert(ts[b as int] == self.state.trials@[b as int]@);
                Some(copy_numbers(&self.state.trials[b].vec))
            },
            None => None,
        }
    }
}

/// The search with one more trial; the oldest ones go where there are too many.
pub open spec fn with_point(s: WindowView, t: Point) -> WindowView {
    WindowView { trials: last_of(s.trials.push(t), MAX_TRIALS as nat), ..s }
}

/// Recording a trial keeps it, as the last one, and never remembers too many.
pub proof fn recording_keeps_last(s: WindowView, t: Point)
    ensures
        with_point(s, t).trials.len() > 0,
        with_point(s, t).trials.last() == t,
        s.trials.len() <= MAX_TRIALS ==> with_point(s, t).trials.len() <= MAX_TRIALS,
        s.trials.len() < MAX_TRIALS ==> with_point(s, t).trials == s.trials.push(t),
{
}

/// How many trials are kept across restarts.
pub open spec fn kept_at_most(max_trials: usize) -> nat {
    if max_trials == 0 {
        MAX_TRIALS as nat
    } else {
        max_trials as nat
    }
}

/// The trials that were kept across a restart.
pub open spec fn kept_points(kept: Seq<(Seq<Double>, Double, u64)>) -> Seq<Point> {
    kept.map_values(|t: (Seq<Double>, Double, u64)| Point { vec: t.0, reward: t.1 })
}

/// The search once it has taken up what was kept, `now_ns` on the caller's clock.
pub open spec fn taken_up(s: WindowView, history: Option<HistoryView>, now_ns: u64) -> WindowView {
    if s.restored_once {
        s
    } else {
        match history {
            Some(h) => WindowView {
                trials: last_of(kept_points(h.trials), kept_at_most(h.max_trials)),
                last_vec: h.last_vec,
                window_start: Some(now_ns),
                last_corpus: None,
                last_cov: None,
                restored_once: true,
                ..s
            },
            None => WindowView { restored_once: true, ..s },
        }
    }
}

/// What is kept of a search across a restart.
pub open spec fn kept_search(s: WindowView, before: Option<HistoryView>, now_ms: u64) -> HistoryView {
    let max_trials = match before {
        Some(h) if h.max_trials != 0 => h.max_trials,
        _ => MAX_TRIALS,
    };
    HistoryView {
        trials: last_of(
            s.trials.map_values(|t: Point| (t.vec, t.reward, now_ms)),
            max_trials as nat,
        ),
        last_vec: s.last_vec,
        last_check_ms: Some(now_ms),
        last_corpus: s.last_corpus,
        last_cov: s.last_cov,
        max_trials,
    }
}

/// A search that is kept and taken up by a fresh one has its trials and its vector again; where
/// there were too many trials, the last ones.
pub proof fn restart_gives_back(
    s: WindowView,
    before: Option<HistoryView>,
    fresh: WindowView,
    kept_ms: u64,
    now_ns: u64,
)
    requires
        !fresh.restored_once,
    ensures
        ({
            let kept = kept_search(s, before, kept_ms);
            let again = taken_up(fresh, Some(kept), now_ns);
            &&& again.trials == last_of(s.trials, kept.max_trials as nat)
            &&& again.last_vec == s.last_vec
            &&& s.trials.len() <= kept.max_trials ==> again.trials == s.trials
        }),
{
    let kept = kept_search(s, before, kept_ms);
    let again = taken_up(fresh, Some(kept), now_ns);
    assert(again.trials =~= last_of(s.trials, kept.max_trials as nat));
}

/// What was kept is taken up at most once.
pub proof fn taken_up_once(
    s: WindowView,
    first: Option<HistoryView>,
    second: Option<HistoryView>,
    now_ns: u64,
    later_ns: u64,
)
    ensures
        taken_up(taken_up(s, first, now_ns), second, later_ns) == taken_up(s, first, now_ns),
{
}

/// Is the window over, `now_ns` on the caller's clock? It is where none was begun yet.
pub open spec fn due(s: WindowView, period: u64, now_ns: u64) -> bool {
    match s.window_start {
        None => true,
        Some(t0) => since(t0, now_ns) >= period * 1_000_000_000,
    }
}

/// The nanoseconds from `t0` to `now_ns`; none where the clock went back.
pub open spec fn since(t0: u64, now_ns: u64) -> int {
    if now_ns > t0 {
        now_ns - t0
    } else {
        0
    }
}

/// What a counter grew by since the last time.
pub open spec fn growth(last: Option<usize>, now: usize) -> Option<int> {
    match last {
        Some(prev) => Some(now - prev),
        None => None,
    }
}

impl TpeOptimizer {
    /// A search that has done nothing yet.
    pub fn new(params: TpeParams) -> (r: Self)
        ensures
            r.params == params,
            r.state@ == initial_search(),
    {
        TpeOptimizer { params, state: TpeState::default() }
    }

    /// Takes up what was kept across a restart, the first time it is called.
    pub fn restore_once(&mut self, state: &SchedulerState, now_ns: u64)
        ensures
            final(self).params == old(self).params,
            final(self).state@ == taken_up(old(self).state@, state@.history, now_ns),
    {
        if self.state.restored_once {
            return ;
        }
        self.state.restored_once = true;
        match &state.tpe_history {
            Some(meta) => {
                let ghost kept = kept_points(meta@.trials);
                let max_trials: usize = if meta.max_trials == 0 {
                    MAX_TRIALS
                } else {
                    meta.max_trials
                };
                let total: usize = meta.trials.len();
                let start: usize = if total > max_trials {
                    total - max_trials
                } else {
                    0
                };
                let mut trials: Vec<Trial> = Vec::new();
                let mut i: usize = start;
                while i < total
                    invariant
                        start <= i <= total,
                        total == meta.trials@.len(),
                        kept == kept_points(meta@.trials),
                        points(trials@) == kept.subrange(start as int, i as int),
                    decreases total - i,
                {
                    let ghost t0 = trials@;
                    let t: &(Vec<Double>, Double, u64) = &meta.trials[i];
                    let trial: Trial = Trial { vec: copy_numbers(&t.0), reward: t.1 };
                    assert(meta@.trials[i as int] == (t.0@, t.1, t.2));
                    assert(kept[i as int] == trial@);
                    trials.push(trial);
                    assert(points(trials@) =~= points(t0).push(trial@));
                    assert(points(trials@) =~= kept.subrange(start as int, i + 1));
                    i = i + 1;
                }
                assert(points(trials@) =~= last_of(kept, kept_at_most(meta.max_trials)));
                self.state.trials = trials;
                self.state.last_vec = copy_numbers(&meta.last_vec);
                self.state.last_corpus = None;
                self.state.last_cov = None;
                self.state.window_start = Some(now_ns);
            },
            None => {},
        }
    }

    /// Is the window over?
    pub fn window_due(&self, now_ns: u64) -> (r: bool)
        ensures
            r == due(self.state@, self.params.period, now_ns),
    {
        match self.state.window_start {
            None => true,
            Some(t0) => {
                let elapsed: u64 = if now_ns > t0 {
                    now_ns - t0
                } else {
                    0
                };
                elapsed as u128 >= (self.params.period as u128) * 1_000_000_000
            },
        }
    }

    /// Begins the next window.
    pub fn advance_window(&mut self, now_ns: u64)
        ensures
            final(self).params == old(self).params,
            final(self).state@ == (WindowView { window_start: Some(now_ns), ..old(self).state@ }),
    {
        self.state.window_start = Some(now_ns);
    }

    /// The nanoseconds since the window began; none where it has not.
    pub fn window_elapsed(&self, now_ns: u64) -> (r: u64)
        ensures
            r == (match self.state@.window_start {
                Some(t0) => since(t0, now_ns),
                None => 0,
            }),
    {
        match self.state.window_start {
            None => 0,
            Some(t0) => if now_ns > t0 {
                now_ns - t0
            } else {
                0
            },
        }
    }

    /// Sets the vector in use where there is none yet.
    pub fn init_vec_if_empty(&mut self, v0: &Vec<Double>)
        ensures
            final(self).params == old(self).params,
            final(self).state@ == (WindowView {
                last_vec: if old(self).state@.last_vec.len() == 0 {
                    v0@
                } else {
                    old(self).state@.last_vec
                },
                ..old(self).state@
            }),
    {
        if self.state.last_vec.len() == 0 {
            self.state.last_vec = copy_numbers(v0);
        }
    }

    /// Records what a vector earned.
    pub fn observe(&mut self, vec: &Vec<Double>, reward: Double)
        requires
            old(self).state@.trials.len() < usize::MAX,
        ensures
            final(self).params == old(self).params,
            final(self).state@ == with_point(old(self).state@, Point { vec: vec@, reward }),
    {
        let ghost before = self.state@;
        let trial: Trial = Trial { vec: copy_numbers(vec), reward };
        let ghost all = before.trials.push(trial@);
        self.state.trials.push(trial);
        assert(points(self.state.trials@) =~= all);
        let n: usize = self.state.trials.len();
        if n > MAX_TRIALS {
            let drop_n: usize = n - MAX_TRIALS;
            let rest: Vec<Trial> = self.state.trials.split_off(drop_n);
            assert(points(rest@) =~= all.skip(drop_n as int));
            self.state.trials = rest;
        }
    }

    /// Sets the vector in use.
    pub fn set_last_vec(&mut self, v: &Vec<Double>)
        ensures
            final(self).params == old(self).params,
            final(self).state@ == (WindowView { last_vec: v@, ..old(self).state@ }),
    {
        self.state.last_vec = copy_numbers(v);
    }

    /// The vector in use.
    pub fn last_vec(&self) -> (r: Vec<Double>)
        ensures
            r@ == self.state@.last_vec,
    {
        copy_numbers(&self.state.last_vec)
    }

    /// Is a vector in use?
    pub fn has_last_vec(&self) -> (r: bool)
        ensures
            r == (self.state@.last_vec.len() > 0),
    {
        self.state.last_vec.len() > 0
    }

    /// Notes how many sites are covered.
    pub fn set_last_cov(&mut self, n: usize)
        ensures
            final(self).params == old(self).params,
            final(self).state@ == (WindowView { last_cov: Some(n), ..old(self).state@ }),
    {
        self.state.last_cov = Some(n);
    }

    /// How many sites were covered since the last time, if there was one; notes how many are
    /// covered now.
    pub fn take_reward_from_coverage(&mut self, cur_cov: usize) -> (r: Option<i64>)
        requires
            cur_cov <= i64::MAX,
            old(self).state@.last_cov is Some ==> old(self).state@.last_cov->0 <= i64::MAX,
        ensures
            final(self).params == old(self).params,
            final(self).state@ == (WindowView { last_cov: Some(cur_cov), ..old(self).state@ }),
            match r {
                Some(d) => growth(old(self).state@.last_cov, cur_cov) == Some(d as int),
                None => growth(old(self).state@.last_cov, cur_cov) is None,
            },
    {
        let r: Option<i64> = match self.state.last_cov {
            Some(prev) => Some(cur_cov as i64 - prev as i64),
            None => None,
        };
        self.state.last_cov = Some(cur_cov);
        r
    }

    /// Notes how many testcases there are.
    pub fn set_last_corpus(&mut self, n: usize)
        ensures
            final(self).params == old(self).params,
            final(self).state@ == (WindowView { last_corpus: Some(n), ..old(self).state@ }),
    {
        self.state.last_corpus = Some(n);
    }

    /// How many testcases were added since the last time, if there was one; notes how many there
    /// are now.
    pub fn take_reward_from_corpus(&mut self, cur_corpus: usize) -> (r: Option<i64>)
        requires
            cur_corpus <= i64::MAX,
            old(self).state@.last_corpus is Some ==> old(self).state@.last_corpus->0 <= i64::MAX,
        ensures
            final(self).params == old(self).params,
            final(self).state@ == (WindowView {
                last_corpus: Some(cur_corpus),
                ..old(self).state@
            }),
            match r {
                Some(d) => growth(old(self).state@.last_corpus, cur_corpus) == Some(d as int),
                None => growth(old(self).state@.last_corpus, cur_corpus) is None,
            },
    {
        let r: Option<i64> = match self.state.last_corpus {
            Some(prev) => Some(cur_corpus as i64 - prev as i64),
            None => None,
        };
        self.state.last_corpus = Some(cur_corpus);
        r
    }

    /// Keeps the search across restarts, with the given time.
    pub fn persist_to_meta_at(&self, state: &mut SchedulerState, now_ms: u64)
        ensures
            final(state)@ == (StateView {
                history: Some(kept_search(self.state@, old(state)@.history, now_ms)),
                ..old(state)@
            }),
    {
        let ghost ts = self.state@.trials;
        let ghost all = ts.map_values(|t: Point| (t.vec, t.reward, now_ms));
        let max_trials: usize = match &state.tpe_history {
            Some(h) => if h.max_trials == 0 {
                MAX_TRIALS
            } else {
                h.max_trials
            },
            None => MAX_TRIALS,
        };
        let total: usize = self.state.trials.len();
        let start: usize = if total > max_trials {
            total - max_trials
        } else {
            0
        };
        let mut trials: Vec<(Vec<Double>, Double, u64)> = Vec::new();
        let mut i: usize = start;
        while i < total
            invariant
                start <= i <= total,
                total == self.state.trials@.len(),
                ts == self.state@.trials,
                all == ts.map_values(|t: Point| (t.vec, t.reward, now_ms)),
                kept_trials(trials@) == all.subrange(start as int, i as int),
            decreases total - i,
        {
            let ghost t0 = trials@;
            assert(ts[i as int] == self.state.trials@[i as int]@);
            trials.push(
                (copy_numbers(&self.state.trials[i].vec), self.state.trials[i].reward, now_ms),
            );
            assert(kept_trials(trials@) =~= kept_trials(t0).push(all[i as int]));
            assert(kept_trials(trials@) =~= all.subrange(start as int, i + 1));
            i = i + 1;
        }
        assert(kept_trials(trials@) =~= last_of(all, max_trials as nat));
        state.tpe_history = Some(
            TpeHistoryMeta {
                trials,
                last_vec: copy_numbers(&self.state.last_vec),
                last_check_ms: Some(now_ms),
                last_corpus: self.state.last_corpus,
                last_cov: self.state.last_cov,
                max_trials,
            },
        );
    }

    /// Keeps the search across restarts, with the time that the clock says.
    pub fn persist_to_meta(&self, state: &mut SchedulerState)
        ensures
            final(state)@.history is Some,
            (final(state)@.history->0).last_check_ms is Some,
            final(state)@ == (StateView {
                history: Some(
                    kept_search(
                        self.state@,
                        old(state)@.history,
                        (final(state)@.history->0).last_check_ms->0,
                    ),
                ),
                ..old(state)@
            }),
    {
        let now_ms: u64 = now_epoch_ms();
        self.persist_to_meta_at(state, now_ms);
    }
}

/// Whether the drawn vector `v` is open: neither tried nor waiting, with a score above the floor. A
/// vector that was tried or waits is not scored.
pub open spec fn judged_one<
    F: Fn(Double, Double, Double) -> bool,
    D: Fn(&Vec<Trial>, &Vec<Double>, Double) -> Double,
    O: Fn(Double, Double) -> Double,
>(
    within: F,
    kde: Kde<D, O>,
    ts: Seq<Point>,
    quota: nat,
    bw: Double,
    pool: Seq<Seq<Double>>,
    v: Seq<Double>,
    score: Double,
    open: bool,
) -> bool {
    let eps = Double { bits: CANDIDATE_EPS_BITS };
    let low = score.at_most(Double { bits: SCORE_FLOOR_BITS });
    if open {
        &&& found_nowhere(within, tried_points(ts), v, eps)
        &&& found_nowhere(within, pool, v, eps)
        &&& scored_one(kde, ts, quota, bw, v, score)
        &&& !low
    } else {
        ||| found_among(within, tried_points(ts), v, eps)
        ||| found_among(within, pool, v, eps)
        ||| scored_one(kde, ts, quota, bw, v, score) && low
    }
}

/// Which drawn vectors are open, and their scores.
pub open spec fn judged<
    F: Fn(Double, Double, Double) -> bool,
    D: Fn(&Vec<Trial>, &Vec<Double>, Double) -> Double,
    O: Fn(Double, Double) -> Double,
>(
    within: F,
    kde: Kde<D, O>,
    ts: Seq<Point>,
    quota: nat,
    bw: Double,
    pool: Seq<Seq<Double>>,
    drawn: Seq<Seq<Double>>,
    scores: Seq<Double>,
    open: Seq<bool>,
) -> bool {
    &&& scores.len() == drawn.len()
    &&& open.len() == drawn.len()
    &&& forall|i: int|
        #![trigger drawn[i]]
        0 <= i < drawn.len() ==> judged_one(
            within,
            kde,
            ts,
            quota,
            bw,
            pool,
            drawn[i],
            scores[i],
            open[i],
        )
}

/// The open vector with the greatest score joins those that wait, if there is one; `added` says
/// how many did.
pub open spec fn joined<F: Fn(Double, Double, Double) -> bool>(
    within: F,
    pool: Seq<Seq<Double>>,
    drawn: Seq<Seq<Double>>,
    scores: Seq<Double>,
    open: Seq<bool>,
    out: Seq<Seq<Double>>,
    added: int,
) -> bool {
    match top_place(open, scores, drawn.len()) {
        Some(b) => added == 1 && queued_one(within, pool, drawn[b], out),
        None => added == 0 && out == pool,
    }
}

/// One vector was drawn around each of the trials.
pub open spec fn drawn_around<G: Fn(&Vec<Double>, Double) -> Vec<Double>>(
    draw: G,
    set: Seq<Point>,
    bw: Double,
    drawn: Seq<Seq<Double>>,
) -> bool {
    drawn.len() == set.len() && forall|i: int|
        0 <= i < set.len() ==> drawn_one(draw, set[i].vec, bw, #[trigger] drawn[i])
}

/// What becomes of the waiting vectors when one vector is drawn around each good trial.
pub open spec fn generated<
    F: Fn(Double, Double, Double) -> bool,
    G: Fn(&Vec<Double>, Double) -> Vec<Double>,
    D: Fn(&Vec<Trial>, &Vec<Double>, Double) -> Double,
    O: Fn(Double, Double) -> Double,
>(
    within: F,
    draw: G,
    kde: Kde<D, O>,
    s: WindowView,
    quota: nat,
    bw: Double,
    pool: Seq<Seq<Double>>,
    out: Seq<Seq<Double>>,
    added: int,
) -> bool {
    if splits(s.trials, quota) {
        exists|drawn: Seq<Seq<Double>>, scores: Seq<Double>, open: Seq<bool>|
            {
                &&& drawn_around(draw, good_points(s.trials, quota), bw, drawn)
                &&& #[trigger] judged(within, kde, s.trials, quota, bw, pool, drawn, scores, open)
                &&& joined(within, pool, drawn, scores, open, out, added)
            }
    } else {
        added == 0 && out == pool
    }
}

/// The vectors that wait, twice: as the drawing keeps track of them, and as they are kept.
pub ghost struct Pools {
    pub seen: Seq<Seq<Double>>,
    pub kept: Seq<Seq<Double>>,
}

/// What becomes of the waiting vectors with one drawn vector and its score: the vector is skipped,
/// or it joins them.
pub open spec fn offered_at<F: Fn(Double, Double, Double) -> bool>(
    within: F,
    hist: Seq<Seq<Double>>,
    v: Seq<Double>,
    score: Double,
    before: Pools,
    after: Pools,
) -> bool {
    let eps = Double { bits: CANDIDATE_EPS_BITS };
    let low = score.at_most(Double { bits: SCORE_FLOOR_BITS });
    ||| after == before && (low || found_among(within, hist, v, eps) || found_among(
        within,
        before.seen,
        v,
        eps,
    ))
    ||| !low && found_nowhere(within, hist, v, eps) && found_nowhere(within, before.seen, v, eps)
        && after.seen == before.seen.push(v) && queued_one(within, before.kept, v, after.kept)
}

/// What becomes of the waiting vectors with one drawn vector.
pub open spec fn offered<
    F: Fn(Double, Double, Double) -> bool,
    D: Fn(&Vec<Trial>, &Vec<Double>, Double) -> Double,
    O: Fn(Double, Double) -> Double,
>(
    within: F,
    kde: Kde<D, O>,
    ts: Seq<Point>,
    quota: nat,
    bw: Double,
    v: Seq<Double>,
    before: Pools,
    after: Pools,
) -> bool {
    exists|score: Double| #[trigger]
        scored_one(kde, ts, quota, bw, v, score) && offered_at(
            within,
            tried_points(ts),
            v,
            score,
            before,
            after,
        )
}

/// The vectors of the trials, cut to the length of the first one.
pub open spec fn bases(set: Seq<Point>) -> Seq<Seq<Double>> {
    Seq::new(set.len(), |i: int| set[i].vec.take(set[0].vec.len() as int))
}

/// No trial has a shorter vector than the first one.
pub open spec fn first_is_shortest(set: Seq<Point>) -> bool {
    forall|i: int| 0 <= i < set.len() ==> set[0].vec.len() <= (#[trigger] set[i]).vec.len()
}

/// The vectors that are drawn around the good trials, and the pools that offering them one after the
/// other goes through.
pub open spec fn offer_steps<
    F: Fn(Double, Double, Double) -> bool,
    G: Fn(&Vec<Double>, Double) -> Vec<Double>,
    D: Fn(&Vec<Trial>, &Vec<Double>, Double) -> Double,
    O: Fn(Double, Double) -> Double,
>(
    within: F,
    draw: G,
    kde: Kde<D, O>,
    ts: Seq<Point>,
    quota: nat,
    bw: Double,
    pool: Seq<Seq<Double>>,
    out: Seq<Seq<Double>>,
    added: int,
    drawn: Seq<Seq<Double>>,
    steps: Seq<Pools>,
) -> bool {
    let n = drawn.len() as int;
    &&& steps.len() == n + 1
    &&& steps[0] == (Pools { seen: pool, kept: pool })
    &&& steps[n].kept == out
    &&& steps[n].seen.len() == pool.len() + added
    &&& forall|i: int|
        #![trigger drawn[i]]
        0 <= i < n ==> drawn_from(draw, bases(good_points(ts, quota)), bw, drawn[i]) && offered(
            within,
            kde,
            ts,
            quota,
            bw,
            drawn[i],
            steps[i],
            steps[i + 1],
        )
}

/// What becomes of the waiting vectors when `samples` vectors are drawn around good trials.
pub open spec fn generated_all<
    F: Fn(Double, Double, Double) -> bool,
    G: Fn(&Vec<Double>, Double) -> Vec<Double>,
    D: Fn(&Vec<Trial>, &Vec<Double>, Double) -> Double,
    O: Fn(Double, Double) -> Double,
>(
    within: F,
    draw: G,
    kde: Kde<D, O>,
    s: WindowView,
    quota: nat,
    bw: Double,
    samples: nat,
    pool: Seq<Seq<Double>>,
    out: Seq<Seq<Double>>,
    added: int,
) -> bool {
    if splits(s.trials, quota) {
        exists|drawn: Seq<Seq<Double>>, steps: Seq<Pools>|
            drawn.len() == samples && #[trigger] offer_steps(
                within,
                draw,
                kde,
                s.trials,
                quota,
                bw,
                pool,
                out,
                added,
                drawn,
                steps,
            )
    } else {
        added == 0 && out == pool
    }
}

/// Can `project` be asked about any vector?
pub open spec fn projectable<P: Fn(&Vec<Double>) -> Vec<Double>>(project: P) -> bool {
    forall|z: &Vec<Double>| #[trigger] call_requires(project, (z,))
}

/// `project` gave `out` for the vector `v`.
pub open spec fn projected<P: Fn(&Vec<Double>) -> Vec<Double>>(
    project: P,
    v: Seq<Double>,
    out: Vec<Double>,
) -> bool {
    exists|z: &Vec<Double>| z@ == v && #[trigger] call_ensures(project, (z,), out)
}

/// The vector to settle on: the best by score, else the one in use, else the middle.
pub open spec fn settled(s: WindowView, best: Option<Seq<Double>>) -> Seq<Double> {
    match best {
        Some(v) => v,
        None => if s.last_vec.len() > 0 {
            s.last_vec
        } else {
            Seq::new(VECTOR_LEN as nat, |i: int| Double { bits: HALF_BITS })
        },
    }
}

/// Has the search settled on a vector?
pub open spec fn has_settled(s: WindowView) -> bool {
    s.lock_best && s.best_fixed.len() > 0
}

/// The search once it has settled on a vector.
pub open spec fn settled_on(s: WindowView, v: Seq<Double>) -> WindowView {
    WindowView { best_fixed: v, lock_best: true, ..s }
}

/// The next vector to try, and what becomes of the search and the waiting vectors.
///
/// A settled search gives the vector it settled on. Else one of the drawn vectors may join those
/// that wait, and the first waiting one that was not tried yet is taken. Where there is none, the
/// search settles.
pub open spec fn suggested<
    F: Fn(Double, Double, Double) -> bool,
    P: Fn(&Vec<Double>) -> Vec<Double>,
    G: Fn(&Vec<Double>, Double) -> Vec<Double>,
    D: Fn(&Vec<Trial>, &Vec<Double>, Double) -> Double,
    O: Fn(Double, Double) -> Double,
>(
    within: F,
    project: P,
    draw: G,
    kde: Kde<D, O>,
    s: WindowView,
    quota: nat,
    bw: Double,
    pool: Seq<Seq<Double>>,
    r: Vec<Double>,
    after: WindowView,
    left: Seq<Seq<Double>>,
) -> bool {
    if has_settled(s) {
        r@ == s.best_fixed && after == s && left == pool
    } else {
        exists|mid: Seq<Seq<Double>>, n: int, added: int|
            {
                &&& #[trigger] generated(within, draw, kde, s, quota, bw, pool, mid, added)
                &&& #[trigger] passed_over(within, tried_points(s.trials), mid, n)
                &&& left == left_over(mid, n)
                &&& n < mid.len() ==> projected(project, mid[n], r) && after == s
                &&& n == mid.len() ==> after == settled_on(s, r@) && exists|
                    best: Option<Seq<Double>>,
                | #[trigger]
                    best_found(kde, s.trials, quota, bw, best) && r@ == settled(s, best)
            }
    }
}

impl TpeOptimizer {
    /// The vectors of the trials.
    fn tried_vectors(&self) -> (r: Vec<Vec<Double>>)
        ensures
            rows(r@) == tried_points(self.state@.trials),
    {
        let mut r: Vec<Vec<Double>> = Vec::new();
        let mut i: usize = 0;
        while i < self.state.trials.len()
            invariant
                i <= self.state.trials@.len(),
                r@.len() == i,
                forall|k: int| 0 <= k < i ==> (#[trigger] r@[k])@ == self.state.trials@[k].vec@,
            decreases self.state.trials@.len() - i,
        {
            r.push(copy_numbers(&self.state.trials[i].vec));
            i = i + 1;
        }
        assert(rows(r@) =~= tried_points(self.state@.trials));
        r
    }

    /// Draws a vector around each good trial, and adds the best one to those that wait, if one of
    /// them is new and promising. Gives how many vectors were added.
    pub fn gen_kde_candidates<
        F: Fn(Double, Double, Double) -> bool,
        G: Fn(&Vec<Double>, Double) -> Vec<Double>,
        D: Fn(&Vec<Trial>, &Vec<Double>, Double) -> Double,
        O: Fn(Double, Double) -> Double,
    >(
        &self,
        state: &mut SchedulerState,
        quota: usize,
        within: &F,
        draw: &G,
        kde: &Kde<D, O>,
    ) -> (r: usize)
        requires
            askable(*within),
            drawable(*draw),
            estimable(*kde),
            self.state@.trials.len() >= LEAST_TRIALS ==> ordered_rewards(self.state@.trials),
        ensures
            generated(
                *within,
                *draw,
                *kde,
                self.state@,
                quota as nat,
                self.params.bw,
                old(state)@.globals.v_candidates,
                final(state)@.globals.v_candidates,
                r as int,
            ),
            final(state)@ == with_pool(old(state)@, final(state)@.globals.v_candidates),
    {
        let ghost pool0 = state@.globals.v_candidates;
        let (lset, gset): (Vec<Trial>, Vec<Trial>) = match self.split_l_g(quota) {
            Some(p) => (p.0, p.1),
            None => {
                return 0;
            },
        };
        let ghost ts = self.state@.trials;
        let bw: Double = self.params.bw;
        let pool: Vec<Vec<Double>> = get_v_candidates(state);
        let hist: Vec<Vec<Double>> = self.tried_vectors();
        let eps: Double = Double { bits: CANDIDATE_EPS_BITS };
        let floor: Double = Double { bits: SCORE_FLOOR_BITS };
        let ghost good = good_points(ts, quota as nat);
        let mut drawn: Vec<Vec<Double>> = Vec::new();
        let ghost mut open: Seq<bool> = Seq::empty();
        let mut scores: Vec<Double> = Vec::new();
        let mut best: Option<usize> = None;
        let mut i: usize = 0;
        while i < lset.len()
            invariant
                askable(*within),
                drawable(*draw),
                estimable(*kde),
                i <= lset@.len(),
                good == good_points(ts, quota as nat),
                points(lset@) == good,
                points(gset@) == other_points(ts, quota as nat),
                rows(hist@) == tried_points(ts),
                rows(pool@) == pool0,
                eps == (Double { bits: CANDIDATE_EPS_BITS }),
                floor == (Double { bits: SCORE_FLOOR_BITS }),
                drawn@.len() == i,
                forall|k: int|
                    0 <= k < i ==> drawn_one(*draw, good[k].vec, bw, (#[trigger] drawn@[k])@),
                judged(
                    *within,
                    *kde,
                    ts,
                    quota as nat,
                    bw,
                    pool0,
                    rows(drawn@),
                    scores@,
                    open,
                ),
                match best {
                    Some(b) => b < i && top_place(open, scores@, i as nat) == Some(b as int),
                    None => top_place(open, scores@, i as nat) is None,
                },
            decreases lset@.len() - i,
        {
            assert(good[i as int] == lset@[i as int]@);
            let v: Vec<Double> = draw_one(draw, &lset[i].vec, bw);
            let known: bool = any_same(&hist, &v, eps, within) || any_same(&pool, &v, eps, within);
            let score: Double = if known {
                Double::zero()
            } else {
                lg_score(&lset, &gset, &v, bw, kde)
            };
            let fresh: bool = !known && !score.le(floor);
            let ghost open0 = open;
            let ghost scores0 = scores@;
            let ghost drawn0 = drawn@;
            scores.push(score);
            drawn.push(v);
            proof {
                open = open0.push(fresh);
                top_place_prefix(open0, open, scores0, i as nat);
                top_place_by_first(open, scores0, scores@, i as nat);
                assert(judged_one(
                    *within,
                    *kde,
                    ts,
                    quota as nat,
                    bw,
                    pool0,
                    v@,
                    score,
                    fresh,
                ));
                let shown = rows(drawn@);
                assert(shown =~= rows(drawn0).push(v@));
                assert forall|k: int| #![trigger shown[k]] 0 <= k < i + 1 implies judged_one(
                    *within,
                    *kde,
                    ts,
                    quota as nat,
                    bw,
                    pool0,
                    shown[k],
                    scores@[k],
                    open[k],
                ) by {
                    assert(k < i ==> rows(drawn0)[k] == shown[k]);
                }
            }
            if fresh {
                match best {
                    None => {
                        best = Some(i);
                    },
                    Some(b) => {
                        if scores[b].lt(score) {
                            best = Some(i);
                        }
                    },
                }
            }
            i = i + 1;
        }
        let ghost all = rows(drawn@);
        assert(drawn_around(*draw, good, bw, all));
        match best {
            Some(b) => {
                assert(all[b as int] == drawn@[b as int]@);
                push_v_candidate(state, copy_numbers(&drawn[b]), within);
                assert(joined(
                    *within,
                    pool0,
                    all,
                    scores@,
                    open,
                    state@.globals.v_candidates,
                    1,
                ));
                1
            },
            None => {
                assert(joined(*within, pool0, all, scores@, open, pool0, 0));
                0
            },
        }
    }

    /// Draws as many vectors as the parameters ask for, each around a good trial that is picked at
    /// random, and adds those that are new and promising to those that wait. Gives how many were
    /// added.
    #[allow(non_snake_case)]
    pub fn gen_kde_candidates_allin_L<
        F: Fn(Double, Double, Double) -> bool,
        G: Fn(&Vec<Double>, Double) -> Vec<Double>,
        D: Fn(&Vec<Trial>, &Vec<Double>, Double) -> Double,
        O: Fn(Double, Double) -> Double,
    >(
        &self,
        state: &mut SchedulerState,
        quota: usize,
        within: &F,
        draw: &G,
        kde: &Kde<D, O>,
        rng: &mut StdRand,
    ) -> (r: usize)
        requires
            askable(*within),
            drawable(*draw),
            estimable(*kde),
            self.state@.trials.len() >= LEAST_TRIALS ==> ordered_rewards(self.state@.trials),
            splits(self.state@.trials, quota as nat) ==> first_is_shortest(
                good_points(self.state@.trials, quota as nat),
            ),
        ensures
            generated_all(
                *within,
                *draw,
                *kde,
                self.state@,
                quota as nat,
                self.params.bw,
                self.params.samples as nat,
                old(state)@.globals.v_candidates,
                final(state)@.globals.v_candidates,
                r as int,
            ),
            final(state)@ == with_pool(old(state)@, final(state)@.globals.v_candidates),
    {
        let ghost start = state@;
        let ghost pool0 = state@.globals.v_candidates;
        let (lset, gset): (Vec<Trial>, Vec<Trial>) = match self.split_l_g(quota) {
            Some(p) => (p.0, p.1),
            None => {
                return 0;
            },
        };
        let ghost ts = self.state@.trials;
        let bw: Double = self.params.bw;
        let mut pool: Vec<Vec<Double>> = get_v_candidates(state);
        let hist: Vec<Vec<Double>> = self.tried_vectors();
        let eps: Double = Double { bits: CANDIDATE_EPS_BITS };
        let floor: Double = Double { bits: SCORE_FLOOR_BITS };
        let ghost good = good_points(ts, quota as nat);
        let ghost mut all: Seq<Seq<Double>> = Seq::empty();
        let ghost mut steps: Seq<Pools> = seq![Pools { seen: pool0, kept: pool0 }];
        let mut added: usize = 0;
        let mut i: usize = 0;
        while i < self.params.samples
            invariant
                askable(*within),
                drawable(*draw),
                estimable(*kde),
                i <= self.params.samples,
                good == good_points(ts, quota as nat),
                good.len() > 0,
                first_is_shortest(good),
                all.len() == i,
                points(lset@) == good,
                points(gset@) == other_points(ts, quota as nat),
                rows(hist@) == tried_points(ts),
                eps == (Double { bits: CANDIDATE_EPS_BITS }),
                floor == (Double { bits: SCORE_FLOOR_BITS }),
                added <= i,
                steps.len() == i + 1,
                steps[0] == (Pools { seen: pool0, kept: pool0 }),
                steps[i as int] == (Pools {
                    seen: rows(pool@),
                    kept: state@.globals.v_candidates,
                }),
                rows(pool@).len() == pool0.len() + added,
                state@ == with_pool(start, state@.globals.v_candidates),
                forall|k: int|
                    #![trigger all[k]]
                    0 <= k < i ==> drawn_from(*draw, bases(good), bw, all[k]) && offered(
                        *within,
                        *kde,
                        ts,
                        quota as nat,
                        bw,
                        all[k],
                        steps[k],
                        steps[k + 1],
                    ),
            decreases self.params.samples - i,
        {
            assert(points(lset@).len() == lset@.len());
            let cand: Vec<Double> = sample_from_kde_reflect(&lset, bw, draw, rng);
            let ghost v = cand@;
            let ghost all0 = all;
            let ghost before = steps;
            let ghost pools = before[i as int];
            let score: Double = lg_score(&lset, &gset, &cand, bw, kde);
            assert(scored_one(*kde, ts, quota as nat, bw, v, score));
            if !score.le(floor) && !any_same(&hist, &cand, eps, within) && !any_same(
                &pool,
                &cand,
                eps,
                within,
            ) {
                let ghost p0 = pool@;
                push_v_candidate(state, copy_numbers(&cand), within);
                pool.push(cand);
                assert(rows(pool@) =~= rows(p0).push(v));
                added = added + 1;
            }
            proof {
                let after = Pools { seen: rows(pool@), kept: state@.globals.v_candidates };
                steps = before.push(after);
                all = all0.push(v);
                assert(offered_at(*within, tried_points(ts), v, score, pools, after));
                assert(offered(*within, *kde, ts, quota as nat, bw, v, pools, after));
                assert forall|k: int| #![trigger all[k]] 0 <= k < i + 1 implies drawn_from(
                    *draw,
                    bases(good),
                    bw,
                    all[k],
                ) && offered(
                    *within,
                    *kde,
                    ts,
                    quota as nat,
                    bw,
                    all[k],
                    steps[k],
                    steps[k + 1],
                ) by {
                    if k < i {
                        assert(all[k] == all0[k]);
                        assert(steps[k] == before[k] && steps[k + 1] == before[k + 1]);
                    }
                }
            }
            i = i + 1;
        }
        assert(offer_steps(
            *within,
            *draw,
            *kde,
            ts,
            quota as nat,
            bw,
            pool0,
            state@.globals.v_candidates,
            added as int,
            all,
            steps,
        ));
        added
    }

    /// Takes the first waiting vector that was not tried yet, and drops those before it. `project`
    /// brings the taken vector into its proper form.
    pub fn next_untried_from_pool<
        F: Fn(Double, Double, Double) -> bool,
        P: Fn(&Vec<Double>) -> Vec<Double>,
    >(&self, state: &mut SchedulerState, within: &F, project: &P) -> (r: Option<Vec<Double>>)
        requires
            askable(*within),
            projectable(*project),
        ensures
            exists|n: int|
                #![trigger left_over(old(state)@.globals.v_candidates, n)]
                passed_over(
                    *within,
                    tried_points(self.state@.trials),
                    old(state)@.globals.v_candidates,
                    n,
                ) && final(state)@ == with_pool(
                    old(state)@,
                    left_over(old(state)@.globals.v_candidates, n),
                ) && match r {
                    Some(v) => n < old(state)@.globals.v_candidates.len() && projected(
                        *project,
                        old(state)@.globals.v_candidates[n],
                        v,
                    ),
                    None => n == old(state)@.globals.v_candidates.len(),
                },
    {
        let ghost pool = state@.globals.v_candidates;
        let hist: Vec<Vec<Double>> = self.tried_vectors();
        let waiting: Vec<Vec<Double>> = get_v_candidates(state);
        let eps: Double = Double { bits: CANDIDATE_EPS_BITS };
        let mut n: usize = 0;
        while n < waiting.len() && any_same(&hist, &waiting[n], eps, within)
            invariant
                askable(*within),
                n <= waiting@.len(),
                eps == (Double { bits: CANDIDATE_EPS_BITS }),
                rows(waiting@) == pool,
                forall|i: int|
                    0 <= i < n ==> found_among(*within, rows(hist@), #[trigger] pool[i], eps),
            ensures
                n <= waiting@.len(),
                forall|i: int|
                    0 <= i < n ==> found_among(*within, rows(hist@), #[trigger] pool[i], eps),
                n < waiting@.len() ==> found_nowhere(*within, rows(hist@), pool[n as int], eps),
            decreases waiting@.len() - n,
        {
            assert(pool[n as int] == waiting@[n as int]@);
            n = n + 1;
        }
        assert(passed_over(*within, tried_points(self.state@.trials), pool, n as int));
        let mut rest: Vec<Vec<Double>> = Vec::new();
        let mut i: usize = n;
        if n < waiting.len() {
            i = n + 1;
        }
        let ghost start = i as int;
        while i < waiting.len()
            invariant
                0 <= start <= i <= waiting@.len(),
                rows(rest@) == rows(waiting@).subrange(start, i as int),
            decreases waiting@.len() - i,
        {
            let ghost before = rest@;
            rest.push(copy_numbers(&waiting[i]));
            assert(rows(rest@) =~= rows(before).push(rows(waiting@)[i as int]));
            assert(rows(rest@) =~= rows(waiting@).subrange(start, i + 1));
            i = i + 1;
        }
        assert(rows(rest@) =~= left_over(pool, n as int));
        replace_v_candidates(state, rest);
        if n < waiting.len() {
            let front: &Vec<Double> = &waiting[n];
            assert(call_requires(*project, (front,)));
            let out: Vec<Double> = project(front);
            assert(pool[n as int] == front@);
            assert(call_ensures(*project, (front,), out));
            Some(out)
        } else {
            None
        }
    }

    /// The next vector to try.
    pub fn suggest<
        F: Fn(Double, Double, Double) -> bool,
        P: Fn(&Vec<Double>) -> Vec<Double>,
        G: Fn(&Vec<Double>, Double) -> Vec<Double>,
        D: Fn(&Vec<Trial>, &Vec<Double>, Double) -> Double,
        O: Fn(Double, Double) -> Double,
    >(
        &mut self,
        state: &mut SchedulerState,
        quota: usize,
        within: &F,
        project: &P,
        draw: &G,
        kde: &Kde<D, O>,
    ) -> (r: Vec<Double>)
        requires
            askable(*within),
            projectable(*project),
            drawable(*draw),
            estimable(*kde),
            has_settled(old(self).state@) || old(self).state@.trials.len() < LEAST_TRIALS
                || ordered_rewards(old(self).state@.trials),
        ensures
            final(self).params == old(self).params,
            suggested(
                *within,
                *project,
                *draw,
                *kde,
                old(self).state@,
                quota as nat,
                old(self).params.bw,
                old(state)@.globals.v_candidates,
                r,
                final(self).state@,
                final(state)@.globals.v_candidates,
            ),
            final(state)@ == with_pool(old(state)@, final(state)@.globals.v_candidates),
    {
        let ghost s0 = self.state@;
        let ghost state0 = state@;
        if self.state.lock_best && self.state.best_fixed.len() > 0 {
            return copy_numbers(&self.state.best_fixed);
        }
        let added: usize = self.gen_kde_candidates(state, quota, within, draw, kde);
        let ghost mid = state@.globals.v_candidates;
        match self.next_untried_from_pool(state, within, project) {
            Some(v) => {
                return v;
            },
            None => {},
        }
        let found: Option<Vec<Double>> = self.best_by_lg(quota, kde);
        let ghost shape = form_of(found);
        let best: Vec<Double> = match found {
            Some(v) => v,
            None => if self.state.last_vec.len() > 0 {
                copy_numbers(&self.state.last_vec)
            } else {
                let mut v: Vec<Double> = Vec::new();
                v.resize(VECTOR_LEN, Double { bits: HALF_BITS });
                assert(v@ =~= Seq::new(VECTOR_LEN as nat, |i: int| Double { bits: HALF_BITS }));
                v
            },
        };
        self.state.best_fixed = copy_numbers(&best);
        self.state.lock_best = true;
        assert(best_found(*kde, s0.trials, quota as nat, self.params.bw, shape));
        assert(best@ == settled(s0, shape));
        assert(generated(
            *within,
            *draw,
            *kde,
            s0,
            quota as nat,
            self.params.bw,
            state0.globals.v_candidates,
            mid,
            added as int,
        ));
        best
    }
}

/// The top place depends on the first places alone.
proof fn top_place_prefix(a: Seq<bool>, b: Seq<bool>, scores: Seq<Double>, n: nat)
    requires
        n <= a.len(),
        n <= b.len(),
        forall|i: int| 0 <= i < n ==> a[i] == b[i],
    ensures
        top_place(a, scores, n) == top_place(b, scores, n),
    decreases n,
{
    if n > 0 {
        top_place_prefix(a, b, scores, (n - 1) as nat);
    }
}

/// The top place depends on the first scores alone. What comes behind them does not matter.
proof fn top_place_by_first(open: Seq<bool>, a: Seq<Double>, b: Seq<Double>, n: nat)
    requires
        n <= a.len(),
        n <= b.len(),
        forall|i: int| 0 <= i < n ==> a[i] == b[i],
    ensures
        top_place(open, a, n) == top_place(open, b, n),
    decreases n,
{
    if n > 0 {
        top_place_by_first(open, a, b, (n - 1) as nat);
        top_place_is_open(open, a, (n - 1) as nat);
    }
}

/// The top place is one of the open ones.
proof fn top_place_is_open(open: Seq<bool>, scores: Seq<Double>, n: nat)
    ensures
        match top_place(open, scores, n) {
            Some(b) => 0 <= b < n && open[b],
            None => true,
        },
    decreases n,
{
    if n > 0 {
        top_place_is_open(open, scores, (n - 1) as nat);
    }
}

/// Where nothing is left to try, the search settles.
pub proof fn settles_when_done<
    D: Fn(&Vec<Trial>, &Vec<Double>, Double) -> Double,
    O: Fn(Double, Double) -> Double,
>(kde: Kde<D, O>, s: WindowView, quota: nat, bw: Double, best: Option<Seq<Double>>)
    requires
        best_found(kde, s.trials, quota, bw, best),
    ensures
        has_settled(settled_on(s, settled(s, best))),
        settled_on(s, settled(s, best)).best_fixed == settled(s, best),
{
    if splits(s.trials, quota) {
        let scores = choose|scores: Seq<Double>| #[trigger]
            scored(kde, s.trials, quota, bw, scores) && best == best_scored(s.trials, quota, scores);
        top_place_is_open(complete(s.trials), scores, s.trials.len());
    }
}

/// Once the search has settled it stays settled: each later suggestion is the same vector, and
/// neither the search nor the waiting vectors change.
pub proof fn settling_is_final<
    F: Fn(Double, Double, Double) -> bool,
    P: Fn(&Vec<Double>) -> Vec<Double>,
    G: Fn(&Vec<Double>, Double) -> Vec<Double>,
    D: Fn(&Vec<Trial>, &Vec<Double>, Double) -> Double,
    O: Fn(Double, Double) -> Double,
>(
    within: F,
    project: P,
    draw: G,
    kde: Kde<D, O>,
    s: WindowView,
    quota: nat,
    bw: Double,
    pool: Seq<Seq<Double>>,
    first: Vec<Double>,
    settled: WindowView,
    left: Seq<Seq<Double>>,
    later_quota: nat,
    later_pool: Seq<Seq<Double>>,
    second: Vec<Double>,
    after: WindowView,
    later_left: Seq<Seq<Double>>,
)
    requires
        suggested(within, project, draw, kde, s, quota, bw, pool, first, settled, left),
        has_settled(settled),
        suggested(
            within,
            project,
            draw,
            kde,
            settled,
            later_quota,
            bw,
            later_pool,
            second,
            after,
            later_left,
        ),
    ensures
        second@ == first@,
        after == settled,
        later_left == later_pool,
{
}

/// Does `project` give a vector of the length that it got?
pub open spec fn keeps_length<P: Fn(&Vec<Double>) -> Vec<Double>>(project: P) -> bool {
    forall|z: &Vec<Double>, out: Vec<Double>| #[trigger]
        call_ensures(project, (z,), out) ==> out@.len() == z@.len()
}

/// Does `draw` give a vector of the length of the one that it is drawn around?
pub open spec fn draws_keep_length<G: Fn(&Vec<Double>, Double) -> Vec<Double>>(draw: G) -> bool {
    forall|z: &Vec<Double>, bw: Double, out: Vec<Double>| #[trigger]
        call_ensures(draw, (z, bw), out) ==> out@.len() == z@.len()
}

/// Have all vectors of the search `n` components: those that were tried, the one in use, and the one
/// that it has settled on?
pub open spec fn search_of_length(s: WindowView, n: nat) -> bool {
    &&& of_length(tried_points(s.trials), n)
    &&& s.last_vec.len() == n
    &&& has_settled(s) ==> s.best_fixed.len() == n
}

/// The search keeps the form of its vectors, which is alpha and one weight for each of `dim`
/// features: where all that was tried and waits has it, and draws keep the length of what they are
/// drawn around, the suggested vector has it, and so has all that is left waiting and all that the
/// search remembers.
pub proof fn suggestions_keep_length<
    F: Fn(Double, Double, Double) -> bool,
    P: Fn(&Vec<Double>) -> Vec<Double>,
    G: Fn(&Vec<Double>, Double) -> Vec<Double>,
    D: Fn(&Vec<Trial>, &Vec<Double>, Double) -> Double,
    O: Fn(Double, Double) -> Double,
>(
    within: F,
    project: P,
    draw: G,
    kde: Kde<D, O>,
    s: WindowView,
    quota: nat,
    bw: Double,
    pool: Seq<Seq<Double>>,
    r: Vec<Double>,
    after: WindowView,
    left: Seq<Seq<Double>>,
    dim: nat,
)
    requires
        suggested(within, project, draw, kde, s, quota, bw, pool, r, after, left),
        keeps_length(project),
        search_of_length(s, 1 + dim),
        of_length(pool, 1 + dim),
        draws_keep_length(draw),
    ensures
        r@.len() == 1 + dim,
        of_length(left, 1 + dim),
        search_of_length(after, 1 + dim),
        search_of_length(WindowView { last_vec: r@, ..after }, 1 + dim),
{
    let n = 1 + dim;
    if !has_settled(s) {
        let (mid, k, added) = choose|mid: Seq<Seq<Double>>, k: int, added: int|
            {
                &&& #[trigger] generated(within, draw, kde, s, quota, bw, pool, mid, added)
                &&& #[trigger] passed_over(within, tried_points(s.trials), mid, k)
                &&& left == left_over(mid, k)
                &&& k < mid.len() ==> projected(project, mid[k], r) && after == s
                &&& k == mid.len() ==> after == settled_on(s, r@) && exists|
                    best: Option<Seq<Double>>,
                | #[trigger]
                    best_found(kde, s.trials, quota, bw, best) && r@ == settled(s, best)
            };
        assert(of_length(mid, n)) by {
            if splits(s.trials, quota) {
                let good = good_points(s.trials, quota);
                let (drawn, scores, open) = choose|
                    drawn: Seq<Seq<Double>>,
                    scores: Seq<Double>,
                    open: Seq<bool>,
                |
                    {
                        &&& drawn_around(draw, good, bw, drawn)
                        &&& #[trigger] judged(
                            within,
                            kde,
                            s.trials,
                            quota,
                            bw,
                            pool,
                            drawn,
                            scores,
                            open,
                        )
                        &&& joined(within, pool, drawn, scores, open, mid, added)
                    };
                good_points_are_tried(s.trials, quota);
                assert forall|i: int| 0 <= i < drawn.len() implies (#[trigger] drawn[i]).len()
                    == n by {
                    assert(drawn_one(draw, good[i].vec, bw, drawn[i]));
                    assert(s.trials.contains(good[i]));
                    let k = choose|k: int| 0 <= k < s.trials.len() && s.trials[k] == good[i];
                    assert(tried_points(s.trials)[k] == good[i].vec);
                }
                top_place_is_open(open, scores, drawn.len());
            }
        }
        if k < mid.len() {
            assert(mid[k].len() == n);
            assert forall|i: int| 0 <= i < left.len() implies (#[trigger] left[i]).len() == n by {
                assert(left[i] == mid[k + 1 + i]);
            }
        } else {
            let best = choose|best: Option<Seq<Double>>| #[trigger]
                best_found(kde, s.trials, quota, bw, best) && r@ == settled(s, best);
            if splits(s.trials, quota) {
                let hs = choose|hs: Seq<Double>| #[trigger]
                    scored(kde, s.trials, quota, bw, hs) && best == best_scored(s.trials, quota, hs);
                top_place_is_open(complete(s.trials), hs, s.trials.len());
                match top_place(complete(s.trials), hs, s.trials.len()) {
                    Some(b) => {
                        assert(tried_points(s.trials)[b] == s.trials[b].vec);
                    },
                    None => {},
                }
            }
        }
    }
}

proof fn put_in_members(s: Seq<Point>, t: Point)
    ensures
        forall|i: int|
            0 <= i < put_in(s, t).len() ==> s.contains(#[trigger] put_in(s, t)[i]) || put_in(s, t)[i]
                == t,
    decreases s.len(),
{
    if s.len() > 0 {
        put_in_members(s.drop_last(), t);
    }
    let all = put_in(s, t);
    assert forall|i: int| 0 <= i < all.len() implies s.contains(#[trigger] all[i]) || all[i] == t by {
        if s.len() == 0 || !t.reward.below(s.last().reward) {
            assert(i < s.len() ==> all[i] == s[i]);
        } else {
            let front = s.drop_last();
            let before = put_in(front, t);
            if i < before.len() {
                assert(all[i] == before[i]);
                if front.contains(before[i]) {
                    let k = choose|k: int| 0 <= k < front.len() && front[k] == before[i];
                    assert(s[k] == before[i]);
                }
            } else {
                assert(all[i] == s[s.len() - 1]);
            }
        }
    }
}

proof fn ascending_members(ts: Seq<Point>)
    ensures
        forall|i: int| 0 <= i < ascending(ts).len() ==> ts.contains(#[trigger] ascending(ts)[i]),
    decreases ts.len(),
{
    if ts.len() > 0 {
        let front = ts.drop_last();
        ascending_members(front);
        put_in_members(ascending(front), ts.last());
        assert(ts[ts.len() - 1] == ts.last());
        assert forall|x: Point| ascending(front).contains(x) implies ts.contains(x) by {
            let k = choose|k: int| 0 <= k < ascending(front).len() && ascending(front)[k] == x;
            assert(front.contains(ascending(front)[k]));
            let m = choose|m: int| 0 <= m < front.len() && front[m] == x;
            assert(ts[m] == x);
        }
    }
}

proof fn reaching_members(ts: Seq<Point>, y: Double, reach: bool, n: nat)
    requires
        n <= ts.len(),
    ensures
        forall|i: int|
            0 <= i < reaching(ts, y, reach, n).len() ==> ts.contains(
                #[trigger] reaching(ts, y, reach, n)[i],
            ),
    decreases n,
{
    if n > 0 {
        let before = reaching(ts, y, reach, (n - 1) as nat);
        let all = reaching(ts, y, reach, n);
        reaching_members(ts, y, reach, (n - 1) as nat);
        assert forall|i: int| 0 <= i < all.len() implies ts.contains(#[trigger] all[i]) by {
            if i < before.len() {
                assert(all[i] == before[i]);
            } else {
                assert(all[i] == ts[n - 1]);
            }
        }
    }
}

/// The good trials are trials of the history.
pub proof fn good_points_are_tried(ts: Seq<Point>, quota: nat)
    ensures
        forall|i: int|
            0 <= i < good_points(ts, quota).len() ==> ts.contains(
                #[trigger] good_points(ts, quota)[i],
            ),
{
    let all = ascending(ts);
    let good = good_points(ts, quota);
    ascending_members(ts);
    reaching_members(all, threshold(ts, quota), true, all.len());
    assert forall|i: int| 0 <= i < good.len() implies ts.contains(#[trigger] good[i]) by {
        assert(all.contains(good[i]));
        let k = choose|k: int| 0 <= k < all.len() && all[k] == good[i];
        assert(ts.contains(all[k]));
    }
}

/// Recording a vector of that form keeps the form too.
pub proof fn recording_keeps_length(s: WindowView, t: Point, n: nat)
    requires
        search_of_length(s, n),
        t.vec.len() == n,
    ensures
        search_of_length(with_point(s, t), n),
{
    let all = s.trials.push(t);
    let kept = last_of(all, MAX_TRIALS as nat);
    let shift = all.len() - kept.len();
    assert forall|i: int| 0 <= i < tried_points(kept).len() implies (
    #[trigger] tried_points(kept)[i]).len() == n by {
        assert(kept[i] == all[i + shift]);
        if i + shift < s.trials.len() {
            assert(tried_points(s.trials)[i + shift] == all[i + shift].vec);
        }
    }
}

/// The vector of the trial at a place, cut to the length of the first one.
pub fn base_at(set: &Vec<Trial>, i: usize) -> (r: Vec<Double>)
    requires
        i < set@.len(),
        first_is_shortest(points(set@)),
    ensures
        r@ == bases(points(set@))[i as int],
{
    let ghost ps = points(set@);
    assert(ps[0] == set@[0]@);
    assert(ps[i as int] == set@[i as int]@);
    let d: usize = set[0].vec.len();
    let mut r: Vec<Double> = Vec::new();
    let mut j: usize = 0;
    while j < d
        invariant
            i < set@.len(),
            j <= d <= set@[i as int].vec@.len(),
            r@ == set@[i as int].vec@.take(j as int),
        decreases d - j,
    {
        r.push(set[i].vec[j]);
        assert(r@ =~= set@[i as int].vec@.take(j + 1));
        j = j + 1;
    }
    r
}

/// A vector that is drawn around the vector of one of the trials, picked at random.
pub fn sample_from_kde_reflect<G: Fn(&Vec<Double>, Double) -> Vec<Double>>(
    set: &Vec<Trial>,
    bw: Double,
    draw: &G,
    rng: &mut StdRand,
) -> (r: Vec<Double>)
    requires
        set@.len() > 0,
        first_is_shortest(points(set@)),
        drawable(*draw),
    ensures
        drawn_from(*draw, bases(points(set@)), bw, r@),
{
    let i: usize = draw_below(rng, set.len());
    let base: Vec<Double> = base_at(set, i);
    draw_one(draw, &base, bw)
}

impl TpeOptimizer {
    /// The history as text, one line for each trial, numbered from 0. The caller gives the rewards
    /// and the numbers of the vectors as text.
    pub fn snapshot_trials_text(&self, rewards: &Vec<String>, numbers: &Vec<Vec<String>>) -> (r:
        String)
        requires
            rewards@.len() == self.state@.trials.len(),
            numbers@.len() == self.state@.trials.len(),
        ensures
            r@ == trial_lines(
                Seq::new(self.state@.trials.len(), |i: int| i as u64),
                texts(rewards@),
                text_rows(numbers@),
                self.state@.trials.len(),
            ),
    {
        let mut iterations: Vec<u64> = Vec::new();
        let mut i: usize = 0;
        while i < self.state.trials.len()
            invariant
                i <= self.state.trials@.len(),
                iterations@ == Seq::new(i as nat, |k: int| k as u64),
            decreases self.state.trials@.len() - i,
        {
            iterations.push(i as u64);
            assert(iterations@ =~= Seq::new((i + 1) as nat, |k: int| k as u64));
            i = i + 1;
        }
        trials_text(&iterations, rewards, numbers)
    }
}

/// The trials that earned exactly as much as `rank` says, in their order.
pub open spec fn earning(ts: Seq<Point>, rank: int) -> Seq<Point>
    decreases ts.len(),
{
    if ts.len() == 0 {
        Seq::empty()
    } else if ts.last().reward.rank() == rank {
        earning(ts.drop_last(), rank).push(ts.last())
    } else {
        earning(ts.drop_last(), rank)
    }
}

/// How many trials earned more than `rank` says.
pub open spec fn earning_more(ts: Seq<Point>, rank: int) -> nat
    decreases ts.len(),
{
    if ts.len() == 0 {
        0
    } else {
        earning_more(ts.drop_last(), rank) + if ts.last().reward.rank() > rank {
            1nat
        } else {
            0nat
        }
    }
}

/// A trial that is put in comes behind those that earned the same.
proof fn put_in_is_stable(s: Seq<Point>, t: Point, rank: int)
    requires
        ordered_rewards(s),
        !t.reward.nan(),
    ensures
        earning(put_in(s, t), rank) == if t.reward.rank() == rank {
            earning(s, rank).push(t)
        } else {
            earning(s, rank)
        },
        earning_more(put_in(s, t), rank) == earning_more(s, rank) + if t.reward.rank() > rank {
            1nat
        } else {
            0nat
        },
    decreases s.len(),
{
    if s.len() == 0 || !t.reward.below(s.last().reward) {
        assert(s.push(t).drop_last() =~= s);
    } else {
        put_in_is_stable(s.drop_last(), t, rank);
        let front = put_in(s.drop_last(), t);
        assert(front.push(s.last()).drop_last() =~= front);
    }
}

/// Sorting keeps the trials that earned the same in their order, and loses none.
pub proof fn sorting_is_stable(ts: Seq<Point>, rank: int)
    requires
        ordered_rewards(ts),
    ensures
        earning(ascending(ts), rank) == earning(ts, rank),
        earning_more(ascending(ts), rank) == earning_more(ts, rank),
    decreases ts.len(),
{
    if ts.len() > 0 {
        sorting_is_stable(ts.drop_last(), rank);
        ascending_is_sorted(ts.drop_last());
        put_in_is_stable(ascending(ts.drop_last()), ts.last(), rank);
    }
}

/// In rising order, only what comes behind a place can have earned more than is earned there.
proof fn few_earned_more(sorted: Seq<Point>, m: int, rank: int, n: nat)
    requires
        rising(sorted),
        0 <= m < sorted.len(),
        sorted[m].reward.rank() <= rank,
        n <= sorted.len(),
    ensures
        n <= m + 1 ==> earning_more(sorted.take(n as int), rank) == 0,
        n > m + 1 ==> earning_more(sorted.take(n as int), rank) <= n - 1 - m,
    decreases n,
{
    if n > 0 {
        few_earned_more(sorted, m, rank, (n - 1) as nat);
        assert(sorted.take(n as int).drop_last() =~= sorted.take(n - 1));
        assert(sorted[n - 1].reward.rank() <= sorted[m].reward.rank() || n - 1 > m);
    }
}

/// A part of a rising list rises.
proof fn parts_rise(sorted: Seq<Point>, y: Double, reach: bool, n: nat)
    requires
        rising(sorted),
        n <= sorted.len(),
    ensures
        rising(reaching(sorted, y, reach, n)),
        n > 0 ==> forall|i: int|
            0 <= i < reaching(sorted, y, reach, n).len() ==> (#[trigger] reaching(
                sorted,
                y,
                reach,
                n,
            )[i]).reward.rank() <= sorted[n - 1].reward.rank(),
    decreases n,
{
    if n > 0 {
        parts_rise(sorted, y, reach, (n - 1) as nat);
        if n > 1 {
            assert(sorted[n - 2].reward.rank() <= sorted[n - 1].reward.rank());
        }
    }
}

/// The two parts of a list together hold what it holds.
proof fn parts_are_complete(ts: Seq<Point>, y: Double, n: nat)
    requires
        n <= ts.len(),
    ensures
        reaching(ts, y, true, n).to_multiset().add(reaching(ts, y, false, n).to_multiset())
            == ts.take(n as int).to_multiset(),
    decreases n,
{
    broadcast use vstd::seq_lib::group_to_multiset_ensures;

    if n == 0 {
        assert(ts.take(0) =~= Seq::<Point>::empty());
        assert(reaching(ts, y, true, 0).to_multiset() =~= vstd::multiset::Multiset::empty());
        assert(reaching(ts, y, true, 0).to_multiset().add(
            reaching(ts, y, false, 0).to_multiset(),
        ) =~= ts.take(0).to_multiset());
    } else {
        parts_are_complete(ts, y, (n - 1) as nat);
        let t = ts[n - 1];
        assert(ts.take(n as int) =~= ts.take(n - 1).push(t));
        assert(reaching(ts, y, true, n).to_multiset().add(
            reaching(ts, y, false, n).to_multiset(),
        ) =~= ts.take(n as int).to_multiset());
    }
}

/// The good trials and the others are all trials. There are at least as many good ones as the quota
/// says, which is at least one, and fewer than that earned more than any good one. Each of the others
/// earned less than every good one. Both lists rise.
pub proof fn good_trials_earned_most(ts: Seq<Point>, quota: nat, least: nat)
    requires
        ts.len() > 0,
        ordered_rewards(ts),
        quota == 0 ==> least == 1,
        1 <= quota <= ts.len() ==> least == quota,
        quota > ts.len() ==> least == ts.len(),
    ensures
        good_points(ts, quota).to_multiset().add(other_points(ts, quota).to_multiset())
            == ts.to_multiset(),
        good_points(ts, quota).len() >= least,
        forall|j: int|
            0 <= j < good_points(ts, quota).len() ==> earning_more(
                ts,
                (#[trigger] good_points(ts, quota)[j]).reward.rank(),
            ) < least,
        forall|i: int, j: int|
            0 <= i < other_points(ts, quota).len() && 0 <= j < good_points(ts, quota).len() ==> (
            #[trigger] other_points(ts, quota)[i]).reward.rank() < (#[trigger] good_points(
                ts,
                quota,
            )[j]).reward.rank(),
        rising(good_points(ts, quota)),
        rising(other_points(ts, quota)),
{
    ascending_is_sorted(ts);
    split_orders_trials(ts, quota);
    let sorted = ascending(ts);
    let y = threshold(ts, quota);
    let m = sorted.len() - least;
    parts_are_complete(sorted, y, sorted.len());
    assert(sorted.take(sorted.len() as int) =~= sorted);
    parts_rise(sorted, y, true, sorted.len());
    parts_rise(sorted, y, false, sorted.len());
    split_first(sorted, y, sorted.len());
    assert forall|j: int| 0 <= j < good_points(ts, quota).len() implies earning_more(
        ts,
        (#[trigger] good_points(ts, quota)[j]).reward.rank(),
    ) < least by {
        let rank = good_points(ts, quota)[j].reward.rank();
        few_earned_more(sorted, m as int, rank, sorted.len());
        sorting_is_stable(ts, rank);
    }
}

/// Fewer than five trials are not split, and neither are trials that all earned the same.
pub proof fn few_trials_are_not_split(ts: Seq<Point>, quota: nat)
    requires
        ordered_rewards(ts),
        ts.len() < 5 || forall|i: int, j: int|
            0 <= i < ts.len() && 0 <= j < ts.len() ==> (#[trigger] ts[i]).reward.rank() == (
            #[trigger] ts[j]).reward.rank(),
    ensures
        !splits(ts, quota),
{
    if splits(ts, quota) {
        split_orders_trials(ts, quota);
        good_points_are_tried(ts, quota);
        reaching_members(ascending(ts), threshold(ts, quota), false, ascending(ts).len());
        ascending_members(ts);
        let a = good_points(ts, quota)[0];
        let b = other_points(ts, quota)[0];
        assert(ascending(ts).contains(b));
        assert(b.reward.rank() < a.reward.rank());
        assert(ts.contains(a) && ts.contains(b));
    }
}

/// Five trials or more are split where as many as the quota says earned more than one of them.
pub proof fn enough_trials_are_split(ts: Seq<Point>, quota: nat, i: int)
    requires
        ts.len() >= 5,
        ordered_rewards(ts),
        1 <= quota <= ts.len(),
        0 <= i < ts.len(),
        earning_more(ts, ts[i].reward.rank()) >= quota,
    ensures
        splits(ts, quota),
{
    good_trials_earned_most(ts, quota, quota);
    if other_points(ts, quota).len() == 0 {
        broadcast use vstd::seq_lib::group_to_multiset_ensures;

        let good = good_points(ts, quota);
        assert(good.to_multiset() =~= ts.to_multiset()) by {
            assert(other_points(ts, quota) =~= Seq::<Point>::empty());
            assert(other_points(ts, quota).to_multiset() =~= vstd::multiset::Multiset::empty());
            assert(good.to_multiset().add(vstd::multiset::Multiset::empty())
                =~= good.to_multiset());
        }
        assert(ts.contains(ts[i]));
        assert(ts.to_multiset().count(ts[i]) > 0);
        assert(good.contains(ts[i]));
        let j = good.index_of(ts[i]);
        assert(good[j] == ts[i]);
    }
}

/// A vector scores how likely it is among the good trials over how likely it is among the others, and
/// infinity where it is not likely there at all.
pub proof fn scores_compare_likelihoods<
    D: Fn(&Vec<Trial>, &Vec<Double>, Double) -> Double,
    O: Fn(Double, Double) -> Double,
>(
    kde: Kde<D, O>,
    ts: Seq<Point>,
    quota: nat,
    bw: Double,
    v: Seq<Double>,
    l: Double,
    g: Double,
    x: Double,
)
    requires
        scored_one(kde, ts, quota, bw, v, x),
        forall|a: &Vec<Trial>, z: &Vec<Double>, y: Double|
            points(a@) == good_points(ts, quota) && z@ == v && #[trigger] call_ensures(
                kde.density,
                (a, z, bw),
                y,
            ) ==> y == l,
        forall|a: &Vec<Trial>, z: &Vec<Double>, y: Double|
            points(a@) == other_points(ts, quota) && z@ == v && #[trigger] call_ensures(
                kde.density,
                (a, z, bw),
                y,
            ) ==> y == g,
    ensures
        (Double { bits: 0 }).below(g) ==> call_ensures(kde.over, (l, g), x),
        !(Double { bits: 0 }).below(g) ==> x == (Double { bits: 0x7FF0_0000_0000_0000 }),
{
}

/// Of the open places with the highest score the first one is taken.
proof fn top_place_is_first(open: Seq<bool>, scores: Seq<Double>, n: nat)
    requires
        n <= open.len(),
        n <= scores.len(),
        forall|i: int| 0 <= i < n ==> !(#[trigger] scores[i]).nan(),
    ensures
        top_place(open, scores, n) matches Some(b) ==> 0 <= b < n && forall|i: int|
            0 <= i < b && #[trigger] open[i] ==> scores[i].rank() < scores[b].rank(),
    decreases n,
{
    if n > 0 {
        top_place_is_first(open, scores, (n - 1) as nat);
        top_place_is_top(open, scores, (n - 1) as nat);
    }
}

/// The best vector is that of the trial that scores highest, the first of those, among the trials with
/// at least nine numbers. There is none where the trials are not split or none is so long.
pub proof fn best_scores_highest<
    D: Fn(&Vec<Trial>, &Vec<Double>, Double) -> Double,
    O: Fn(Double, Double) -> Double,
>(
    kde: Kde<D, O>,
    ts: Seq<Point>,
    quota: nat,
    bw: Double,
    xs: Seq<Double>,
    best: Option<Seq<Double>>,
)
    requires
        best_found(kde, ts, quota, bw, best),
        xs.len() == ts.len(),
        forall|i: int, x: Double|
            0 <= i < ts.len() && #[trigger] scored_one(kde, ts, quota, bw, ts[i].vec, x) ==> x
                == xs[i],
        forall|i: int| 0 <= i < xs.len() ==> !(#[trigger] xs[i]).nan(),
        forall|i: int| 0 <= i < ts.len() ==> (#[trigger] ts[i]).vec.len() >= 9,
    ensures
        !splits(ts, quota) ==> best is None,
        splits(ts, quota) ==> exists|b: int|
            {
                &&& 0 <= b < ts.len()
                &&& best == Some((#[trigger] ts[b]).vec)
                &&& forall|i: int|
                    0 <= i < ts.len() ==> (#[trigger] xs[i]).rank() <= xs[b].rank()
                &&& forall|i: int| 0 <= i < b ==> (#[trigger] xs[i]).rank() < xs[b].rank()
            },
{
    if splits(ts, quota) {
        let scores = choose|scores: Seq<Double>| #[trigger]
            scored(kde, ts, quota, bw, scores) && best == best_scored(ts, quota, scores);
        assert forall|i: int| 0 <= i < ts.len() implies scores[i] == xs[i] by {
            assert(ts[i].vec.len() >= 9);
            assert(scored_one(kde, ts, quota, bw, ts[i].vec, scores[i]));
        }
        assert(scores =~= xs);
        let open = complete(ts);
        assert forall|i: int| 0 <= i < ts.len() implies #[trigger] open[i] by {
            assert(ts[i].vec.len() >= 9);
        }
        top_place_is_top(open, xs, ts.len());
        top_place_is_first(open, xs, ts.len());
        if top_place(open, xs, ts.len()) is None {
            assert(open[0]);
        }
        let b = top_place(open, xs, ts.len())->0;
        assert(best == Some(ts[b].vec));
        assert forall|i: int| 0 <= i < ts.len() implies (#[trigger] xs[i]).rank() <= xs[b].rank() by {
            assert(open[i]);
        }
        assert forall|i: int| 0 <= i < b implies (#[trigger] xs[i]).rank() < xs[b].rank() by {
            assert(open[i]);
        }
    }
}

/// A trial with fewer than nine numbers is never the best one.
pub proof fn short_trials_are_never_best<
    D: Fn(&Vec<Trial>, &Vec<Double>, Double) -> Double,
    O: Fn(Double, Double) -> Double,
>(
    kde: Kde<D, O>,
    ts: Seq<Point>,
    quota: nat,
    bw: Double,
    best: Option<Seq<Double>>,
)
    requires
        best_found(kde, ts, quota, bw, best),
    ensures
        best matches Some(v) ==> v.len() >= 9 && exists|b: int|
            0 <= b < ts.len() && (#[trigger] ts[b]).vec == v,
{
    if splits(ts, quota) {
        let scores = choose|scores: Seq<Double>| #[trigger]
            scored(kde, ts, quota, bw, scores) && best == best_scored(ts, quota, scores);
        top_place_is_open(complete(ts), scores, ts.len());
        if best is Some {
            let b = top_place(complete(ts), scores, ts.len())->0;
            assert(complete(ts)[b]);
            assert(ts[b].vec == best->0);
        }
    }
}

/// A trial that is recorded comes last. Of 1024 trials the first one leaves for it, of fewer none, and
/// nothing else changes.
pub proof fn recorded_points_come_last(s: WindowView, t: Point)
    ensures
        s.trials.len() < 1024 ==> with_point(s, t).trials == s.trials.push(t),
        s.trials.len() == 1024 ==> with_point(s, t).trials == s.trials.skip(1).push(t),
        with_point(s, t) == (WindowView { trials: with_point(s, t).trials, ..s }),
{
    if s.trials.len() == 1024 {
        assert(with_point(s, t).trials =~= s.trials.skip(1).push(t));
    }
}

/// What is kept of a search is each of its trials with the time of keeping, its last vector and the
/// counts of corpus and coverage. It keeps as many trials as it did before, 1024 where it did not say.
pub proof fn kept_searches_are_complete(
    s: WindowView,
    before: Option<HistoryView>,
    now_ms: u64,
    i: int,
)
    requires
        before matches Some(h) ==> h.max_trials == 0 || s.trials.len() <= h.max_trials,
        before is None || (before->0).max_trials == 0 ==> s.trials.len() <= 1024,
        0 <= i < s.trials.len(),
    ensures
        ({
            let h = kept_search(s, before, now_ms);
            &&& h.trials.len() == s.trials.len()
            &&& h.trials[i] == (s.trials[i].vec, s.trials[i].reward, now_ms)
            &&& h.last_vec == s.last_vec
            &&& h.last_check_ms == Some(now_ms)
            &&& h.last_corpus == s.last_corpus
            &&& h.last_cov == s.last_cov
            &&& before is Some && (before->0).max_trials > 0 ==> h.max_trials == (
            before->0).max_trials
            &&& before is None || (before->0).max_trials == 0 ==> h.max_trials == 1024
        }),
{
}

/// A search that is taken up has the vectors and rewards that were kept and the last vector, and its
/// window begins now. The counts of corpus and coverage are forgotten, and what was settled stays.
/// Without a history nothing changes but that none is looked for again.
pub proof fn taken_up_searches_go_on(
    s: WindowView,
    h: HistoryView,
    now_ns: u64,
    i: int,
)
    requires
        !s.restored_once,
        h.max_trials > 0 ==> h.trials.len() <= h.max_trials,
        h.max_trials == 0 ==> h.trials.len() <= 1024,
        0 <= i < h.trials.len(),
    ensures
        ({
            let t = taken_up(s, Some(h), now_ns);
            &&& t.trials.len() == h.trials.len()
            &&& t.trials[i] == (Point { vec: h.trials[i].0, reward: h.trials[i].1 })
            &&& t.last_vec == h.last_vec
            &&& t.window_start == Some(now_ns)
            &&& t.last_corpus is None
            &&& t.last_cov is None
            &&& t.restored_once
            &&& t.no_new_counter == s.no_new_counter
            &&& t.lock_best == s.lock_best
            &&& t.best_fixed == s.best_fixed
        }),
        taken_up(s, None, now_ns) == (WindowView { restored_once: true, ..s }),
{
}

/// A window is over once its length in seconds has passed since it began, and at once where none has
/// begun.
pub proof fn windows_last_their_period(s: WindowView, period: u64, now_ns: u64)
    ensures
        s.window_start is None ==> due(s, period, now_ns),
        s.window_start matches Some(t0) ==> (due(s, period, now_ns) <==> period == 0 || now_ns
            >= t0 + period * 1_000_000_000),
{
}

/// The time since a window began is what the clock moved on, and none where the clock went back.
pub proof fn time_since(t0: u64, passed: nat)
    requires
        t0 + passed <= u64::MAX,
    ensures
        since(t0, (t0 + passed) as u64) == passed,
        since((t0 + passed) as u64, t0) == 0,
{
}

/// Counts grow by what is new, and by nothing that is known where there is nothing to compare with.
pub proof fn counts_grow_by_what_is_new(before: usize, now: usize)
    ensures
        growth(Some(before), now) == Some(now as int - before as int),
        growth(None, now) is None,
{
}

/// Where each good trial gives one draw that is new, and each draw one score, the draw with the highest
/// score joins the pool, provided that it scores above the floor. Else the pool stays as it is.
pub proof fn best_draws_join<
    F: Fn(Double, Double, Double) -> bool,
    G: Fn(&Vec<Double>, Double) -> Vec<Double>,
    D: Fn(&Vec<Trial>, &Vec<Double>, Double) -> Double,
    O: Fn(Double, Double) -> Double,
>(
    within: F,
    draw: G,
    kde: Kde<D, O>,
    s: WindowView,
    quota: nat,
    bw: Double,
    hist: Seq<Seq<Double>>,
    ws: Seq<Seq<Double>>,
    xs: Seq<Double>,
    pool: Seq<Seq<Double>>,
    out: Seq<Seq<Double>>,
    added: int,
)
    requires
        steady(within),
        generated(within, draw, kde, s, quota, bw, pool, out, added),
        splits(s.trials, quota),
        hist.len() == s.trials.len(),
        forall|i: int| 0 <= i < hist.len() ==> #[trigger] hist[i] == s.trials[i].vec,
        ws.len() == good_points(s.trials, quota).len(),
        xs.len() == ws.len(),
        forall|i: int, z: &Vec<Double>, w: Vec<Double>|
            0 <= i < ws.len() && z@ == good_points(s.trials, quota)[i].vec
                && #[trigger] call_ensures(draw, (z, bw), w) ==> w@ == #[trigger] ws[i],
        forall|i: int|
            0 <= i < ws.len() ==> found_nowhere(
                within,
                hist,
                #[trigger] ws[i],
                Double { bits: CANDIDATE_EPS_BITS },
            ),
        forall|i: int|
            0 <= i < ws.len() ==> found_nowhere(
                within,
                pool,
                #[trigger] ws[i],
                Double { bits: CANDIDATE_EPS_BITS },
            ),
        forall|i: int, x: Double|
            0 <= i < ws.len() && #[trigger] scored_one(kde, s.trials, quota, bw, ws[i], x) ==> x
                == xs[i],
        forall|i: int| 0 <= i < xs.len() ==> !(#[trigger] xs[i]).nan(),
    ensures
        (forall|i: int|
            0 <= i < xs.len() ==> (#[trigger] xs[i]).at_most(Double { bits: SCORE_FLOOR_BITS }))
            ==> out == pool && added == 0,
        (exists|i: int|
            0 <= i < xs.len() && !(#[trigger] xs[i]).at_most(Double { bits: SCORE_FLOOR_BITS }))
            ==> added == 1 && exists|b: int|
            0 <= b < ws.len() && out == pool.push(#[trigger] ws[b]) && forall|i: int|
                0 <= i < xs.len() ==> (#[trigger] xs[i]).rank() <= xs[b].rank(),
{
    let eps = Double { bits: CANDIDATE_EPS_BITS };
    let floor = Double { bits: SCORE_FLOOR_BITS };
    let good = good_points(s.trials, quota);
    assert(hist =~= tried_points(s.trials));
    let (drawn, scores, open) = choose|
        drawn: Seq<Seq<Double>>,
        scores: Seq<Double>,
        open: Seq<bool>,
    |
        {
            &&& drawn_around(draw, good, bw, drawn)
            &&& #[trigger] judged(within, kde, s.trials, quota, bw, pool, drawn, scores, open)
            &&& joined(within, pool, drawn, scores, open, out, added)
        };
    assert forall|i: int| 0 <= i < ws.len() implies #[trigger] drawn[i] == ws[i] by {
        assert(drawn_one(draw, good[i].vec, bw, drawn[i]));
        let (z, w) = choose|z: &Vec<Double>, w: Vec<Double>|
            z@ == good[i].vec && w@ == drawn[i] && #[trigger] call_ensures(draw, (z, bw), w);
        assert(w@ == ws[i]);
    }
    assert(drawn =~= ws);
    assert forall|i: int| 0 <= i < ws.len() implies #[trigger] scores[i] == xs[i] && open[i]
        == !xs[i].at_most(floor) by {
        assert(judged_one(
            within,
            kde,
            s.trials,
            quota,
            bw,
            pool,
            drawn[i],
            scores[i],
            open[i],
        ));
        crate::feature_sched::vectors::among_or_nowhere(within, hist, ws[i], eps);
        crate::feature_sched::vectors::among_or_nowhere(within, pool, ws[i], eps);
        assert(scored_one(kde, s.trials, quota, bw, ws[i], scores[i]));
    }
    assert(scores =~= xs);
    top_place_is_top(open, xs, ws.len());
    if exists|i: int| 0 <= i < xs.len() && !(#[trigger] xs[i]).at_most(floor) {
        let i = choose|i: int| 0 <= i < xs.len() && !(#[trigger] xs[i]).at_most(floor);
        assert(scores[i] == xs[i]);
        assert(open[i]);
        let b = top_place(open, xs, ws.len())->0;
        assert(open[b]);
        assert(scores[b] == xs[b]);
        crate::feature_sched::vectors::among_or_nowhere(within, pool, ws[b], eps);
        assert(out == pool.push(ws[b]));
        assert forall|k: int| 0 <= k < xs.len() implies (#[trigger] xs[k]).rank() <= xs[b].rank() by {
            assert(scores[k] == xs[k]);
            assert(open[k] == !xs[k].at_most(floor));
        }
    } else {
        assert forall|i: int| 0 <= i < ws.len() implies !#[trigger] open[i] by {
            assert(scores[i] == xs[i]);
        }
    }
}

/// Whatever is drawn, at most one vector joins the pool at its end. It was drawn around a good trial,
/// is new, and scores above the floor. Where the trials are not split nothing joins.
pub proof fn only_promising_draws_join<
    F: Fn(Double, Double, Double) -> bool,
    G: Fn(&Vec<Double>, Double) -> Vec<Double>,
    D: Fn(&Vec<Trial>, &Vec<Double>, Double) -> Double,
    O: Fn(Double, Double) -> Double,
>(
    within: F,
    draw: G,
    kde: Kde<D, O>,
    s: WindowView,
    quota: nat,
    bw: Double,
    hist: Seq<Seq<Double>>,
    pool: Seq<Seq<Double>>,
    out: Seq<Seq<Double>>,
    added: int,
)
    requires
        steady(within),
        generated(within, draw, kde, s, quota, bw, pool, out, added),
        hist.len() == s.trials.len(),
        forall|i: int| 0 <= i < hist.len() ==> #[trigger] hist[i] == s.trials[i].vec,
    ensures
        !splits(s.trials, quota) ==> out == pool,
        added == 0 || added == 1,
        added == 0 ==> out == pool,
        added == 1 ==> out.len() == pool.len() + 1 && out.drop_last() == pool && found_nowhere(
            within,
            hist,
            out.last(),
            Double { bits: CANDIDATE_EPS_BITS },
        ) && found_nowhere(within, pool, out.last(), Double { bits: CANDIDATE_EPS_BITS }) && (exists|x: Double| #[trigger]
            scored_one(kde, s.trials, quota, bw, out.last(), x) && !x.at_most(Double { bits: SCORE_FLOOR_BITS })) && (
        exists|z: &Vec<Double>, w: Vec<Double>|
            tried_points(good_points(s.trials, quota)).contains(z@) && w@ == out.last()
                && #[trigger] call_ensures(draw, (z, bw), w)),
{
    let eps = Double { bits: CANDIDATE_EPS_BITS };
    assert(hist =~= tried_points(s.trials));
    if splits(s.trials, quota) {
        let good = good_points(s.trials, quota);
        let (drawn, scores, open) = choose|
            drawn: Seq<Seq<Double>>,
            scores: Seq<Double>,
            open: Seq<bool>,
        |
            {
                &&& drawn_around(draw, good, bw, drawn)
                &&& #[trigger] judged(within, kde, s.trials, quota, bw, pool, drawn, scores, open)
                &&& joined(within, pool, drawn, scores, open, out, added)
            };
        top_place_is_open(open, scores, drawn.len());
        if added == 1 {
            let b = top_place(open, scores, drawn.len())->0;
            assert(judged_one(
                within,
                kde,
                s.trials,
                quota,
                bw,
                pool,
                drawn[b],
                scores[b],
                open[b],
            ));
            crate::feature_sched::vectors::among_or_nowhere(within, pool, drawn[b], eps);
            assert(out == pool.push(drawn[b]));
            assert(out.drop_last() =~= pool);
            assert(drawn_one(draw, good[b].vec, bw, drawn[b]));
            let (z, w) = choose|z: &Vec<Double>, w: Vec<Double>|
                z@ == good[b].vec && w@ == drawn[b] && #[trigger] call_ensures(draw, (z, bw), w);
            assert(tried_points(good)[b] == z@);
            assert(call_ensures(draw, (z, bw), w));
        }
    }
}

/// After each offer the pool begins with what it was, and what is new in it keeps the rules.
proof fn offers_so_far<
    F: Fn(Double, Double, Double) -> bool,
    G: Fn(&Vec<Double>, Double) -> Vec<Double>,
    D: Fn(&Vec<Trial>, &Vec<Double>, Double) -> Double,
    O: Fn(Double, Double) -> Double,
>(
    within: F,
    draw: G,
    kde: Kde<D, O>,
    ts: Seq<Point>,
    quota: nat,
    bw: Double,
    pool: Seq<Seq<Double>>,
    out: Seq<Seq<Double>>,
    added: int,
    drawn: Seq<Seq<Double>>,
    steps: Seq<Pools>,
    n: nat,
)
    requires
        steady(within),
        offer_steps(within, draw, kde, ts, quota, bw, pool, out, added, drawn, steps),
        n <= drawn.len(),
    ensures
        steps[n as int].seen == steps[n as int].kept,
        pool.len() <= steps[n as int].kept.len() <= pool.len() + n,
        steps[n as int].kept.take(pool.len() as int) == pool,
        forall|j: int|
            pool.len() <= j < steps[n as int].kept.len() ==> promising(
                within,
                draw,
                kde,
                ts,
                quota,
                bw,
                #[trigger] steps[n as int].kept[j],
            ),
        forall|j: int, k: int|
            pool.len() <= j < steps[n as int].kept.len() && 0 <= k < j ==> found_other(
                within,
                #[trigger] steps[n as int].kept[k],
                #[trigger] steps[n as int].kept[j],
                Double { bits: CANDIDATE_EPS_BITS },
            ),
    decreases n,
{
    let eps = Double { bits: CANDIDATE_EPS_BITS };
    let now = steps[n as int];
    if n == 0 {
        assert(pool.take(pool.len() as int) =~= pool);
    } else {
        let m = n - 1;
        let before = steps[m];
        offers_so_far(
            within,
            draw,
            kde,
            ts,
            quota,
            bw,
            pool,
            out,
            added,
            drawn,
            steps,
            m as nat,
        );
        let v = drawn[m];
        assert(offered(within, kde, ts, quota, bw, v, before, now));
        let score = choose|score: Double| #[trigger]
            scored_one(kde, ts, quota, bw, v, score) && offered_at(
                within,
                tried_points(ts),
                v,
                score,
                before,
                now,
            );
        if now != before {
            crate::feature_sched::vectors::among_or_nowhere(within, before.kept, v, eps);
            assert(now.kept == before.kept.push(v));
            assert(now.kept.take(pool.len() as int) =~= before.kept.take(pool.len() as int));
            assert(promising(within, draw, kde, ts, quota, bw, v));
            assert forall|j: int, k: int|
                pool.len() <= j < now.kept.len() && 0 <= k < j implies found_other(
                within,
                #[trigger] now.kept[k],
                #[trigger] now.kept[j],
                eps,
            ) by {
                if j < before.kept.len() {
                    assert(before.kept[j] == now.kept[j] && before.kept[k] == now.kept[k]);
                } else {
                    assert(before.kept[k] == now.kept[k]);
                }
            }
            assert forall|j: int| pool.len() <= j < now.kept.len() implies promising(
                within,
                draw,
                kde,
                ts,
                quota,
                bw,
                #[trigger] now.kept[j],
            ) by {
                if j < before.kept.len() {
                    assert(before.kept[j] == now.kept[j]);
                }
            }
        }
    }
}

/// Was the vector drawn around a good trial, is it new among the tried ones, and does it score above
/// the floor?
pub open spec fn promising<
    F: Fn(Double, Double, Double) -> bool,
    G: Fn(&Vec<Double>, Double) -> Vec<Double>,
    D: Fn(&Vec<Trial>, &Vec<Double>, Double) -> Double,
    O: Fn(Double, Double) -> Double,
>(
    within: F,
    draw: G,
    kde: Kde<D, O>,
    ts: Seq<Point>,
    quota: nat,
    bw: Double,
    v: Seq<Double>,
) -> bool {
    &&& drawn_from(draw, bases(good_points(ts, quota)), bw, v)
    &&& found_nowhere(within, tried_points(ts), v, Double { bits: CANDIDATE_EPS_BITS })
    &&& exists|x: Double| #[trigger]
        scored_one(kde, ts, quota, bw, v, x) && !x.at_most(Double { bits: SCORE_FLOOR_BITS })
}

/// When all draws are offered, the pool keeps what it was, and as many vectors come behind it as are
/// told, no more than are drawn. Each was drawn around a good trial, is new among the tried ones and
/// among all before it, and scores above the floor. Where the trials are not split nothing comes.
pub proof fn all_promising_draws_join<
    F: Fn(Double, Double, Double) -> bool,
    G: Fn(&Vec<Double>, Double) -> Vec<Double>,
    D: Fn(&Vec<Trial>, &Vec<Double>, Double) -> Double,
    O: Fn(Double, Double) -> Double,
>(
    within: F,
    draw: G,
    kde: Kde<D, O>,
    s: WindowView,
    quota: nat,
    bw: Double,
    samples: nat,
    pool: Seq<Seq<Double>>,
    out: Seq<Seq<Double>>,
    added: int,
)
    requires
        steady(within),
        generated_all(within, draw, kde, s, quota, bw, samples, pool, out, added),
    ensures
        !splits(s.trials, quota) ==> out == pool,
        0 <= added <= samples,
        out.len() == pool.len() + added,
        out.take(pool.len() as int) == pool,
        forall|j: int|
            pool.len() <= j < out.len() ==> promising(
                within,
                draw,
                kde,
                s.trials,
                quota,
                bw,
                #[trigger] out[j],
            ),
        forall|j: int, k: int|
            pool.len() <= j < out.len() && 0 <= k < j ==> found_other(
                within,
                #[trigger] out[k],
                #[trigger] out[j],
                Double { bits: CANDIDATE_EPS_BITS },
            ),
{
    if splits(s.trials, quota) {
        let (drawn, steps) = choose|drawn: Seq<Seq<Double>>, steps: Seq<Pools>|
            drawn.len() == samples && #[trigger] offer_steps(
                within,
                draw,
                kde,
                s.trials,
                quota,
                bw,
                pool,
                out,
                added,
                drawn,
                steps,
            );
        offers_so_far(
            within,
            draw,
            kde,
            s.trials,
            quota,
            bw,
            pool,
            out,
            added,
            drawn,
            steps,
            samples,
        );
    } else {
        assert(pool.take(pool.len() as int) =~= pool);
    }
}

/// Around a trial that is as long as the first one, draws are made around its whole vector.
pub proof fn bases_are_the_vectors(set: Seq<Point>, i: int)
    requires
        0 <= i < set.len(),
        set[i].vec.len() == set[0].vec.len(),
    ensures
        bases(set).len() == set.len(),
        bases(set)[i] == set[i].vec,
{
    assert(set[i].vec.take(set[0].vec.len() as int) =~= set[i].vec);
}

/// A search that has settled gives its vector every time, and changes nothing.
pub proof fn settled_searches_repeat<
    F: Fn(Double, Double, Double) -> bool,
    P: Fn(&Vec<Double>) -> Vec<Double>,
    G: Fn(&Vec<Double>, Double) -> Vec<Double>,
    D: Fn(&Vec<Trial>, &Vec<Double>, Double) -> Double,
    O: Fn(Double, Double) -> Double,
>(
    within: F,
    project: P,
    draw: G,
    kde: Kde<D, O>,
    s: WindowView,
    quota: nat,
    bw: Double,
    pool: Seq<Seq<Double>>,
    r: Vec<Double>,
    after: WindowView,
    left: Seq<Seq<Double>>,
)
    requires
        suggested(within, project, draw, kde, s, quota, bw, pool, r, after, left),
        s.lock_best,
        s.best_fixed.len() > 0,
    ensures
        r@ == s.best_fixed,
        after == s,
        left == pool,
{
}

/// The first vector of the pool that is not among the tried ones is suggested, as it is projected. Those
/// before it leave the pool, those behind it stay, at most one joins at the end, and the search does not
/// change.
pub proof fn waiting_vectors_come_first<
    F: Fn(Double, Double, Double) -> bool,
    P: Fn(&Vec<Double>) -> Vec<Double>,
    G: Fn(&Vec<Double>, Double) -> Vec<Double>,
    D: Fn(&Vec<Trial>, &Vec<Double>, Double) -> Double,
    O: Fn(Double, Double) -> Double,
>(
    within: F,
    project: P,
    draw: G,
    kde: Kde<D, O>,
    s: WindowView,
    quota: nat,
    bw: Double,
    hist: Seq<Seq<Double>>,
    before: Seq<Seq<Double>>,
    v: Seq<Double>,
    behind: Seq<Seq<Double>>,
    form: Seq<Double>,
    r: Vec<Double>,
    after: WindowView,
    left: Seq<Seq<Double>>,
)
    requires
        steady(within),
        !s.lock_best || s.best_fixed.len() == 0,
        hist.len() == s.trials.len(),
        forall|i: int| 0 <= i < hist.len() ==> #[trigger] hist[i] == s.trials[i].vec,
        forall|i: int|
            0 <= i < before.len() ==> found_among(
                within,
                hist,
                #[trigger] before[i],
                Double { bits: CANDIDATE_EPS_BITS },
            ),
        found_nowhere(within, hist, v, Double { bits: CANDIDATE_EPS_BITS }),
        forall|z: &Vec<Double>, w: Vec<Double>|
            z@ == v && #[trigger] call_ensures(project, (z,), w) ==> w@ == form,
        suggested(
            within,
            project,
            draw,
            kde,
            s,
            quota,
            bw,
            before + seq![v] + behind,
            r,
            after,
            left,
        ),
    ensures
        r@ == form,
        after == s,
        left == behind || (left.len() == behind.len() + 1 && left.drop_last() == behind),
{
    let pool = before + seq![v] + behind;
    let eps = Double { bits: CANDIDATE_EPS_BITS };
    assert(hist =~= tried_points(s.trials));
    let (mid, n, added) = choose|mid: Seq<Seq<Double>>, n: int, added: int|
        {
            &&& #[trigger] generated(within, draw, kde, s, quota, bw, pool, mid, added)
            &&& #[trigger] passed_over(within, tried_points(s.trials), mid, n)
            &&& left == left_over(mid, n)
            &&& n < mid.len() ==> projected(project, mid[n], r) && after == s
            &&& n == mid.len() ==> after == settled_on(s, r@) && exists|
                best: Option<Seq<Double>>,
            | #[trigger]
                best_found(kde, s.trials, quota, bw, best) && r@ == settled(s, best)
        };
    only_promising_draws_join(within, draw, kde, s, quota, bw, hist, pool, mid, added);
    assert(mid == pool || mid.drop_last() == pool);
    assert forall|i: int| 0 <= i < pool.len() implies #[trigger] mid[i] == pool[i] by {
        if mid != pool {
            assert(mid.drop_last()[i] == pool[i]);
        }
    }
    assert(mid[before.len() as int] == v);
    assert(passed_over(within, tried_points(s.trials), mid, n));
    if n < before.len() {
        assert(mid[n] == before[n]);
        crate::feature_sched::vectors::among_or_nowhere(within, hist, mid[n], eps);
    }
    if n > before.len() {
        assert(found_among(within, hist, mid[before.len() as int], eps));
        crate::feature_sched::vectors::among_or_nowhere(within, hist, v, eps);
    }
    assert(n == before.len());
    if mid == pool {
        assert(left =~= behind);
    } else {
        assert(left.drop_last() =~= behind);
    }
}

/// Where nothing untried is left, the search settles: on the best vector; where there is none, on the
/// last one; and where there is none either, on nine halves. It keeps its trials and the last vector,
/// and the pool is empty.
pub proof fn searches_settle<
    F: Fn(Double, Double, Double) -> bool,
    P: Fn(&Vec<Double>) -> Vec<Double>,
    G: Fn(&Vec<Double>, Double) -> Vec<Double>,
    D: Fn(&Vec<Trial>, &Vec<Double>, Double) -> Double,
    O: Fn(Double, Double) -> Double,
>(
    within: F,
    project: P,
    draw: G,
    kde: Kde<D, O>,
    s: WindowView,
    quota: nat,
    bw: Double,
    hist: Seq<Seq<Double>>,
    pool: Seq<Seq<Double>>,
    best: Option<Seq<Double>>,
    r: Vec<Double>,
    after: WindowView,
    left: Seq<Seq<Double>>,
)
    requires
        steady(within),
        !s.lock_best || s.best_fixed.len() == 0,
        hist.len() == s.trials.len(),
        forall|i: int| 0 <= i < hist.len() ==> #[trigger] hist[i] == s.trials[i].vec,
        forall|i: int|
            0 <= i < pool.len() ==> found_among(
                within,
                hist,
                #[trigger] pool[i],
                Double { bits: CANDIDATE_EPS_BITS },
            ),
        forall|mid: Seq<Seq<Double>>, added: int| #[trigger]
            generated(within, draw, kde, s, quota, bw, pool, mid, added) ==> mid == pool,
        forall|b: Option<Seq<Double>>| #[trigger]
            best_found(kde, s.trials, quota, bw, b) ==> b == best,
        suggested(within, project, draw, kde, s, quota, bw, pool, r, after, left),
    ensures
        best matches Some(v) ==> r@ == v,
        best is None && s.last_vec.len() > 0 ==> r@ == s.last_vec,
        best is None && s.last_vec.len() == 0 ==> r@.len() == 9 && forall|i: int|
            0 <= i < 9 ==> #[trigger] r@[i] == (Double { bits: 0x3FE0_0000_0000_0000 }),
        after.lock_best,
        after.best_fixed == r@,
        after == (WindowView { lock_best: true, best_fixed: r@, ..s }),
        left.len() == 0,
{
    let eps = Double { bits: CANDIDATE_EPS_BITS };
    assert(hist =~= tried_points(s.trials));
    let (mid, n, added) = choose|mid: Seq<Seq<Double>>, n: int, added: int|
        {
            &&& #[trigger] generated(within, draw, kde, s, quota, bw, pool, mid, added)
            &&& #[trigger] passed_over(within, tried_points(s.trials), mid, n)
            &&& left == left_over(mid, n)
            &&& n < mid.len() ==> projected(project, mid[n], r) && after == s
            &&& n == mid.len() ==> after == settled_on(s, r@) && exists|
                best: Option<Seq<Double>>,
            | #[trigger]
                best_found(kde, s.trials, quota, bw, best) && r@ == settled(s, best)
        };
    assert(mid == pool);
    assert(passed_over(within, tried_points(s.trials), mid, n));
    if n < pool.len() {
        crate::feature_sched::vectors::among_or_nowhere(within, hist, pool[n], eps);
    }
}

/// The models that the search speaks of hold what they are models of, in its place.
pub proof fn points_are_modelled(trials: Seq<Trial>, ts: Seq<Point>, i: int)
    ensures
        points(trials).len() == trials.len(),
        0 <= i < trials.len() ==> points(trials)[i] == (Point {
            vec: trials[i].vec@,
            reward: trials[i].reward,
        }),
        tried_points(ts).len() == ts.len(),
        0 <= i < ts.len() ==> tried_points(ts)[i] == ts[i].vec,
{
}

/// By default 0.2 of the trials count as good, 64 vectors are drawn at a time with a bandwidth of 0.15,
/// and a window takes a minute.
pub proof fn default_search(r: TpeParams)
    requires
        call_ensures(TpeParams::default, (), r),
    ensures
        r.gamma == (Double { bits: 0x3FC9_9999_9999_999A }),
        r.samples == 64,
        r.bw == (Double { bits: 0x3FC3_3333_3333_3333 }),
        r.period == 60,
{
}

/// A draw has to score more than one and a millionth.
pub proof fn score_floor_is_fixed()
    ensures
        SCORE_FLOOR_BITS == 0x3FF0_0001_0C6F_7A0B,
        (Double { bits: 0x3FF0_0000_0000_0000 }).below(Double { bits: SCORE_FLOOR_BITS }),
{
}

/// The reward of a window is what the count grew by since it was last noted, and the count is noted.
pub proof fn rewards_are_growth(
    opt: &mut TpeOptimizer,
    cur: usize,
    covered: Option<i64>,
    other: &mut TpeOptimizer,
    grown: Option<i64>,
)
    requires
        call_ensures(TpeOptimizer::take_reward_from_coverage, (opt, cur), covered),
        call_ensures(TpeOptimizer::take_reward_from_corpus, (other, cur), grown),
    ensures
        old(opt).state@.last_cov is None <==> covered is None,
        old(opt).state@.last_cov matches Some(p) ==> covered->0 == cur - p,
        final(opt).state@.last_cov == Some(cur),
        final(opt).state@.trials == old(opt).state@.trials,
        old(other).state@.last_corpus is None <==> grown is None,
        old(other).state@.last_corpus matches Some(p) ==> grown->0 == cur - p,
        final(other).state@.last_corpus == Some(cur),
        final(other).state@.trials == old(other).state@.trials,
{
}

/// Draws are offered to the pool one by one: to offer one more is to offer one, and then the others to
/// the pool that this leaves. To offer none leaves the pool as it is.
pub proof fn draws_are_offered_one_by_one<
    F: Fn(Double, Double, Double) -> bool,
    G: Fn(&Vec<Double>, Double) -> Vec<Double>,
    D: Fn(&Vec<Trial>, &Vec<Double>, Double) -> Double,
    O: Fn(Double, Double) -> Double,
>(
    within: F,
    draw: G,
    kde: Kde<D, O>,
    s: WindowView,
    quota: nat,
    bw: Double,
    samples: nat,
    pool: Seq<Seq<Double>>,
    out: Seq<Seq<Double>>,
    added: int,
)
    requires
        steady(within),
        generated_all(within, draw, kde, s, quota, bw, samples, pool, out, added),
        splits(s.trials, quota),
    ensures
        samples == 0 ==> out == pool && added == 0,
        samples > 0 ==> exists|mid: Seq<Seq<Double>>, first: int| #[trigger]
            generated_all(within, draw, kde, s, quota, bw, 1, pool, mid, first) && generated_all(
                within,
                draw,
                kde,
                s,
                quota,
                bw,
                (samples - 1) as nat,
                mid,
                out,
                added - first,
            ),
{
    let ts = s.trials;
    let (drawn, steps) = choose|drawn: Seq<Seq<Double>>, steps: Seq<Pools>|
        drawn.len() == samples && #[trigger] offer_steps(
            within,
            draw,
            kde,
            ts,
            quota,
            bw,
            pool,
            out,
            added,
            drawn,
            steps,
        );
    if samples > 0 {
        offers_so_far(within, draw, kde, ts, quota, bw, pool, out, added, drawn, steps, 1);
        let mid = steps[1].kept;
        let first = mid.len() - pool.len();
        let one = seq![drawn[0]];
        let begun = seq![steps[0], steps[1]];
        assert(drawn_from(draw, bases(good_points(ts, quota)), bw, drawn[0]));
        assert(offered(within, kde, ts, quota, bw, drawn[0], steps[0], steps[1]));
        assert forall|i: int| #![trigger one[i]] 0 <= i < 1 implies drawn_from(
            draw,
            bases(good_points(ts, quota)),
            bw,
            one[i],
        ) && offered(within, kde, ts, quota, bw, one[i], begun[i], begun[i + 1]) by {
            assert(i == 0);
        }
        assert(offer_steps(within, draw, kde, ts, quota, bw, pool, mid, first, one, begun));
        assert(generated_all(within, draw, kde, s, quota, bw, 1, pool, mid, first));
        let rest = drawn.skip(1);
        let later = steps.skip(1);
        assert forall|i: int| #![trigger rest[i]] 0 <= i < rest.len() implies drawn_from(
            draw,
            bases(good_points(ts, quota)),
            bw,
            rest[i],
        ) && offered(within, kde, ts, quota, bw, rest[i], later[i], later[i + 1]) by {
            assert(rest[i] == drawn[i + 1]);
        }
        assert(later[0] == (Pools { seen: mid, kept: mid }));
        assert(offer_steps(
            within,
            draw,
            kde,
            ts,
            quota,
            bw,
            mid,
            out,
            added - first,
            rest,
            later,
        ));
        assert(generated_all(
            within,
            draw,
            kde,
            s,
            quota,
            bw,
            (samples - 1) as nat,
            mid,
            out,
            added - first,
        ));
    }
}

/// The number of good trials is the share of all trials that the parameters name.
pub proof fn quota_is_a_share_of_the_trials<Q: Fn(usize, Double) -> usize>(
    opt: TpeOptimizer,
    share: Q,
    expected: usize,
    r: usize,
)
    requires
        call_ensures(TpeOptimizer::good_quota::<Q>, (&opt, &share), r),
        forall|n: usize, x: usize|
            n == opt.state@.trials.len() && #[trigger] call_ensures(share, (n, opt.params.gamma), x)
                ==> x == expected,
    ensures
        r == expected,
{
}

} // verus!
