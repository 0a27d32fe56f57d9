//! The search for good weight vectors: a history of trials, a pool of vectors that wait, and the
//! choice of what to try next.

use vstd::prelude::*;

use libafl_bolts::rands::StdRand;

use super::metadata::{
    copy_numbers, initial_history, kept_trials, rows, GlobalsView, HistoryView, TpeHistoryMeta,
};
use super::sums::{positive_ones, positives, sum_up, summable, summed};
use super::vectors::{
    any_same, askable, found_among, found_nowhere, found_other, found_same, steady, vecn_eq,
    CANDIDATE_EPS_BITS, TRIAL_EPS_BITS,
};
use super::weights::{even_weights, evened};
use super::{get_v_candidates, push_v_candidate, replace_v_candidates, SchedulerState, StateView};
use crate::clock::now_epoch_ms;
use crate::double::Double;
use crate::rng::draw_below;
use crate::text::{decimal, decimal_text, join, join_text, texts};

verus! {

/// The number of trials that are remembered.
pub const MAX_TRIALS: usize = 1024;

/// The bit pattern of 0.15.
pub const GAMMA_BITS: u64 = 0x3FC3_3333_3333_3333;

/// The bit pattern of 0.05.
pub const BANDWIDTH_BITS: u64 = 0x3FA9_9999_9999_999A;

/// How the search is conducted.
#[derive(Clone, Copy, PartialEq, Eq, Structural, Debug)]
pub struct TpeParams {
    /// The share of the rewarded trials that counts as good.
    pub gamma: Double,
    /// How many vectors are drawn at a time.
    pub samples: usize,
    /// The bandwidth of the density estimates.
    pub bw: Double,
    /// The length of a round in seconds.
    pub period: u64,
    /// How many rewarded trials the search needs before it draws from them.
    pub trials_threshold: usize,
    /// After how many seconds a settled search starts anew.
    pub re_tpe_threshold: u64,
}

impl Default for TpeParams {
    fn default() -> (r: Self)
        ensures
            r == (TpeParams {
                gamma: Double { bits: GAMMA_BITS },
                samples: 16,
                bw: Double { bits: BANDWIDTH_BITS },
                period: 600,
                trials_threshold: 5,
                re_tpe_threshold: 3600,
            }),
    {
        TpeParams {
            gamma: Double { bits: GAMMA_BITS },
            samples: 16,
            bw: Double { bits: BANDWIDTH_BITS },
            period: 600,
            trials_threshold: 5,
            re_tpe_threshold: 3600,
        }
    }
}

/// One trial: a vector, how long it was in use, and what it earned.
#[derive(Debug)]
pub struct TpeTrial {
    pub iteration: u64,
    pub vector: Vec<Double>,
    pub reward: Double,
    pub active_start_ms: u64,
    pub active_end_ms: u64,
}

/// The model of a [`TpeTrial`].
pub ghost struct TrialView {
    pub iteration: u64,
    pub vector: Seq<Double>,
    pub reward: Double,
    pub active_start_ms: u64,
    pub active_end_ms: u64,
}

impl View for TpeTrial {
    type V = TrialView;

    open spec fn view(&self) -> TrialView {
        TrialView {
            iteration: self.iteration,
            vector: self.vector@,
            reward: self.reward,
            active_start_ms: self.active_start_ms,
            active_end_ms: self.active_end_ms,
        }
    }
}

/// The models of a list of trials.
pub open spec fn trial_views(v: Seq<TpeTrial>) -> Seq<TrialView> {
    v.map_values(|t: TpeTrial| t@)
}

/// What the search remembers.
#[derive(Debug)]
pub struct TpeState {
    pub trials: Vec<TpeTrial>,
    pub last_vec: Vec<Double>,
    pub lock_best: bool,
    pub best_fixed: Vec<Double>,
    pub restored_once: bool,
}

/// The model of a [`TpeState`].
pub ghost struct SearchView {
    pub trials: Seq<TrialView>,
    pub last_vec: Seq<Double>,
    pub lock_best: bool,
    pub best_fixed: Seq<Double>,
    pub restored_once: bool,
}

impl View for TpeState {
    type V = SearchView;

    open spec fn view(&self) -> SearchView {
        SearchView {
            trials: trial_views(self.trials@),
            last_vec: self.last_vec@,
            lock_best: self.lock_best,
            best_fixed: self.best_fixed@,
            restored_once: self.restored_once,
        }
    }
}

/// The search.
pub struct TpeOptimizer {
    pub params: TpeParams,
    pub state: TpeState,
}

/// The rewards can be compared: there are not two of them, or none is NaN.
pub open spec fn comparable(trials: Seq<TrialView>) -> bool {
    trials.len() <= 1 || forall|i: int| 0 <= i < trials.len() ==> !(#[trigger] trials[i]).reward.nan()
}

/// The place of the trial with the greatest reward, the last of them where several have it.
pub open spec fn best_place(trials: Seq<TrialView>) -> int
    decreases trials.len(),
{
    if trials.len() <= 1 {
        0
    } else {
        let b = best_place(trials.drop_last());
        if trials.last().reward.below(trials[b].reward) {
            b
        } else {
            trials.len() - 1
        }
    }
}

/// No trial earned more than the best one, and every later one earned less.
pub proof fn best_place_is_best(trials: Seq<TrialView>)
    requires
        trials.len() > 0,
        comparable(trials),
    ensures
        0 <= best_place(trials) < trials.len(),
        forall|i: int|
            0 <= i < trials.len() ==> (#[trigger] trials[i]).reward.rank() <= trials[best_place(
                trials,
            )].reward.rank(),
        forall|i: int|
            best_place(trials) < i < trials.len() ==> (#[trigger] trials[i]).reward.rank()
                < trials[best_place(trials)].reward.rank(),
    decreases trials.len(),
{
    if trials.len() > 1 {
        let front = trials.drop_last();
        assert(comparable(front)) by {
            assert forall|i: int| 0 <= i < front.len() implies !(
            #[trigger] front[i]).reward.nan() by {
                assert(front[i] == trials[i]);
            }
        }
        best_place_is_best(front);
        let b = best_place(front);
        assert(front[b] == trials[b]);
        assert(!trials[trials.len() - 1].reward.nan());
        assert(!trials[b].reward.nan());
        assert forall|i: int| 0 <= i < front.len() implies (#[trigger] trials[i]).reward.rank()
            <= trials[b].reward.rank() by {
            assert(front[i] == trials[i]);
        }
        assert forall|i: int| b < i < front.len() implies (#[trigger] trials[i]).reward.rank()
            < trials[b].reward.rank() by {
            assert(front[i] == trials[i]);
        }
    }
}

/// The vector of the best trial.
pub open spec fn best_vector(trials: Seq<TrialView>) -> Option<Seq<Double>> {
    if trials.len() == 0 {
        None
    } else {
        Some(trials[best_place(trials)].vector)
    }
}

/// The search once it is locked on the best vector it knows: that of the best trial, or else the
/// last one in use.
pub open spec fn locked(s: SearchView) -> SearchView {
    SearchView {
        best_fixed: match best_vector(s.trials) {
            Some(v) => v,
            None => if s.last_vec.len() > 0 {
                s.last_vec
            } else {
                s.best_fixed
            },
        },
        lock_best: true,
        ..s
    }
}

/// The last `n` of a list.
pub open spec fn last_of<T>(s: Seq<T>, n: nat) -> Seq<T> {
    if s.len() > n {
        s.skip(s.len() - n)
    } else {
        s
    }
}

/// The history with one more trial; the oldest ones go where there are too many.
pub open spec fn with_trial(s: SearchView, t: TrialView) -> SearchView {
    SearchView { trials: last_of(s.trials.push(t), MAX_TRIALS as nat), ..s }
}

/// Recording a trial keeps it, as the last one, and never remembers too many.
pub proof fn recording_is_bounded(s: SearchView, t: TrialView)
    ensures
        with_trial(s, t).trials.len() > 0,
        with_trial(s, t).trials.last() == t,
        s.trials.len() <= MAX_TRIALS ==> with_trial(s, t).trials.len() <= MAX_TRIALS,
        s.trials.len() < MAX_TRIALS ==> with_trial(s, t).trials == s.trials.push(t),
{
}

/// The history once the last trial has earned more: the greater reward counts.
pub open spec fn with_better_reward(s: SearchView, reward: Double, end_ms: u64) -> SearchView {
    let last = s.trials.last();
    if last.reward.below(reward) {
        SearchView {
            trials: s.trials.drop_last().push(
                TrialView { reward: reward, active_end_ms: end_ms, ..last },
            ),
            ..s
        }
    } else {
        s
    }
}

/// Can `normalize` be asked about any vector?
pub open spec fn normalizing<N: Fn(&Vec<Double>) -> Option<Vec<Double>>>(normalize: N) -> bool {
    forall|z: &Vec<Double>| #[trigger] call_requires(normalize, (z,))
}

/// A vector, if there is one.
pub open spec fn form_of(o: Option<Vec<Double>>) -> Option<Seq<Double>> {
    match o {
        Some(v) => Some(v@),
        None => None,
    }
}

/// `form` is the normalized form that `normalize` gave for the vector, `None` where it gave none.
pub open spec fn formed<N: Fn(&Vec<Double>) -> Option<Vec<Double>>>(
    normalize: N,
    v: Seq<Double>,
    form: Option<Seq<Double>>,
) -> bool {
    exists|z: &Vec<Double>, o: Option<Vec<Double>>|
        z@ == v && form == form_of(o) && #[trigger] call_ensures(normalize, (z,), o)
}

/// `forms` are the normalized forms that `normalize` gave for the vectors.
pub open spec fn formed_all<N: Fn(&Vec<Double>) -> Option<Vec<Double>>>(
    normalize: N,
    vs: Seq<Seq<Double>>,
    forms: Seq<Option<Seq<Double>>>,
) -> bool {
    forms.len() == vs.len() && forall|i: int|
        0 <= i < vs.len() ==> formed(normalize, vs[i], #[trigger] forms[i])
}

/// The normalized form of a vector.
fn form<N: Fn(&Vec<Double>) -> Option<Vec<Double>>>(v: &Vec<Double>, normalize: &N) -> (r: Option<
    Vec<Double>,
>)
    requires
        normalizing(*normalize),
    ensures
        formed(*normalize, v@, form_of(r)),
{
    assert(call_requires(*normalize, (v,)));
    let r: Option<Vec<Double>> = normalize(v);
    assert(call_ensures(*normalize, (v,), r));
    r
}

impl TpeOptimizer {
    /// A search without a history.
    pub fn new(params: TpeParams) -> (r: Self)
        ensures
            r.params == params,
            r.state@ == (SearchView {
                trials: Seq::empty(),
                last_vec: Seq::empty(),
                lock_best: false,
                best_fixed: Seq::empty(),
                restored_once: false,
            }),
    {
        let r = TpeOptimizer {
            params,
            state: TpeState {
                trials: Vec::new(),
                last_vec: Vec::new(),
                lock_best: false,
                best_fixed: Vec::new(),
                restored_once: false,
            },
        };
        assert(r.state@.trials =~= Seq::<TrialView>::empty());
        r
    }

    /// Sets the vector in use: its normalized form, or `v` itself where it has none.
    pub fn set_last_vec<N: Fn(&Vec<Double>) -> Option<Vec<Double>>>(
        &mut self,
        v: &Vec<Double>,
        normalize: &N,
    )
        requires
            normalizing(*normalize),
        ensures
            final(self).params == old(self).params,
            exists|form: Option<Seq<Double>>| #[trigger]
                formed(*normalize, v@, form) && final(self).state@ == (SearchView {
                    last_vec: match form {
                        Some(n) => n,
                        None => v@,
                    },
                    ..old(self).state@
                }),
    {
        let f: Option<Vec<Double>> = form(v, normalize);
        let ghost shape = form_of(f);
        self.state.last_vec = match f {
            Some(n) => n,
            None => copy_numbers(v),
        };
        assert(formed(*normalize, v@, shape));
    }

    /// The vector in use.
    pub fn last_vec(&self) -> (r: Vec<Double>)
        ensures
            r@ == self.state@.last_vec,
    {
        copy_numbers(&self.state.last_vec)
    }

    /// Has the search settled?
    pub fn is_locked(&self) -> (r: bool)
        ensures
            r == self.state@.lock_best,
    {
        self.state.lock_best
    }

    /// Lets a settled search go on.
    pub fn unlock(&mut self)
        ensures
            final(self).params == old(self).params,
            final(self).state@ == (SearchView { lock_best: false, ..old(self).state@ }),
    {
        self.state.lock_best = false;
    }

    /// The place of the best trial.
    fn best_trial(&self) -> (r: Option<usize>)
        requires
            comparable(self.state@.trials),
        ensures
            match r {
                Some(b) => self.state@.trials.len() > 0 && b == best_place(self.state@.trials) && b
                    < self.state@.trials.len(),
                None => self.state@.trials.len() == 0,
            },
    {
        let ghost ts = self.state@.trials;
        let n: usize = self.state.trials.len();
        if n == 0 {
            return None;
        }
        let mut b: usize = 0;
        let mut i: usize = 1;
        assert(ts.take(1).len() == 1);
        while i < n
            invariant
                1 <= i <= n,
                b < i,
                n == self.state.trials@.len(),
                ts == self.state@.trials,
                b == best_place(ts.take(i as int)),
            decreases n - i,
        {
            assert(ts[i as int] == self.state.trials@[i as int]@);
            assert(ts[b as int] == self.state.trials@[b as int]@);
            assert(ts.take(i + 1).drop_last() =~= ts.take(i as int));
            assert(ts.take(i + 1).last() == ts[i as int]);
            assert(ts.take(i + 1)[b as int] == ts[b as int]);
            if !self.state.trials[i].reward.lt(self.state.trials[b].reward) {
                b = i;
            }
            i = i + 1;
        }
        assert(ts.take(n as int) =~= ts);
        Some(b)
    }

    /// The vector of the trial that earned most; the last of them where several did.
    pub fn best_by_reward(&self) -> (r: Option<Vec<Double>>)
        requires
            comparable(self.state@.trials),
        ensures
            match r {
                Some(v) => best_vector(self.state@.trials) == Some(v@),
                None => best_vector(self.state@.trials) is None,
            },
    {
        match self.best_trial() {
            Some(b) => {
                assert(self.state@.trials[b as int] == self.state.trials@[b as int]@);
                Some(copy_numbers(&self.state.trials[b].vector))
            },
            None => None,
        }
    }

    /// Settles the search on the best vector it knows.
    pub fn lock_best(&mut self)
        requires
            comparable(old(self).state@.trials),
        ensures
            final(self).params == old(self).params,
            final(self).state@ == locked(old(self).state@),
    {
        match self.best_by_reward() {
            Some(best) => {
                self.state.best_fixed = best;
            },
            None => {
                if self.state.last_vec.len() > 0 {
                    self.state.best_fixed = copy_numbers(&self.state.last_vec);
                }
            },
        }
        self.state.lock_best = true;
    }

    /// The best vector: the one settled on, or else that of the best trial.
    pub open spec fn best(s: SearchView) -> Option<Seq<Double>> {
        if s.best_fixed.len() > 0 {
            Some(s.best_fixed)
        } else {
            best_vector(s.trials)
        }
    }

    /// The best vector: the one settled on, or else that of the best trial.
    pub fn best_vec(&self) -> (r: Option<Vec<Double>>)
        requires
            self.state@.best_fixed.len() > 0 || comparable(self.state@.trials),
        ensures
            match r {
                Some(v) => Self::best(self.state@) == Some(v@),
                None => Self::best(self.state@) is None,
            },
    {
        if self.state.best_fixed.len() > 0 {
            Some(copy_numbers(&self.state.best_fixed))
        } else {
            self.best_by_reward()
        }
    }

    /// Does the trial repeat the last one, by its number or by its vector?
    pub open spec fn repeats_last<F: Fn(Double, Double, Double) -> bool>(
        s: SearchView,
        iteration: u64,
        v: Seq<Double>,
        within: F,
    ) -> bool {
        s.trials.len() > 0 && (s.trials.last().iteration == iteration || found_same(
            within,
            s.trials.last().vector,
            v,
            Double { bits: TRIAL_EPS_BITS },
        ))
    }

    /// Is the trial another one than the last, by its number and by its vector?
    pub open spec fn starts_anew<F: Fn(Double, Double, Double) -> bool>(
        s: SearchView,
        iteration: u64,
        v: Seq<Double>,
        within: F,
    ) -> bool {
        s.trials.len() > 0 ==> s.trials.last().iteration != iteration && found_other(
            within,
            s.trials.last().vector,
            v,
            Double { bits: TRIAL_EPS_BITS },
        )
    }

    /// Records what a vector earned.
    ///
    /// The vector is recorded in its normalized form; one that has none is not recorded. A trial
    /// that repeats the last one only raises its reward.
    pub fn observe_trial<
        F: Fn(Double, Double, Double) -> bool,
        N: Fn(&Vec<Double>) -> Option<Vec<Double>>,
    >(
        &mut self,
        iteration: u64,
        vector: &Vec<Double>,
        reward: Double,
        active_start_ms: u64,
        active_end_ms: u64,
        within: &F,
        normalize: &N,
    )
        requires
            askable(*within),
            normalizing(*normalize),
        ensures
            final(self).params == old(self).params,
            exists|form: Option<Seq<Double>>| #[trigger]
                formed(*normalize, vector@, form) && match form {
                    None => final(self).state@ == old(self).state@,
                    Some(v) => Self::recorded(
                        old(self).state@,
                        TrialView { iteration, vector: v, reward, active_start_ms, active_end_ms },
                        *within,
                        final(self).state@,
                    ),
                },
    {
        match form(vector, normalize) {
            Some(v) => {
                self.record(
                    TpeTrial { iteration, vector: v, reward, active_start_ms, active_end_ms },
                    within,
                );
            },
            None => {},
        }
    }

    /// What becomes of the history with one more trial: a trial that repeats the last one only
    /// raises its reward, another one is added.
    pub open spec fn recorded<F: Fn(Double, Double, Double) -> bool>(
        s: SearchView,
        t: TrialView,
        within: F,
        after: SearchView,
    ) -> bool {
        ||| Self::repeats_last(s, t.iteration, t.vector, within) && after == with_better_reward(
            s,
            t.reward,
            t.active_end_ms,
        )
        ||| Self::starts_anew(s, t.iteration, t.vector, within) && after == with_trial(s, t)
    }

    /// Records a trial whose vector is in normalized form.
    fn record<F: Fn(Double, Double, Double) -> bool>(&mut self, t: TpeTrial, within: &F)
        requires
            askable(*within),
        ensures
            final(self).params == old(self).params,
            Self::recorded(old(self).state@, t@, *within, final(self).state@),
    {
        let ghost before = self.state@;
        let n: usize = self.state.trials.len();
        if n > 0 {
            let repeated: bool = {
                let last: &TpeTrial = &self.state.trials[n - 1];
                assert(before.trials.last() == last@);
                last.iteration == t.iteration || vecn_eq(
                    &last.vector,
                    &t.vector,
                    Double { bits: TRIAL_EPS_BITS },
                    within,
                )
            };
            if repeated {
                if self.state.trials[n - 1].reward.lt(t.reward) {
                    match self.state.trials.pop() {
                        Some(last) => {
                            self.state.trials.push(
                                TpeTrial {
                                    iteration: last.iteration,
                                    vector: last.vector,
                                    reward: t.reward,
                                    active_start_ms: last.active_start_ms,
                                    active_end_ms: t.active_end_ms,
                                },
                            );
                            assert(trial_views(self.state.trials@)
                                =~= before.trials.drop_last().push(
                                TrialView {
                                    reward: t.reward,
                                    active_end_ms: t.active_end_ms,
                                    ..before.trials.last()
                                },
                            ));
                        },
                        None => {},
                    }
                }
                return ;
            }
        }
        let ghost tv = t@;
        self.state.trials.push(t);
        assert(trial_views(self.state.trials@) =~= before.trials.push(tv));
        if self.state.trials.len() > MAX_TRIALS {
            let drop_n: usize = self.state.trials.len() - MAX_TRIALS;
            let kept: Vec<TpeTrial> = self.state.trials.split_off(drop_n);
            assert(trial_views(kept@) =~= before.trials.push(tv).skip(drop_n as int));
            self.state.trials = kept;
        }
    }
}

/// The trials that a kept history gives back. A vector without a normalized form is passed over;
/// the others are numbered by their places in the history.
pub open spec fn restored_trials(
    kept: Seq<(Seq<Double>, Double, u64)>,
    normalized: Seq<Option<Seq<Double>>>,
) -> Seq<TrialView>
    decreases kept.len(),
{
    if kept.len() == 0 {
        Seq::empty()
    } else {
        let before = restored_trials(kept.drop_last(), normalized);
        match normalized[kept.len() - 1] {
            Some(v) => before.push(
                TrialView {
                    iteration: (kept.len() - 1) as u64,
                    vector: v,
                    reward: kept.last().1,
                    active_start_ms: kept.last().2,
                    active_end_ms: kept.last().2,
                },
            ),
            None => before,
        }
    }
}

/// Only the forms of the kept trials matter.
proof fn restored_by_first(
    kept: Seq<(Seq<Double>, Double, u64)>,
    a: Seq<Option<Seq<Double>>>,
    b: Seq<Option<Seq<Double>>>,
)
    requires
        kept.len() <= a.len(),
        kept.len() <= b.len(),
        forall|i: int| 0 <= i < kept.len() ==> a[i] == b[i],
    ensures
        restored_trials(kept, a) == restored_trials(kept, b),
    decreases kept.len(),
{
    if kept.len() > 0 {
        restored_by_first(kept.drop_last(), a, b);
    }
}

/// The vectors of the kept trials.
pub open spec fn kept_vectors(kept: Seq<(Seq<Double>, Double, u64)>) -> Seq<Seq<Double>> {
    kept.map_values(|t: (Seq<Double>, Double, u64)| t.0)
}

/// The trials as they are kept across restarts.
pub open spec fn keep_trials(trials: Seq<TrialView>) -> Seq<(Seq<Double>, Double, u64)> {
    trials.map_values(|t: TrialView| (t.vector, t.reward, t.active_end_ms))
}

/// What survives a restart: of vectors that are in normalized form already, each trial comes back
/// with its vector, its reward and the end of its time.
pub proof fn restart_keeps_trials(trials: Seq<TrialView>)
    ensures
        ({
            let back = restored_trials(
                keep_trials(trials),
                trials.map_values(|t: TrialView| Some(t.vector)),
            );
            &&& back.len() == trials.len()
            &&& forall|i: int|
                0 <= i < trials.len() ==> (#[trigger] back[i]).vector == trials[i].vector
                    && back[i].reward == trials[i].reward && back[i].active_end_ms
                    == trials[i].active_end_ms && back[i].iteration == i as u64
        }),
{
    restart_keeps_first(trials, trials.len());
    assert(keep_trials(trials).take(trials.len() as int) =~= keep_trials(trials));
}

/// What survives a restart, of the first `n` trials.
proof fn restart_keeps_first(trials: Seq<TrialView>, n: nat)
    requires
        n <= trials.len(),
    ensures
        ({
            let back = restored_trials(
                keep_trials(trials).take(n as int),
                trials.map_values(|t: TrialView| Some(t.vector)),
            );
            &&& back.len() == n
            &&& forall|i: int|
                0 <= i < n ==> (#[trigger] back[i]).vector == trials[i].vector && back[i].reward
                    == trials[i].reward && back[i].active_end_ms == trials[i].active_end_ms
                    && back[i].iteration == i as u64
        }),
    decreases n,
{
    if n > 0 {
        restart_keeps_first(trials, (n - 1) as nat);
        let kept = keep_trials(trials).take(n as int);
        assert(kept.drop_last() =~= keep_trials(trials).take(n - 1));
        assert(kept.last() == keep_trials(trials)[n - 1]);
    }
}

/// The vectors of the trials.
pub open spec fn tried(trials: Seq<TrialView>) -> Seq<Seq<Double>> {
    trials.map_values(|t: TrialView| t.vector)
}

/// The first `n` of the waiting vectors were each found among the tried ones, and the next one,
/// if there is one, was found nowhere among them.
pub open spec fn passed_over<F: Fn(Double, Double, Double) -> bool>(
    within: F,
    hist: Seq<Seq<Double>>,
    pool: Seq<Seq<Double>>,
    n: int,
) -> bool {
    let eps = Double { bits: CANDIDATE_EPS_BITS };
    &&& 0 <= n <= pool.len()
    &&& forall|i: int| 0 <= i < n ==> found_among(within, hist, #[trigger] pool[i], eps)
    &&& n < pool.len() ==> found_nowhere(within, hist, pool[n], eps)
}

/// The vectors that wait once `n` have been passed over and the next one has been taken.
pub open spec fn left_over(pool: Seq<Seq<Double>>, n: int) -> Seq<Seq<Double>> {
    if n < pool.len() {
        pool.skip(n + 1)
    } else {
        Seq::empty()
    }
}

/// What is taken of a pool whose first `n` vectors are passed over: the normalized form of the
/// next one, if there is one and it has one.
pub open spec fn taken_form<N: Fn(&Vec<Double>) -> Option<Vec<Double>>>(
    normalize: N,
    pool: Seq<Seq<Double>>,
    n: int,
    form: Option<Seq<Double>>,
) -> bool {
    if n < pool.len() {
        formed(normalize, pool[n], form)
    } else {
        form is None
    }
}

/// The state with other vectors waiting.
pub open spec fn with_pool(s: StateView, pool: Seq<Seq<Double>>) -> StateView {
    StateView { globals: GlobalsView { v_candidates: pool, ..s.globals }, ..s }
}

/// Did the trial earn anything?
pub open spec fn rewarded(t: TrialView) -> bool {
    (Double { bits: 0 }).below(t.reward)
}

/// Among the rewarded trials, does the one at `j` come before the one at `i`? More reward comes
/// first; of equal rewards, the earlier trial.
pub open spec fn outranks(ts: Seq<TrialView>, j: int, i: int) -> bool {
    rewarded(ts[j]) && (ts[i].reward.rank() < ts[j].reward.rank() || (ts[i].reward.rank()
        == ts[j].reward.rank() && j < i))
}

/// How many of the first `n` trials come before the one at `i`.
pub open spec fn outranking(ts: Seq<TrialView>, i: int, n: nat) -> nat
    decreases n,
{
    if n == 0 {
        0
    } else {
        outranking(ts, i, (n - 1) as nat) + if outranks(ts, n - 1, i) {
            1nat
        } else {
            0nat
        }
    }
}

/// How many of the first `n` trials earned anything.
pub open spec fn rewarded_count(ts: Seq<TrialView>, n: nat) -> nat
    decreases n,
{
    if n == 0 {
        0
    } else {
        rewarded_count(ts, (n - 1) as nat) + if rewarded(ts[n - 1]) {
            1nat
        } else {
            0nat
        }
    }
}

/// Is the trial at `i` one of the `k` that earned most?
pub open spec fn leads(ts: Seq<TrialView>, i: int, k: nat) -> bool {
    rewarded(ts[i]) && outranking(ts, i, ts.len()) < k
}

/// Is this the number of one of the `k` trials that earned most?
pub open spec fn leading_number(ts: Seq<TrialView>, iteration: u64, k: nat) -> bool {
    exists|i: int| 0 <= i < ts.len() && #[trigger] leads(ts, i, k) && ts[i].iteration == iteration
}

/// Is the trial at `i` good: rewarded, and with the number of one of the `k` that earned most?
pub open spec fn good_trial(ts: Seq<TrialView>, i: int, k: nat) -> bool {
    rewarded(ts[i]) && leading_number(ts, ts[i].iteration, k)
}

/// The vectors of the good ones, or of the others, among the first `n` trials.
pub open spec fn vectors_where(ts: Seq<TrialView>, k: nat, good: bool, n: nat) -> Seq<Seq<Double>>
    decreases n,
{
    if n == 0 {
        Seq::empty()
    } else {
        let before = vectors_where(ts, k, good, (n - 1) as nat);
        if good_trial(ts, n - 1, k) == good {
            before.push(ts[n - 1].vector)
        } else {
            before
        }
    }
}

/// `quota` forced into `[1, most]`.
pub open spec fn quota_within(quota: nat, most: nat) -> nat {
    if quota < 1 {
        1
    } else if quota > most {
        most
    } else {
        quota
    }
}

/// The history split in good vectors and others. There is a split once enough trials were
/// rewarded, and only if neither side is empty.
pub open spec fn split_of(ts: Seq<TrialView>, threshold: nat, quota: nat) -> Option<
    (Seq<Seq<Double>>, Seq<Seq<Double>>),
> {
    let positive = rewarded_count(ts, ts.len());
    let k = quota_within(quota, positive);
    let good = vectors_where(ts, k, true, ts.len());
    let bad = vectors_where(ts, k, false, ts.len());
    if positive < threshold || good.len() == 0 || bad.len() == 0 {
        None
    } else {
        Some((good, bad))
    }
}

/// A split loses no trial: each vector stands on exactly one side.
pub proof fn split_is_complete(ts: Seq<TrialView>, k: nat, n: nat)
    requires
        n <= ts.len(),
    ensures
        vectors_where(ts, k, true, n).len() + vectors_where(ts, k, false, n).len() == n,
    decreases n,
{
    if n > 0 {
        split_is_complete(ts, k, (n - 1) as nat);
    }
}

/// Of the rewarded trials one comes before all the others.
proof fn first_leads(ts: Seq<TrialView>, n: nat) -> (b: int)
    requires
        n <= ts.len(),
        rewarded_count(ts, n) > 0,
    ensures
        0 <= b < n,
        rewarded(ts[b]),
        outranking(ts, b, n) == 0,
        forall|i: int| 0 <= i < n && rewarded(#[trigger] ts[i]) ==> i == b || outranks(ts, b, i),
    decreases n,
{
    let m = (n - 1) as nat;
    if rewarded_count(ts, m) > 0 {
        let a = first_leads(ts, m);
        if rewarded(ts[n - 1]) && outranks(ts, n - 1, a) {
            none_outranks(ts, n - 1, a, m);
            n - 1
        } else {
            a
        }
    } else {
        none_rewarded(ts, m);
        none_counted(ts, n - 1, m);
        n - 1
    }
}

/// Without rewarded trials none comes before another.
proof fn none_counted(ts: Seq<TrialView>, i: int, n: nat)
    requires
        n <= ts.len(),
        forall|j: int| 0 <= j < n ==> !rewarded(#[trigger] ts[j]),
    ensures
        outranking(ts, i, n) == 0,
    decreases n,
{
    if n > 0 {
        none_counted(ts, i, (n - 1) as nat);
    }
}

/// A count of zero means that no trial was rewarded.
proof fn none_rewarded(ts: Seq<TrialView>, n: nat)
    requires
        n <= ts.len(),
        rewarded_count(ts, n) == 0,
    ensures
        forall|j: int| 0 <= j < n ==> !rewarded(#[trigger] ts[j]),
    decreases n,
{
    if n > 0 {
        none_rewarded(ts, (n - 1) as nat);
    }
}

/// What outranks the leader is outranked by none.
proof fn none_outranks(ts: Seq<TrialView>, i: int, a: int, n: nat)
    requires
        n <= ts.len(),
        0 <= a < n,
        n <= i < ts.len(),
        rewarded(ts[i]),
        rewarded(ts[a]),
        outranks(ts, i, a),
        forall|j: int| 0 <= j < n && rewarded(#[trigger] ts[j]) ==> j == a || outranks(ts, a, j),
    ensures
        outranking(ts, i, n) == 0,
        forall|j: int| 0 <= j < n && rewarded(#[trigger] ts[j]) ==> outranks(ts, i, j),
{
    assert forall|j: int| 0 <= j < n implies !outranks(ts, j, i) by {
        if rewarded(ts[j]) {
            assert(j == a || outranks(ts, a, j));
        }
    }
    zero_outranking(ts, i, n);
}

/// A count of none.
proof fn zero_outranking(ts: Seq<TrialView>, i: int, n: nat)
    requires
        forall|j: int| 0 <= j < n ==> !#[trigger] outranks(ts, j, i),
    ensures
        outranking(ts, i, n) == 0,
    decreases n,
{
    if n > 0 {
        zero_outranking(ts, i, (n - 1) as nat);
    }
}

/// As soon as one trial was rewarded, there is a good one: the side of the good vectors is never
/// empty.
pub proof fn some_trial_is_good(ts: Seq<TrialView>, quota: nat)
    requires
        rewarded_count(ts, ts.len()) > 0,
    ensures
        vectors_where(
            ts,
            quota_within(quota, rewarded_count(ts, ts.len())),
            true,
            ts.len(),
        ).len() > 0,
{
    let k = quota_within(quota, rewarded_count(ts, ts.len()));
    let b = first_leads(ts, ts.len());
    assert(leads(ts, b, k));
    assert(good_trial(ts, b, k));
    good_is_listed(ts, k, b, ts.len());
}

/// A good trial is listed among the good ones.
proof fn good_is_listed(ts: Seq<TrialView>, k: nat, b: int, n: nat)
    requires
        n <= ts.len(),
        0 <= b < n,
        good_trial(ts, b, k),
    ensures
        vectors_where(ts, k, true, n).len() > 0,
    decreases n,
{
    if b < n - 1 {
        good_is_listed(ts, k, b, (n - 1) as nat);
    }
}

/// The places of the rewarded ones among the first `n` trials.
spec fn rewarded_places(ts: Seq<TrialView>, n: nat) -> Set<int> {
    Set::new(|i: int| 0 <= i < n && rewarded(ts[i]))
}

/// The places of those among the first `n` trials that come before the one at `i`.
spec fn outranking_places(ts: Seq<TrialView>, i: int, n: nat) -> Set<int> {
    Set::new(|j: int| 0 <= j < n && outranks(ts, j, i))
}

/// The places of the good ones among the first `n` trials.
spec fn good_places(ts: Seq<TrialView>, k: nat, n: nat) -> Set<int> {
    Set::new(|i: int| 0 <= i < n && good_trial(ts, i, k))
}

/// The rewarded trials are as many as are counted.
proof fn count_rewarded_places(ts: Seq<TrialView>, n: nat)
    requires
        n <= ts.len(),
    ensures
        rewarded_places(ts, n).finite(),
        rewarded_places(ts, n).len() == rewarded_count(ts, n),
    decreases n,
{
    if n == 0 {
        assert(rewarded_places(ts, n) =~= Set::empty());
    } else {
        let m = (n - 1) as nat;
        count_rewarded_places(ts, m);
        if rewarded(ts[n - 1]) {
            assert(rewarded_places(ts, n) =~= rewarded_places(ts, m).insert(n - 1));
        } else {
            assert(rewarded_places(ts, n) =~= rewarded_places(ts, m));
        }
    }
}

/// The trials that come before another are as many as are counted.
proof fn count_outranking_places(ts: Seq<TrialView>, i: int, n: nat)
    requires
        n <= ts.len(),
    ensures
        outranking_places(ts, i, n).finite(),
        outranking_places(ts, i, n).len() == outranking(ts, i, n),
    decreases n,
{
    if n == 0 {
        assert(outranking_places(ts, i, n) =~= Set::empty());
    } else {
        let m = (n - 1) as nat;
        count_outranking_places(ts, i, m);
        if outranks(ts, n - 1, i) {
            assert(outranking_places(ts, i, n) =~= outranking_places(ts, i, m).insert(n - 1));
        } else {
            assert(outranking_places(ts, i, n) =~= outranking_places(ts, i, m));
        }
    }
}

/// The good vectors are as many as the good trials.
proof fn count_good_places(ts: Seq<TrialView>, k: nat, n: nat)
    requires
        n <= ts.len(),
    ensures
        good_places(ts, k, n).finite(),
        good_places(ts, k, n).len() == vectors_where(ts, k, true, n).len(),
    decreases n,
{
    if n == 0 {
        assert(good_places(ts, k, n) =~= Set::empty());
    } else {
        let m = (n - 1) as nat;
        count_good_places(ts, k, m);
        if good_trial(ts, n - 1, k) {
            assert(good_places(ts, k, n) =~= good_places(ts, k, m).insert(n - 1));
        } else {
            assert(good_places(ts, k, n) =~= good_places(ts, k, m));
        }
    }
}

/// Of two rewarded trials, fewer come before the one that comes first.
proof fn ranks_differ(ts: Seq<TrialView>, a: int, b: int)
    requires
        0 <= a < ts.len(),
        0 <= b < ts.len(),
        outranks(ts, a, b),
    ensures
        outranking(ts, a, ts.len()) < outranking(ts, b, ts.len()),
{
    let n = ts.len();
    count_outranking_places(ts, a, n);
    count_outranking_places(ts, b, n);
    let before_a = outranking_places(ts, a, n);
    let before_b = outranking_places(ts, b, n);
    assert(before_a.insert(a).subset_of(before_b));
    assert(!before_a.contains(a));
    vstd::set_lib::lemma_len_subset(before_a.insert(a), before_b);
}

/// Fewer trials come before a rewarded one than were rewarded.
proof fn rank_is_bounded(ts: Seq<TrialView>, i: int)
    requires
        0 <= i < ts.len(),
        rewarded(ts[i]),
    ensures
        outranking(ts, i, ts.len()) < rewarded_count(ts, ts.len()),
{
    let n = ts.len();
    count_outranking_places(ts, i, n);
    count_rewarded_places(ts, n);
    let before = outranking_places(ts, i, n);
    assert(before.insert(i).subset_of(rewarded_places(ts, n)));
    assert(!before.contains(i));
    vstd::set_lib::lemma_len_subset(before.insert(i), rewarded_places(ts, n));
}

/// As many trials lead as are asked for, where that many were rewarded.
proof fn leaders_are_counted(ts: Seq<TrialView>, k: nat)
    requires
        k <= rewarded_count(ts, ts.len()),
    ensures
        Set::new(|i: int| 0 <= i < ts.len() && leads(ts, i, k)).len() == k,
{
    let n = ts.len();
    let m = rewarded_count(ts, n);
    let all = rewarded_places(ts, n);
    let rank = |i: int| outranking(ts, i, n) as int;
    count_rewarded_places(ts, n);
    let ranks = all.map(rank);
    assert forall|a: int, b: int|
        all.contains(a) && all.contains(b) && #[trigger] rank(a) == #[trigger] rank(b) implies a
        == b by {
        if a != b {
            if outranks(ts, a, b) {
                ranks_differ(ts, a, b);
            } else {
                assert(outranks(ts, b, a));
                ranks_differ(ts, b, a);
            }
        }
    }
    vstd::set_lib::lemma_map_size(all, ranks, rank);
    let range = vstd::set_lib::set_int_range(0, m as int);
    vstd::set_lib::lemma_int_range(0, m as int);
    assert(ranks.subset_of(range)) by {
        assert forall|x: int| ranks.contains(x) implies range.contains(x) by {
            let i = choose|i: int| all.contains(i) && x == rank(i);
            rank_is_bounded(ts, i);
        }
    }
    vstd::set_lib::lemma_subset_equality(ranks, range);
    let first = Set::new(|i: int| 0 <= i < n && leads(ts, i, k));
    let low = vstd::set_lib::set_int_range(0, k as int);
    vstd::set_lib::lemma_int_range(0, k as int);
    assert(first.subset_of(all));
    vstd::set_lib::lemma_len_subset(first, all);
    assert(first.map(rank) =~= low) by {
        assert forall|x: int| low.contains(x) implies first.map(rank).contains(x) by {
            assert(ranks.contains(x));
            let i = choose|i: int| all.contains(i) && x == rank(i);
            assert(first.contains(i));
        }
        assert forall|x: int| first.map(rank).contains(x) implies low.contains(x) by {
            let i = choose|i: int| first.contains(i) && x == rank(i);
            assert(leads(ts, i, k));
        }
    }
    vstd::set_lib::lemma_map_size(first, low, rank);
}

/// Among trials with distinct numbers, none of whose rewards is NaN, exactly as many are good as are
/// asked for, as far as that many were rewarded, and each good one earned at least what each of the
/// others did.
pub proof fn split_takes_the_best(ts: Seq<TrialView>, threshold: nat, quota: nat)
    requires
        rewarded_count(ts, ts.len()) > 0,
        forall|i: int, j: int|
            0 <= i < j < ts.len() ==> (#[trigger] ts[i]).iteration != (#[trigger] ts[j]).iteration,
        forall|i: int| 0 <= i < ts.len() ==> !(#[trigger] ts[i]).reward.nan(),
    ensures
        ({
            let k = quota_within(quota, rewarded_count(ts, ts.len()));
            &&& vectors_where(ts, k, true, ts.len()).len() == k
            &&& split_of(ts, threshold, quota) matches Some(p) ==> p.0.len() == k && p.1.len()
                == ts.len() - k
            &&& forall|i: int, j: int|
                #![trigger good_trial(ts, i, k), good_trial(ts, j, k)]
                0 <= i < ts.len() && 0 <= j < ts.len() && good_trial(ts, i, k) && !good_trial(
                    ts,
                    j,
                    k,
                ) ==> ts[j].reward.rank() <= ts[i].reward.rank()
        }),
{
    let n = ts.len();
    let k = quota_within(quota, rewarded_count(ts, n));
    assert forall|i: int| 0 <= i < n implies good_trial(ts, i, k) == #[trigger] leads(ts, i, k) by {
        if good_trial(ts, i, k) {
            let a = choose|a: int|
                0 <= a < n && #[trigger] leads(ts, a, k) && ts[a].iteration == ts[i].iteration;
            assert(a == i);
        }
    }
    leaders_are_counted(ts, k);
    count_good_places(ts, k, n);
    assert(good_places(ts, k, n) =~= Set::new(|i: int| 0 <= i < n && leads(ts, i, k)));
    split_is_complete(ts, k, n);
    assert forall|i: int, j: int|
        #![trigger good_trial(ts, i, k), good_trial(ts, j, k)]
        0 <= i < n && 0 <= j < n && good_trial(ts, i, k) && !good_trial(ts, j, k) implies (
    ts[j].reward.rank() <= ts[i].reward.rank()) by {
        assert(leads(ts, i, k) && !leads(ts, j, k));
        if rewarded(ts[j]) && ts[i].reward.rank() < ts[j].reward.rank() {
            ranks_differ(ts, j, i);
        }
    }
}

impl TpeOptimizer {
    /// The search once it has taken up what was kept across a restart. `forms` are the normalized
    /// forms of the kept vectors, `last` that of the last one in use.
    pub open spec fn restored(
        s: SearchView,
        h: HistoryView,
        forms: Seq<Option<Seq<Double>>>,
        last: Option<Seq<Double>>,
    ) -> SearchView {
        SearchView {
            restored_once: true,
            trials: restored_trials(h.trials, forms),
            last_vec: match last {
                Some(v) => v,
                None => Seq::empty(),
            },
            ..s
        }
    }

    /// Takes up what was kept across a restart, the first time it is called.
    pub fn restore_once<N: Fn(&Vec<Double>) -> Option<Vec<Double>>>(
        &mut self,
        state: &SchedulerState,
        normalize: &N,
    )
        requires
            normalizing(*normalize),
        ensures
            final(self).params == old(self).params,
            old(self).state@.restored_once ==> final(self).state@ == old(self).state@,
            !old(self).state@.restored_once && state@.history is None ==> final(self).state@ == (
            SearchView { restored_once: true, ..old(self).state@ }),
            !old(self).state@.restored_once && state@.history is Some ==> exists|
                forms: Seq<Option<Seq<Double>>>,
                last: Option<Seq<Double>>,
            |
                #![trigger Self::restored(old(self).state@, state@.history->0, forms, last)]
                {
                    let h = state@.history->0;
                    &&& formed_all(*normalize, kept_vectors(h.trials), forms)
                    &&& formed(*normalize, h.last_vec, last)
                    &&& final(self).state@ == Self::restored(old(self).state@, h, forms, last)
                },
    {
        if self.state.restored_once {
            return ;
        }
        let ghost start = self.state@;
        self.state.restored_once = true;
        match &state.tpe_history {
            None => {},
            Some(h) => {
                let ghost kept = kept_trials(h.trials@);
                let ghost vs = kept_vectors(kept);
                let ghost mut forms: Seq<Option<Seq<Double>>> = Seq::empty();
                let mut trials: Vec<TpeTrial> = Vec::new();
                let mut i: usize = 0;
                assert(kept.take(0) =~= Seq::empty());
                assert(trial_views(trials@) =~= restored_trials(kept.take(0), forms));
                while i < h.trials.len()
                    invariant
                        normalizing(*normalize),
                        i <= h.trials@.len(),
                        kept == kept_trials(h.trials@),
                        vs == kept_vectors(kept),
                        forms.len() == i,
                        forall|k: int|
                            0 <= k < i ==> formed(*normalize, vs[k], #[trigger] forms[k]),
                        trial_views(trials@) == restored_trials(kept.take(i as int), forms),
                    decreases h.trials@.len() - i,
                {
                    let ghost before = trials@;
                    let ghost forms0 = forms;
                    assert(kept.take(i + 1).drop_last() =~= kept.take(i as int));
                    assert(kept.take(i + 1).last() == kept[i as int]);
                    let f: Option<Vec<Double>> = form(&h.trials[i].0, normalize);
                    proof {
                        forms = forms0.push(form_of(f));
                        assert(vs[i as int] == h.trials@[i as int].0@);
                        assert forall|k: int| 0 <= k < i + 1 implies formed(
                            *normalize,
                            vs[k],
                            #[trigger] forms[k],
                        ) by {
                            assert(k < i ==> forms[k] == forms0[k]);
                        }
                        restored_by_first(kept.take(i as int), forms0, forms);
                    }
                    match f {
                        Some(v) => {
                            let t: TpeTrial = TpeTrial {
                                iteration: i as u64,
                                vector: v,
                                reward: h.trials[i].1,
                                active_start_ms: h.trials[i].2,
                                active_end_ms: h.trials[i].2,
                            };
                            trials.push(t);
                            assert(trial_views(trials@) =~= trial_views(before).push(t@));
                        },
                        None => {},
                    }
                    i = i + 1;
                }
                assert(kept.take(h.trials@.len() as int) =~= kept);
                let last: Option<Vec<Double>> = form(&h.last_vec, normalize);
                let ghost shape = form_of(last);
                self.state.trials = trials;
                self.state.last_vec = match last {
                    Some(v) => v,
                    None => Vec::new(),
                };
                assert(formed_all(*normalize, vs, forms));
                assert(formed(*normalize, h.last_vec@, shape));
                assert(self.state@ == Self::restored(start, state@.history->0, forms, shape));
            },
        }
    }

    /// The history of the search with a time, over what was kept before.
    pub open spec fn persisted(s: SearchView, before: Option<HistoryView>, now_ms: u64) -> HistoryView {
        let base = match before {
            Some(h) => h,
            None => initial_history(),
        };
        HistoryView {
            trials: keep_trials(s.trials),
            max_trials: MAX_TRIALS,
            last_vec: s.last_vec,
            last_check_ms: Some(now_ms),
            ..base
        }
    }

    /// Keeps the history with the state, as of a given time.
    pub fn persist_to_meta_at(&self, state: &mut SchedulerState, now_ms: u64)
        ensures
            final(state)@ == (StateView {
                history: Some(Self::persisted(self.state@, old(state)@.history, now_ms)),
                ..old(state)@
            }),
    {
        let mut trials: Vec<(Vec<Double>, Double, u64)> = Vec::new();
        let mut i: usize = 0;
        while i < self.state.trials.len()
            invariant
                i <= self.state.trials@.len(),
                trials@.len() == i,
                forall|k: int|
                    0 <= k < i ==> (#[trigger] trials@[k]).0@ == self.state.trials@[k].vector@
                        && trials@[k].1 == self.state.trials@[k].reward && trials@[k].2
                        == self.state.trials@[k].active_end_ms,
            decreases self.state.trials@.len() - i,
        {
            let t: &TpeTrial = &self.state.trials[i];
            trials.push((copy_numbers(&t.vector), t.reward, t.active_end_ms));
            i = i + 1;
        }
        assert(kept_trials(trials@) =~= keep_trials(self.state@.trials));
        let meta: &mut TpeHistoryMeta = state.tpe_history.get_or_insert(TpeHistoryMeta::default());
        meta.trials = trials;
        meta.max_trials = MAX_TRIALS;
        meta.last_vec = copy_numbers(&self.state.last_vec);
        meta.last_check_ms = Some(now_ms);
    }

    /// Keeps the history with the state, as of now.
    pub fn persist_to_meta(&self, state: &mut SchedulerState)
        ensures
            exists|now_ms: u64|
                final(state)@ == (StateView {
                    history: Some(
                        #[trigger] Self::persisted(self.state@, old(state)@.history, now_ms),
                    ),
                    ..old(state)@
                }),
    {
        let now_ms: u64 = now_epoch_ms();
        self.persist_to_meta_at(state, now_ms);
    }

    /// Copies of the vectors of the trials.
    fn tried_vectors(&self) -> (r: Vec<Vec<Double>>)
        ensures
            rows(r@) == tried(self.state@.trials),
    {
        let mut r: Vec<Vec<Double>> = Vec::new();
        let mut i: usize = 0;
        while i < self.state.trials.len()
            invariant
                i <= self.state.trials@.len(),
                r@.len() == i,
                forall|k: int|
                    0 <= k < i ==> (#[trigger] r@[k])@ == self.state.trials@[k].vector@,
            decreases self.state.trials@.len() - i,
        {
            r.push(copy_numbers(&self.state.trials[i].vector));
            i = i + 1;
        }
        assert(rows(r@) =~= tried(self.state@.trials));
        r
    }

    /// Takes the first waiting vector that was not tried yet, and drops those before it.
    /// The taken vector is handed out in its normalized form, if it has one.
    pub fn next_untried_from_pool<
        F: Fn(Double, Double, Double) -> bool,
        N: Fn(&Vec<Double>) -> Option<Vec<Double>>,
    >(&self, state: &mut SchedulerState, within: &F, normalize: &N) -> (r: Option<Vec<Double>>)
        requires
            askable(*within),
            normalizing(*normalize),
        ensures
            exists|n: int|
                #![trigger left_over(old(state)@.globals.v_candidates, n)]
                passed_over(
                    *within,
                    tried(self.state@.trials),
                    old(state)@.globals.v_candidates,
                    n,
                ) && final(state)@ == with_pool(
                    old(state)@,
                    left_over(old(state)@.globals.v_candidates, n),
                ) && taken_form(
                    *normalize,
                    old(state)@.globals.v_candidates,
                    n,
                    form_of(r),
                ),
    {
        let ghost pool = state@.globals.v_candidates;
        let hist: Vec<Vec<Double>> = self.tried_vectors();
        let waiting: Vec<Vec<Double>> = get_v_candidates(state);
        let eps: Double = Double { bits: CANDIDATE_EPS_BITS };
        let mut n: usize = 0;
        while n < waiting.len() && any_same(&hist, &waiting[n], eps, within)
            invariant
                askable(*within),
                n <= waiting@.len(),
                eps == (Double { bits: CANDIDATE_EPS_BITS }),
                rows(waiting@) == pool,
                rows(hist@) == tried(self.state@.trials),
                forall|i: int|
                    0 <= i < n ==> found_among(*within, rows(hist@), #[trigger] pool[i], eps),
            ensures
                n <= waiting@.len(),
                forall|i: int|
                    0 <= i < n ==> found_among(*within, rows(hist@), #[trigger] pool[i], eps),
                n < waiting@.len() ==> found_nowhere(*within, rows(hist@), pool[n as int], eps),
            decreases waiting@.len() - n,
        {
            assert(pool[n as int] == waiting@[n as int]@);
            n = n + 1;
        }
        assert(passed_over(*within, tried(self.state@.trials), pool, n as int));
        let mut rest: Vec<Vec<Double>> = Vec::new();
        let mut i: usize = n;
        if n < waiting.len() {
            i = n + 1;
        }
        let ghost start = i as int;
        while i < waiting.len()
            invariant
                0 <= start <= i <= waiting@.len(),
                rows(rest@) == rows(waiting@).subrange(start, i as int),
            decreases waiting@.len() - i,
        {
            let ghost before = rest@;
            rest.push(copy_numbers(&waiting[i]));
            assert(rows(rest@) =~= rows(before).push(rows(waiting@)[i as int]));
            assert(rows(rest@) =~= rows(waiting@).subrange(start, i + 1));
            i = i + 1;
        }
        assert(rows(rest@) =~= left_over(pool, n as int));
        replace_v_candidates(state, rest);
        if n < waiting.len() {
            assert(pool[n as int] == waiting@[n as int]@);
            form(&waiting[n], normalize)
        } else {
            None
        }
    }

    /// How many trials were rewarded.
    pub fn count_rewarded(&self) -> (r: usize)
        ensures
            r == rewarded_count(self.state@.trials, self.state@.trials.len()),
    {
        let ghost ts = self.state@.trials;
        let mut c: usize = 0;
        let mut i: usize = 0;
        while i < self.state.trials.len()
            invariant
                i <= self.state.trials@.len(),
                ts == self.state@.trials,
                c <= i,
                c == rewarded_count(ts, i as nat),
            decreases self.state.trials@.len() - i,
        {
            assert(ts[i as int] == self.state.trials@[i as int]@);
            if Double::zero().lt(self.state.trials[i].reward) {
                c = c + 1;
            }
            i = i + 1;
        }
        c
    }

    /// How many rewarded trials come before the one at `i`.
    fn count_outranking(&self, i: usize) -> (r: usize)
        requires
            i < self.state@.trials.len(),
            rewarded(self.state@.trials[i as int]),
        ensures
            r == outranking(self.state@.trials, i as int, self.state@.trials.len()),
    {
        let ghost ts = self.state@.trials;
        let mine: Double = self.state.trials[i].reward;
        let mut c: usize = 0;
        let mut j: usize = 0;
        while j < self.state.trials.len()
            invariant
                j <= self.state.trials@.len(),
                i < self.state.trials@.len(),
                ts == self.state@.trials,
                mine == ts[i as int].reward,
                rewarded(ts[i as int]),
                c <= j,
                c == outranking(ts, i as int, j as nat),
            decreases self.state.trials@.len() - j,
        {
            assert(ts[j as int] == self.state.trials@[j as int]@);
            let other: Double = self.state.trials[j].reward;
            if Double::zero().lt(other) && (mine.lt(other) || (!other.lt(mine) && j < i)) {
                c = c + 1;
            }
            j = j + 1;
        }
        c
    }

    /// The numbers of the `k` trials that earned most.
    fn leading_numbers(&self, k: usize) -> (r: Vec<u64>)
        ensures
            forall|id: u64| r@.contains(id) <==> leading_number(self.state@.trials, id, k as nat),
    {
        let ghost ts = self.state@.trials;
        let mut r: Vec<u64> = Vec::new();
        let mut i: usize = 0;
        while i < self.state.trials.len()
            invariant
                i <= self.state.trials@.len(),
                ts == self.state@.trials,
                forall|id: u64| #[trigger]
                    r@.contains(id) <==> exists|j: int|
                        0 <= j < i && #[trigger] leads(ts, j, k as nat) && ts[j].iteration == id,
            decreases self.state.trials@.len() - i,
        {
            assert(ts[i as int] == self.state.trials@[i as int]@);
            let ghost before = r@;
            if Double::zero().lt(self.state.trials[i].reward) && self.count_outranking(i) < k {
                r.push(self.state.trials[i].iteration);
                assert(leads(ts, i as int, k as nat));
                assert forall|id: u64| #[trigger] r@.contains(id) <==> exists|j: int|
                    0 <= j < i + 1 && #[trigger] leads(ts, j, k as nat) && ts[j].iteration
                        == id by {
                    if r@.contains(id) {
                        let p = choose|p: int| 0 <= p < r@.len() && r@[p] == id;
                        if p < before.len() {
                            assert(before[p] == id);
                            assert(before.contains(id));
                        }
                    }
                    if exists|j: int|
                        0 <= j < i + 1 && #[trigger] leads(ts, j, k as nat) && ts[j].iteration
                            == id {
                        let j = choose|j: int|
                            0 <= j < i + 1 && #[trigger] leads(ts, j, k as nat) && ts[j].iteration
                                == id;
                        if j < i {
                            assert(before.contains(id));
                            let p = choose|p: int| 0 <= p < before.len() && before[p] == id;
                            assert(r@[p] == id);
                        } else {
                            assert(r@[before.len() as int] == id);
                        }
                    }
                }
            } else {
                assert(!leads(ts, i as int, k as nat));
                assert forall|id: u64| #[trigger] r@.contains(id) <==> exists|j: int|
                    0 <= j < i + 1 && #[trigger] leads(ts, j, k as nat) && ts[j].iteration
                        == id by {}
            }
            i = i + 1;
        }
        r
    }

    /// Splits the history in good vectors and others: good are the rewarded trials that carry the
    /// number of one of the `quota` trials that earned most.
    pub fn split_good_bad(&self, quota: usize) -> (r: Option<(Vec<Vec<Double>>, Vec<Vec<Double>>)>)
        requires
            self.params.trials_threshold > 0 || rewarded_count(
                self.state@.trials,
                self.state@.trials.len(),
            ) > 0,
        ensures
            match r {
                Some(p) => split_of(
                    self.state@.trials,
                    self.params.trials_threshold as nat,
                    quota as nat,
                ) == Some((rows(p.0@), rows(p.1@))),
                None => split_of(
                    self.state@.trials,
                    self.params.trials_threshold as nat,
                    quota as nat,
                ) is None,
            },
            rewarded_count(self.state@.trials, self.state@.trials.len())
                < self.params.trials_threshold ==> r is None,
    {
        let ghost ts = self.state@.trials;
        let positive: usize = self.count_rewarded();
        if positive < self.params.trials_threshold {
            return None;
        }
        let k: usize = if quota < 1 {
            1
        } else if quota > positive {
            positive
        } else {
            quota
        };
        let ids: Vec<u64> = self.leading_numbers(k);
        let mut good: Vec<Vec<Double>> = Vec::new();
        let mut bad: Vec<Vec<Double>> = Vec::new();
        let mut i: usize = 0;
        assert(rows(good@) =~= Seq::<Seq<Double>>::empty());
        assert(rows(bad@) =~= Seq::<Seq<Double>>::empty());
        while i < self.state.trials.len()
            invariant
                i <= self.state.trials@.len(),
                ts == self.state@.trials,
                forall|id: u64| ids@.contains(id) <==> leading_number(ts, id, k as nat),
                rows(good@) == vectors_where(ts, k as nat, true, i as nat),
                rows(bad@) == vectors_where(ts, k as nat, false, i as nat),
            decreases self.state.trials@.len() - i,
        {
            let t: &TpeTrial = &self.state.trials[i];
            assert(ts[i as int] == t@);
            let ghost g = good@;
            let ghost b = bad@;
            assert(ids@.contains(t.iteration) <==> leading_number(ts, t.iteration, k as nat));
            if Double::zero().lt(t.reward) && holds_number(&ids, t.iteration) {
                good.push(copy_numbers(&t.vector));
                assert(rows(good@) =~= rows(g).push(t@.vector));
            } else {
                bad.push(copy_numbers(&t.vector));
                assert(rows(bad@) =~= rows(b).push(t@.vector));
            }
            i = i + 1;
        }
        if good.len() == 0 || bad.len() == 0 {
            assert(rows(good@).len() == good@.len() && rows(bad@).len() == bad@.len());
            None
        } else {
            assert(rows(good@).len() == good@.len() && rows(bad@).len() == bad@.len());
            Some((good, bad))
        }
    }
}

/// Is the number in the list?
fn holds_number(list: &Vec<u64>, x: u64) -> (r: bool)
    ensures
        r == list@.contains(x),
{
    let mut i: usize = 0;
    while i < list.len()
        invariant
            i <= list@.len(),
            forall|k: int| 0 <= k < i ==> list@[k] != x,
        decreases list@.len() - i,
    {
        if list[i] == x {
            return true;
        }
        i = i + 1;
    }
    false
}

/// Adding one vector to those that wait, unless one of them was found to be the same.
pub open spec fn queued_one<F: Fn(Double, Double, Double) -> bool>(
    within: F,
    pool: Seq<Seq<Double>>,
    v: Seq<Double>,
    out: Seq<Seq<Double>>,
) -> bool {
    let eps = Double { bits: CANDIDATE_EPS_BITS };
    ||| found_among(within, pool, v, eps) && out == pool
    ||| found_nowhere(within, pool, v, eps) && out == pool.push(v)
}

/// The pools that adding vectors one after the other goes through.
pub open spec fn queue_steps<F: Fn(Double, Double, Double) -> bool>(
    within: F,
    pool: Seq<Seq<Double>>,
    vs: Seq<Seq<Double>>,
    out: Seq<Seq<Double>>,
    steps: Seq<Seq<Seq<Double>>>,
) -> bool {
    &&& steps.len() == vs.len() + 1
    &&& steps[0] == pool
    &&& steps[vs.len() as int] == out
    &&& forall|i: int|
        #![trigger vs[i]]
        0 <= i < vs.len() ==> queued_one(within, steps[i], vs[i], steps[i + 1])
}

/// Adding vectors to those that wait, one after the other, each unless one of those that wait by
/// then was found to be the same.
pub open spec fn queued<F: Fn(Double, Double, Double) -> bool>(
    within: F,
    pool: Seq<Seq<Double>>,
    vs: Seq<Seq<Double>>,
    out: Seq<Seq<Double>>,
) -> bool {
    exists|steps: Seq<Seq<Seq<Double>>>| queue_steps(within, pool, vs, out, steps)
}

/// Every pool on the way begins with the first one.
proof fn queue_steps_grow<F: Fn(Double, Double, Double) -> bool>(
    within: F,
    pool: Seq<Seq<Double>>,
    vs: Seq<Seq<Double>>,
    out: Seq<Seq<Double>>,
    steps: Seq<Seq<Seq<Double>>>,
    n: nat,
)
    requires
        queue_steps(within, pool, vs, out, steps),
        n <= vs.len(),
    ensures
        pool.len() <= steps[n as int].len() <= pool.len() + n,
        steps[n as int].take(pool.len() as int) == pool,
    decreases n,
{
    if n == 0 {
        assert(pool.take(pool.len() as int) =~= pool);
    } else {
        queue_steps_grow(within, pool, vs, out, steps, (n - 1) as nat);
        assert(queued_one(within, steps[n - 1], vs[n - 1], steps[n as int]));
        assert(steps[n as int].take(pool.len() as int) =~= steps[n - 1].take(pool.len() as int));
    }
}

/// What waited before still waits, in front and in the same order, and at most one vector is added
/// for each that is offered.
pub proof fn queueing_keeps_pool<F: Fn(Double, Double, Double) -> bool>(
    within: F,
    pool: Seq<Seq<Double>>,
    vs: Seq<Seq<Double>>,
    out: Seq<Seq<Double>>,
)
    requires
        queued(within, pool, vs, out),
    ensures
        pool.len() <= out.len() <= pool.len() + vs.len(),
        out.take(pool.len() as int) == pool,
{
    let steps = choose|steps: Seq<Seq<Seq<Double>>>| queue_steps(within, pool, vs, out, steps);
    queue_steps_grow(within, pool, vs, out, steps, vs.len());
}

/// Adds vectors to those that wait, each unless one of those that wait by then is the same.
pub fn queue_all<F: Fn(Double, Double, Double) -> bool>(
    state: &mut SchedulerState,
    vs: &Vec<Vec<Double>>,
    within: &F,
)
    requires
        askable(*within),
    ensures
        queued(
            *within,
            old(state)@.globals.v_candidates,
            rows(vs@),
            final(state)@.globals.v_candidates,
        ),
        final(state)@ == with_pool(old(state)@, final(state)@.globals.v_candidates),
{
    let ghost start = state@;
    let ghost mut steps = seq![start.globals.v_candidates];
    let mut i: usize = 0;
    while i < vs.len()
        invariant
            askable(*within),
            i <= vs@.len(),
            steps.len() == i + 1,
            steps[0] == start.globals.v_candidates,
            steps[i as int] == state@.globals.v_candidates,
            forall|k: int|
                #![trigger rows(vs@)[k]]
                0 <= k < i ==> queued_one(*within, steps[k], rows(vs@)[k], steps[k + 1]),
            state@ == with_pool(start, state@.globals.v_candidates),
        decreases vs@.len() - i,
    {
        let ghost before = steps;
        let v: Vec<Double> = copy_numbers(&vs[i]);
        push_v_candidate(state, v, within);
        proof {
            steps = before.push(state@.globals.v_candidates);
            assert(rows(vs@)[i as int] == v@);
            assert(queued_one(*within, steps[i as int], v@, steps[i + 1]));
            assert forall|k: int| #![trigger rows(vs@)[k]] 0 <= k < i implies queued_one(
                *within,
                steps[k],
                rows(vs@)[k],
                steps[k + 1],
            ) by {
                assert(queued_one(*within, before[k], rows(vs@)[k], before[k + 1]));
            }
        }
        i = i + 1;
    }
    assert(queue_steps(
        *within,
        start.globals.v_candidates,
        rows(vs@),
        state@.globals.v_candidates,
        steps,
    ));
}

/// Can `draw` be asked for a vector around any other?
pub open spec fn drawable<G: Fn(&Vec<Double>, Double) -> Vec<Double>>(draw: G) -> bool {
    forall|z: &Vec<Double>, bw: Double| #[trigger] call_requires(draw, (z, bw))
}

/// `draw` gave the vector `v` around `center`, with the bandwidth `bw`.
pub open spec fn drawn_one<G: Fn(&Vec<Double>, Double) -> Vec<Double>>(
    draw: G,
    center: Seq<Double>,
    bw: Double,
    v: Seq<Double>,
) -> bool {
    exists|z: &Vec<Double>, out: Vec<Double>|
        z@ == center && out@ == v && #[trigger] call_ensures(draw, (z, bw), out)
}

/// `draw` gave the vector `v` around one of the centers.
pub open spec fn drawn_from<G: Fn(&Vec<Double>, Double) -> Vec<Double>>(
    draw: G,
    centers: Seq<Seq<Double>>,
    bw: Double,
    v: Seq<Double>,
) -> bool {
    exists|i: int| 0 <= i < centers.len() && drawn_one(draw, #[trigger] centers[i], bw, v)
}

/// A vector around another.
pub fn draw_one<G: Fn(&Vec<Double>, Double) -> Vec<Double>>(
    draw: &G,
    center: &Vec<Double>,
    bw: Double,
) -> (r: Vec<Double>)
    requires
        drawable(*draw),
    ensures
        drawn_one(*draw, center@, bw, r@),
{
    assert(call_requires(*draw, (center, bw)));
    let out: Vec<Double> = draw(center, bw);
    assert(call_ensures(*draw, (center, bw), out));
    out
}

/// All vectors were drawn around `center`.
pub open spec fn drawn_all<G: Fn(&Vec<Double>, Double) -> Vec<Double>>(
    draw: G,
    center: Seq<Double>,
    bw: Double,
    drawn: Seq<Seq<Double>>,
) -> bool {
    forall|i: int| 0 <= i < drawn.len() ==> drawn_one(draw, center, bw, #[trigger] drawn[i])
}

/// What becomes of the waiting vectors when `n` vectors that were drawn around `center` are added to
/// them.
pub open spec fn enqueued<
    F: Fn(Double, Double, Double) -> bool,
    G: Fn(&Vec<Double>, Double) -> Vec<Double>,
>(
    within: F,
    draw: G,
    center: Seq<Double>,
    bw: Double,
    n: nat,
    pool: Seq<Seq<Double>>,
    out: Seq<Seq<Double>>,
) -> bool {
    exists|drawn: Seq<Seq<Double>>|
        {
            &&& drawn.len() == n
            &&& #[trigger] drawn_all(draw, center, bw, drawn)
            &&& queued(within, pool, drawn, out)
        }
}

/// The credits of the exploring phase.
pub open spec fn credits_of(s: StateView) -> Seq<Double> {
    match s.credits {
        Some(c) => c,
        None => Seq::empty(),
    }
}

/// The vector around which a search begins: the credits of the exploring phase as shares, where
/// there is one for each active feature and the positive ones are not negligible; even shares
/// otherwise. It goes with whether the credits tell the features apart in that way. Without active
/// features there is none.
pub open spec fn centered<
    A: Fn(Double, Double) -> Double,
    N: Fn(&Vec<Double>) -> Option<Vec<Double>>,
    E: Fn(usize) -> Double,
>(
    plus: A,
    normalize: N,
    share: E,
    s: StateView,
    floor: Double,
    total: Double,
    form: Option<Seq<Double>>,
    out: Option<(Seq<Double>, bool)>,
) -> bool {
    let dim = s.globals.feature_dim;
    let credits = credits_of(s);
    if dim == 0 {
        out is None
    } else {
        &&& summed(plus, positives(credits), total)
        &&& out is Some
        &&& (out->0).1 == (credits.len() == dim && floor.below(total))
        &&& if (out->0).1 {
            &&& formed(normalize, credits, form)
            &&& match form {
                Some(v) => (out->0).0 == v,
                None => evened(share, dim, (out->0).0),
            }
        } else {
            evened(share, dim, (out->0).0)
        }
    }
}

/// The model of a center and what goes with it.
pub open spec fn center_of(r: Option<(Vec<Double>, bool)>) -> Option<(Seq<Double>, bool)> {
    match r {
        Some(p) => Some((p.0@, p.1)),
        None => None,
    }
}

/// What becomes of the waiting vectors when the first candidates are added to them; `told` is whether
/// the credits tell the features apart.
pub open spec fn prior_enqueued<
    F: Fn(Double, Double, Double) -> bool,
    G: Fn(&Vec<Double>, Double) -> Vec<Double>,
    A: Fn(Double, Double) -> Double,
    N: Fn(&Vec<Double>) -> Option<Vec<Double>>,
    E: Fn(usize) -> Double,
>(
    within: F,
    draw: G,
    plus: A,
    normalize: N,
    share: E,
    s: StateView,
    floor: Double,
    bw: Double,
    n: nat,
    told: bool,
    out: Seq<Seq<Double>>,
) -> bool {
    exists|total: Double, form: Option<Seq<Double>>, center: Seq<Double>|
        {
            &&& #[trigger] centered(
                plus,
                normalize,
                share,
                s,
                floor,
                total,
                form,
                Some((center, told)),
            )
            &&& enqueued(within, draw, center, bw, n, s.globals.v_candidates, out)
        }
}

/// What becomes of the waiting vectors when vectors around the inverse of the best one are added to
/// them.
pub open spec fn inverse_enqueued<
    F: Fn(Double, Double, Double) -> bool,
    G: Fn(&Vec<Double>, Double) -> Vec<Double>,
    V: Fn(&Vec<Double>) -> Vec<Double>,
>(
    within: F,
    draw: G,
    invert: V,
    best: Seq<Double>,
    bw: Double,
    n: nat,
    pool: Seq<Seq<Double>>,
    out: Seq<Seq<Double>>,
) -> bool {
    exists|z: &Vec<Double>, center: Vec<Double>|
        {
            &&& z@ == best
            &&& #[trigger] call_ensures(invert, (z,), center)
            &&& enqueued(within, draw, center@, bw, n, pool, out)
        }
}

/// The arithmetic of the log density estimates.
pub struct LogKde<D, M> {
    /// The logarithm of how likely a vector is around some others, with a bandwidth.
    pub log_pdf: D,
    /// One number less another.
    pub minus: M,
}

/// Can the arithmetic be asked for anything?
pub open spec fn log_estimable<
    D: Fn(&Vec<Double>, &Vec<Vec<Double>>, Double) -> Double,
    M: Fn(Double, Double) -> Double,
>(kde: LogKde<D, M>) -> bool {
    &&& forall|v: &Vec<Double>, centers: &Vec<Vec<Double>>, bw: Double| #[trigger]
        call_requires(kde.log_pdf, (v, centers, bw))
    &&& forall|x: Double, y: Double| #[trigger] call_requires(kde.minus, (x, y))
}

/// `log_pdf` gave `x` for the vector `v` around `centers`.
pub open spec fn log_estimated<D: Fn(&Vec<Double>, &Vec<Vec<Double>>, Double) -> Double>(
    log_pdf: D,
    v: Seq<Double>,
    centers: Seq<Seq<Double>>,
    bw: Double,
    x: Double,
) -> bool {
    exists|z: &Vec<Double>, a: &Vec<Vec<Double>>|
        z@ == v && rows(a@) == centers && #[trigger] call_ensures(log_pdf, (z, a, bw), x)
}

/// `gain` is what `minus` gave for the two log densities at the vector `v`: that around the good
/// vectors, less that around the others.
pub open spec fn gained<
    D: Fn(&Vec<Double>, &Vec<Vec<Double>>, Double) -> Double,
    M: Fn(Double, Double) -> Double,
>(
    kde: LogKde<D, M>,
    good: Seq<Seq<Double>>,
    bad: Seq<Seq<Double>>,
    v: Seq<Double>,
    bw: Double,
    gain: Double,
) -> bool {
    exists|l: Double, g: Double|
        {
            &&& #[trigger] log_estimated(kde.log_pdf, v, good, bw, l)
            &&& #[trigger] log_estimated(kde.log_pdf, v, bad, bw, g)
            &&& call_ensures(kde.minus, (l, g), gain)
        }
}

/// The next vector is drawn: one around the good vectors, which is taken or makes the search settle.
pub open spec fn next_drawn<
    G: Fn(&Vec<Double>, Double) -> Vec<Double>,
    D: Fn(&Vec<Double>, &Vec<Vec<Double>>, Double) -> Double,
    M: Fn(Double, Double) -> Double,
>(
    draw: G,
    kde: LogKde<D, M>,
    s: SearchView,
    good: Seq<Seq<Double>>,
    bad: Seq<Seq<Double>>,
    bw: Double,
    r: Option<Seq<Double>>,
    after: SearchView,
) -> bool {
    exists|v: Seq<Double>|
        {
            &&& #[trigger] drawn_from(draw, good, bw, v)
            &&& taken_or_settled(kde, good, bad, v, bw, s, r is Some, after)
            &&& r is Some ==> r == Some(v)
        }
}

/// The next vector of a search that has not settled, and what becomes of the search and the waiting
/// vectors: the first waiting vector that was not tried yet, else one that is drawn where the history
/// can be split.
pub open spec fn next_suggested<
    F: Fn(Double, Double, Double) -> bool,
    N: Fn(&Vec<Double>) -> Option<Vec<Double>>,
    G: Fn(&Vec<Double>, Double) -> Vec<Double>,
    D: Fn(&Vec<Double>, &Vec<Vec<Double>>, Double) -> Double,
    M: Fn(Double, Double) -> Double,
>(
    within: F,
    normalize: N,
    draw: G,
    kde: LogKde<D, M>,
    s: SearchView,
    split: Option<(Seq<Seq<Double>>, Seq<Seq<Double>>)>,
    bw: Double,
    pool: Seq<Seq<Double>>,
    r: Option<Seq<Double>>,
    after: SearchView,
    left: Seq<Seq<Double>>,
) -> bool {
    exists|n: int, form: Option<Seq<Double>>|
        {
            &&& #[trigger] passed_over(within, tried(s.trials), pool, n)
            &&& left == left_over(pool, n)
            &&& #[trigger] taken_form(normalize, pool, n, form)
            &&& match form {
                Some(v) => r == Some(v) && after == s,
                None => match split {
                    Some(p) => next_drawn(draw, kde, s, p.0, p.1, bw, r, after),
                    None => r is None && after == s,
                },
            }
        }
}

/// The vector `v` gains, whatever the arithmetic says of it.
pub open spec fn always_gains<
    D: Fn(&Vec<Double>, &Vec<Vec<Double>>, Double) -> Double,
    M: Fn(Double, Double) -> Double,
>(
    kde: LogKde<D, M>,
    good: Seq<Seq<Double>>,
    bad: Seq<Seq<Double>>,
    v: Seq<Double>,
    bw: Double,
) -> bool {
    forall|gain: Double| #[trigger]
        gained(kde, good, bad, v, bw, gain) ==> !gain.at_most(Double { bits: 0 })
}

/// Every vector gains that is drawn around the good ones.
pub open spec fn draws_gain<
    G: Fn(&Vec<Double>, Double) -> Vec<Double>,
    D: Fn(&Vec<Double>, &Vec<Vec<Double>>, Double) -> Double,
    M: Fn(Double, Double) -> Double,
>(
    draw: G,
    kde: LogKde<D, M>,
    good: Seq<Seq<Double>>,
    bad: Seq<Seq<Double>>,
    bw: Double,
) -> bool {
    forall|v: Seq<Double>| #[trigger]
        drawn_from(draw, good, bw, v) ==> always_gains(kde, good, bad, v, bw)
}

/// What becomes of a drawn vector: it is taken where it gains, and else the search settles.
pub open spec fn taken_or_settled<
    D: Fn(&Vec<Double>, &Vec<Vec<Double>>, Double) -> Double,
    M: Fn(Double, Double) -> Double,
>(
    kde: LogKde<D, M>,
    good: Seq<Seq<Double>>,
    bad: Seq<Seq<Double>>,
    v: Seq<Double>,
    bw: Double,
    s: SearchView,
    taken: bool,
    after: SearchView,
) -> bool {
    exists|gain: Double|
        {
            &&& #[trigger] gained(kde, good, bad, v, bw, gain)
            &&& taken == !gain.at_most(Double { bits: 0 })
            &&& after == if taken {
                s
            } else {
                locked(s)
            }
        }
}

impl TpeOptimizer {
    /// Can a draw be decided on? The history can be asked for a split, and its rewards for the best
    /// one, which matters only where a vector that is drawn may fail to gain.
    pub open spec fn decidable<
        G: Fn(&Vec<Double>, Double) -> Vec<Double>,
        D: Fn(&Vec<Double>, &Vec<Vec<Double>>, Double) -> Double,
        M: Fn(Double, Double) -> Double,
    >(self, quota: nat, draw: G, kde: LogKde<D, M>) -> bool {
        let ts = self.state@.trials;
        &&& self.params.trials_threshold > 0 || rewarded_count(ts, ts.len()) > 0
        &&& comparable(ts) || match split_of(ts, self.params.trials_threshold as nat, quota) {
            Some(p) => draws_gain(draw, kde, p.0, p.1, self.params.bw),
            None => true,
        }
    }

    /// The next vector to try, if there is one. There is none once the search has settled. Else it is
    /// the first waiting vector that was not tried yet; else one that is drawn around the good
    /// vectors, where the history can be split and the good vectors make it likelier than the others.
    /// Where they do not, the search settles.
    pub fn suggest_next<
        F: Fn(Double, Double, Double) -> bool,
        N: Fn(&Vec<Double>) -> Option<Vec<Double>>,
        G: Fn(&Vec<Double>, Double) -> Vec<Double>,
        D: Fn(&Vec<Double>, &Vec<Vec<Double>>, Double) -> Double,
        M: Fn(Double, Double) -> Double,
    >(
        &mut self,
        state: &mut SchedulerState,
        quota: usize,
        within: &F,
        normalize: &N,
        draw: &G,
        kde: &LogKde<D, M>,
        rng: &mut StdRand,
    ) -> (r: Option<Vec<Double>>)
        requires
            askable(*within),
            normalizing(*normalize),
            drawable(*draw),
            log_estimable(*kde),
            old(self).state@.lock_best || old(self).decidable(quota as nat, *draw, *kde) || forall|
                n: int,
            |
                #![trigger left_over(old(state)@.globals.v_candidates, n)]
                passed_over(
                    *within,
                    tried(old(self).state@.trials),
                    old(state)@.globals.v_candidates,
                    n,
                ) ==> !taken_form(*normalize, old(state)@.globals.v_candidates, n, None),
        ensures
            final(self).params == old(self).params,
            old(self).state@.lock_best ==> r is None && final(self).state@ == old(self).state@
                && final(state)@ == old(state)@,
            !old(self).state@.lock_best ==> next_suggested(
                *within,
                *normalize,
                *draw,
                *kde,
                old(self).state@,
                split_of(
                    old(self).state@.trials,
                    old(self).params.trials_threshold as nat,
                    quota as nat,
                ),
                old(self).params.bw,
                old(state)@.globals.v_candidates,
                form_of(r),
                final(self).state@,
                final(state)@.globals.v_candidates,
            ),
            old(state)@.globals.v_candidates.len() == 0 && rewarded_count(
                old(self).state@.trials,
                old(self).state@.trials.len(),
            ) < old(self).params.trials_threshold ==> r is None && final(self).state@ == old(
                self,
            ).state@,
            final(state)@ == with_pool(old(state)@, final(state)@.globals.v_candidates),
    {
        if self.state.lock_best {
            return None;
        }
        match self.next_untried_from_pool(state, within, normalize) {
            Some(v) => {
                return Some(v);
            },
            None => {},
        }
        let good: Vec<Vec<Double>> = match self.split_good_bad(quota) {
            Some(p) => p.0,
            None => {
                return None;
            },
        };
        match sample_one_from_kde(&good, self.params.bw, draw, rng) {
            Some(candidate) => self.judge_draw(quota, candidate, kde),
            None => None,
        }
    }

    /// How many good trials are asked for: what `share` makes of the number of rewarded trials and
    /// the share that counts as good.
    pub fn good_quota<Q: Fn(usize, Double) -> usize>(&self, share: &Q) -> (r: usize)
        requires
            forall|n: usize, gamma: Double| #[trigger] call_requires(*share, (n, gamma)),
        ensures
            exists|n: usize|
                n == rewarded_count(self.state@.trials, self.state@.trials.len())
                    && #[trigger] call_ensures(*share, (n, self.params.gamma), r),
    {
        let n: usize = self.count_rewarded();
        assert(call_requires(*share, (n, self.params.gamma)));
        share(n, self.params.gamma)
    }

    /// Takes a drawn vector or settles: where the good vectors make it no likelier than the others,
    /// the search settles on the best vector.
    pub fn judge_draw<
        D: Fn(&Vec<Double>, &Vec<Vec<Double>>, Double) -> Double,
        M: Fn(Double, Double) -> Double,
    >(&mut self, quota: usize, candidate: Vec<Double>, kde: &LogKde<D, M>) -> (r: Option<
        Vec<Double>,
    >)
        requires
            log_estimable(*kde),
            old(self).params.trials_threshold > 0 || rewarded_count(
                old(self).state@.trials,
                old(self).state@.trials.len(),
            ) > 0,
            comparable(old(self).state@.trials) || match split_of(
                old(self).state@.trials,
                old(self).params.trials_threshold as nat,
                quota as nat,
            ) {
                Some(p) => always_gains(*kde, p.0, p.1, candidate@, old(self).params.bw),
                None => true,
            },
        ensures
            final(self).params == old(self).params,
            match split_of(
                old(self).state@.trials,
                old(self).params.trials_threshold as nat,
                quota as nat,
            ) {
                Some(p) => taken_or_settled(
                    *kde,
                    p.0,
                    p.1,
                    candidate@,
                    old(self).params.bw,
                    old(self).state@,
                    r is Some,
                    final(self).state@,
                ),
                None => r is None && final(self).state@ == old(self).state@,
            },
            r is Some ==> r == Some(candidate),
    {
        let (good, bad): (Vec<Vec<Double>>, Vec<Vec<Double>>) = match self.split_good_bad(quota) {
            Some(p) => p,
            None => {
                return None;
            },
        };
        let bw: Double = self.params.bw;
        assert(call_requires(kde.log_pdf, (&candidate, &good, bw)));
        assert(call_requires(kde.log_pdf, (&candidate, &bad, bw)));
        let log_l: Double = (kde.log_pdf)(&candidate, &good, bw);
        let log_g: Double = (kde.log_pdf)(&candidate, &bad, bw);
        assert(log_estimated(kde.log_pdf, candidate@, rows(good@), bw, log_l));
        assert(log_estimated(kde.log_pdf, candidate@, rows(bad@), bw, log_g));
        assert(call_requires(kde.minus, (log_l, log_g)));
        let gain: Double = (kde.minus)(log_l, log_g);
        assert(gained(*kde, rows(good@), rows(bad@), candidate@, bw, gain));
        if gain.le(Double::zero()) {
            self.lock_best();
            None
        } else {
            Some(candidate)
        }
    }

    /// How many vectors are drawn when `count` are asked for: at least one.
    pub open spec fn draws(count: usize) -> nat {
        if count == 0 {
            1
        } else {
            count as nat
        }
    }

    /// How many vectors are drawn when `count` are asked for: at least one.
    pub fn draw_count(count: usize) -> (r: usize)
        ensures
            r == Self::draws(count),
    {
        if count == 0 {
            1
        } else {
            count
        }
    }

    /// The vector around which the first candidates are drawn. `floor` is what counts as negligible,
    /// and `share` gives the share of each of so many features where all are alike. With the vector
    /// goes whether the credits of the exploring phase tell the features apart.
    pub fn prior_center<
        A: Fn(Double, Double) -> Double,
        N: Fn(&Vec<Double>) -> Option<Vec<Double>>,
        E: Fn(usize) -> Double,
    >(
        state: &SchedulerState,
        floor: Double,
        plus: &A,
        normalize: &N,
        share: &E,
    ) -> (r: Option<(Vec<Double>, bool)>)
        requires
            summable(*plus),
            normalizing(*normalize),
            forall|n: usize| #[trigger] call_requires(*share, (n,)),
        ensures
            exists|total: Double, form: Option<Seq<Double>>|
                centered(*plus, *normalize, *share, state@, floor, total, form, center_of(r)),
    {
        let dim: usize = super::get_active_dim(state);
        if dim == 0 {
            assert(centered(
                *plus,
                *normalize,
                *share,
                state@,
                floor,
                floor,
                None,
                None,
            ));
            return None;
        }
        let credits: Vec<Double> = match &state.explore_credits {
            Some(c) => copy_numbers(&c.credits),
            None => Vec::new(),
        };
        assert(credits@ =~= credits_of(state@));
        let total: Double = sum_up(&positive_ones(&credits), plus);
        if credits.len() == dim && floor.lt(total) {
            let f: Option<Vec<Double>> = form(&credits, normalize);
            let ghost shape = form_of(f);
            let out: Vec<Double> = match f {
                Some(v) => v,
                None => even_weights(dim, share),
            };
            assert(centered(
                *plus,
                *normalize,
                *share,
                state@,
                floor,
                total,
                shape,
                Some((out@, true)),
            ));
            Some((out, true))
        } else {
            let out: Vec<Double> = even_weights(dim, share);
            assert(centered(
                *plus,
                *normalize,
                *share,
                state@,
                floor,
                total,
                None,
                Some((out@, false)),
            ));
            Some((out, false))
        }
    }

    /// Draws vectors around a center, `count` but at least one, and adds them to those that wait.
    pub fn enqueue_samples_around<
        F: Fn(Double, Double, Double) -> bool,
        G: Fn(&Vec<Double>, Double) -> Vec<Double>,
    >(
        &self,
        state: &mut SchedulerState,
        center: &Vec<Double>,
        count: usize,
        draw: &G,
        within: &F,
    )
        requires
            askable(*within),
            drawable(*draw),
        ensures
            enqueued(
                *within,
                *draw,
                center@,
                self.params.bw,
                Self::draws(count),
                old(state)@.globals.v_candidates,
                final(state)@.globals.v_candidates,
            ),
            final(state)@ == with_pool(old(state)@, final(state)@.globals.v_candidates),
    {
        let n: usize = Self::draw_count(count);
        let bw: Double = self.params.bw;
        let mut samples: Vec<Vec<Double>> = Vec::new();
        let mut i: usize = 0;
        while i < n
            invariant
                drawable(*draw),
                i <= n,
                samples@.len() == i,
                drawn_all(*draw, center@, bw, rows(samples@)),
            decreases n - i,
        {
            let ghost before = samples@;
            let v: Vec<Double> = draw_one(draw, center, bw);
            samples.push(v);
            assert(rows(samples@) =~= rows(before).push(v@));
            i = i + 1;
        }
        queue_all(state, &samples, within);
        assert(rows(samples@).len() == n);
    }

    /// Adds the first candidates to those that wait, drawn around their center, as many as the
    /// parameters ask for. Says whether the credits of the exploring phase tell the features apart;
    /// with no active feature nothing happens.
    pub fn enqueue_prior_candidates_from_credits<
        F: Fn(Double, Double, Double) -> bool,
        G: Fn(&Vec<Double>, Double) -> Vec<Double>,
        A: Fn(Double, Double) -> Double,
        N: Fn(&Vec<Double>) -> Option<Vec<Double>>,
        E: Fn(usize) -> Double,
    >(
        &self,
        state: &mut SchedulerState,
        floor: Double,
        plus: &A,
        normalize: &N,
        share: &E,
        draw: &G,
        within: &F,
    ) -> (r: Option<bool>)
        requires
            askable(*within),
            drawable(*draw),
            summable(*plus),
            normalizing(*normalize),
            forall|n: usize| #[trigger] call_requires(*share, (n,)),
        ensures
            r is None <==> old(state)@.globals.feature_dim == 0,
            r is None ==> final(state)@ == old(state)@,
            r is Some ==> prior_enqueued(
                *within,
                *draw,
                *plus,
                *normalize,
                *share,
                old(state)@,
                floor,
                self.params.bw,
                Self::draws(self.params.samples),
                r->0,
                final(state)@.globals.v_candidates,
            ),
            final(state)@ == with_pool(old(state)@, final(state)@.globals.v_candidates),
    {
        match Self::prior_center(state, floor, plus, normalize, share) {
            Some(p) => {
                self.enqueue_samples_around(state, &p.0, self.params.samples, draw, within);
                Some(p.1)
            },
            None => None,
        }
    }

    /// Starts a settled search anew, with vectors drawn around the inverse of the best one, as many
    /// as the parameters ask for. Without a best vector nothing happens.
    pub fn enqueue_inverse_candidates<
        F: Fn(Double, Double, Double) -> bool,
        G: Fn(&Vec<Double>, Double) -> Vec<Double>,
        V: Fn(&Vec<Double>) -> Vec<Double>,
    >(&mut self, state: &mut SchedulerState, invert: &V, draw: &G, within: &F)
        requires
            askable(*within),
            drawable(*draw),
            forall|z: &Vec<Double>| #[trigger] call_requires(*invert, (z,)),
            old(self).state@.best_fixed.len() > 0 || comparable(old(self).state@.trials),
        ensures
            final(self).params == old(self).params,
            match Self::best(old(self).state@) {
                Some(best) => final(self).state@ == (SearchView {
                    lock_best: false,
                    ..old(self).state@
                }) && inverse_enqueued(
                    *within,
                    *draw,
                    *invert,
                    best,
                    old(self).params.bw,
                    Self::draws(old(self).params.samples),
                    old(state)@.globals.v_candidates,
                    final(state)@.globals.v_candidates,
                ),
                None => final(self).state@ == old(self).state@ && final(state)@ == old(state)@,
            },
            final(state)@ == with_pool(old(state)@, final(state)@.globals.v_candidates),
    {
        match self.best_vec() {
            Some(best) => {
                assert(call_requires(*invert, (&best,)));
                let center: Vec<Double> = invert(&best);
                assert(call_ensures(*invert, (&best,), center));
                self.enqueue_samples_around(state, &center, self.params.samples, draw, within);
                self.unlock();
            },
            None => {},
        }
    }
}

/// The center at a place.
pub fn center_at(centers: &Vec<Vec<Double>>, i: usize) -> (r: Vec<Double>)
    requires
        i < centers@.len(),
    ensures
        r@ == rows(centers@)[i as int],
{
    assert(rows(centers@)[i as int] == centers@[i as int]@);
    copy_numbers(&centers[i])
}

/// A vector that is drawn around one of the centers, picked at random.
pub fn sample_one_from_kde<G: Fn(&Vec<Double>, Double) -> Vec<Double>>(
    centers: &Vec<Vec<Double>>,
    bw: Double,
    draw: &G,
    rng: &mut StdRand,
) -> (r: Option<Vec<Double>>)
    requires
        drawable(*draw),
    ensures
        r is None <==> centers@.len() == 0,
        r is Some ==> drawn_from(*draw, rows(centers@), bw, (r->0)@),
{
    if centers.len() == 0 {
        return None;
    }
    let i: usize = draw_below(rng, centers.len());
    let center: Vec<Double> = center_at(centers, i);
    Some(draw_one(draw, &center, bw))
}

/// The line that shows one trial, given its numbers as text.
pub open spec fn trial_line(
    i: nat,
    iteration: u64,
    reward: Seq<char>,
    numbers: Seq<Seq<char>>,
) -> Seq<char> {
    "[tpe-trial #"@ + decimal(i) + "] iteration="@ + decimal(iteration as nat)
        + " reward=ΔEdges="@ + reward + " simplex=["@ + join(numbers, ","@) + "] len="@
        + decimal(numbers.len()) + "\n"@
}

/// The lines that show the first `n` trials, by the numbers of the trials.
pub open spec fn trial_lines(
    iterations: Seq<u64>,
    rewards: Seq<Seq<char>>,
    numbers: Seq<Seq<Seq<char>>>,
    n: nat,
) -> Seq<char>
    decreases n,
{
    if n == 0 {
        "[tpe-trials] count="@ + decimal(iterations.len()) + "\n"@
    } else {
        trial_lines(iterations, rewards, numbers, (n - 1) as nat) + trial_line(
            (n - 1) as nat,
            iterations[n - 1],
            rewards[n - 1],
            numbers[n - 1],
        )
    }
}

/// Lists of texts.
pub open spec fn text_rows(v: Seq<Vec<String>>) -> Seq<Seq<Seq<char>>> {
    v.map_values(|r: Vec<String>| texts(r@))
}

/// A history as text, one line for each trial.
pub fn trials_text(iterations: &Vec<u64>, rewards: &Vec<String>, numbers: &Vec<Vec<String>>) -> (r:
    String)
    requires
        rewards@.len() == iterations@.len(),
        numbers@.len() == iterations@.len(),
    ensures
        r@ == trial_lines(
            iterations@,
            texts(rewards@),
            text_rows(numbers@),
            iterations@.len(),
        ),
{
    let ghost rs = texts(rewards@);
    let ghost ns = text_rows(numbers@);
    let n: usize = iterations.len();
    let mut out: String = "[tpe-trials] count=".to_owned();
    out.append(decimal_text(n as u64).as_str());
    out.append("\n");
    let mut i: usize = 0;
    while i < n
        invariant
            i <= n,
            n == iterations@.len(),
            n == rewards@.len(),
            n == numbers@.len(),
            rs == texts(rewards@),
            ns == text_rows(numbers@),
            out@ == trial_lines(iterations@, rs, ns, i as nat),
        decreases n - i,
    {
        assert(rs[i as int] == rewards@[i as int]@);
        assert(ns[i as int] == texts(numbers@[i as int]@));
        let mut line: String = "[tpe-trial #".to_owned();
        line.append(decimal_text(i as u64).as_str());
        line.append("] iteration=");
        line.append(decimal_text(iterations[i]).as_str());
        line.append(" reward=ΔEdges=");
        line.append(rewards[i].as_str());
        line.append(" simplex=[");
        line.append(join_text(&numbers[i], ",").as_str());
        line.append("] len=");
        line.append(decimal_text(numbers[i].len() as u64).as_str());
        line.append("\n");
        assert(line@ =~= trial_line(
            i as nat,
            iterations@[i as int],
            rs[i as int],
            ns[i as int],
        ));
        out.append(line.as_str());
        i = i + 1;
    }
    out
}

impl TpeOptimizer {
    /// The history as text, one line for each trial. The caller gives the rewards and the numbers
    /// of the vectors as text.
    pub fn snapshot_trials_text(&self, rewards: &Vec<String>, numbers: &Vec<Vec<String>>) -> (r:
        String)
        requires
            rewards@.len() == self.state@.trials.len(),
            numbers@.len() == self.state@.trials.len(),
        ensures
            r@ == trial_lines(
                self.state@.trials.map_values(|t: TrialView| t.iteration),
                texts(rewards@),
                text_rows(numbers@),
                self.state@.trials.len(),
            ),
    {
        let mut iterations: Vec<u64> = Vec::new();
        let mut i: usize = 0;
        while i < self.state.trials.len()
            invariant
                i <= self.state.trials@.len(),
                iterations@.len() == i,
                forall|k: int|
                    0 <= k < i ==> iterations@[k] == (#[trigger] self.state.trials@[k]).iteration,
            decreases self.state.trials@.len() - i,
        {
            iterations.push(self.state.trials[i].iteration);
            i = i + 1;
        }
        assert(iterations@ =~= self.state@.trials.map_values(|t: TrialView| t.iteration));
        trials_text(&iterations, rewards, numbers)
    }
}

/// The places of the rewarded trials are as many as are counted.
proof fn places_are_counted(ts: Seq<TrialView>, places: Set<int>)
    requires
        forall|i: int| #[trigger]
            places.contains(i) <==> 0 <= i < ts.len() && (Double { bits: 0 }).below(ts[i].reward),
    ensures
        places.finite(),
        places.len() == rewarded_count(ts, ts.len()),
{
    count_rewarded_places(ts, ts.len());
    assert(places =~= rewarded_places(ts, ts.len()));
}

/// Where fewer trials than the threshold earned anything, there is no split.
pub proof fn no_split_below_threshold(
    ts: Seq<TrialView>,
    places: Set<int>,
    threshold: nat,
    quota: nat,
)
    requires
        forall|i: int| #[trigger]
            places.contains(i) <==> 0 <= i < ts.len() && (Double { bits: 0 }).below(ts[i].reward),
    ensures
        places.finite(),
        places.len() == rewarded_count(ts, ts.len()),
        places.len() < threshold ==> split_of(ts, threshold, quota) is None,
        rewarded_count(ts, ts.len()) < threshold ==> split_of(ts, threshold, quota) is None,
{
    places_are_counted(ts, places);
}

/// Where at least as many trials as the threshold earned something, there is a split, unless every
/// trial would be among the good ones.
pub proof fn split_above_threshold(
    ts: Seq<TrialView>,
    places: Set<int>,
    threshold: nat,
    quota: nat,
)
    requires
        forall|i: int| #[trigger]
            places.contains(i) <==> 0 <= i < ts.len() && (Double { bits: 0 }).below(ts[i].reward),
        forall|i: int, j: int|
            0 <= i < j < ts.len() ==> (#[trigger] ts[i]).iteration != (#[trigger] ts[j]).iteration,
        forall|i: int| 0 <= i < ts.len() ==> !(#[trigger] ts[i]).reward.nan(),
        places.len() > 0,
        places.len() >= threshold,
    ensures
        split_of(ts, threshold, quota) is None <==> places.len() == ts.len() && (quota >= ts.len()
            || ts.len() == 1),
{
    places_are_counted(ts, places);
    split_takes_the_best(ts, threshold, quota);
    split_is_complete(ts, quota_within(quota, places.len()), ts.len());
    let all = Set::new(|i: int| 0 <= i < ts.len());
    vstd::set_lib::lemma_int_range(0, ts.len() as int);
    assert(all =~= vstd::set_lib::set_int_range(0, ts.len() as int));
    vstd::set_lib::lemma_len_subset(places, all);
}

/// The vectors of the first `n` trials that stand at the given places, in the order of the trials.
pub open spec fn vectors_at(ts: Seq<TrialView>, places: Set<int>, n: nat) -> Seq<Seq<Double>>
    decreases n,
{
    if n == 0 {
        Seq::empty()
    } else if places.contains(n - 1) {
        vectors_at(ts, places, (n - 1) as nat).push(ts[n - 1].vector)
    } else {
        vectors_at(ts, places, (n - 1) as nat)
    }
}

/// The split lists the vectors of the trials by whether they are good.
proof fn split_by_place(ts: Seq<TrialView>, k: nat, good: bool, places: Set<int>, n: nat)
    requires
        n <= ts.len(),
        forall|i: int| 0 <= i < ts.len() ==> #[trigger] places.contains(i) == (good_trial(ts, i, k)
            == good),
    ensures
        vectors_where(ts, k, good, n) == vectors_at(ts, places, n),
    decreases n,
{
    if n > 0 {
        split_by_place(ts, k, good, places, (n - 1) as nat);
        assert(places.contains(n - 1) == (good_trial(ts, n - 1, k) == good));
    }
}

/// The good side of a split holds the vectors of the trials that earned most, as many as the quota
/// says and at least one, each of which earned something; of two that earned the same the earlier one
/// comes first. The other side holds the vectors of all other trials. Both keep the order of the
/// trials.
pub proof fn split_ranks_the_trials(
    ts: Seq<TrialView>,
    places: Set<int>,
    threshold: nat,
    quota: nat,
) -> (good: Set<int>)
    requires
        forall|i: int| #[trigger]
            places.contains(i) <==> 0 <= i < ts.len() && (Double { bits: 0 }).below(ts[i].reward),
        forall|i: int, j: int|
            0 <= i < j < ts.len() ==> (#[trigger] ts[i]).iteration != (#[trigger] ts[j]).iteration,
        forall|i: int| 0 <= i < ts.len() ==> !(#[trigger] ts[i]).reward.nan(),
        split_of(ts, threshold, quota) is Some,
    ensures
        good.subset_of(places),
        quota == 0 ==> good.len() == 1,
        1 <= quota <= places.len() ==> good.len() == quota,
        quota > places.len() ==> good == places,
        forall|i: int, j: int|
            #![trigger good.contains(i), good.contains(j)]
            good.contains(i) && !good.contains(j) && 0 <= j < ts.len() ==> ts[j].reward.rank()
                < ts[i].reward.rank() || (ts[j].reward.rank() == ts[i].reward.rank() && i < j),
        (split_of(ts, threshold, quota)->0).0 == vectors_at(ts, good, ts.len()),
        (split_of(ts, threshold, quota)->0).1 == vectors_at(ts, good.complement(), ts.len()),
{
    places_are_counted(ts, places);
    let k = quota_within(quota, places.len());
    if places.len() == 0 {
        none_rewarded(ts, ts.len());
        assert forall|i: int| 0 <= i < ts.len() implies !good_trial(ts, i, k) by {}
        count_good_places(ts, k, ts.len());
        assert(good_places(ts, k, ts.len()) =~= Set::empty());
        assert(false);
    }
    split_takes_the_best(ts, threshold, quota);
    let good = good_places(ts, k, ts.len());
    count_good_places(ts, k, ts.len());
    assert(good.subset_of(places));
    if quota > places.len() {
        vstd::set_lib::lemma_subset_equality(good, places);
    }
    split_by_place(ts, k, true, good, ts.len());
    split_by_place(ts, k, false, good.complement(), ts.len());
    assert forall|i: int, j: int|
        #![trigger good.contains(i), good.contains(j)]
        good.contains(i) && !good.contains(j) && 0 <= j < ts.len() implies ts[j].reward.rank()
        < ts[i].reward.rank() || (ts[j].reward.rank() == ts[i].reward.rank() && i < j) by {
        assert(leading_number(ts, ts[i].iteration, k));
        let a = choose|a: int|
            0 <= a < ts.len() && #[trigger] leads(ts, a, k) && ts[a].iteration == ts[i].iteration;
        assert(a == i);
        if rewarded(ts[j]) {
            assert(!leads(ts, j, k)) by {
                if leads(ts, j, k) {
                    assert(leading_number(ts, ts[j].iteration, k));
                }
            }
            if outranks(ts, j, i) {
                ranks_differ(ts, j, i);
            }
        }
    }
    good
}

/// With nothing to take from the pool, and fewer trials than the threshold that earned anything, the
/// search suggests nothing and stays as it is; the pool is empty from then on.
pub proof fn search_waits_below_threshold<
    F: Fn(Double, Double, Double) -> bool,
    N: Fn(&Vec<Double>) -> Option<Vec<Double>>,
    G: Fn(&Vec<Double>, Double) -> Vec<Double>,
    D: Fn(&Vec<Double>, &Vec<Vec<Double>>, Double) -> Double,
    M: Fn(Double, Double) -> Double,
>(
    within: F,
    normalize: N,
    draw: G,
    kde: LogKde<D, M>,
    s: SearchView,
    places: Set<int>,
    threshold: nat,
    quota: nat,
    bw: Double,
    hist: Seq<Seq<Double>>,
    pool: Seq<Seq<Double>>,
    r: Option<Seq<Double>>,
    after: SearchView,
    left: Seq<Seq<Double>>,
)
    requires
        steady(within),
        forall|i: int| #[trigger]
            places.contains(i) <==> 0 <= i < s.trials.len() && (Double { bits: 0 }).below(
                s.trials[i].reward,
            ),
        places.len() < threshold,
        hist.len() == s.trials.len(),
        forall|i: int| 0 <= i < hist.len() ==> #[trigger] hist[i] == s.trials[i].vector,
        forall|i: int|
            0 <= i < pool.len() ==> found_among(
                within,
                hist,
                #[trigger] pool[i],
                Double { bits: CANDIDATE_EPS_BITS },
            ),
        next_suggested(
            within,
            normalize,
            draw,
            kde,
            s,
            split_of(s.trials, threshold, quota),
            bw,
            pool,
            r,
            after,
            left,
        ),
    ensures
        r is None,
        after == s,
        left.len() == 0,
{
    no_split_below_threshold(s.trials, places, threshold, quota);
    assert(hist =~= tried(s.trials));
    let (m, form) = choose|n: int, form: Option<Seq<Double>>|
        {
            &&& #[trigger] passed_over(within, tried(s.trials), pool, n)
            &&& left == left_over(pool, n)
            &&& #[trigger] taken_form(normalize, pool, n, form)
            &&& match form {
                Some(v) => r == Some(v) && after == s,
                None => r is None && after == s,
            }
        };
    if m < pool.len() {
        super::vectors::among_or_nowhere(
            within,
            hist,
            pool[m],
            Double { bits: CANDIDATE_EPS_BITS },
        );
    }
}

/// The first vector of the pool that is not among the tried ones is suggested, in the form that it is
/// given. Those before it leave the pool, those behind it stay, and the search does not change.
pub proof fn untried_vectors_come_first<
    F: Fn(Double, Double, Double) -> bool,
    N: Fn(&Vec<Double>) -> Option<Vec<Double>>,
    G: Fn(&Vec<Double>, Double) -> Vec<Double>,
    D: Fn(&Vec<Double>, &Vec<Vec<Double>>, Double) -> Double,
    M: Fn(Double, Double) -> Double,
>(
    within: F,
    normalize: N,
    draw: G,
    kde: LogKde<D, M>,
    s: SearchView,
    split: Option<(Seq<Seq<Double>>, Seq<Seq<Double>>)>,
    bw: Double,
    hist: Seq<Seq<Double>>,
    before: Seq<Seq<Double>>,
    v: Seq<Double>,
    behind: Seq<Seq<Double>>,
    form: Seq<Double>,
    r: Option<Seq<Double>>,
    after: SearchView,
    left: Seq<Seq<Double>>,
)
    requires
        steady(within),
        hist.len() == s.trials.len(),
        forall|i: int| 0 <= i < hist.len() ==> #[trigger] hist[i] == s.trials[i].vector,
        forall|i: int|
            0 <= i < before.len() ==> found_among(
                within,
                hist,
                #[trigger] before[i],
                Double { bits: CANDIDATE_EPS_BITS },
            ),
        found_nowhere(within, hist, v, Double { bits: CANDIDATE_EPS_BITS }),
        forall|z: &Vec<Double>, o: Option<Vec<Double>>|
            z@ == v && #[trigger] call_ensures(normalize, (z,), o) ==> o is Some && (o->0)@ == form,
        next_suggested(
            within,
            normalize,
            draw,
            kde,
            s,
            split,
            bw,
            before + seq![v] + behind,
            r,
            after,
            left,
        ),
    ensures
        r == Some(form),
        after == s,
        left == behind,
{
    let pool = before + seq![v] + behind;
    let eps = Double { bits: CANDIDATE_EPS_BITS };
    assert(hist =~= tried(s.trials));
    assert(pool[before.len() as int] == v);
    let (n, f) = choose|n: int, form: Option<Seq<Double>>|
        {
            &&& #[trigger] passed_over(within, tried(s.trials), pool, n)
            &&& left == left_over(pool, n)
            &&& #[trigger] taken_form(normalize, pool, n, form)
            &&& match form {
                Some(v) => r == Some(v) && after == s,
                None => match split {
                    Some(p) => next_drawn(draw, kde, s, p.0, p.1, bw, r, after),
                    None => r is None && after == s,
                },
            }
        };
    assert(passed_over(within, tried(s.trials), pool, n));
    if n < before.len() {
        assert(pool[n] == before[n]);
        super::vectors::among_or_nowhere(within, hist, pool[n], eps);
    }
    if n > before.len() {
        assert(found_among(within, hist, pool[before.len() as int], eps));
        super::vectors::among_or_nowhere(within, hist, v, eps);
    }
    assert(n == before.len());
    assert(formed(normalize, v, f));
    assert(left =~= behind);
}

/// Settling takes the vector of the trial that earned most, the latest of those, or the last vector
/// where nothing was tried. It keeps all trials and the last vector.
pub proof fn settling_takes_the_best(s: SearchView)
    requires
        comparable(s.trials),
    ensures
        ({
            let t = locked(s);
            &&& t.lock_best
            &&& t.trials == s.trials
            &&& t.last_vec == s.last_vec
            &&& t.restored_once == s.restored_once
            &&& s.trials.len() > 0 ==> exists|b: int|
                {
                    &&& 0 <= b < s.trials.len()
                    &&& t.best_fixed == (#[trigger] s.trials[b]).vector
                    &&& forall|i: int|
                        0 <= i < s.trials.len() ==> (#[trigger] s.trials[i]).reward.rank()
                            <= s.trials[b].reward.rank()
                    &&& forall|i: int|
                        b < i < s.trials.len() ==> (#[trigger] s.trials[i]).reward.rank()
                            < s.trials[b].reward.rank()
                }
            &&& s.trials.len() == 0 && s.last_vec.len() > 0 ==> t.best_fixed == s.last_vec
            &&& s.trials.len() == 0 && s.last_vec.len() == 0 ==> t.best_fixed == s.best_fixed
        }),
{
    if s.trials.len() > 0 {
        best_place_is_best(s.trials);
        assert(locked(s).best_fixed == s.trials[best_place(s.trials)].vector);
    }
}

/// The best vector is the one that the search settled on. Before that it is that of the trial that
/// earned most, and there is none before the first trial.
pub proof fn best_is_settled_or_earned(s: SearchView)
    requires
        comparable(s.trials),
    ensures
        s.best_fixed.len() > 0 ==> TpeOptimizer::best(s) == Some(s.best_fixed),
        s.best_fixed.len() == 0 && s.trials.len() == 0 ==> TpeOptimizer::best(s) is None,
        s.best_fixed.len() == 0 && s.trials.len() > 0 ==> TpeOptimizer::best(s) == Some(
            locked(s).best_fixed,
        ),
{
}

/// A trial that is observed again keeps its number, its vector and its beginning. Its reward only
/// rises, its end is that of the better observation, and no other trial changes.
pub proof fn repeated_trials_keep_the_better(s: SearchView, reward: Double, end_ms: u64)
    requires
        s.trials.len() > 0,
    ensures
        ({
            let t = with_better_reward(s, reward, end_ms);
            let old_last = s.trials.last();
            let new_last = t.trials.last();
            &&& t.trials.len() == s.trials.len()
            &&& t.trials.drop_last() == s.trials.drop_last()
            &&& new_last.iteration == old_last.iteration
            &&& new_last.vector == old_last.vector
            &&& new_last.active_start_ms == old_last.active_start_ms
            &&& old_last.reward.below(reward) ==> new_last.reward == reward
                && new_last.active_end_ms == end_ms
            &&& !old_last.reward.below(reward) ==> new_last == old_last
            &&& t == (SearchView { trials: t.trials, ..s })
        }),
{
    let t = with_better_reward(s, reward, end_ms);
    assert(t.trials.drop_last() =~= s.trials.drop_last());
}

/// What is kept of a list is its end, in order, and as much of it as fits.
pub proof fn the_latest_are_kept<T>(s: Seq<T>, n: nat)
    ensures
        s.len() <= n ==> last_of(s, n) == s,
        s.len() > n ==> last_of(s, n).len() == n,
        s.len() > n ==> forall|i: int|
            0 <= i < n ==> #[trigger] last_of(s, n)[i] == s[s.len() - n + i],
{
}

/// A trial that is recorded comes last. Of 1024 trials the first one leaves for it, of fewer none,
/// and nothing else changes.
pub proof fn recorded_trials_come_last(s: SearchView, t: TrialView)
    ensures
        s.trials.len() < 1024 ==> with_trial(s, t).trials == s.trials.push(t),
        s.trials.len() == 1024 ==> with_trial(s, t).trials == s.trials.skip(1).push(t),
        with_trial(s, t) == (SearchView { trials: with_trial(s, t).trials, ..s }),
{
    if s.trials.len() == 1024 {
        assert(with_trial(s, t).trials =~= s.trials.skip(1).push(t));
    }
}

/// An observation under the number of the last trial, or with its vector, is one of that trial: the
/// trials stay as many as they were, and only the reward of the last one can rise. Any other is a trial
/// of its own.
pub proof fn observations_find_their_trial<F: Fn(Double, Double, Double) -> bool>(
    within: F,
    s: SearchView,
    t: TrialView,
    after: SearchView,
)
    requires
        steady(within),
        TpeOptimizer::recorded(s, t, within, after),
        s.trials.len() < 1024,
    ensures
        s.trials.len() == 0 ==> after.trials == seq![t],
        s.trials.len() > 0 && (s.trials.last().iteration == t.iteration || found_same(
            within,
            s.trials.last().vector,
            t.vector,
            Double { bits: TRIAL_EPS_BITS },
        )) ==> after.trials.len() == s.trials.len() && after.trials.drop_last()
            == s.trials.drop_last() && after.trials.last().vector == s.trials.last().vector
            && after.trials.last().reward == if s.trials.last().reward.below(t.reward) {
            t.reward
        } else {
            s.trials.last().reward
        },
        s.trials.len() > 0 && s.trials.last().iteration != t.iteration && found_other(
            within,
            s.trials.last().vector,
            t.vector,
            Double { bits: TRIAL_EPS_BITS },
        ) ==> after.trials == s.trials.push(t),
        after == (SearchView { trials: after.trials, ..s }),
{
    if s.trials.len() > 0 {
        repeated_trials_keep_the_better(s, t.reward, t.active_end_ms);
        super::vectors::findings_exclude(
            within,
            s.trials.last().vector,
            t.vector,
            Double { bits: TRIAL_EPS_BITS },
        );
    } else {
        assert(after.trials =~= seq![t]);
    }
}

/// A kept trial whose vector cannot be used is left out when the search is taken up again; any other
/// comes back with its vector, its reward and its time, numbered by its place.
pub proof fn unusable_trials_are_left_out(
    kept: Seq<(Seq<Double>, Double, u64)>,
    x: (Seq<Double>, Double, u64),
    forms: Seq<Option<Seq<Double>>>,
)
    requires
        forms.len() > kept.len(),
        kept.len() <= u64::MAX,
    ensures
        restored_trials(Seq::<(Seq<Double>, Double, u64)>::empty(), forms) == Seq::<
            TrialView,
        >::empty(),
        forms[kept.len() as int] is None ==> restored_trials(kept.push(x), forms)
            == restored_trials(kept, forms),
        forms[kept.len() as int] matches Some(v) ==> ({
            let back = restored_trials(kept.push(x), forms);
            &&& back.drop_last() == restored_trials(kept, forms)
            &&& back.last().iteration == kept.len()
            &&& back.last().vector == v
            &&& back.last().reward == x.1
            &&& back.last().active_start_ms == x.2
            &&& back.last().active_end_ms == x.2
        }),
{
    assert(kept.push(x).drop_last() =~= kept);
    assert(restored_trials(kept.push(x), forms).drop_last() =~= restored_trials(kept, forms)
        || forms[kept.len() as int] is None);
}

/// A search that is kept across a restart is taken up with the same vectors, rewards and times and
/// the same last vector, where every vector is in the form in which it is used. Whether it had settled
/// is not kept. What the history held of corpus and coverage stays.
pub proof fn restart_takes_up_the_search(
    s: SearchView,
    before: Option<HistoryView>,
    now_ms: u64,
    fresh: SearchView,
    forms: Seq<Option<Seq<Double>>>,
)
    requires
        s.trials.len() <= u64::MAX,
        forms.len() == s.trials.len(),
        forall|i: int| 0 <= i < forms.len() ==> #[trigger] forms[i] == Some(s.trials[i].vector),
    ensures
        ({
            let h = TpeOptimizer::persisted(s, before, now_ms);
            let t = TpeOptimizer::restored(fresh, h, forms, Some(s.last_vec));
            &&& h.max_trials == 1024
            &&& h.last_vec == s.last_vec
            &&& h.last_check_ms == Some(now_ms)
            &&& before matches Some(b) ==> h.last_corpus == b.last_corpus && h.last_cov
                == b.last_cov
            &&& before is None ==> h.last_corpus is None && h.last_cov is None
            &&& t.last_vec == s.last_vec
            &&& t.restored_once
            &&& t.lock_best == fresh.lock_best
            &&& t.best_fixed == fresh.best_fixed
            &&& t.trials.len() == s.trials.len()
            &&& forall|i: int|
                0 <= i < s.trials.len() ==> (#[trigger] t.trials[i]).vector == s.trials[i].vector
                    && t.trials[i].reward == s.trials[i].reward && t.trials[i].active_end_ms
                    == s.trials[i].active_end_ms && t.trials[i].iteration == i
        }),
{
    let own = s.trials.map_values(|t: TrialView| Some(t.vector));
    restart_keeps_trials(s.trials);
    restored_by_first(keep_trials(s.trials), forms, own);
}

/// A vector takes the form that normalizing gives it, and has none where normalizing gives none.
pub proof fn forms_are_normalized<N: Fn(&Vec<Double>) -> Option<Vec<Double>>>(
    normalize: N,
    v: Seq<Double>,
    form: Option<Seq<Double>>,
    expected: Option<Seq<Double>>,
)
    requires
        formed(normalize, v, form),
        forall|z: &Vec<Double>, o: Option<Vec<Double>>|
            z@ == v && #[trigger] call_ensures(normalize, (z,), o) ==> match expected {
                Some(w) => o is Some && (o->0)@ == w,
                None => o is None,
            },
    ensures
        form == expected,
{
}

/// A drawn vector is taken exactly where it gains, that is where the difference of its logarithmic
/// likelihoods around the good vectors and around the others is not 0 or less. Taking it changes
/// nothing; else the search settles, which keeps the trials.
pub proof fn draws_are_taken_where_they_gain<
    D: Fn(&Vec<Double>, &Vec<Vec<Double>>, Double) -> Double,
    M: Fn(Double, Double) -> Double,
>(
    kde: LogKde<D, M>,
    good: Seq<Seq<Double>>,
    bad: Seq<Seq<Double>>,
    v: Seq<Double>,
    bw: Double,
    l: Double,
    g: Double,
    gain: Double,
    s: SearchView,
    taken: bool,
    after: SearchView,
)
    requires
        taken_or_settled(kde, good, bad, v, bw, s, taken, after),
        forall|z: &Vec<Double>, a: &Vec<Vec<Double>>, x: Double|
            z@ == v && rows(a@) == good && #[trigger] call_ensures(kde.log_pdf, (z, a, bw), x) ==> x
                == l,
        forall|z: &Vec<Double>, a: &Vec<Vec<Double>>, x: Double|
            z@ == v && rows(a@) == bad && #[trigger] call_ensures(kde.log_pdf, (z, a, bw), x) ==> x
                == g,
        forall|x: Double| #[trigger] call_ensures(kde.minus, (l, g), x) ==> x == gain,
    ensures
        gain.at_most(Double { bits: 0 }) ==> !taken && after.lock_best && after.trials == s.trials,
        !gain.at_most(Double { bits: 0 }) ==> taken && after == s,
        gain.at_most(Double { bits: 0 }) && s.trials.len() > 0 && comparable(s.trials) ==> exists|
            b: int,
        |
            0 <= b < s.trials.len() && after.best_fixed == (#[trigger] s.trials[b]).vector
                && forall|i: int|
                0 <= i < s.trials.len() ==> (#[trigger] s.trials[i]).reward.rank()
                    <= s.trials[b].reward.rank(),
{
    if comparable(s.trials) {
        settling_takes_the_best(s);
    }
    let x = choose|x: Double|
        {
            &&& #[trigger] gained(kde, good, bad, v, bw, x)
            &&& taken == !x.at_most(Double { bits: 0 })
            &&& after == if taken {
                s
            } else {
                locked(s)
            }
        };
    let (a, b) = choose|a: Double, b: Double|
        {
            &&& #[trigger] log_estimated(kde.log_pdf, v, good, bw, a)
            &&& #[trigger] log_estimated(kde.log_pdf, v, bad, bw, b)
            &&& call_ensures(kde.minus, (a, b), x)
        };
    assert(a == l && b == g);
    assert(x == gain);
}

/// A vector that is suggested from a split was drawn around one of the good vectors, with the given
/// bandwidth, and then the search does not change.
pub proof fn suggestions_are_drawn_around_good<
    G: Fn(&Vec<Double>, Double) -> Vec<Double>,
    D: Fn(&Vec<Double>, &Vec<Vec<Double>>, Double) -> Double,
    M: Fn(Double, Double) -> Double,
>(
    draw: G,
    kde: LogKde<D, M>,
    s: SearchView,
    good: Seq<Seq<Double>>,
    bad: Seq<Seq<Double>>,
    bw: Double,
    r: Option<Seq<Double>>,
    after: SearchView,
)
    requires
        next_drawn(draw, kde, s, good, bad, bw, r, after),
    ensures
        r is Some ==> after == s && exists|z: &Vec<Double>, out: Vec<Double>|
            good.contains(z@) && Some(out@) == r && #[trigger] call_ensures(draw, (z, bw), out),
        r is None ==> after.lock_best && after.trials == s.trials,
{
    let v = choose|v: Seq<Double>|
        {
            &&& #[trigger] drawn_from(draw, good, bw, v)
            &&& taken_or_settled(kde, good, bad, v, bw, s, r is Some, after)
            &&& r is Some ==> r == Some(v)
        };
    let i = choose|i: int| 0 <= i < good.len() && drawn_one(draw, #[trigger] good[i], bw, v);
    let (z, out) = choose|z: &Vec<Double>, out: Vec<Double>|
        z@ == good[i] && out@ == v && #[trigger] call_ensures(draw, (z, bw), out);
    assert(good.contains(z@));
    assert(call_ensures(draw, (z, bw), out));
}

/// What has been queued up to a step is there, or something that it is the same as.
proof fn queued_so_far<F: Fn(Double, Double, Double) -> bool>(
    within: F,
    pool: Seq<Seq<Double>>,
    vs: Seq<Seq<Double>>,
    out: Seq<Seq<Double>>,
    steps: Seq<Seq<Seq<Double>>>,
    n: nat,
    i: int,
)
    requires
        queue_steps(within, pool, vs, out, steps),
        0 <= i < n <= vs.len(),
    ensures
        steps[n as int].contains(vs[i]) || found_among(
            within,
            steps[n as int],
            vs[i],
            Double { bits: CANDIDATE_EPS_BITS },
        ),
    decreases n,
{
    let m = n - 1;
    let now = steps[n as int];
    let eps = Double { bits: CANDIDATE_EPS_BITS };
    assert(queued_one(within, steps[m], vs[m], now));
    if i == m {
        if now != steps[m] {
            assert(now[steps[m].len() as int] == vs[i]);
        }
    } else {
        queued_so_far(within, pool, vs, out, steps, m as nat, i);
        if steps[m].contains(vs[i]) {
            let j = steps[m].index_of(vs[i]);
            assert(now[j] == vs[i]);
        } else {
            let j = choose|j: int|
                0 <= j < steps[m].len() && found_same(within, #[trigger] steps[m][j], vs[i], eps);
            assert(now[j] == steps[m][j]);
        }
    }
}

/// What is new in the pool at a step was offered, and differs from all before it.
proof fn new_ones_differ<F: Fn(Double, Double, Double) -> bool>(
    within: F,
    pool: Seq<Seq<Double>>,
    vs: Seq<Seq<Double>>,
    out: Seq<Seq<Double>>,
    steps: Seq<Seq<Seq<Double>>>,
    n: nat,
    j: int,
    k: int,
)
    requires
        queue_steps(within, pool, vs, out, steps),
        n <= vs.len(),
        pool.len() <= j < steps[n as int].len(),
        0 <= k < j,
    ensures
        vs.contains(steps[n as int][j]),
        found_other(
            within,
            steps[n as int][k],
            steps[n as int][j],
            Double { bits: CANDIDATE_EPS_BITS },
        ),
    decreases n,
{
    if n > 0 {
        let m = n - 1;
        queue_steps_grow(within, pool, vs, out, steps, m as nat);
        assert(queued_one(within, steps[m], vs[m], steps[n as int]));
        if j < steps[m].len() {
            new_ones_differ(within, pool, vs, out, steps, m as nat, j, k);
        } else {
            assert(steps[n as int][j] == vs[m]);
            assert(steps[n as int][k] == steps[m][k]);
            assert(vs.contains(vs[m]));
        }
    }
}

/// Every vector that is offered to the pool is in it afterwards, or is the same as one that is. What
/// is new in the pool was offered and differs from everything before it.
pub proof fn queueing_takes_what_is_new<F: Fn(Double, Double, Double) -> bool>(
    within: F,
    pool: Seq<Seq<Double>>,
    vs: Seq<Seq<Double>>,
    out: Seq<Seq<Double>>,
)
    requires
        queued(within, pool, vs, out),
    ensures
        pool.len() <= out.len(),
        out.take(pool.len() as int) == pool,
        forall|i: int|
            0 <= i < vs.len() ==> out.contains(#[trigger] vs[i]) || found_among(
                within,
                out,
                vs[i],
                Double { bits: CANDIDATE_EPS_BITS },
            ),
        forall|j: int| pool.len() <= j < out.len() ==> vs.contains(#[trigger] out[j]),
        forall|j: int, k: int|
            pool.len() <= j < out.len() && 0 <= k < j ==> found_other(
                within,
                #[trigger] out[k],
                #[trigger] out[j],
                Double { bits: CANDIDATE_EPS_BITS },
            ),
{
    let steps = choose|steps: Seq<Seq<Seq<Double>>>| queue_steps(within, pool, vs, out, steps);
    queueing_keeps_pool(within, pool, vs, out);
    assert forall|i: int| 0 <= i < vs.len() implies out.contains(#[trigger] vs[i])
        || found_among(within, out, vs[i], Double { bits: CANDIDATE_EPS_BITS }) by {
        queued_so_far(within, pool, vs, out, steps, vs.len(), i);
    }
    assert forall|j: int, k: int| pool.len() <= j < out.len() && 0 <= k < j implies found_other(
        within,
        #[trigger] out[k],
        #[trigger] out[j],
        Double { bits: CANDIDATE_EPS_BITS },
    ) by {
        new_ones_differ(within, pool, vs, out, steps, vs.len(), j, k);
    }
    assert forall|j: int| pool.len() <= j < out.len() implies vs.contains(#[trigger] out[j]) by {
        if j > 0 {
            new_ones_differ(within, pool, vs, out, steps, vs.len(), j, 0);
        } else {
            first_new_one(within, pool, vs, out, steps, vs.len());
        }
    }
}

/// What comes first into an empty pool was offered.
proof fn first_new_one<F: Fn(Double, Double, Double) -> bool>(
    within: F,
    pool: Seq<Seq<Double>>,
    vs: Seq<Seq<Double>>,
    out: Seq<Seq<Double>>,
    steps: Seq<Seq<Seq<Double>>>,
    n: nat,
)
    requires
        queue_steps(within, pool, vs, out, steps),
        n <= vs.len(),
        pool.len() == 0,
        steps[n as int].len() > 0,
    ensures
        vs.contains(steps[n as int][0]),
    decreases n,
{
    if n > 0 {
        let m = n - 1;
        assert(queued_one(within, steps[m], vs[m], steps[n as int]));
        if steps[m].len() > 0 {
            first_new_one(within, pool, vs, out, steps, m as nat);
        } else {
            assert(steps[n as int][0] == vs[m]);
        }
    }
}

/// Vectors that are drawn and queued leave the pool as it was and come behind it, no more of them than
/// are drawn, each one drawn around the center with the given bandwidth.
pub proof fn queued_draws_come_from_the_center<
    F: Fn(Double, Double, Double) -> bool,
    G: Fn(&Vec<Double>, Double) -> Vec<Double>,
>(
    within: F,
    draw: G,
    center: Seq<Double>,
    bw: Double,
    n: nat,
    pool: Seq<Seq<Double>>,
    out: Seq<Seq<Double>>,
    j: int,
)
    requires
        enqueued(within, draw, center, bw, n, pool, out),
        pool.len() <= j < out.len(),
    ensures
        out.take(pool.len() as int) == pool,
        out.len() <= pool.len() + n,
        exists|z: &Vec<Double>, v: Vec<Double>|
            z@ == center && v@ == out[j] && #[trigger] call_ensures(draw, (z, bw), v),
{
    let drawn = choose|drawn: Seq<Seq<Double>>|
        {
            &&& drawn.len() == n
            &&& #[trigger] drawn_all(draw, center, bw, drawn)
            &&& queued(within, pool, drawn, out)
        };
    queueing_takes_what_is_new(within, pool, drawn, out);
    queueing_keeps_pool(within, pool, drawn, out);
    let i = drawn.index_of(out[j]);
    assert(drawn_one(draw, center, bw, drawn[i]));
}

/// Where at least one vector is to be drawn, and every draw gives the same new one, the pool grows by
/// exactly that one.
pub proof fn a_new_draw_is_queued<
    F: Fn(Double, Double, Double) -> bool,
    G: Fn(&Vec<Double>, Double) -> Vec<Double>,
>(
    within: F,
    draw: G,
    center: Seq<Double>,
    bw: Double,
    n: nat,
    v: Seq<Double>,
    pool: Seq<Seq<Double>>,
    out: Seq<Seq<Double>>,
)
    requires
        steady(within),
        enqueued(within, draw, center, bw, n, pool, out),
        n > 0,
        forall|z: &Vec<Double>, w: Vec<Double>|
            z@ == center && #[trigger] call_ensures(draw, (z, bw), w) ==> w@ == v,
        found_nowhere(within, pool, v, Double { bits: CANDIDATE_EPS_BITS }),
        found_same(within, v, v, Double { bits: CANDIDATE_EPS_BITS }),
    ensures
        out == pool.push(v),
{
    let eps = Double { bits: CANDIDATE_EPS_BITS };
    let drawn = choose|drawn: Seq<Seq<Double>>|
        {
            &&& drawn.len() == n
            &&& #[trigger] drawn_all(draw, center, bw, drawn)
            &&& queued(within, pool, drawn, out)
        };
    assert(drawn_one(draw, center, bw, drawn[0]));
    assert(drawn[0] == v);
    queueing_takes_what_is_new(within, pool, drawn, out);
    queueing_keeps_pool(within, pool, drawn, out);
    assert forall|j: int| pool.len() <= j < out.len() implies #[trigger] out[j] == v by {
        let i = drawn.index_of(out[j]);
        assert(drawn_one(draw, center, bw, drawn[i]));
    }
    if out.len() == pool.len() {
        assert(out =~= out.take(pool.len() as int));
        if found_among(within, out, v, eps) {
            super::vectors::among_or_nowhere(within, pool, v, eps);
        } else {
            let j = out.index_of(v);
            assert(found_other(within, pool[j], v, eps));
            super::vectors::findings_exclude(within, v, v, eps);
        }
    }
    if out.len() > pool.len() + 1 {
        assert(found_other(within, out[pool.len() as int], out[pool.len() as int + 1], eps));
        super::vectors::findings_exclude(within, v, v, eps);
    }
    assert(out =~= pool.push(v)) by {
        assert forall|j: int| 0 <= j < pool.len() implies out[j] == pool[j] by {
            assert(pool[j] == out.take(pool.len() as int)[j]);
        }
    }
}

/// At least one vector is drawn, and else as many as are asked for.
pub proof fn at_least_one_is_drawn(count: usize)
    ensures
        TpeOptimizer::draws(0) == 1,
        count > 0 ==> TpeOptimizer::draws(count) == count,
{
}

/// The search begins around the normalized credits, where there is one for each active feature and
/// what was earned adds up to more than the floor.
pub proof fn credits_are_the_center<
    A: Fn(Double, Double) -> Double,
    N: Fn(&Vec<Double>) -> Option<Vec<Double>>,
    E: Fn(usize) -> Double,
>(
    plus: A,
    normalize: N,
    share: E,
    s: StateView,
    floor: Double,
    sum: Double,
    v: Seq<Double>,
    total: Double,
    form: Option<Seq<Double>>,
    out: Option<(Seq<Double>, bool)>,
)
    requires
        centered(plus, normalize, share, s, floor, total, form, out),
        s.globals.feature_dim > 0,
        s.credits matches Some(c) && c.len() == s.globals.feature_dim,
        forall|x: Double| #[trigger] summed(plus, positives(s.credits->0), x) ==> x == sum,
        floor.below(sum),
        forall|z: &Vec<Double>, o: Option<Vec<Double>>|
            z@ == s.credits->0 && #[trigger] call_ensures(normalize, (z,), o) ==> o is Some && (
            o->0)@ == v,
    ensures
        out == Some((v, true)),
{
    assert(total == sum);
    assert(formed(normalize, s.credits->0, form));
}

/// The search begins around even weights where there are no credits, where they are not one for each
/// active feature, and where they add up to no more than the floor. Without active features it has
/// nowhere to begin.
pub proof fn center_is_even_without_credits<
    A: Fn(Double, Double) -> Double,
    N: Fn(&Vec<Double>) -> Option<Vec<Double>>,
    E: Fn(usize) -> Double,
>(
    plus: A,
    normalize: N,
    share: E,
    s: StateView,
    floor: Double,
    w: Double,
    total: Double,
    form: Option<Seq<Double>>,
    out: Option<(Seq<Double>, bool)>,
)
    requires
        centered(plus, normalize, share, s, floor, total, form, out),
        forall|x: Double|
            #[trigger] call_ensures(share, (s.globals.feature_dim,), x) ==> x == w,
        s.credits matches Some(c) ==> c.len() != s.globals.feature_dim || forall|x: Double|
            #[trigger] summed(plus, positives(c), x) ==> !floor.below(x),
    ensures
        s.globals.feature_dim == 0 ==> out is None,
        s.globals.feature_dim > 0 ==> out is Some && !(out->0).1 && (out->0).0.len()
            == s.globals.feature_dim && forall|i: int|
            0 <= i < (out->0).0.len() ==> #[trigger] (out->0).0[i] == w,
{
    if s.globals.feature_dim > 0 {
        assert(evened(share, s.globals.feature_dim, (out->0).0));
    }
}

/// Trying the opposite draws around what inverting gives for the best vector.
pub proof fn inverses_are_drawn_around<
    F: Fn(Double, Double, Double) -> bool,
    G: Fn(&Vec<Double>, Double) -> Vec<Double>,
    V: Fn(&Vec<Double>) -> Vec<Double>,
>(
    within: F,
    draw: G,
    invert: V,
    best: Seq<Double>,
    center: Seq<Double>,
    bw: Double,
    n: nat,
    pool: Seq<Seq<Double>>,
    out: Seq<Seq<Double>>,
    j: int,
)
    requires
        inverse_enqueued(within, draw, invert, best, bw, n, pool, out),
        forall|z: &Vec<Double>, c: Vec<Double>|
            z@ == best && #[trigger] call_ensures(invert, (z,), c) ==> c@ == center,
        pool.len() <= j < out.len(),
    ensures
        out.take(pool.len() as int) == pool,
        out.len() <= pool.len() + n,
        exists|z: &Vec<Double>, v: Vec<Double>|
            z@ == center && v@ == out[j] && #[trigger] call_ensures(draw, (z, bw), v),
{
    let (z, c) = choose|z: &Vec<Double>, c: Vec<Double>|
        {
            &&& z@ == best
            &&& #[trigger] call_ensures(invert, (z,), c)
            &&& enqueued(within, draw, c@, bw, n, pool, out)
        };
    queued_draws_come_from_the_center(within, draw, center, bw, n, pool, out, j);
}

/// The models that the search speaks of hold what they are models of, in its place.
pub proof fn searches_are_modelled(
    trials: Seq<TpeTrial>,
    views: Seq<TrialView>,
    form: Option<Vec<Double>>,
    center: Option<(Vec<Double>, bool)>,
    state: StateView,
    i: int,
)
    ensures
        trial_views(trials).len() == trials.len(),
        0 <= i < trials.len() ==> trial_views(trials)[i] == (TrialView {
            iteration: trials[i].iteration,
            vector: trials[i].vector@,
            reward: trials[i].reward,
            active_start_ms: trials[i].active_start_ms,
            active_end_ms: trials[i].active_end_ms,
        }),
        tried(views).len() == views.len(),
        0 <= i < views.len() ==> tried(views)[i] == views[i].vector,
        form is None <==> form_of(form) is None,
        form matches Some(v) ==> form_of(form) == Some(v@),
        center is None <==> center_of(center) is None,
        center matches Some(p) ==> center_of(center) == Some((p.0@, p.1)),
        state.credits matches Some(c) ==> credits_of(state) == c,
        state.credits is None ==> credits_of(state).len() == 0,
{
}

/// Each trial is shown on a line of its own, in order, behind a line that tells how many there are.
pub proof fn trials_are_shown_in_order(
    iterations: Seq<u64>,
    rewards: Seq<Seq<char>>,
    numbers: Seq<Seq<Seq<char>>>,
    n: nat,
)
    requires
        n < iterations.len(),
    ensures
        trial_lines(iterations, rewards, numbers, 0) == "[tpe-trials] count="@ + decimal(
            iterations.len(),
        ) + "\n"@,
        trial_lines(iterations, rewards, numbers, n + 1) == trial_lines(
            iterations,
            rewards,
            numbers,
            n,
        ) + trial_line(n, iterations[n as int], rewards[n as int], numbers[n as int]),
{
}

/// By default 0.15 of the rewarded trials count as good, sixteen vectors are drawn at a time with a
/// bandwidth of 0.05, a round takes ten minutes, the search needs five rewarded trials, and it starts
/// anew after an hour.
pub proof fn default_search(r: TpeParams)
    requires
        call_ensures(TpeParams::default, (), r),
    ensures
        r.gamma == (Double { bits: 0x3FC3_3333_3333_3333 }),
        r.samples == 16,
        r.bw == (Double { bits: 0x3FA9_9999_9999_999A }),
        r.period == 10 * 60,
        r.trials_threshold == 5,
        r.re_tpe_threshold == 60 * 60,
{
}

/// Where too few trials earned anything, the trials are not split, and with an empty pool the search
/// suggests nothing and stays as it is. A search that has settled suggests nothing either.
pub proof fn suggestions_wait_for_rewards<
    F: Fn(Double, Double, Double) -> bool,
    N: Fn(&Vec<Double>) -> Option<Vec<Double>>,
    G: Fn(&Vec<Double>, Double) -> Vec<Double>,
    D: Fn(&Vec<Double>, &Vec<Vec<Double>>, Double) -> Double,
    M: Fn(Double, Double) -> Double,
>(
    opt: &mut TpeOptimizer,
    state: &mut SchedulerState,
    places: Set<int>,
    quota: usize,
    within: F,
    normalize: N,
    draw: G,
    kde: LogKde<D, M>,
    rng: &mut StdRand,
    r: Option<Vec<Double>>,
)
    requires
        call_ensures(
            TpeOptimizer::suggest_next::<F, N, G, D, M>,
            (opt, state, quota, &within, &normalize, &draw, &kde, rng),
            r,
        ),
        forall|i: int| #[trigger]
            places.contains(i) <==> 0 <= i < old(opt).state@.trials.len() && (Double {
                bits: 0,
            }).below(old(opt).state@.trials[i].reward),
        old(opt).state@.lock_best || (places.len() < old(opt).params.trials_threshold && old(
            state,
        )@.globals.v_candidates.len() == 0),
    ensures
        r is None,
        final(opt).state@ == old(opt).state@,
        final(opt).params == old(opt).params,
{
    places_are_counted(old(opt).state@.trials, places);
}

/// Trials are split only where at least as many as the threshold earned something.
pub proof fn splits_wait_for_rewards(
    opt: TpeOptimizer,
    places: Set<int>,
    quota: usize,
    r: Option<(Vec<Vec<Double>>, Vec<Vec<Double>>)>,
)
    requires
        call_ensures(TpeOptimizer::split_good_bad, (&opt, quota), r),
        forall|i: int| #[trigger]
            places.contains(i) <==> 0 <= i < opt.state@.trials.len() && (Double { bits: 0 }).below(
                opt.state@.trials[i].reward,
            ),
        places.len() < opt.params.trials_threshold,
    ensures
        r is None,
{
    places_are_counted(opt.state@.trials, places);
}

/// An observation whose vector cannot be normalized is not recorded.
pub proof fn unusable_observations_are_not_recorded<
    F: Fn(Double, Double, Double) -> bool,
    N: Fn(&Vec<Double>) -> Option<Vec<Double>>,
>(
    opt: &mut TpeOptimizer,
    iteration: u64,
    vector: Vec<Double>,
    reward: Double,
    start_ms: u64,
    end_ms: u64,
    within: F,
    normalize: N,
)
    requires
        call_ensures(
            TpeOptimizer::observe_trial::<F, N>,
            (opt, iteration, &vector, reward, start_ms, end_ms, &within, &normalize),
            (),
        ),
        forall|z: &Vec<Double>, o: Option<Vec<Double>>|
            z@ == vector@ && #[trigger] call_ensures(normalize, (z,), o) ==> o is None,
    ensures
        final(opt).state@ == old(opt).state@,
{
    let form = choose|form: Option<Seq<Double>>| #[trigger]
        formed(normalize, vector@, form) && match form {
            None => final(opt).state@ == old(opt).state@,
            Some(v) => TpeOptimizer::recorded(
                old(opt).state@,
                TrialView {
                    iteration,
                    vector: v,
                    reward,
                    active_start_ms: start_ms,
                    active_end_ms: end_ms,
                },
                within,
                final(opt).state@,
            ),
        };
    forms_are_normalized(normalize, vector@, form, None);
}

/// Where every vector of the pool has been tried and the trials are split, a vector that is drawn around
/// a good one is suggested, provided that every such draw gains. The search does not change, and the
/// pool is empty.
pub proof fn draws_follow_the_pool<
    F: Fn(Double, Double, Double) -> bool,
    N: Fn(&Vec<Double>) -> Option<Vec<Double>>,
    G: Fn(&Vec<Double>, Double) -> Vec<Double>,
    D: Fn(&Vec<Double>, &Vec<Vec<Double>>, Double) -> Double,
    M: Fn(Double, Double) -> Double,
>(
    within: F,
    normalize: N,
    draw: G,
    kde: LogKde<D, M>,
    s: SearchView,
    good: Seq<Seq<Double>>,
    bad: Seq<Seq<Double>>,
    bw: Double,
    hist: Seq<Seq<Double>>,
    pool: Seq<Seq<Double>>,
    r: Option<Seq<Double>>,
    after: SearchView,
    left: Seq<Seq<Double>>,
)
    requires
        steady(within),
        hist.len() == s.trials.len(),
        forall|i: int| 0 <= i < hist.len() ==> #[trigger] hist[i] == s.trials[i].vector,
        forall|i: int|
            0 <= i < pool.len() ==> found_among(
                within,
                hist,
                #[trigger] pool[i],
                Double { bits: CANDIDATE_EPS_BITS },
            ),
        next_suggested(within, normalize, draw, kde, s, Some((good, bad)), bw, pool, r, after, left),
        forall|x: Double, l: Double, g: Double| #[trigger]
            call_ensures(kde.minus, (l, g), x) ==> (Double { bits: 0 }).below(x),
    ensures
        r is Some,
        after == s,
        left.len() == 0,
        exists|z: &Vec<Double>, out: Vec<Double>|
            good.contains(z@) && Some(out@) == r && #[trigger] call_ensures(draw, (z, bw), out),
{
    assert(hist =~= tried(s.trials));
    let (n, form) = choose|n: int, form: Option<Seq<Double>>|
        {
            &&& #[trigger] passed_over(within, tried(s.trials), pool, n)
            &&& left == left_over(pool, n)
            &&& #[trigger] taken_form(normalize, pool, n, form)
            &&& match form {
                Some(v) => r == Some(v) && after == s,
                None => next_drawn(draw, kde, s, good, bad, bw, r, after),
            }
        };
    if n < pool.len() {
        super::vectors::among_or_nowhere(within, hist, pool[n], Double { bits: CANDIDATE_EPS_BITS });
    }
    assert(form is None);
    let v = choose|v: Seq<Double>|
        {
            &&& #[trigger] drawn_from(draw, good, bw, v)
            &&& taken_or_settled(kde, good, bad, v, bw, s, r is Some, after)
            &&& r is Some ==> r == Some(v)
        };
    let gain = choose|gain: Double|
        {
            &&& #[trigger] gained(kde, good, bad, v, bw, gain)
            &&& (r is Some) == !gain.at_most(Double { bits: 0 })
            &&& after == if r is Some {
                s
            } else {
                locked(s)
            }
        };
    assert(gained(kde, good, bad, v, bw, gain));
    suggestions_are_drawn_around_good(draw, kde, s, good, bad, bw, r, after);
}

/// A search that begins around its credits draws around what normalizing gives for them.
pub proof fn priors_are_drawn_around_credits<
    F: Fn(Double, Double, Double) -> bool,
    G: Fn(&Vec<Double>, Double) -> Vec<Double>,
    A: Fn(Double, Double) -> Double,
    N: Fn(&Vec<Double>) -> Option<Vec<Double>>,
    E: Fn(usize) -> Double,
>(
    within: F,
    draw: G,
    plus: A,
    normalize: N,
    share: E,
    s: StateView,
    floor: Double,
    sum: Double,
    v: Seq<Double>,
    bw: Double,
    n: nat,
    told: bool,
    out: Seq<Seq<Double>>,
    j: int,
)
    requires
        prior_enqueued(within, draw, plus, normalize, share, s, floor, bw, n, told, out),
        s.globals.feature_dim > 0,
        s.credits matches Some(c) && c.len() == s.globals.feature_dim,
        forall|x: Double| #[trigger] summed(plus, positives(s.credits->0), x) ==> x == sum,
        floor.below(sum),
        forall|z: &Vec<Double>, o: Option<Vec<Double>>|
            z@ == s.credits->0 && #[trigger] call_ensures(normalize, (z,), o) ==> o is Some && (
            o->0)@ == v,
        s.globals.v_candidates.len() <= j < out.len(),
    ensures
        told,
        out.take(s.globals.v_candidates.len() as int) == s.globals.v_candidates,
        out.len() <= s.globals.v_candidates.len() + n,
        exists|z: &Vec<Double>, w: Vec<Double>|
            z@ == v && w@ == out[j] && #[trigger] call_ensures(draw, (z, bw), w),
{
    let (total, form, center) = choose|
        total: Double,
        form: Option<Seq<Double>>,
        center: Seq<Double>,
    |
        {
            &&& #[trigger] centered(
                plus,
                normalize,
                share,
                s,
                floor,
                total,
                form,
                Some((center, told)),
            )
            &&& enqueued(within, draw, center, bw, n, s.globals.v_candidates, out)
        };
    credits_are_the_center(
        plus,
        normalize,
        share,
        s,
        floor,
        sum,
        v,
        total,
        form,
        Some((center, told)),
    );
    queued_draws_come_from_the_center(
        within,
        draw,
        v,
        bw,
        n,
        s.globals.v_candidates,
        out,
        j,
    );
}

/// A search is taken up again once: a second time nothing changes, and without a history nothing but
/// that.
pub proof fn searches_are_restored_once<N: Fn(&Vec<Double>) -> Option<Vec<Double>>>(
    opt: &mut TpeOptimizer,
    state: SchedulerState,
    normalize: N,
)
    requires
        call_ensures(TpeOptimizer::restore_once::<N>, (opt, &state, &normalize), ()),
    ensures
        final(opt).params == old(opt).params,
        final(opt).state@.restored_once,
        old(opt).state@.restored_once ==> final(opt).state@ == old(opt).state@,
        state@.history is None ==> final(opt).state@ == (SearchView {
            restored_once: true,
            ..old(opt).state@
        }),
        final(opt).state@.lock_best == old(opt).state@.lock_best,
        final(opt).state@.best_fixed == old(opt).state@.best_fixed,
{
}

/// Keeping a search stores each trial with its vector, its reward and its end, and the last vector, and
/// changes nothing else.
pub proof fn searches_are_stored(
    opt: TpeOptimizer,
    state: &mut SchedulerState,
    now_ms: u64,
    i: int,
)
    requires
        call_ensures(TpeOptimizer::persist_to_meta_at, (&opt, state, now_ms), ()),
        0 <= i < opt.state@.trials.len(),
    ensures
        final(state)@.history is Some,
        (final(state)@.history->0).trials.len() == opt.state@.trials.len(),
        (final(state)@.history->0).trials[i] == (
            opt.state@.trials[i].vector,
            opt.state@.trials[i].reward,
            opt.state@.trials[i].active_end_ms,
        ),
        (final(state)@.history->0).last_vec == opt.state@.last_vec,
        (final(state)@.history->0).last_check_ms == Some(now_ms),
        final(state)@.globals == old(state)@.globals,
        final(state)@.feats == old(state)@.feats,
        final(state)@.stats == old(state)@.stats,
{
}

/// Trying the opposite needs a best vector. With one the search goes on, and what waits stays in front;
/// without one nothing changes.
pub proof fn opposites_need_a_best_vector<
    F: Fn(Double, Double, Double) -> bool,
    G: Fn(&Vec<Double>, Double) -> Vec<Double>,
    V: Fn(&Vec<Double>) -> Vec<Double>,
>(
    opt: &mut TpeOptimizer,
    state: &mut SchedulerState,
    invert: V,
    draw: G,
    within: F,
)
    requires
        call_ensures(
            TpeOptimizer::enqueue_inverse_candidates::<F, G, V>,
            (opt, state, &invert, &draw, &within),
            (),
        ),
    ensures
        old(opt).state@.trials.len() == 0 && old(opt).state@.best_fixed.len() == 0
            ==> final(opt).state@ == old(opt).state@ && final(state)@ == old(state)@,
        old(opt).state@.trials.len() > 0 || old(opt).state@.best_fixed.len() > 0
            ==> !final(opt).state@.lock_best && final(opt).state@.trials == old(opt).state@.trials
            && final(opt).state@.best_fixed == old(opt).state@.best_fixed
            && final(state)@.globals.v_candidates.len() >= old(state)@.globals.v_candidates.len()
            && final(state)@.globals.v_candidates.take(
            old(state)@.globals.v_candidates.len() as int,
        ) == old(state)@.globals.v_candidates,
        final(state)@.globals.current_v == old(state)@.globals.current_v,
{
    if old(opt).state@.trials.len() > 0 || old(opt).state@.best_fixed.len() > 0 {
        let best = TpeOptimizer::best(old(opt).state@)->0;
        let n = TpeOptimizer::draws(old(opt).params.samples);
        let pool = old(state)@.globals.v_candidates;
        let out = final(state)@.globals.v_candidates;
        let (z, c) = choose|z: &Vec<Double>, c: Vec<Double>|
            {
                &&& z@ == best
                &&& #[trigger] call_ensures(invert, (z,), c)
                &&& enqueued(within, draw, c@, old(opt).params.bw, n, pool, out)
            };
        let drawn = choose|drawn: Seq<Seq<Double>>|
            {
                &&& drawn.len() == n
                &&& #[trigger] drawn_all(draw, c@, old(opt).params.bw, drawn)
                &&& queued(within, pool, drawn, out)
            };
        queueing_keeps_pool(within, pool, drawn, out);
    }
}

/// Vectors are drawn and queued one by one: to draw one more is to draw one, and then the others for the
/// pool that this leaves. To draw none leaves the pool as it is.
pub proof fn draws_are_queued_one_by_one<
    F: Fn(Double, Double, Double) -> bool,
    G: Fn(&Vec<Double>, Double) -> Vec<Double>,
>(
    within: F,
    draw: G,
    center: Seq<Double>,
    bw: Double,
    n: nat,
    pool: Seq<Seq<Double>>,
    out: Seq<Seq<Double>>,
)
    requires
        enqueued(within, draw, center, bw, n, pool, out),
    ensures
        n == 0 ==> out == pool,
        n > 0 ==> exists|mid: Seq<Seq<Double>>| #[trigger]
            enqueued(within, draw, center, bw, 1, pool, mid) && enqueued(
                within,
                draw,
                center,
                bw,
                (n - 1) as nat,
                mid,
                out,
            ),
        n == 1 ==> exists|z: &Vec<Double>, v: Vec<Double>|
            z@ == center && #[trigger] call_ensures(draw, (z, bw), v) && (out == pool || out
                == pool.push(v@)),
{
    let drawn = choose|drawn: Seq<Seq<Double>>|
        {
            &&& drawn.len() == n
            &&& #[trigger] drawn_all(draw, center, bw, drawn)
            &&& queued(within, pool, drawn, out)
        };
    let steps = choose|steps: Seq<Seq<Seq<Double>>>| queue_steps(within, pool, drawn, out, steps);
    if n > 0 {
        let mid = steps[1];
        let first = seq![drawn[0]];
        let rest = drawn.skip(1);
        assert(drawn_one(draw, center, bw, drawn[0]));
        assert(queued_one(within, steps[0], drawn[0], steps[1]));
        assert(drawn_all(draw, center, bw, first));
        let begun = seq![pool, mid];
        assert(queue_steps(within, pool, first, mid, begun)) by {
            assert forall|i: int| #![trigger first[i]] 0 <= i < first.len() implies queued_one(
                within,
                begun[i],
                first[i],
                begun[i + 1],
            ) by {
                assert(i == 0);
            }
        }
        assert(queued(within, pool, first, mid));
        assert(enqueued(within, draw, center, bw, 1, pool, mid));
        assert(drawn_all(draw, center, bw, rest)) by {
            assert forall|i: int| 0 <= i < rest.len() implies drawn_one(
                draw,
                center,
                bw,
                #[trigger] rest[i],
            ) by {
                assert(rest[i] == drawn[i + 1]);
            }
        }
        let later = steps.skip(1);
        assert(queue_steps(within, mid, rest, out, later)) by {
            assert forall|i: int| #![trigger rest[i]] 0 <= i < rest.len() implies queued_one(
                within,
                later[i],
                rest[i],
                later[i + 1],
            ) by {
                assert(rest[i] == drawn[i + 1]);
            }
        }
        assert(queued(within, mid, rest, out));
        assert(enqueued(within, draw, center, bw, (n - 1) as nat, mid, out));
        let (z, v) = choose|z: &Vec<Double>, v: Vec<Double>|
            z@ == center && v@ == drawn[0] && #[trigger] call_ensures(draw, (z, bw), v);
        assert(call_ensures(draw, (z, bw), v));
    }
}

/// The number of good trials is the share of the rewarded ones that the parameters name.
pub proof fn quota_is_a_share_of_the_rewarded<Q: Fn(usize, Double) -> usize>(
    opt: TpeOptimizer,
    share: Q,
    places: Set<int>,
    expected: usize,
    r: usize,
)
    requires
        call_ensures(TpeOptimizer::good_quota::<Q>, (&opt, &share), r),
        forall|i: int| #[trigger]
            places.contains(i) <==> 0 <= i < opt.state@.trials.len() && (Double { bits: 0 }).below(
                opt.state@.trials[i].reward,
            ),
        forall|n: usize, x: usize|
            n == places.len() && #[trigger] call_ensures(share, (n, opt.params.gamma), x) ==> x
                == expected,
    ensures
        r == expected,
{
    places_are_counted(opt.state@.trials, places);
}

/// A drawn vector is judged only where the trials are split; else it is not taken, and nothing changes.
/// One that is taken is the very vector that was drawn.
pub proof fn draws_are_judged_by_the_split<
    D: Fn(&Vec<Double>, &Vec<Vec<Double>>, Double) -> Double,
    M: Fn(Double, Double) -> Double,
>(
    opt: &mut TpeOptimizer,
    quota: usize,
    candidate: Vec<Double>,
    kde: LogKde<D, M>,
    places: Set<int>,
    r: Option<Vec<Double>>,
)
    requires
        call_ensures(TpeOptimizer::judge_draw::<D, M>, (opt, quota, candidate, &kde), r),
        forall|i: int| #[trigger]
            places.contains(i) <==> 0 <= i < old(opt).state@.trials.len() && (Double {
                bits: 0,
            }).below(old(opt).state@.trials[i].reward),
    ensures
        r is Some ==> r == Some(candidate) && final(opt).state@ == old(opt).state@,
        places.len() < old(opt).params.trials_threshold ==> r is None && final(opt).state@ == old(
            opt,
        ).state@,
        final(opt).state@.trials == old(opt).state@.trials,
{
    no_split_below_threshold(
        old(opt).state@.trials,
        places,
        old(opt).params.trials_threshold as nat,
        quota as nat,
    );
}

} // verus!
