//! One window of the search after the other, rewarded by new testcases.

use vstd::prelude::*;

use libafl_bolts::rands::StdRand;

use super::features_map::{apply_v_to_features, attr_names, dim_fault, dim_fault_text};
use super::tpe::{
    due, estimable, has_settled, initial_search, kept_search, ordered_rewards,
    projectable, suggested, taken_up, with_point, Kde, Point, TpeOptimizer, TpeParams, Trial,
    WindowView, LEAST_TRIALS, VECTOR_LEN,
};
use crate::double::Double;
use crate::feature_sched::candidates::with_alpha;
use crate::feature_sched::metadata::{rows, FactorParams, GlobalsView};
use crate::feature_sched::tpe::{drawable, with_pool};
use crate::feature_sched::tpe_stage::{countable, earned, part_of, using, with_alpha_of};
use crate::feature_sched::vectors::askable;
use crate::feature_sched::weights::{computable, reapplied, with_weights, WeightMath};
use crate::feature_sched::{
    enabled, get_current_weight_vec, get_factor_params, get_features_enabled, get_tpe_satisfied,
    get_v_candidates, set_factor_params, SchedulerState, StateView,
};
use crate::rng::fresh_rng;
use crate::text::{decimal, decimal_text, join, join_text, seconds, seconds_text, texts};

verus! {

/// The stage that runs the search.
pub struct TpeStage {
    pub opt: TpeOptimizer,
    pub rng: StdRand,
}

/// The vector that the search starts with: alpha, then the weights in use, or else the first
/// waiting vector, or else nothing.
pub open spec fn opening_vector(s: StateView) -> Seq<Double> {
    let weights = if s.globals.current_v.len() > 0 {
        s.globals.current_v
    } else if s.globals.v_candidates.len() > 0 {
        s.globals.v_candidates[0]
    } else {
        Seq::empty()
    };
    seq![s.globals.factor_params.alpha] + weights
}

/// The search once it has a vector in use.
pub open spec fn opened(s: WindowView, v: Seq<Double>) -> WindowView {
    if s.last_vec.len() == 0 {
        using(s, v)
    } else {
        s
    }
}

/// What becomes of the state when a vector is put to use: its first component becomes alpha, the
/// next ones the weights of the features. A vector that is too short changes nothing.
pub open spec fn put_to_use<
    E: Fn(usize) -> Double,
    N: Fn(&Vec<Double>) -> Double,
    O: Fn(Double, Double) -> Double,
    W: Fn(&Vec<Double>, &Vec<Double>) -> Double,
>(math: WeightMath<E, N, O, W>, s: StateView, v: Seq<Double>, after: StateView) -> bool {
    if v.len() >= VECTOR_LEN {
        let w = v.subrange(1, VECTOR_LEN as int);
        &&& after.feats is Some
        &&& reapplied(math, with_alpha_of(s, v), w, attr_names(), after.feats->0)
        &&& after == with_weights(with_alpha_of(s, v), w, after.feats->0)
    } else {
        after == s
    }
}

/// Can the feature map not be combined?
pub open spec fn broken(s: StateView) -> bool {
    s.matrix is Some && dim_fault((s.matrix->0).columns) is Some
}

/// Puts a vector to use: its first component becomes alpha, the next ones the weights of the
/// features. A vector that is too short changes nothing. With a faulty feature map only alpha is
/// set.
pub fn use_vector<
    E: Fn(usize) -> Double,
    N: Fn(&Vec<Double>) -> Double,
    O: Fn(Double, Double) -> Double,
    W: Fn(&Vec<Double>, &Vec<Double>) -> Double,
>(state: &mut SchedulerState, v: &Vec<Double>, math: &WeightMath<E, N, O, W>) -> (r: Result<
    (),
    String,
>)
    requires
        computable(*math),
    ensures
        r is Err <==> v@.len() >= VECTOR_LEN && broken(old(state)@),
        match r {
            Ok(_) => put_to_use(*math, old(state)@, v@, final(state)@),
            Err(e) => e@ == dim_fault_text(
                (old(state)@.matrix->0).columns,
                dim_fault((old(state)@.matrix->0).columns)->0,
            ) && final(state)@ == with_alpha_of(old(state)@, v@),
        },
{
    if v.len() >= VECTOR_LEN {
        let mut params: FactorParams = get_factor_params(state);
        params.alpha = v[0].clamp_unit();
        set_factor_params(state, params);
        let w: Vec<Double> = part_of(v, 1, VECTOR_LEN);
        apply_v_to_features(state, &w, math)
    } else {
        Ok(())
    }
}

impl TpeStage {
    /// A stage that has not run yet.
    pub fn new(params: TpeParams) -> (r: Self)
        ensures
            r.opt.params == params,
            r.opt.state@ == initial_search(),
    {
        TpeStage { opt: TpeOptimizer::new(params), rng: fresh_rng() }
    }

    /// Begins the work of a window: records what the vector in use earned, and gives that reward.
    /// `number` turns a count into a reward.
    pub fn begin<R: Fn(i64) -> Double>(
        &mut self,
        state: &SchedulerState,
        cur_corpus: usize,
        number: &R,
    ) -> (r: Double)
        requires
            forall|d: i64| #[trigger] call_requires(*number, (d,)),
            countable(old(self).opt.state@.last_corpus, cur_corpus),
            old(self).opt.state@.trials.len() < usize::MAX,
        ensures
            final(self).opt.params == old(self).opt.params,
            final(self).rng == old(self).rng,
            earned(*number, old(self).opt.state@.last_corpus, cur_corpus, r),
            ({
                let before = opened(old(self).opt.state@, opening_vector(state@));
                final(self).opt.state@ == with_point(
                    WindowView { last_corpus: Some(cur_corpus), ..before },
                    Point { vec: before.last_vec, reward: r },
                )
            }),
    {
        let alpha: Double = get_factor_params(state).alpha;
        let current: Vec<Double> = get_current_weight_vec(state);
        let v: Vec<Double> = if current.len() > 0 {
            with_alpha(alpha, &current)
        } else {
            let waiting: Vec<Vec<Double>> = get_v_candidates(state);
            if waiting.len() > 0 {
                assert(rows(waiting@)[0] == waiting@[0]@);
                with_alpha(alpha, &waiting[0])
            } else {
                let none: Vec<Double> = Vec::new();
                with_alpha(alpha, &none)
            }
        };
        assert(v@ =~= opening_vector(state@));
        self.opt.init_vec_if_empty(&v);
        let reward: Double = match self.opt.take_reward_from_corpus(cur_corpus) {
            Some(d) => {
                assert(call_requires(*number, (d,)));
                number(d)
            },
            None => Double::zero(),
        };
        let last: Vec<Double> = self.opt.last_vec();
        self.opt.observe(&last, reward);
        reward
    }

    /// Chooses the vector for the next window. The numbers are as for [`TpeOptimizer::suggest`].
    pub fn choose_next<
        F: Fn(Double, Double, Double) -> bool,
        P: Fn(&Vec<Double>) -> Vec<Double>,
        G: Fn(&Vec<Double>, Double) -> Vec<Double>,
        D: Fn(&Vec<Trial>, &Vec<Double>, Double) -> Double,
        O: Fn(Double, Double) -> Double,
    >(
        &mut self,
        state: &mut SchedulerState,
        quota: usize,
        within: &F,
        project: &P,
        draw: &G,
        kde: &Kde<D, O>,
    ) -> (r: Vec<Double>)
        requires
            askable(*within),
            projectable(*project),
            drawable(*draw),
            estimable(*kde),
            has_settled(old(self).opt.state@) || old(self).opt.state@.trials.len() < LEAST_TRIALS
                || ordered_rewards(old(self).opt.state@.trials),
        ensures
            final(self).opt.params == old(self).opt.params,
            final(self).rng == old(self).rng,
            final(self).opt.state@.last_vec == r@,
            suggested(
                *within,
                *project,
                *draw,
                *kde,
                old(self).opt.state@,
                quota as nat,
                old(self).opt.params.bw,
                old(state)@.globals.v_candidates,
                r,
                using(final(self).opt.state@, old(self).opt.state@.last_vec),
                final(state)@.globals.v_candidates,
            ),
            final(state)@ == with_pool(old(state)@, final(state)@.globals.v_candidates),
    {
        let v: Vec<Double> = self.opt.suggest(state, quota, within, project, draw, kde);
        let ghost s = self.opt.state@;
        self.opt.set_last_vec(&v);
        assert(using(self.opt.state@, s.last_vec) == s);
        v
    }

    /// Ends the work of a window: puts the chosen vector to use and begins the next window. Where
    /// the vector cannot be put to use, the window does not end.
    pub fn finish<
        E: Fn(usize) -> Double,
        N: Fn(&Vec<Double>) -> Double,
        O: Fn(Double, Double) -> Double,
        W: Fn(&Vec<Double>, &Vec<Double>) -> Double,
    >(
        &mut self,
        state: &mut SchedulerState,
        v: &Vec<Double>,
        now_ns: u64,
        epoch_ms: u64,
        math: &WeightMath<E, N, O, W>,
    ) -> (r: Result<(), String>)
        requires
            computable(*math),
        ensures
            final(self).opt.params == old(self).opt.params,
            final(self).rng == old(self).rng,
            r is Err <==> v@.len() >= VECTOR_LEN && broken(old(state)@),
            r is Ok ==> {
                &&& final(self).opt.state@ == (WindowView {
                    window_start: Some(now_ns),
                    ..old(self).opt.state@
                })
                &&& put_to_use(
                    *math,
                    old(state)@,
                    v@,
                    StateView { history: old(state)@.history, ..final(state)@ },
                )
                &&& final(state)@.history == Some(
                    kept_search(final(self).opt.state@, old(state)@.history, epoch_ms),
                )
            },
            r is Err ==> {
                &&& (r->Err_0)@ == dim_fault_text(
                    (old(state)@.matrix->0).columns,
                    dim_fault((old(state)@.matrix->0).columns)->0,
                )
                &&& final(self).opt.state@ == old(self).opt.state@
                &&& final(state)@ == with_alpha_of(old(state)@, v@)
            },
    {
        match use_vector(state, v, math) {
            Ok(_) => {},
            Err(e) => {
                return Err(e);
            },
        }
        let ghost used = state@;
        self.opt.advance_window(now_ns);
        self.opt.persist_to_meta_at(state, epoch_ms);
        assert(StateView { history: old(state)@.history, ..state@ } == used);
        Ok(())
    }

    /// Is a window over that the search should work on? Takes up what was kept across a restart
    /// first.
    pub fn should_restart(&mut self, state: &SchedulerState, now_ns: u64) -> (r: bool)
        ensures
            final(self).opt.params == old(self).opt.params,
            final(self).rng == old(self).rng,
            final(self).opt.state@ == taken_up(old(self).opt.state@, state@.history, now_ns),
            r == (enabled(state@) && state@.globals.tpe_satisfied && due(
                final(self).opt.state@,
                final(self).opt.params.period,
                now_ns,
            )),
    {
        self.opt.restore_once(state, now_ns);
        get_features_enabled(state) && get_tpe_satisfied(state) && self.opt.window_due(now_ns)
    }
}

/// The weights of a vector as text.
pub open spec fn weights_line(numbers: Seq<Seq<char>>) -> Seq<char> {
    if numbers.len() >= VECTOR_LEN {
        "["@ + join(numbers.subrange(1, VECTOR_LEN as int), ","@) + "]"@
    } else {
        "[]"@
    }
}

/// The weights of a vector as text. The caller gives the numbers as text.
pub fn weights_text(numbers: &Vec<String>) -> (r: String)
    ensures
        r@ == weights_line(texts(numbers@)),
{
    if numbers.len() < VECTOR_LEN {
        return "[]".to_owned();
    }
    let ghost all = texts(numbers@);
    let mut shown: Vec<String> = Vec::new();
    let mut i: usize = 1;
    while i < VECTOR_LEN
        invariant
            1 <= i <= VECTOR_LEN <= numbers@.len(),
            all == texts(numbers@),
            texts(shown@) == all.subrange(1, i as int),
        decreases VECTOR_LEN - i,
    {
        let ghost before = shown@;
        shown.push(numbers[i].clone());
        assert(texts(shown@) =~= texts(before).push(all[i as int]));
        assert(all.subrange(1, i + 1) =~= all.subrange(1, i as int).push(all[i as int]));
        i = i + 1;
    }
    let mut out: String = "[".to_owned();
    out.append(join_text(&shown, ",").as_str());
    out.append("]");
    out
}

/// The numbers that are shown of a window, as text.
pub struct WindowNumbers {
    pub reward: String,
    pub alpha: String,
    pub v_norm: String,
    pub vector: Vec<String>,
    pub bw: String,
    pub gamma: String,
}

/// The line that shows a window.
pub open spec fn window_line(
    x: WindowNumbers,
    trials: nat,
    corpus: usize,
    params: TpeParams,
) -> Seq<char> {
    "[TPE] reward=ΔCorpus="@ + x.reward@ + ", trials="@ + decimal(trials) + ", corpus="@ + decimal(
        corpus as nat,
    ) + ", alpha="@ + x.alpha@ + ", v_norm="@ + x.v_norm@ + ", v8="@ + weights_line(
        texts(x.vector@),
    ) + ", bw="@ + x.bw@ + ", gamma="@ + x.gamma@ + ", samples="@ + decimal(
        params.samples as nat,
    ) + ", period="@ + seconds(params.period as nat)
}

impl TpeStage {
    /// The line that shows a window that was worked on.
    pub fn info_text(&self, x: &WindowNumbers, corpus: usize) -> (r: String)
        ensures
            r@ == window_line(*x, self.opt.state@.trials.len(), corpus, self.opt.params),
    {
        let mut out: String = "[TPE] reward=ΔCorpus=".to_owned();
        out.append(x.reward.as_str());
        out.append(", trials=");
        out.append(decimal_text(self.opt.state.trials.len() as u64).as_str());
        out.append(", corpus=");
        out.append(decimal_text(corpus as u64).as_str());
        out.append(", alpha=");
        out.append(x.alpha.as_str());
        out.append(", v_norm=");
        out.append(x.v_norm.as_str());
        out.append(", v8=");
        out.append(weights_text(&x.vector).as_str());
        out.append(", bw=");
        out.append(x.bw.as_str());
        out.append(", gamma=");
        out.append(x.gamma.as_str());
        out.append(", samples=");
        out.append(decimal_text(self.opt.params.samples as u64).as_str());
        out.append(", period=");
        out.append(seconds_text(self.opt.params.period).as_str());
        out
    }
}

/// A vector that is put to use is the one in use from then on, with its alpha forced into the unit
/// interval: the weight of each of the eight features is the component behind alpha that stands at the
/// place of the feature. Its alpha becomes that of the factor, and the weights of the coverage sites are
/// combined with those weights. A longer vector counts as far as there are features.
pub proof fn used_vectors_are_in_use<
    E: Fn(usize) -> Double,
    N: Fn(&Vec<Double>) -> Double,
    O: Fn(Double, Double) -> Double,
    W: Fn(&Vec<Double>, &Vec<Double>) -> Double,
>(
    math: WeightMath<E, N, O, W>,
    s: StateView,
    v: Seq<Double>,
    after: StateView,
)
    requires
        put_to_use(math, s, v, after),
        v.len() >= 9,
    ensures
        after.globals.current_v.len() == 9,
        after.globals.current_v[0] == v[0].unit(),
        forall|j: int| 1 <= j <= 8 ==> #[trigger] after.globals.current_v[j] == v[j],
        v.len() == 9 ==> after.globals.current_v == seq![v[0].unit()] + v.skip(1),
        after.globals.factor_params == (FactorParams {
            alpha: v[0].unit(),
            ..s.globals.factor_params
        }),
        after.feats is Some,
        v.len() == 9 ==> reapplied(math, s, v.skip(1), attr_names(), after.feats->0),
        after == (StateView {
            feats: after.feats,
            globals: GlobalsView {
                current_v: after.globals.current_v,
                factor_params: after.globals.factor_params,
                ..s.globals
            },
            ..s
        }),
{
    crate::double::unit_is_idempotent(v[0]);
    crate::feature_sched::weights::applied_weights_are_in_use(
        with_alpha_of(s, v),
        v.subrange(1, 9),
        after.feats->0,
    );
    assert forall|j: int| 1 <= j <= 8 implies #[trigger] after.globals.current_v[j] == v[j] by {
        assert(after.globals.current_v[(j - 1) + 1] == v.subrange(1, 9)[j - 1]);
    }
    if v.len() == 9 {
        assert(v.subrange(1, 9) =~= v.skip(1));
        assert(after.globals.current_v =~= seq![v[0].unit()] + v.skip(1));
    }
}

/// A vector that is too short changes nothing.
pub proof fn short_vectors_are_not_used<
    E: Fn(usize) -> Double,
    N: Fn(&Vec<Double>) -> Double,
    O: Fn(Double, Double) -> Double,
    W: Fn(&Vec<Double>, &Vec<Double>) -> Double,
>(
    math: WeightMath<E, N, O, W>,
    s: StateView,
    v: Seq<Double>,
    after: StateView,
)
    requires
        put_to_use(math, s, v, after),
        v.len() < 9,
    ensures
        after == s,
{
}

/// The search opens with the alpha of the factor and, behind it, the vector in use; where there is none,
/// the first of those that wait. A search that has a vector keeps it.
pub proof fn searches_open(s: StateView, w: WindowView)
    ensures
        s.globals.current_v.len() > 0 ==> opening_vector(s) == seq![s.globals.factor_params.alpha]
            + s.globals.current_v,
        s.globals.current_v.len() == 0 && s.globals.v_candidates.len() > 0 ==> opening_vector(s)
            == seq![s.globals.factor_params.alpha] + s.globals.v_candidates[0],
        s.globals.current_v.len() == 0 && s.globals.v_candidates.len() == 0 ==> opening_vector(s)
            == seq![s.globals.factor_params.alpha],
        w.last_vec.len() > 0 ==> opened(w, opening_vector(s)) == w,
        w.last_vec.len() == 0 ==> opened(w, opening_vector(s)) == (WindowView {
            last_vec: opening_vector(s),
            ..w
        }),
{
    assert(seq![s.globals.factor_params.alpha] + Seq::<Double>::empty()
        =~= seq![s.globals.factor_params.alpha]);
}

/// A stored map is broken exactly where one of the eight features is missing or the arrays differ in
/// length.
pub proof fn broken_maps(s: StateView)
    ensures
        s.matrix is None ==> !broken(s),
        s.matrix matches Some(m) ==> (broken(s) <==> exists|k: int|
            0 <= k < 8 && (!m.columns.dom().contains(#[trigger] attr_names()[k])
                || m.columns[attr_names()[k]].len() != m.columns[attr_names()[0]].len())),
{
    if s.matrix is Some {
        super::features_map::dims_are_told_apart((s.matrix->0).columns);
    }
}

/// A window records the vector that was in use with what the corpus grew by since. A search without a
/// vector opens with one first.
pub proof fn windows_record_the_growth<R: Fn(i64) -> Double>(
    stage: &mut TpeStage,
    state: SchedulerState,
    before_corpus: usize,
    cur_corpus: usize,
    number: R,
    reward: Double,
    r: Double,
)
    requires
        call_ensures(TpeStage::begin::<R>, (stage, &state, cur_corpus, &number), r),
        old(stage).opt.state@.last_corpus == Some(before_corpus),
        countable(Some(before_corpus), cur_corpus),
        old(stage).opt.state@.trials.len() < 1024,
        forall|x: Double| #[trigger]
            call_ensures(number, ((cur_corpus - before_corpus) as i64,), x) ==> x == reward,
    ensures
        r == reward,
        final(stage).opt.state@.last_corpus == Some(cur_corpus),
        old(stage).opt.state@.last_vec.len() > 0 ==> final(stage).opt.state@.trials == old(
            stage,
        ).opt.state@.trials.push(Point { vec: old(stage).opt.state@.last_vec, reward }),
        old(stage).opt.state@.last_vec.len() == 0 && state@.globals.current_v.len() > 0
            ==> final(stage).opt.state@.trials == old(stage).opt.state@.trials.push(
            Point {
                vec: seq![state@.globals.factor_params.alpha] + state@.globals.current_v,
                reward,
            },
        ),
{
    let before = opened(old(stage).opt.state@, opening_vector(state@));
    crate::libfun::tpe::recorded_points_come_last(
        WindowView { last_corpus: Some(cur_corpus), ..before },
        Point { vec: before.last_vec, reward: r },
    );
}

/// The end of a window puts the chosen vector to use, begins the next window and keeps the search. With
/// a broken map only the alpha of the vector is taken, and the window goes on.
pub proof fn windows_finish_with_the_vector<
    E: Fn(usize) -> Double,
    N: Fn(&Vec<Double>) -> Double,
    O: Fn(Double, Double) -> Double,
    W: Fn(&Vec<Double>, &Vec<Double>) -> Double,
>(
    stage: &mut TpeStage,
    state: &mut SchedulerState,
    v: Vec<Double>,
    now_ns: u64,
    epoch_ms: u64,
    math: WeightMath<E, N, O, W>,
    r: Result<(), String>,
)
    requires
        call_ensures(
            TpeStage::finish::<E, N, O, W>,
            (stage, state, &v, now_ns, epoch_ms, &math),
            r,
        ),
        v@.len() == 9,
    ensures
        old(state)@.matrix is None ==> r is Ok,
        r is Ok ==> final(state)@.globals.current_v == seq![v@[0].unit()] + v@.skip(1),
        r is Ok ==> final(stage).opt.state@.window_start == Some(now_ns),
        r is Ok ==> final(state)@.history is Some && (final(state)@.history->0).last_check_ms
            == Some(epoch_ms),
        final(stage).opt.state@.trials == old(stage).opt.state@.trials,
        final(state)@.globals.factor_params.alpha == v@[0].unit(),
        r is Err ==> final(state)@.globals.current_v == old(state)@.globals.current_v
            && final(state)@.feats == old(state)@.feats && final(stage).opt.state@ == old(
            stage,
        ).opt.state@,
{
    if r is Ok {
        used_vectors_are_in_use(
            math,
            old(state)@,
            v@,
            StateView { history: old(state)@.history, ..final(state)@ },
        );
    }
}

} // verus!
