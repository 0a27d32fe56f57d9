//! One window of the search after the other: what a vector earned, which one comes next, and
//! putting it to use.

use vstd::prelude::*;

use libafl_bolts::rands::StdRand;

use super::candidates::{of_length, with_alpha};
use super::metadata::{copy_numbers, rows, FactorParams, GlobalsView};
use super::tpe::{drawable, with_pool};
use super::vectors::askable;
use super::weights::{
    apply_v_to_features, computable, even_weights, evened, reapplied, with_weights, WeightMath,
};
use super::{
    enabled, get_active_dim, get_current_weight_vec, get_factor_params, get_features_enabled,
    get_tpe_satisfied, get_v_candidates, set_factor_params, SchedulerState, StateView,
};
use crate::double::Double;
use crate::libfun::tpe::{
    due, estimable, growth, has_settled, initial_search, kept_search, ordered_rewards,
    projectable, suggested, taken_up, with_point, Kde, Point, TpeOptimizer, TpeParams, Trial,
    WindowView, LEAST_TRIALS,
};
use crate::rng::fresh_rng;
use crate::text::{decimal, decimal_text, seconds, seconds_text, texts};

verus! {

/// The stage that runs the search.
pub struct TpeStage {
    pub opt: TpeOptimizer,
    pub rng: StdRand,
    /// The name under which the covered sites are counted.
    pub edges_name: String,
    /// Is the first window still to come?
    pub first_window: bool,
}

/// What there is to do in a window.
#[derive(Clone, Copy, PartialEq, Eq, Structural, Debug)]
pub enum WindowStep {
    /// Nothing more.
    Idle,
    /// Choose the next vector; the last one earned this much.
    Suggest(Double),
}

/// The components from `from` to `to`.
pub fn part_of(v: &Vec<Double>, from: usize, to: usize) -> (r: Vec<Double>)
    requires
        from <= to <= v@.len(),
    ensures
        r@ == v@.subrange(from as int, to as int),
{
    let mut r: Vec<Double> = Vec::new();
    let mut i: usize = from;
    while i < to
        invariant
            from <= i <= to <= v@.len(),
            r@ == v@.subrange(from as int, i as int),
        decreases to - i,
    {
        r.push(v[i]);
        assert(v@.subrange(from as int, i + 1) =~= v@.subrange(from as int, i as int).push(
            v@[i as int],
        ));
        i = i + 1;
    }
    r
}

/// The state with another alpha: the first component of a vector, forced into the unit interval.
pub open spec fn with_alpha_of(s: StateView, v: Seq<Double>) -> StateView {
    StateView {
        globals: GlobalsView {
            factor_params: FactorParams { alpha: v[0].unit(), ..s.globals.factor_params },
            ..s.globals
        },
        ..s
    }
}

/// What becomes of the state when a vector is put to use: its first component becomes alpha, the
/// next ones the weights of the active features. A vector that is too short changes nothing.
pub open spec fn put_to_use<
    E: Fn(usize) -> Double,
    N: Fn(&Vec<Double>) -> Double,
    O: Fn(Double, Double) -> Double,
    W: Fn(&Vec<Double>, &Vec<Double>) -> Double,
>(math: WeightMath<E, N, O, W>, s: StateView, v: Seq<Double>, after: StateView) -> bool {
    let dim = s.globals.feature_dim as int;
    if v.len() >= 1 + dim {
        let w = v.subrange(1, 1 + dim);
        &&& after.feats is Some
        &&& reapplied(
            math,
            with_alpha_of(s, v),
            w,
            s.globals.active_feature_names,
            after.feats->0,
        )
        &&& after == with_weights(with_alpha_of(s, v), w, after.feats->0)
    } else {
        after == s
    }
}

/// Puts a vector to use: its first component becomes alpha, the next ones the weights of the
/// active features. A vector that is too short changes nothing.
pub fn use_vector<
    E: Fn(usize) -> Double,
    N: Fn(&Vec<Double>) -> Double,
    O: Fn(Double, Double) -> Double,
    W: Fn(&Vec<Double>, &Vec<Double>) -> Double,
>(state: &mut SchedulerState, v: &Vec<Double>, math: &WeightMath<E, N, O, W>)
    requires
        computable(*math),
        old(state)@.globals.feature_dim < usize::MAX,
    ensures
        put_to_use(*math, old(state)@, v@, final(state)@),
{
    let vector_len: usize = 1 + get_active_dim(state);
    if v.len() >= vector_len {
        let mut p: FactorParams = get_factor_params(state);
        p.alpha = v[0].clamp_unit();
        set_factor_params(state, p);
        let w: Vec<Double> = part_of(v, 1, vector_len);
        apply_v_to_features(state, &w, math);
    }
}

/// The vector that the first window uses: the one in use, else the first that waits, else the even
/// one behind the alpha of the factor parameters.
pub open spec fn first_vector<E: Fn(usize) -> Double>(
    even: E,
    s: StateView,
    out: Seq<Double>,
) -> bool {
    if s.globals.current_v.len() > 0 {
        out == s.globals.current_v
    } else if s.globals.v_candidates.len() > 0 {
        out == s.globals.v_candidates[0]
    } else {
        let d = if s.globals.feature_dim > 0 {
            s.globals.feature_dim
        } else {
            1
        };
        out.len() == 1 + d && out[0] == s.globals.factor_params.alpha && evened(
            even,
            d,
            out.skip(1),
        )
    }
}

/// With features active, the vector that the first window uses has alpha and one weight for each of
/// them, where the one in use and those that wait have that form.
pub proof fn first_vector_fits<E: Fn(usize) -> Double>(even: E, s: StateView, out: Seq<Double>)
    requires
        first_vector(even, s, out),
        s.globals.feature_dim > 0,
        s.globals.current_v.len() > 0 ==> s.globals.current_v.len() == 1 + s.globals.feature_dim,
        of_length(s.globals.v_candidates, 1 + s.globals.feature_dim as nat),
    ensures
        out.len() == 1 + s.globals.feature_dim,
{
}

/// The vector that the first window uses.
pub fn starting_vector<E: Fn(usize) -> Double>(state: &SchedulerState, even: &E) -> (r: Vec<Double>)
    requires
        forall|n: usize| #[trigger] call_requires(*even, (n,)),
    ensures
        first_vector(*even, state@, r@),
{
    let current: Vec<Double> = get_current_weight_vec(state);
    if current.len() > 0 {
        return current;
    }
    let waiting: Vec<Vec<Double>> = get_v_candidates(state);
    if waiting.len() > 0 {
        assert(rows(waiting@)[0] == waiting@[0]@);
        return copy_numbers(&waiting[0]);
    }
    let dim: usize = get_active_dim(state);
    let d: usize = if dim > 0 {
        dim
    } else {
        1
    };
    let weights: Vec<Double> = even_weights(d, even);
    let r: Vec<Double> = with_alpha(get_factor_params(state).alpha, &weights);
    assert(r@.skip(1) =~= weights@);
    r
}

/// The search at the end of a window.
pub open spec fn closed(s: WindowView, cur_cov: usize, now_ns: u64) -> WindowView {
    WindowView { window_start: Some(now_ns), last_cov: Some(cur_cov), ..s }
}

/// The search with another vector in use.
pub open spec fn using(s: WindowView, v: Seq<Double>) -> WindowView {
    WindowView { last_vec: v, ..s }
}

/// What the last vector earned: the sites that were covered since, as a number; 0 where there is
/// nothing to compare with.
pub open spec fn earned<R: Fn(i64) -> Double>(
    number: R,
    last_cov: Option<usize>,
    cur_cov: usize,
    reward: Double,
) -> bool {
    match growth(last_cov, cur_cov) {
        Some(d) => call_ensures(number, (d as i64,), reward),
        None => reward == (Double { bits: 0 }),
    }
}

/// Does a covered-sites count fit a signed number?
pub open spec fn countable(last_cov: Option<usize>, cur_cov: usize) -> bool {
    cur_cov <= i64::MAX && (last_cov is Some ==> last_cov->0 <= i64::MAX)
}

impl TpeStage {
    /// A stage that has not run yet.
    pub fn new(params: TpeParams, edges_name: String) -> (r: Self)
        ensures
            r.opt.params == params,
            r.opt.state@ == initial_search(),
            r.edges_name == edges_name,
            r.first_window,
    {
        TpeStage { opt: TpeOptimizer::new(params), rng: fresh_rng(), edges_name, first_window: true }
    }

    /// Ends the window: begins the next one, notes how many sites are covered, and keeps the
    /// search across restarts.
    fn close_window(
        &mut self,
        state: &mut SchedulerState,
        cur_cov: usize,
        now_ns: u64,
        epoch_ms: u64,
    )
        ensures
            final(self).opt.params == old(self).opt.params,
            final(self).rng == old(self).rng,
            final(self).edges_name == old(self).edges_name,
            final(self).first_window == old(self).first_window,
            final(self).opt.state@ == closed(old(self).opt.state@, cur_cov, now_ns),
            final(state)@ == (StateView {
                history: Some(
                    kept_search(final(self).opt.state@, old(state)@.history, epoch_ms),
                ),
                ..old(state)@
            }),
    {
        self.opt.advance_window(now_ns);
        self.opt.set_last_cov(cur_cov);
        self.opt.persist_to_meta_at(state, epoch_ms);
    }

    /// Begins the work of a window that is over, `now_ns` nanoseconds on a clock that never goes back
    /// and `epoch_ms` milliseconds after the Unix epoch.
    ///
    /// The first window only puts a vector to use. Later ones record what the last vector earned,
    /// and the next one has to be chosen and the window to be ended, with
    /// [`choose_next`](Self::choose_next) and [`finish`](Self::finish). `number` turns a count into
    /// a reward.
    pub fn begin<
        R: Fn(i64) -> Double,
        E: Fn(usize) -> Double,
        N: Fn(&Vec<Double>) -> Double,
        O: Fn(Double, Double) -> Double,
        W: Fn(&Vec<Double>, &Vec<Double>) -> Double,
    >(
        &mut self,
        state: &mut SchedulerState,
        cur_cov: usize,
        now_ns: u64,
        epoch_ms: u64,
        number: &R,
        math: &WeightMath<E, N, O, W>,
    ) -> (r: WindowStep)
        requires
            computable(*math),
            forall|d: i64| #[trigger] call_requires(*number, (d,)),
            countable(old(self).opt.state@.last_cov, cur_cov),
            old(state)@.globals.feature_dim < usize::MAX,
            old(self).opt.state@.trials.len() < usize::MAX,
        ensures
            final(self).opt.params == old(self).opt.params,
            final(self).rng == old(self).rng,
            final(self).edges_name == old(self).edges_name,
            !due(old(self).opt.state@, old(self).opt.params.period, now_ns) ==> {
                &&& r == WindowStep::Idle
                &&& final(self).opt.state@ == old(self).opt.state@
                &&& final(self).first_window == old(self).first_window
                &&& final(state)@ == old(state)@
            },
            due(old(self).opt.state@, old(self).opt.params.period, now_ns) && old(
                self,
            ).first_window ==> {
                let before = old(self).opt.state@;
                let v = final(self).opt.state@.last_vec;
                &&& r == WindowStep::Idle
                &&& if before.last_vec.len() > 0 {
                    v == before.last_vec
                } else {
                    first_vector(math.even, old(state)@, v)
                }
                &&& final(self).opt.state@ == closed(using(before, v), cur_cov, now_ns)
                &&& !final(self).first_window
                &&& put_to_use(
                    *math,
                    old(state)@,
                    v,
                    StateView { history: old(state)@.history, ..final(state)@ },
                )
                &&& final(state)@.history == Some(
                    kept_search(final(self).opt.state@, old(state)@.history, epoch_ms),
                )
            },
            due(old(self).opt.state@, old(self).opt.params.period, now_ns) && !old(
                self,
            ).first_window ==> {
                let before = old(self).opt.state@;
                &&& r matches WindowStep::Suggest(reward)
                &&& earned(*number, before.last_cov, cur_cov, reward)
                &&& final(self).opt.state@ == with_point(
                    WindowView { last_cov: Some(cur_cov), ..before },
                    Point { vec: before.last_vec, reward },
                )
                &&& !final(self).first_window
                &&& final(state)@ == old(state)@
            },
    {
        if !self.opt.window_due(now_ns) {
            return WindowStep::Idle;
        }
        if self.first_window {
            if !self.opt.has_last_vec() {
                let v: Vec<Double> = starting_vector(state, &math.even);
                self.opt.set_last_vec(&v);
            }
            let last: Vec<Double> = self.opt.last_vec();
            use_vector(state, &last, math);
            let ghost used = state@;
            self.close_window(state, cur_cov, now_ns, epoch_ms);
            assert(StateView { history: old(state)@.history, ..state@ } == used);
            self.first_window = false;
            return WindowStep::Idle;
        }
        let reward: Double = match self.opt.take_reward_from_coverage(cur_cov) {
            Some(d) => {
                assert(call_requires(*number, (d,)));
                number(d)
            },
            None => Double::zero(),
        };
        let last: Vec<Double> = self.opt.last_vec();
        self.opt.observe(&last, reward);
        WindowStep::Suggest(reward)
    }

    /// Chooses the vector for the next window. The numbers are as for [`TpeOptimizer::suggest`].
    pub fn choose_next<
        F: Fn(Double, Double, Double) -> bool,
        P: Fn(&Vec<Double>) -> Vec<Double>,
        G: Fn(&Vec<Double>, Double) -> Vec<Double>,
        D: Fn(&Vec<Trial>, &Vec<Double>, Double) -> Double,
        O: Fn(Double, Double) -> Double,
    >(
        &mut self,
        state: &mut SchedulerState,
        quota: usize,
        within: &F,
        project: &P,
        draw: &G,
        kde: &Kde<D, O>,
    ) -> (r: Vec<Double>)
        requires
            askable(*within),
            projectable(*project),
            drawable(*draw),
            estimable(*kde),
            has_settled(old(self).opt.state@) || old(self).opt.state@.trials.len() < LEAST_TRIALS
                || ordered_rewards(old(self).opt.state@.trials),
        ensures
            final(self).opt.params == old(self).opt.params,
            final(self).rng == old(self).rng,
            final(self).edges_name == old(self).edges_name,
            final(self).first_window == old(self).first_window,
            final(self).opt.state@.last_vec == r@,
            suggested(
                *within,
                *project,
                *draw,
                *kde,
                old(self).opt.state@,
                quota as nat,
                old(self).opt.params.bw,
                old(state)@.globals.v_candidates,
                r,
                using(final(self).opt.state@, old(self).opt.state@.last_vec),
                final(state)@.globals.v_candidates,
            ),
            final(state)@ == with_pool(old(state)@, final(state)@.globals.v_candidates),
    {
        let v: Vec<Double> = self.opt.suggest(state, quota, within, project, draw, kde);
        let ghost s = self.opt.state@;
        self.opt.set_last_vec(&v);
        assert(using(self.opt.state@, s.last_vec) == s);
        v
    }

    /// Ends the work of a window: puts the chosen vector to use, and begins the next window.
    pub fn finish<
        E: Fn(usize) -> Double,
        N: Fn(&Vec<Double>) -> Double,
        O: Fn(Double, Double) -> Double,
        W: Fn(&Vec<Double>, &Vec<Double>) -> Double,
    >(
        &mut self,
        state: &mut SchedulerState,
        v: &Vec<Double>,
        cur_cov: usize,
        now_ns: u64,
        epoch_ms: u64,
        math: &WeightMath<E, N, O, W>,
    )
        requires
            computable(*math),
            old(state)@.globals.feature_dim < usize::MAX,
        ensures
            final(self).opt.params == old(self).opt.params,
            final(self).rng == old(self).rng,
            final(self).edges_name == old(self).edges_name,
            final(self).first_window == old(self).first_window,
            final(self).opt.state@ == closed(old(self).opt.state@, cur_cov, now_ns),
            put_to_use(
                *math,
                old(state)@,
                v@,
                StateView { history: old(state)@.history, ..final(state)@ },
            ),
            final(state)@.history == Some(
                kept_search(final(self).opt.state@, old(state)@.history, epoch_ms),
            ),
    {
        use_vector(state, v, math);
        let ghost used = state@;
        self.close_window(state, cur_cov, now_ns, epoch_ms);
        assert(StateView { history: old(state)@.history, ..state@ } == used);
    }

    /// Is a window over that the search should work on? Takes up what was kept across a restart
    /// first.
    pub fn should_restart(&mut self, state: &SchedulerState, now_ns: u64) -> (r: bool)
        ensures
            final(self).opt.params == old(self).opt.params,
            final(self).rng == old(self).rng,
            final(self).edges_name == old(self).edges_name,
            final(self).first_window == old(self).first_window,
            final(self).opt.state@ == taken_up(old(self).opt.state@, state@.history, now_ns),
            r == (enabled(state@) && state@.globals.tpe_satisfied && due(
                final(self).opt.state@,
                final(self).opt.params.period,
                now_ns,
            )),
    {
        self.opt.restore_once(state, now_ns);
        get_features_enabled(state) && get_tpe_satisfied(state) && self.opt.window_due(now_ns)
    }
}

/// The weights of a vector as text, each behind the name of its feature.
pub open spec fn labelled(numbers: Seq<Seq<char>>, names: Seq<Seq<char>>, n: nat) -> Seq<char>
    decreases n,
{
    if n == 0 {
        Seq::empty()
    } else {
        let i = n - 1;
        let label = if i < names.len() {
            names[i]
        } else {
            "?"@
        };
        labelled(numbers, names, i as nat) + ","@ + label + "="@ + numbers[i + 1]
    }
}

/// A vector as text: alpha, then each weight behind the name of its feature.
pub open spec fn vector_line(numbers: Seq<Seq<char>>, names: Seq<Seq<char>>) -> Seq<char> {
    if numbers.len() > 1 {
        "[alpha="@ + numbers[0] + labelled(numbers, names, (numbers.len() - 1) as nat) + "]"@
    } else {
        "[]"@
    }
}

/// A vector as text: alpha, then each weight behind the name of its feature. The caller gives the
/// numbers as text.
pub fn vector_text(numbers: &Vec<String>, names: &Vec<String>) -> (r: String)
    ensures
        r@ == vector_line(texts(numbers@), texts(names@)),
{
    let ghost ns = texts(numbers@);
    let ghost labels = texts(names@);
    if numbers.len() <= 1 {
        return "[]".to_owned();
    }
    let mut weights: String = "".to_owned();
    proof {
        reveal_strlit("");
        assert(weights@ =~= Seq::<char>::empty());
    }
    let mut i: usize = 0;
    while i < numbers.len() - 1
        invariant
            numbers@.len() > 1,
            i <= numbers@.len() - 1,
            ns == texts(numbers@),
            labels == texts(names@),
            weights@ == labelled(ns, labels, i as nat),
        decreases numbers@.len() - 1 - i,
    {
        assert(ns[i + 1] == numbers@[i + 1]@);
        weights.append(",");
        if i < names.len() {
            assert(labels[i as int] == names@[i as int]@);
            weights.append(names[i].as_str());
        } else {
            weights.append("?");
        }
        weights.append("=");
        weights.append(numbers[i + 1].as_str());
        i = i + 1;
    }
    assert(ns[0] == numbers@[0]@);
    let mut out: String = "[alpha=".to_owned();
    out.append(numbers[0].as_str());
    out.append(weights.as_str());
    out.append("]");
    out
}

/// The numbers that are shown of a window, as text.
pub struct WindowNumbers {
    pub reward: String,
    pub alpha: String,
    pub v_norm: String,
    pub vector: Vec<String>,
    pub bw: String,
    pub gamma: String,
}

/// The line that shows a window.
pub open spec fn window_line(
    x: WindowNumbers,
    names: Seq<Seq<char>>,
    cur_cov: usize,
    trials: nat,
    corpus: usize,
    dim: usize,
    params: TpeParams,
) -> Seq<char> {
    "reward=ΔEdges="@ + x.reward@ + ", Coverage="@ + decimal(cur_cov as nat) + ", trials="@
        + decimal(trials) + ", corpus="@ + decimal(corpus as nat) + ", alpha="@ + x.alpha@
        + ", v_norm="@ + x.v_norm@ + ", v="@ + vector_line(texts(x.vector@), names)
        + ", active_dim="@ + decimal(dim as nat) + ", bw="@ + x.bw@ + ", gamma="@ + x.gamma@
        + ", samples="@ + decimal(params.samples as nat) + ", period="@ + seconds(
        params.period as nat,
    )
}

impl TpeStage {
    /// The line that shows a window that was worked on.
    pub fn info_text(
        &self,
        state: &SchedulerState,
        x: &WindowNumbers,
        cur_cov: usize,
        corpus: usize,
    ) -> (r: String)
        ensures
            r@ == window_line(
                *x,
                state@.globals.active_feature_names,
                cur_cov,
                self.opt.state@.trials.len(),
                corpus,
                state@.globals.feature_dim,
                self.opt.params,
            ),
    {
        let names: Vec<String> = super::get_active_feature_names(state);
        let mut out: String = "reward=ΔEdges=".to_owned();
        out.append(x.reward.as_str());
        out.append(", Coverage=");
        out.append(decimal_text(cur_cov as u64).as_str());
        out.append(", trials=");
        out.append(decimal_text(self.opt.state.trials.len() as u64).as_str());
        out.append(", corpus=");
        out.append(decimal_text(corpus as u64).as_str());
        out.append(", alpha=");
        out.append(x.alpha.as_str());
        out.append(", v_norm=");
        out.append(x.v_norm.as_str());
        out.append(", v=");
        out.append(vector_text(&x.vector, &names).as_str());
        out.append(", active_dim=");
        out.append(decimal_text(get_active_dim(state) as u64).as_str());
        out.append(", bw=");
        out.append(x.bw.as_str());
        out.append(", gamma=");
        out.append(x.gamma.as_str());
        out.append(", samples=");
        out.append(decimal_text(self.opt.params.samples as u64).as_str());
        out.append(", period=");
        out.append(seconds_text(self.opt.params.period).as_str());
        out
    }
}

/// A vector that is put to use is the one in use from then on, with its alpha forced into the unit
/// interval: the weight of each active feature is the component behind alpha that stands at the place
/// of the feature. Its alpha becomes that of the factor, and every coverage site weighs what combining
/// the stored map with those weights gives it. A longer vector counts as far as there are features.
pub proof fn used_vectors_are_in_use<
    E: Fn(usize) -> Double,
    N: Fn(&Vec<Double>) -> Double,
    O: Fn(Double, Double) -> Double,
    W: Fn(&Vec<Double>, &Vec<Double>) -> Double,
>(
    math: WeightMath<E, N, O, W>,
    s: StateView,
    v: Seq<Double>,
    after: StateView,
)
    requires
        put_to_use(math, s, v, after),
        s.globals.feature_dim > 0,
        v.len() >= 1 + s.globals.feature_dim,
    ensures
        after.globals.current_v.len() == 1 + s.globals.feature_dim,
        after.globals.current_v[0] == v[0].unit(),
        forall|j: int|
            1 <= j <= s.globals.feature_dim ==> #[trigger] after.globals.current_v[j] == v[j],
        v.len() == 1 + s.globals.feature_dim ==> after.globals.current_v == seq![v[0].unit()]
            + v.skip(1),
        after.globals.factor_params == (FactorParams {
            alpha: v[0].unit(),
            ..s.globals.factor_params
        }),
        after.feats is Some,
        v.len() == 1 + s.globals.feature_dim ==> reapplied(
            math,
            s,
            v.skip(1),
            s.globals.active_feature_names,
            after.feats->0,
        ),
        after == (StateView {
            feats: after.feats,
            globals: GlobalsView {
                current_v: after.globals.current_v,
                factor_params: after.globals.factor_params,
                ..s.globals
            },
            ..s
        }),
{
    let dim = s.globals.feature_dim as int;
    crate::double::unit_is_idempotent(v[0]);
    super::weights::applied_weights_are_in_use(
        with_alpha_of(s, v),
        v.subrange(1, 1 + dim),
        after.feats->0,
    );
    assert forall|j: int| 1 <= j <= dim implies #[trigger] after.globals.current_v[j] == v[j] by {
        assert(after.globals.current_v[(j - 1) + 1] == v.subrange(1, 1 + dim)[j - 1]);
    }
    if v.len() == 1 + dim {
        assert(v.subrange(1, 1 + dim) =~= v.skip(1));
        assert(after.globals.current_v =~= seq![v[0].unit()] + v.skip(1));
    }
}

/// The coverage sites weigh what combining the stored map with the weights of the vector in use gives.
pub proof fn used_vectors_weigh_the_sites<
    E: Fn(usize) -> Double,
    N: Fn(&Vec<Double>) -> Double,
    O: Fn(Double, Double) -> Double,
    W: Fn(&Vec<Double>, &Vec<Double>) -> Double,
>(
    math: WeightMath<E, N, O, W>,
    s: StateView,
    v: Seq<Double>,
    out: Seq<Double>,
    after: StateView,
    i: int,
)
    requires
        super::weights::single_valued(math),
        put_to_use(math, s, v, after),
        v.len() == 1 + s.globals.feature_dim,
        s.matrix is Some,
        super::weights::combined(
            math,
            (s.matrix->0).columns,
            v.skip(1),
            s.globals.active_feature_names,
            out,
        ),
        0 <= i < (s.matrix->0).sites,
    ensures
        after.feats is Some,
        (after.feats->0).len() == (s.matrix->0).sites,
        after.feats->0[i] == (if i < out.len() {
            out[i]
        } else {
            Double { bits: 0 }
        }),
{
    let dim = s.globals.feature_dim as int;
    assert(v.subrange(1, 1 + dim) =~= v.skip(1));
    super::weights::applied_weights_are_combined(
        math,
        with_alpha_of(s, v),
        v.skip(1),
        s.globals.active_feature_names,
        out,
        after.feats->0,
    );
}

/// A vector that is too short changes nothing.
pub proof fn short_vectors_are_not_used<
    E: Fn(usize) -> Double,
    N: Fn(&Vec<Double>) -> Double,
    O: Fn(Double, Double) -> Double,
    W: Fn(&Vec<Double>, &Vec<Double>) -> Double,
>(
    math: WeightMath<E, N, O, W>,
    s: StateView,
    v: Seq<Double>,
    after: StateView,
)
    requires
        put_to_use(math, s, v, after),
        v.len() < 1 + s.globals.feature_dim,
    ensures
        after == s,
{
}

/// The first window uses the vector that is in use already; where there is none, the first of those
/// that wait; where none waits, the alpha of the factor and the even weight for each active feature.
pub proof fn first_windows_begin<E: Fn(usize) -> Double>(
    even: E,
    s: StateView,
    w: Double,
    out: Seq<Double>,
)
    requires
        first_vector(even, s, out),
        forall|x: Double| #[trigger] call_ensures(even, (s.globals.feature_dim,), x) ==> x == w,
    ensures
        s.globals.current_v.len() > 0 ==> out == s.globals.current_v,
        s.globals.current_v.len() == 0 && s.globals.v_candidates.len() > 0 ==> out
            == s.globals.v_candidates[0],
        s.globals.current_v.len() == 0 && s.globals.v_candidates.len() == 0
            && s.globals.feature_dim > 0 ==> out.len() == 1 + s.globals.feature_dim && out[0]
            == s.globals.factor_params.alpha && forall|i: int|
            1 <= i < out.len() ==> #[trigger] out[i] == w,
{
    if s.globals.current_v.len() == 0 && s.globals.v_candidates.len() == 0 && s.globals.feature_dim
        > 0 {
        assert forall|i: int| 1 <= i < out.len() implies #[trigger] out[i] == w by {
            assert(out.skip(1)[i - 1] == out[i]);
        }
    }
}

/// What a vector earned is the number of sites that were covered while it was in use, and 0 where
/// their number before is not known.
pub proof fn earnings_are_new_sites<R: Fn(i64) -> Double>(
    number: R,
    last_cov: Option<usize>,
    cur_cov: usize,
    reward: Double,
)
    requires
        countable(last_cov, cur_cov),
        earned(number, last_cov, cur_cov, reward),
    ensures
        last_cov is None ==> reward == (Double { bits: 0 }),
        last_cov is Some ==> call_ensures(number, ((cur_cov - last_cov->0) as i64,), reward),
{
}

/// The end of a window notes when it ended and how many sites are covered, and leaves the trials, the
/// vector in use and what was settled as they are.
pub proof fn windows_end(s: WindowView, v: Seq<Double>, cur_cov: usize, now_ns: u64)
    ensures
        ({
            let t = closed(using(s, v), cur_cov, now_ns);
            &&& t.window_start == Some(now_ns)
            &&& t.last_cov == Some(cur_cov)
            &&& t.last_vec == v
            &&& t.trials == s.trials
            &&& t.last_corpus == s.last_corpus
            &&& t.no_new_counter == s.no_new_counter
            &&& t.lock_best == s.lock_best
            &&& t.best_fixed == s.best_fixed
            &&& t.restored_once == s.restored_once
        }),
{
}

/// Each weight of a vector is shown behind the name of the feature at its place, in order.
pub proof fn weights_are_shown_by_name(
    numbers: Seq<Seq<char>>,
    names: Seq<Seq<char>>,
    n: nat,
)
    requires
        n < names.len(),
        n + 1 < numbers.len(),
    ensures
        labelled(numbers, names, 0).len() == 0,
        labelled(numbers, names, n + 1) == labelled(numbers, names, n) + ","@ + names[n as int]
            + "="@ + numbers[n as int + 1],
        vector_line(numbers, names) == "[alpha="@ + numbers[0] + labelled(
            numbers,
            names,
            (numbers.len() - 1) as nat,
        ) + "]"@,
{
}

/// Using a vector of alpha and one weight for each active feature makes exactly that vector the one in
/// use, with its alpha forced into the unit interval.
pub proof fn vectors_are_used_as_they_are<
    E: Fn(usize) -> Double,
    N: Fn(&Vec<Double>) -> Double,
    O: Fn(Double, Double) -> Double,
    W: Fn(&Vec<Double>, &Vec<Double>) -> Double,
>(
    state: &mut SchedulerState,
    v: Vec<Double>,
    math: WeightMath<E, N, O, W>,
)
    requires
        call_ensures(use_vector::<E, N, O, W>, (state, &v, &math), ()),
        old(state)@.globals.feature_dim > 0,
        v@.len() == 1 + old(state)@.globals.feature_dim,
    ensures
        final(state)@.globals.current_v == seq![v@[0].unit()] + v@.skip(1),
        final(state)@.globals.factor_params.alpha == v@[0].unit(),
        final(state)@.globals.v_candidates == old(state)@.globals.v_candidates,
        final(state)@.matrix == old(state)@.matrix,
{
    used_vectors_are_in_use(math, old(state)@, v@, final(state)@);
}

/// Before its window is over the stage does nothing.
pub proof fn stages_wait_for_the_window<
    R: Fn(i64) -> Double,
    E: Fn(usize) -> Double,
    N: Fn(&Vec<Double>) -> Double,
    O: Fn(Double, Double) -> Double,
    W: Fn(&Vec<Double>, &Vec<Double>) -> Double,
>(
    stage: &mut TpeStage,
    state: &mut SchedulerState,
    cur_cov: usize,
    now_ns: u64,
    epoch_ms: u64,
    number: R,
    math: WeightMath<E, N, O, W>,
    r: WindowStep,
)
    requires
        call_ensures(
            TpeStage::begin::<R, E, N, O, W>,
            (stage, state, cur_cov, now_ns, epoch_ms, &number, &math),
            r,
        ),
        old(stage).opt.state@.window_start matches Some(t0) && old(stage).opt.params.period > 0
            && now_ns < t0 + old(stage).opt.params.period * 1_000_000_000,
    ensures
        r == WindowStep::Idle,
        final(stage).opt.state@ == old(stage).opt.state@,
        final(state)@ == old(state)@,
{
}

/// Once a window other than the first is over, the vector that was in use is recorded with the number of
/// sites that were covered since, and the state does not change until the next one is chosen.
pub proof fn stages_record_what_was_covered<
    R: Fn(i64) -> Double,
    E: Fn(usize) -> Double,
    N: Fn(&Vec<Double>) -> Double,
    O: Fn(Double, Double) -> Double,
    W: Fn(&Vec<Double>, &Vec<Double>) -> Double,
>(
    stage: &mut TpeStage,
    state: &mut SchedulerState,
    before_cov: usize,
    cur_cov: usize,
    now_ns: u64,
    epoch_ms: u64,
    number: R,
    math: WeightMath<E, N, O, W>,
    reward: Double,
    r: WindowStep,
)
    requires
        call_ensures(
            TpeStage::begin::<R, E, N, O, W>,
            (stage, state, cur_cov, now_ns, epoch_ms, &number, &math),
            r,
        ),
        old(stage).opt.state@.window_start is Some,
        now_ns >= old(stage).opt.state@.window_start->0 + old(stage).opt.params.period
            * 1_000_000_000,
        !old(stage).first_window,
        old(stage).opt.state@.last_cov == Some(before_cov),
        countable(Some(before_cov), cur_cov),
        old(stage).opt.state@.trials.len() < 1024,
        forall|x: Double| #[trigger]
            call_ensures(number, ((cur_cov - before_cov) as i64,), x) ==> x == reward,
    ensures
        r == WindowStep::Suggest(reward),
        final(stage).opt.state@.trials == old(stage).opt.state@.trials.push(
            Point { vec: old(stage).opt.state@.last_vec, reward },
        ),
        final(stage).opt.state@.last_cov == Some(cur_cov),
        final(stage).opt.state@.last_vec == old(stage).opt.state@.last_vec,
        final(state)@ == old(state)@,
{
    crate::libfun::tpe::recorded_points_come_last(
        WindowView { last_cov: Some(cur_cov), ..old(stage).opt.state@ },
        Point { vec: old(stage).opt.state@.last_vec, reward },
    );
}

/// The first window records nothing. It puts the last vector of the search to use, and begins.
pub proof fn first_windows_record_nothing<
    R: Fn(i64) -> Double,
    E: Fn(usize) -> Double,
    N: Fn(&Vec<Double>) -> Double,
    O: Fn(Double, Double) -> Double,
    W: Fn(&Vec<Double>, &Vec<Double>) -> Double,
>(
    stage: &mut TpeStage,
    state: &mut SchedulerState,
    cur_cov: usize,
    now_ns: u64,
    epoch_ms: u64,
    number: R,
    math: WeightMath<E, N, O, W>,
    r: WindowStep,
)
    requires
        call_ensures(
            TpeStage::begin::<R, E, N, O, W>,
            (stage, state, cur_cov, now_ns, epoch_ms, &number, &math),
            r,
        ),
        old(stage).opt.state@.window_start is None,
        old(stage).first_window,
        old(state)@.globals.feature_dim > 0,
        old(stage).opt.state@.last_vec.len() == 1 + old(state)@.globals.feature_dim,
    ensures
        r == WindowStep::Idle,
        !final(stage).first_window,
        final(stage).opt.state@.trials == old(stage).opt.state@.trials,
        final(stage).opt.state@.last_vec == old(stage).opt.state@.last_vec,
        final(stage).opt.state@.window_start == Some(now_ns),
        final(stage).opt.state@.last_cov == Some(cur_cov),
        final(state)@.globals.current_v == seq![old(stage).opt.state@.last_vec[0].unit()] + old(
            stage,
        ).opt.state@.last_vec.skip(1),
        final(state)@.history is Some,
        (final(state)@.history->0).last_vec == old(stage).opt.state@.last_vec,
{
    used_vectors_are_in_use(
        math,
        old(state)@,
        old(stage).opt.state@.last_vec,
        StateView { history: old(state)@.history, ..final(state)@ },
    );
}

/// The end of a window puts the chosen vector to use, begins the next window, notes how many sites are
/// covered, and keeps the search.
pub proof fn stages_finish_with_the_vector<
    E: Fn(usize) -> Double,
    N: Fn(&Vec<Double>) -> Double,
    O: Fn(Double, Double) -> Double,
    W: Fn(&Vec<Double>, &Vec<Double>) -> Double,
>(
    stage: &mut TpeStage,
    state: &mut SchedulerState,
    v: Vec<Double>,
    cur_cov: usize,
    now_ns: u64,
    epoch_ms: u64,
    math: WeightMath<E, N, O, W>,
)
    requires
        call_ensures(
            TpeStage::finish::<E, N, O, W>,
            (stage, state, &v, cur_cov, now_ns, epoch_ms, &math),
            (),
        ),
        old(state)@.globals.feature_dim > 0,
        v@.len() == 1 + old(state)@.globals.feature_dim,
    ensures
        final(state)@.globals.current_v == seq![v@[0].unit()] + v@.skip(1),
        final(stage).opt.state@.window_start == Some(now_ns),
        final(stage).opt.state@.last_cov == Some(cur_cov),
        final(stage).opt.state@.trials == old(stage).opt.state@.trials,
        final(state)@.history is Some,
        (final(state)@.history->0).last_check_ms == Some(epoch_ms),
        (final(state)@.history->0).last_cov == Some(cur_cov),
        (final(state)@.history->0).last_vec == old(stage).opt.state@.last_vec,
        final(state)@.globals.v_candidates == old(state)@.globals.v_candidates,
{
    used_vectors_are_in_use(
        math,
        old(state)@,
        v@,
        StateView { history: old(state)@.history, ..final(state)@ },
    );
}

/// The stage asks for work only where the features count, the map allows the search, and the window is
/// over.
pub proof fn stages_restart_when_due(
    stage: &mut TpeStage,
    state: SchedulerState,
    now_ns: u64,
    r: bool,
)
    requires
        call_ensures(TpeStage::should_restart, (stage, &state, now_ns), r),
        old(stage).opt.state@.restored_once,
    ensures
        final(stage).opt.state@ == old(stage).opt.state@,
        r <==> state@.globals.features_active && state@.globals.feat_exists && state@.feat_mode
            != Some(0u8) && state@.globals.tpe_satisfied && (old(
            stage,
        ).opt.state@.window_start is None || old(stage).opt.params.period == 0 || now_ns >= old(
            stage,
        ).opt.state@.window_start->0 + old(stage).opt.params.period * 1_000_000_000),
{
}

} // verus!
