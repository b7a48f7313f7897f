//! Switches try named routes in sequence; the first route that does not reject decides.

use vstd::prelude::*;

use crate::actions::{ActionError, CheckResult, TargetResult, TransformResult};
use crate::error::{RoutingError, RoutingProblem};
use crate::job::{Job, JobContents};
use crate::json::{lemma_member_trees, trees, Json, Tree};
use crate::result::JobResult;
use crate::routing::{
    action_facts, actions_facts, descriptor_of, lemma_actions_facts, lemma_routes_facts, route_facts,
    routes_facts, terminal, Action, ActionFacts, Route, RouteFacts, StepFacts,
};
use crate::text::{cat2, decimal, decimal_text, join, joined, texts};

verus! {

/// Tries named routes in sequence, returning the result of the first that does not reject.
#[derive(Debug)]
pub struct Switch {
    pub routes: Vec<Route>,
}

impl View for Switch {
    type V = Seq<RouteFacts>;

    open spec fn view(&self) -> Seq<RouteFacts> {
        routes_facts(self.routes@)
    }
}

// ---------------------------------------------------------------------------------------------
// What a switch does with a job
// ---------------------------------------------------------------------------------------------

/// What running one action gave.
pub enum StepOutcome {
    /// The route goes on, with a new job after a transform.
    Proceed(Option<Job>),
    /// The route is rejected.
    Reject { reason: String, silent: bool },
    /// The job is done.
    Complete(JobResult),
    /// The action failed.
    Fail(ActionError),
}

/// The mathematical contents of a [`StepOutcome`].
pub enum OutcomeFacts {
    Proceed(Option<JobContents>),
    Reject { reason: Seq<char>, silent: bool },
    Complete(JobResult),
    Fail(ActionError),
}

impl View for StepOutcome {
    type V = OutcomeFacts;

    open spec fn view(&self) -> OutcomeFacts {
        match *self {
            StepOutcome::Proceed(Some(job)) => OutcomeFacts::Proceed(Some(job@)),
            StepOutcome::Proceed(None) => OutcomeFacts::Proceed(None),
            StepOutcome::Reject { reason, silent } => OutcomeFacts::Reject {
                reason: reason@,
                silent,
            },
            StepOutcome::Complete(result) => OutcomeFacts::Complete(result),
            StepOutcome::Fail(e) => OutcomeFacts::Fail(e),
        }
    }
}

/// What the outside shows at one action: the state of the job just before it, the job that the
/// action is given, and what running it gives.
pub struct Observation {
    pub cancelled: bool,
    pub client_present: bool,
    pub job: JobContents,
    pub outcome: OutcomeFacts,
}

/// How a switch ends.
pub enum Verdict {
    Complete(JobResult),
    Reject { reason: Seq<char>, silent: bool },
    Error(ActionError),
}

/// The end of a switch that ran out of routes: the reasons that were not silent, or a silent
/// reason where there are none.
pub open spec fn no_route_left(rejections: Seq<Seq<char>>) -> Verdict {
    if rejections.len() == 0 {
        Verdict::Reject { reason: "no route matched the request"@, silent: true }
    } else {
        Verdict::Reject { reason: joined(rejections, "; "@), silent: false }
    }
}

/// The reasons collected so far after one more rejection.
pub open spec fn with_reason(
    rejections: Seq<Seq<char>>,
    reason: Seq<char>,
    silent: bool,
) -> Seq<Seq<char>> {
    if silent {
        rejections
    } else {
        rejections.push(reason)
    }
}

/// Whether a rejection by a step stays silent.
pub open spec fn stays_silent(override_: Option<bool>, silent: bool) -> bool {
    match override_ {
        Some(o) => o,
        None => silent,
    }
}

/// An action runs on its own, outside any dispatcher, and ends the route.
pub open spec fn bare_target(action: ActionFacts) -> bool {
    action is Target && action->Target_0.dispatcher is None
}

/// How a switch ends from action `j` of route `i` on, given the reasons collected so far, the job
/// that each route starts from and the job as the current route has left it. The observations
/// from `k` on say what happens at each action that is run. The result comes with the number of
/// observations used up; there is none where the observations do not suffice, or where an action
/// was given another job than the one that its route has come to.
#[verifier::opaque]
pub open spec fn run_from(
    routes: Seq<RouteFacts>,
    i: int,
    j: int,
    rejections: Seq<Seq<char>>,
    base: JobContents,
    job: JobContents,
    obs: Seq<Observation>,
    k: int,
) -> Option<(Verdict, int)>
    decreases routes, routes.len() - i, routes[i].actions.len() - j,
{
    if i < 0 || j < 0 || i >= routes.len() {
        Some((no_route_left(rejections), k))
    } else if j >= routes[i].actions.len() {
        run_from(routes, i + 1, 0, rejections, base, base, obs, k)
    } else if k < 0 || k >= obs.len() {
        None
    } else if obs[k].cancelled {
        Some((Verdict::Error(ActionError::Cancelled), k))
    } else {
        let action = routes[i].actions[j];
        match action {
            ActionFacts::Switch(inner) => {
                proof {
                    assert(decreases_to!(routes => routes[i]));
                    assert(decreases_to!(routes[i] => routes[i].actions));
                    assert(decreases_to!(routes[i].actions => routes[i].actions[j]));
                    assert(decreases_to!(routes[i].actions[j] => routes[i].actions[j]->Switch_0));
                }
                match run_from(inner, 0, 0, Seq::empty(), job, job, obs, k) {
                    None => None,
                    Some((Verdict::Reject { reason, silent }, k2)) => run_from(
                        routes,
                        i + 1,
                        0,
                        with_reason(rejections, reason, silent),
                        base,
                        base,
                        obs,
                        k2,
                    ),
                    Some(end) => Some(end),
                }
            },
            _ => {
                if bare_target(action) && !obs[k].client_present {
                    Some((Verdict::Error(ActionError::ClientGone), k))
                } else if obs[k].job != job {
                    None
                } else {
                    match obs[k].outcome {
                        OutcomeFacts::Proceed(changed) => run_from(
                            routes,
                            i,
                            j + 1,
                            rejections,
                            base,
                            match changed {
                                Some(new) => new,
                                None => job,
                            },
                            obs,
                            k + 1,
                        ),
                        OutcomeFacts::Reject { reason, silent } => run_from(
                            routes,
                            i + 1,
                            0,
                            with_reason(
                                rejections,
                                reason,
                                stays_silent(crate::routing::silent_override_of(action), silent),
                            ),
                            base,
                            base,
                            obs,
                            k + 1,
                        ),
                        OutcomeFacts::Complete(result) => Some((Verdict::Complete(result), k + 1)),
                        OutcomeFacts::Fail(e) => Some((Verdict::Error(e), k + 1)),
                    }
                }
            },
        }
    }
}

// ---------------------------------------------------------------------------------------------
// Running a switch step by step
// ---------------------------------------------------------------------------------------------

/// How far one switch has come: the action that is next, the reasons collected so far, the job
/// that each route starts from and the job as the current route has left it.
pub struct Frame {
    pub route: usize,
    pub action: usize,
    pub rejections: Vec<String>,
    pub base: Job,
    pub job: Job,
}

/// The mathematical contents of a [`Frame`].
pub struct FrameFacts {
    pub route: int,
    pub action: int,
    pub rejections: Seq<Seq<char>>,
    pub base: JobContents,
    pub job: JobContents,
}

impl View for Frame {
    type V = FrameFacts;

    open spec fn view(&self) -> FrameFacts {
        FrameFacts {
            route: self.route as int,
            action: self.action as int,
            rejections: texts(self.rejections@),
            base: self.base@,
            job: self.job@,
        }
    }
}

/// A switch under way, with the nested switches that it is inside of, the outermost first.
pub struct SwitchRun {
    pub frames: Vec<Frame>,
}

impl View for SwitchRun {
    type V = Seq<FrameFacts>;

    open spec fn view(&self) -> Seq<FrameFacts> {
        Seq::new(self.frames@.len(), |d: int| self.frames@[d]@)
    }
}

/// What to do next.
pub enum Progress {
    /// Run the current action, then report what it gave.
    Run(SwitchRun),
    /// The switch has ended.
    Done(Result<TargetResult, ActionError>),
}

/// The end of a switch as its caller sees it.
pub open spec fn verdict(result: Result<TargetResult, ActionError>) -> Verdict {
    match result {
        Ok(TargetResult::Complete(r)) => Verdict::Complete(r),
        Ok(TargetResult::Reject { reason, silent }) => Verdict::Reject { reason: reason@, silent },
        Err(e) => Verdict::Error(e),
    }
}

/// The routes that the frame at depth `d` walks through.
pub open spec fn level(routes: Seq<RouteFacts>, frames: Seq<FrameFacts>, d: int) -> Seq<RouteFacts>
    decreases d,
{
    if d <= 0 {
        routes
    } else {
        let outer = level(routes, frames, d - 1);
        outer[frames[d - 1].route].actions[frames[d - 1].action]->Switch_0
    }
}

/// Every frame but the last stands at a nested switch, which the next frame walks through.
pub open spec fn on_track(routes: Seq<RouteFacts>, frames: Seq<FrameFacts>) -> bool {
    &&& frames.len() >= 1
    &&& forall|d: int|
        #![trigger frames[d]]
        0 <= d < frames.len() - 1 ==> {
            let at = level(routes, frames, d);
            &&& 0 <= frames[d].route < at.len()
            &&& 0 <= frames[d].action < at[frames[d].route].actions.len()
            &&& at[frames[d].route].actions[frames[d].action] is Switch
        }
    &&& 0 <= frames.last().route
    &&& 0 <= frames.last().action
}

/// The action that is next in the innermost switch.
pub open spec fn current_action(routes: Seq<RouteFacts>, frames: Seq<FrameFacts>) -> ActionFacts {
    level(routes, frames, frames.len() - 1)[frames.last().route].actions[frames.last().action]
}

/// The innermost switch stands at an action that can be run.
pub open spec fn at_step(routes: Seq<RouteFacts>, frames: Seq<FrameFacts>) -> bool {
    let at = level(routes, frames, frames.len() - 1);
    &&& on_track(routes, frames)
    &&& frames.last().route < at.len()
    &&& frames.last().action < at[frames.last().route].actions.len()
    &&& !(current_action(routes, frames) is Switch)
}

/// Hands the end of the switch at depth `d` to the switches around it.
#[verifier::opaque]
pub open spec fn unwind(
    routes: Seq<RouteFacts>,
    frames: Seq<FrameFacts>,
    d: int,
    end: Option<(Verdict, int)>,
    obs: Seq<Observation>,
) -> Option<(Verdict, int)>
    decreases d,
{
    if d <= 0 {
        end
    } else {
        match end {
            Some((Verdict::Reject { reason, silent }, k)) => {
                let outer = frames[d - 1];
                unwind(
                    routes,
                    frames,
                    d - 1,
                    run_from(
                        level(routes, frames, d - 1),
                        outer.route + 1,
                        0,
                        with_reason(outer.rejections, reason, silent),
                        outer.base,
                        outer.base,
                        obs,
                        k,
                    ),
                    obs,
                )
            },
            _ => end,
        }
    }
}

/// How a switch that is under way ends.
pub open spec fn run_on(
    routes: Seq<RouteFacts>,
    frames: Seq<FrameFacts>,
    obs: Seq<Observation>,
    k: int,
) -> Option<(Verdict, int)> {
    let d = frames.len() - 1;
    let f = frames[d];
    unwind(
        routes,
        frames,
        d,
        run_from(
            level(routes, frames, d),
            f.route,
            f.action,
            f.rejections,
            f.base,
            f.job,
            obs,
            k,
        ),
        obs,
    )
}

/// The observation at `k` shows this state of the job.
pub open spec fn shows(
    obs: Seq<Observation>,
    k: int,
    cancelled: bool,
    client_present: bool,
) -> bool {
    0 <= k < obs.len() && obs[k].cancelled == cancelled && obs[k].client_present == client_present
}

/// A bound on what is left to do, so that a run is seen to end.
#[verifier::opaque]
pub closed spec fn weight_from(routes: Seq<RouteFacts>, i: int, j: int) -> nat
    decreases routes, routes.len() - i, routes[i].actions.len() - j,
{
    if i < 0 || j < 0 || i >= routes.len() {
        1
    } else if j >= routes[i].actions.len() {
        1 + weight_from(routes, i + 1, 0)
    } else {
        match routes[i].actions[j] {
            ActionFacts::Switch(inner) => {
                proof {
                    assert(decreases_to!(routes => routes[i]));
                    assert(decreases_to!(routes[i] => routes[i].actions));
                    assert(decreases_to!(routes[i].actions => routes[i].actions[j]));
                    assert(decreases_to!(routes[i].actions[j] => routes[i].actions[j]->Switch_0));
                }
                2 + weight_from(inner, 0, 0) + weight_from(routes, i, j + 1)
            },
            _ => 1 + weight_from(routes, i, j + 1),
        }
    }
}

proof fn lemma_next_route_is_lighter(routes: Seq<RouteFacts>, i: int, j: int)
    requires
        0 <= i < routes.len(),
        0 <= j,
    ensures
        weight_from(routes, i + 1, 0) < weight_from(routes, i, j),
    decreases routes[i].actions.len() - j,
{
    reveal(weight_from);
    if j < routes[i].actions.len() {
        lemma_next_route_is_lighter(routes, i, j + 1);
    }
}

#[verifier::opaque]
pub closed spec fn weight_of(routes: Seq<RouteFacts>, frames: Seq<FrameFacts>, d: int) -> nat
    decreases d + 1,
{
    if d < 0 {
        0
    } else {
        let f = frames[d];
        weight_of(routes, frames, d - 1) + if d == frames.len() - 1 {
            weight_from(level(routes, frames, d), f.route, f.action)
        } else {
            weight_from(level(routes, frames, d), f.route + 1, 0)
        }
    }
}

proof fn lemma_level_prefix(
    routes: Seq<RouteFacts>,
    a: Seq<FrameFacts>,
    b: Seq<FrameFacts>,
    d: int,
)
    requires
        0 <= d <= a.len(),
        d <= b.len(),
        forall|e: int|
            0 <= e < d ==> (#[trigger] a[e]).route == b[e].route && a[e].action == b[e].action,
    ensures
        level(routes, a, d) == level(routes, b, d),
    decreases d,
{
    if d > 0 {
        lemma_level_prefix(routes, a, b, d - 1);
        assert(a[d - 1].route == b[d - 1].route);
    }
}

proof fn lemma_unwind_prefix(
    routes: Seq<RouteFacts>,
    a: Seq<FrameFacts>,
    b: Seq<FrameFacts>,
    d: int,
    end: Option<(Verdict, int)>,
    obs: Seq<Observation>,
)
    requires
        0 <= d <= a.len(),
        d <= b.len(),
        forall|e: int| 0 <= e < d ==> #[trigger] a[e] == b[e],
    ensures
        unwind(routes, a, d, end, obs) == unwind(routes, b, d, end, obs),
    decreases d,
{
    reveal(unwind);
    if d > 0 {
        match end {
            Some((Verdict::Reject { reason, silent }, k)) => {
                let outer = a[d - 1];
                assert(a[d - 1] == b[d - 1]);
                assert forall|e: int| 0 <= e < d - 1 implies (#[trigger] a[e]).route == b[e].route
                    && a[e].action == b[e].action by {
                    assert(a[e] == b[e]);
                }
                lemma_level_prefix(routes, a, b, d - 1);
                let next = run_from(
                    level(routes, a, d - 1),
                    outer.route + 1,
                    0,
                    with_reason(outer.rejections, reason, silent),
                    outer.base,
                    outer.base,
                    obs,
                    k,
                );
                lemma_unwind_prefix(routes, a, b, d - 1, next, obs);
            },
            _ => {},
        }
    }
}

proof fn lemma_weight_prefix(
    routes: Seq<RouteFacts>,
    a: Seq<FrameFacts>,
    b: Seq<FrameFacts>,
    d: int,
)
    requires
        -1 <= d < a.len() - 1,
        d < b.len() - 1,
        forall|e: int| 0 <= e <= d ==> #[trigger] a[e] == b[e],
    ensures
        weight_of(routes, a, d) == weight_of(routes, b, d),
    decreases d + 1,
{
    reveal(weight_of);
    if d >= 0 {
        assert(a[d] == b[d]);
        assert forall|e: int| 0 <= e < d implies (#[trigger] a[e]).route == b[e].route
            && a[e].action == b[e].action by {
            assert(a[e] == b[e]);
        }
        lemma_level_prefix(routes, a, b, d);
        lemma_weight_prefix(routes, a, b, d - 1);
    }
}

/// Replacing the innermost frame leaves the frames around it and their levels as they are.
proof fn lemma_replace_last(routes: Seq<RouteFacts>, frames: Seq<FrameFacts>, f: FrameFacts)
    requires
        on_track(routes, frames),
        0 <= f.route,
        0 <= f.action,
    ensures
        on_track(routes, frames.drop_last().push(f)),
        level(routes, frames.drop_last().push(f), frames.len() - 1) == level(
            routes,
            frames,
            frames.len() - 1,
        ),
        forall|end: Option<(Verdict, int)>, obs: Seq<Observation>|
            #![trigger unwind(routes, frames.drop_last().push(f), frames.len() - 1, end, obs)]
            unwind(routes, frames.drop_last().push(f), frames.len() - 1, end, obs) == unwind(
                routes,
                frames,
                frames.len() - 1,
                end,
                obs,
            ),
        weight_of(routes, frames.drop_last().push(f), frames.len() - 2) == weight_of(
            routes,
            frames,
            frames.len() - 2,
        ),
{
    reveal(weight_of);
    let after = frames.drop_last().push(f);
    let d = frames.len() - 1;
    assert forall|e: int| 0 <= e < d implies #[trigger] after[e] == frames[e] by {}
    assert forall|e: int| 0 <= e < after.len() - 1 implies ({
        let at = level(routes, after, e);
        &&& 0 <= (#[trigger] after[e]).route < at.len()
        &&& 0 <= after[e].action < at[after[e].route].actions.len()
        &&& at[after[e].route].actions[after[e].action] is Switch
    }) by {
        lemma_level_prefix(routes, after, frames, e);
        assert(after[e] == frames[e]);
    }
    lemma_level_prefix(routes, after, frames, d);
    assert forall|end: Option<(Verdict, int)>, obs: Seq<Observation>|
        #![trigger unwind(routes, after, d, end, obs)]
        unwind(routes, after, d, end, obs) == unwind(routes, frames, d, end, obs) by {
        lemma_unwind_prefix(routes, after, frames, d, end, obs);
    }
    lemma_weight_prefix(routes, after, frames, d - 1);
}

/// Entering a nested switch adds a frame at its start.
proof fn lemma_enter(routes: Seq<RouteFacts>, frames: Seq<FrameFacts>, inner: FrameFacts)
    requires
        on_track(routes, frames),
        ({
            let at = level(routes, frames, frames.len() - 1);
            &&& frames.last().route < at.len()
            &&& frames.last().action < at[frames.last().route].actions.len()
        }),
        current_action(routes, frames) is Switch,
        inner.route == 0,
        inner.action == 0,
        inner.rejections == Seq::<Seq<char>>::empty(),
        inner.base == frames.last().job,
        inner.job == frames.last().job,
    ensures
        on_track(routes, frames.push(inner)),
        forall|obs: Seq<Observation>, k: int|
            #![trigger run_on(routes, frames, obs, k)]
            0 <= k < obs.len() && !obs[k].cancelled ==> run_on(routes, frames, obs, k) == run_on(
                routes,
                frames.push(inner),
                obs,
                k,
            ),
        weight_of(routes, frames.push(inner), frames.len() as int) < weight_of(
            routes,
            frames,
            frames.len() - 1,
        ),
{
    reveal(weight_of);
    reveal(weight_from);
    reveal(unwind);
    reveal(run_from);
    let after = frames.push(inner);
    let d = frames.len() - 1;
    let f = frames[d];
    let at = level(routes, frames, d);
    let nested = current_action(routes, frames)->Switch_0;
    assert forall|e: int| 0 <= e <= d implies #[trigger] after[e] == frames[e] by {}
    assert forall|e: int| 0 <= e < after.len() - 1 implies ({
        let lv = level(routes, after, e);
        &&& 0 <= (#[trigger] after[e]).route < lv.len()
        &&& 0 <= after[e].action < lv[after[e].route].actions.len()
        &&& lv[after[e].route].actions[after[e].action] is Switch
    }) by {
        lemma_level_prefix(routes, after, frames, e);
        assert(after[e] == frames[e]);
    }
    lemma_level_prefix(routes, after, frames, d);
    assert(after[d] == f);
    assert(level(routes, after, d + 1) == nested);
    assert forall|obs: Seq<Observation>, k: int|
        #![trigger run_on(routes, frames, obs, k)]
        0 <= k < obs.len() && !obs[k].cancelled implies run_on(routes, frames, obs, k) == run_on(
        routes,
        after,
        obs,
        k,
    ) by {
        let end = run_from(nested, 0, 0, Seq::empty(), f.job, f.job, obs, k);
        let here = run_from(at, f.route, f.action, f.rejections, f.base, f.job, obs, k);
        assert(run_on(routes, after, obs, k) == unwind(routes, after, d + 1, end, obs));
        lemma_unwind_prefix(routes, after, frames, d, here, obs);
        match end {
            Some((Verdict::Reject { reason, silent }, k2)) => {
                assert(unwind(routes, after, d + 1, end, obs) == unwind(routes, after, d, here, obs));
            },
            None => {
                lemma_unwind_ended(routes, frames, d, None, obs);
            },
            Some(v) => {
                lemma_unwind_ended(routes, frames, d, Some(v), obs);
            },
        }
    }
    lemma_weight_prefix(routes, after, frames, d - 1);
    lemma_next_route_is_lighter(at, f.route, f.action + 1);
    assert(weight_of(routes, after, d) == weight_of(routes, after, d - 1) + weight_from(
        at,
        f.route + 1,
        0,
    ));
    assert(weight_of(routes, after, d + 1) == weight_of(routes, after, d) + weight_from(
        nested,
        0,
        0,
    ));
}

/// Anything but a rejection passes through the switches around it.
proof fn lemma_unwind_ended(
    routes: Seq<RouteFacts>,
    frames: Seq<FrameFacts>,
    d: int,
    end: Option<(Verdict, int)>,
    obs: Seq<Observation>,
)
    requires
        match end {
            Some((v, _)) => !(v is Reject),
            None => true,
        },
    ensures
        unwind(routes, frames, d, end, obs) == end,
{
    reveal(unwind);
}

/// Going on to the next route of the innermost switch.
proof fn lemma_next_route(
    routes: Seq<RouteFacts>,
    frames: Seq<FrameFacts>,
    rejections: Seq<Seq<char>>,
)
    requires
        on_track(routes, frames),
        frames.last().route < level(routes, frames, frames.len() - 1).len(),
    ensures
        ({
            let f = frames.last();
            let after = frames.drop_last().push(
                FrameFacts { route: f.route + 1, action: 0, rejections, base: f.base, job: f.base },
            );
            let at = level(routes, frames, frames.len() - 1);
            &&& on_track(routes, after)
            &&& weight_of(routes, after, frames.len() - 1) < weight_of(
                routes,
                frames,
                frames.len() - 1,
            )
            &&& forall|obs: Seq<Observation>, k: int|
                #![trigger run_on(routes, after, obs, k)]
                run_on(routes, after, obs, k) == unwind(
                    routes,
                    frames,
                    frames.len() - 1,
                    run_from(at, f.route + 1, 0, rejections, f.base, f.base, obs, k),
                    obs,
                )
        }),
{
    reveal(weight_of);
    let f = frames.last();
    let g = FrameFacts { route: f.route + 1, action: 0, rejections, base: f.base, job: f.base };
    let d = frames.len() - 1;
    let after = frames.drop_last().push(g);
    let at = level(routes, frames, d);
    lemma_replace_last(routes, frames, g);
    lemma_next_route_is_lighter(at, f.route, f.action);
    assert(weight_of(routes, after, d) == weight_of(routes, after, d - 1) + weight_from(
        at,
        f.route + 1,
        0,
    ));
    assert(weight_of(routes, frames, d) == weight_of(routes, frames, d - 1) + weight_from(
        at,
        f.route,
        f.action,
    ));
    assert forall|obs: Seq<Observation>, k: int|
        #![trigger run_on(routes, after, obs, k)]
        run_on(routes, after, obs, k) == unwind(
            routes,
            frames,
            d,
            run_from(at, f.route + 1, 0, rejections, f.base, f.base, obs, k),
            obs,
        ) by {
        let end = run_from(at, f.route + 1, 0, rejections, f.base, f.base, obs, k);
        assert(run_on(routes, after, obs, k) == unwind(routes, after, d, end, obs));
    }
}

/// Without the innermost frame, the frames around it stay as they are.
proof fn lemma_shorter(routes: Seq<RouteFacts>, frames: Seq<FrameFacts>)
    requires
        on_track(routes, frames),
        frames.len() >= 2,
    ensures
        on_track(routes, frames.drop_last()),
        level(routes, frames.drop_last(), frames.len() - 2) == level(
            routes,
            frames,
            frames.len() - 2,
        ),
        frames[frames.len() - 2].route < level(routes, frames, frames.len() - 2).len(),
{
    let d = frames.len() - 1;
    let shorter = frames.drop_last();
    assert forall|e: int| 0 <= e < d implies #[trigger] shorter[e] == frames[e] by {}
    assert forall|e: int| 0 <= e < shorter.len() - 1 implies ({
        let lv = level(routes, shorter, e);
        &&& 0 <= (#[trigger] shorter[e]).route < lv.len()
        &&& 0 <= shorter[e].action < lv[shorter[e].route].actions.len()
        &&& lv[shorter[e].route].actions[shorter[e].action] is Switch
    }) by {
        lemma_level_prefix(routes, shorter, frames, e);
        assert(shorter[e] == frames[e]);
    }
    lemma_level_prefix(routes, shorter, frames, d - 1);
    assert(frames[d - 1].route < level(routes, frames, d - 1).len());
    assert(shorter.last() == frames[d - 1]);
}

/// Leaving a nested switch that has run out of routes.
proof fn lemma_leave(routes: Seq<RouteFacts>, frames: Seq<FrameFacts>)
    requires
        on_track(routes, frames),
        frames.len() >= 2,
        frames.last().route >= level(routes, frames, frames.len() - 1).len(),
    ensures
        ({
            let outer = frames[frames.len() - 2];
            let end = no_route_left(frames.last().rejections);
            let after = frames.drop_last().drop_last().push(
                FrameFacts {
                    route: outer.route + 1,
                    action: 0,
                    rejections: with_reason(
                        outer.rejections,
                        end->Reject_reason,
                        end->Reject_silent,
                    ),
                    base: outer.base,
                    job: outer.base,
                },
            );
            &&& on_track(routes, after)
            &&& weight_of(routes, after, frames.len() - 2) < weight_of(
                routes,
                frames,
                frames.len() - 1,
            )
            &&& forall|obs: Seq<Observation>, k: int|
                #![trigger run_on(routes, after, obs, k)]
                run_on(routes, after, obs, k) == run_on(routes, frames, obs, k)
        }),
{
    reveal(weight_of);
    reveal(weight_from);
    reveal(unwind);
    reveal(run_from);
    let d = frames.len() - 1;
    let shorter = frames.drop_last();
    let outer = frames[d - 1];
    let end = no_route_left(frames.last().rejections);
    let rejections = with_reason(outer.rejections, end->Reject_reason, end->Reject_silent);
    lemma_shorter(routes, frames);
    let at = level(routes, frames, d - 1);
    assert(frames[d - 1] == outer);
    assert(shorter.last() == outer);
    lemma_next_route(routes, shorter, rejections);
    let g = FrameFacts {
        route: outer.route + 1,
        action: 0,
        rejections,
        base: outer.base,
        job: outer.base,
    };
    let after = shorter.drop_last().push(g);
    assert forall|obs: Seq<Observation>, k: int|
        #![trigger run_on(routes, after, obs, k)]
        run_on(routes, after, obs, k) == run_on(routes, frames, obs, k) by {
        let next = run_from(at, outer.route + 1, 0, rejections, outer.base, outer.base, obs, k);
        lemma_unwind_prefix(routes, shorter, frames, d - 1, next, obs);
        let f = frames[d];
        let here = run_from(
            level(routes, frames, d),
            f.route,
            f.action,
            f.rejections,
            f.base,
            f.job,
            obs,
            k,
        );
        assert(here == Some((end, k)));
    }
    lemma_weight_prefix(routes, after, frames, d - 2);
    assert(level(routes, after, d - 1) == at) by {
        lemma_level_prefix(routes, after, frames, d - 1);
    }
    assert(weight_of(routes, after, d - 1) == weight_of(routes, after, d - 2) + weight_from(
        at,
        outer.route + 1,
        0,
    ));
    assert(weight_of(routes, frames, d - 1) == weight_of(routes, frames, d - 2) + weight_from(
        at,
        outer.route + 1,
        0,
    ));
    assert(weight_of(routes, frames, d) == weight_of(routes, frames, d - 1) + 1);
}

/// Nothing is left to try: the outermost switch gives up.
proof fn lemma_all_tried(routes: Seq<RouteFacts>, frames: Seq<FrameFacts>)
    requires
        on_track(routes, frames),
        frames.len() == 1,
        frames[0].route >= routes.len(),
    ensures
        forall|obs: Seq<Observation>, k: int|
            #![trigger run_on(routes, frames, obs, k)]
            run_on(routes, frames, obs, k) == Some((no_route_left(frames[0].rejections), k)),
{
    reveal(unwind);
    reveal(run_from);
}

/// A route without further actions gives way to the next.
proof fn lemma_route_over(routes: Seq<RouteFacts>, frames: Seq<FrameFacts>)
    requires
        on_track(routes, frames),
        frames.last().route < level(routes, frames, frames.len() - 1).len(),
        frames.last().action >= level(
            routes,
            frames,
            frames.len() - 1,
        )[frames.last().route].actions.len(),
    ensures
        forall|obs: Seq<Observation>, k: int|
            #![trigger run_on(routes, frames, obs, k)]
            run_on(routes, frames, obs, k) == unwind(
                routes,
                frames,
                frames.len() - 1,
                run_from(
                    level(routes, frames, frames.len() - 1),
                    frames.last().route + 1,
                    0,
                    frames.last().rejections,
                    frames.last().base,
                    frames.last().base,
                    obs,
                    k,
                ),
                obs,
            ),
{
    reveal(run_from);
}

/// A cancelled job, or a client that is gone before a target, ends the whole run.
proof fn lemma_stopped(routes: Seq<RouteFacts>, frames: Seq<FrameFacts>)
    requires
        on_track(routes, frames),
        ({
            let at = level(routes, frames, frames.len() - 1);
            &&& frames.last().route < at.len()
            &&& frames.last().action < at[frames.last().route].actions.len()
        }),
    ensures
        forall|obs: Seq<Observation>, k: int|
            #![trigger run_on(routes, frames, obs, k)]
            0 <= k < obs.len() && obs[k].cancelled ==> run_on(routes, frames, obs, k) == Some(
                (Verdict::Error(ActionError::Cancelled), k),
            ),
        bare_target(current_action(routes, frames)) ==> forall|obs: Seq<Observation>, k: int|
            #![trigger run_on(routes, frames, obs, k)]
            0 <= k < obs.len() && !obs[k].cancelled && !obs[k].client_present ==> run_on(
                routes,
                frames,
                obs,
                k,
            ) == Some((Verdict::Error(ActionError::ClientGone), k)),
{
    reveal(run_from);
    reveal(unwind);
}

// ---------------------------------------------------------------------------------------------
// The frames of a run, move by move
// ---------------------------------------------------------------------------------------------

/// A switch at its first action, on a job.
pub open spec fn first_frame(job: JobContents) -> FrameFacts {
    FrameFacts { route: 0, action: 0, rejections: Seq::empty(), base: job, job }
}

/// A switch at the start of its next route, on the job as it came to the switch.
pub open spec fn next_route_frame(f: FrameFacts, rejections: Seq<Seq<char>>) -> FrameFacts {
    FrameFacts { route: f.route + 1, action: 0, rejections, base: f.base, job: f.base }
}

/// The frames after the innermost switch has gone on to its next route.
pub open spec fn on_next_route(frames: Seq<FrameFacts>, rejections: Seq<Seq<char>>) -> Seq<
    FrameFacts,
> {
    frames.drop_last().push(next_route_frame(frames.last(), rejections))
}

/// The frames after a nested switch has run out of routes: it counts as a rejection of the route
/// that it stands in.
pub open spec fn nested_given_up(frames: Seq<FrameFacts>) -> Seq<FrameFacts> {
    let outer = frames[frames.len() - 2];
    let end = no_route_left(frames.last().rejections);
    on_next_route(
        frames.drop_last(),
        with_reason(outer.rejections, end->Reject_reason, end->Reject_silent),
    )
}

/// The frames after a nested switch was entered, on the job as the route around it has left it.
pub open spec fn nested_entered(frames: Seq<FrameFacts>) -> Seq<FrameFacts> {
    frames.push(first_frame(frames.last().job))
}

/// The next move of a run that takes no action: it leaves a nested switch without further routes,
/// goes on from a route without further actions, or enters a nested switch. There is none where
/// an action is to be run or nothing is left to try.
pub open spec fn moved(routes: Seq<RouteFacts>, frames: Seq<FrameFacts>) -> Option<
    Seq<FrameFacts>,
> {
    let at = level(routes, frames, frames.len() - 1);
    let f = frames.last();
    if f.route >= at.len() {
        if frames.len() >= 2 {
            Some(nested_given_up(frames))
        } else {
            None
        }
    } else if f.action >= at[f.route].actions.len() {
        Some(on_next_route(frames, f.rejections))
    } else if at[f.route].actions[f.action] is Switch {
        Some(nested_entered(frames))
    } else {
        None
    }
}

/// A move leaves less to do.
pub proof fn lemma_moved(routes: Seq<RouteFacts>, frames: Seq<FrameFacts>)
    requires
        on_track(routes, frames),
        moved(routes, frames) is Some,
    ensures
        ({
            let after = moved(routes, frames)->Some_0;
            &&& on_track(routes, after)
            &&& after[0].base == frames[0].base
            &&& weight_of(routes, after, after.len() - 1) < weight_of(
                routes,
                frames,
                frames.len() - 1,
            )
        }),
{
    let at = level(routes, frames, frames.len() - 1);
    let f = frames.last();
    if f.route >= at.len() {
        lemma_leave(routes, frames);
    } else if f.action >= at[f.route].actions.len() {
        lemma_next_route(routes, frames, f.rejections);
    } else {
        lemma_enter(routes, frames, first_frame(f.job));
    }
}

/// Where a run stands once no move is left that takes no action.
pub open spec fn walked(routes: Seq<RouteFacts>, frames: Seq<FrameFacts>) -> Seq<FrameFacts>
    decreases weight_of(routes, frames, frames.len() - 1),
    when on_track(routes, frames)
{
    match moved(routes, frames) {
        Some(after) => {
            proof {
                lemma_moved(routes, frames);
            }
            walked(routes, after)
        },
        None => frames,
    }
}

/// The frames after the current action gave an outcome that does not end the switch: the route
/// goes on with the job as the action left it, or the next route starts from the job as it came to
/// the switch.
pub open spec fn resumed(
    routes: Seq<RouteFacts>,
    frames: Seq<FrameFacts>,
    outcome: OutcomeFacts,
) -> Option<Seq<FrameFacts>> {
    let f = frames.last();
    match outcome {
        OutcomeFacts::Proceed(changed) => Some(
            frames.drop_last().push(
                FrameFacts {
                    action: f.action + 1,
                    job: match changed {
                        Some(new) => new,
                        None => f.job,
                    },
                    ..f
                },
            ),
        ),
        OutcomeFacts::Reject { reason, silent } => Some(
            on_next_route(
                frames,
                with_reason(
                    f.rejections,
                    reason,
                    stays_silent(
                        crate::routing::silent_override_of(current_action(routes, frames)),
                        silent,
                    ),
                ),
            ),
        ),
        _ => None,
    }
}

fn add_reason(rejections: &mut Vec<String>, reason: String, silent: bool)
    ensures
        texts(final(rejections)@) == with_reason(texts(old(rejections)@), reason@, silent),
{
    if !silent {
        rejections.push(reason);
    }
    assert(texts(rejections@) =~= with_reason(texts(old(rejections)@), reason@, silent));
}

/// The words and the silence with which a switch gives up.
fn give_up(rejections: &Vec<String>) -> (r: (String, bool))
    ensures
        no_route_left(texts(rejections@)) == (Verdict::Reject { reason: r.0@, silent: r.1 }),
{
    if rejections.len() == 0 {
        ("no route matched the request".to_owned(), true)
    } else {
        (join(rejections, "; "), false)
    }
}

impl Switch {
    pub fn new(routes: Vec<Route>) -> (r: Switch)
        ensures
            r@ == routes_facts(routes@),
    {
        Switch { routes }
    }

    /// The switch that is nested at an action.
    fn nested_at(&self, route: usize, action: usize) -> (r: &Switch)
        requires
            route < self@.len(),
            action < self@[route as int].actions.len(),
            self@[route as int].actions[action as int] is Switch,
        ensures
            r@ == self@[route as int].actions[action as int]->Switch_0,
    {
        proof {
            lemma_routes_facts(self.routes@);
            lemma_actions_facts(self.routes@[route as int].actions@);
        }
        match &self.routes[route].actions[action] {
            Action::Switch(inner) => inner,
            _ => {
                assert(false);
                self
            },
        }
    }

    /// The switch that the last of the frames walks through.
    #[verifier::spinoff_prover]
    fn level_at(&self, run: &SwitchRun) -> (r: &Switch)
        requires
            on_track(self@, run@),
        ensures
            r@ == level(self@, run@, run@.len() - 1),
    {
        let mut at: &Switch = self;
        let mut d: usize = 0;
        while d + 1 < run.frames.len()
            invariant
                on_track(self@, run@),
                d < run.frames.len(),
                at@ == level(self@, run@, d as int),
            decreases run.frames.len() - d,
        {
            assert(run@[d as int] == run.frames@[d as int]@);
            at = at.nested_at(run.frames[d].route, run.frames[d].action);
            d = d + 1;
        }
        at
    }

    /// Starts on a job at the first action of the first route.
    pub fn start(&self, job: &Job) -> (run: SwitchRun)
        ensures
            run@ == seq![first_frame(job@)],
            on_track(self@, run@),
            forall|obs: Seq<Observation>, k: int|
                #![trigger run_on(self@, run@, obs, k)]
                run_on(self@, run@, obs, k) == run_from(
                    self@,
                    0,
                    0,
                    Seq::empty(),
                    job@,
                    job@,
                    obs,
                    k,
                ),
    {
        let mut frames: Vec<Frame> = Vec::new();
        frames.push(
            Frame {
                route: 0,
                action: 0,
                rejections: Vec::new(),
                base: job.copy(),
                job: job.copy(),
            },
        );
        let run = SwitchRun { frames };
        proof {
            reveal(unwind);
        }
        assert(texts(run.frames@[0].rejections@) =~= Seq::<Seq<char>>::empty());
        assert(run@ =~= seq![first_frame(job@)]);
        run
    }

    /// Goes on to the next route of the innermost switch, with a reason added where there is one.
    fn next_route(&self, run: SwitchRun, reason: Option<String>) -> (after: SwitchRun)
        requires
            on_track(self@, run@),
            run@.last().route < level(self@, run@, run@.len() - 1).len(),
        ensures
            on_track(self@, after@),
            weight_of(self@, after@, after@.len() - 1) < weight_of(self@, run@, run@.len() - 1),
            ({
                let f = run@.last();
                let rejections = match reason {
                    Some(reason) => f.rejections.push(reason@),
                    None => f.rejections,
                };
                &&& after@ == on_next_route(run@, rejections)
                &&& forall|obs: Seq<Observation>, k: int|
                    #![trigger run_on(self@, run@, obs, k)]
                    #![trigger run_on(self@, after@, obs, k)]
                    run_on(self@, after@, obs, k) == unwind(
                        self@,
                        run@,
                        run@.len() - 1,
                        run_from(
                            level(self@, run@, run@.len() - 1),
                            f.route + 1,
                            0,
                            rejections,
                            f.base,
                            f.base,
                            obs,
                            k,
                        ),
                        obs,
                    )
            }),
    {
        let ghost frames = run@;
        let at = self.level_at(&run);
        proof {
            lemma_routes_facts(at.routes@);
            assert(frames.last() == run.frames@[run.frames@.len() - 1]@);
        }
        let mut now = run;
        let ended = now.frames.pop().unwrap();
        assert(ended@ == frames.last());
        assert(ended.route + 1 <= at.routes.len());
        let mut rejections = ended.rejections;
        let ghost before = texts(rejections@);
        if let Some(reason) = reason {
            rejections.push(reason);
            assert(texts(rejections@) =~= before.push(reason@));
        }
        proof {
            lemma_next_route(self@, frames, texts(rejections@));
        }
        let next = Frame {
            route: ended.route + 1,
            action: 0,
            rejections,
            job: ended.base.copy(),
            base: ended.base,
        };
        now.frames.push(next);
        assert(now@ =~= frames.drop_last().push(next@));
        now
    }

    /// Leaves a nested switch that has run out of routes.
    fn leave(&self, run: SwitchRun) -> (after: SwitchRun)
        requires
            on_track(self@, run@),
            run@.len() >= 2,
            run@.last().route >= level(self@, run@, run@.len() - 1).len(),
        ensures
            after@ == nested_given_up(run@),
            on_track(self@, after@),
            weight_of(self@, after@, after@.len() - 1) < weight_of(self@, run@, run@.len() - 1),
            forall|obs: Seq<Observation>, k: int|
                #![trigger run_on(self@, run@, obs, k)]
                run_on(self@, after@, obs, k) == run_on(self@, run@, obs, k),
    {
        let ghost frames = run@;
        proof {
            lemma_shorter(self@, frames);
            lemma_leave(self@, frames);
        }
        let mut now = run;
        let ended = now.frames.pop().unwrap();
        assert(now@ =~= frames.drop_last());
        let (reason, silent) = give_up(&ended.rejections);
        let around = self.level_at(&now);
        proof {
            lemma_routes_facts(around.routes@);
            assert(now@.last() == frames[frames.len() - 2]);
            assert(now.frames@[now.frames@.len() - 1]@ == now@.last());
        }
        let outer = now.frames.pop().unwrap();
        assert(outer.route + 1 <= around.routes.len());
        let mut rejections = outer.rejections;
        add_reason(&mut rejections, reason, silent);
        let next = Frame {
            route: outer.route + 1,
            action: 0,
            rejections,
            job: outer.base.copy(),
            base: outer.base,
        };
        now.frames.push(next);
        assert(now@ =~= frames.drop_last().drop_last().push(next@));
        now
    }

    /// Enters the nested switch that the innermost switch stands at.
    fn enter(&self, run: SwitchRun) -> (after: SwitchRun)
        requires
            on_track(self@, run@),
            ({
                let at = level(self@, run@, run@.len() - 1);
                &&& run@.last().route < at.len()
                &&& run@.last().action < at[run@.last().route].actions.len()
            }),
            current_action(self@, run@) is Switch,
        ensures
            after@ == nested_entered(run@),
            on_track(self@, after@),
            weight_of(self@, after@, after@.len() - 1) < weight_of(self@, run@, run@.len() - 1),
            forall|obs: Seq<Observation>, k: int|
                #![trigger run_on(self@, run@, obs, k)]
                0 <= k < obs.len() && !obs[k].cancelled ==> run_on(self@, run@, obs, k) == run_on(
                    self@,
                    after@,
                    obs,
                    k,
                ),
    {
        let ghost frames = run@;
        let mut now = run;
        let last: usize = now.frames.len() - 1;
        let inner = Frame {
            route: 0,
            action: 0,
            rejections: Vec::new(),
            base: now.frames[last].job.copy(),
            job: now.frames[last].job.copy(),
        };
        proof {
            assert(texts(inner.rejections@) =~= Seq::<Seq<char>>::empty());
            assert(frames.last() == now.frames@[last as int]@);
            lemma_enter(self@, frames, inner@);
        }
        now.frames.push(inner);
        assert(now@ =~= frames.push(inner@));
        now
    }

    /// Goes on until there is an action to run or the switch has ended, given the state of the
    /// job at this moment.
    pub fn advance(&self, run: SwitchRun, cancelled: bool, client_present: bool) -> (p: Progress)
        requires
            on_track(self@, run@),
        ensures
            match p {
                Progress::Run(after) => {
                    &&& after@ == walked(self@, run@)
                    &&& at_step(self@, after@)
                    &&& !cancelled
                    &&& bare_target(current_action(self@, after@)) ==> client_present
                    &&& forall|obs: Seq<Observation>, k: int|
                        #![trigger run_on(self@, run@, obs, k)]
                        shows(obs, k, cancelled, client_present) ==> run_on(self@, run@, obs, k)
                            == run_on(self@, after@, obs, k)
                },
                Progress::Done(result) => forall|obs: Seq<Observation>, k: int|
                    #![trigger run_on(self@, run@, obs, k)]
                    shows(obs, k, cancelled, client_present) ==> run_on(self@, run@, obs, k)
                        == Some((verdict(result), k)),
            },
        decreases weight_of(self@, run@, run@.len() - 1),
    {
        let last: usize = run.frames.len() - 1;
        let route: usize = run.frames[last].route;
        let action: usize = run.frames[last].action;
        let at = self.level_at(&run);
        proof {
            lemma_routes_facts(at.routes@);
            assert(run@.last() == run.frames@[last as int]@);
        }
        if route >= at.routes.len() {
            if last == 0 {
                proof {
                    lemma_all_tried(self@, run@);
                }
                let (reason, silent) = give_up(&run.frames[0].rejections);
                return Progress::Done(Ok(TargetResult::Reject { reason, silent }));
            }
            let after = self.leave(run);
            return self.advance(after, cancelled, client_present);
        }
        proof {
            lemma_actions_facts(at.routes@[route as int].actions@);
        }
        if action >= at.routes[route].actions.len() {
            proof {
                lemma_route_over(self@, run@);
            }
            let after = self.next_route(run, None);
            return self.advance(after, cancelled, client_present);
        }
        proof {
            lemma_stopped(self@, run@);
        }
        if cancelled {
            return Progress::Done(Err(ActionError::Cancelled));
        }
        match &at.routes[route].actions[action] {
            Action::Switch(_) => {
                let after = self.enter(run);
                self.advance(after, cancelled, client_present)
            },
            Action::Target(step) => {
                if step.dispatcher.is_none() && !client_present {
                    return Progress::Done(Err(ActionError::ClientGone));
                }
                Progress::Run(run)
            },
            _ => Progress::Run(run),
        }
    }
}

// ---------------------------------------------------------------------------------------------
// Reporting what an action gave
// ---------------------------------------------------------------------------------------------

/// The observation at `k` is of this outcome, at an action that the state of the job lets run and
/// that is given the job of the innermost frame.
pub open spec fn ran(
    routes: Seq<RouteFacts>,
    frames: Seq<FrameFacts>,
    outcome: OutcomeFacts,
    obs: Seq<Observation>,
    k: int,
) -> bool {
    &&& 0 <= k < obs.len()
    &&& !obs[k].cancelled
    &&& bare_target(current_action(routes, frames)) ==> obs[k].client_present
    &&& obs[k].job == frames.last().job
    &&& obs[k].outcome == outcome
}

/// How the innermost switch ends after an action gave an outcome.
pub open spec fn after_outcome(
    routes: Seq<RouteFacts>,
    f: FrameFacts,
    outcome: OutcomeFacts,
    obs: Seq<Observation>,
    k: int,
) -> Option<(Verdict, int)> {
    let action = routes[f.route].actions[f.action];
    match outcome {
        OutcomeFacts::Proceed(changed) => run_from(
            routes,
            f.route,
            f.action + 1,
            f.rejections,
            f.base,
            match changed {
                Some(new) => new,
                None => f.job,
            },
            obs,
            k + 1,
        ),
        OutcomeFacts::Reject { reason, silent } => run_from(
            routes,
            f.route + 1,
            0,
            with_reason(
                f.rejections,
                reason,
                stays_silent(crate::routing::silent_override_of(action), silent),
            ),
            f.base,
            f.base,
            obs,
            k + 1,
        ),
        OutcomeFacts::Complete(result) => Some((Verdict::Complete(result), k + 1)),
        OutcomeFacts::Fail(e) => Some((Verdict::Error(e), k + 1)),
    }
}

proof fn lemma_outcome(routes: Seq<RouteFacts>, frames: Seq<FrameFacts>, outcome: OutcomeFacts)
    requires
        at_step(routes, frames),
    ensures
        forall|obs: Seq<Observation>, k: int|
            #![trigger run_on(routes, frames, obs, k)]
            ran(routes, frames, outcome, obs, k) ==> run_on(routes, frames, obs, k) == unwind(
                routes,
                frames,
                frames.len() - 1,
                after_outcome(
                    level(routes, frames, frames.len() - 1),
                    frames.last(),
                    outcome,
                    obs,
                    k,
                ),
                obs,
            ),
{
    reveal(run_from);
}

proof fn lemma_decided(routes: Seq<RouteFacts>, frames: Seq<FrameFacts>)
    ensures
        forall|v: Verdict, k: int, obs: Seq<Observation>|
            #![trigger unwind(routes, frames, frames.len() - 1, Some((v, k)), obs)]
            !(v is Reject) ==> unwind(routes, frames, frames.len() - 1, Some((v, k)), obs) == Some(
                (v, k),
            ),
{
    reveal(unwind);
}

impl Switch {
    /// The action that is to be run.
    pub fn current(&self, run: &SwitchRun) -> (r: &Action)
        requires
            at_step(self@, run@),
        ensures
            r@ == current_action(self@, run@),
    {
        let last: usize = run.frames.len() - 1;
        let route: usize = run.frames[last].route;
        let action: usize = run.frames[last].action;
        let at = self.level_at(run);
        proof {
            assert(run@.last() == run.frames@[last as int]@);
            lemma_routes_facts(at.routes@);
            lemma_actions_facts(at.routes@[route as int].actions@);
        }
        &at.routes[route].actions[action]
    }

    /// Takes in what running the current action gave.
    pub fn resume(&self, run: SwitchRun, outcome: StepOutcome) -> (p: Progress)
        requires
            at_step(self@, run@),
        ensures
            match p {
                Progress::Run(after) => {
                    &&& resumed(self@, run@, outcome@) == Some(after@)
                    &&& on_track(self@, after@)
                    &&& forall|obs: Seq<Observation>, k: int|
                        #![trigger run_on(self@, run@, obs, k)]
                        ran(self@, run@, outcome@, obs, k) ==> run_on(self@, run@, obs, k)
                            == run_on(self@, after@, obs, k + 1)
                },
                Progress::Done(result) => {
                    &&& match outcome@ {
                        OutcomeFacts::Complete(r) => verdict(result) == Verdict::Complete(r),
                        OutcomeFacts::Fail(e) => verdict(result) == Verdict::Error(e),
                        _ => false,
                    }
                    &&& forall|obs: Seq<Observation>, k: int|
                        #![trigger run_on(self@, run@, obs, k)]
                        ran(self@, run@, outcome@, obs, k) ==> run_on(self@, run@, obs, k) == Some(
                            (verdict(result), k + 1),
                        )
                },
            },
    {
        proof {
            lemma_outcome(self@, run@, outcome@);
            lemma_decided(self@, run@);
        }
        match outcome {
            StepOutcome::Proceed(changed) => {
                let ghost frames = run@;
                let at = self.level_at(&run);
                proof {
                    lemma_routes_facts(at.routes@);
                    assert(frames.last() == run.frames@[run.frames@.len() - 1]@);
                    lemma_actions_facts(at.routes@[frames.last().route].actions@);
                }
                let mut now = run;
                let ended = now.frames.pop().unwrap();
                assert(ended@ == frames.last());
                assert(ended.action + 1 <= at.routes@[ended.route as int].actions.len());
                let job = match changed {
                    Some(job) => job,
                    None => ended.job,
                };
                let next = Frame {
                    route: ended.route,
                    action: ended.action + 1,
                    rejections: ended.rejections,
                    base: ended.base,
                    job,
                };
                proof {
                    lemma_replace_last(self@, frames, next@);
                }
                now.frames.push(next);
                assert(now@ =~= frames.drop_last().push(next@));
                Progress::Run(now)
            },
            StepOutcome::Reject { reason, silent } => {
                let quiet = match self.current(&run).silent_override() {
                    Some(o) => o,
                    None => silent,
                };
                let reason = if quiet {
                    None
                } else {
                    Some(reason)
                };
                Progress::Run(self.next_route(run, reason))
            },
            StepOutcome::Complete(result) => Progress::Done(Ok(TargetResult::Complete(result))),
            StepOutcome::Fail(e) => Progress::Done(Err(e)),
        }
    }
}

/// The outcome of a check.
pub fn check_outcome(result: Result<CheckResult, ActionError>) -> (r: StepOutcome)
    ensures
        r@ == match result {
            Ok(CheckResult::Pass) => OutcomeFacts::Proceed(None),
            Ok(CheckResult::Reject { reason, silent }) => OutcomeFacts::Reject {
                reason: reason@,
                silent,
            },
            Err(e) => OutcomeFacts::Fail(e),
        },
{
    match result {
        Ok(CheckResult::Pass) => StepOutcome::Proceed(None),
        Ok(CheckResult::Reject { reason, silent }) => StepOutcome::Reject { reason, silent },
        Err(e) => StepOutcome::Fail(e),
    }
}

/// The outcome of a transform that left the job as given.
pub fn transform_outcome(result: Result<TransformResult, ActionError>, job: Job) -> (r: StepOutcome)
    ensures
        r@ == match result {
            Ok(TransformResult::Continue) => OutcomeFacts::Proceed(Some(job@)),
            Ok(TransformResult::Reject { reason, silent }) => OutcomeFacts::Reject {
                reason: reason@,
                silent,
            },
            Err(e) => OutcomeFacts::Fail(e),
        },
{
    match result {
        Ok(TransformResult::Continue) => StepOutcome::Proceed(Some(job)),
        Ok(TransformResult::Reject { reason, silent }) => StepOutcome::Reject { reason, silent },
        Err(e) => StepOutcome::Fail(e),
    }
}

/// The outcome of a target.
pub fn target_outcome(result: Result<TargetResult, ActionError>) -> (r: StepOutcome)
    ensures
        r@ == match result {
            Ok(TargetResult::Complete(result)) => OutcomeFacts::Complete(result),
            Ok(TargetResult::Reject { reason, silent }) => OutcomeFacts::Reject {
                reason: reason@,
                silent,
            },
            Err(e) => OutcomeFacts::Fail(e),
        },
{
    match result {
        Ok(TargetResult::Complete(result)) => StepOutcome::Complete(result),
        Ok(TargetResult::Reject { reason, silent }) => StepOutcome::Reject { reason, silent },
        Err(e) => StepOutcome::Fail(e),
    }
}

// ---------------------------------------------------------------------------------------------
// Laws
// ---------------------------------------------------------------------------------------------

/// How one route ends.
pub enum RouteEnd {
    /// The route decided the job.
    Decided(Verdict),
    /// The route was rejected.
    Rejected { reason: Seq<char>, silent: bool },
    /// The route ran out of actions.
    Over,
}

/// How the actions of one route end from action `j` on.
pub open spec fn route_end(
    actions: Seq<ActionFacts>,
    j: int,
    job: JobContents,
    obs: Seq<Observation>,
    k: int,
) -> Option<(RouteEnd, int)>
    decreases actions.len() - j,
{
    if j < 0 || j >= actions.len() {
        Some((RouteEnd::Over, k))
    } else if k < 0 || k >= obs.len() {
        None
    } else if obs[k].cancelled {
        Some((RouteEnd::Decided(Verdict::Error(ActionError::Cancelled)), k))
    } else {
        match actions[j] {
            ActionFacts::Switch(inner) => match run_from(
                inner,
                0,
                0,
                Seq::empty(),
                job,
                job,
                obs,
                k,
            ) {
                None => None,
                Some((Verdict::Reject { reason, silent }, k2)) => Some(
                    (RouteEnd::Rejected { reason, silent }, k2),
                ),
                Some((v, k2)) => Some((RouteEnd::Decided(v), k2)),
            },
            _ => {
                if bare_target(actions[j]) && !obs[k].client_present {
                    Some((RouteEnd::Decided(Verdict::Error(ActionError::ClientGone)), k))
                } else if obs[k].job != job {
                    None
                } else {
                    match obs[k].outcome {
                        OutcomeFacts::Proceed(changed) => route_end(
                            actions,
                            j + 1,
                            match changed {
                                Some(new) => new,
                                None => job,
                            },
                            obs,
                            k + 1,
                        ),
                        OutcomeFacts::Reject { reason, silent } => Some(
                            (
                                RouteEnd::Rejected {
                                    reason,
                                    silent: stays_silent(
                                        crate::routing::silent_override_of(actions[j]),
                                        silent,
                                    ),
                                },
                                k + 1,
                            ),
                        ),
                        OutcomeFacts::Complete(r) => Some(
                            (RouteEnd::Decided(Verdict::Complete(r)), k + 1),
                        ),
                        OutcomeFacts::Fail(e) => Some(
                            (RouteEnd::Decided(Verdict::Error(e)), k + 1),
                        ),
                    }
                }
            },
        }
    }
}

/// How a switch goes on once a route has ended.
pub open spec fn after_route(
    routes: Seq<RouteFacts>,
    i: int,
    rejections: Seq<Seq<char>>,
    base: JobContents,
    obs: Seq<Observation>,
    end: Option<(RouteEnd, int)>,
) -> Option<(Verdict, int)> {
    match end {
        None => None,
        Some((RouteEnd::Decided(v), k)) => Some((v, k)),
        Some((RouteEnd::Rejected { reason, silent }, k)) => run_from(
            routes,
            i + 1,
            0,
            with_reason(rejections, reason, silent),
            base,
            base,
            obs,
            k,
        ),
        Some((RouteEnd::Over, k)) => run_from(routes, i + 1, 0, rejections, base, base, obs, k),
    }
}

proof fn lemma_route_in_switch(
    routes: Seq<RouteFacts>,
    i: int,
    j: int,
    rejections: Seq<Seq<char>>,
    base: JobContents,
    job: JobContents,
    obs: Seq<Observation>,
    k: int,
)
    requires
        0 <= i < routes.len(),
        0 <= j,
    ensures
        run_from(routes, i, j, rejections, base, job, obs, k) == after_route(
            routes,
            i,
            rejections,
            base,
            obs,
            route_end(routes[i].actions, j, job, obs, k),
        ),
    decreases routes[i].actions.len() - j,
{
    reveal(run_from);
    let actions = routes[i].actions;
    if j < actions.len() && 0 <= k < obs.len() && !obs[k].cancelled && obs[k].job == job {
        match obs[k].outcome {
            OutcomeFacts::Proceed(changed) => {
                let next = match changed {
                    Some(new) => new,
                    None => job,
                };
                lemma_route_in_switch(routes, i, j + 1, rejections, base, next, obs, k + 1);
            },
            _ => {},
        }
    }
}

/// Routes are tried in order. Each starts from the job as it came to the switch, whatever the
/// routes before it did; the first route that does not reject decides; a rejection adds its
/// reason, unless it is silent, and leads on to the next route.
pub proof fn law_first_deciding_route_wins(
    routes: Seq<RouteFacts>,
    i: int,
    rejections: Seq<Seq<char>>,
    job: JobContents,
    obs: Seq<Observation>,
    k: int,
)
    requires
        0 <= i < routes.len(),
    ensures
        run_from(routes, i, 0, rejections, job, job, obs, k) == after_route(
            routes,
            i,
            rejections,
            job,
            obs,
            route_end(routes[i].actions, 0, job, obs, k),
        ),
{
    lemma_route_in_switch(routes, i, 0, rejections, job, job, obs, k);
}

/// The state of the job lets an action run, and it is not a switch.
pub open spec fn runs(action: ActionFacts, obs: Seq<Observation>, k: int) -> bool {
    &&& 0 <= k < obs.len()
    &&& !obs[k].cancelled
    &&& !(action is Switch)
    &&& bare_target(action) ==> obs[k].client_present
}

/// An action is given the job as its route has left it.
pub proof fn law_actions_get_the_job_of_their_route(
    routes: Seq<RouteFacts>,
    i: int,
    j: int,
    rejections: Seq<Seq<char>>,
    base: JobContents,
    job: JobContents,
    obs: Seq<Observation>,
    k: int,
)
    requires
        0 <= i < routes.len(),
        0 <= j < routes[i].actions.len(),
        runs(routes[i].actions[j], obs, k),
        run_from(routes, i, j, rejections, base, job, obs, k) is Some,
    ensures
        obs[k].job == job,
{
    reveal(run_from);
}

/// What a transform made of the job is what the next action of the route is given.
pub proof fn law_transforms_reach_the_next_action(
    routes: Seq<RouteFacts>,
    i: int,
    j: int,
    rejections: Seq<Seq<char>>,
    base: JobContents,
    job: JobContents,
    changed: JobContents,
    obs: Seq<Observation>,
    k: int,
)
    requires
        0 <= i < routes.len(),
        0 <= j,
        j + 1 < routes[i].actions.len(),
        runs(routes[i].actions[j], obs, k),
        obs[k].outcome == OutcomeFacts::Proceed(Some(changed)),
        runs(routes[i].actions[j + 1], obs, k + 1),
        run_from(routes, i, j, rejections, base, job, obs, k) is Some,
    ensures
        obs[k + 1].job == changed,
{
    reveal(run_from);
    law_actions_get_the_job_of_their_route(
        routes,
        i,
        j + 1,
        rejections,
        base,
        changed,
        obs,
        k + 1,
    );
}

/// Nothing that a route did to the job leaks into the route after it: where a route is rejected,
/// however deep inside it, the first action of the next route is given the job as it came to the
/// switch.
pub proof fn law_rejected_routes_leave_no_trace(
    routes: Seq<RouteFacts>,
    i: int,
    rejections: Seq<Seq<char>>,
    job: JobContents,
    obs: Seq<Observation>,
    k: int,
)
    requires
        0 <= i,
        i + 1 < routes.len(),
        routes[i + 1].actions.len() > 0,
        run_from(routes, i, 0, rejections, job, job, obs, k) is Some,
        route_end(routes[i].actions, 0, job, obs, k) matches Some((RouteEnd::Rejected { .. }, k2))
            && runs(routes[i + 1].actions[0], obs, k2),
    ensures
        obs[route_end(routes[i].actions, 0, job, obs, k)->Some_0.1].job == job,
{
    lemma_route_in_switch(routes, i, 0, rejections, job, job, obs, k);
    let end = route_end(routes[i].actions, 0, job, obs, k)->Some_0;
    law_actions_get_the_job_of_their_route(
        routes,
        i + 1,
        0,
        with_reason(rejections, end.0->reason, end.0->silent),
        job,
        job,
        obs,
        end.1,
    );
}

proof fn lemma_walked_keeps_base(routes: Seq<RouteFacts>, frames: Seq<FrameFacts>)
    requires
        on_track(routes, frames),
    ensures
        on_track(routes, walked(routes, frames)),
        walked(routes, frames)[0].base == frames[0].base,
    decreases weight_of(routes, frames, frames.len() - 1),
{
    match moved(routes, frames) {
        Some(after) => {
            lemma_moved(routes, frames);
            lemma_walked_keeps_base(routes, after);
        },
        None => {},
    }
}

/// However far a run has come, each of the outermost routes starts from the job that the switch
/// was started on.
pub proof fn law_routes_start_from_the_callers_job(
    routes: Seq<RouteFacts>,
    frames: Seq<FrameFacts>,
    outcome: OutcomeFacts,
    job: JobContents,
)
    requires
        on_track(routes, frames),
        frames[0].base == job,
    ensures
        seq![first_frame(job)][0].base == job,
        walked(routes, frames)[0].base == job,
        resumed(routes, frames, outcome) matches Some(after) ==> after[0].base == job,
        forall|rejections: Seq<Seq<char>>| #[trigger]
            on_next_route(seq![frames[0]], rejections).last().job == job,
{
    lemma_walked_keeps_base(routes, frames);
    assert(frames.len() >= 2 ==> frames.drop_last()[0] == frames[0]);
}

/// A switch without routes left rejects: silently where every rejection was silent, and with all
/// the other reasons in order where there are any.
pub proof fn law_exhausted_switch_rejects(
    routes: Seq<RouteFacts>,
    rejections: Seq<Seq<char>>,
    job: JobContents,
    obs: Seq<Observation>,
    k: int,
)
    ensures
        run_from(routes, routes.len() as int, 0, rejections, job, job, obs, k) == Some(
            (no_route_left(rejections), k),
        ),
{
    reveal(run_from);
}

// ---------------------------------------------------------------------------------------------
// Shape of routes
// ---------------------------------------------------------------------------------------------

/// What is wrong with a route that ends at action `j`.
pub open spec fn end_problem(route: RouteFacts, j: int) -> Option<RoutingProblem> {
    if j + 1 != route.actions.len() {
        Some(
            RoutingProblem::InvalidRoute {
                route: route.name,
                reason: "unreachable action(s) after terminal step at index "@ + decimal_text(
                    j as nat,
                ),
            },
        )
    } else {
        None
    }
}

/// What is wrong with a route, looking from action `j` on.
pub open spec fn route_problem_from(route: RouteFacts, j: int) -> Option<RoutingProblem>
    decreases route, route.actions.len() - j,
{
    if j < 0 || j >= route.actions.len() {
        Some(RoutingProblem::MissingTarget { route: route.name })
    } else {
        match route.actions[j] {
            ActionFacts::Switch(inner) => {
                proof {
                    assert(decreases_to!(route => route.actions));
                    assert(decreases_to!(route.actions => route.actions[j]));
                    assert(decreases_to!(route.actions[j] => route.actions[j]->Switch_0));
                }
                match switch_problem_from(inner, 0) {
                    Some(problem) => Some(problem),
                    None => end_problem(route, j),
                }
            },
            ActionFacts::Target(_) => end_problem(route, j),
            _ => route_problem_from(route, j + 1),
        }
    }
}

/// What is wrong with a route.
pub open spec fn route_problem(route: RouteFacts) -> Option<RoutingProblem> {
    if route.actions.len() == 0 {
        Some(
            RoutingProblem::InvalidRoute { route: route.name, reason: "must not be empty"@ },
        )
    } else {
        route_problem_from(route, 0)
    }
}

/// The first thing that is wrong with the routes of a switch from route `i` on.
pub open spec fn switch_problem_from(routes: Seq<RouteFacts>, i: int) -> Option<RoutingProblem>
    decreases routes, routes.len() - i,
{
    if i < 0 || i >= routes.len() {
        None
    } else {
        let problem = if routes[i].actions.len() == 0 {
            Some(
                RoutingProblem::InvalidRoute {
                    route: routes[i].name,
                    reason: "must not be empty"@,
                },
            )
        } else {
            route_problem_from(routes[i], 0)
        };
        match problem {
            Some(problem) => Some(problem),
            None => switch_problem_from(routes, i + 1),
        }
    }
}

/// What is wrong with a switch.
pub open spec fn switch_problem(routes: Seq<RouteFacts>) -> Option<RoutingProblem> {
    switch_problem_from(routes, 0)
}

/// A route ends with its only target or switch, and that switch is in order as well.
pub open spec fn well_shaped(route: RouteFacts) -> bool {
    &&& route.actions.len() > 0
    &&& terminal(route.actions.last())
    &&& forall|j: int|
        0 <= j < route.actions.len() - 1 ==> !terminal(#[trigger] route.actions[j])
    &&& route.actions.last() matches ActionFacts::Switch(inner) ==> switch_problem(inner) is None
}

proof fn lemma_route_problem_from(route: RouteFacts, j: int)
    requires
        0 <= j <= route.actions.len(),
        forall|e: int| 0 <= e < j ==> !terminal(#[trigger] route.actions[e]),
    ensures
        (route_problem_from(route, j) is None) == well_shaped(route),
    decreases route.actions.len() - j,
{
    if j < route.actions.len() {
        if !terminal(route.actions[j]) {
            lemma_route_problem_from(route, j + 1);
        } else if j + 1 == route.actions.len() {
            assert(route.actions.last() == route.actions[j]);
        } else {
            assert(!well_shaped(route)) by {
                assert(terminal(route.actions[j]));
            }
        }
    } else if route.actions.len() > 0 {
        assert(!terminal(route.actions[route.actions.len() - 1]));
    }
}

proof fn lemma_switch_problem_from(routes: Seq<RouteFacts>, i: int)
    requires
        0 <= i <= routes.len(),
    ensures
        (switch_problem_from(routes, i) is None) == (forall|e: int|
            i <= e < routes.len() ==> well_shaped(#[trigger] routes[e])),
    decreases routes.len() - i,
{
    if i < routes.len() {
        lemma_switch_problem_from(routes, i + 1);
        lemma_route_problem_from(routes[i], 0);
        if switch_problem_from(routes, i) is None {
            assert forall|e: int| i <= e < routes.len() implies well_shaped(#[trigger] routes[e]) by {
                if e > i {
                    assert(switch_problem_from(routes, i + 1) is None);
                }
            }
        }
    }
}

/// A switch passes validation exactly where each of its routes, at every depth, ends with its
/// only target or switch.
pub proof fn law_valid_switch_shape(routes: Seq<RouteFacts>)
    ensures
        (switch_problem(routes) is None) == (forall|i: int|
            0 <= i < routes.len() ==> well_shaped(#[trigger] routes[i])),
{
    lemma_switch_problem_from(routes, 0);
}

fn validate_route(route: &Route) -> (r: Result<(), RoutingError>)
    ensures
        match r {
            Ok(()) => route_problem(route@) is None,
            Err(e) => route_problem(route@) == Some(e@),
        },
    decreases route,
{
    if route.actions.len() == 0 {
        return Err(
            RoutingError::InvalidRoute {
                route: route.name.clone(),
                reason: "must not be empty".to_owned(),
            },
        );
    }
    proof {
        lemma_actions_facts(route.actions@);
    }
    let mut index: usize = 0;
    while index < route.actions.len()
        invariant
            index <= route.actions.len(),
            actions_facts(route.actions@).len() == route.actions.len(),
            forall|i: int|
                0 <= i < route.actions.len() ==> #[trigger] actions_facts(route.actions@)[i]
                    == action_facts(route.actions@[i]),
            route_problem(route@) == route_problem_from(route@, index as int),
        decreases route.actions.len() - index,
    {
        let action = &route.actions[index];
        assert(route@.actions[index as int] == action@);
        if let Action::Switch(switch) = action {
            assert(decreases_to!(*route => route.actions));
            assert(decreases_to!(route.actions => route.actions[index as int]));
            assert(decreases_to!(route.actions[index as int] => *switch));
            match switch.validate() {
                Ok(()) => {},
                Err(e) => {
                    return Err(e);
                },
            }
        }
        if action.is_terminal() {
            if index + 1 != route.actions.len() {
                return Err(
                    RoutingError::InvalidRoute {
                        route: route.name.clone(),
                        reason: cat2(
                            "unreachable action(s) after terminal step at index ",
                            &decimal(index as u64),
                        ),
                    },
                );
            }
            return Ok(());
        }
        index = index + 1;
    }
    Err(RoutingError::MissingTarget { route: route.name.clone() })
}

impl Switch {
    /// Checks that every route ends with its only target or switch.
    pub fn validate(&self) -> (r: Result<(), RoutingError>)
        ensures
            match r {
                Ok(()) => switch_problem(self@) is None,
                Err(e) => switch_problem(self@) == Some(e@),
            },
        decreases self,
    {
        proof {
            lemma_routes_facts(self.routes@);
        }
        let mut i: usize = 0;
        while i < self.routes.len()
            invariant
                i <= self.routes.len(),
                self@.len() == self.routes.len(),
                forall|e: int|
                    0 <= e < self.routes.len() ==> #[trigger] self@[e] == route_facts(
                        self.routes@[e],
                    ),
                switch_problem(self@) == switch_problem_from(self@, i as int),
            decreases self.routes.len() - i,
        {
            assert(decreases_to!(*self => self.routes));
            assert(decreases_to!(self.routes => self.routes[i as int]));
            match validate_route(&self.routes[i]) {
                Ok(()) => {},
                Err(e) => {
                    return Err(e);
                },
            }
            i = i + 1;
        }
        Ok(())
    }

    /// The names of the routes, in order.
    pub fn route_names(&self) -> (names: Vec<String>)
        ensures
            texts(names@) == Seq::new(self@.len(), |i: int| self@[i].name),
    {
        proof {
            lemma_routes_facts(self.routes@);
        }
        let mut names: Vec<String> = Vec::new();
        let mut i: usize = 0;
        while i < self.routes.len()
            invariant
                i <= self.routes.len(),
                names.len() == i,
                forall|e: int| 0 <= e < i ==> (#[trigger] names@[e])@ == self.routes@[e].name@,
            decreases self.routes.len() - i,
        {
            names.push(self.routes[i].name.clone());
            i = i + 1;
        }
        assert(texts(names@) =~= Seq::new(self@.len(), |i: int| self@[i].name));
        names
    }
}

// ---------------------------------------------------------------------------------------------
// Descriptions
// ---------------------------------------------------------------------------------------------

/// What the actions of a switch say about themselves, nested switches in place, from action `j`
/// of route `i` on. Empty descriptions are left out.
pub open spec fn descriptions_from(routes: Seq<RouteFacts>, i: int, j: int) -> Seq<Tree>
    decreases routes, routes.len() - i, routes[i].actions.len() - j,
{
    if i < 0 || j < 0 || i >= routes.len() {
        Seq::empty()
    } else if j >= routes[i].actions.len() {
        descriptions_from(routes, i + 1, 0)
    } else {
        let rest = descriptions_from(routes, i, j + 1);
        match routes[i].actions[j] {
            ActionFacts::Switch(inner) => {
                proof {
                    assert(decreases_to!(routes => routes[i]));
                    assert(decreases_to!(routes[i] => routes[i].actions));
                    assert(decreases_to!(routes[i].actions => routes[i].actions[j]));
                    assert(decreases_to!(routes[i].actions[j] => routes[i].actions[j]->Switch_0));
                }
                descriptions_from(inner, 0, 0) + rest
            },
            action => if worth_telling(descriptor_of(action)) {
                seq![descriptor_of(action)] + rest
            } else {
                rest
            },
        }
    }
}

/// A description with at least one member.
pub open spec fn worth_telling(description: Tree) -> bool {
    description matches Tree::Obj(members) && members.len() > 0
}

impl Switch {
    /// Collects what every action says about itself, nested switches included, as a flat list
    /// without empty descriptions.
    pub fn describe_actions(&self) -> (r: Vec<Json>)
        ensures
            trees(r@) == descriptions_from(self@, 0, 0),
    {
        let mut out: Vec<Json> = Vec::new();
        self.describe_into(&mut out);
        assert(trees(out@) =~= descriptions_from(self@, 0, 0));
        out
    }

    pub(crate) fn describe_into(&self, out: &mut Vec<Json>)
        ensures
            trees(final(out)@) == trees(old(out)@) + descriptions_from(self@, 0, 0),
        decreases self,
    {
        proof {
            lemma_routes_facts(self.routes@);
        }
        let ghost total = trees(old(out)@) + descriptions_from(self@, 0, 0);
        let mut i: usize = 0;
        while i < self.routes.len()
            invariant
                i <= self.routes.len(),
                self@.len() == self.routes.len(),
                forall|e: int|
                    0 <= e < self.routes.len() ==> #[trigger] self@[e] == route_facts(
                        self.routes@[e],
                    ),
                trees(out@) + descriptions_from(self@, i as int, 0) == total,
            decreases self.routes.len() - i,
        {
            let route = &self.routes[i];
            proof {
                lemma_actions_facts(route.actions@);
            }
            let mut j: usize = 0;
            while j < route.actions.len()
                invariant
                    i < self.routes.len(),
                    *route == self.routes@[i as int],
                    self@[i as int] == route_facts(*route),
                    self@.len() == self.routes.len(),
                    j <= route.actions.len(),
                    actions_facts(route.actions@).len() == route.actions.len(),
                    forall|e: int|
                        0 <= e < route.actions.len() ==> #[trigger] actions_facts(route.actions@)[e]
                            == action_facts(route.actions@[e]),
                    trees(out@) + descriptions_from(self@, i as int, j as int) == total,
                decreases route.actions.len() - j,
            {
                let action = &route.actions[j];
                let ghost before = trees(out@);
                assert(self@[i as int].actions[j as int] == action@);
                match action {
                    Action::Switch(switch) => {
                        assert(decreases_to!(*self => self.routes));
                        assert(decreases_to!(self.routes => self.routes[i as int]));
                        assert(decreases_to!(self.routes[i as int] => self.routes[i as int].actions));
                        assert(decreases_to!(route.actions => route.actions[j as int]));
                        assert(decreases_to!(route.actions[j as int] => *switch));
                        switch.describe_into(out);
                    },
                    _ => {
                        let description = action.describe();
                        let told = match &description {
                            Json::Object(members) => {
                                proof {
                                    lemma_member_trees(members@);
                                }
                                members.len() > 0
                            },
                            _ => false,
                        };
                        if told {
                            let ghost pushed_on = out@;
                            out.push(description);
                            assert(out@.drop_last() =~= pushed_on);
                            assert(trees(out@) =~= before + seq![descriptor_of(action@)]);
                        }
                    },
                }
                proof {
                    assert(trees(out@) + descriptions_from(self@, i as int, j + 1) =~= before
                        + descriptions_from(self@, i as int, j as int));
                }
                j = j + 1;
            }
            i = i + 1;
        }
        assert(trees(out@) =~= total);
    }
}

/// What one action does to a switch. A cancelled job stops it, and so does a client that has left
/// before a target that no dispatcher runs. Otherwise the outcome decides: the route goes on with
/// the job as it was left, or the switch ends with the result or the error of the action, or the
/// next route starts from the job as it came to the switch, with the reason noted unless the
/// action, or else its outcome, says that the rejection is silent.
pub proof fn law_actions_decide_by_their_outcome(
    routes: Seq<RouteFacts>,
    i: int,
    j: int,
    rejections: Seq<Seq<char>>,
    base: JobContents,
    job: JobContents,
    obs: Seq<Observation>,
    k: int,
    step: StepFacts,
)
    requires
        0 <= i < routes.len(),
        0 <= j < routes[i].actions.len(),
        0 <= k < obs.len(),
        routes[i].actions[j] == ActionFacts::Check(step) || routes[i].actions[j]
            == ActionFacts::Transform(step) || routes[i].actions[j] == ActionFacts::Target(step),
    ensures
        ({
            let r = run_from(routes, i, j, rejections, base, job, obs, k);
            let unwatched = routes[i].actions[j] is Target && step.dispatcher is None;
            let gone = unwatched && !obs[k].client_present;
            let runs = !obs[k].cancelled && !gone && obs[k].job == job;
            &&& obs[k].cancelled ==> r == Some((Verdict::Error(ActionError::Cancelled), k))
            &&& !obs[k].cancelled && gone ==> r == Some(
                (Verdict::Error(ActionError::ClientGone), k),
            )
            &&& runs && obs[k].outcome == OutcomeFacts::Proceed(None) ==> r == run_from(
                routes,
                i,
                j + 1,
                rejections,
                base,
                job,
                obs,
                k + 1,
            )
            &&& runs ==> match obs[k].outcome {
                OutcomeFacts::Proceed(Some(new)) => r == run_from(
                    routes,
                    i,
                    j + 1,
                    rejections,
                    base,
                    new,
                    obs,
                    k + 1,
                ),
                OutcomeFacts::Complete(result) => r == Some((Verdict::Complete(result), k + 1)),
                OutcomeFacts::Fail(e) => r == Some((Verdict::Error(e), k + 1)),
                OutcomeFacts::Reject { reason, silent } => {
                    &&& step.silent == Some(true) || (step.silent is None && silent) ==> r
                        == run_from(routes, i + 1, 0, rejections, base, base, obs, k + 1)
                    &&& step.silent == Some(false) || (step.silent is None && !silent) ==> r
                        == run_from(
                        routes,
                        i + 1,
                        0,
                        rejections.push(reason),
                        base,
                        base,
                        obs,
                        k + 1,
                    )
                },
                _ => true,
            }
        }),
{
    reveal(run_from);
}

/// A nested switch is tried from its first route on the job as it is there. Its rejection is one of
/// the route around it, and any other end is the end of the switches around it too.
pub proof fn law_nested_switches_decide_for_their_route(
    routes: Seq<RouteFacts>,
    i: int,
    j: int,
    rejections: Seq<Seq<char>>,
    base: JobContents,
    job: JobContents,
    obs: Seq<Observation>,
    k: int,
    inner: Seq<RouteFacts>,
)
    requires
        0 <= i < routes.len(),
        0 <= j < routes[i].actions.len(),
        0 <= k < obs.len(),
        !obs[k].cancelled,
        routes[i].actions[j] == ActionFacts::Switch(inner),
    ensures
        ({
            let r = run_from(routes, i, j, rejections, base, job, obs, k);
            match run_from(inner, 0, 0, Seq::empty(), job, job, obs, k) {
                Some((Verdict::Reject { reason, silent }, k2)) => {
                    &&& silent ==> r == run_from(routes, i + 1, 0, rejections, base, base, obs, k2)
                    &&& !silent ==> r == run_from(
                        routes,
                        i + 1,
                        0,
                        rejections.push(reason),
                        base,
                        base,
                        obs,
                        k2,
                    )
                },
                end => r == end,
            }
        }),
{
    reveal(run_from);
}

/// A route without actions left leads on to the next. After the last route the switch rejects: in
/// silence where no reason was noted, and with the reasons in order, told apart by semicolons,
/// where some were.
pub proof fn law_reasons_are_told_in_order(
    routes: Seq<RouteFacts>,
    i: int,
    j: int,
    rejections: Seq<Seq<char>>,
    base: JobContents,
    job: JobContents,
    obs: Seq<Observation>,
    k: int,
)
    requires
        0 <= i <= routes.len(),
        0 <= j,
        i < routes.len() ==> j >= routes[i].actions.len(),
    ensures
        ({
            let r = run_from(routes, i, j, rejections, base, job, obs, k);
            &&& i < routes.len() ==> r == run_from(
                routes,
                i + 1,
                0,
                rejections,
                base,
                base,
                obs,
                k,
            )
            &&& i == routes.len() && rejections.len() == 0 ==> r == Some(
                (Verdict::Reject { reason: "no route matched the request"@, silent: true }, k),
            )
            &&& i == routes.len() && rejections.len() == 1 ==> r == Some(
                (Verdict::Reject { reason: rejections[0], silent: false }, k),
            )
            &&& i == routes.len() && rejections.len() > 1 ==> r == Some(
                (
                    Verdict::Reject {
                        reason: joined(rejections.drop_last(), "; "@) + "; "@ + rejections.last(),
                        silent: false,
                    },
                    k,
                ),
            )
        }),
{
    reveal(run_from);
}

/// The words for a route that is not in order: nothing in it, nothing that ends it, or something
/// behind what ends it.
pub proof fn law_misshapen_routes_are_named(route: RouteFacts, j: int)
    requires
        0 <= j < route.actions.len(),
        forall|e: int|
            0 <= e < j ==> (#[trigger] route.actions[e] is Check || route.actions[e] is Transform),
    ensures
        route.actions[j] is Target ==> switch_problem(seq![route]) == (if j + 1
            == route.actions.len() {
            None
        } else {
            Some(
                RoutingProblem::InvalidRoute {
                    route: route.name,
                    reason: "unreachable action(s) after terminal step at index "@ + decimal_text(
                        j as nat,
                    ),
                },
            )
        }),
        j + 1 == route.actions.len() && (route.actions[j] is Check || route.actions[j] is Transform)
            ==> switch_problem(seq![route]) == Some(
            RoutingProblem::MissingTarget { route: route.name },
        ),
{
    lemma_problem_skips_steps(route, 0, j);
    lemma_problem_skips_steps(route, 0, j + 1);
    assert(switch_problem_from(seq![route], 1) is None);
    assert(seq![route][0] == route);
    assert(switch_problem(seq![route]) == route_problem_from(route, 0));
}

proof fn lemma_problem_skips_steps(route: RouteFacts, i: int, j: int)
    requires
        0 <= i <= j <= route.actions.len(),
    ensures
        (forall|e: int|
            i <= e < j ==> (#[trigger] route.actions[e] is Check || route.actions[e] is Transform))
            ==> route_problem_from(route, i) == route_problem_from(route, j),
    decreases j - i,
{
    if i < j {
        lemma_problem_skips_steps(route, i + 1, j);
    }
}

/// The first route with a problem names it, and a route without actions has one.
pub proof fn law_first_misshapen_route_is_named(
    route: RouteFacts,
    routes: Seq<RouteFacts>,
    i: int,
)
    requires
        0 <= i < routes.len(),
    ensures
        route.actions.len() == 0 ==> switch_problem(seq![route]) == Some(
            RoutingProblem::InvalidRoute { route: route.name, reason: "must not be empty"@ },
        ),
        (forall|e: int| 0 <= e < i ==> switch_problem(seq![#[trigger] routes[e]]) is None)
            && switch_problem(seq![routes[i]]) is Some ==> switch_problem(routes)
            == switch_problem(seq![routes[i]]),
{
    assert(seq![route][0] == route);
    lemma_problem_skips_routes(routes, 0, i);
    lemma_single_route(routes[i]);
    lemma_single_route(route);
}

proof fn lemma_single_route(route: RouteFacts)
    ensures
        switch_problem(seq![route]) == route_problem(route),
{
    assert(seq![route][0] == route);
    assert(switch_problem_from(seq![route], 1) is None);
}

proof fn lemma_problem_skips_routes(routes: Seq<RouteFacts>, a: int, i: int)
    requires
        0 <= a <= i <= routes.len(),
    ensures
        (forall|e: int| a <= e < i ==> switch_problem(seq![#[trigger] routes[e]]) is None)
            ==> switch_problem_from(routes, a) == switch_problem_from(routes, i),
    decreases i - a,
{
    if a < i {
        lemma_problem_skips_routes(routes, a + 1, i);
        lemma_single_route(routes[a]);
        if forall|e: int| a <= e < i ==> switch_problem(seq![#[trigger] routes[e]]) is None {
            assert(switch_problem(seq![routes[a]]) is None);
        }
    }
}

/// A description is told, in the order of the actions, exactly where it is an object with a member.
pub proof fn law_descriptions_follow_the_actions(
    routes: Seq<RouteFacts>,
    i: int,
    j: int,
    step: StepFacts,
)
    requires
        0 <= i < routes.len(),
        0 <= j < routes[i].actions.len(),
    ensures
        ({
            let action = routes[i].actions[j];
            let rest = descriptions_from(routes, i, j + 1);
            let r = descriptions_from(routes, i, j);
            &&& action == ActionFacts::Check(step) || action == ActionFacts::Transform(step)
                || action == ActionFacts::Target(step) ==> r == (match step.descriptor {
                Tree::Obj(members) => if members.len() > 0 {
                    seq![step.descriptor] + rest
                } else {
                    rest
                },
                _ => rest,
            })
            &&& action matches ActionFacts::Switch(inner) ==> r == descriptions_from(inner, 0, 0)
                + rest
        }),
        descriptions_from(routes, i, routes[i].actions.len() as int) == descriptions_from(
            routes,
            i + 1,
            0,
        ),
        descriptions_from(routes, routes.len() as int, 0) == Seq::<Tree>::empty(),
{
}

} // verus!
