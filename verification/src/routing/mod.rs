//! Routes: named pipelines of actions, and switches that try them in order.

pub mod switch;

use vstd::prelude::*;

use crate::dispatcher::dispatch::DispatchGuard;
use crate::dispatcher::plan::{opt_plan, DispatcherPlan, PlannedDispatcher};
use crate::job::{empty_object, new_object};
use crate::json::{Json, Tree};
use crate::routing::switch::Switch;

verus! {

/// A configured action other than a switch.
#[derive(Debug)]
pub struct Step {
    /// The registered name of the action.
    pub action_type: String,
    /// The configuration that the action is made from.
    pub config: Json,
    /// The dispatcher that the action runs on, if it has one.
    pub dispatcher: Option<DispatcherPlan>,
    /// Overrides whether rejections of this action are silent.
    pub silent: Option<bool>,
    /// The registry entry whose instance all references to it share.
    pub shared_as: Option<String>,
    /// What the action says about itself.
    pub descriptor: Json,
}

/// A configured pipeline step.
#[derive(Debug)]
pub enum Action {
    Check(Step),
    Transform(Step),
    Target(Step),
    Switch(Switch),
}

/// An ordered pipeline branch with a human-readable name.
#[derive(Debug)]
pub struct Route {
    /// Route name used in diagnostics and configuration.
    pub name: String,
    /// Actions executed in order when this route is selected.
    pub actions: Vec<Action>,
}

/// The mathematical contents of a [`Step`].
pub struct StepFacts {
    pub action_type: Seq<char>,
    pub config: Tree,
    pub dispatcher: Option<PlannedDispatcher>,
    pub silent: Option<bool>,
    pub shared_as: Option<Seq<char>>,
    pub descriptor: Tree,
}

/// The mathematical contents of an [`Action`].
pub enum ActionFacts {
    Check(StepFacts),
    Transform(StepFacts),
    Target(StepFacts),
    Switch(Seq<RouteFacts>),
}

/// The mathematical contents of a [`Route`].
pub struct RouteFacts {
    pub name: Seq<char>,
    pub actions: Seq<ActionFacts>,
}

pub open spec fn opt_text(s: Option<String>) -> Option<Seq<char>> {
    match s {
        Some(s) => Some(s@),
        None => None,
    }
}

impl View for Step {
    type V = StepFacts;

    open spec fn view(&self) -> StepFacts {
        StepFacts {
            action_type: self.action_type@,
            config: self.config@,
            dispatcher: opt_plan(self.dispatcher),
            silent: self.silent,
            shared_as: opt_text(self.shared_as),
            descriptor: self.descriptor@,
        }
    }
}

/// The contents of an action.
pub open spec fn action_facts(action: Action) -> ActionFacts
    decreases action,
{
    match action {
        Action::Check(step) => ActionFacts::Check(step@),
        Action::Transform(step) => ActionFacts::Transform(step@),
        Action::Target(step) => ActionFacts::Target(step@),
        Action::Switch(switch) => ActionFacts::Switch(routes_facts(switch.routes@)),
    }
}

/// The contents of a list of actions.
pub open spec fn actions_facts(actions: Seq<Action>) -> Seq<ActionFacts>
    decreases actions,
{
    if actions.len() == 0 {
        Seq::empty()
    } else {
        actions_facts(actions.drop_last()).push(action_facts(actions.last()))
    }
}

/// The contents of a route.
pub open spec fn route_facts(route: Route) -> RouteFacts
    decreases route,
{
    RouteFacts { name: route.name@, actions: actions_facts(route.actions@) }
}

/// The contents of a list of routes.
pub open spec fn routes_facts(routes: Seq<Route>) -> Seq<RouteFacts>
    decreases routes,
{
    if routes.len() == 0 {
        Seq::empty()
    } else {
        routes_facts(routes.drop_last()).push(route_facts(routes.last()))
    }
}

impl View for Action {
    type V = ActionFacts;

    open spec fn view(&self) -> ActionFacts {
        action_facts(*self)
    }
}

impl View for Route {
    type V = RouteFacts;

    open spec fn view(&self) -> RouteFacts {
        route_facts(*self)
    }
}

pub proof fn lemma_actions_facts(actions: Seq<Action>)
    ensures
        actions_facts(actions).len() == actions.len(),
        forall|i: int|
            0 <= i < actions.len() ==> #[trigger] actions_facts(actions)[i] == action_facts(
                actions[i],
            ),
    decreases actions.len(),
{
    if actions.len() > 0 {
        lemma_actions_facts(actions.drop_last());
    }
}

pub proof fn lemma_routes_facts(routes: Seq<Route>)
    ensures
        routes_facts(routes).len() == routes.len(),
        forall|i: int|
            0 <= i < routes.len() ==> #[trigger] routes_facts(routes)[i] == route_facts(routes[i]),
    decreases routes.len(),
{
    if routes.len() > 0 {
        lemma_routes_facts(routes.drop_last());
    }
}

impl Route {
    /// Creates a route from a name and ordered action list.
    pub fn new(name: String, actions: Vec<Action>) -> (r: Route)
        ensures
            r@ == (RouteFacts { name: name@, actions: actions_facts(actions@) }),
    {
        Route { name, actions }
    }
}

/// Whether an action ends a route.
pub open spec fn terminal(action: ActionFacts) -> bool {
    action is Target || action is Switch
}

/// The configured override for whether rejections of an action are silent.
pub open spec fn silent_override_of(action: ActionFacts) -> Option<bool> {
    match action {
        ActionFacts::Check(step) => step.silent,
        ActionFacts::Transform(step) => step.silent,
        ActionFacts::Target(step) => step.silent,
        ActionFacts::Switch(_) => None,
    }
}

/// What an action says about itself. A switch says nothing.
pub open spec fn descriptor_of(action: ActionFacts) -> Tree {
    match action {
        ActionFacts::Check(step) => step.descriptor,
        ActionFacts::Transform(step) => step.descriptor,
        ActionFacts::Target(step) => step.descriptor,
        ActionFacts::Switch(_) => empty_object(),
    }
}

impl Action {
    /// Returns true when this action ends a route.
    pub fn is_terminal(&self) -> (r: bool)
        ensures
            r == terminal(self@),
    {
        match self {
            Action::Target(_) => true,
            Action::Switch(_) => true,
            _ => false,
        }
    }

    /// What stops the work of this action while it waits for its turn. Work for a client that has
    /// left is of no use at a target; checks and transforms go on for a client that may return.
    pub fn guard(&self) -> (r: DispatchGuard)
        ensures
            r == (if self is Target {
                DispatchGuard::CancelledOrClientGone
            } else {
                DispatchGuard::Cancelled
            }),
    {
        match self {
            Action::Target(_) => DispatchGuard::CancelledOrClientGone,
            _ => DispatchGuard::Cancelled,
        }
    }

    /// Config-level override for whether this action's rejections are silent.
    pub fn silent_override(&self) -> (r: Option<bool>)
        ensures
            r == silent_override_of(self@),
    {
        match self {
            Action::Check(step) => step.silent,
            Action::Transform(step) => step.silent,
            Action::Target(step) => step.silent,
            Action::Switch(_) => None,
        }
    }

    /// What the action says about itself; the empty object for a switch.
    pub fn describe(&self) -> (r: Json)
        ensures
            r@ == descriptor_of(self@),
    {
        match self {
            Action::Check(step) => step.descriptor.copy(),
            Action::Transform(step) => step.descriptor.copy(),
            Action::Target(step) => step.descriptor.copy(),
            Action::Switch(_) => new_object(),
        }
    }
}

} // verus!
