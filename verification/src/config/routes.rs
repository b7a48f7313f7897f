//! Routes as configuration writes them.
//!
//! A list of routes is a list of objects with one key each: the name of the route, which leads to
//! the list of its actions. An action is a reference into a registry, such as `check::name`, or
//! stands in place as an object.

use vstd::prelude::*;

use crate::actions::registry::{created, ActionCatalog, ActionKind, CatalogFacts};
use crate::config::decode::{
    copy_without, executor_kind, law_other_members_stay, members_without, misshapen, queue_kind,
    read_executor_kind, read_queue_kind, shape_problem,
};
use crate::dispatcher::plan::{
    opt_plan, planned_dispatcher, DispatcherPlan, ExecutorChoice, ExecutorKind, PlannedDispatcher,
    RemotePoolConfig, DEFAULT_QUEUE_CAPACITY,
};
use crate::dispatcher::queue::QueueKind;
use crate::error::{
    bits_problem, BitsError, BitsProblem, ConfigError, ConfigProblem, RoutingError, RoutingProblem,
};
use crate::json::{
    find_member, json_text, lemma_member_trees, lemma_trees, lookup, member_trees, opt_tree, tree,
    trees, Json, Number, NumberValue, Tree,
};
use crate::routing::switch::{switch_problem, Switch};
use crate::routing::{
    actions_facts, routes_facts, Action, ActionFacts, Route, RouteFacts, Step, StepFacts,
};
use crate::text::{cat2, cat3, cat4, cat5, chars_of, decimal, decimal_text, text_eq};

verus! {

// ---------------------------------------------------------------------------------------------
// Registries
// ---------------------------------------------------------------------------------------------

/// The named checks, transforms and targets of a configuration.
#[derive(Debug)]
pub struct Registries {
    pub checks: Vec<(String, Json)>,
    pub transforms: Vec<(String, Json)>,
    pub targets: Vec<(String, Json)>,
}

/// Makes routes out of configuration.
#[derive(Debug)]
pub struct RouteFactory {
    pub registries: Registries,
    /// Whether remote workers have a server to fetch their work from.
    pub has_worker_server: bool,
    /// The actions that configuration can name.
    pub catalog: ActionCatalog,
}

/// The mathematical contents of a [`RouteFactory`].
pub struct Surroundings {
    pub checks: Seq<(Seq<char>, Tree)>,
    pub transforms: Seq<(Seq<char>, Tree)>,
    pub targets: Seq<(Seq<char>, Tree)>,
    pub has_worker_server: bool,
    pub catalog: CatalogFacts,
}

impl View for RouteFactory {
    type V = Surroundings;

    open spec fn view(&self) -> Surroundings {
        Surroundings {
            checks: member_trees(self.registries.checks@),
            transforms: member_trees(self.registries.transforms@),
            targets: member_trees(self.registries.targets@),
            has_worker_server: self.has_worker_server,
            catalog: self.catalog@,
        }
    }
}

impl RouteFactory {
    /// A factory without registry entries.
    pub fn new(catalog: ActionCatalog) -> (r: RouteFactory)
        ensures
            r@ == (Surroundings {
                checks: Seq::empty(),
                transforms: Seq::empty(),
                targets: Seq::empty(),
                has_worker_server: false,
                catalog: catalog@,
            }),
    {
        let registries = Registries {
            checks: Vec::new(),
            transforms: Vec::new(),
            targets: Vec::new(),
        };
        proof {
            assert(member_trees(registries.checks@) =~= Seq::<(Seq<char>, Tree)>::empty());
            assert(member_trees(registries.transforms@) =~= Seq::<(Seq<char>, Tree)>::empty());
            assert(member_trees(registries.targets@) =~= Seq::<(Seq<char>, Tree)>::empty());
        }
        RouteFactory { registries, has_worker_server: false, catalog }
    }
}

// ---------------------------------------------------------------------------------------------
// Problems
// ---------------------------------------------------------------------------------------------

pub open spec fn invalid(path: Seq<char>, reason: Seq<char>) -> BitsProblem {
    BitsProblem::Config(ConfigProblem::Validation { path, reason })
}

pub open spec fn missing(path: Seq<char>) -> BitsProblem {
    BitsProblem::Config(ConfigProblem::MissingField { path })
}

pub open spec fn undecodable(path: Seq<char>, target: Seq<char>, value: Tree) -> BitsProblem {
    BitsProblem::Config(
        ConfigProblem::Decode { path, target, problem: shape_problem(target, value) },
    )
}

pub open spec fn invalid_route(route: Seq<char>, reason: Seq<char>) -> BitsProblem {
    BitsProblem::Routing(RoutingProblem::InvalidRoute { route, reason })
}

pub open spec fn invalid_action(
    route: Seq<char>,
    action: Seq<char>,
    reason: Seq<char>,
) -> BitsProblem {
    BitsProblem::Routing(RoutingProblem::InvalidAction { route, action, reason })
}

pub fn invalid_error(path: &str, reason: &str) -> (e: BitsError)
    ensures
        bits_problem(e) == invalid(path@, reason@),
{
    BitsError::Config(ConfigError::validation(path, reason))
}

pub fn missing_error(path: &str) -> (e: BitsError)
    ensures
        bits_problem(e) == missing(path@),
{
    BitsError::Config(ConfigError::missing(path))
}

pub fn undecodable_error(path: &str, target: &str, value: &Json) -> (e: BitsError)
    ensures
        bits_problem(e) == undecodable(path@, target@, value@),
{
    BitsError::Config(
        ConfigError::Decode {
            path: path.to_owned(),
            target: target.to_owned(),
            problem: misshapen(target, value),
        },
    )
}

pub fn invalid_route_error(route: &str, reason: &str) -> (e: BitsError)
    ensures
        bits_problem(e) == invalid_route(route@, reason@),
{
    BitsError::Routing(
        RoutingError::InvalidRoute { route: route.to_owned(), reason: reason.to_owned() },
    )
}

pub fn invalid_action_error(route: &str, action: &str, reason: &str) -> (e: BitsError)
    ensures
        bits_problem(e) == invalid_action(route@, action@, reason@),
{
    BitsError::Routing(
        RoutingError::InvalidAction {
            route: route.to_owned(),
            action: action.to_owned(),
            reason: reason.to_owned(),
        },
    )
}

// ---------------------------------------------------------------------------------------------
// Namespaces
// ---------------------------------------------------------------------------------------------

/// A double colon stands at a place of a text.
pub open spec fn colons_at(s: Seq<char>, i: int) -> bool {
    0 <= i && i + 1 < s.len() && s[i] == ':' && s[i + 1] == ':'
}

/// Where the first double colon stands, from a place on.
pub open spec fn colons_from(s: Seq<char>, i: int) -> Option<int>
    decreases s.len() - i,
{
    if i < 0 || i >= s.len() {
        None
    } else if colons_at(s, i) {
        Some(i)
    } else {
        colons_from(s, i + 1)
    }
}

/// The namespace and the name of a reference.
pub open spec fn namespaced(s: Seq<char>) -> Option<(Seq<char>, Seq<char>)> {
    match colons_from(s, 0) {
        Some(i) => Some((s.take(i), s.skip(i + 2))),
        None => None,
    }
}

fn text_of(chars: &Vec<char>, from: usize, to: usize) -> (r: String)
    requires
        from <= to <= chars@.len(),
    ensures
        r@ == chars@.subrange(from as int, to as int),
{
    let mut r = String::new();
    let mut i: usize = from;
    while i < to
        invariant
            from <= i <= to <= chars@.len(),
            r@ == chars@.subrange(from as int, i as int),
        decreases to - i,
    {
        r.push(chars[i]);
        assert(chars@.subrange(from as int, i + 1) =~= chars@.subrange(
            from as int,
            i as int,
        ).push(chars@[i as int]));
        i = i + 1;
    }
    r
}

/// Splits a reference at its first double colon.
pub fn split_namespace(s: &str) -> (r: Option<(String, String)>)
    ensures
        match r {
            Some((ns, name)) => namespaced(s@) == Some((ns@, name@)),
            None => namespaced(s@) is None,
        },
{
    let chars = chars_of(s);
    let mut i: usize = 0;
    while i < chars.len()
        invariant
            i <= chars@.len(),
            chars@ == s@,
            colons_from(s@, 0) == colons_from(s@, i as int),
        decreases chars@.len() - i,
    {
        if chars[i] == ':' && i + 1 < chars.len() && chars[i + 1] == ':' {
            assert(colons_at(s@, i as int));
            let ns = text_of(&chars, 0, i);
            let name = text_of(&chars, i + 2, chars.len());
            assert(ns@ =~= s@.take(i as int));
            assert(name@ =~= s@.skip(i + 2));
            return Some((ns, name));
        }
        i = i + 1;
    }
    None
}

/// Joining what was split at its first double colon gives the reference back, and no namespace
/// holds a double colon.
pub proof fn law_split_references_join(s: Seq<char>)
    requires
        namespaced(s) is Some,
    ensures
        s == (namespaced(s)->0).0 + "::"@ + (namespaced(s)->0).1,
        colons_from((namespaced(s)->0).0, 0) is None,
{
    reveal_strlit("::");
    let i = colons_from(s, 0)->0;
    lemma_colons(s, 0);
    assert(s =~= s.take(i) + "::"@ + s.skip(i + 2));
    let ns = s.take(i);
    lemma_colons(ns, 0);
    if colons_from(ns, 0) is Some {
        let j = colons_from(ns, 0)->0;
        assert(colons_at(s, j));
    }
}

proof fn lemma_colons(s: Seq<char>, from: int)
    requires
        0 <= from,
    ensures
        match colons_from(s, from) {
            Some(i) => from <= i && colons_at(s, i) && forall|k: int|
                from <= k < i ==> !#[trigger] colons_at(s, k),
            None => forall|k: int| from <= k ==> !#[trigger] colons_at(s, k),
        },
    decreases s.len() - from,
{
    if from < s.len() && !colons_at(s, from) {
        lemma_colons(s, from + 1);
    }
}

// ---------------------------------------------------------------------------------------------
// Dispatchers
// ---------------------------------------------------------------------------------------------

/// What the `dispatcher` key of an action asks for.
#[derive(Debug)]
pub struct DispatcherSettings {
    pub queue: Option<QueueKind>,
    pub executor: Option<ExecutorKind>,
    pub queue_capacity: usize,
}

/// The mathematical contents of [`DispatcherSettings`].
pub struct SettingsFacts {
    pub queue: Option<QueueKind>,
    pub executor: Option<ExecutorChoice>,
    pub queue_capacity: usize,
}

pub open spec fn opt_executor(executor: Option<ExecutorKind>) -> Option<ExecutorChoice> {
    match executor {
        Some(kind) => Some(kind@),
        None => None,
    }
}

impl View for DispatcherSettings {
    type V = SettingsFacts;

    open spec fn view(&self) -> SettingsFacts {
        SettingsFacts {
            queue: self.queue,
            executor: opt_executor(self.executor),
            queue_capacity: self.queue_capacity,
        }
    }
}

/// The queue that settings name.
pub open spec fn queue_setting(value: Option<Tree>) -> Result<Option<QueueKind>, BitsProblem> {
    match value {
        None => Ok(None),
        Some(value) => match queue_kind(value) {
            Some(kind) => Ok(Some(kind)),
            None => Err(undecodable("dispatcher.queue"@, "QueueKind"@, value)),
        },
    }
}

/// The executor that settings name.
pub open spec fn executor_setting(value: Option<Tree>) -> Result<
    Option<ExecutorChoice>,
    BitsProblem,
> {
    match value {
        None => Ok(None),
        Some(value) => match executor_kind(value) {
            Some(kind) => Ok(Some(kind)),
            None => Err(undecodable("dispatcher.executor"@, "ExecutorKind"@, value)),
        },
    }
}

/// The capacity that settings name.
pub open spec fn capacity_setting(value: Option<Tree>) -> Result<usize, BitsProblem> {
    match value {
        None => Ok(DEFAULT_QUEUE_CAPACITY),
        Some(value) => match value.as_u64() {
            None => Err(invalid("dispatcher.queue_capacity"@, "must be a positive integer"@)),
            Some(cap) => if cap == 0 {
                Err(invalid("dispatcher.queue_capacity"@, "must be greater than zero"@))
            } else if cap > usize::MAX {
                Err(invalid("dispatcher.queue_capacity"@, "value too large for this platform"@))
            } else {
                Ok(cap as usize)
            },
        },
    }
}

/// What the `dispatcher` key of an action asks for, or the first thing that is wrong with it.
pub open spec fn dispatcher_settings(dispatcher: Option<Tree>) -> Result<
    SettingsFacts,
    BitsProblem,
> {
    match dispatcher {
        None => Ok(
            SettingsFacts {
                queue: None,
                executor: None,
                queue_capacity: DEFAULT_QUEUE_CAPACITY,
            },
        ),
        Some(Tree::Obj(members)) => match queue_setting(lookup(members, "queue"@)) {
            Err(p) => Err(p),
            Ok(queue) => match executor_setting(lookup(members, "executor"@)) {
                Err(p) => Err(p),
                Ok(executor) => match capacity_setting(lookup(members, "queue_capacity"@)) {
                    Err(p) => Err(p),
                    Ok(queue_capacity) => if lookup(members, "concurrency"@) is Some {
                        Err(
                            invalid(
                                "dispatcher.concurrency"@,
                                "removed; set concurrency inside the executor block instead"@,
                            ),
                        )
                    } else if lookup(members, "persistent"@) is Some || lookup(
                        members,
                        "lock_ttl_secs"@,
                    ) is Some {
                        Err(
                            invalid(
                                "dispatcher"@,
                                "persistent/lock_ttl_secs removed; use bits.persist_after_secs policy"@,
                            ),
                        )
                    } else {
                        Ok(SettingsFacts { queue, executor, queue_capacity })
                    },
                },
            },
        },
        Some(_) => Err(invalid("dispatcher"@, "must be an object"@)),
    }
}

/// Reads what the `dispatcher` key of an action asks for.
pub fn parse_dispatcher_fields(dispatcher: Option<&Json>) -> (r: Result<
    DispatcherSettings,
    BitsError,
>)
    ensures
        match r {
            Ok(settings) => dispatcher_settings(opt_tree(dispatcher)) == Ok::<
                SettingsFacts,
                BitsProblem,
            >(settings@),
            Err(e) => dispatcher_settings(opt_tree(dispatcher)) == Err::<
                SettingsFacts,
                BitsProblem,
            >(bits_problem(e)),
        },
{
    let members = match dispatcher {
        None => {
            return Ok(
                DispatcherSettings {
                    queue: None,
                    executor: None,
                    queue_capacity: DEFAULT_QUEUE_CAPACITY,
                },
            );
        },
        Some(Json::Object(members)) => members,
        Some(_) => {
            return Err(invalid_error("dispatcher", "must be an object"));
        },
    };
    let queue = match find_member(members, "queue") {
        None => None,
        Some(value) => match read_queue_kind(value) {
            Some(kind) => Some(kind),
            None => {
                return Err(undecodable_error("dispatcher.queue", "QueueKind", value));
            },
        },
    };
    let executor = match find_member(members, "executor") {
        None => None,
        Some(value) => match read_executor_kind(value) {
            Some(kind) => Some(kind),
            None => {
                return Err(undecodable_error("dispatcher.executor", "ExecutorKind", value));
            },
        },
    };
    let queue_capacity: usize = match find_member(members, "queue_capacity") {
        None => DEFAULT_QUEUE_CAPACITY,
        Some(value) => match value.as_u64() {
            None => {
                return Err(
                    invalid_error("dispatcher.queue_capacity", "must be a positive integer"),
                );
            },
            Some(cap) => {
                if cap == 0 {
                    return Err(
                        invalid_error("dispatcher.queue_capacity", "must be greater than zero"),
                    );
                }
                if cap > usize::MAX as u64 {
                    return Err(
                        invalid_error(
                            "dispatcher.queue_capacity",
                            "value too large for this platform",
                        ),
                    );
                }
                cap as usize
            },
        },
    };
    if find_member(members, "concurrency").is_some() {
        return Err(
            invalid_error(
                "dispatcher.concurrency",
                "removed; set concurrency inside the executor block instead",
            ),
        );
    }
    if find_member(members, "persistent").is_some() || find_member(
        members,
        "lock_ttl_secs",
    ).is_some() {
        return Err(
            invalid_error(
                "dispatcher",
                "persistent/lock_ttl_secs removed; use bits.persist_after_secs policy",
            ),
        );
    }
    Ok(DispatcherSettings { queue, executor, queue_capacity })
}

/// The executor that an action runs on: a remote target has a remote pool, and nothing else has
/// one.
pub open spec fn paired_executor(
    is_remote: bool,
    executor: Option<ExecutorChoice>,
    has_worker_server: bool,
) -> Result<Option<ExecutorChoice>, BitsProblem> {
    if is_remote {
        if !(executor is None || (executor matches Some(e) && e is RemotePool)) {
            Err(
                invalid(
                    "dispatcher.executor"@,
                    "'remote' target requires executor: remote_pool"@,
                ),
            )
        } else if !has_worker_server {
            Err(missing("bits.worker_server"@))
        } else if executor is None {
            Ok(
                Some(
                    ExecutorChoice::RemotePool {
                        heartbeat_timeout_secs: NumberValue::Unsigned(60),
                    },
                ),
            )
        } else {
            Ok(executor)
        }
    } else if executor matches Some(e) && e is RemotePool {
        Err(invalid("dispatcher.executor"@, "remote_pool requires a 'remote' target action"@))
    } else {
        Ok(executor)
    }
}

/// The dispatcher that an action runs on.
pub open spec fn attached(
    entry_name: Seq<char>,
    action_name: Seq<char>,
    kind: ActionKind,
    settings: SettingsFacts,
    has_worker_server: bool,
) -> Result<Option<PlannedDispatcher>, BitsProblem> {
    let is_remote = action_name == "remote"@;
    let is_target = kind == ActionKind::Target;
    match paired_executor(is_remote, settings.executor, has_worker_server) {
        Err(p) => Err(p),
        Ok(executor) => match planned_dispatcher(
            settings.queue,
            executor,
            if is_target && is_remote {
                Some(entry_name)
            } else {
                None
            },
            is_target && has_worker_server,
            is_target,
            settings.queue_capacity,
        ) {
            Err(reason) => Err(invalid("dispatcher"@, reason)),
            Ok(plan) => Ok(plan),
        },
    }
}

/// Plans the dispatcher that an action runs on.
pub fn attach_dispatcher(
    entry_name: &str,
    action_name: &str,
    kind: ActionKind,
    settings: DispatcherSettings,
    has_worker_server: bool,
) -> (r: Result<Option<DispatcherPlan>, BitsError>)
    ensures
        match r {
            Ok(plan) => attached(
                entry_name@,
                action_name@,
                kind,
                settings@,
                has_worker_server,
            ) == Ok::<Option<PlannedDispatcher>, BitsProblem>(opt_plan(plan)),
            Err(e) => attached(entry_name@, action_name@, kind, settings@, has_worker_server)
                == Err::<Option<PlannedDispatcher>, BitsProblem>(bits_problem(e)),
        },
{
    let is_remote = text_eq(action_name, "remote");
    let is_target = kind == ActionKind::Target;
    let is_pool = match &settings.executor {
        Some(ExecutorKind::RemotePool { .. }) => true,
        _ => false,
    };
    let mut executor = settings.executor;
    if is_remote {
        if executor.is_some() && !is_pool {
            return Err(
                invalid_error(
                    "dispatcher.executor",
                    "'remote' target requires executor: remote_pool",
                ),
            );
        }
        if !has_worker_server {
            return Err(missing_error("bits.worker_server"));
        }
        if executor.is_none() {
            executor = Some(
                ExecutorKind::RemotePool {
                    config: RemotePoolConfig { heartbeat_timeout_secs: Number::Unsigned(60) },
                },
            );
        }
    } else if is_pool {
        return Err(
            invalid_error("dispatcher.executor", "remote_pool requires a 'remote' target action"),
        );
    }
    let pool_name = if is_target && is_remote {
        Some(entry_name)
    } else {
        None
    };
    let planned = DispatcherPlan::from_config(
        settings.queue,
        executor.as_ref(),
        pool_name,
        is_target && has_worker_server,
        is_target,
        settings.queue_capacity,
    );
    match planned {
        Ok(plan) => Ok(plan),
        Err(reason) => Err(invalid_error("dispatcher", &reason)),
    }
}

// ---------------------------------------------------------------------------------------------
// Registry entries
// ---------------------------------------------------------------------------------------------

/// An action of a kind.
pub open spec fn action_of_kind(kind: ActionKind, step: StepFacts) -> ActionFacts {
    match kind {
        ActionKind::Check => ActionFacts::Check(step),
        ActionKind::Transform => ActionFacts::Transform(step),
        ActionKind::Target => ActionFacts::Target(step),
    }
}

fn make_action(kind: ActionKind, step: Step) -> (r: Action)
    ensures
        r@ == action_of_kind(kind, step@),
{
    match kind {
        ActionKind::Check => Action::Check(step),
        ActionKind::Transform => Action::Transform(step),
        ActionKind::Target => Action::Target(step),
    }
}

/// The settings of an entry that are the action's own.
pub open spec fn own_settings(members: Seq<(Seq<char>, Tree)>) -> Tree {
    Tree::Obj(
        members_without(
            members_without(members_without(members, "type"@), "dispatcher"@),
            "silent"@,
        ),
    )
}

/// The action that a registry entry describes. References to a target share the instance that is
/// made of its entry.
pub open spec fn entry_action(
    ns: Seq<char>,
    entry_name: Seq<char>,
    entry: Tree,
    around: Surroundings,
) -> Result<ActionFacts, BitsProblem> {
    let path = ns + "."@ + entry_name;
    match entry {
        Tree::Obj(members) => {
            let silent = lookup(members, "silent"@);
            if lookup(members, "persistent"@) is Some || lookup(members, "lock_ttl_secs"@) is Some {
                Err(
                    invalid(
                        path,
                        "persistent/lock_ttl_secs removed; use bits.persist_after_secs"@,
                    ),
                )
            } else {
                match lookup(members, "type"@) {
                    Some(Tree::Str(action_type)) => match dispatcher_settings(
                        lookup(members, "dispatcher"@),
                    ) {
                        Err(p) => Err(p),
                        Ok(settings) => if silent is Some && !(silent->0 is Bool) {
                            Err(invalid(path + ".silent"@, "must be a boolean"@))
                        } else {
                            match created(around.catalog, action_type, own_settings(members)) {
                                Err(words) => Err(
                                    invalid(path + ".type"@, "Config error: "@ + words),
                                ),
                                Ok((kind, descriptor)) => match attached(
                                    entry_name,
                                    action_type,
                                    kind,
                                    settings,
                                    around.has_worker_server,
                                ) {
                                    Err(p) => Err(p),
                                    Ok(dispatcher) => Ok(
                                        action_of_kind(
                                            kind,
                                            StepFacts {
                                                action_type,
                                                config: own_settings(members),
                                                dispatcher,
                                                silent: if silent is Some {
                                                    (silent->0).as_bool()
                                                } else {
                                                    None
                                                },
                                                shared_as: if ns == "target"@ && kind
                                                    == ActionKind::Target {
                                                    Some(entry_name)
                                                } else {
                                                    None
                                                },
                                                descriptor,
                                            },
                                        ),
                                    ),
                                },
                            }
                        },
                    },
                    _ => Err(missing(path + ".type"@)),
                }
            }
        },
        _ => Err(invalid(path, "must be an object, got: "@ + json_text(entry))),
    }
}

/// Makes the action that a registry entry describes.
pub fn action_from_entry(ns: &str, entry_name: &str, entry: &Json, factory: &RouteFactory) -> (r:
    Result<Action, BitsError>)
    ensures
        match r {
            Ok(action) => entry_action(ns@, entry_name@, entry@, factory@) == Ok::<
                ActionFacts,
                BitsProblem,
            >(action@),
            Err(e) => entry_action(ns@, entry_name@, entry@, factory@) == Err::<
                ActionFacts,
                BitsProblem,
            >(bits_problem(e)),
        },
{
    let path = cat3(ns, ".", entry_name);
    let members = match entry {
        Json::Object(members) => members,
        _ => {
            return Err(
                invalid_error(&path, &cat2("must be an object, got: ", &entry.to_text())),
            );
        },
    };
    if find_member(members, "persistent").is_some() || find_member(
        members,
        "lock_ttl_secs",
    ).is_some() {
        return Err(
            invalid_error(
                &path,
                "persistent/lock_ttl_secs removed; use bits.persist_after_secs",
            ),
        );
    }
    let action_type = match find_member(members, "type") {
        Some(Json::Str(name)) => name,
        _ => {
            return Err(missing_error(&cat2(&path, ".type")));
        },
    };
    let settings = match parse_dispatcher_fields(find_member(members, "dispatcher")) {
        Ok(settings) => settings,
        Err(e) => {
            return Err(e);
        },
    };
    let silent = match find_member(members, "silent") {
        None => None,
        Some(Json::Bool(b)) => Some(*b),
        Some(_) => {
            return Err(invalid_error(&cat2(&path, ".silent"), "must be a boolean"));
        },
    };
    let untyped = copy_without(members, "type");
    let undispatched = copy_without(&untyped, "dispatcher");
    let config = Json::Object(copy_without(&undispatched, "silent"));
    assert(config@ == own_settings(member_trees(members@)));
    let made = match factory.catalog.create_action(action_type, &config) {
        Ok(made) => made,
        Err(e) => {
            return Err(invalid_error(&cat2(&path, ".type"), &e.to_text()));
        },
    };
    let dispatcher = match attach_dispatcher(
        entry_name,
        action_type,
        made.kind,
        settings,
        factory.has_worker_server,
    ) {
        Ok(dispatcher) => dispatcher,
        Err(e) => {
            return Err(e);
        },
    };
    let shared_as = if text_eq(ns, "target") && made.kind == ActionKind::Target {
        Some(entry_name.to_owned())
    } else {
        None
    };
    Ok(
        make_action(
            made.kind,
            Step {
                action_type: action_type.clone(),
                config,
                dispatcher,
                silent,
                shared_as,
                descriptor: made.descriptor,
            },
        ),
    )
}

/// The action that a reference into a registry stands for.
pub open spec fn named_action(
    ns: Seq<char>,
    name: Seq<char>,
    route: Seq<char>,
    around: Surroundings,
) -> Result<ActionFacts, BitsProblem> {
    let reference = ns + "::"@ + name;
    let (known, entry) = if ns == "check"@ {
        (true, lookup(around.checks, name))
    } else if ns == "transform"@ {
        (true, lookup(around.transforms, name))
    } else if ns == "target"@ {
        (true, lookup(around.targets, name))
    } else {
        (false, None)
    };
    if !known {
        Err(invalid_action(route, reference, "unknown namespace '"@ + ns + "'"@))
    } else {
        match entry {
            None => Err(
                invalid_action(route, reference, "unknown "@ + ns + " '"@ + name + "'"@),
            ),
            Some(entry) => entry_action(ns, name, entry, around),
        }
    }
}

/// Looks a reference up and makes its action.
pub fn resolve_named(ns: &str, name: &str, route_name: &str, factory: &RouteFactory) -> (r: Result<
    Action,
    BitsError,
>)
    ensures
        match r {
            Ok(action) => named_action(ns@, name@, route_name@, factory@) == Ok::<
                ActionFacts,
                BitsProblem,
            >(action@),
            Err(e) => named_action(ns@, name@, route_name@, factory@) == Err::<
                ActionFacts,
                BitsProblem,
            >(bits_problem(e)),
        },
{
    let registry = if text_eq(ns, "check") {
        &factory.registries.checks
    } else if text_eq(ns, "transform") {
        &factory.registries.transforms
    } else if text_eq(ns, "target") {
        &factory.registries.targets
    } else {
        return Err(
            invalid_action_error(
                route_name,
                &cat3(ns, "::", name),
                &cat3("unknown namespace '", ns, "'"),
            ),
        );
    };
    match find_member(registry, name) {
        Some(entry) => action_from_entry(ns, name, entry, factory),
        None => Err(
            invalid_action_error(
                route_name,
                &cat3(ns, "::", name),
                &cat5("unknown ", ns, " '", name, "'"),
            ),
        ),
    }
}

/// All references to a target share one instance: they come to the same action, which is shared
/// under the name of the registry entry, whatever route they stand in.
pub proof fn law_references_share_their_target(
    name: Seq<char>,
    one: Seq<char>,
    other: Seq<char>,
    around: Surroundings,
)
    requires
        named_action("target"@, name, one, around) is Ok,
    ensures
        named_action("target"@, name, other, around) == named_action("target"@, name, one, around),
        named_action("target"@, name, one, around) matches Ok(ActionFacts::Target(step))
            ==> step.shared_as == Some(name),
{
    reveal_strlit("check");
    reveal_strlit("transform");
    reveal_strlit("target");
    assert("target"@.len() != "check"@.len() && "target"@.len() != "transform"@.len());
}

// ---------------------------------------------------------------------------------------------
// Actions
// ---------------------------------------------------------------------------------------------

/// Where a key first stands among members, from a place on.
pub open spec fn key_from(members: Seq<(Seq<char>, Tree)>, key: Seq<char>, i: int) -> Option<int>
    decreases members.len() - i,
{
    if i < 0 || i >= members.len() {
        None
    } else if members[i].0 == key {
        Some(i)
    } else {
        key_from(members, key, i + 1)
    }
}

/// Where a key with a namespace first stands among members, from a place on.
pub open spec fn namespaced_from(members: Seq<(Seq<char>, Tree)>, i: int) -> Option<int>
    decreases members.len() - i,
{
    if i < 0 || i >= members.len() {
        None
    } else if namespaced(members[i].0) is Some {
        Some(i)
    } else {
        namespaced_from(members, i + 1)
    }
}

/// A namespace is that of a kind.
pub open spec fn is_namespace_of(ns: Seq<char>, kind: ActionKind) -> bool {
    match kind {
        ActionKind::Check => ns == "check"@,
        ActionKind::Transform => ns == "transform"@,
        ActionKind::Target => ns == "target"@,
    }
}

/// Whether a namespace is that of a kind.
pub fn validate_inline_action(ns: &str, kind: ActionKind) -> (r: bool)
    ensures
        r == is_namespace_of(ns@, kind),
{
    match kind {
        ActionKind::Check => text_eq(ns, "check"),
        ActionKind::Transform => text_eq(ns, "transform"),
        ActionKind::Target => text_eq(ns, "target"),
    }
}

/// The action that stands in place as the member `i` of an object.
pub open spec fn inline_action(
    members: Seq<(Seq<char>, Tree)>,
    i: int,
    route: Seq<char>,
    around: Surroundings,
) -> Result<ActionFacts, BitsProblem> {
    let key = members[i].0;
    let config = members[i].1;
    let (ns, name) = namespaced(key)->0;
    let silent = lookup(members, "silent"@);
    if name == "remote"@ {
        Err(
            invalid_action(
                route,
                key,
                "target::remote must be defined as a named registry entry (not inline); the pool name is derived from the registry entry name"@,
            ),
        )
    } else {
        match created(around.catalog, name, config) {
            Err(words) => Err(invalid_action(route, key, "Config error: "@ + words)),
            Ok((kind, descriptor)) => if !is_namespace_of(ns, kind) {
                Err(
                    invalid_action(
                        route,
                        key,
                        "inline action namespace '"@ + ns + "' does not match action type"@,
                    ),
                )
            } else {
                match dispatcher_settings(lookup(members, "dispatcher"@)) {
                    Err(p) => Err(p),
                    Ok(settings) => if silent is Some && !(silent->0 is Bool) {
                        Err(invalid_action(route, key, "silent must be a boolean"@))
                    } else {
                        match attached(name, name, kind, settings, around.has_worker_server) {
                            Err(p) => Err(p),
                            Ok(dispatcher) => Ok(
                                action_of_kind(
                                    kind,
                                    StepFacts {
                                        action_type: name,
                                        config,
                                        dispatcher,
                                        silent: if silent is Some {
                                            (silent->0).as_bool()
                                        } else {
                                            None
                                        },
                                        shared_as: None,
                                        descriptor,
                                    },
                                ),
                            ),
                        }
                    },
                }
            },
        }
    }
}

/// The action that a value describes.
pub open spec fn action_of(value: Tree, route: Seq<char>, around: Surroundings) -> Result<
    ActionFacts,
    BitsProblem,
>
    decreases value, 0nat,
{
    match value {
        Tree::Str(name) => if name == "persist"@ {
            Err(
                invalid_action(
                    route,
                    name,
                    "'persist' step has been removed; use bits.persist_after_secs instead"@,
                ),
            )
        } else {
            match namespaced(name) {
                None => Err(invalid_action(route, name, "must be namespace::name"@)),
                Some((ns, entry)) => named_action(ns, entry, route, around),
            }
        },
        Tree::Obj(members) => {
            let at = key_from(members, "switch"@, 0);
            if at is Some && 0 <= at->0 < members.len() {
                proof {
                    assert(decreases_to!(value => value->Obj_0));
                    assert(decreases_to!(members => members[at->0]));
                    assert(decreases_to!(members[at->0] => members[at->0].1));
                }
                match routes_of(members[at->0].1, "switch"@, around) {
                    Err(p) => Err(p),
                    Ok(routes) => match switch_problem(routes) {
                        Some(p) => Err(BitsProblem::Routing(p)),
                        None => Ok(ActionFacts::Switch(routes)),
                    },
                }
            } else {
                match namespaced_from(members, 0) {
                    Some(i) => inline_action(members, i, route, around),
                    None => Err(invalid_action(route, json_text(value), "unrecognised action"@)),
                }
            }
        },
        _ => Err(invalid_action(route, json_text(value), "action must be string or object"@)),
    }
}

/// The actions that the first `n` values describe.
pub open spec fn actions_upto(
    values: Seq<Tree>,
    n: nat,
    route: Seq<char>,
    around: Surroundings,
) -> Result<Seq<ActionFacts>, BitsProblem>
    decreases values, n,
{
    if n == 0 || n > values.len() {
        Ok(Seq::empty())
    } else {
        match actions_upto(values, (n - 1) as nat, route, around) {
            Err(p) => Err(p),
            Ok(actions) => match action_of(values[n - 1], route, around) {
                Err(p) => Err(p),
                Ok(action) => Ok(actions.push(action)),
            },
        }
    }
}

/// The name of an entry of a list of routes, as diagnostics give it.
pub open spec fn place_name(section: Seq<char>, index: nat) -> Seq<char> {
    section + "["@ + decimal_text(index) + "]"@
}

/// The route that an entry of a list of routes describes.
pub open spec fn route_of(entry: Tree, index: nat, section: Seq<char>, around: Surroundings) -> Result<
    RouteFacts,
    BitsProblem,
>
    decreases entry, 0nat,
{
    match entry {
        Tree::Obj(members) => if members.len() != 1 {
            Err(
                invalid_route(
                    place_name(section, index),
                    "entry must have exactly one key (the route name), got "@ + decimal_text(
                        members.len(),
                    ),
                ),
            )
        } else {
            match members[0].1 {
                Tree::Arr(values) => {
                    proof {
                        assert(decreases_to!(entry => entry->Obj_0));
                        assert(decreases_to!(members => members[0]));
                        assert(decreases_to!(members[0] => members[0].1));
                        assert(decreases_to!(members[0].1 => members[0].1->Arr_0));
                    }
                    match actions_upto(values, values.len(), members[0].0, around) {
                        Err(p) => Err(p),
                        Ok(actions) => Ok(RouteFacts { name: members[0].0, actions }),
                    }
                },
                _ => Err(
                    invalid_route(members[0].0, section + " route must be an array of actions"@),
                ),
            }
        },
        _ => Err(invalid_route(place_name(section, index), "entry must be an object"@)),
    }
}

/// The routes that the first `n` entries describe.
pub open spec fn routes_upto(
    entries: Seq<Tree>,
    n: nat,
    section: Seq<char>,
    around: Surroundings,
) -> Result<Seq<RouteFacts>, BitsProblem>
    decreases entries, n,
{
    if n == 0 || n > entries.len() {
        Ok(Seq::empty())
    } else {
        match routes_upto(entries, (n - 1) as nat, section, around) {
            Err(p) => Err(p),
            Ok(routes) => match route_of(entries[n - 1], (n - 1) as nat, section, around) {
                Err(p) => Err(p),
                Ok(route) => Ok(routes.push(route)),
            },
        }
    }
}

/// The routes that a value describes, in order, or the first thing that is wrong with it.
pub open spec fn routes_of(value: Tree, section: Seq<char>, around: Surroundings) -> Result<
    Seq<RouteFacts>,
    BitsProblem,
>
    decreases value, 0nat,
{
    match value {
        Tree::Arr(entries) => {
            proof {
                assert(decreases_to!(value => value->Arr_0));
            }
            routes_upto(entries, entries.len(), section, around)
        },
        _ => Err(invalid_route(section, "must be an array"@)),
    }
}

fn key_position(members: &Vec<(String, Json)>, key: &str) -> (r: Option<usize>)
    ensures
        match r {
            Some(i) => i < members@.len() && key_from(member_trees(members@), key@, 0) == Some(
                i as int,
            ),
            None => key_from(member_trees(members@), key@, 0) is None,
        },
{
    let ghost all = member_trees(members@);
    proof {
        lemma_member_trees(members@);
    }
    let mut i: usize = 0;
    while i < members.len()
        invariant
            i <= members@.len(),
            all == member_trees(members@),
            all.len() == members@.len(),
            forall|k: int| 0 <= k < all.len() ==> (#[trigger] all[k]).0 == members@[k].0@,
            key_from(all, key@, 0) == key_from(all, key@, i as int),
        decreases members@.len() - i,
    {
        assert(all[i as int].0 == members@[i as int].0@);
        if text_eq(&members[i].0, key) {
            return Some(i);
        }
        i = i + 1;
    }
    None
}

fn namespaced_position(members: &Vec<(String, Json)>) -> (r: Option<usize>)
    ensures
        match r {
            Some(i) => i < members@.len() && namespaced_from(member_trees(members@), 0) == Some(
                i as int,
            ),
            None => namespaced_from(member_trees(members@), 0) is None,
        },
{
    let ghost all = member_trees(members@);
    proof {
        lemma_member_trees(members@);
    }
    let mut i: usize = 0;
    while i < members.len()
        invariant
            i <= members@.len(),
            all == member_trees(members@),
            all.len() == members@.len(),
            forall|k: int| 0 <= k < all.len() ==> (#[trigger] all[k]).0 == members@[k].0@,
            namespaced_from(all, 0) == namespaced_from(all, i as int),
        decreases members@.len() - i,
    {
        assert(all[i as int].0 == members@[i as int].0@);
        if split_namespace(&members[i].0).is_some() {
            return Some(i);
        }
        i = i + 1;
    }
    None
}

/// A key with a namespace is one that a namespace can be split off.
proof fn lemma_namespaced_at(members: Seq<(Seq<char>, Tree)>, from: int)
    requires
        0 <= from,
        namespaced_from(members, from) is Some,
    ensures
        from <= namespaced_from(members, from)->0 < members.len(),
        namespaced(members[namespaced_from(members, from)->0].0) is Some,
    decreases members.len() - from,
{
    if from < members.len() && namespaced(members[from].0) is None {
        lemma_namespaced_at(members, from + 1);
    }
}

/// Makes the action that stands in place as a member of an object.
fn parse_inline_action(
    members: &Vec<(String, Json)>,
    index: usize,
    route_name: &str,
    factory: &RouteFactory,
) -> (r: Result<Action, BitsError>)
    requires
        index < members@.len(),
        namespaced(members@[index as int].0@) is Some,
    ensures
        match r {
            Ok(action) => inline_action(
                member_trees(members@),
                index as int,
                route_name@,
                factory@,
            ) == Ok::<ActionFacts, BitsProblem>(action@),
            Err(e) => inline_action(member_trees(members@), index as int, route_name@, factory@)
                == Err::<ActionFacts, BitsProblem>(bits_problem(e)),
        },
{
    proof {
        lemma_member_trees(members@);
        assert(member_trees(members@)[index as int].0 == members@[index as int].0@);
    }
    let key = &members[index].0;
    let config = &members[index].1;
    let (ns, name) = match split_namespace(key) {
        Some((ns, name)) => (ns, name),
        None => {
            return Err(invalid_action_error(route_name, key, "must be namespace::name"));
        },
    };
    if text_eq(&name, "remote") {
        return Err(
            invalid_action_error(
                route_name,
                key,
                "target::remote must be defined as a named registry entry (not inline); the pool name is derived from the registry entry name",
            ),
        );
    }
    let made = match factory.catalog.create_action(&name, config) {
        Ok(made) => made,
        Err(e) => {
            return Err(invalid_action_error(route_name, key, &e.to_text()));
        },
    };
    if !validate_inline_action(&ns, made.kind) {
        return Err(
            invalid_action_error(
                route_name,
                key,
                &cat3("inline action namespace '", &ns, "' does not match action type"),
            ),
        );
    }
    let settings = match parse_dispatcher_fields(find_member(members, "dispatcher")) {
        Ok(settings) => settings,
        Err(e) => {
            return Err(e);
        },
    };
    let silent = match find_member(members, "silent") {
        None => None,
        Some(Json::Bool(b)) => Some(*b),
        Some(_) => {
            return Err(invalid_action_error(route_name, key, "silent must be a boolean"));
        },
    };
    let dispatcher = match attach_dispatcher(
        &name,
        &name,
        made.kind,
        settings,
        factory.has_worker_server,
    ) {
        Ok(dispatcher) => dispatcher,
        Err(e) => {
            return Err(e);
        },
    };
    Ok(
        make_action(
            made.kind,
            Step {
                action_type: name,
                config: config.copy(),
                dispatcher,
                silent,
                shared_as: None,
                descriptor: made.descriptor,
            },
        ),
    )
}

/// Makes the action that a value describes.
pub fn parse_action(value: &Json, route_name: &str, factory: &RouteFactory) -> (r: Result<
    Action,
    BitsError,
>)
    ensures
        match r {
            Ok(action) => action_of(value@, route_name@, factory@) == Ok::<
                ActionFacts,
                BitsProblem,
            >(action@),
            Err(e) => action_of(value@, route_name@, factory@) == Err::<ActionFacts, BitsProblem>(
                bits_problem(e),
            ),
        },
    decreases *value,
{
    match value {
        Json::Str(name) => {
            if text_eq(name, "persist") {
                return Err(
                    invalid_action_error(
                        route_name,
                        name,
                        "'persist' step has been removed; use bits.persist_after_secs instead",
                    ),
                );
            }
            match split_namespace(name) {
                None => Err(invalid_action_error(route_name, name, "must be namespace::name")),
                Some((ns, entry)) => resolve_named(&ns, &entry, route_name, factory),
            }
        },
        Json::Object(members) => {
            proof {
                lemma_member_trees(members@);
            }
            match key_position(members, "switch") {
                Some(i) => {
                    assert(decreases_to!(*value => value->Object_0));
                    assert(decreases_to!(*members => members[i as int]));
                    assert(decreases_to!(members[i as int] => members[i as int].1));
                    let routes = match parse_routes(&members[i].1, "switch", factory) {
                        Ok(routes) => routes,
                        Err(e) => {
                            return Err(e);
                        },
                    };
                    let switch = Switch::new(routes);
                    match switch.validate() {
                        Ok(()) => Ok(Action::Switch(switch)),
                        Err(e) => Err(BitsError::Routing(e)),
                    }
                },
                None => match namespaced_position(members) {
                    Some(i) => {
                        proof {
                            lemma_namespaced_at(member_trees(members@), 0);
                            assert(member_trees(members@)[i as int].0 == members@[i as int].0@);
                        }
                        parse_inline_action(members, i, route_name, factory)
                    },
                    None => Err(
                        invalid_action_error(
                            route_name,
                            &value.to_text(),
                            "unrecognised action",
                        ),
                    ),
                },
            }
        },
        _ => Err(
            invalid_action_error(
                route_name,
                &value.to_text(),
                "action must be string or object",
            ),
        ),
    }
}

/// Makes the route that an entry of a list of routes describes.
fn parse_route_entry(entry: &Json, index: usize, section: &str, factory: &RouteFactory) -> (r:
    Result<Route, BitsError>)
    ensures
        match r {
            Ok(route) => route_of(entry@, index as nat, section@, factory@) == Ok::<
                RouteFacts,
                BitsProblem,
            >(route@),
            Err(e) => route_of(entry@, index as nat, section@, factory@) == Err::<
                RouteFacts,
                BitsProblem,
            >(bits_problem(e)),
        },
    decreases *entry,
{
    let members = match entry {
        Json::Object(members) => members,
        _ => {
            return Err(
                invalid_route_error(
                    &cat4(section, "[", &decimal(index as u64), "]"),
                    "entry must be an object",
                ),
            );
        },
    };
    proof {
        lemma_member_trees(members@);
    }
    if members.len() != 1 {
        return Err(
            invalid_route_error(
                &cat4(section, "[", &decimal(index as u64), "]"),
                &cat2(
                    "entry must have exactly one key (the route name), got ",
                    &decimal(members.len() as u64),
                ),
            ),
        );
    }
    let name = &members[0].0;
    assert(member_trees(members@)[0].0 == name@);
    assert(member_trees(members@)[0].1 == tree(members@[0].1));
    let values = match &members[0].1 {
        Json::Array(values) => values,
        _ => {
            return Err(
                invalid_route_error(name, &cat2(section, " route must be an array of actions")),
            );
        },
    };
    proof {
        lemma_trees(values@);
    }
    let mut actions: Vec<Action> = Vec::new();
    let mut j: usize = 0;
    assert(actions_facts(actions@) =~= Seq::<ActionFacts>::empty());
    while j < values.len()
        invariant
            j <= values@.len(),
            entry matches Json::Object(m) && m == *members,
            members@.len() == 1,
            members@[0].1 == Json::Array(*values),
            *name == members@[0].0,
            member_trees(members@).len() == 1,
            member_trees(members@)[0] == (name@, Tree::Arr(trees(values@))),
            trees(values@).len() == values@.len(),
            forall|k: int|
                0 <= k < values@.len() ==> #[trigger] trees(values@)[k] == tree(values@[k]),
            actions_upto(trees(values@), j as nat, name@, factory@) == Ok::<
                Seq<ActionFacts>,
                BitsProblem,
            >(actions_facts(actions@)),
        decreases values@.len() - j,
    {
        assert(decreases_to!(*entry => entry->Object_0));
        assert(decreases_to!(*members => members[0]));
        assert(decreases_to!(members[0] => members[0].1));
        assert(decreases_to!(members[0].1 => members[0].1->Array_0));
        assert(decreases_to!(*values => values[j as int]));
        assert(trees(values@)[j as int] == values@[j as int]@);
        match parse_action(&values[j], name, factory) {
            Ok(action) => {
                let ghost before = actions@;
                actions.push(action);
                assert(actions@.drop_last() =~= before);
            },
            Err(e) => {
                proof {
                    lemma_actions_fail(
                        trees(values@),
                        (j + 1) as nat,
                        trees(values@).len(),
                        name@,
                        factory@,
                        bits_problem(e),
                    );
                }
                return Err(e);
            },
        }
        j = j + 1;
    }
    Ok(Route::new(name.clone(), actions))
}

/// What is wrong with the first values is wrong with all of them.
proof fn lemma_actions_fail(
    values: Seq<Tree>,
    n: nat,
    m: nat,
    route: Seq<char>,
    around: Surroundings,
    p: BitsProblem,
)
    requires
        n <= m <= values.len(),
        actions_upto(values, n, route, around) == Err::<Seq<ActionFacts>, BitsProblem>(p),
    ensures
        actions_upto(values, m, route, around) == Err::<Seq<ActionFacts>, BitsProblem>(p),
    decreases m - n,
{
    if n < m {
        lemma_actions_fail(values, n, (m - 1) as nat, route, around, p);
    }
}

/// What is wrong with the first entries is wrong with all of them.
proof fn lemma_routes_fail(
    entries: Seq<Tree>,
    n: nat,
    m: nat,
    section: Seq<char>,
    around: Surroundings,
    p: BitsProblem,
)
    requires
        n <= m <= entries.len(),
        routes_upto(entries, n, section, around) == Err::<Seq<RouteFacts>, BitsProblem>(p),
    ensures
        routes_upto(entries, m, section, around) == Err::<Seq<RouteFacts>, BitsProblem>(p),
    decreases m - n,
{
    if n < m {
        lemma_routes_fail(entries, n, (m - 1) as nat, section, around, p);
    }
}

/// Makes the routes that a value describes.
pub fn parse_routes(value: &Json, section: &str, factory: &RouteFactory) -> (r: Result<
    Vec<Route>,
    BitsError,
>)
    ensures
        match r {
            Ok(routes) => routes_of(value@, section@, factory@) == Ok::<
                Seq<RouteFacts>,
                BitsProblem,
            >(routes_facts(routes@)),
            Err(e) => routes_of(value@, section@, factory@) == Err::<Seq<RouteFacts>, BitsProblem>(
                bits_problem(e),
            ),
        },
    decreases *value,
{
    let entries = match value {
        Json::Array(entries) => entries,
        _ => {
            return Err(invalid_route_error(section, "must be an array"));
        },
    };
    proof {
        lemma_trees(entries@);
    }
    let mut routes: Vec<Route> = Vec::new();
    let mut i: usize = 0;
    assert(routes_facts(routes@) =~= Seq::<RouteFacts>::empty());
    while i < entries.len()
        invariant
            i <= entries@.len(),
            value matches Json::Array(e) && e == *entries,
            value@ == Tree::Arr(trees(entries@)),
            trees(entries@).len() == entries@.len(),
            forall|k: int|
                0 <= k < entries@.len() ==> #[trigger] trees(entries@)[k] == tree(entries@[k]),
            routes_upto(trees(entries@), i as nat, section@, factory@) == Ok::<
                Seq<RouteFacts>,
                BitsProblem,
            >(routes_facts(routes@)),
        decreases entries@.len() - i,
    {
        assert(decreases_to!(*value => value->Array_0));
        assert(decreases_to!(*entries => entries[i as int]));
        assert(trees(entries@)[i as int] == entries@[i as int]@);
        match parse_route_entry(&entries[i], i, section, factory) {
            Ok(route) => {
                let ghost before = routes@;
                routes.push(route);
                assert(routes@.drop_last() =~= before);
            },
            Err(e) => {
                proof {
                    lemma_routes_fail(
                        trees(entries@),
                        (i + 1) as nat,
                        trees(entries@).len(),
                        section@,
                        factory@,
                        bits_problem(e),
                    );
                }
                return Err(e);
            },
        }
        i = i + 1;
    }
    Ok(routes)
}

impl RouteFactory {
    /// Makes the routes that a value describes under a name.
    pub fn parse_route(&self, name: &str, value: &Json) -> (r: Result<Vec<Route>, BitsError>)
        ensures
            match r {
                Ok(routes) => routes_of(value@, name@, self@) == Ok::<
                    Seq<RouteFacts>,
                    BitsProblem,
                >(routes_facts(routes@)),
                Err(e) => routes_of(value@, name@, self@) == Err::<Seq<RouteFacts>, BitsProblem>(
                    bits_problem(e),
                ),
            },
    {
        parse_routes(value, name, self)
    }
}

/// A remote pool serves remote targets only, under the name of their entry, and only where remote
/// workers have a server; a remote target has no other executor.
pub proof fn law_remote_pools_serve_remote_targets(
    entry_name: Seq<char>,
    action_name: Seq<char>,
    settings: SettingsFacts,
    has_worker_server: bool,
)
    requires
        attached(
            entry_name,
            action_name,
            ActionKind::Target,
            settings,
            has_worker_server,
        ) is Ok,
    ensures
        ({
            let plan = attached(
                entry_name,
                action_name,
                ActionKind::Target,
                settings,
                has_worker_server,
            )->Ok_0;
            &&& action_name == "remote"@ <==> (plan matches Some(p) && p.executor is RemotePool)
            &&& action_name == "remote"@ ==> has_worker_server
                && (plan->0).executor->pool_name == entry_name
        }),
{
}

/// Routes keep the order in which they are written, each under its key.
pub proof fn law_routes_keep_their_order(entries: Seq<Tree>, section: Seq<char>, around: Surroundings)
    requires
        routes_of(Tree::Arr(entries), section, around) is Ok,
    ensures
        ({
            let routes = routes_of(Tree::Arr(entries), section, around)->Ok_0;
            &&& routes.len() == entries.len()
            &&& forall|i: int|
                0 <= i < entries.len() ==> ((#[trigger] entries[i]) matches Tree::Obj(members)
                    && members.len() == 1 && routes[i].name == members[0].0)
        }),
{
    lemma_routes_in_order(entries, entries.len(), section, around);
}

proof fn lemma_routes_in_order(entries: Seq<Tree>, n: nat, section: Seq<char>, around: Surroundings)
    requires
        n <= entries.len(),
        routes_upto(entries, n, section, around) is Ok,
    ensures
        ({
            let routes = routes_upto(entries, n, section, around)->Ok_0;
            &&& routes.len() == n
            &&& forall|i: int|
                0 <= i < n ==> ((#[trigger] entries[i]) matches Tree::Obj(members)
                    && members.len() == 1 && routes[i].name == members[0].0)
        }),
    decreases n,
{
    if n > 0 {
        lemma_routes_in_order(entries, (n - 1) as nat, section, around);
        let last = route_of(entries[n - 1], (n - 1) as nat, section, around);
        assert(last is Ok);
        assert(entries[n - 1] matches Tree::Obj(members) && members.len() == 1 && last->Ok_0.name
            == members[0].0);
    }
}

/// A step stands among routes, at any depth, from action `j` of route `i` on.
pub open spec fn uses_from(routes: Seq<RouteFacts>, i: int, j: int, step: StepFacts) -> bool
    decreases routes, routes.len() - i, routes[i].actions.len() - j,
{
    if i < 0 || j < 0 || i >= routes.len() {
        false
    } else if j >= routes[i].actions.len() {
        uses_from(routes, i + 1, 0, step)
    } else {
        uses_from(routes, i, j + 1, step) || match routes[i].actions[j] {
            ActionFacts::Target(other) => other == step,
            ActionFacts::Switch(inner) => {
                proof {
                    assert(decreases_to!(routes => routes[i]));
                    assert(decreases_to!(routes[i] => routes[i].actions));
                    assert(decreases_to!(routes[i].actions => routes[i].actions[j]));
                    assert(decreases_to!(routes[i].actions[j] => routes[i].actions[j]->Switch_0));
                }
                uses_from(inner, 0, 0, step)
            },
            _ => false,
        }
    }
}

proof fn lemma_actions_in_order(
    values: Seq<Tree>,
    n: nat,
    route: Seq<char>,
    around: Surroundings,
)
    requires
        n <= values.len(),
        actions_upto(values, n, route, around) is Ok,
    ensures
        ({
            let actions = actions_upto(values, n, route, around)->Ok_0;
            &&& actions.len() == n
            &&& forall|j: int|
                0 <= j < n ==> action_of(values[j], route, around) == Ok::<
                    ActionFacts,
                    BitsProblem,
                >(#[trigger] actions[j])
        }),
    decreases n,
{
    if n > 0 {
        lemma_actions_in_order(values, (n - 1) as nat, route, around);
    }
}

proof fn lemma_routes_stand_for_entries(
    entries: Seq<Tree>,
    n: nat,
    section: Seq<char>,
    around: Surroundings,
)
    requires
        n <= entries.len(),
        routes_upto(entries, n, section, around) is Ok,
    ensures
        ({
            let routes = routes_upto(entries, n, section, around)->Ok_0;
            &&& routes.len() == n
            &&& forall|i: int|
                0 <= i < n ==> route_of(entries[i], i as nat, section, around) == Ok::<
                    RouteFacts,
                    BitsProblem,
                >(#[trigger] routes[i])
        }),
    decreases n,
{
    if n > 0 {
        lemma_routes_stand_for_entries(entries, (n - 1) as nat, section, around);
    }
}

/// What an action of a route was written as, and under which route.
proof fn lemma_written_action(
    value: Tree,
    section: Seq<char>,
    around: Surroundings,
    i: int,
    j: int,
) -> (r: (Seq<char>, Tree))
    requires
        routes_of(value, section, around) is Ok,
        0 <= i < routes_of(value, section, around)->Ok_0.len(),
        0 <= j < routes_of(value, section, around)->Ok_0[i].actions.len(),
    ensures
        action_of(r.1, r.0, around) == Ok::<ActionFacts, BitsProblem>(
            routes_of(value, section, around)->Ok_0[i].actions[j],
        ),
        decreases_to!(value => r.1),
{
    let routes = routes_of(value, section, around)->Ok_0;
    let entries = value->Arr_0;
    lemma_routes_stand_for_entries(entries, entries.len(), section, around);
    let entry = entries[i];
    assert(route_of(entry, i as nat, section, around) == Ok::<RouteFacts, BitsProblem>(routes[i]));
    let name = entry->Obj_0[0].0;
    let values = entry->Obj_0[0].1->Arr_0;
    lemma_actions_in_order(values, values.len(), name, around);
    assert(routes[i].actions == actions_upto(values, values.len(), name, around)->Ok_0);
    assert(decreases_to!(value => value->Arr_0));
    assert(decreases_to!(entries => entries[i]));
    assert(decreases_to!(entry => entry->Obj_0));
    assert(decreases_to!(entry->Obj_0 => entry->Obj_0[0]));
    assert(decreases_to!(entry->Obj_0[0] => entry->Obj_0[0].1));
    assert(decreases_to!(entry->Obj_0[0].1 => entry->Obj_0[0].1->Arr_0));
    assert(decreases_to!(values => values[j]));
    (name, values[j])
}

/// What a nested switch was written as.
proof fn lemma_written_switch(
    written: Tree,
    route: Seq<char>,
    around: Surroundings,
    inner: Seq<RouteFacts>,
) -> (nested: Tree)
    requires
        action_of(written, route, around) == Ok::<ActionFacts, BitsProblem>(
            ActionFacts::Switch(inner),
        ),
    ensures
        routes_of(nested, "switch"@, around) == Ok::<Seq<RouteFacts>, BitsProblem>(inner),
        decreases_to!(written => nested),
{
    let members = written->Obj_0;
    let at = key_from(members, "switch"@, 0);
    assert(decreases_to!(written => written->Obj_0));
    assert(decreases_to!(members => members[at->0]));
    assert(decreases_to!(members[at->0] => members[at->0].1));
    members[at->0].1
}

/// A shared step is the one that its registry entry describes.
proof fn lemma_shared_step_is_looked_up(
    written: Tree,
    route: Seq<char>,
    around: Surroundings,
    step: StepFacts,
)
    requires
        action_of(written, route, around) == Ok::<ActionFacts, BitsProblem>(
            ActionFacts::Target(step),
        ),
        step.shared_as is Some,
    ensures
        registered_target(step, around),
{
    reveal_strlit("check");
    reveal_strlit("transform");
    reveal_strlit("target");
    assert("target"@.len() != "check"@.len() && "target"@.len() != "transform"@.len());
    match written {
        Tree::Str(reference) => {
            let (ns, name) = namespaced(reference)->0;
            assert(named_action(ns, name, route, around) == Ok::<ActionFacts, BitsProblem>(
                ActionFacts::Target(step),
            ));
            assert(ns == "target"@);
        },
        Tree::Obj(members) => {
            assert(inline_action(members, namespaced_from(members, 0)->0, route, around) == Ok::<
                ActionFacts,
                BitsProblem,
            >(ActionFacts::Target(step)));
        },
        _ => {},
    }
}

/// A step is the one that the registry entry of its name describes.
pub open spec fn registered_target(step: StepFacts, around: Surroundings) -> bool {
    let name = step.shared_as->0;
    &&& lookup(around.targets, name) is Some
    &&& entry_action("target"@, name, lookup(around.targets, name)->0, around) == Ok::<
        ActionFacts,
        BitsProblem,
    >(ActionFacts::Target(step))
}

proof fn lemma_shared_steps_are_looked_up(
    value: Tree,
    section: Seq<char>,
    around: Surroundings,
    routes: Seq<RouteFacts>,
    i: int,
    j: int,
    step: StepFacts,
)
    requires
        routes_of(value, section, around) == Ok::<Seq<RouteFacts>, BitsProblem>(routes),
        0 <= i,
        0 <= j,
        uses_from(routes, i, j, step),
        step.shared_as is Some,
    ensures
        registered_target(step, around),
    decreases value, routes.len() - i, routes[i].actions.len() - j,
{
    if j >= routes[i].actions.len() {
        lemma_shared_steps_are_looked_up(value, section, around, routes, i + 1, 0, step);
    } else if uses_from(routes, i, j + 1, step) {
        lemma_shared_steps_are_looked_up(value, section, around, routes, i, j + 1, step);
    } else {
        let (route, written) = lemma_written_action(value, section, around, i, j);
        match routes[i].actions[j] {
            ActionFacts::Switch(inner) => {
                let nested = lemma_written_switch(written, route, around, inner);
                lemma_shared_steps_are_looked_up(nested, "switch"@, around, inner, 0, 0, step);
            },
            _ => {
                lemma_shared_step_is_looked_up(written, route, around, step);
            },
        }
    }
}

/// Targets are shared between all routes that one factory makes: two steps that stand for one
/// registry entry are the same step, whichever values they were parsed from and however deep they
/// stand.
pub proof fn law_parsed_routes_share_targets(
    one: Tree,
    one_name: Seq<char>,
    other: Tree,
    other_name: Seq<char>,
    around: Surroundings,
    a: StepFacts,
    b: StepFacts,
)
    requires
        routes_of(one, one_name, around) is Ok,
        routes_of(other, other_name, around) is Ok,
        uses_from(routes_of(one, one_name, around)->Ok_0, 0, 0, a),
        uses_from(routes_of(other, other_name, around)->Ok_0, 0, 0, b),
        a.shared_as is Some,
        a.shared_as == b.shared_as,
    ensures
        a == b,
{
    let first = routes_of(one, one_name, around)->Ok_0;
    let second = routes_of(other, other_name, around)->Ok_0;
    lemma_shared_steps_are_looked_up(one, one_name, around, first, 0, 0, a);
    lemma_shared_steps_are_looked_up(other, other_name, around, second, 0, 0, b);
}

/// A reference to a target stands for its registry entry in every route that names it.
pub proof fn law_named_targets_are_shared(
    entries: Seq<Tree>,
    section: Seq<char>,
    around: Surroundings,
    i: int,
    j: int,
    name: Seq<char>,
    step: StepFacts,
)
    requires
        routes_of(Tree::Arr(entries), section, around) is Ok,
        0 <= i < entries.len(),
        ({
            let values = entries[i]->Obj_0[0].1->Arr_0;
            let route = routes_of(Tree::Arr(entries), section, around)->Ok_0[i];
            &&& 0 <= j < values.len()
            &&& values[j] is Str
            &&& namespaced(values[j]->Str_0) == Some(("target"@, name))
            &&& route.actions[j] == ActionFacts::Target(step)
        }),
    ensures
        step.shared_as == Some(name),
        uses_from(routes_of(Tree::Arr(entries), section, around)->Ok_0, i, j, step),
{
    let routes = routes_of(Tree::Arr(entries), section, around)->Ok_0;
    lemma_routes_stand_for_entries(entries, entries.len(), section, around);
    assert(route_of(entries[i], i as nat, section, around) == Ok::<RouteFacts, BitsProblem>(
        routes[i],
    ));
    let route_name = entries[i]->Obj_0[0].0;
    let values = entries[i]->Obj_0[0].1->Arr_0;
    lemma_actions_in_order(values, values.len(), route_name, around);
    assert(action_of(values[j], route_name, around) == Ok::<ActionFacts, BitsProblem>(
        routes[i].actions[j],
    ));
    law_references_share_their_target(name, route_name, route_name, around);
}

/// A dispatcher is asked for by its queue, its executor and its capacity, which is half a
/// million unless said otherwise and never zero. Settings that were removed are refused.
pub proof fn law_dispatcher_settings_are_those_written(members: Seq<(Seq<char>, Tree)>)
    ensures
        dispatcher_settings(None) == Ok::<SettingsFacts, BitsProblem>(
            SettingsFacts { queue: None, executor: None, queue_capacity: 500_000 },
        ),
        dispatcher_settings(Some(Tree::Obj(members))) matches Ok(facts) ==> {
            let queue = lookup(members, "queue"@);
            let executor = lookup(members, "executor"@);
            let capacity = lookup(members, "queue_capacity"@);
            &&& queue is None ==> facts.queue is None
            &&& queue matches Some(value) ==> facts.queue is Some && queue_kind(value)
                == facts.queue
            &&& executor is None ==> facts.executor is None
            &&& executor matches Some(value) ==> facts.executor is Some && executor_kind(value)
                == facts.executor
            &&& capacity is None ==> facts.queue_capacity == 500_000
            &&& capacity matches Some(value) ==> value == Tree::Number(
                NumberValue::Unsigned(facts.queue_capacity as u64),
            )
            &&& facts.queue_capacity > 0
            &&& lookup(members, "concurrency"@) is None
            &&& lookup(members, "persistent"@) is None
            &&& lookup(members, "lock_ttl_secs"@) is None
        },
        dispatcher_settings(Some(Tree::Obj(members))) is Ok <==> {
            let queue = lookup(members, "queue"@);
            let executor = lookup(members, "executor"@);
            let capacity = lookup(members, "queue_capacity"@);
            &&& queue is None || queue_kind(queue->0) is Some
            &&& executor is None || executor_kind(executor->0) is Some
            &&& capacity is None || (capacity->0 matches Tree::Number(NumberValue::Unsigned(n)) && 0
                < n <= usize::MAX)
            &&& lookup(members, "concurrency"@) is None
            &&& lookup(members, "persistent"@) is None
            &&& lookup(members, "lock_ttl_secs"@) is None
        },
{
}

/// A target is remote exactly where it is named so. It then needs a server for its workers and runs
/// on a remote pool, which gives a worker up after sixty seconds of silence unless said otherwise.
/// Nothing else runs on a remote pool.
pub proof fn law_only_remote_targets_have_remote_pools(
    is_remote: bool,
    executor: Option<ExecutorChoice>,
    has_worker_server: bool,
)
    ensures
        ({
            let r = paired_executor(is_remote, executor, has_worker_server);
            let wants_pool = executor matches Some(e) && e is RemotePool;
            &&& r is Ok <==> (if is_remote {
                has_worker_server && (executor is None || wants_pool)
            } else {
                !wants_pool
            })
            &&& r is Ok && executor is Some ==> r->Ok_0 == executor
            &&& r is Ok && executor is None && is_remote ==> r->Ok_0 == Some(
                ExecutorChoice::RemotePool {
                    heartbeat_timeout_secs: NumberValue::Unsigned(60),
                },
            )
            &&& r is Ok && executor is None && !is_remote ==> r->Ok_0 is None
        }),
{
}

/// The action of a registry entry has the type, the silence and the settings that the entry gives:
/// every setting but the type, the dispatcher and the silence is the action's own.
pub proof fn law_registry_actions_follow_their_entry(
    ns: Seq<char>,
    entry_name: Seq<char>,
    members: Seq<(Seq<char>, Tree)>,
    around: Surroundings,
    key: Seq<char>,
)
    requires
        entry_action(ns, entry_name, Tree::Obj(members), around) is Ok,
    ensures
        ({
            let action = entry_action(ns, entry_name, Tree::Obj(members), around)->Ok_0;
            let step = match action {
                ActionFacts::Check(step) => step,
                ActionFacts::Transform(step) => step,
                ActionFacts::Target(step) => step,
                ActionFacts::Switch(_) => arbitrary(),
            };
            let silent = lookup(members, "silent"@);
            &&& !(action is Switch)
            &&& lookup(members, "type"@) == Some(Tree::Str(step.action_type))
            &&& silent is None ==> step.silent is None
            &&& silent is Some ==> step.silent is Some && silent == Some(
                Tree::Bool(step.silent->0),
            )
            &&& step.config is Obj
            &&& step.config.get(key) == (if key == "type"@ || key == "dispatcher"@ || key
                == "silent"@ {
                None
            } else {
                lookup(members, key)
            })
            &&& lookup(members, "persistent"@) is None
            &&& lookup(members, "lock_ttl_secs"@) is None
            &&& step.shared_as == (if ns == "target"@ && action is Target {
                Some(entry_name)
            } else {
                None
            })
            &&& created(around.catalog, step.action_type, step.config) matches Ok((kind, told))
                && told == step.descriptor && match kind {
                ActionKind::Check => action is Check,
                ActionKind::Transform => action is Transform,
                ActionKind::Target => action is Target,
            }
        }),
{
    let untyped = members_without(members, "type"@);
    let undispatched = members_without(untyped, "dispatcher"@);
    law_other_members_stay(members, "type"@, key);
    law_other_members_stay(untyped, "dispatcher"@, key);
    law_other_members_stay(undispatched, "silent"@, key);
}

/// A reference leads into the registry of its namespace: a check to the checks, a transform to the
/// transforms, a target to the targets. Anything else is refused.
pub proof fn law_references_lead_into_their_registry(
    ns: Seq<char>,
    name: Seq<char>,
    route: Seq<char>,
    around: Surroundings,
)
    ensures
        ({
            let r = named_action(ns, name, route, around);
            let reference = ns + "::"@ + name;
            let unknown = RoutingProblem::InvalidAction {
                route,
                action: reference,
                reason: "unknown "@ + ns + " '"@ + name + "'"@,
            };
            &&& ns == "check"@ ==> match lookup(around.checks, name) {
                Some(entry) => r == entry_action(ns, name, entry, around),
                None => r == Err::<ActionFacts, BitsProblem>(BitsProblem::Routing(unknown)),
            }
            &&& ns == "transform"@ ==> match lookup(around.transforms, name) {
                Some(entry) => r == entry_action(ns, name, entry, around),
                None => r == Err::<ActionFacts, BitsProblem>(BitsProblem::Routing(unknown)),
            }
            &&& ns == "target"@ ==> match lookup(around.targets, name) {
                Some(entry) => r == entry_action(ns, name, entry, around),
                None => r == Err::<ActionFacts, BitsProblem>(BitsProblem::Routing(unknown)),
            }
            &&& ns != "check"@ && ns != "transform"@ && ns != "target"@ ==> r is Err
        }),
{
    reveal_strlit("check");
    reveal_strlit("transform");
    reveal_strlit("target");
    assert("check"@.len() == 5 && "transform"@.len() == 9 && "target"@.len() == 6);
}

/// An action that stands in place is what its key names, is of the kind of its namespace, has the
/// value of its key for its settings, and shares nothing. Remote targets do not stand in place.
pub proof fn law_actions_in_place_match_their_key(
    members: Seq<(Seq<char>, Tree)>,
    i: int,
    route: Seq<char>,
    around: Surroundings,
)
    requires
        0 <= i < members.len(),
        namespaced(members[i].0) is Some,
        inline_action(members, i, route, around) is Ok,
    ensures
        ({
            let action = inline_action(members, i, route, around)->Ok_0;
            let step = match action {
                ActionFacts::Check(step) => step,
                ActionFacts::Transform(step) => step,
                ActionFacts::Target(step) => step,
                ActionFacts::Switch(_) => arbitrary(),
            };
            let silent = lookup(members, "silent"@);
            let ns = match action {
                ActionFacts::Check(_) => "check"@,
                ActionFacts::Transform(_) => "transform"@,
                _ => "target"@,
            };
            &&& !(action is Switch)
            &&& members[i].0 == ns + "::"@ + step.action_type
            &&& step.action_type != "remote"@
            &&& step.config == members[i].1
            &&& step.shared_as is None
            &&& silent is None ==> step.silent is None
            &&& silent is Some ==> step.silent is Some && silent == Some(
                Tree::Bool(step.silent->0),
            )
            &&& created(around.catalog, step.action_type, step.config) matches Ok((_, told))
                && told == step.descriptor
        }),
{
    law_split_references_join(members[i].0);
}

/// A written action is a text that refers to a registry, or an object: with the key `switch` it
/// holds routes that are in order, and else the action stands in place under its first key with a
/// namespace. Nothing else is an action.
pub proof fn law_actions_are_references_or_objects(
    value: Tree,
    route: Seq<char>,
    around: Surroundings,
)
    ensures
        ({
            let r = action_of(value, route, around);
            match value {
                Tree::Str(name) => {
                    &&& name == "persist"@ ==> r is Err
                    &&& name != "persist"@ && namespaced(name) is Some ==> r == named_action(
                        (namespaced(name)->0).0,
                        (namespaced(name)->0).1,
                        route,
                        around,
                    )
                    &&& namespaced(name) is None ==> r is Err
                },
                Tree::Obj(members) => match lookup(members, "switch"@) {
                    Some(inner) => {
                        &&& r is Ok <==> routes_of(inner, "switch"@, around) is Ok
                            && switch_problem(routes_of(inner, "switch"@, around)->Ok_0) is None
                        &&& r is Ok ==> r->Ok_0 == ActionFacts::Switch(
                            routes_of(inner, "switch"@, around)->Ok_0,
                        )
                    },
                    None => {
                        &&& r is Ok ==> exists|i: int|
                            {
                                &&& 0 <= i < members.len()
                                &&& namespaced((#[trigger] members[i]).0) is Some
                                &&& r == inline_action(members, i, route, around)
                                &&& forall|k: int|
                                    0 <= k < i ==> namespaced((#[trigger] members[k]).0) is None
                            }
                        &&& (forall|k: int|
                            0 <= k < members.len() ==> namespaced((#[trigger] members[k]).0) is None)
                            ==> r is Err
                    },
                },
                _ => r is Err,
            }
        }),
{
    match value {
        Tree::Obj(members) => {
            lemma_key_is_looked_up(members, "switch"@, 0);
            assert(members.skip(0) =~= members);
            lemma_first_namespace(members, 0);
        },
        _ => {},
    }
}

proof fn lemma_key_is_looked_up(members: Seq<(Seq<char>, Tree)>, key: Seq<char>, i: int)
    requires
        0 <= i <= members.len(),
    ensures
        match key_from(members, key, i) {
            Some(at) => i <= at < members.len() && lookup(members.skip(i), key) == Some(
                members[at].1,
            ),
            None => lookup(members.skip(i), key) is None,
        },
    decreases members.len() - i,
{
    if i < members.len() {
        lemma_key_is_looked_up(members, key, i + 1);
        assert(members.skip(i).drop_first() =~= members.skip(i + 1));
        assert(members.skip(i)[0] == members[i]);
    }
}

proof fn lemma_first_namespace(members: Seq<(Seq<char>, Tree)>, i: int)
    requires
        0 <= i <= members.len(),
    ensures
        match namespaced_from(members, i) {
            Some(at) => i <= at < members.len() && namespaced(members[at].0) is Some && forall|k: int|
                i <= k < at ==> namespaced((#[trigger] members[k]).0) is None,
            None => forall|k: int|
                i <= k < members.len() ==> namespaced((#[trigger] members[k]).0) is None,
        },
    decreases members.len() - i,
{
    if i < members.len() {
        lemma_first_namespace(members, i + 1);
    }
}

/// A reference has a namespace exactly where it holds a double colon, and the first one ends it.
pub proof fn law_references_have_a_double_colon(s: Seq<char>, ns: Seq<char>, name: Seq<char>)
    ensures
        namespaced(s) is Some <==> exists|i: int|
            0 <= i < s.len() - 1 && #[trigger] s[i] == ':' && s[i + 1] == ':',
        !ns.contains(':') ==> namespaced(ns + "::"@ + name) == Some((ns, name)),
{
    reveal_strlit("::");
    lemma_colons(s, 0);
    if exists|i: int| 0 <= i < s.len() - 1 && #[trigger] s[i] == ':' && s[i + 1] == ':' {
        let i = choose|i: int| 0 <= i < s.len() - 1 && #[trigger] s[i] == ':' && s[i + 1] == ':';
        assert(colons_at(s, i));
    }
    if namespaced(s) is Some {
        let i = colons_from(s, 0)->0;
        assert(s[i] == ':');
    }
    let whole = ns + "::"@ + name;
    lemma_colons(whole, 0);
    if !ns.contains(':') {
        assert(whole[ns.len() as int] == ':' && whole[ns.len() as int + 1] == ':');
        assert(colons_at(whole, ns.len() as int));
        let i = colons_from(whole, 0)->0;
        if i < ns.len() {
            assert(ns[i] == whole[i]);
            assert(ns.contains(':'));
        }
        assert(whole.take(i) =~= ns);
        assert(whole.skip(i + 2) =~= name);
    }
}

/// The actions of a route are those that its values describe, one for one.
pub proof fn law_actions_keep_their_order(
    members: Seq<(Seq<char>, Tree)>,
    index: nat,
    section: Seq<char>,
    around: Surroundings,
    j: int,
)
    requires
        route_of(Tree::Obj(members), index, section, around) is Ok,
    ensures
        ({
            let route = route_of(Tree::Obj(members), index, section, around)->Ok_0;
            &&& members.len() == 1
            &&& route.name == members[0].0
            &&& members[0].1 matches Tree::Arr(values) && route.actions.len() == values.len() && (0
                <= j < values.len() ==> action_of(values[j], route.name, around) == Ok::<
                ActionFacts,
                BitsProblem,
            >(route.actions[j]))
        }),
{
    let values = members[0].1->Arr_0;
    lemma_actions_in_order(values, values.len(), members[0].0, around);
}

/// An action is made wherever its entry is an object with a type that can be made of its own
/// settings, a dispatcher that can be attached, a truth value for its silence if it has one, and no
/// setting that was removed.
pub proof fn law_sound_entries_make_actions(
    ns: Seq<char>,
    entry_name: Seq<char>,
    members: Seq<(Seq<char>, Tree)>,
    around: Surroundings,
)
    ensures
        entry_action(ns, entry_name, Tree::Obj(members), around) is Ok <==> {
            let silent = lookup(members, "silent"@);
            let settings = dispatcher_settings(lookup(members, "dispatcher"@));
            let own = Tree::Obj(
                members_without(
                    members_without(members_without(members, "type"@), "dispatcher"@),
                    "silent"@,
                ),
            );
            &&& lookup(members, "persistent"@) is None
            &&& lookup(members, "lock_ttl_secs"@) is None
            &&& silent is None || silent->0 is Bool
            &&& settings is Ok
            &&& lookup(members, "type"@) matches Some(Tree::Str(action_type)) && (created(
                around.catalog,
                action_type,
                own,
            ) matches Ok((kind, _)) && attached(
                entry_name,
                action_type,
                kind,
                settings->Ok_0,
                around.has_worker_server,
            ) is Ok)
        },
{
}

/// An action in place is made wherever its key names an action of the kind of its namespace, other
/// than a remote target, that can be made of its value, with a dispatcher that can be attached and
/// a truth value for its silence if it has one.
pub proof fn law_sound_keys_make_actions(
    members: Seq<(Seq<char>, Tree)>,
    i: int,
    route: Seq<char>,
    around: Surroundings,
    ns: Seq<char>,
    name: Seq<char>,
)
    requires
        0 <= i < members.len(),
        namespaced(members[i].0) == Some((ns, name)),
    ensures
        inline_action(members, i, route, around) is Ok <==> {
            let silent = lookup(members, "silent"@);
            let settings = dispatcher_settings(lookup(members, "dispatcher"@));
            &&& name != "remote"@
            &&& silent is None || silent->0 is Bool
            &&& settings is Ok
            &&& created(around.catalog, name, members[i].1) matches Ok((kind, _)) && (match kind {
                ActionKind::Check => ns == "check"@,
                ActionKind::Transform => ns == "transform"@,
                ActionKind::Target => ns == "target"@,
            }) && attached(name, name, kind, settings->Ok_0, around.has_worker_server) is Ok
        },
{
}

} // verus!
