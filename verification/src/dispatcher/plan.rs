//! Settings of a dispatcher, as configuration gives them and as they are carried out.

use vstd::prelude::*;

use crate::dispatcher::queue::QueueKind;
use crate::json::{number_text, Number, NumberValue};
use crate::text::cat2;
use crate::time::{secs_span, span_from_secs, Span};

verus! {

pub const DEFAULT_QUEUE_CAPACITY: usize = 500_000;

pub const DEFAULT_POOL_SIZE: usize = 256;

/// Configuration for the remote-pool executor.
#[derive(Debug)]
pub struct RemotePoolConfig {
    /// Seconds without a heartbeat before an in-progress job is evicted.
    pub heartbeat_timeout_secs: Number,
}

/// Selects the executor of a dispatcher.
#[derive(Debug)]
pub enum ExecutorKind {
    AsyncPool { concurrency: Option<usize> },
    ThreadPool { concurrency: Option<usize> },
    RemotePool { config: RemotePoolConfig },
}

/// The mathematical contents of an [`ExecutorKind`].
pub enum ExecutorChoice {
    AsyncPool { concurrency: Option<usize> },
    ThreadPool { concurrency: Option<usize> },
    RemotePool { heartbeat_timeout_secs: NumberValue },
}

impl View for ExecutorKind {
    type V = ExecutorChoice;

    open spec fn view(&self) -> ExecutorChoice {
        match *self {
            ExecutorKind::AsyncPool { concurrency } => ExecutorChoice::AsyncPool { concurrency },
            ExecutorKind::ThreadPool { concurrency } => ExecutorChoice::ThreadPool { concurrency },
            ExecutorKind::RemotePool { config } => ExecutorChoice::RemotePool {
                heartbeat_timeout_secs: config.heartbeat_timeout_secs@,
            },
        }
    }
}

/// The executor that a dispatcher runs.
#[derive(Debug)]
pub enum ExecutorPlan {
    /// Tasks of the asynchronous runtime.
    AsyncPool { concurrency: usize },
    /// Threads of their own.
    ThreadPool { concurrency: usize },
    /// Workers elsewhere, which fetch their work from the named pool.
    RemotePool { pool_name: String, heartbeat_timeout: Span },
}

/// A dispatcher to be set up.
#[derive(Debug)]
pub struct DispatcherPlan {
    pub queue: QueueKind,
    pub executor: ExecutorPlan,
    pub queue_capacity: usize,
}

/// The mathematical contents of an [`ExecutorPlan`].
pub enum PlannedExecutor {
    AsyncPool { concurrency: usize },
    ThreadPool { concurrency: usize },
    RemotePool { pool_name: Seq<char>, heartbeat_timeout: Span },
}

/// The mathematical contents of a [`DispatcherPlan`].
pub struct PlannedDispatcher {
    pub queue: QueueKind,
    pub executor: PlannedExecutor,
    pub queue_capacity: usize,
}

impl View for ExecutorPlan {
    type V = PlannedExecutor;

    open spec fn view(&self) -> PlannedExecutor {
        match *self {
            ExecutorPlan::AsyncPool { concurrency } => PlannedExecutor::AsyncPool { concurrency },
            ExecutorPlan::ThreadPool { concurrency } => PlannedExecutor::ThreadPool { concurrency },
            ExecutorPlan::RemotePool { pool_name, heartbeat_timeout } => {
                PlannedExecutor::RemotePool { pool_name: pool_name@, heartbeat_timeout }
            },
        }
    }
}

impl View for DispatcherPlan {
    type V = PlannedDispatcher;

    open spec fn view(&self) -> PlannedDispatcher {
        PlannedDispatcher {
            queue: self.queue,
            executor: self.executor@,
            queue_capacity: self.queue_capacity,
        }
    }
}

impl ExecutorPlan {
    pub fn copy(&self) -> (r: ExecutorPlan)
        ensures
            r@ == self@,
    {
        match self {
            ExecutorPlan::AsyncPool { concurrency } => ExecutorPlan::AsyncPool {
                concurrency: *concurrency,
            },
            ExecutorPlan::ThreadPool { concurrency } => ExecutorPlan::ThreadPool {
                concurrency: *concurrency,
            },
            ExecutorPlan::RemotePool { pool_name, heartbeat_timeout } => ExecutorPlan::RemotePool {
                pool_name: pool_name.clone(),
                heartbeat_timeout: *heartbeat_timeout,
            },
        }
    }
}

impl DispatcherPlan {
    pub fn copy(&self) -> (r: DispatcherPlan)
        ensures
            r@ == self@,
    {
        DispatcherPlan {
            queue: self.queue,
            executor: self.executor.copy(),
            queue_capacity: self.queue_capacity,
        }
    }
}

/// The executor that a choice stands for, or why it cannot be had. Only a target with a name in
/// the registry can use a remote pool, and only beside a worker server.
pub open spec fn planned_executor(
    executor: Option<ExecutorChoice>,
    pool_name: Option<Seq<char>>,
    has_worker_server: bool,
    for_target: bool,
) -> Result<PlannedExecutor, Seq<char>> {
    match executor {
        None => Ok(PlannedExecutor::AsyncPool { concurrency: DEFAULT_POOL_SIZE }),
        Some(ExecutorChoice::AsyncPool { concurrency }) => Ok(
            PlannedExecutor::AsyncPool {
                concurrency: match concurrency {
                    Some(n) => n,
                    None => DEFAULT_POOL_SIZE,
                },
            },
        ),
        Some(ExecutorChoice::ThreadPool { concurrency }) => Ok(
            PlannedExecutor::ThreadPool {
                concurrency: match concurrency {
                    Some(n) => n,
                    None => DEFAULT_POOL_SIZE,
                },
            },
        ),
        Some(ExecutorChoice::RemotePool { heartbeat_timeout_secs }) => {
            if !for_target {
                Err("remote_pool executor can only be used with target actions"@)
            } else if pool_name is None {
                Err("remote_pool executor requires a named target registry entry (pool name)"@)
            } else if !has_worker_server {
                Err("remote_pool executor requires bits.worker_server to be configured"@)
            } else {
                match secs_span(number_text(heartbeat_timeout_secs)) {
                    Err(e) => Err("remote_pool: invalid heartbeat_timeout_secs: "@ + e),
                    Ok(span) => if span.total() == 0 {
                        Err("remote_pool: heartbeat_timeout_secs must be positive"@)
                    } else {
                        Ok(
                            PlannedExecutor::RemotePool {
                                pool_name: pool_name->0,
                                heartbeat_timeout: span,
                            },
                        )
                    },
                }
            }
        },
    }
}

/// The dispatcher that settings ask for: none where neither a queue nor an executor is named.
pub open spec fn planned_dispatcher(
    queue: Option<QueueKind>,
    executor: Option<ExecutorChoice>,
    pool_name: Option<Seq<char>>,
    has_worker_server: bool,
    for_target: bool,
    queue_capacity: usize,
) -> Result<Option<PlannedDispatcher>, Seq<char>> {
    if queue is None && executor is None {
        Ok(None)
    } else {
        match planned_executor(executor, pool_name, has_worker_server, for_target) {
            Err(e) => Err(e),
            Ok(executor) => if queue_capacity == 0 {
                Err("queue_capacity must be greater than zero"@)
            } else {
                Ok(
                    Some(
                        PlannedDispatcher {
                            queue: match queue {
                                Some(kind) => kind,
                                None => QueueKind::Fifo,
                            },
                            executor,
                            queue_capacity,
                        },
                    ),
                )
            },
        }
    }
}

pub open spec fn opt_choice(executor: Option<&ExecutorKind>) -> Option<ExecutorChoice> {
    match executor {
        Some(e) => Some(e@),
        None => None,
    }
}

pub open spec fn opt_str(s: Option<&str>) -> Option<Seq<char>> {
    match s {
        Some(s) => Some(s@),
        None => None,
    }
}

pub open spec fn opt_plan(plan: Option<DispatcherPlan>) -> Option<PlannedDispatcher> {
    match plan {
        Some(plan) => Some(plan@),
        None => None,
    }
}

fn plan_executor(
    executor: Option<&ExecutorKind>,
    pool_name: Option<&str>,
    has_worker_server: bool,
    for_target: bool,
) -> (r: Result<ExecutorPlan, String>)
    ensures
        match r {
            Ok(plan) => planned_executor(
                opt_choice(executor),
                opt_str(pool_name),
                has_worker_server,
                for_target,
            ) == Ok::<PlannedExecutor, Seq<char>>(plan@),
            Err(e) => planned_executor(
                opt_choice(executor),
                opt_str(pool_name),
                has_worker_server,
                for_target,
            ) == Err::<PlannedExecutor, Seq<char>>(e@),
        },
{
    match executor {
        None => Ok(ExecutorPlan::AsyncPool { concurrency: DEFAULT_POOL_SIZE }),
        Some(ExecutorKind::AsyncPool { concurrency }) => Ok(
            ExecutorPlan::AsyncPool { concurrency: concurrency.unwrap_or(DEFAULT_POOL_SIZE) },
        ),
        Some(ExecutorKind::ThreadPool { concurrency }) => Ok(
            ExecutorPlan::ThreadPool { concurrency: concurrency.unwrap_or(DEFAULT_POOL_SIZE) },
        ),
        Some(ExecutorKind::RemotePool { config }) => {
            if !for_target {
                return Err(
                    "remote_pool executor can only be used with target actions".to_owned(),
                );
            }
            let pool_name = match pool_name {
                Some(name) => name,
                None => {
                    return Err(
                        "remote_pool executor requires a named target registry entry (pool name)".to_owned(),
                    );
                },
            };
            if !has_worker_server {
                return Err(
                    "remote_pool executor requires bits.worker_server to be configured".to_owned(),
                );
            }
            let heartbeat_timeout = match span_from_secs(&config.heartbeat_timeout_secs.to_text()) {
                Ok(span) => span,
                Err(e) => {
                    return Err(cat2("remote_pool: invalid heartbeat_timeout_secs: ", &e));
                },
            };
            if heartbeat_timeout.is_zero() {
                return Err("remote_pool: heartbeat_timeout_secs must be positive".to_owned());
            }
            Ok(ExecutorPlan::RemotePool { pool_name: pool_name.to_owned(), heartbeat_timeout })
        },
    }
}

impl DispatcherPlan {
    /// Plans a dispatcher from config values, giving none if neither queue nor executor is named.
    pub fn from_config(
        queue: Option<QueueKind>,
        executor: Option<&ExecutorKind>,
        pool_name: Option<&str>,
        has_worker_server: bool,
        for_target: bool,
        queue_capacity: usize,
    ) -> (r: Result<Option<DispatcherPlan>, String>)
        ensures
            match r {
                Ok(plan) => planned_dispatcher(
                    queue,
                    opt_choice(executor),
                    opt_str(pool_name),
                    has_worker_server,
                    for_target,
                    queue_capacity,
                ) == Ok::<Option<PlannedDispatcher>, Seq<char>>(opt_plan(plan)),
                Err(e) => planned_dispatcher(
                    queue,
                    opt_choice(executor),
                    opt_str(pool_name),
                    has_worker_server,
                    for_target,
                    queue_capacity,
                ) == Err::<Option<PlannedDispatcher>, Seq<char>>(e@),
            },
    {
        if queue.is_none() && executor.is_none() {
            return Ok(None);
        }
        let executor = match plan_executor(executor, pool_name, has_worker_server, for_target) {
            Ok(plan) => plan,
            Err(e) => {
                return Err(e);
            },
        };
        if queue_capacity == 0 {
            return Err("queue_capacity must be greater than zero".to_owned());
        }
        let kind = match queue {
            Some(kind) => kind,
            None => QueueKind::Fifo,
        };
        Ok(Some(DispatcherPlan { queue: kind, executor, queue_capacity }))
    }
}

/// A dispatcher is set up exactly where a queue or an executor is named. It keeps the order of
/// arrival unless another queue is named, runs on a pool of 256 tasks unless told otherwise, and
/// has room for at least one job.
pub proof fn law_planned_dispatchers_follow_their_settings(
    queue: Option<QueueKind>,
    executor: Option<ExecutorChoice>,
    pool_name: Option<Seq<char>>,
    has_worker_server: bool,
    for_target: bool,
    queue_capacity: usize,
)
    ensures
        ({
            let r = planned_dispatcher(
                queue,
                executor,
                pool_name,
                has_worker_server,
                for_target,
                queue_capacity,
            );
            &&& (r matches Ok(None)) <==> queue is None && executor is None
            &&& (queue is Some || executor is Some) && queue_capacity == 0 ==> r is Err
            &&& r matches Ok(Some(plan)) ==> {
                &&& plan.queue_capacity == queue_capacity > 0
                &&& queue matches Some(kind) ==> plan.queue == kind
                &&& queue is None ==> plan.queue == QueueKind::Fifo
                &&& executor is None ==> plan.executor == (PlannedExecutor::AsyncPool {
                    concurrency: 256,
                })
                &&& executor matches Some(ExecutorChoice::AsyncPool { concurrency })
                    ==> plan.executor == (PlannedExecutor::AsyncPool {
                    concurrency: match concurrency {
                        Some(n) => n,
                        None => 256,
                    },
                })
                &&& executor matches Some(ExecutorChoice::ThreadPool { concurrency })
                    ==> plan.executor == (PlannedExecutor::ThreadPool {
                    concurrency: match concurrency {
                        Some(n) => n,
                        None => 256,
                    },
                })
                &&& executor is Some && executor->0 is RemotePool ==> plan.executor is RemotePool
            }
            &&& queue_capacity > 0 && (queue is Some || executor is Some) && !(executor is Some
                && executor->0 is RemotePool) ==> r is Ok
        }),
{
}

/// Work goes to remote workers exactly where the action is a target with a name, there is a worker
/// server, and the heartbeat timeout is a length of time above zero. The pool bears the name of the
/// target. The first of these that is missing is told.
pub proof fn law_remote_pools_need_a_named_target_and_a_server(
    timeout_secs: NumberValue,
    pool_name: Option<Seq<char>>,
    has_worker_server: bool,
    for_target: bool,
)
    ensures
        ({
            let r = planned_executor(
                Some(ExecutorChoice::RemotePool { heartbeat_timeout_secs: timeout_secs }),
                pool_name,
                has_worker_server,
                for_target,
            );
            let span = secs_span(number_text(timeout_secs));
            &&& r is Ok <==> for_target && pool_name is Some && has_worker_server && span is Ok && (
            span->Ok_0.secs > 0 || span->Ok_0.nanos > 0)
            &&& r matches Ok(plan) ==> (plan matches PlannedExecutor::RemotePool {
                pool_name: name,
                heartbeat_timeout,
            } && Some(name) == pool_name && span == Ok::<Span, Seq<char>>(heartbeat_timeout))
            &&& !for_target ==> r == Err::<PlannedExecutor, Seq<char>>(
                "remote_pool executor can only be used with target actions"@,
            )
            &&& for_target && pool_name is None ==> r == Err::<PlannedExecutor, Seq<char>>(
                "remote_pool executor requires a named target registry entry (pool name)"@,
            )
            &&& for_target && pool_name is Some && !has_worker_server ==> r == Err::<
                PlannedExecutor,
                Seq<char>,
            >("remote_pool executor requires bits.worker_server to be configured"@)
        }),
{
}

} // verus!
