//! The dispatcher: admission, waiting and hand-over of work.

use vstd::multiset::Multiset;
use vstd::prelude::*;

use crate::actions::ActionError;
use crate::db::{DbError, UserLimitEntry};
use crate::dispatcher::plan::{
    opt_choice, opt_str, planned_dispatcher, DispatcherPlan, ExecutorKind, ExecutorPlan,
    PlannedDispatcher,
};
use crate::dispatcher::queue::age_priority::AgePriorityQueue;
use crate::dispatcher::queue::cost_weighted::CostWeightedQueue;
use crate::dispatcher::queue::fifo::FifoQueue;
use crate::dispatcher::queue::{Dequeued, Queue, QueueKind};
use crate::dispatcher::user_limit::{
    admission_begun, list_answered, reserve_answered, user_identity, AdmitStep, UserLimitConfig,
    UserLimitGuard, UserLimiter,
};
use crate::job::Job;
use crate::table::Table;
use crate::text::{cat3, decimal, decimal_text, texts};

verus! {

/// What must still hold when the turn of a queued job comes.
#[derive(Debug, Clone, Copy, PartialEq, Eq, Structural)]
pub enum DispatchGuard {
    Unguarded,
    Cancelled,
    CancelledOrClientGone,
}

/// Whether a job may still run, and else the error that its caller gets.
pub open spec fn guard_error(
    guard: DispatchGuard,
    cancelled: bool,
    client_present: bool,
) -> Option<ActionError> {
    if guard != DispatchGuard::Unguarded && cancelled {
        Some(ActionError::Cancelled)
    } else if guard == DispatchGuard::CancelledOrClientGone && !client_present {
        Some(ActionError::ClientGone)
    } else {
        None
    }
}

impl DispatchGuard {
    /// Checks a job at the moment at which its turn has come.
    pub fn check(self, cancelled: bool, client_present: bool) -> (r: Result<(), ActionError>)
        ensures
            match r {
                Ok(()) => guard_error(self, cancelled, client_present) is None,
                Err(e) => guard_error(self, cancelled, client_present) == Some(e),
            },
    {
        match self {
            DispatchGuard::Unguarded => Ok(()),
            DispatchGuard::Cancelled => {
                if cancelled {
                    Err(ActionError::Cancelled)
                } else {
                    Ok(())
                }
            },
            DispatchGuard::CancelledOrClientGone => {
                if cancelled {
                    Err(ActionError::Cancelled)
                } else if !client_present {
                    Err(ActionError::ClientGone)
                } else {
                    Ok(())
                }
            },
        }
    }
}

// ---------------------------------------------------------------------------------------------
// Queues of either kind
// ---------------------------------------------------------------------------------------------

/// The queue of a dispatcher.
#[derive(Debug)]
pub enum AnyQueue {
    Fifo(FifoQueue),
    CostWeighted(CostWeightedQueue),
    AgePriority(AgePriorityQueue),
}

impl AnyQueue {
    /// The kind of the queue.
    pub open spec fn kind(self) -> QueueKind {
        match self {
            AnyQueue::Fifo(_) => QueueKind::Fifo,
            AnyQueue::CostWeighted(_) => QueueKind::CostWeighted,
            AnyQueue::AgePriority(_) => QueueKind::AgePriority,
        }
    }

    /// No job was ever added to the queue.
    pub open spec fn unused(self) -> bool {
        &&& self.line() == Seq::<Job>::empty()
        &&& self.waiting() == Multiset::<Job>::empty()
        &&& self matches AnyQueue::CostWeighted(inner) ==> inner.numbered() && inner.next_seq == 0
    }

    pub fn new(kind: QueueKind) -> (q: AnyQueue)
        ensures
            q.kind() == kind,
            q.wf(),
            !q.shut(),
            q.unused(),
    {
        broadcast use vstd::seq_lib::group_to_multiset_ensures;

        let q = match kind {
            QueueKind::Fifo => AnyQueue::Fifo(FifoQueue::new()),
            QueueKind::CostWeighted => AnyQueue::CostWeighted(CostWeightedQueue::new()),
            QueueKind::AgePriority => AnyQueue::AgePriority(AgePriorityQueue::new()),
        };
        proof {
            assert(q.waiting() =~= Multiset::<Job>::empty());
            assert(q.line() =~= Seq::<Job>::empty());
        }
        q
    }
}

impl Queue for AnyQueue {
    open spec fn waiting(&self) -> Multiset<Job> {
        match *self {
            AnyQueue::Fifo(q) => q.waiting(),
            AnyQueue::CostWeighted(q) => q.waiting(),
            AnyQueue::AgePriority(q) => q.waiting(),
        }
    }

    open spec fn line(&self) -> Seq<Job> {
        match *self {
            AnyQueue::Fifo(q) => q.line(),
            AnyQueue::CostWeighted(q) => q.line(),
            AnyQueue::AgePriority(q) => q.line(),
        }
    }

    open spec fn added(&self, after: &Self, job: Job, now_nanos: u64) -> bool {
        match (*self, *after) {
            (AnyQueue::Fifo(q), AnyQueue::Fifo(a)) => q.added(&a, job, now_nanos),
            (AnyQueue::CostWeighted(q), AnyQueue::CostWeighted(a)) => q.added(&a, job, now_nanos),
            (AnyQueue::AgePriority(q), AnyQueue::AgePriority(a)) => q.added(&a, job, now_nanos),
            _ => false,
        }
    }

    open spec fn served(&self, after: &Self) -> bool {
        match (*self, *after) {
            (AnyQueue::Fifo(q), AnyQueue::Fifo(a)) => q.served(&a),
            (AnyQueue::CostWeighted(q), AnyQueue::CostWeighted(a)) => q.served(&a),
            (AnyQueue::AgePriority(q), AnyQueue::AgePriority(a)) => q.served(&a),
            _ => false,
        }
    }

    open spec fn closed_down(&self, after: &Self) -> bool {
        match (*self, *after) {
            (AnyQueue::Fifo(q), AnyQueue::Fifo(a)) => q.closed_down(&a),
            (AnyQueue::CostWeighted(q), AnyQueue::CostWeighted(a)) => q.closed_down(&a),
            (AnyQueue::AgePriority(q), AnyQueue::AgePriority(a)) => q.closed_down(&a),
            _ => false,
        }
    }

    open spec fn shut(&self) -> bool {
        match *self {
            AnyQueue::Fifo(q) => q.shut(),
            AnyQueue::CostWeighted(q) => q.shut(),
            AnyQueue::AgePriority(q) => q.shut(),
        }
    }

    open spec fn wf(&self) -> bool {
        match *self {
            AnyQueue::Fifo(q) => q.wf(),
            AnyQueue::CostWeighted(q) => q.wf(),
            AnyQueue::AgePriority(q) => q.wf(),
        }
    }

    fn enqueue(&mut self, job: Job, now_nanos: u64)
        ensures
            final(self).kind() == old(self).kind(),
    {
        match self {
            AnyQueue::Fifo(q) => q.enqueue(job, now_nanos),
            AnyQueue::CostWeighted(q) => q.enqueue(job, now_nanos),
            AnyQueue::AgePriority(q) => q.enqueue(job, now_nanos),
        }
    }

    fn dequeue(&mut self) -> (r: Dequeued)
        ensures
            final(self).kind() == old(self).kind(),
    {
        match self {
            AnyQueue::Fifo(q) => q.dequeue(),
            AnyQueue::CostWeighted(q) => q.dequeue(),
            AnyQueue::AgePriority(q) => q.dequeue(),
        }
    }

    fn close(&mut self)
        ensures
            final(self).kind() == old(self).kind(),
    {
        match self {
            AnyQueue::Fifo(q) => q.close(),
            AnyQueue::CostWeighted(q) => q.close(),
            AnyQueue::AgePriority(q) => q.close(),
        }
    }
}

// ---------------------------------------------------------------------------------------------
// Dispatcher
// ---------------------------------------------------------------------------------------------

/// Work that waits in the queue.
#[derive(Debug)]
pub struct PendingItem {
    pub guard: DispatchGuard,
    pub user_guard: Option<UserLimitGuard>,
    pub enqueued_nanos: u64,
}

/// Composes a queue, which controls the order, with an executor, which controls how work runs.
pub struct Dispatcher {
    pub queue: AnyQueue,
    pub executor: ExecutorPlan,
    /// The waiting work by job id.
    pub pending: Table<PendingItem>,
    pub queue_capacity: usize,
    /// How many more jobs may wait.
    pub free_places: usize,
    pub closing: bool,
    /// The hard per-user cap, if there is one.
    pub user_limiter: Option<UserLimiter>,
}

/// A job on its way into the queue.
#[derive(Debug)]
pub struct Request {
    pub job: Job,
    pub guard: DispatchGuard,
    /// The identity of the user, where it is limited.
    pub user: Option<String>,
}

/// What a dispatch needs next, or how it went.
#[derive(Debug)]
pub enum DispatchStep {
    /// The job waits in the queue. Work that waited under the same id gave way to it.
    Queued { displaced: Option<PendingItem> },
    /// The caller gets an error, and a reservation may have to be released in the store.
    Failed { error: ActionError, release: Option<UserLimitGuard> },
    /// A place must be reserved in the store.
    Reserve(Request),
    /// The store must list the user's reservations, of which ours has this number.
    List { request: Request, seq: u64 },
}

/// What an executor finds.
#[derive(Debug)]
pub enum WorkStep {
    /// This work is next.
    Run { job: Job, item: PendingItem },
    /// The caller of this job is gone; there is nothing to run for it.
    Skipped(Job),
    /// Nothing waits at the moment.
    Idle,
    /// Nothing will come any more.
    Closed,
}

impl Dispatcher {
    /// Every waiting piece of work takes one of the places, so no more can wait than there are
    /// places.
    pub open spec fn wf(self) -> bool {
        &&& self.queue_capacity > 0
        &&& self.pending.wf()
        &&& self.queue.wf()
        &&& self.free_places + self.pending.entries@.len() == self.queue_capacity
        &&& self.queue.shut() == self.closing
        &&& self.closing ==> self.pending.entries@.len() == 0
    }

    /// The same dispatcher with another state of its limiter.
    pub open spec fn with_limiter(self, limiter: Option<UserLimiter>) -> Dispatcher {
        Dispatcher { user_limiter: limiter, ..self }
    }

    /// The identity under which a job is limited, if it is.
    pub open spec fn identity(self, job: Job) -> Option<Seq<char>> {
        match self.user_limiter {
            Some(limiter) => user_identity(job@.user, limiter.pointers()),
            None => None,
        }
    }
}

/// A user's place is given back: the local one at once, the one in the store by the caller.
pub open spec fn place_given_back(
    before: Option<UserLimiter>,
    after: Option<UserLimiter>,
    user_guard: Option<UserLimitGuard>,
    release: Option<UserLimitGuard>,
) -> bool {
    match (before, user_guard) {
        (Some(limiter), Some(guard)) => {
            let n = limiter.count(guard.key@);
            &&& after is Some
            &&& after->0.counted(
                &limiter,
                guard.key@,
                if n > 0 {
                    n - 1
                } else {
                    0
                },
            )
            &&& release == if limiter.synced() {
                Some(guard)
            } else {
                None
            }
        },
        _ => after == before && release is None,
    }
}

/// An error with a message.
pub open spec fn closed_error(error: ActionError) -> bool {
    error matches ActionError::ResourceError(m) && m@ == "dispatcher closed"@
}

pub open spec fn full_error(error: ActionError) -> bool {
    error matches ActionError::QueueFull(m) && m@ == "dispatcher queue is full"@
}

pub open spec fn limit_error(error: ActionError, max: usize) -> bool {
    error matches ActionError::UserLimitExceeded(m) && m@ == "user is at the per-user limit ("@
        + decimal_text(max as nat) + ") for this route"@
}

/// How an admitted job enters the queue: not at all where the dispatcher is closing or all places
/// are taken; then the place of its user is given back.
pub open spec fn entered(
    before: Dispatcher,
    after: Dispatcher,
    request: Request,
    user_guard: Option<UserLimitGuard>,
    now_nanos: u64,
    step: DispatchStep,
) -> bool {
    if before.closing || before.free_places == 0 {
        &&& step matches DispatchStep::Failed { error, release }
        &&& before.closing ==> closed_error(error)
        &&& !before.closing ==> full_error(error)
        &&& place_given_back(before.user_limiter, after.user_limiter, user_guard, release)
        &&& after == before.with_limiter(after.user_limiter)
    } else {
        let id = request.job.id@;
        &&& step matches DispatchStep::Queued { displaced }
        &&& displaced == if before.pending@.contains_key(id) {
            Some(before.pending@[id])
        } else {
            None
        }
        &&& after.pending@ == before.pending@.insert(
            id,
            PendingItem { guard: request.guard, user_guard, enqueued_nanos: now_nanos },
        )
        &&& before.queue.added(&after.queue, request.job, now_nanos)
        &&& after.queue.waiting() == before.queue.waiting().insert(request.job)
        &&& after.queue.kind() == before.queue.kind()
        &&& after.executor == before.executor
        &&& after.queue_capacity == before.queue_capacity
        &&& !after.closing
        &&& after.user_limiter == before.user_limiter
        &&& after.free_places == if displaced is Some {
            before.free_places as int
        } else {
            before.free_places - 1
        }
    }
}

/// How a dispatch goes on after a step of the admission.
pub open spec fn continued(
    before: Dispatcher,
    after: Dispatcher,
    request: Request,
    admission: AdmitStep,
    now_nanos: u64,
    step: DispatchStep,
) -> bool {
    match admission {
        AdmitStep::Admitted(guard) => entered(
            before,
            after,
            request,
            Some(guard),
            now_nanos,
            step,
        ),
        AdmitStep::Rejected => {
            &&& step matches DispatchStep::Failed { error, release }
            &&& limit_error(error, before.user_limiter->0.limit())
            &&& release is None
            &&& after == before
        },
        AdmitStep::BackOut => {
            &&& step matches DispatchStep::Failed { error, release }
            &&& limit_error(error, before.user_limiter->0.limit())
            &&& release matches Some(guard) && guard.key@ == request.user->0@ && guard.job_id@
                == request.job.id@
            &&& after == before
        },
        AdmitStep::Reserve => step == DispatchStep::Reserve(request) && after == before,
        AdmitStep::List { seq } => step == (DispatchStep::List { request, seq }) && after == before,
    }
}

impl Dispatcher {
    /// Sets a dispatcher up.
    pub fn new(plan: DispatcherPlan) -> (r: Result<Dispatcher, String>)
        ensures
            match r {
                Ok(d) => {
                    &&& plan.queue_capacity > 0
                    &&& d.wf()
                    &&& d.queue.kind() == plan.queue
                    &&& d.queue.unused()
                    &&& d.pending@ == Map::<Seq<char>, PendingItem>::empty()
                    &&& d.executor == plan.executor
                    &&& d.queue_capacity == plan.queue_capacity
                    &&& d.free_places == plan.queue_capacity
                    &&& !d.closing
                    &&& d.user_limiter is None
                },
                Err(e) => plan.queue_capacity == 0 && e@
                    == "queue_capacity must be greater than zero"@,
            },
    {
        if plan.queue_capacity == 0 {
            return Err("queue_capacity must be greater than zero".to_owned());
        }
        Ok(
            Dispatcher {
                queue: AnyQueue::new(plan.queue),
                executor: plan.executor,
                pending: Table::new(),
                queue_capacity: plan.queue_capacity,
                free_places: plan.queue_capacity,
                closing: false,
                user_limiter: None,
            },
        )
    }

    /// Sets a dispatcher up from config values, or none if neither queue nor executor is named.
    pub fn from_config(
        queue: Option<QueueKind>,
        executor: Option<&ExecutorKind>,
        pool_name: Option<&str>,
        has_worker_server: bool,
        for_target: bool,
        queue_capacity: usize,
    ) -> (r: Result<Option<Dispatcher>, String>)
        ensures
            ({
                let planned = planned_dispatcher(
                    queue,
                    opt_choice(executor),
                    opt_str(pool_name),
                    has_worker_server,
                    for_target,
                    queue_capacity,
                );
                match r {
                    Ok(None) => planned == Ok::<Option<PlannedDispatcher>, Seq<char>>(None),
                    Ok(Some(d)) => {
                        &&& planned == Ok::<Option<PlannedDispatcher>, Seq<char>>(
                            Some(
                                PlannedDispatcher {
                                    queue: d.queue.kind(),
                                    executor: d.executor@,
                                    queue_capacity: d.queue_capacity,
                                },
                            ),
                        )
                        &&& d.wf()
                        &&& d.queue.unused()
                        &&& d.pending@ == Map::<Seq<char>, PendingItem>::empty()
                        &&& d.free_places == d.queue_capacity
                        &&& !d.closing
                        &&& d.user_limiter is None
                    },
                    Err(e) => planned == Err::<Option<PlannedDispatcher>, Seq<char>>(e@),
                }
            }),
    {
        match DispatcherPlan::from_config(
            queue,
            executor,
            pool_name,
            has_worker_server,
            for_target,
            queue_capacity,
        ) {
            Ok(None) => Ok(None),
            Ok(Some(plan)) => match Dispatcher::new(plan) {
                Ok(d) => Ok(Some(d)),
                Err(e) => Err(e),
            },
            Err(e) => Err(e),
        }
    }

    /// Attaches a per-user admission cap, or takes it off.
    pub fn with_user_limit(
        self,
        cfg: Option<UserLimitConfig>,
        scope: &str,
        broker_id: &str,
        has_store: bool,
    ) -> (r: Dispatcher)
        requires
            self.wf(),
        ensures
            r.wf(),
            r == self.with_limiter(r.user_limiter),
            match cfg {
                None => r.user_limiter is None,
                Some(c) => {
                    &&& r.user_limiter matches Some(limiter)
                    &&& limiter.limit() == c.max
                    &&& limiter.pointers() == texts(c.key@)
                    &&& limiter.scope_text() == scope@
                    &&& limiter.broker_text() == broker_id@
                    &&& limiter.synced() == has_store
                    &&& forall|u: Seq<char>| #[trigger] limiter.count(u) == 0
                },
            },
    {
        let mut r = self;
        r.user_limiter = match cfg {
            Some(c) => Some(
                UserLimiter::new(c, scope.to_owned(), broker_id.to_owned(), has_store),
            ),
            None => None,
        };
        r
    }

    /// Gives the place of a user back and tells which reservation to release in the store.
    pub fn give_back(&mut self, user_guard: Option<UserLimitGuard>) -> (release: Option<
        UserLimitGuard,
    >)
        requires
            old(self).wf(),
        ensures
            final(self).wf(),
            place_given_back(
                old(self).user_limiter,
                final(self).user_limiter,
                user_guard,
                release,
            ),
            *final(self) == old(self).with_limiter(final(self).user_limiter),
    {
        match self.user_limiter.take() {
            Some(limiter) => {
                let mut limiter = limiter;
                let release = match user_guard {
                    Some(guard) => {
                        if limiter.release(&guard) {
                            Some(guard)
                        } else {
                            None
                        }
                    },
                    None => None,
                };
                self.user_limiter = Some(limiter);
                release
            },
            None => None,
        }
    }

    /// Lets an admitted job into the queue.
    fn enter(
        &mut self,
        request: Request,
        user_guard: Option<UserLimitGuard>,
        now_nanos: u64,
    ) -> (step: DispatchStep)
        requires
            old(self).wf(),
        ensures
            final(self).wf(),
            entered(*old(self), *final(self), request, user_guard, now_nanos, step),
    {
        if self.closing {
            let release = self.give_back(user_guard);
            return DispatchStep::Failed {
                error: ActionError::ResourceError("dispatcher closed".to_owned()),
                release,
            };
        }
        if self.free_places == 0 {
            let release = self.give_back(user_guard);
            return DispatchStep::Failed {
                error: ActionError::QueueFull("dispatcher queue is full".to_owned()),
                release,
            };
        }
        let item = PendingItem { guard: request.guard, user_guard, enqueued_nanos: now_nanos };
        let displaced = self.pending.insert(request.job.id.clone(), item);
        if displaced.is_none() {
            self.free_places = self.free_places - 1;
        }
        self.queue.enqueue(request.job, now_nanos);
        DispatchStep::Queued { displaced }
    }

    fn carry_on(&mut self, request: Request, admission: AdmitStep, now_nanos: u64) -> (step:
        DispatchStep)
        requires
            old(self).wf(),
            old(self).user_limiter is Some,
            request.user is Some,
        ensures
            final(self).wf(),
            continued(*old(self), *final(self), request, admission, now_nanos, step),
    {
        match admission {
            AdmitStep::Admitted(guard) => self.enter(request, Some(guard), now_nanos),
            AdmitStep::Rejected => DispatchStep::Failed {
                error: self.over_limit(),
                release: None,
            },
            AdmitStep::BackOut => {
                let error = self.over_limit();
                let key = request.user.unwrap();
                let guard = UserLimitGuard { key, job_id: request.job.id };
                DispatchStep::Failed { error, release: Some(guard) }
            },
            AdmitStep::Reserve => DispatchStep::Reserve(request),
            AdmitStep::List { seq } => DispatchStep::List { request, seq },
        }
    }

    fn over_limit(&self) -> (error: ActionError)
        requires
            self.user_limiter is Some,
        ensures
            limit_error(error, self.user_limiter->0.limit()),
    {
        let max: usize = match &self.user_limiter {
            Some(limiter) => limiter.max(),
            None => 0,
        };
        ActionError::UserLimitExceeded(
            cat3("user is at the per-user limit (", &decimal(max as u64), ") for this route"),
        )
    }

    /// Starts the dispatch of a job. A job without an identity that is limited goes straight to
    /// the queue.
    pub fn dispatch(&mut self, job: Job, guard: DispatchGuard, now_nanos: u64) -> (step:
        DispatchStep)
        requires
            old(self).wf(),
        ensures
            final(self).wf(),
            match old(self).identity(job) {
                None => exists|request: Request|
                    #![trigger entered(*old(self), *final(self), request, None, now_nanos, step)]
                    {
                        &&& request.job == job
                        &&& request.guard == guard
                        &&& request.user is None
                        &&& entered(*old(self), *final(self), request, None, now_nanos, step)
                    },
                Some(who) => exists|request: Request, limiter: UserLimiter, admission: AdmitStep|
                    #![trigger continued(old(self).with_limiter(Some(limiter)), *final(self), request, admission, now_nanos, step)]
                    {
                        &&& request.job == job
                        &&& request.guard == guard
                        &&& request.user is Some && request.user->0@ == who
                        &&& admission_begun(
                            old(self).user_limiter->0,
                            limiter,
                            who,
                            job.id@,
                            admission,
                        )
                        &&& continued(
                            old(self).with_limiter(Some(limiter)),
                            *final(self),
                            request,
                            admission,
                            now_nanos,
                            step,
                        )
                    },
            },
    {
        let ghost before = *self;
        match self.user_limiter.take() {
            None => {
                let request = Request { job, guard, user: None };
                assert(*self == before);
                self.enter(request, None, now_nanos)
            },
            Some(limiter) => {
                let mut limiter = limiter;
                match limiter.user_key(&job.user) {
                    None => {
                        self.user_limiter = Some(limiter);
                        let request = Request { job, guard, user: None };
                        assert(*self == before);
                        self.enter(request, None, now_nanos)
                    },
                    Some(key) => {
                        let admission = limiter.begin_admission(&key, &job.id);
                        self.user_limiter = Some(limiter);
                        let request = Request { job, guard, user: Some(key) };
                        assert(*self == before.with_limiter(Some(limiter)));
                        self.carry_on(request, admission, now_nanos)
                    },
                }
            },
        }
    }

    /// Goes on after the store was asked to reserve a place.
    pub fn after_reserve(
        &mut self,
        request: Request,
        reserved: Result<u64, DbError>,
        now_nanos: u64,
    ) -> (step: DispatchStep)
        requires
            old(self).wf(),
            old(self).user_limiter is Some,
            request.user is Some,
        ensures
            final(self).wf(),
            exists|limiter: UserLimiter, admission: AdmitStep|
                #![trigger continued(old(self).with_limiter(Some(limiter)), *final(self), request, admission, now_nanos, step)]
                {
                    &&& reserve_answered(
                        old(self).user_limiter->0,
                        limiter,
                        request.user->0@,
                        request.job.id@,
                        reserved,
                        now_nanos,
                        admission,
                    )
                    &&& continued(
                        old(self).with_limiter(Some(limiter)),
                        *final(self),
                        request,
                        admission,
                        now_nanos,
                        step,
                    )
                },
    {
        let ghost before = *self;
        let mut limiter = self.user_limiter.take().unwrap();
        let admission = match &request.user {
            Some(key) => limiter.after_reserve(key, &request.job.id, reserved, now_nanos),
            None => AdmitStep::Rejected,
        };
        self.user_limiter = Some(limiter);
        assert(*self == before.with_limiter(Some(limiter)));
        self.carry_on(request, admission, now_nanos)
    }

    /// Goes on after the store was asked for the user's reservations.
    pub fn after_list(
        &mut self,
        request: Request,
        seq: u64,
        listed: Result<Vec<UserLimitEntry>, DbError>,
        now_nanos: u64,
    ) -> (step: DispatchStep)
        requires
            old(self).wf(),
            old(self).user_limiter is Some,
            request.user is Some,
        ensures
            final(self).wf(),
            exists|limiter: UserLimiter, admission: AdmitStep|
                #![trigger continued(old(self).with_limiter(Some(limiter)), *final(self), request, admission, now_nanos, step)]
                {
                    &&& list_answered(
                        old(self).user_limiter->0,
                        limiter,
                        request.user->0@,
                        request.job.id@,
                        seq,
                        listed,
                        now_nanos,
                        admission,
                    )
                    &&& continued(
                        old(self).with_limiter(Some(limiter)),
                        *final(self),
                        request,
                        admission,
                        now_nanos,
                        step,
                    )
                },
    {
        let ghost before = *self;
        let mut limiter = self.user_limiter.take().unwrap();
        let admission = match &request.user {
            Some(key) => limiter.after_list(key, &request.job.id, seq, listed, now_nanos),
            None => AdmitStep::Rejected,
        };
        self.user_limiter = Some(limiter);
        assert(*self == before.with_limiter(Some(limiter)));
        self.carry_on(request, admission, now_nanos)
    }

    /// Hands the next piece of work to an executor, which frees its place.
    pub fn next_work(&mut self) -> (step: WorkStep)
        requires
            old(self).wf(),
        ensures
            final(self).wf(),
            final(self).queue.kind() == old(self).queue.kind(),
            final(self).executor == old(self).executor,
            final(self).queue_capacity == old(self).queue_capacity,
            final(self).closing == old(self).closing,
            final(self).user_limiter == old(self).user_limiter,
            old(self).queue.served(&final(self).queue),
            match step {
                WorkStep::Run { job, item } => {
                    &&& old(self).queue.line().len() > 0
                    &&& job == old(self).queue.line()[0]
                    &&& final(self).queue.line() == old(self).queue.line().drop_first()
                    &&& old(self).queue.waiting().contains(job)
                    &&& final(self).queue.waiting() == old(self).queue.waiting().remove(job)
                    &&& old(self).pending@.contains_key(job.id@)
                    &&& item == old(self).pending@[job.id@]
                    &&& final(self).pending@ == old(self).pending@.remove(job.id@)
                    &&& final(self).free_places == old(self).free_places + 1
                },
                WorkStep::Skipped(job) => {
                    &&& old(self).queue.line().len() > 0
                    &&& job == old(self).queue.line()[0]
                    &&& final(self).queue.line() == old(self).queue.line().drop_first()
                    &&& old(self).queue.waiting().contains(job)
                    &&& final(self).queue.waiting() == old(self).queue.waiting().remove(job)
                    &&& !old(self).pending@.contains_key(job.id@)
                    &&& final(self).pending@ == old(self).pending@
                    &&& final(self).free_places == old(self).free_places
                },
                WorkStep::Idle => {
                    &&& !old(self).closing
                    &&& old(self).queue.line().len() == 0
                    &&& old(self).queue.waiting() == Multiset::<Job>::empty()
                    &&& final(self).pending@ == old(self).pending@
                    &&& final(self).free_places == old(self).free_places
                },
                WorkStep::Closed => {
                    &&& old(self).closing
                    &&& old(self).queue.line().len() == 0
                    &&& final(self).pending@ == old(self).pending@
                    &&& final(self).free_places == old(self).free_places
                },
            },
    {
        match self.queue.dequeue() {
            Dequeued::Next(job) => match self.pending.remove(&job.id) {
                Some(item) => {
                    self.free_places = self.free_places + 1;
                    WorkStep::Run { job, item }
                },
                None => {
                    assert(self.pending@ =~= old(self).pending@);
                    WorkStep::Skipped(job)
                },
            },
            Dequeued::Empty => WorkStep::Idle,
            Dequeued::Closed => WorkStep::Closed,
        }
    }

    /// Shuts the dispatcher down: nothing more is let in, and the work that still waited is handed
    /// back so that its callers can be told.
    pub fn close(&mut self) -> (stranded: Vec<(String, PendingItem)>)
        requires
            old(self).wf(),
        ensures
            final(self).wf(),
            final(self).closing,
            stranded@ == old(self).pending.entries@,
            old(self).queue.closed_down(&final(self).queue),
            final(self).queue.kind() == old(self).queue.kind(),
            final(self).free_places == old(self).queue_capacity,
            final(self).pending@ == Map::<Seq<char>, PendingItem>::empty(),
            final(self).queue_capacity == old(self).queue_capacity,
            final(self).executor == old(self).executor,
            final(self).user_limiter == old(self).user_limiter,
    {
        self.closing = true;
        self.queue.close();
        let mut drained: Table<PendingItem> = Table::new();
        std::mem::swap(&mut drained, &mut self.pending);
        self.free_places = self.queue_capacity;
        drained.entries
    }
}

/// The error that the callers of stranded work get.
pub fn stranded_error() -> (error: ActionError)
    ensures
        closed_error(error),
{
    ActionError::ResourceError("dispatcher closed".to_owned())
}

/// No more work waits than the dispatcher has places for, whatever was dispatched to it.
pub proof fn law_waiting_work_is_bounded(dispatcher: Dispatcher)
    requires
        dispatcher.wf(),
    ensures
        dispatcher.pending.entries@.len() <= dispatcher.queue_capacity,
{
}

/// When its turn comes, a job runs unless it is guarded and was cancelled, or is guarded against
/// the loss of its client and the client is gone. The cancellation is told first.
pub proof fn law_guards_stop_what_nobody_wants(
    guard: DispatchGuard,
    cancelled: bool,
    client_present: bool,
)
    ensures
        guard_error(DispatchGuard::Unguarded, cancelled, client_present) is None,
        guard_error(DispatchGuard::Cancelled, cancelled, client_present) is Some <==> cancelled,
        guard_error(DispatchGuard::CancelledOrClientGone, cancelled, client_present) is Some <==> (
        cancelled || !client_present),
        guard_error(guard, cancelled, client_present) matches Some(e) ==> if cancelled {
            e is Cancelled
        } else {
            e is ClientGone
        },
{
}

/// A job is taken in exactly where the dispatcher is open and has a free place. Then it waits with
/// its guard, takes a place unless it displaces work of the same name, and what waited before still
/// waits.
pub proof fn law_dispatchers_take_what_fits(
    before: Dispatcher,
    after: Dispatcher,
    request: Request,
    user_guard: Option<UserLimitGuard>,
    now_nanos: u64,
    step: DispatchStep,
)
    requires
        entered(before, after, request, user_guard, now_nanos, step),
    ensures
        step is Queued <==> !before.closing && before.free_places > 0,
        step is Failed <==> before.closing || before.free_places == 0,
        step is Queued ==> ({
            let id = request.job.id@;
            &&& after.pending@.contains_key(id)
            &&& after.pending@[id].guard == request.guard
            &&& after.pending@[id].user_guard == user_guard
            &&& after.pending@[id].enqueued_nanos == now_nanos
            &&& after.queue.waiting() == before.queue.waiting().insert(request.job)
            &&& after.free_places == if before.pending@.contains_key(id) {
                before.free_places as int
            } else {
                before.free_places - 1
            }
            &&& step->displaced == if before.pending@.contains_key(id) {
                Some(before.pending@[id])
            } else {
                None
            }
            &&& forall|other: Seq<char>|
                other != id ==> (#[trigger] after.pending@.contains_key(other)
                    <==> before.pending@.contains_key(other)) && (after.pending@.contains_key(other)
                    ==> after.pending@[other] == before.pending@[other])
        }),
        step is Failed ==> after.pending == before.pending && after.queue == before.queue
            && after.free_places == before.free_places,
        step matches DispatchStep::Failed { error, .. } ==> if before.closing {
            error matches ActionError::ResourceError(m) && m@ == "dispatcher closed"@
        } else {
            error matches ActionError::QueueFull(m) && m@ == "dispatcher queue is full"@
        },
{
}

/// A job that was admitted but does not fit gives the place of its user back: the user counts one
/// job less than with it, and the store is told where there is one.
pub proof fn law_places_of_refused_jobs_are_given_back(
    before: Dispatcher,
    after: Dispatcher,
    request: Request,
    guard: UserLimitGuard,
    now_nanos: u64,
    step: DispatchStep,
)
    requires
        entered(before, after, request, Some(guard), now_nanos, step),
        step is Failed,
        before.user_limiter is Some,
    ensures
        after.user_limiter is Some,
        before.user_limiter->0.count(guard.key@) > 0 ==> after.user_limiter->0.count(guard.key@)
            == before.user_limiter->0.count(guard.key@) - 1,
        step->release == if before.user_limiter->0.synced() {
            Some(guard)
        } else {
            None
        },
{
}

/// A user over the limit gets an error that names the limit, and nothing of the dispatcher changes.
/// A reservation that was made in the store is handed back for release.
pub proof fn law_refused_users_are_told_the_limit(
    before: Dispatcher,
    after: Dispatcher,
    request: Request,
    admission: AdmitStep,
    now_nanos: u64,
    step: DispatchStep,
)
    requires
        continued(before, after, request, admission, now_nanos, step),
        admission is Rejected || admission is BackOut,
    ensures
        after == before,
        step matches DispatchStep::Failed { error, release } && (error matches ActionError::UserLimitExceeded(
            m,
        ) && m@ == "user is at the per-user limit ("@ + decimal_text(
            before.user_limiter->0.limit() as nat,
        ) + ") for this route"@) && match release {
            None => admission is Rejected,
            Some(guard) => admission is BackOut && guard.key@ == request.user->0@ && guard.job_id@
                == request.job.id@,
        },
{
}

/// An admitted job enters the queue with its place, and a step that needs the store hands the job
/// back untouched.
pub proof fn law_admitted_jobs_enter(
    before: Dispatcher,
    after: Dispatcher,
    request: Request,
    admission: AdmitStep,
    now_nanos: u64,
    step: DispatchStep,
)
    requires
        continued(before, after, request, admission, now_nanos, step),
    ensures
        admission matches AdmitStep::Admitted(guard) ==> entered(
            before,
            after,
            request,
            Some(guard),
            now_nanos,
            step,
        ),
        admission is Reserve ==> after == before && step == DispatchStep::Reserve(request),
        admission matches AdmitStep::List { seq } ==> after == before && step == (
        DispatchStep::List { request, seq }),
{
}

} // verus!
