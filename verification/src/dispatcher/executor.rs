//! Executors control how queued work runs.

use vstd::prelude::*;

use crate::actions::ActionError;
use crate::time::Span;

verus! {

/// Runs work on a number of tasks, each of which takes the next piece when it is done with one.
#[derive(Debug)]
pub struct AsyncPoolExecutor {
    pub concurrency: usize,
}

impl AsyncPoolExecutor {
    pub fn new(concurrency: usize) -> (r: AsyncPoolExecutor)
        ensures
            r.concurrency == concurrency,
    {
        AsyncPoolExecutor { concurrency }
    }
}

/// Runs work on a number of threads of its own.
#[derive(Debug)]
pub struct ThreadPoolExecutor {
    pub concurrency: usize,
}

impl ThreadPoolExecutor {
    pub fn new(concurrency: usize) -> (r: ThreadPoolExecutor)
        ensures
            r.concurrency == concurrency,
    {
        ThreadPoolExecutor { concurrency }
    }
}

/// Hands work to workers elsewhere, which fetch it from the pool of this name.
#[derive(Debug)]
pub struct RemotePoolExecutor {
    pub pool_name: String,
    pub heartbeat_timeout: Span,
}

impl RemotePoolExecutor {
    pub fn new(pool_name: &str, heartbeat_timeout: Span) -> (r: RemotePoolExecutor)
        ensures
            r.pool_name@ == pool_name@,
            r.heartbeat_timeout == heartbeat_timeout,
    {
        RemotePoolExecutor { pool_name: pool_name.to_owned(), heartbeat_timeout }
    }
}

/// Limits how many pieces of work run at the same time by a number of places.
#[derive(Debug)]
pub struct SemaphoreExecutor {
    pub places: usize,
    pub running: usize,
    pub closed: bool,
}

/// What a caller of a [`SemaphoreExecutor`] gets.
#[derive(Debug)]
pub enum Turn {
    /// The work may run now.
    Run,
    /// All places are taken.
    Wait,
    /// The executor is shut down.
    Refused(ActionError),
}

impl SemaphoreExecutor {
    /// No more work runs than there are places.
    pub open spec fn wf(self) -> bool {
        self.running <= self.places
    }

    pub fn new(concurrency: usize) -> (r: SemaphoreExecutor)
        ensures
            r.wf(),
            r.places == concurrency,
            r.running == 0,
            !r.closed,
    {
        SemaphoreExecutor { places: concurrency, running: 0, closed: false }
    }

    /// Asks for a place to run a piece of work.
    pub fn acquire(&mut self) -> (turn: Turn)
        requires
            old(self).wf(),
        ensures
            final(self).wf(),
            final(self).places == old(self).places,
            final(self).closed == old(self).closed,
            match turn {
                Turn::Run => !old(self).closed && old(self).running < old(self).places
                    && final(self).running == old(self).running + 1,
                Turn::Wait => !old(self).closed && old(self).running == old(self).places
                    && final(self).running == old(self).running,
                Turn::Refused(e) => old(self).closed && final(self).running == old(self).running
                    && (e matches ActionError::ResourceError(m) && m@ == "semaphore closed"@),
            },
    {
        if self.closed {
            return Turn::Refused(ActionError::ResourceError("semaphore closed".to_owned()));
        }
        if self.running < self.places {
            self.running = self.running + 1;
            Turn::Run
        } else {
            Turn::Wait
        }
    }

    /// Gives a place back when a piece of work is done.
    pub fn release(&mut self)
        requires
            old(self).wf(),
            old(self).running > 0,
        ensures
            final(self).wf(),
            *final(self) == (SemaphoreExecutor {
                running: (old(self).running - 1) as usize,
                ..*old(self)
            }),
    {
        self.running = self.running - 1;
    }
}

/// Would hand jobs to an external pool; it takes none yet.
#[derive(Debug)]
pub struct ExternalPoolDispatcher;

impl ExternalPoolDispatcher {
    /// Every job is refused.
    pub fn dispatch(&self) -> (e: ActionError)
        ensures
            e matches ActionError::ResourceError(m) && m@ == "external pool not yet implemented"@,
    {
        ActionError::ResourceError("external pool not yet implemented".to_owned())
    }
}

} // verus!
