//! Dispatchers: a queue that orders jobs and an executor that runs them.

pub mod dispatch;
pub mod executor;
pub mod plan;
pub mod queue;
pub mod remote_pool;
pub mod scheduled;
pub(crate) mod tables;
pub mod user_limit;
