//! What the steps of a route return.

pub mod check_hasrole;
pub mod registry;
pub mod target_http;
pub mod target_remote;

use vstd::prelude::*;

use crate::result::JobResult;
use crate::text::cat2;

verus! {

/// Error returned by an action during routing or dispatch.
#[derive(Debug)]
pub enum ActionError {
    NetworkError(String),
    QueueFull(String),
    /// The user already has as many jobs on the route as the limit allows.
    UserLimitExceeded(String),
    Timeout(String),
    ConfigError(String),
    AuthError(String),
    ResourceError(String),
    CircuitOpen(String),
    Cancelled,
    ClientGone,
}

/// The error in words.
pub open spec fn action_error_text(e: ActionError) -> Seq<char> {
    match e {
        ActionError::NetworkError(m) => "Network error: "@ + m@,
        ActionError::QueueFull(m) => "Queue full: "@ + m@,
        ActionError::UserLimitExceeded(m) => "User limit exceeded: "@ + m@,
        ActionError::Timeout(m) => "Timeout: "@ + m@,
        ActionError::ConfigError(m) => "Config error: "@ + m@,
        ActionError::AuthError(m) => "Auth error: "@ + m@,
        ActionError::ResourceError(m) => "Resource error: "@ + m@,
        ActionError::CircuitOpen(m) => "Circuit open: "@ + m@,
        ActionError::Cancelled => "Cancelled"@,
        ActionError::ClientGone => "Client disconnected before data could be delivered"@,
    }
}

/// The stable code of the error.
pub open spec fn action_error_code(e: ActionError) -> Seq<char> {
    match e {
        ActionError::NetworkError(_) => "ACTION_NETWORK"@,
        ActionError::QueueFull(_) => "ACTION_QUEUE_FULL"@,
        ActionError::UserLimitExceeded(_) => "ACTION_USER_LIMIT"@,
        ActionError::Timeout(_) => "ACTION_TIMEOUT"@,
        ActionError::ConfigError(_) => "ACTION_CONFIG"@,
        ActionError::AuthError(_) => "ACTION_AUTH"@,
        ActionError::ResourceError(_) => "ACTION_RESOURCE"@,
        ActionError::CircuitOpen(_) => "ACTION_CIRCUIT_OPEN"@,
        ActionError::Cancelled => "ACTION_CANCELLED"@,
        ActionError::ClientGone => "ACTION_CLIENT_GONE"@,
    }
}

/// Whether the same request may succeed later.
pub open spec fn action_error_retryable(e: ActionError) -> bool {
    e is NetworkError || e is Timeout || e is QueueFull || e is CircuitOpen
}

impl ActionError {
    pub fn code(&self) -> (r: &'static str)
        ensures
            r@ == action_error_code(*self),
    {
        match self {
            ActionError::NetworkError(_) => "ACTION_NETWORK",
            ActionError::QueueFull(_) => "ACTION_QUEUE_FULL",
            ActionError::UserLimitExceeded(_) => "ACTION_USER_LIMIT",
            ActionError::Timeout(_) => "ACTION_TIMEOUT",
            ActionError::ConfigError(_) => "ACTION_CONFIG",
            ActionError::AuthError(_) => "ACTION_AUTH",
            ActionError::ResourceError(_) => "ACTION_RESOURCE",
            ActionError::CircuitOpen(_) => "ACTION_CIRCUIT_OPEN",
            ActionError::Cancelled => "ACTION_CANCELLED",
            ActionError::ClientGone => "ACTION_CLIENT_GONE",
        }
    }

    pub fn is_retryable(&self) -> (r: bool)
        ensures
            r == action_error_retryable(*self),
    {
        match self {
            ActionError::NetworkError(_) => true,
            ActionError::Timeout(_) => true,
            ActionError::QueueFull(_) => true,
            ActionError::CircuitOpen(_) => true,
            _ => false,
        }
    }

    /// The error in words.
    pub fn to_text(&self) -> (r: String)
        ensures
            r@ == action_error_text(*self),
    {
        match self {
            ActionError::NetworkError(m) => cat2("Network error: ", m),
            ActionError::QueueFull(m) => cat2("Queue full: ", m),
            ActionError::UserLimitExceeded(m) => cat2("User limit exceeded: ", m),
            ActionError::Timeout(m) => cat2("Timeout: ", m),
            ActionError::ConfigError(m) => cat2("Config error: ", m),
            ActionError::AuthError(m) => cat2("Auth error: ", m),
            ActionError::ResourceError(m) => cat2("Resource error: ", m),
            ActionError::CircuitOpen(m) => cat2("Circuit open: ", m),
            ActionError::Cancelled => "Cancelled".to_owned(),
            ActionError::ClientGone => {
                "Client disconnected before data could be delivered".to_owned()
            },
        }
    }
}

/// Result of evaluating a check action.
#[derive(Debug)]
pub enum CheckResult {
    /// The job may continue through the route.
    Pass,
    /// The route is rejected. A reason that is not silent is shown to the user when no route
    /// takes the job.
    Reject { reason: String, silent: bool },
}

/// Result of running a transform action.
#[derive(Debug)]
pub enum TransformResult {
    /// The job was updated and may continue through the route.
    Continue,
    /// The route is rejected.
    Reject { reason: String, silent: bool },
}

/// Result of dispatching a job to a terminal target.
#[derive(Debug)]
pub enum TargetResult {
    /// The target produced a final job result.
    Complete(JobResult),
    /// The target rejected the job without a system failure.
    Reject { reason: String, silent: bool },
}

/// Trying again may help exactly where the network, the time, a full queue or an open circuit stood
/// in the way.
pub proof fn law_passing_troubles_are_retryable(e: ActionError)
    ensures
        action_error_retryable(e) <==> match e {
            ActionError::NetworkError(_) => true,
            ActionError::Timeout(_) => true,
            ActionError::QueueFull(_) => true,
            ActionError::CircuitOpen(_) => true,
            ActionError::UserLimitExceeded(_) => false,
            ActionError::ConfigError(_) => false,
            ActionError::AuthError(_) => false,
            ActionError::ResourceError(_) => false,
            ActionError::Cancelled => false,
            ActionError::ClientGone => false,
        },
{
}

} // verus!
