//! Final outcomes of jobs.

use vstd::prelude::*;

use crate::text::{cat3, cat5, signed_decimal, signed_text};

verus! {

/// Names a response body that the transport layer keeps open.
#[derive(Debug, Clone, Copy, PartialEq, Eq, Structural)]
pub struct ByteStream {
    pub id: u64,
}

/// Final outcome produced by a routed job.
#[derive(Debug)]
pub enum JobResult {
    /// Job completed successfully with streaming data.
    Success { content_type: String, size: i64, stream: ByteStream },
    /// Job should be redirected to another location.
    Redirect {
        location: String,
        message: String,
        /// Content type of the object at `location`, when known.
        content_type: Option<String>,
        /// Byte length of the object at `location`, when known.
        content_length: Option<u64>,
    },
    /// Job-level error (invalid request, etc.).
    Error { message: String },
    /// System-level failure (routing failed, network error, etc.).
    Failed { reason: String },
    /// System is at capacity; the caller should retry later.
    Overloaded { reason: String },
    /// The caller is over a per-user admission limit on this route.
    RateLimited { reason: String },
    /// Job was cancelled before reaching a target.
    Cancelled,
    /// Job reached a target but the client was no longer there to receive the result.
    ClientGone,
}

/// A result in words.
pub open spec fn result_text(result: JobResult) -> Seq<char> {
    match result {
        JobResult::Success { content_type, size, .. } => "Success("@ + signed_text(size as int)
            + " bytes, "@ + content_type@ + ")"@,
        JobResult::Redirect { location, message, .. } => "Redirect("@ + location@ + ", "@ + message@
            + ")"@,
        JobResult::Error { message } => "Error("@ + message@ + ")"@,
        JobResult::Failed { reason } => "Failed("@ + reason@ + ")"@,
        JobResult::Overloaded { reason } => "Overloaded("@ + reason@ + ")"@,
        JobResult::RateLimited { reason } => "RateLimited("@ + reason@ + ")"@,
        JobResult::Cancelled => "Cancelled"@,
        JobResult::ClientGone => "ClientGone"@,
    }
}

impl JobResult {
    /// Whether the result carries a payload that the client must fetch.
    pub fn is_deliverable(&self) -> (r: bool)
        ensures
            r == (self is Success || self is Redirect),
    {
        match self {
            JobResult::Success { .. } => true,
            JobResult::Redirect { .. } => true,
            _ => false,
        }
    }

    /// The result in words, without the payload.
    pub fn to_text(&self) -> (r: String)
        ensures
            r@ == result_text(*self),
    {
        match self {
            JobResult::Success { content_type, size, .. } => {
                cat5("Success(", &signed_decimal(*size), " bytes, ", content_type, ")")
            },
            JobResult::Redirect { location, message, .. } => {
                cat5("Redirect(", location, ", ", message, ")")
            },
            JobResult::Error { message } => cat3("Error(", message, ")"),
            JobResult::Failed { reason } => cat3("Failed(", reason, ")"),
            JobResult::Overloaded { reason } => cat3("Overloaded(", reason, ")"),
            JobResult::RateLimited { reason } => cat3("RateLimited(", reason, ")"),
            JobResult::Cancelled => "Cancelled".to_owned(),
            JobResult::ClientGone => "ClientGone".to_owned(),
        }
    }
}

} // verus!
