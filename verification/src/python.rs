//! What Python code sees of the broker, and what the broker makes of what Python code returns.

use vstd::prelude::*;

use crate::actions::registry::ActionKind;
use crate::actions::{ActionError, CheckResult, TargetResult, TransformResult};
use crate::bits::PollOutcome;
use crate::db::keys::{format_text_debug, text_debug};
use crate::json::{member_trees, Json, Number, NumberValue, Tree};
use crate::result::{ByteStream, JobResult};
use crate::text::{cat2, cat3, cat5, decimal, decimal_text};

verus! {

// ---------------------------------------------------------------------------------------------
// Outcomes
// ---------------------------------------------------------------------------------------------

/// A check lets the job proceed.
#[derive(Debug)]
pub struct PyPass;

/// An action rejects the current route.
#[derive(Debug)]
pub struct PyReject {
    pub reason: String,
    pub silent: bool,
}

/// A transform lets the pipeline continue.
#[derive(Debug)]
pub struct PyContinue;

/// A target answers with a body.
#[derive(Debug)]
pub struct PySuccess {
    pub body: Vec<u8>,
    pub content_type: String,
}

/// A target redirects the client.
#[derive(Debug)]
pub struct PyRedirect {
    pub location: String,
    pub message: String,
}

/// A target reports an error of the job.
#[derive(Debug)]
pub struct PyError {
    pub message: String,
}

/// A body as Python code gives it.
#[derive(Debug)]
pub enum PyBody {
    Bytes(Vec<u8>),
    /// Text in its UTF-8 encoding.
    Text(Vec<u8>),
}

impl PyPass {
    pub fn repr(&self) -> (r: &'static str)
        ensures
            r@ == "Pass()"@,
    {
        "Pass()"
    }
}

impl PyContinue {
    pub fn repr(&self) -> (r: &'static str)
        ensures
            r@ == "Continue()"@,
    {
        "Continue()"
    }
}

impl PyReject {
    /// A rejection. One that is silent is not shown to the user.
    pub fn new(reason: String, silent: bool) -> (r: PyReject)
        ensures
            r.reason == reason,
            r.silent == silent,
    {
        PyReject { reason, silent }
    }

    pub fn repr(&self) -> (r: String)
        ensures
            r@ == "Reject("@ + text_debug(self.reason@) + ")"@,
    {
        cat3("Reject(", &format_text_debug(&self.reason), ")")
    }
}

impl PySuccess {
    /// A body with its content type, which follows from the body where none is given.
    pub fn new(body: PyBody, content_type: Option<String>) -> (r: PySuccess)
        ensures
            r.body == match body {
                PyBody::Bytes(raw) => raw,
                PyBody::Text(raw) => raw,
            },
            r.content_type@ == match content_type {
                Some(kind) => kind@,
                None => match body {
                    PyBody::Bytes(_) => "application/octet-stream"@,
                    PyBody::Text(_) => "text/plain; charset=utf-8"@,
                },
            },
    {
        let (body, default_type) = match body {
            PyBody::Bytes(raw) => (raw, "application/octet-stream"),
            PyBody::Text(raw) => (raw, "text/plain; charset=utf-8"),
        };
        let content_type = match content_type {
            Some(kind) => kind,
            None => default_type.to_owned(),
        };
        PySuccess { body, content_type }
    }

    /// A body that holds a JSON text.
    pub fn json(body: Vec<u8>) -> (r: PySuccess)
        ensures
            r.body == body,
            r.content_type@ == "application/json"@,
    {
        PySuccess { body, content_type: "application/json".to_owned() }
    }

    pub fn repr(&self) -> (r: String)
        ensures
            r@ == "Success("@ + decimal_text(self.body@.len()) + " bytes, "@ + self.content_type@
                + ")"@,
    {
        cat5(
            "Success(",
            &decimal(self.body.len() as u64),
            " bytes, ",
            &self.content_type,
            ")",
        )
    }
}

impl PyRedirect {
    pub fn new(location: String, message: String) -> (r: PyRedirect)
        ensures
            r.location == location,
            r.message == message,
    {
        PyRedirect { location, message }
    }

    pub fn repr(&self) -> (r: String)
        ensures
            r@ == "Redirect("@ + text_debug(self.location@) + ")"@,
    {
        cat3("Redirect(", &format_text_debug(&self.location), ")")
    }
}

impl PyError {
    pub fn new(message: String) -> (r: PyError)
        ensures
            r.message == message,
    {
        PyError { message }
    }

    pub fn repr(&self) -> (r: String)
        ensures
            r@ == "Error("@ + text_debug(self.message@) + ")"@,
    {
        cat3("Error(", &format_text_debug(&self.message), ")")
    }
}

/// A job in words.
pub fn job_repr(id: &str) -> (r: String)
    ensures
        r@ == "Job(id="@ + text_debug(id@) + ")"@,
{
    cat3("Job(id=", &format_text_debug(id), ")")
}

// ---------------------------------------------------------------------------------------------
// Action classes
// ---------------------------------------------------------------------------------------------

/// The kind of an action class, by the base classes that it has. It must have exactly one.
pub fn detect_kind(is_check: bool, is_transform: bool, is_target: bool) -> (r: Result<
    ActionKind,
    String,
>)
    ensures
        match r {
            Ok(ActionKind::Check) => is_check && !is_transform && !is_target,
            Ok(ActionKind::Transform) => !is_check && is_transform && !is_target,
            Ok(ActionKind::Target) => !is_check && !is_transform && is_target,
            Err(words) => if !is_check && !is_transform && !is_target {
                words@
                    == "action class must subclass CheckAction, TransformAction, or TargetAction"@
            } else {
                ((is_check && is_transform) || (is_check && is_target) || (is_transform
                    && is_target)) && words@
                    == "action class must subclass exactly one of CheckAction, TransformAction, TargetAction"@
            },
        },
{
    if is_check && !is_transform && !is_target {
        Ok(ActionKind::Check)
    } else if !is_check && is_transform && !is_target {
        Ok(ActionKind::Transform)
    } else if !is_check && !is_transform && is_target {
        Ok(ActionKind::Target)
    } else if !is_check && !is_transform && !is_target {
        Err("action class must subclass CheckAction, TransformAction, or TargetAction".to_owned())
    } else {
        Err(
            "action class must subclass exactly one of CheckAction, TransformAction, TargetAction".to_owned(),
        )
    }
}

/// The method that a class of a kind must have.
pub open spec fn method_of(kind: ActionKind) -> Seq<char> {
    match kind {
        ActionKind::Check => "evaluate"@,
        ActionKind::Transform => "execute"@,
        ActionKind::Target => "dispatch"@,
    }
}

/// The method that a class of a kind must have.
pub fn required_method(kind: ActionKind) -> (r: &'static str)
    ensures
        r@ == method_of(kind),
{
    match kind {
        ActionKind::Check => "evaluate",
        ActionKind::Transform => "execute",
        ActionKind::Target => "dispatch",
    }
}

/// Judges a method of a class: it must be there, and be a coroutine function. `None` stands for a
/// method that is not there.
pub fn require_async_method(method_name: &str, coroutine: Option<bool>) -> (r: Result<(), String>)
    ensures
        match r {
            Ok(()) => coroutine == Some(true),
            Err(words) => if coroutine is None {
                words@ == "action class must define an async method '"@ + method_name@ + "'"@
            } else {
                coroutine == Some(false) && words@ == "action method '"@ + method_name@
                    + "' must be an async (coroutine) function"@
            },
        },
{
    match coroutine {
        None => Err(cat3("action class must define an async method '", method_name, "'")),
        Some(false) => Err(
            cat3("action method '", method_name, "' must be an async (coroutine) function"),
        ),
        Some(true) => Ok(()),
    }
}

/// What a method of an action class returned.
#[derive(Debug)]
pub enum Returned {
    Pass,
    Continue,
    Reject(PyReject),
    Success(PySuccess),
    Redirect(PyRedirect),
    Error(PyError),
    /// Something else, of a type with this name.
    Other { kind_name: String },
}

/// The name of the type of what a method returned.
pub open spec fn returned_name(returned: Returned) -> Seq<char> {
    match returned {
        Returned::Pass => "Pass"@,
        Returned::Continue => "Continue"@,
        Returned::Reject(_) => "Reject"@,
        Returned::Success(_) => "Success"@,
        Returned::Redirect(_) => "Redirect"@,
        Returned::Error(_) => "Error"@,
        Returned::Other { kind_name } => kind_name@,
    }
}

impl Returned {
    /// The name of the type of what a method returned.
    pub fn name(&self) -> (r: String)
        ensures
            r@ == returned_name(*self),
    {
        match self {
            Returned::Pass => "Pass".to_owned(),
            Returned::Continue => "Continue".to_owned(),
            Returned::Reject(_) => "Reject".to_owned(),
            Returned::Success(_) => "Success".to_owned(),
            Returned::Redirect(_) => "Redirect".to_owned(),
            Returned::Error(_) => "Error".to_owned(),
            Returned::Other { kind_name } => kind_name.clone(),
        }
    }
}

/// What a check came to.
pub fn check_returned(returned: Returned) -> (r: Result<CheckResult, ActionError>)
    ensures
        match returned {
            Returned::Pass => r matches Ok(CheckResult::Pass),
            Returned::Reject(reject) => r matches Ok(CheckResult::Reject { reason, silent })
                && reason == reject.reason && silent == reject.silent,
            _ => r matches Err(ActionError::ConfigError(m)) && m@
                == "evaluate() must return Pass or Reject, got: "@ + returned_name(returned),
        },
{
    match returned {
        Returned::Pass => Ok(CheckResult::Pass),
        Returned::Reject(reject) => Ok(
            CheckResult::Reject { reason: reject.reason, silent: reject.silent },
        ),
        other => Err(
            ActionError::ConfigError(
                cat2("evaluate() must return Pass or Reject, got: ", &other.name()),
            ),
        ),
    }
}

/// What a transform came to.
pub fn transform_returned(returned: Returned) -> (r: Result<TransformResult, ActionError>)
    ensures
        match returned {
            Returned::Continue => r matches Ok(TransformResult::Continue),
            Returned::Reject(reject) => r matches Ok(TransformResult::Reject { reason, silent })
                && reason == reject.reason && silent == reject.silent,
            _ => r matches Err(ActionError::ConfigError(m)) && m@
                == "execute() must return Continue or Reject, got: "@ + returned_name(returned),
        },
{
    match returned {
        Returned::Continue => Ok(TransformResult::Continue),
        Returned::Reject(reject) => Ok(
            TransformResult::Reject { reason: reject.reason, silent: reject.silent },
        ),
        other => Err(
            ActionError::ConfigError(
                cat2("execute() must return Continue or Reject, got: ", &other.name()),
            ),
        ),
    }
}

/// What a target came to. A body is streamed under the number that it was given.
pub fn target_returned(returned: Returned, stream: ByteStream) -> (r: Result<
    TargetResult,
    ActionError,
>)
    ensures
        match returned {
            Returned::Success(success) => r matches Ok(TargetResult::Complete(
                JobResult::Success { content_type, size, stream: body },
            )) && content_type == success.content_type && size == success.body@.len() as i64
                && body == stream,
            Returned::Redirect(redirect) => r matches Ok(TargetResult::Complete(
                JobResult::Redirect { location, message, content_type: kind, content_length: len },
            )) && location == redirect.location && message == redirect.message && kind is None
                && len is None,
            Returned::Error(error) => r matches Ok(TargetResult::Complete(
                JobResult::Error { message },
            )) && message == error.message,
            Returned::Reject(reject) => r matches Ok(TargetResult::Reject { reason, silent })
                && reason == reject.reason && silent == reject.silent,
            _ => r matches Err(ActionError::ConfigError(m)) && m@
                == "dispatch() must return Success, Redirect, Error, or Reject, got: "@
                + returned_name(returned),
        },
{
    match returned {
        Returned::Success(success) => {
            let size: i64 = success.body.len() as i64;
            Ok(
                TargetResult::Complete(
                    JobResult::Success { content_type: success.content_type, size, stream },
                ),
            )
        },
        Returned::Redirect(redirect) => Ok(
            TargetResult::Complete(
                JobResult::Redirect {
                    location: redirect.location,
                    message: redirect.message,
                    content_type: None,
                    content_length: None,
                },
            ),
        ),
        Returned::Error(error) => Ok(
            TargetResult::Complete(JobResult::Error { message: error.message }),
        ),
        Returned::Reject(reject) => Ok(
            TargetResult::Reject { reason: reject.reason, silent: reject.silent },
        ),
        other => Err(
            ActionError::ConfigError(
                cat2(
                    "dispatch() must return Success, Redirect, Error, or Reject, got: ",
                    &other.name(),
                ),
            ),
        ),
    }
}

// ---------------------------------------------------------------------------------------------
// Payloads
// ---------------------------------------------------------------------------------------------

/// A member of a payload.
pub open spec fn field(key: Seq<char>, value: Tree) -> (Seq<char>, Tree) {
    (key, value)
}

/// A whole number as a value.
pub open spec fn whole(n: i64) -> Tree {
    if n >= 0 {
        Tree::Number(NumberValue::Unsigned(n as u64))
    } else {
        Tree::Number(NumberValue::Negative(n))
    }
}

/// A member that is there if it is known.
pub open spec fn known_text(key: Seq<char>, value: Option<String>) -> Seq<(Seq<char>, Tree)> {
    match value {
        Some(value) => seq![field(key, Tree::Str(value@))],
        None => Seq::empty(),
    }
}

/// A member that is there if it is known.
pub open spec fn known_number(key: Seq<char>, value: Option<u64>) -> Seq<(Seq<char>, Tree)> {
    match value {
        Some(value) => seq![field(key, Tree::Number(NumberValue::Unsigned(value)))],
        None => Seq::empty(),
    }
}

/// A result as Python code sees it, but for the body of a success.
pub open spec fn result_payload(result: JobResult) -> Seq<(Seq<char>, Tree)> {
    match result {
        JobResult::Success { content_type, size, .. } => seq![
            field("status"@, Tree::Str("success"@)),
            field("content_type"@, Tree::Str(content_type@)),
            field("size"@, whole(size)),
        ],
        JobResult::Redirect { location, message, content_type, content_length } => seq![
            field("status"@, Tree::Str("redirect"@)),
            field("location"@, Tree::Str(location@)),
            field("message"@, Tree::Str(message@)),
        ] + known_text("content_type"@, content_type) + known_number(
            "content_length"@,
            content_length,
        ),
        JobResult::Error { message } => seq![
            field("status"@, Tree::Str("error"@)),
            field("message"@, Tree::Str(message@)),
        ],
        JobResult::Failed { reason } => seq![
            field("status"@, Tree::Str("failed"@)),
            field("reason"@, Tree::Str(reason@)),
        ],
        JobResult::Overloaded { reason } => seq![
            field("status"@, Tree::Str("overloaded"@)),
            field("reason"@, Tree::Str(reason@)),
        ],
        JobResult::RateLimited { reason } => seq![
            field("status"@, Tree::Str("rate_limited"@)),
            field("reason"@, Tree::Str(reason@)),
        ],
        JobResult::Cancelled => seq![field("status"@, Tree::Str("cancelled"@))],
        JobResult::ClientGone => seq![field("status"@, Tree::Str("client_gone"@))],
    }
}

/// The outcome of a poll as Python code sees it.
pub open spec fn outcome_payload(outcome: PollOutcome) -> Seq<(Seq<char>, Tree)> {
    match outcome {
        PollOutcome::Ready(result) => seq![
            field("status"@, Tree::Str("ready"@)),
            field("result"@, Tree::Obj(result_payload(result))),
        ],
        PollOutcome::Pending { id } => seq![
            field("status"@, Tree::Str("pending"@)),
            field("id"@, Tree::Str(id@)),
        ],
        PollOutcome::NotFound => seq![field("status"@, Tree::Str("not_found"@))],
        PollOutcome::JobLost => seq![field("status"@, Tree::Str("job_lost"@))],
    }
}

fn add_field(members: &mut Vec<(String, Json)>, key: &str, value: Json)
    ensures
        member_trees(final(members)@) == member_trees(old(members)@).push(field(key@, value@)),
{
    let ghost before = members@;
    members.push((key.to_owned(), value));
    assert(members@.drop_last() =~= before);
}

fn add_text(members: &mut Vec<(String, Json)>, key: &str, value: &str)
    ensures
        member_trees(final(members)@) == member_trees(old(members)@).push(
            field(key@, Tree::Str(value@)),
        ),
{
    add_field(members, key, Json::Str(value.to_owned()));
}

fn started(status: &str) -> (members: Vec<(String, Json)>)
    ensures
        member_trees(members@) == seq![field("status"@, Tree::Str(status@))],
{
    let mut members: Vec<(String, Json)> = Vec::new();
    assert(member_trees(members@) =~= Seq::<(Seq<char>, Tree)>::empty());
    add_text(&mut members, "status", status);
    assert(member_trees(members@) =~= seq![field("status"@, Tree::Str(status@))]);
    members
}

/// A result as Python code sees it. The body of a success is added where it is read.
pub fn job_result_payload(result: &JobResult) -> (r: Json)
    ensures
        r@ == Tree::Obj(result_payload(*result)),
{
    let members: Vec<(String, Json)> = match result {
        JobResult::Success { content_type, size, .. } => {
            let mut members = started("success");
            add_text(&mut members, "content_type", content_type);
            let size_value = if *size >= 0 {
                Json::Number(Number::Unsigned(*size as u64))
            } else {
                Json::Number(Number::Negative(*size))
            };
            add_field(&mut members, "size", size_value);
            assert(member_trees(members@) =~= result_payload(*result));
            members
        },
        JobResult::Redirect { location, message, content_type, content_length } => {
            let mut members = started("redirect");
            add_text(&mut members, "location", location);
            add_text(&mut members, "message", message);
            match content_type {
                Some(kind) => {
                    add_text(&mut members, "content_type", kind);
                },
                None => {},
            }
            match content_length {
                Some(len) => {
                    add_field(
                        &mut members,
                        "content_length",
                        Json::Number(Number::Unsigned(*len)),
                    );
                },
                None => {},
            }
            assert(member_trees(members@) =~= result_payload(*result));
            members
        },
        JobResult::Error { message } => {
            let mut members = started("error");
            add_text(&mut members, "message", message);
            assert(member_trees(members@) =~= result_payload(*result));
            members
        },
        JobResult::Failed { reason } => {
            let mut members = started("failed");
            add_text(&mut members, "reason", reason);
            assert(member_trees(members@) =~= result_payload(*result));
            members
        },
        JobResult::Overloaded { reason } => {
            let mut members = started("overloaded");
            add_text(&mut members, "reason", reason);
            assert(member_trees(members@) =~= result_payload(*result));
            members
        },
        JobResult::RateLimited { reason } => {
            let mut members = started("rate_limited");
            add_text(&mut members, "reason", reason);
            assert(member_trees(members@) =~= result_payload(*result));
            members
        },
        JobResult::Cancelled => started("cancelled"),
        JobResult::ClientGone => started("client_gone"),
    };
    Json::Object(members)
}

/// The outcome of a poll as Python code sees it.
pub fn poll_outcome_payload(outcome: &PollOutcome) -> (r: Json)
    ensures
        r@ == Tree::Obj(outcome_payload(*outcome)),
{
    let members: Vec<(String, Json)> = match outcome {
        PollOutcome::Ready(result) => {
            let mut members = started("ready");
            add_field(&mut members, "result", job_result_payload(result));
            assert(member_trees(members@) =~= outcome_payload(*outcome));
            members
        },
        PollOutcome::Pending { id } => {
            let mut members = started("pending");
            add_text(&mut members, "id", id);
            assert(member_trees(members@) =~= outcome_payload(*outcome));
            members
        },
        PollOutcome::NotFound => started("not_found"),
        PollOutcome::JobLost => started("job_lost"),
    };
    Json::Object(members)
}

/// Every result tells its kind first, each kind in a word of its own, and carries what belongs to
/// it under the names that Python code knows.
pub proof fn law_results_tell_their_kind(result: JobResult)
    ensures
        ({
            let told = result_payload(result);
            let status = |word: Seq<char>| told.len() > 0 && told[0] == ("status"@, Tree::Str(word));
            match result {
                JobResult::Success { content_type, size, .. } => {
                    &&& status("success"@) && told.len() == 3
                    &&& told[1] == ("content_type"@, Tree::Str(content_type@))
                    &&& told[2].0 == "size"@
                    &&& size >= 0 ==> told[2].1 == Tree::Number(NumberValue::Unsigned(size as u64))
                    &&& size < 0 ==> told[2].1 == Tree::Number(NumberValue::Negative(size))
                },
                JobResult::Redirect { location, message, content_type, content_length } => {
                    &&& status("redirect"@)
                    &&& told[1] == ("location"@, Tree::Str(location@))
                    &&& told[2] == ("message"@, Tree::Str(message@))
                    &&& told.len() == 3 + (if content_type is Some {
                        1int
                    } else {
                        0int
                    }) + (if content_length is Some {
                        1int
                    } else {
                        0int
                    })
                    &&& content_type matches Some(kind) ==> told[3] == (
                        "content_type"@,
                        Tree::Str(kind@),
                    )
                    &&& content_length matches Some(n) ==> told.last() == (
                        "content_length"@,
                        Tree::Number(NumberValue::Unsigned(n)),
                    )
                },
                JobResult::Error { message } => status("error"@) && told.len() == 2 && told[1] == (
                    "message"@,
                    Tree::Str(message@),
                ),
                JobResult::Failed { reason } => status("failed"@) && told.len() == 2 && told[1] == (
                    "reason"@,
                    Tree::Str(reason@),
                ),
                JobResult::Overloaded { reason } => status("overloaded"@) && told.len() == 2
                    && told[1] == ("reason"@, Tree::Str(reason@)),
                JobResult::RateLimited { reason } => status("rate_limited"@) && told.len() == 2
                    && told[1] == ("reason"@, Tree::Str(reason@)),
                JobResult::Cancelled => status("cancelled"@) && told.len() == 1,
                JobResult::ClientGone => status("client_gone"@) && told.len() == 1,
            }
        }),
{
}

/// The outcome of a poll tells whether there is a result, and then carries it, or the identifier to
/// come back with.
pub proof fn law_polls_tell_what_came_of_them(outcome: PollOutcome)
    ensures
        ({
            let told = outcome_payload(outcome);
            &&& told.len() > 0 && told[0].0 == "status"@
            &&& match outcome {
                PollOutcome::Ready(result) => told[0].1 == Tree::Str("ready"@) && told.len() == 2
                    && told[1] == ("result"@, Tree::Obj(result_payload(result))),
                PollOutcome::Pending { id } => told[0].1 == Tree::Str("pending"@) && told.len() == 2
                    && told[1] == ("id"@, Tree::Str(id@)),
                PollOutcome::NotFound => told[0].1 == Tree::Str("not_found"@) && told.len() == 1,
                PollOutcome::JobLost => told[0].1 == Tree::Str("job_lost"@) && told.len() == 1,
            }
        }),
{
}

} // verus!
