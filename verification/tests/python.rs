//! What Python code sees, and what is made of what it returns.

use bits::actions::registry::ActionKind;
use bits::actions::{CheckResult, TargetResult, TransformResult};
use bits::bits::PollOutcome;
use bits::python::{
    check_returned, detect_kind, job_repr, job_result_payload, poll_outcome_payload,
    require_async_method, required_method, target_returned, transform_returned, PyBody,
    PyContinue, PyError, PyPass, PyRedirect, PyReject, PySuccess, Returned,
};
use bits::result::{ByteStream, JobResult};

#[test]
fn outcomes_print_themselves() {
    assert_eq!(PyPass.repr(), "Pass()");
    assert_eq!(PyContinue.repr(), "Continue()");
    assert_eq!(
        PyReject::new("no \"role\"".into(), false).repr(),
        r#"Reject("no \"role\"")"#
    );
    assert_eq!(
        PySuccess::new(PyBody::Bytes(vec![1, 2, 3]), None).repr(),
        "Success(3 bytes, application/octet-stream)"
    );
    assert_eq!(
        PyRedirect::new("http://x".into(), "go".into()).repr(),
        r#"Redirect("http://x")"#
    );
    assert_eq!(PyError::new("bad".into()).repr(), r#"Error("bad")"#);
    assert_eq!(job_repr("a\tb"), r#"Job(id="a\tb")"#);
}

#[test]
fn bodies_have_a_content_type() {
    let text = PySuccess::new(PyBody::Text(b"hi".to_vec()), None);
    assert_eq!(text.content_type, "text/plain; charset=utf-8");
    let given = PySuccess::new(PyBody::Text(b"hi".to_vec()), Some("text/html".into()));
    assert_eq!(given.content_type, "text/html");
    assert_eq!(given.body, b"hi");
    assert_eq!(
        PySuccess::json(b"{}".to_vec()).content_type,
        "application/json"
    );
}

#[test]
fn classes_have_exactly_one_kind() {
    assert_eq!(detect_kind(true, false, false), Ok(ActionKind::Check));
    assert_eq!(detect_kind(false, true, false), Ok(ActionKind::Transform));
    assert_eq!(detect_kind(false, false, true), Ok(ActionKind::Target));
    assert_eq!(
        detect_kind(false, false, false).unwrap_err(),
        "action class must subclass CheckAction, TransformAction, or TargetAction"
    );
    assert_eq!(
        detect_kind(true, false, true).unwrap_err(),
        "action class must subclass exactly one of CheckAction, TransformAction, TargetAction"
    );
    assert_eq!(required_method(ActionKind::Check), "evaluate");
    assert_eq!(required_method(ActionKind::Transform), "execute");
    assert_eq!(required_method(ActionKind::Target), "dispatch");
    assert!(require_async_method("evaluate", Some(true)).is_ok());
    assert_eq!(
        require_async_method("evaluate", None).unwrap_err(),
        "action class must define an async method 'evaluate'"
    );
    assert_eq!(
        require_async_method("evaluate", Some(false)).unwrap_err(),
        "action method 'evaluate' must be an async (coroutine) function"
    );
}

fn reject() -> Returned {
    Returned::Reject(PyReject::new("no".into(), true))
}

#[test]
fn returned_values_become_results() {
    let stream = ByteStream { id: 1 };
    assert!(matches!(
        check_returned(Returned::Pass),
        Ok(CheckResult::Pass)
    ));
    assert!(matches!(
        check_returned(reject()),
        Ok(CheckResult::Reject { silent: true, .. })
    ));
    assert_eq!(
        check_returned(Returned::Continue).unwrap_err().to_text(),
        "Config error: evaluate() must return Pass or Reject, got: Continue"
    );
    assert!(matches!(
        transform_returned(Returned::Continue),
        Ok(TransformResult::Continue)
    ));
    assert_eq!(
        transform_returned(Returned::Other {
            kind_name: "int".into()
        })
        .unwrap_err()
        .to_text(),
        "Config error: execute() must return Continue or Reject, got: int"
    );
    let success = PySuccess::new(PyBody::Bytes(vec![0; 5]), None);
    assert!(matches!(
        target_returned(Returned::Success(success), stream),
        Ok(TargetResult::Complete(JobResult::Success { size: 5, .. }))
    ));
    assert!(matches!(
        target_returned(
            Returned::Redirect(PyRedirect::new("l".into(), "m".into())),
            stream
        ),
        Ok(TargetResult::Complete(JobResult::Redirect { .. }))
    ));
    assert!(matches!(
        target_returned(Returned::Error(PyError::new("e".into())), stream),
        Ok(TargetResult::Complete(JobResult::Error { .. }))
    ));
    assert!(matches!(
        target_returned(reject(), stream),
        Ok(TargetResult::Reject { .. })
    ));
    assert_eq!(
        target_returned(Returned::Pass, stream).unwrap_err().to_text(),
        "Config error: dispatch() must return Success, Redirect, Error, or Reject, got: Pass"
    );
}

#[test]
fn payloads_tell_the_status() {
    let success = JobResult::Success {
        content_type: "a/b".into(),
        size: -1,
        stream: ByteStream { id: 0 },
    };
    assert_eq!(
        job_result_payload(&success).to_text(),
        r#"{"status":"success","content_type":"a/b","size":-1}"#
    );
    let redirect = JobResult::Redirect {
        location: "l".into(),
        message: "m".into(),
        content_type: None,
        content_length: Some(7),
    };
    assert_eq!(
        job_result_payload(&redirect).to_text(),
        r#"{"status":"redirect","location":"l","message":"m","content_length":7}"#
    );
    assert_eq!(
        poll_outcome_payload(&PollOutcome::Ready(JobResult::Failed { reason: "r".into() })).to_text(),
        r#"{"status":"ready","result":{"status":"failed","reason":"r"}}"#
    );
    assert_eq!(
        poll_outcome_payload(&PollOutcome::Pending { id: "i".into() }).to_text(),
        r#"{"status":"pending","id":"i"}"#
    );
    assert_eq!(
        poll_outcome_payload(&PollOutcome::NotFound).to_text(),
        r#"{"status":"not_found"}"#
    );
    assert_eq!(
        poll_outcome_payload(&PollOutcome::JobLost).to_text(),
        r#"{"status":"job_lost"}"#
    );
}
