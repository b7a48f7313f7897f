//! Routes and switches.

use bits::actions::{ActionError, CheckResult, TargetResult, TransformResult};
use bits::dispatcher::dispatch::{DispatchGuard, DispatchStep, Dispatcher, WorkStep};
use bits::dispatcher::plan::{DispatcherPlan, ExecutorKind, DEFAULT_QUEUE_CAPACITY};
use bits::dispatcher::queue::QueueKind;
use bits::job::Job;
use bits::json::parse_yaml;
use bits::result::JobResult;
use bits::routing::switch::{
    check_outcome, target_outcome, transform_outcome, Progress, StepOutcome, Switch, SwitchRun,
};
use bits::routing::{Action, Route, Step};

fn step(action_type: &str, silent: Option<bool>, dispatcher: Option<DispatcherPlan>) -> Step {
    Step {
        action_type: action_type.into(),
        config: parse_yaml("{}").unwrap(),
        dispatcher,
        silent,
        shared_as: None,
        descriptor: parse_yaml(&format!("{{name: {action_type}}}")).unwrap(),
    }
}

fn check(name: &str) -> Action {
    Action::Check(step(name, None, None))
}

fn target(name: &str) -> Action {
    Action::Target(step(name, None, None))
}

fn route(name: &str, actions: Vec<Action>) -> Route {
    Route::new(name.into(), actions)
}

fn new_job() -> Job {
    Job::new(parse_yaml("{}").unwrap(), 0)
}

fn dummy() -> Result<TargetResult, ActionError> {
    Ok(TargetResult::Complete(JobResult::Error {
        message: "dummy".into(),
    }))
}

fn rejected(reason: &str, silent: bool) -> StepOutcome {
    StepOutcome::Reject {
        reason: reason.into(),
        silent,
    }
}

fn running(progress: Progress) -> SwitchRun {
    match progress {
        Progress::Run(run) => run,
        Progress::Done(_) => panic!("expected another action"),
    }
}

fn done(progress: Progress) -> Result<TargetResult, ActionError> {
    match progress {
        Progress::Done(result) => result,
        Progress::Run(_) => panic!("expected the end"),
    }
}

/// Runs a switch to its end; each action gives what the caller says.
fn drive(
    switch: &Switch,
    outcome: &mut dyn FnMut(&Action) -> StepOutcome,
) -> Result<TargetResult, ActionError> {
    let mut run = switch.start(&new_job());
    loop {
        run = match switch.advance(run, false, true) {
            Progress::Done(result) => return result,
            Progress::Run(run) => run,
        };
        let given = outcome(switch.current(&run));
        run = match switch.resume(run, given) {
            Progress::Done(result) => return result,
            Progress::Run(run) => run,
        };
    }
}

fn name_of(action: &Action) -> String {
    match action {
        Action::Check(step) | Action::Transform(step) | Action::Target(step) => {
            step.action_type.clone()
        }
        Action::Switch(_) => "switch".into(),
    }
}

fn rejection(result: Result<TargetResult, ActionError>) -> (String, bool) {
    match result.unwrap() {
        TargetResult::Reject { reason, silent } => (reason, silent),
        TargetResult::Complete(_) => panic!("expected a rejection"),
    }
}

fn one_worker() -> DispatcherPlan {
    DispatcherPlan::from_config(
        Some(QueueKind::Fifo),
        Some(&ExecutorKind::AsyncPool {
            concurrency: Some(1),
        }),
        None,
        false,
        true,
        DEFAULT_QUEUE_CAPACITY,
    )
    .expect("dispatcher config should not error")
    .expect("dispatcher should be created")
}

#[test]
fn client_gone_before_target() {
    let switch = Switch::new(vec![route("default", vec![target("always_succeed")])]);

    // A new job has a reconnect window that is over and no pollers.
    let job = new_job();
    let run = switch.start(&job);
    let result = done(switch.advance(run, job.is_cancelled(), job.client_present(0)));
    assert!(matches!(result, Err(ActionError::ClientGone)));
}

#[test]
fn queued_target_rechecks_client_presence_before_execution() {
    let mut dispatcher = Dispatcher::new(one_worker()).unwrap();
    let switch = Switch::new(vec![route(
        "default",
        vec![Action::Target(step("counting", None, Some(one_worker())))],
    )]);

    // The only worker is busy with another job.
    let mut blocker = new_job();
    blocker.set_reconnect_deadline(5_000);
    dispatcher.dispatch(blocker, DispatchGuard::CancelledOrClientGone, 0);
    assert!(matches!(dispatcher.next_work(), WorkStep::Run { .. }));

    let mut job = new_job();
    job.set_reconnect_deadline(5_000);
    let run = switch.start(&job);
    let run = running(switch.advance(run, job.is_cancelled(), job.client_present(10)));
    assert!(matches!(
        dispatcher.dispatch(job.copy(), DispatchGuard::CancelledOrClientGone, 10),
        DispatchStep::Queued { .. }
    ));

    job.set_reconnect_deadline(20);

    let mut ran = 0;
    let outcome = match dispatcher.next_work() {
        WorkStep::Run { item, .. } => {
            match item.guard.check(job.is_cancelled(), job.client_present(20)) {
                Ok(()) => {
                    ran += 1;
                    target_outcome(dummy())
                }
                Err(e) => target_outcome(Err(e)),
            }
        }
        _ => panic!("expected work"),
    };
    let result = done(switch.resume(run, outcome));

    assert!(matches!(result, Err(ActionError::ClientGone)));
    assert_eq!(ran, 0);
}

#[test]
fn queued_check_rechecks_cancellation_before_execution() {
    let mut dispatcher = Dispatcher::new(one_worker()).unwrap();
    let switch = Switch::new(vec![route(
        "default",
        vec![
            Action::Check(step("counting", None, Some(one_worker()))),
            target("always_succeed"),
        ],
    )]);

    let mut job = new_job();
    job.set_reconnect_deadline(5_000);
    let run = switch.start(&job);
    let run = running(switch.advance(run, job.is_cancelled(), job.client_present(10)));
    dispatcher.dispatch(job.copy(), DispatchGuard::Cancelled, 10);

    job.cancelled = true;

    let mut ran = 0;
    let outcome = match dispatcher.next_work() {
        WorkStep::Run { item, .. } => {
            match item.guard.check(job.is_cancelled(), job.client_present(20)) {
                Ok(()) => {
                    ran += 1;
                    check_outcome(Ok(CheckResult::Pass))
                }
                Err(e) => check_outcome(Err(e)),
            }
        }
        _ => panic!("expected work"),
    };
    let result = done(switch.resume(run, outcome));

    assert!(matches!(result, Err(ActionError::Cancelled)));
    assert_eq!(ran, 0);
}

#[test]
fn cancelled_jobs_stop_before_the_next_action() {
    let switch = Switch::new(vec![route("r", vec![check("c"), target("t")])]);
    let run = running(switch.advance(switch.start(&new_job()), false, true));
    let run = running(switch.resume(run, check_outcome(Ok(CheckResult::Pass))));
    assert!(matches!(
        done(switch.advance(run, true, true)),
        Err(ActionError::Cancelled)
    ));
}

#[test]
fn the_first_route_that_decides_wins() {
    let switch = Switch::new(vec![
        route("a", vec![check("no"), target("never")]),
        route("b", vec![check("yes"), target("here")]),
        route("c", vec![target("too_late")]),
    ]);
    let mut seen = Vec::new();
    let result = drive(&switch, &mut |action| {
        let name = name_of(action);
        seen.push(name.clone());
        match name.as_str() {
            "no" => rejected("not this one", false),
            "yes" => StepOutcome::Proceed(None),
            _ => target_outcome(dummy()),
        }
    });
    assert!(matches!(
        result,
        Ok(TargetResult::Complete(JobResult::Error { .. }))
    ));
    assert_eq!(seen, vec!["no", "yes", "here"]);
}

#[test]
fn exhausted_switches_join_what_is_not_silent() {
    let switch = Switch::new(vec![
        route("a", vec![target("loud")]),
        route("b", vec![target("quiet")]),
        route("c", vec![target("loud_too")]),
    ]);
    let result = drive(&switch, &mut |action| match name_of(action).as_str() {
        "quiet" => rejected("hushed", true),
        other => rejected(other, false),
    });
    assert_eq!(rejection(result), ("loud; loud_too".to_string(), false));
    let hushed = drive(&switch, &mut |_| rejected("hushed", true));
    assert_eq!(
        rejection(hushed),
        ("no route matched the request".to_string(), true)
    );
    let empty = Switch::new(vec![]);
    assert_eq!(
        rejection(drive(&empty, &mut |_| StepOutcome::Proceed(None))),
        ("no route matched the request".to_string(), true)
    );
}

#[test]
fn silence_can_be_overridden() {
    let switch = Switch::new(vec![
        route("a", vec![Action::Target(step("t", Some(true), None))]),
        route("b", vec![Action::Target(step("u", Some(false), None))]),
    ]);
    let result = drive(&switch, &mut |action| rejected(&name_of(action), name_of(action) == "u"));
    assert_eq!(rejection(result), ("u".to_string(), false));
    assert_eq!(switch.routes[0].actions[0].silent_override(), Some(true));
}

#[test]
fn transforms_change_the_job_for_their_route_only() {
    let switch = Switch::new(vec![
        route(
            "a",
            vec![Action::Transform(step("set", None, None)), target("no")],
        ),
        route("b", vec![target("yes")]),
    ]);
    let run = running(switch.advance(switch.start(&new_job()), false, true));
    let mut changed = new_job();
    changed.request = parse_yaml("{set: 1}").unwrap();
    let run = running(switch.resume(
        run,
        transform_outcome(Ok(TransformResult::Continue), changed),
    ));
    let run = running(switch.advance(run, false, true));
    assert_eq!(run.frames[0].job.request.to_text(), r#"{"set":1}"#);
    let run = running(switch.resume(run, rejected("no", true)));
    let run = running(switch.advance(run, false, true));
    assert_eq!(name_of(switch.current(&run)), "yes");
    assert_eq!(run.frames[0].job.request.to_text(), "{}");
}

#[test]
fn nested_switches_reject_their_route() {
    let inner = Switch::new(vec![
        route("x", vec![target("first")]),
        route("y", vec![target("second")]),
    ]);
    let switch = Switch::new(vec![
        route("outer", vec![check("c"), Action::Switch(inner)]),
        route("last", vec![target("third")]),
    ]);
    let mut seen = Vec::new();
    let result = drive(&switch, &mut |action| {
        let name = name_of(action);
        seen.push(name.clone());
        if name == "c" {
            StepOutcome::Proceed(None)
        } else {
            rejected(&name, false)
        }
    });
    assert_eq!(seen, vec!["c", "first", "second", "third"]);
    assert_eq!(
        rejection(result),
        ("first; second; third".to_string(), false)
    );
}

#[test]
fn errors_end_the_switch() {
    let switch = Switch::new(vec![
        route("a", vec![target("fails")]),
        route("b", vec![target("never")]),
    ]);
    let result = drive(&switch, &mut |_| {
        target_outcome(Err(ActionError::NetworkError("down".into())))
    });
    assert!(matches!(result, Err(ActionError::NetworkError(_))));
}

#[test]
fn routes_must_end_where_they_should() {
    let told = |routes| Switch::new(routes).validate().unwrap_err().to_text();
    assert!(Switch::new(vec![route("r", vec![check("c"), target("t")])])
        .validate()
        .is_ok());
    assert_eq!(
        told(vec![route("r", vec![check("c")])]),
        "route 'r': must end with a target or switch"
    );
    let empty = told(vec![route("r", vec![])]);
    assert!(empty.contains("must not be empty"), "{empty}");
    let early = told(vec![route("r", vec![target("t"), check("c")])]);
    assert!(early.starts_with("route 'r'"), "{early}");
    let nested = told(vec![route(
        "outer",
        vec![Action::Switch(Switch::new(vec![route(
            "inner",
            vec![check("c")],
        )]))],
    )]);
    assert!(nested.contains("inner"), "{nested}");
}

#[test]
fn switches_describe_themselves() {
    let switch = Switch::new(vec![
        route("a", vec![check("c"), target("t")]),
        route("b", vec![target("u")]),
    ]);
    assert_eq!(switch.route_names(), vec!["a", "b"]);
    let words: Vec<String> = switch
        .describe_actions()
        .iter()
        .map(|d| d.to_text())
        .collect();
    assert_eq!(
        words,
        vec![r#"{"name":"c"}"#, r#"{"name":"t"}"#, r#"{"name":"u"}"#]
    );
    assert!(target("t").is_terminal());
    assert!(!check("c").is_terminal());
    assert_eq!(target("t").guard(), DispatchGuard::CancelledOrClientGone);
    assert_eq!(check("c").guard(), DispatchGuard::Cancelled);
}

#[test]
fn actions_get_the_job_of_the_route_they_stand_in() {
    let inner = Switch::new(vec![
        route(
            "x",
            vec![Action::Transform(step("inner_set", None, None)), target("x")],
        ),
        route("y", vec![target("y")]),
    ]);
    let switch = Switch::new(vec![
        route(
            "a",
            vec![
                Action::Transform(step("set", None, None)),
                Action::Switch(inner),
            ],
        ),
        route("b", vec![target("b")]),
    ]);
    let mut seen = Vec::new();
    let mut run = switch.start(&new_job());
    loop {
        run = match switch.advance(run, false, true) {
            Progress::Done(_) => break,
            Progress::Run(run) => run,
        };
        let name = name_of(switch.current(&run));
        let job = &run.frames[run.frames.len() - 1].job;
        seen.push(format!("{name} {}", job.request.to_text()));
        let given = if name.ends_with("set") {
            let mut changed = job.copy();
            changed.request = parse_yaml(&format!("{{by: {name}}}")).unwrap();
            transform_outcome(Ok(TransformResult::Continue), changed)
        } else {
            rejected(&name, true)
        };
        run = match switch.resume(run, given) {
            Progress::Done(_) => break,
            Progress::Run(run) => run,
        };
    }
    assert_eq!(
        seen,
        vec![
            "set {}",
            r#"inner_set {"by":"set"}"#,
            r#"x {"by":"inner_set"}"#,
            r#"y {"by":"set"}"#,
            "b {}",
        ]
    );
}
