//! The catalogue of actions and the targets that come with the library.

use bits::actions::check_hasrole::HasRole;
use bits::actions::registry::{ActionCatalog, ActionKind, RuntimeAction};
use bits::actions::target_http::{
    reply_result, wants_text, HttpTarget, DEFAULT_TARGET_TIMEOUT_SECS,
};
use bits::actions::target_remote::RemoteTarget;
use bits::actions::{ActionError, CheckResult, TargetResult};
use bits::job::Job;
use bits::json::{parse_yaml, Json, Number};
use bits::result::{ByteStream, JobResult};
use bits::time::Span;

fn json(text: &str) -> Json {
    parse_yaml(text).unwrap()
}

fn runtime_check(name: &str) -> RuntimeAction {
    RuntimeAction {
        name: name.to_string(),
        kind: ActionKind::Check,
        descriptor: json("{}"),
    }
}

#[test]
fn test_builtin_actions_registered() {
    let actions = ActionCatalog::builtin().list_actions();
    assert!(actions.contains(&"http".to_string()));
    assert!(actions.contains(&"remote".to_string()));
}

#[test]
fn test_create_http_action() {
    let config = json(r#"{"url": "http://localhost:8080"}"#);
    let action = ActionCatalog::builtin()
        .create_action("http", &config)
        .unwrap();
    assert_eq!(action.kind, ActionKind::Target);
}

#[test]
fn test_unknown_action_errors_with_available_list() {
    let result = ActionCatalog::builtin().create_action("nonexistent", &json("{}"));
    match &result {
        Err(ActionError::ConfigError(msg)) => {
            assert!(msg.contains("Unknown action: 'nonexistent'"), "{msg}");
            assert!(msg.contains("Available actions:"), "{msg}");
            assert!(msg.contains("http"), "should list built-in actions: {msg}");
        }
        _ => panic!("expected ConfigError"),
    }
}

#[test]
fn test_runtime_registration_and_lookup() {
    let mut catalog = ActionCatalog::builtin();
    let name = "test_runtime_always_pass_9f3a";
    catalog
        .register_runtime_action(runtime_check(name))
        .expect("registration should succeed");

    let action = catalog
        .create_action(name, &json("{}"))
        .expect("should find runtime action");
    assert_eq!(action.kind, ActionKind::Check);

    assert!(catalog.list_actions().contains(&name.to_string()));
}

#[test]
fn test_runtime_duplicate_registration_fails() {
    let mut catalog = ActionCatalog::builtin();
    let name = "test_runtime_dup_8b2c";
    catalog
        .register_runtime_action(runtime_check(name))
        .expect("first registration should succeed");
    let err = catalog
        .register_runtime_action(runtime_check(name))
        .expect_err("second registration should fail");
    assert!(matches!(err, ActionError::ConfigError(_)));
}

#[test]
fn test_runtime_builtin_conflict_fails() {
    let err = ActionCatalog::builtin()
        .register_runtime_action(runtime_check("http"))
        .expect_err("should fail: conflicts with builtin");
    assert!(matches!(err, ActionError::ConfigError(_)));
}

#[test]
fn registry_test_builtin_actions_registered() {
    let actions = ActionCatalog::builtin().list_actions();
    assert!(actions.contains(&"has_role".to_string()));
    assert!(actions.contains(&"http".to_string()));
}

#[test]
fn test_create_has_role_action() {
    let config = json(r#"{"role": "admin"}"#);
    let action = ActionCatalog::builtin()
        .create_action("has_role", &config)
        .unwrap();
    assert_eq!(action.kind, ActionKind::Check);
}

#[test]
fn test_unknown_action_errors() {
    let result = ActionCatalog::builtin().create_action("nonexistent", &json("{}"));
    assert!(matches!(result, Err(ActionError::ConfigError(_))));
}

#[test]
fn registry_test_runtime_registration_and_lookup() {
    let mut catalog = ActionCatalog::builtin();
    let name = "test_runtime_always_pass_9f3a";
    catalog
        .register_runtime_action(runtime_check(name))
        .expect("registration should succeed");
    let action = catalog
        .create_action(name, &json("{}"))
        .expect("should find runtime action");
    assert_eq!(action.kind, ActionKind::Check);
    assert!(catalog.list_actions().contains(&name.to_string()));
}

#[test]
fn registry_test_runtime_duplicate_registration_fails() {
    let mut catalog = ActionCatalog::builtin();
    let name = "test_runtime_dup_8b2c";
    catalog
        .register_runtime_action(runtime_check(name))
        .expect("first registration should succeed");
    let err = catalog
        .register_runtime_action(runtime_check(name))
        .expect_err("second registration should fail");
    assert!(matches!(err, ActionError::ConfigError(_)));
}

#[test]
fn registry_test_runtime_builtin_conflict_fails() {
    let err = ActionCatalog::builtin()
        .register_runtime_action(runtime_check("has_role"))
        .expect_err("should fail: conflicts with builtin");
    assert!(matches!(err, ActionError::ConfigError(_)));
}

#[test]
fn the_weather_catalogue_has_checks_and_a_transform() {
    let catalog = ActionCatalog::ecmwf();
    let kind = |name: &str, config: &str| catalog.create_action(name, &json(config)).unwrap().kind;
    assert_eq!(kind("match", "{class: od}"), ActionKind::Check);
    assert_eq!(kind("has_license", "{license: x}"), ActionKind::Check);
    assert_eq!(kind("date_checker", "{allowed_values: []}"), ActionKind::Check);
    assert_eq!(kind("has_key", "{key: date}"), ActionKind::Check);
    assert_eq!(kind("schedule_released", "{path: p}"), ActionKind::Check);
    assert_eq!(kind("has_role", "{roles: {ecmwf: [a]}}"), ActionKind::Check);
    assert_eq!(
        kind("metkit_expansion", "{expand_parameters: true}"),
        ActionKind::Transform
    );
    assert!(catalog.create_action("has_role", &json("{role: a}")).is_err());
}

#[test]
fn defaults_applied_when_timeout_fields_omitted() {
    let target = HttpTarget::from_config(&json(r#"{"url": "http://x"}"#)).unwrap();
    let default = Number::Unsigned(DEFAULT_TARGET_TIMEOUT_SECS);
    assert!(target.connect_timeout_secs.same(&default));
    assert!(target.read_timeout_secs.same(&default));
    assert_eq!(target.connect_timeout(), Some(Span { secs: 30, nanos: 0 }));
}

#[test]
fn custom_timeout_values_accepted() {
    let target = HttpTarget::from_config(&json(
        r#"{"url": "http://x", "connect_timeout_secs": 5.0, "read_timeout_secs": 120.0}"#,
    ))
    .unwrap();
    assert_eq!(target.connect_timeout_secs.to_text(), "5.0");
    assert_eq!(target.read_timeout_secs.to_text(), "120.0");
    assert_eq!(target.connect_timeout(), Some(Span { secs: 5, nanos: 0 }));
    assert_eq!(target.read_timeout(), Some(Span { secs: 120, nanos: 0 }));
}

#[test]
fn negative_timeout_rejected() {
    let result =
        HttpTarget::from_config(&json(r#"{"url": "http://x", "connect_timeout_secs": -1.0}"#));
    assert!(result.is_err());
}

#[test]
fn zero_timeout_rejected() {
    let result = HttpTarget::from_config(&json(r#"{"url": "http://x", "read_timeout_secs": 0.0}"#));
    assert!(result.is_err());
}

#[test]
fn unknown_field_rejected() {
    let result = HttpTarget::from_config(&json(r#"{"url": "http://x", "read_timeout_sec": 10.0}"#));
    assert!(result.is_err());
}

#[test]
fn timeouts_that_no_duration_can_hold_are_rejected() {
    let result = HttpTarget::from_config(&json(r#"{"url": "http://x", "read_timeout_secs": 1e30}"#));
    assert!(result.is_err());
    assert!(HttpTarget::from_config(&json("{}")).is_err());
}

fn reply(
    status: u16,
    content_type: Option<&str>,
    length: Option<u64>,
    text: Option<&str>,
) -> Result<TargetResult, ActionError> {
    reply_result(
        "http://x/",
        status,
        content_type.map(String::from),
        length,
        ByteStream { id: 4 },
        text.map(String::from),
    )
}

#[test]
fn test_2xx_maps_to_complete() {
    let result = reply(200, Some("application/json"), Some(12), None).unwrap();
    match result {
        TargetResult::Complete(JobResult::Success {
            content_type, size, ..
        }) => {
            assert_eq!(content_type, "application/json");
            assert_eq!(size, 12);
        }
        _ => panic!("expected Complete(Success)"),
    }
}

#[test]
fn test_4xx_maps_to_reject() {
    assert!(wants_text(422));
    let result = reply(422, None, None, Some("unknown class")).unwrap();
    match result {
        TargetResult::Reject { reason, .. } => assert_eq!(reason, "unknown class"),
        _ => panic!("expected Reject"),
    }
}

#[test]
fn test_5xx_maps_to_network_error() {
    assert!(!wants_text(500));
    let result = reply(500, None, None, None);
    assert!(matches!(result, Err(ActionError::NetworkError(_))));
}

#[test]
fn replies_without_words_are_told_by_their_status() {
    match reply(204, None, None, None).unwrap() {
        TargetResult::Complete(JobResult::Success {
            content_type,
            size,
            stream,
        }) => {
            assert_eq!(content_type, "application/octet-stream");
            assert_eq!(size, -1);
            assert_eq!(stream, ByteStream { id: 4 });
        }
        _ => panic!("expected Complete(Success)"),
    }
    match reply(404, None, None, None).unwrap() {
        TargetResult::Reject { reason, silent } => {
            assert_eq!(reason, "404 Not Found");
            assert!(silent);
        }
        _ => panic!("expected Reject"),
    }
    assert_eq!(
        reply(503, None, None, None).unwrap_err().to_text(),
        "Network error: HTTP 503 Service Unavailable from http://x/"
    );
    assert_eq!(
        reply(302, None, None, None).unwrap_err().to_text(),
        "Network error: HTTP 302 Found from http://x/"
    );
}

#[test]
fn remote_targets_leave_the_work_to_workers() {
    let target = RemoteTarget::from_config(&json("{}")).unwrap();
    assert!(RemoteTarget::from_config(&Json::Null).is_ok());
    assert!(RemoteTarget::from_config(&json("{a: 1}")).is_err());
    assert_eq!(
        target
            .dispatch(&Job::new(json("{}"), 0))
            .unwrap_err()
            .to_text(),
        "Config error: 'remote' target must be paired with 'executor: remote_pool'"
    );
}

#[test]
fn roles_in_the_metadata_decide() {
    let check = HasRole::from_config(&json("{role: admin}")).unwrap();
    let mut job = Job::new(json("{}"), 0);
    let told = |job: &Job| match check.evaluate(job).unwrap() {
        CheckResult::Pass => "pass".to_string(),
        CheckResult::Reject { reason, silent } => {
            assert!(!silent);
            reason
        }
    };
    assert_eq!(told(&job), "no roles field found");
    job.metadata = json("{roles: [1, viewer]}");
    assert_eq!(told(&job), "role 'admin' not found");
    job.metadata = json("{roles: [viewer, admin]}");
    assert_eq!(told(&job), "pass");
}

#[test]
fn action_errors_have_codes_and_words() {
    let all = vec![
        (ActionError::NetworkError("m".into()), "ACTION_NETWORK", "Network error: m"),
        (ActionError::QueueFull("m".into()), "ACTION_QUEUE_FULL", "Queue full: m"),
        (
            ActionError::UserLimitExceeded("m".into()),
            "ACTION_USER_LIMIT",
            "User limit exceeded: m",
        ),
        (ActionError::Timeout("m".into()), "ACTION_TIMEOUT", "Timeout: m"),
        (ActionError::ConfigError("m".into()), "ACTION_CONFIG", "Config error: m"),
        (ActionError::AuthError("m".into()), "ACTION_AUTH", "Auth error: m"),
        (ActionError::ResourceError("m".into()), "ACTION_RESOURCE", "Resource error: m"),
        (ActionError::CircuitOpen("m".into()), "ACTION_CIRCUIT_OPEN", "Circuit open: m"),
        (ActionError::Cancelled, "ACTION_CANCELLED", "Cancelled"),
        (
            ActionError::ClientGone,
            "ACTION_CLIENT_GONE",
            "Client disconnected before data could be delivered",
        ),
    ];
    for (error, code, words) in all {
        assert_eq!(error.code(), code);
        assert_eq!(error.to_text(), words);
    }
    assert!(ActionError::CircuitOpen("m".into()).is_retryable());
    assert!(!ActionError::UserLimitExceeded("m".into()).is_retryable());
}
