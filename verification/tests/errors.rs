//! Error codes, retryability and messages.

use bits::actions::ActionError;
use bits::db::DbError;
use bits::error::{BitsError, ConfigError, RoutingError, WorkerServerError};

#[test]
fn config_error_codes_are_stable() {
    assert_eq!(
        ConfigError::validation("x", "y").code(),
        "CONFIG_VALIDATION"
    );
    assert_eq!(ConfigError::missing("x").code(), "CONFIG_MISSING_FIELD");
    assert_eq!(
        ConfigError::FeatureDisabled {
            path: "x".into(),
            feature: "nats".into()
        }
        .code(),
        "CONFIG_FEATURE_DISABLED"
    );
}

#[test]
fn routing_error_codes_are_stable() {
    assert_eq!(
        RoutingError::InvalidRoute {
            route: "r".into(),
            reason: "bad".into()
        }
        .code(),
        "ROUTING_INVALID_ROUTE"
    );
    assert_eq!(
        RoutingError::MissingTarget { route: "r".into() }.code(),
        "ROUTING_MISSING_TARGET"
    );
}

#[test]
fn action_retryability() {
    assert!(ActionError::NetworkError("timeout".into()).is_retryable());
    assert!(ActionError::Timeout("5s".into()).is_retryable());
    assert!(ActionError::QueueFull("full".into()).is_retryable());
    assert!(!ActionError::Cancelled.is_retryable());
    assert!(!ActionError::ClientGone.is_retryable());
    assert!(!ActionError::AuthError("denied".into()).is_retryable());
}

#[test]
fn db_retryability() {
    assert!(DbError::Conflict("cas".into()).is_retryable());
    assert!(DbError::Backend("timeout".into()).is_retryable());
}

#[test]
fn bits_error_delegates_code() {
    let err = BitsError::Config(ConfigError::missing("routes"));
    assert_eq!(err.code(), "CONFIG_MISSING_FIELD");
    assert!(!err.is_retryable());

    let err = BitsError::Persistence(DbError::Backend("down".into()));
    assert_eq!(err.code(), "PERSISTENCE_BACKEND");
    assert!(err.is_retryable());
}

#[test]
fn worker_server_error_codes() {
    assert_eq!(
        WorkerServerError::Bind {
            address: "0.0.0.0:9001".into(),
            reason: "in use".into()
        }
        .code(),
        "WORKER_BIND"
    );
}
