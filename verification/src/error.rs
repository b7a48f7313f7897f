//! Errors of the broker as a whole.

use vstd::prelude::*;

use crate::actions::{action_error_code, action_error_retryable, action_error_text, ActionError};
use crate::db::{db_error_code, db_error_text, DbError};
use crate::text::{cat2, cat3, cat4, cat5, cat6};

verus! {

#[derive(Debug)]
#[non_exhaustive]
pub enum BitsError {
    Config(ConfigError),
    Routing(RoutingError),
    Persistence(DbError),
    Action(ActionError),
    WorkerServer(WorkerServerError),
}

#[derive(Debug)]
#[non_exhaustive]
pub enum ConfigError {
    /// The document is not YAML, in the reader's words.
    Yaml(String),
    Validation { path: String, reason: String },
    MissingField { path: String },
    FeatureDisabled { path: String, feature: String },
    /// A section does not have the shape of `target`; `problem` says how.
    Decode { path: String, target: String, problem: String },
    PersistenceInit { path: String, backend: String, reason: String },
}

#[derive(Debug)]
#[non_exhaustive]
pub enum RoutingError {
    InvalidRoute { route: String, reason: String },
    InvalidAction { route: String, action: String, reason: String },
    MissingTarget { route: String },
}

#[derive(Debug)]
#[non_exhaustive]
pub enum WorkerServerError {
    Bind { address: String, reason: String },
    PoolRegistration { name: String, reason: String },
}

/// The mathematical contents of a [`ConfigError`].
pub enum ConfigProblem {
    Yaml { words: Seq<char> },
    Validation { path: Seq<char>, reason: Seq<char> },
    MissingField { path: Seq<char> },
    FeatureDisabled { path: Seq<char>, feature: Seq<char> },
    Decode { path: Seq<char>, target: Seq<char>, problem: Seq<char> },
    PersistenceInit { path: Seq<char>, backend: Seq<char>, reason: Seq<char> },
}

/// The mathematical contents of a [`RoutingError`].
pub enum RoutingProblem {
    InvalidRoute { route: Seq<char>, reason: Seq<char> },
    InvalidAction { route: Seq<char>, action: Seq<char>, reason: Seq<char> },
    MissingTarget { route: Seq<char> },
}

impl View for ConfigError {
    type V = ConfigProblem;

    open spec fn view(&self) -> ConfigProblem {
        match *self {
            ConfigError::Yaml(words) => ConfigProblem::Yaml { words: words@ },
            ConfigError::Validation { path, reason } => ConfigProblem::Validation {
                path: path@,
                reason: reason@,
            },
            ConfigError::MissingField { path } => ConfigProblem::MissingField { path: path@ },
            ConfigError::FeatureDisabled { path, feature } => ConfigProblem::FeatureDisabled {
                path: path@,
                feature: feature@,
            },
            ConfigError::Decode { path, target, problem } => ConfigProblem::Decode {
                path: path@,
                target: target@,
                problem: problem@,
            },
            ConfigError::PersistenceInit { path, backend, reason } => {
                ConfigProblem::PersistenceInit { path: path@, backend: backend@, reason: reason@ }
            },
        }
    }
}

impl View for RoutingError {
    type V = RoutingProblem;

    open spec fn view(&self) -> RoutingProblem {
        match *self {
            RoutingError::InvalidRoute { route, reason } => RoutingProblem::InvalidRoute {
                route: route@,
                reason: reason@,
            },
            RoutingError::InvalidAction { route, action, reason } => RoutingProblem::InvalidAction {
                route: route@,
                action: action@,
                reason: reason@,
            },
            RoutingError::MissingTarget { route } => RoutingProblem::MissingTarget {
                route: route@,
            },
        }
    }
}

/// What is wrong, where it is the configuration or the routes.
pub enum BitsProblem {
    Config(ConfigProblem),
    Routing(RoutingProblem),
    Other,
}

/// What an error says is wrong.
pub open spec fn bits_problem(e: BitsError) -> BitsProblem {
    match e {
        BitsError::Config(e) => BitsProblem::Config(e@),
        BitsError::Routing(e) => BitsProblem::Routing(e@),
        _ => BitsProblem::Other,
    }
}

// ---------------------------------------------------------------------------------------------
// Codes
// ---------------------------------------------------------------------------------------------

pub open spec fn config_error_code(e: ConfigError) -> Seq<char> {
    match e {
        ConfigError::Yaml(_) => "CONFIG_YAML_SYNTAX"@,
        ConfigError::Validation { .. } => "CONFIG_VALIDATION"@,
        ConfigError::MissingField { .. } => "CONFIG_MISSING_FIELD"@,
        ConfigError::FeatureDisabled { .. } => "CONFIG_FEATURE_DISABLED"@,
        ConfigError::Decode { .. } => "CONFIG_DECODE"@,
        ConfigError::PersistenceInit { .. } => "CONFIG_PERSISTENCE_INIT"@,
    }
}

pub open spec fn routing_error_code(e: RoutingError) -> Seq<char> {
    match e {
        RoutingError::InvalidRoute { .. } => "ROUTING_INVALID_ROUTE"@,
        RoutingError::InvalidAction { .. } => "ROUTING_INVALID_ACTION"@,
        RoutingError::MissingTarget { .. } => "ROUTING_MISSING_TARGET"@,
    }
}

pub open spec fn worker_server_error_code(e: WorkerServerError) -> Seq<char> {
    match e {
        WorkerServerError::Bind { .. } => "WORKER_BIND"@,
        WorkerServerError::PoolRegistration { .. } => "WORKER_POOL"@,
    }
}

/// The code of the error inside.
pub open spec fn bits_error_code(e: BitsError) -> Seq<char> {
    match e {
        BitsError::Config(e) => config_error_code(e),
        BitsError::Routing(e) => routing_error_code(e),
        BitsError::Persistence(e) => db_error_code(e),
        BitsError::Action(e) => action_error_code(e),
        BitsError::WorkerServer(e) => worker_server_error_code(e),
    }
}

impl BitsError {
    pub fn code(&self) -> (r: &'static str)
        ensures
            r@ == bits_error_code(*self),
    {
        match self {
            BitsError::Config(e) => e.code(),
            BitsError::Routing(e) => e.code(),
            BitsError::Persistence(e) => e.code(),
            BitsError::Action(e) => e.code(),
            BitsError::WorkerServer(e) => e.code(),
        }
    }

    /// Whether the error inside is a retryable persistence or action error.
    pub fn is_retryable(&self) -> (r: bool)
        ensures
            r == match *self {
                BitsError::Persistence(e) => !(e is SlotExhausted),
                BitsError::Action(e) => action_error_retryable(e),
                _ => false,
            },
    {
        match self {
            BitsError::Persistence(e) => e.is_retryable(),
            BitsError::Action(e) => e.is_retryable(),
            _ => false,
        }
    }
}

impl ConfigError {
    pub fn code(&self) -> (r: &'static str)
        ensures
            r@ == config_error_code(*self),
    {
        match self {
            ConfigError::Yaml(_) => "CONFIG_YAML_SYNTAX",
            ConfigError::Validation { .. } => "CONFIG_VALIDATION",
            ConfigError::MissingField { .. } => "CONFIG_MISSING_FIELD",
            ConfigError::FeatureDisabled { .. } => "CONFIG_FEATURE_DISABLED",
            ConfigError::Decode { .. } => "CONFIG_DECODE",
            ConfigError::PersistenceInit { .. } => "CONFIG_PERSISTENCE_INIT",
        }
    }

    pub fn validation(path: &str, reason: &str) -> (e: ConfigError)
        ensures
            e@ == (ConfigProblem::Validation { path: path@, reason: reason@ }),
    {
        ConfigError::Validation { path: path.to_owned(), reason: reason.to_owned() }
    }

    pub fn missing(path: &str) -> (e: ConfigError)
        ensures
            e@ == (ConfigProblem::MissingField { path: path@ }),
    {
        ConfigError::MissingField { path: path.to_owned() }
    }
}

impl RoutingError {
    pub fn code(&self) -> (r: &'static str)
        ensures
            r@ == routing_error_code(*self),
    {
        match self {
            RoutingError::InvalidRoute { .. } => "ROUTING_INVALID_ROUTE",
            RoutingError::InvalidAction { .. } => "ROUTING_INVALID_ACTION",
            RoutingError::MissingTarget { .. } => "ROUTING_MISSING_TARGET",
        }
    }
}

impl WorkerServerError {
    pub fn code(&self) -> (r: &'static str)
        ensures
            r@ == worker_server_error_code(*self),
    {
        match self {
            WorkerServerError::Bind { .. } => "WORKER_BIND",
            WorkerServerError::PoolRegistration { .. } => "WORKER_POOL",
        }
    }
}

// ---------------------------------------------------------------------------------------------
// Messages
// ---------------------------------------------------------------------------------------------

pub open spec fn config_error_text(e: ConfigError) -> Seq<char> {
    match e {
        ConfigError::Yaml(words) => "YAML syntax error: "@ + words@,
        ConfigError::Validation { path, reason } => path@ + ": "@ + reason@,
        ConfigError::MissingField { path } => path@ + ": missing required field"@,
        ConfigError::FeatureDisabled { path, feature } => path@ + ": feature '"@ + feature@
            + "' not enabled"@,
        ConfigError::Decode { path, target, problem } => path@ + ": failed to decode "@ + target@
            + ": "@ + problem@,
        ConfigError::PersistenceInit { path, backend, reason } => path@ + ": "@ + backend@
            + " initialization failed: "@ + reason@,
    }
}

pub open spec fn routing_error_text(e: RoutingError) -> Seq<char> {
    match e {
        RoutingError::InvalidRoute { route, reason } => "route '"@ + route@ + "': "@ + reason@,
        RoutingError::InvalidAction { route, action, reason } => "route '"@ + route@ + "' action '"@
            + action@ + "': "@ + reason@,
        RoutingError::MissingTarget { route } => "route '"@ + route@
            + "': must end with a target or switch"@,
    }
}

pub open spec fn worker_server_error_text(e: WorkerServerError) -> Seq<char> {
    match e {
        WorkerServerError::Bind { address, reason } => "failed to bind to "@ + address@ + ": "@
            + reason@,
        WorkerServerError::PoolRegistration { name, reason } => "pool '"@ + name@ + "': "@
            + reason@,
    }
}

/// The part that failed, then the error inside.
pub open spec fn bits_error_text(e: BitsError) -> Seq<char> {
    match e {
        BitsError::Config(e) => "config: "@ + config_error_text(e),
        BitsError::Routing(e) => "routing: "@ + routing_error_text(e),
        BitsError::Persistence(e) => "persistence: "@ + db_error_text(e),
        BitsError::Action(e) => "action: "@ + action_error_text(e),
        BitsError::WorkerServer(e) => "worker server: "@ + worker_server_error_text(e),
    }
}

impl ConfigError {
    pub fn to_text(&self) -> (r: String)
        ensures
            r@ == config_error_text(*self),
    {
        match self {
            ConfigError::Yaml(words) => cat2("YAML syntax error: ", words),
            ConfigError::Validation { path, reason } => cat3(path, ": ", reason),
            ConfigError::MissingField { path } => cat2(path, ": missing required field"),
            ConfigError::FeatureDisabled { path, feature } => {
                cat4(path, ": feature '", feature, "' not enabled")
            },
            ConfigError::Decode { path, target, problem } => {
                cat5(path, ": failed to decode ", target, ": ", problem)
            },
            ConfigError::PersistenceInit { path, backend, reason } => {
                cat5(path, ": ", backend, " initialization failed: ", reason)
            },
        }
    }
}

impl RoutingError {
    pub fn to_text(&self) -> (r: String)
        ensures
            r@ == routing_error_text(*self),
    {
        match self {
            RoutingError::InvalidRoute { route, reason } => cat4("route '", route, "': ", reason),
            RoutingError::InvalidAction { route, action, reason } => {
                cat6("route '", route, "' action '", action, "': ", reason)
            },
            RoutingError::MissingTarget { route } => {
                cat3("route '", route, "': must end with a target or switch")
            },
        }
    }
}

impl WorkerServerError {
    pub fn to_text(&self) -> (r: String)
        ensures
            r@ == worker_server_error_text(*self),
    {
        match self {
            WorkerServerError::Bind { address, reason } => {
                cat4("failed to bind to ", address, ": ", reason)
            },
            WorkerServerError::PoolRegistration { name, reason } => {
                cat4("pool '", name, "': ", reason)
            },
        }
    }
}

impl BitsError {
    pub fn to_text(&self) -> (r: String)
        ensures
            r@ == bits_error_text(*self),
    {
        match self {
            BitsError::Config(e) => cat2("config: ", &e.to_text()),
            BitsError::Routing(e) => cat2("routing: ", &e.to_text()),
            BitsError::Persistence(e) => cat2("persistence: ", &e.to_text()),
            BitsError::Action(e) => cat2("action: ", &e.to_text()),
            BitsError::WorkerServer(e) => cat2("worker server: ", &e.to_text()),
        }
    }
}

} // verus!
