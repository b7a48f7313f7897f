//! Reading configuration.

use bits::actions::registry::{ActionCatalog, ActionKind, RuntimeAction};
use bits::bits::{Bits, DEFAULT_MAX_JOBS};
use bits::config::routes::{parse_dispatcher_fields, split_namespace, RouteFactory};
use bits::config::sections::{read_metrics_config, ServerConfig};
use bits::config::{
    derive_endpoint, parse_bootstrap, Bootstrap, InitRetry, InitStep, Parsed, RuntimeConfig,
    StorePlan,
};
use bits::db::memory::MemoryStore;
use bits::db::{
    BrokerLeaseRecord, BrokerLeaseStore, BrokerSlotStore, ClaimResult, DbError, JobStore,
    PersistenceStore, PersistentJobRecord, StoreState, UserLimitStore,
};
use bits::dispatcher::plan::ExecutorPlan;
use bits::dispatcher::queue::QueueKind;
use bits::error::BitsError;
use bits::json::{parse_yaml, Json, Number};
use bits::metrics::{Bounds, HistogramBuckets, Instrument};
use bits::routing::switch::Switch;
use bits::routing::{Action, Route, Step};
use bits::time::Span;

fn parse(config: &str) -> Result<Parsed, BitsError> {
    parse_bootstrap(config, ActionCatalog::builtin())
}

fn ready(config: &str) -> Bootstrap {
    match parse(config) {
        Ok(Parsed::Ready(bootstrap)) => bootstrap,
        Ok(Parsed::AwaitStore(_)) => panic!("expected no store"),
        Err(e) => panic!("should parse: {}", e.to_text()),
    }
}

fn problem(config: &str) -> BitsError {
    match parse(config) {
        Ok(_) => panic!("should be rejected: {config}"),
        Err(e) => e,
    }
}

/// A configuration of the site `tst` and the environment `dev` with more lines.
fn with_tags(more: &str) -> String {
    format!("bits:\n  site: tst\n  env: dev\n{more}")
}

fn step_of(action: &Action) -> &Step {
    match action {
        Action::Check(step) | Action::Transform(step) | Action::Target(step) => step,
        Action::Switch(_) => panic!("expected an action of its own"),
    }
}

fn extract_target(route: &Route) -> &Step {
    match route.actions.first() {
        Some(Action::Target(step)) => step,
        _ => panic!("expected first action to be a target"),
    }
}

fn assert_site_env_config_error(config: &str, expected_field: &str) {
    let err = problem(config);
    assert_eq!(
        err.code(),
        "CONFIG_VALIDATION",
        "unexpected error: {}",
        err.to_text()
    );
    assert!(
        err.to_text().contains(expected_field),
        "error should identify {expected_field}: {}",
        err.to_text()
    );
}

fn runtime_config_with_site_env(
    site: &str,
    env: &str,
    broker_slot: u16,
    job_store: Option<StorePlan>,
) -> RuntimeConfig {
    RuntimeConfig {
        router: Switch::new(vec![]),
        route_factory: RouteFactory::new(ActionCatalog::builtin()),
        sweep_interval: Some(Span::from_secs(60)),
        reconnect_buffer: Span::from_secs(5),
        site: site.to_string(),
        env: env.to_string(),
        broker_slot,
        internal_poll_endpoint: "http://127.0.0.1:8080/job".to_string(),
        internal_poll_timeout: Span {
            secs: 2,
            nanos: 500_000_000,
        },
        job_store,
        broker_lease_ttl: Span::from_secs(30),
        persist_after: None,
        max_jobs: DEFAULT_MAX_JOBS,
        worker_server: None,
    }
}

#[test]
fn site_env_missing_config_is_rejected() {
    let err = problem("{}");
    assert_eq!(
        err.code(),
        "CONFIG_MISSING_FIELD",
        "unexpected error: {}",
        err.to_text()
    );
    assert!(
        err.to_text().contains("bits.site") || err.to_text().contains("bits.env"),
        "error should identify the missing site/env field: {}",
        err.to_text()
    );
}

#[test]
fn site_env_accepts_one_two_three_character_tags() {
    for (site, env) in [("a", "0"), ("b1", "d2"), ("bol", "123")] {
        let config = format!(
            r#"
bits:
  site: {site}
  env: {env}
"#
        );
        let bootstrap = ready(&config);
        assert_eq!(bootstrap.runtime_config.site, site);
        assert_eq!(bootstrap.runtime_config.env, env);
    }
}

#[test]
fn site_env_rejects_empty_too_long_uppercase_and_punctuation() {
    for (field, value) in [
        ("site", "''"),
        ("env", "''"),
        ("site", "abcd"),
        ("env", "abcd"),
        ("site", "AB"),
        ("env", "AB"),
        ("site", "a-b"),
        ("env", "a-b"),
    ] {
        let (site, env) = if field == "site" {
            (value, "dev")
        } else {
            ("bol", value)
        };
        let config = format!(
            r#"
bits:
  site: {site}
  env: {env}
"#
        );
        assert_site_env_config_error(&config, &format!("bits.{field}"));
    }
}

#[test]
fn site_env_startup_uses_allocated_slot_in_broker_id() {
    let mut store = MemoryStore::new();
    let plan = || StorePlan::TiKv {
        endpoints: vec!["pd:2379".into()],
        connect_timeout: Span::from_secs(5),
    };
    let slot = store
        .allocate_broker_slot("bol", "dev")
        .expect("slot allocation should succeed");
    assert_eq!(slot, 0);

    let bits =
        Bits::from_runtime_config(runtime_config_with_site_env("bol", "dev", slot, Some(plan())));

    assert_eq!(bits.broker_id(), "bol-dev-0");
    let next = store.allocate_broker_slot("bol", "dev").unwrap();
    let other =
        Bits::from_runtime_config(runtime_config_with_site_env("bol", "dev", next, Some(plan())));
    assert_eq!(other.broker_id(), "bol-dev-1");
}

#[test]
fn site_env_no_persistence_uses_ephemeral_slot_zero() {
    let config = r#"
bits:
  site: a
  env: dev
"#;
    let bits = ready(config).into_bits();

    assert_eq!(bits.broker_id(), "a-dev-0");
}

/// A store of job records and leases alone.
struct UnsupportedSlotStore;

impl StoreState for UnsupportedSlotStore {}

impl JobStore for UnsupportedSlotStore {
    fn upsert_job(&mut self, _record: PersistentJobRecord) -> Result<(), DbError> {
        Ok(())
    }

    fn delete_job(&mut self, _job_id: &str) -> Result<(), DbError> {
        Ok(())
    }

    fn claim_if_owner(
        &mut self,
        _job_id: &str,
        _expected_owner_broker_id: &str,
        _claimant_broker_id: &str,
    ) -> Result<ClaimResult, DbError> {
        Ok(ClaimResult::NotFound)
    }
}

impl BrokerLeaseStore for UnsupportedSlotStore {
    fn upsert_broker_lease(
        &mut self,
        _broker_id: &str,
        _internal_poll_base_url: &str,
        _ttl: Span,
    ) -> Result<(), DbError> {
        Ok(())
    }

    fn get_broker_lease(&self, _broker_id: &str) -> Result<Option<BrokerLeaseRecord>, DbError> {
        Ok(None)
    }

    fn delete_broker_lease(&mut self, _broker_id: &str) -> Result<(), DbError> {
        Ok(())
    }
}

impl BrokerSlotStore for UnsupportedSlotStore {}

impl UserLimitStore for UnsupportedSlotStore {}

fn bootstrap_after_startup_slot_allocation<S: PersistenceStore>(
    site: &str,
    env: &str,
    store: &mut S,
) -> Result<Bootstrap, BitsError> {
    let config = format!(
        "bits:\n  site: {site}\n  env: {env}\n  persistence:\n    type: tikv\n    \
         endpoints: ['pd:2379']\n"
    );
    match parse(&config)? {
        Parsed::AwaitStore(startup) => {
            startup.after_allocation(store.allocate_broker_slot(site, env))
        }
        Parsed::Ready(_) => panic!("expected to wait for the store"),
    }
}

#[test]
fn site_env_startup_fails_when_slot_allocation_fails() {
    let err = bootstrap_after_startup_slot_allocation("bol", "dev", &mut UnsupportedSlotStore)
        .err()
        .expect("startup should fail when slot allocation fails");

    assert!(matches!(err, BitsError::Persistence(_)));
    assert_eq!(err.code(), "PERSISTENCE_BACKEND");
    assert!(err.to_text().contains("(site 'bol', env 'dev')"), "{}", err.to_text());
}

#[test]
fn startup_goes_on_with_the_allocated_slot() {
    let mut store = MemoryStore::new();
    store.allocate_broker_slot("bol", "dev").unwrap();
    let bootstrap = bootstrap_after_startup_slot_allocation("bol", "dev", &mut store).unwrap();
    assert_eq!(bootstrap.into_bits().broker_id(), "bol-dev-1");
}

#[test]
fn stores_of_jobs_and_leases_keep_no_admission_records() {
    let words = "user-limit store not implemented for this persistence backend";
    let mut store = UnsupportedSlotStore;
    let told = [
        store.reserve_user_slot("s", "u", "j", "b").unwrap_err(),
        store.release_user_slot("s", "u", "j").unwrap_err(),
        store.list_user_slots("s", "u").unwrap_err(),
        store.reclaim_user_slots().unwrap_err(),
    ];
    for error in told {
        assert!(error.to_text().contains(words), "{}", error.to_text());
    }
}

#[test]
fn test_empty_pipeline() {
    let config = r#"
bits:
  site: tst
  env: dev
routes:
  - test_pipeline: []
"#;
    let err = match Bits::from_config(config, ActionCatalog::builtin()) {
        Err(e) => e,
        Ok(_) => panic!("empty pipeline should be rejected"),
    };
    assert!(
        err.to_text().contains("must not be empty"),
        "unexpected error: {}",
        err.to_text()
    );
}

fn assert_send_sync<T: Send + Sync>() {}

#[test]
fn route_factory_is_send_sync() {
    assert_send_sync::<RouteFactory>();
}

#[test]
fn test_no_routes_section() {
    let config = r#"
bits:
  site: tst
  env: dev
targets:
  my_target:
    type: http
    url: http://127.0.0.1:1
"#;
    let bits = ready(config).into_bits();
    assert!(bits.route_names().is_empty());
}

#[test]
fn test_route_factory_shared_targets() {
    let config = r#"
bits:
  site: tst
  env: dev
targets:
  my_target:
    type: http
    url: http://127.0.0.1:1
"#;

    let bits = ready(config).into_bits();

    let routes1 = bits
        .route_factory()
        .parse_route(
            "extra_routes_1",
            &parse_yaml(r#"[{"route_a": ["target::my_target"]}]"#).unwrap(),
        )
        .expect("parse route set 1");
    let routes2 = bits
        .route_factory()
        .parse_route(
            "extra_routes_2",
            &parse_yaml(r#"[{"route_b": ["target::my_target"]}]"#).unwrap(),
        )
        .expect("parse route set 2");

    let target1 = extract_target(&routes1[0]);
    let target2 = extract_target(&routes2[0]);
    assert!(target1.shared_as.is_some());
    assert_eq!(target1.shared_as, target2.shared_as);
}

#[test]
fn documents_must_be_yaml_mappings() {
    let err = problem("a: [");
    assert_eq!(err.code(), "CONFIG_YAML_SYNTAX");
    assert!(
        err.to_text().starts_with("config: YAML syntax error: "),
        "{}",
        err.to_text()
    );
    assert_eq!(
        problem("[1]").to_text(),
        "config: config: top-level config must be a YAML mapping"
    );
    assert_eq!(problem("bits: 7").code(), "CONFIG_DECODE");
}

#[test]
fn settings_have_defaults() {
    let bootstrap = ready(&with_tags(""));
    let runtime = &bootstrap.runtime_config;
    assert_eq!(
        runtime.internal_poll_timeout,
        Span {
            secs: 2,
            nanos: 500_000_000
        }
    );
    assert_eq!(runtime.reconnect_buffer, Span::from_secs(5));
    assert_eq!(runtime.max_jobs, DEFAULT_MAX_JOBS);
    assert!(runtime.persist_after.is_none());
    assert!(runtime.job_store.is_none());
    assert!(!bootstrap.had_server_section);
    assert_eq!(
        runtime.internal_poll_endpoint,
        derive_endpoint(&bootstrap.server_config)
    );
}

#[test]
fn settings_are_checked() {
    let told = |more: &str| problem(&with_tags(more)).to_text();
    assert_eq!(
        told("  max_jobs: 0\n"),
        "config: bits.max_jobs: must be greater than zero"
    );
    assert_eq!(
        told("  reconnect_buffer_secs: 0\n"),
        "config: bits.reconnect_buffer_secs: must be greater than zero"
    );
    assert!(told("  internal_poll_timeout_secs: -1\n")
        .starts_with("config: bits.internal_poll_timeout_secs: "));
    assert!(told("  sweep_interval_secs: 0\n").contains("bits.sweep_interval_secs"));
    assert!(told("server:\n  retry_after_secs: 0\n").contains("server.retry_after_secs"));
    assert!(told("server: 3\n").contains("failed to decode ServerConfig"));
}

#[test]
fn persistence_waits_for_its_store() {
    let config = with_tags(
        "  persist_after_secs: 2\n  persistence:\n    type: tikv\n    endpoints: ['pd:2379']\n",
    );
    match parse(&config) {
        Ok(Parsed::AwaitStore(startup)) => {
            assert!(matches!(
                startup.settings.store,
                Some(StorePlan::TiKv { .. })
            ));
            let bootstrap = startup.finish(7).unwrap();
            assert_eq!(bootstrap.runtime_config.broker_slot, 7);
            assert_eq!(bootstrap.into_bits().broker_id(), "tst-dev-7");
        }
        Ok(Parsed::Ready(_)) => panic!("expected to wait for the store"),
        Err(e) => panic!("should parse: {}", e.to_text()),
    }
}

#[test]
fn jobs_are_persisted_before_their_poll_ends() {
    let config = with_tags(
        "  persist_after_secs: 24.5\n  persistence:\n    type: tikv\n    endpoints: ['pd:2379']\n\
         server:\n  poll_timeout_secs: 25\n",
    );
    assert_eq!(
        problem(&config).to_text(),
        "config: bits.persist_after_secs: bits.persist_after_secs (24.500 s) + 1 s guard must be \
         less than server.poll_timeout_secs (25.000 s)"
    );
}

#[test]
fn endpoints_are_derived_from_the_server() {
    let endpoint = |host: &str, port: u16| {
        derive_endpoint(&ServerConfig {
            host: host.into(),
            port,
            poll_timeout_secs: Number::Unsigned(25),
            retry_after_secs: 1,
        })
    };
    assert_eq!(endpoint("0.0.0.0", 8080), "http://127.0.0.1:8080/job");
    assert_eq!(endpoint("::", 1), "http://[::1]:1/job");
    assert_eq!(endpoint("example.org", 80), "http://example.org:80/job");
}

#[test]
fn stores_are_opened_with_growing_pauses() {
    let mut retry = InitRetry::new(6);
    let mut delays = Vec::new();
    loop {
        match retry.after_failure("down".into()) {
            InitStep::Retry { delay_secs } => delays.push(delay_secs),
            InitStep::Failed(e) => {
                assert!(e.to_text().contains("down"), "{}", e.to_text());
                break;
            }
        }
    }
    assert_eq!(delays, vec![1, 2, 4, 8, 10]);
}

fn routes_of(config: &str) -> Vec<Route> {
    ready(&with_tags(config)).runtime_config.router.routes
}

#[test]
fn routes_hold_named_and_inline_actions() {
    let routes = routes_of(
        r#"
checks:
  gate:
    type: has_role
    role: admin
    silent: true
targets:
  backend:
    type: http
    url: http://x
    dispatcher:
      queue: cost_weighted
      executor:
        type: async_pool
        concurrency: 8
routes:
  - first:
      - check::gate
      - target::backend
  - second:
      - check::has_role:
          role: viewer
      - target::http:
          url: http://y
        dispatcher:
          executor:
            type: thread_pool
"#,
    );
    assert_eq!(routes.len(), 2);
    assert_eq!(routes[0].name, "first");
    let gate = step_of(&routes[0].actions[0]);
    assert_eq!(gate.action_type, "has_role");
    assert_eq!(gate.silent, Some(true));
    assert_eq!(gate.config.to_text(), r#"{"role":"admin"}"#);
    let backend = step_of(&routes[0].actions[1]);
    let plan = backend.dispatcher.as_ref().unwrap();
    assert_eq!(plan.queue, QueueKind::CostWeighted);
    assert!(matches!(
        plan.executor,
        ExecutorPlan::AsyncPool { concurrency: 8 }
    ));
    let inline = step_of(&routes[1].actions[1]);
    assert!(inline.shared_as.is_none());
    assert!(matches!(
        inline.dispatcher.as_ref().unwrap().executor,
        ExecutorPlan::ThreadPool { concurrency: 256 }
    ));
}

#[test]
fn routes_can_nest() {
    let routes = routes_of(
        r#"
routes:
  - outer:
      - switch:
          - inner:
              - target::http:
                  url: http://y
"#,
    );
    match &routes[0].actions[0] {
        Action::Switch(switch) => assert_eq!(switch.route_names(), vec!["inner"]),
        _ => panic!("expected a switch"),
    }
}

#[test]
fn remote_pools_serve_remote_targets() {
    let config = |server: &str, kind: &str| {
        with_tags(&format!(
            "{server}targets:\n  pool:\n    type: {kind}\n    dispatcher:\n      executor:\n        \
             type: remote_pool\nroutes:\n  - r:\n      - target::pool\n"
        ))
    };
    let server = "  worker_server:\n    host: 127.0.0.1\n    port: 9001\n";
    let bootstrap = ready(&config(server, "remote"));
    let step = step_of(&bootstrap.runtime_config.router.routes[0].actions[0]);
    match &step.dispatcher.as_ref().unwrap().executor {
        ExecutorPlan::RemotePool { pool_name, .. } => assert_eq!(pool_name, "pool"),
        _ => panic!("expected a remote pool"),
    }
    assert!(parse(&config("", "remote")).is_err());
    assert!(parse(&config(server, "http\n    url: http://x")).is_err());
}

#[test]
fn references_that_lead_nowhere_are_rejected() {
    let told = |action: &str| {
        problem(&with_tags(&format!(
            "routes:\n  - r:\n      - {action}\n      - target::http:\n          url: http://x\n"
        )))
        .to_text()
    };
    for action in ["check::nobody", "nonsense", "target::nobody", "other::x", "[1]"] {
        let words = told(action);
        assert!(words.contains('r'), "{action}: {words}");
    }
    assert!(told("check::http:\n          url: http://x").contains("check"));
}

#[test]
fn application_actions_can_be_named() {
    let mut catalog = ActionCatalog::builtin();
    catalog
        .register_runtime_action(RuntimeAction {
            name: "echo".into(),
            kind: ActionKind::Target,
            descriptor: parse_yaml("{kind: echo}").unwrap(),
        })
        .unwrap();
    let config = with_tags("targets:\n  e:\n    type: echo\nroutes:\n  - r:\n      - target::e\n");
    match parse_bootstrap(&config, catalog) {
        Ok(Parsed::Ready(bootstrap)) => {
            let bits = bootstrap.into_bits();
            assert_eq!(bits.route_names(), vec!["r"]);
            assert_eq!(bits.describe_actions()[0].to_text(), r#"{"kind":"echo"}"#);
        }
        Ok(_) => panic!("expected no store"),
        Err(e) => panic!("should parse: {}", e.to_text()),
    }
}

#[test]
fn namespaces_end_at_the_first_colons() {
    let split = |s: &str| split_namespace(s);
    assert_eq!(
        split("check::a::b"),
        Some(("check".to_string(), "a::b".to_string()))
    );
    assert_eq!(split("check:a"), None);
}

#[test]
fn dispatcher_settings_are_checked() {
    let read = |text: &str| parse_dispatcher_fields(Some(&parse_yaml(text).unwrap()));
    let settings = read("{queue: age_priority, queue_capacity: 3}").unwrap();
    assert_eq!(settings.queue, Some(QueueKind::AgePriority));
    assert_eq!(settings.queue_capacity, 3);
    assert!(read("{queue: lifo}").is_err());
    assert!(parse_dispatcher_fields(None).unwrap().queue.is_none());
}

#[test]
fn buckets_can_be_configured() {
    let section = parse_yaml("{duration_buckets: [0.005, 1], queue_wait_buckets: null}").unwrap();
    let config = read_metrics_config(Some(&section)).unwrap();
    let words: Vec<String> = config
        .duration_buckets
        .unwrap()
        .iter()
        .map(|n| n.to_text())
        .collect();
    assert_eq!(words, vec!["0.005", "1"]);
    assert!(config.queue_wait_buckets.is_none());
    assert!(read_metrics_config(None).unwrap().duration_buckets.is_none());
    assert!(read_metrics_config(Some(&parse_yaml("{duration_buckets: [a]}").unwrap())).is_none());
    assert!(read_metrics_config(Some(&Json::Bool(true))).is_none());
}

fn words(bounds: Option<&Bounds>) -> Vec<String> {
    match bounds {
        Some(Bounds::Millis(list)) => list.iter().map(|ms| format!("{ms} ms")).collect(),
        Some(Bounds::Secs(list)) => list.iter().map(|n| n.to_text()).collect(),
        None => panic!("expected boundaries"),
    }
}

#[test]
fn buckets_come_from_the_metrics_section() {
    let defaults = HistogramBuckets::default();
    let left_out = ready(&with_tags(""));
    for instrument in [Instrument::JobDuration, Instrument::QueueWait] {
        assert_eq!(
            words(left_out.metrics_buckets().bounds_for(instrument)),
            words(defaults.bounds_for(instrument))
        );
    }
    let given = ready(&with_tags("metrics:\n  duration_buckets: [0.25, 2]\n"));
    let buckets = given.metrics_buckets();
    assert_eq!(
        words(buckets.bounds_for(Instrument::JobDuration)),
        vec!["0.25", "2"]
    );
    assert_eq!(
        words(buckets.bounds_for(Instrument::RouteHandleJobDuration)),
        vec!["0.25", "2"]
    );
    assert_eq!(words(buckets.bounds_for(Instrument::QueueWait))[0], "1 ms");
    let waits = ready(&with_tags("metrics:\n  queue_wait_buckets: [7]\n"));
    assert_eq!(
        words(waits.metrics_buckets().bounds_for(Instrument::QueueWait)),
        vec!["7"]
    );
    let told = problem(&with_tags("metrics:\n  duration_buckets: soon\n")).to_text();
    assert!(told.contains("metrics"), "{told}");
}

#[test]
fn targets_of_two_names_are_not_shared() {
    let more = "targets:\n  one: {type: http, url: http://127.0.0.1:1}\n  \
                two: {type: http, url: http://127.0.0.1:1}\n";
    let bits = ready(&with_tags(more)).into_bits();
    let parsed = |name: &str, text: &str| {
        bits.route_factory()
            .parse_route(name, &parse_yaml(text).unwrap())
            .expect("route")
    };
    let a = parsed("x", "[{r: [\"target::one\"]}]");
    let b = parsed("y", "[{r: [\"target::two\"]}]");
    let c = parsed("z", "[{r: [{\"target::http\": {url: \"http://127.0.0.1:1\"}}]}]");
    assert!(extract_target(&a[0]).shared_as.is_some());
    assert_ne!(extract_target(&a[0]).shared_as, extract_target(&b[0]).shared_as);
    assert!(extract_target(&c[0]).shared_as.is_none());
}
