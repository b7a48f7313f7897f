//! Configuration of the broker.
//!
//! A configuration is read in two stages. The first checks the settings of the broker and its
//! server. A broker with durable storage then opens its store and gets a slot from it. The second
//! stage reads the registries and the routes.

pub mod decode;
pub mod routes;
pub mod sections;

use vstd::prelude::*;

use crate::actions::registry::{ActionCatalog, CatalogFacts};
use crate::bits::DEFAULT_MAX_JOBS;
use crate::config::routes::{
    invalid, invalid_error, missing, missing_error, routes_of, undecodable, undecodable_error,
    Registries, RouteFactory, Surroundings,
};
use crate::config::sections::{
    bits_config, bounds_or, default_server, metrics_config, opt_worker_server, read_bits_config,
    read_metrics_config, read_server_config, server_config, BitsConfig, BitsFacts,
    PersistenceConfig, PersistenceFacts, ServerConfig, ServerFacts, WorkerServerConfig,
    WorkerServerFacts, DEFAULT_BROKER_LEASE_TTL_SECS,
};
use crate::db::DbError;
use crate::error::{bits_problem, BitsError, BitsProblem, ConfigError, ConfigProblem};
use crate::json::{
    lookup, member_trees, number_text, opt_tree, parse_yaml, yaml_tree, Json, Number, NumberValue,
    Tree,
};
use crate::metrics::{default_buckets, BoundsFacts, BucketFacts, HistogramBuckets};
use crate::request_id::{encode_error_text, first_invalid, pack_tag, valid_tag, EncodeError};
use crate::routing::switch::{switch_problem, Switch};
use crate::routing::{routes_facts, Route, RouteFacts};
use crate::text::{cat5, chars_of, decimal, decimal_text, text_eq, texts};
use crate::time::{format_secs, secs_span, secs_text, span_from_secs, Span};

verus! {

// ---------------------------------------------------------------------------------------------
// Lengths of time
// ---------------------------------------------------------------------------------------------

/// A number of seconds as a length of time.
pub open spec fn secs_setting(field: Seq<char>, secs: NumberValue) -> Result<Span, BitsProblem> {
    match secs_span(number_text(secs)) {
        Ok(span) => Ok(span),
        Err(words) => Err(invalid(field, words)),
    }
}

/// A number of seconds as a length of time that is not zero.
pub open spec fn positive_setting(field: Seq<char>, secs: NumberValue) -> Result<
    Span,
    BitsProblem,
> {
    match secs_setting(field, secs) {
        Ok(span) => if span.total() == 0 {
            Err(invalid(field, "must be greater than zero"@))
        } else {
            Ok(span)
        },
        Err(p) => Err(p),
    }
}

fn duration_secs(field: &str, secs: &Number) -> (r: Result<Span, BitsError>)
    ensures
        match r {
            Ok(span) => secs_setting(field@, secs@) == Ok::<Span, BitsProblem>(span) && span.wf(),
            Err(e) => secs_setting(field@, secs@) == Err::<Span, BitsProblem>(bits_problem(e)),
        },
{
    match span_from_secs(&secs.to_text()) {
        Ok(span) => Ok(span),
        Err(words) => Err(invalid_error(field, &words)),
    }
}

fn positive_duration_secs(field: &str, secs: &Number) -> (r: Result<Span, BitsError>)
    ensures
        match r {
            Ok(span) => positive_setting(field@, secs@) == Ok::<Span, BitsProblem>(span)
                && span.wf(),
            Err(e) => positive_setting(field@, secs@) == Err::<Span, BitsProblem>(bits_problem(e)),
        },
{
    match duration_secs(field, secs) {
        Ok(span) => if span.is_zero() {
            Err(invalid_error(field, "must be greater than zero"))
        } else {
            Ok(span)
        },
        Err(e) => Err(e),
    }
}

/// A length of time that may be left out.
pub open spec fn opt_secs_setting(field: Seq<char>, secs: Option<NumberValue>) -> Result<
    Option<Span>,
    BitsProblem,
> {
    match secs {
        None => Ok(None),
        Some(secs) => match secs_setting(field, secs) {
            Ok(span) => Ok(Some(span)),
            Err(p) => Err(p),
        },
    }
}

/// A length of time that may be left out and is not zero.
pub open spec fn opt_positive_setting(field: Seq<char>, secs: Option<NumberValue>) -> Result<
    Option<Span>,
    BitsProblem,
> {
    match secs {
        None => Ok(None),
        Some(secs) => match positive_setting(field, secs) {
            Ok(span) => Ok(Some(span)),
            Err(p) => Err(p),
        },
    }
}

/// A number that may be left out.
pub open spec fn given_or(secs: Option<NumberValue>, default: NumberValue) -> NumberValue {
    match secs {
        Some(secs) => secs,
        None => default,
    }
}

// ---------------------------------------------------------------------------------------------
// Tags
// ---------------------------------------------------------------------------------------------

/// Why a text is no tag, in words.
pub open spec fn tag_problem(tag: Seq<char>) -> Option<Seq<char>> {
    if valid_tag(tag) {
        None
    } else if tag.len() == 0 {
        Some(encode_error_text(EncodeError::EmptyTag))
    } else if tag.len() > 3 {
        Some(encode_error_text(EncodeError::TagTooLong { actual: tag.len() as usize }))
    } else {
        Some(
            encode_error_text(
                EncodeError::InvalidTagCharacter { ch: choose|ch: char| first_invalid(tag, ch) },
            ),
        )
    }
}

/// The tag of a site or an environment: a text, or a number without a sign.
pub open spec fn tag_setting(field: Seq<char>, value: Option<Tree>) -> Result<
    Seq<char>,
    BitsProblem,
> {
    match value {
        None => Err(missing(field)),
        Some(Tree::Str(tag)) => match tag_problem(tag) {
            Some(words) => Err(invalid(field, words)),
            None => Ok(tag),
        },
        Some(Tree::Number(NumberValue::Unsigned(n))) => match tag_problem(
            decimal_text(n as nat),
        ) {
            Some(words) => Err(invalid(field, words)),
            None => Ok(decimal_text(n as nat)),
        },
        Some(_) => Err(invalid(field, "must be a string or unsigned integer tag"@)),
    }
}

proof fn lemma_first_invalid_is_unique(tag: Seq<char>, a: char, b: char)
    requires
        first_invalid(tag, a),
        first_invalid(tag, b),
    ensures
        a == b,
{
    let i = choose|i: int|
        #![trigger tag[i]]
        {
            &&& 0 <= i < tag.len()
            &&& tag[i] == a
            &&& !crate::request_id::is_tag_char(a)
            &&& forall|k: int| 0 <= k < i ==> crate::request_id::is_tag_char(#[trigger] tag[k])
        };
    let j = choose|j: int|
        #![trigger tag[j]]
        {
            &&& 0 <= j < tag.len()
            &&& tag[j] == b
            &&& !crate::request_id::is_tag_char(b)
            &&& forall|k: int| 0 <= k < j ==> crate::request_id::is_tag_char(#[trigger] tag[k])
        };
    assert(i < tag.len() && j < tag.len());
    if i < j {
        assert(crate::request_id::is_tag_char(tag[i]));
    } else if j < i {
        assert(crate::request_id::is_tag_char(tag[j]));
    }
}

fn require_site_env_tag(field: &str, value: &Option<Json>) -> (r: Result<String, BitsError>)
    ensures
        match r {
            Ok(tag) => tag_setting(field@, crate::config::decode::opt_json(*value)) == Ok::<
                Seq<char>,
                BitsProblem,
            >(tag@),
            Err(e) => tag_setting(field@, crate::config::decode::opt_json(*value)) == Err::<
                Seq<char>,
                BitsProblem,
            >(bits_problem(e)),
        },
{
    let tag = match value {
        None => {
            return Err(missing_error(field));
        },
        Some(Json::Str(tag)) => tag.clone(),
        Some(Json::Number(Number::Unsigned(n))) => decimal(*n),
        Some(_) => {
            return Err(invalid_error(field, "must be a string or unsigned integer tag"));
        },
    };
    match pack_tag(&tag) {
        Ok(_) => Ok(tag),
        Err(e) => {
            proof {
                assert(!valid_tag(tag@)) by {
                    if e is InvalidTagCharacter {
                        let ch = e->ch;
                        assert(first_invalid(tag@, ch));
                    }
                }
                if e is InvalidTagCharacter {
                    let ch = choose|ch: char| first_invalid(tag@, ch);
                    assert(first_invalid(tag@, e->ch));
                    lemma_first_invalid_is_unique(tag@, e->ch, ch);
                }
            }
            Err(invalid_error(field, &e.to_text()))
        },
    }
}

// ---------------------------------------------------------------------------------------------
// Storage
// ---------------------------------------------------------------------------------------------

/// A store that is to be opened.
#[derive(Debug)]
pub enum StorePlan {
    TiKv { endpoints: Vec<String>, connect_timeout: Span },
    Nats {
        url: String,
        jobs_bucket: String,
        leases_bucket: String,
        lease_ttl: Span,
        num_replicas: usize,
        connect_timeout: Span,
        /// How often opening the store is tried.
        max_attempts: u32,
    },
}

/// The mathematical contents of a [`StorePlan`].
pub enum PlannedStore {
    TiKv { endpoints: Seq<Seq<char>>, connect_timeout: Span },
    Nats {
        url: Seq<char>,
        jobs_bucket: Seq<char>,
        leases_bucket: Seq<char>,
        lease_ttl: Span,
        num_replicas: usize,
        connect_timeout: Span,
        max_attempts: u32,
    },
}

impl View for StorePlan {
    type V = PlannedStore;

    open spec fn view(&self) -> PlannedStore {
        match *self {
            StorePlan::TiKv { endpoints, connect_timeout } => PlannedStore::TiKv {
                endpoints: texts(endpoints@),
                connect_timeout,
            },
            StorePlan::Nats {
                url,
                jobs_bucket,
                leases_bucket,
                lease_ttl,
                num_replicas,
                connect_timeout,
                max_attempts,
            } => PlannedStore::Nats {
                url: url@,
                jobs_bucket: jobs_bucket@,
                leases_bucket: leases_bucket@,
                lease_ttl,
                num_replicas,
                connect_timeout,
                max_attempts,
            },
        }
    }
}

/// The length of a broker's lease, one second at least.
pub open spec fn lease_setting(secs: NumberValue) -> Result<Span, BitsProblem> {
    match secs_setting("bits.persistence.broker_lease_ttl_secs"@, secs) {
        Err(p) => Err(p),
        Ok(ttl) => if ttl.secs < 1 {
            Err(
                invalid(
                    "bits.persistence.broker_lease_ttl_secs"@,
                    "must be at least 1 second"@,
                ),
            )
        } else {
            Ok(ttl)
        },
    }
}

/// How long connecting to a store may take, ten seconds if nothing is said.
pub open spec fn connect_setting(secs: Option<NumberValue>) -> Result<Span, BitsProblem> {
    match secs {
        Some(secs) => positive_setting("bits.persistence.connect_timeout_secs"@, secs),
        None => Ok(Span { secs: 10, nanos: 0 }),
    }
}

/// The store that settings ask for and the length of a broker's lease, or the first thing that is
/// wrong with them.
pub open spec fn planned_store(config: PersistenceFacts) -> Result<(PlannedStore, Span), BitsProblem> {
    match config {
        PersistenceFacts::Tikv { endpoints, broker_lease_ttl_secs, connect_timeout_secs } => {
            let ttl = lease_setting(broker_lease_ttl_secs);
            let connect = connect_setting(connect_timeout_secs);
            if endpoints.len() == 0 {
                Err(invalid("bits.persistence.endpoints"@, "must not be empty"@))
            } else if ttl is Err {
                Err(ttl->Err_0)
            } else if connect is Err {
                Err(connect->Err_0)
            } else {
                Ok((PlannedStore::TiKv { endpoints, connect_timeout: connect->Ok_0 }, ttl->Ok_0))
            }
        },
        PersistenceFacts::Nats {
            url,
            jobs_bucket,
            leases_bucket,
            broker_lease_ttl_secs,
            num_replicas,
            connect_timeout_secs,
            init_max_attempts,
        } => {
            let ttl = lease_setting(broker_lease_ttl_secs);
            let connect = connect_setting(connect_timeout_secs);
            let max_attempts: u32 = match init_max_attempts {
                Some(n) => n,
                None => 6,
            };
            if url.len() == 0 {
                Err(invalid("bits.persistence.url"@, "must not be empty"@))
            } else if jobs_bucket.len() == 0 {
                Err(invalid("bits.persistence.jobs_bucket"@, "must not be empty"@))
            } else if leases_bucket.len() == 0 {
                Err(invalid("bits.persistence.leases_bucket"@, "must not be empty"@))
            } else if num_replicas < 1 {
                Err(invalid("bits.persistence.num_replicas"@, "must be at least 1"@))
            } else if ttl is Err {
                Err(ttl->Err_0)
            } else if connect is Err {
                Err(connect->Err_0)
            } else if max_attempts < 1 {
                Err(invalid("bits.persistence.init_max_attempts"@, "must be at least 1"@))
            } else {
                Ok(
                    (
                        PlannedStore::Nats {
                            url,
                            jobs_bucket,
                            leases_bucket,
                            lease_ttl: ttl->Ok_0,
                            num_replicas,
                            connect_timeout: connect->Ok_0,
                            max_attempts,
                        },
                        ttl->Ok_0,
                    ),
                )
            }
        },
    }
}

fn lease_ttl(secs: &Number) -> (r: Result<Span, BitsError>)
    ensures
        match r {
            Ok(ttl) => lease_setting(secs@) == Ok::<Span, BitsProblem>(ttl) && ttl.wf(),
            Err(e) => lease_setting(secs@) == Err::<Span, BitsProblem>(bits_problem(e)),
        },
{
    match duration_secs("bits.persistence.broker_lease_ttl_secs", secs) {
        Err(e) => Err(e),
        Ok(ttl) => if ttl.secs < 1 {
            Err(
                invalid_error(
                    "bits.persistence.broker_lease_ttl_secs",
                    "must be at least 1 second",
                ),
            )
        } else {
            Ok(ttl)
        },
    }
}

fn connect_timeout(secs: &Option<Number>) -> (r: Result<Span, BitsError>)
    ensures
        match r {
            Ok(span) => connect_setting(crate::config::decode::opt_number_value(*secs)) == Ok::<
                Span,
                BitsProblem,
            >(span) && span.wf(),
            Err(e) => connect_setting(crate::config::decode::opt_number_value(*secs)) == Err::<
                Span,
                BitsProblem,
            >(bits_problem(e)),
        },
{
    match secs {
        Some(secs) => positive_duration_secs("bits.persistence.connect_timeout_secs", secs),
        None => Ok(Span { secs: 10, nanos: 0 }),
    }
}

fn is_empty_text(s: &str) -> (r: bool)
    ensures
        r == (s@.len() == 0),
{
    chars_of(s).len() == 0
}

/// Plans the store that settings ask for.
fn plan_store(config: PersistenceConfig) -> (r: Result<(StorePlan, Span), BitsError>)
    ensures
        match r {
            Ok((plan, ttl)) => planned_store(config@) == Ok::<(PlannedStore, Span), BitsProblem>(
                (plan@, ttl),
            ),
            Err(e) => planned_store(config@) == Err::<(PlannedStore, Span), BitsProblem>(
                bits_problem(e),
            ),
        },
{
    match config {
        PersistenceConfig::Tikv { endpoints, broker_lease_ttl_secs, connect_timeout_secs } => {
            if endpoints.len() == 0 {
                return Err(invalid_error("bits.persistence.endpoints", "must not be empty"));
            }
            let ttl = match lease_ttl(&broker_lease_ttl_secs) {
                Ok(ttl) => ttl,
                Err(e) => return Err(e),
            };
            let connect_timeout = match connect_timeout(&connect_timeout_secs) {
                Ok(span) => span,
                Err(e) => return Err(e),
            };
            Ok((StorePlan::TiKv { endpoints, connect_timeout }, ttl))
        },
        PersistenceConfig::Nats {
            url,
            jobs_bucket,
            leases_bucket,
            broker_lease_ttl_secs,
            num_replicas,
            connect_timeout_secs,
            init_max_attempts,
        } => {
            if is_empty_text(&url) {
                return Err(invalid_error("bits.persistence.url", "must not be empty"));
            }
            if is_empty_text(&jobs_bucket) {
                return Err(invalid_error("bits.persistence.jobs_bucket", "must not be empty"));
            }
            if is_empty_text(&leases_bucket) {
                return Err(invalid_error("bits.persistence.leases_bucket", "must not be empty"));
            }
            if num_replicas < 1 {
                return Err(invalid_error("bits.persistence.num_replicas", "must be at least 1"));
            }
            let ttl = match lease_ttl(&broker_lease_ttl_secs) {
                Ok(ttl) => ttl,
                Err(e) => return Err(e),
            };
            let connect_timeout = match connect_timeout(&connect_timeout_secs) {
                Ok(span) => span,
                Err(e) => return Err(e),
            };
            let max_attempts: u32 = match init_max_attempts {
                Some(n) => n,
                None => 6,
            };
            if max_attempts < 1 {
                return Err(
                    invalid_error("bits.persistence.init_max_attempts", "must be at least 1"),
                );
            }
            Ok(
                (
                    StorePlan::Nats {
                        url,
                        jobs_bucket,
                        leases_bucket,
                        lease_ttl: ttl,
                        num_replicas,
                        connect_timeout,
                        max_attempts,
                    },
                    ttl,
                ),
            )
        },
    }
}

// ---------------------------------------------------------------------------------------------
// Opening a store
// ---------------------------------------------------------------------------------------------

/// The opening of a store that may not be ready yet.
pub struct InitRetry {
    pub max_attempts: u32,
    /// Attempts that failed.
    pub failed: u32,
}

/// What follows a failed attempt.
pub enum InitStep {
    /// Wait this many seconds and try again.
    Retry { delay_secs: u64 },
    /// Give up.
    Failed(ConfigError),
}

/// Seconds to wait after a number of failures: one, then twice as many each time, ten at most.
pub open spec fn init_delay(failed: nat) -> nat
    decreases failed,
{
    if failed <= 1 {
        1
    } else if 2 * init_delay((failed - 1) as nat) > 10 {
        10
    } else {
        2 * init_delay((failed - 1) as nat)
    }
}

proof fn lemma_init_delay(failed: nat)
    ensures
        failed <= 1 ==> init_delay(failed) == 1,
        failed == 2 ==> init_delay(failed) == 2,
        failed == 3 ==> init_delay(failed) == 4,
        failed == 4 ==> init_delay(failed) == 8,
        failed >= 5 ==> init_delay(failed) == 10,
    decreases failed,
{
    if failed > 1 {
        lemma_init_delay((failed - 1) as nat);
    }
}

impl InitRetry {
    pub fn new(max_attempts: u32) -> (r: InitRetry)
        ensures
            r.max_attempts == max_attempts,
            r.failed == 0,
    {
        InitRetry { max_attempts, failed: 0 }
    }

    /// Decides what follows a failed attempt.
    pub fn after_failure(&mut self, reason: String) -> (step: InitStep)
        requires
            old(self).failed < old(self).max_attempts,
        ensures
            final(self).max_attempts == old(self).max_attempts,
            final(self).failed == old(self).failed + 1,
            if final(self).failed < final(self).max_attempts {
                step matches InitStep::Retry { delay_secs } && delay_secs == init_delay(
                    final(self).failed as nat,
                )
            } else {
                step matches InitStep::Failed(e) && e@ == (ConfigProblem::PersistenceInit {
                    path: "bits.persistence"@,
                    backend: "nats"@,
                    reason: reason@,
                })
            },
    {
        self.failed = self.failed + 1;
        if self.failed < self.max_attempts {
            proof {
                lemma_init_delay(self.failed as nat);
            }
            let delay_secs: u64 = if self.failed <= 1 {
                1
            } else if self.failed == 2 {
                2
            } else if self.failed == 3 {
                4
            } else if self.failed == 4 {
                8
            } else {
                10
            };
            InitStep::Retry { delay_secs }
        } else {
            InitStep::Failed(
                ConfigError::PersistenceInit {
                    path: "bits.persistence".to_owned(),
                    backend: "nats".to_owned(),
                    reason,
                },
            )
        }
    }
}

/// The wait between attempts never shrinks and never goes beyond ten seconds.
pub proof fn law_init_delays_are_bounded(failed: nat)
    ensures
        1 <= init_delay(failed) <= init_delay(failed + 1) <= 10,
{
    lemma_init_delay(failed);
    lemma_init_delay(failed + 1);
}

// ---------------------------------------------------------------------------------------------
// Settings
// ---------------------------------------------------------------------------------------------

/// The settings of a broker and its server.
#[derive(Debug)]
pub struct Settings {
    pub site: String,
    pub env: String,
    pub internal_poll_endpoint: String,
    pub internal_poll_timeout: Span,
    pub sweep_interval: Option<Span>,
    pub reconnect_buffer: Span,
    pub persist_after: Option<Span>,
    pub store: Option<StorePlan>,
    pub broker_lease_ttl: Span,
    pub max_jobs: usize,
    pub worker_server: Option<WorkerServerConfig>,
    /// Configuration for the built-in HTTP server.
    pub server_config: ServerConfig,
    /// Whether the configuration has a `server` section.
    pub had_server_section: bool,
    /// Boundaries of the histogram buckets.
    pub metrics: HistogramBuckets,
}

/// The mathematical contents of [`Settings`].
pub struct SettingsFacts {
    pub site: Seq<char>,
    pub env: Seq<char>,
    pub internal_poll_endpoint: Seq<char>,
    pub internal_poll_timeout: Span,
    pub sweep_interval: Option<Span>,
    pub reconnect_buffer: Span,
    pub persist_after: Option<Span>,
    pub store: Option<PlannedStore>,
    pub broker_lease_ttl: Span,
    pub max_jobs: usize,
    pub worker_server: Option<WorkerServerFacts>,
    pub server_config: ServerFacts,
    pub had_server_section: bool,
    pub metrics: BucketFacts,
}

pub open spec fn opt_store(plan: Option<StorePlan>) -> Option<PlannedStore> {
    match plan {
        Some(plan) => Some(plan@),
        None => None,
    }
}

impl View for Settings {
    type V = SettingsFacts;

    open spec fn view(&self) -> SettingsFacts {
        SettingsFacts {
            site: self.site@,
            env: self.env@,
            internal_poll_endpoint: self.internal_poll_endpoint@,
            internal_poll_timeout: self.internal_poll_timeout,
            sweep_interval: self.sweep_interval,
            reconnect_buffer: self.reconnect_buffer,
            persist_after: self.persist_after,
            store: opt_store(self.store),
            broker_lease_ttl: self.broker_lease_ttl,
            max_jobs: self.max_jobs,
            worker_server: opt_worker_server(self.worker_server),
            server_config: self.server_config@,
            had_server_section: self.had_server_section,
            metrics: self.metrics@,
        }
    }
}

/// The `bits` section of a configuration, empty if it is left out.
pub open spec fn bits_section(section: Option<Tree>) -> Result<BitsFacts, BitsProblem> {
    match section {
        None => Ok(empty_bits()),
        Some(value) => match bits_config(value) {
            Some(config) => Ok(config),
            None => Err(undecodable("bits"@, "BitsConfig"@, value)),
        },
    }
}

/// A `bits` section in which nothing is said.
pub open spec fn empty_bits() -> BitsFacts {
    BitsFacts {
        broker_id_prefix: None,
        site: None,
        env: None,
        internal_poll_endpoint: None,
        internal_poll_timeout_secs: None,
        sweep_interval_secs: None,
        reconnect_buffer_secs: None,
        persist_after_secs: None,
        persistence: None,
        worker_server: None,
        max_jobs: None,
    }
}

/// The `server` section of a configuration.
pub open spec fn server_section(section: Option<Tree>) -> Result<ServerFacts, BitsProblem> {
    match section {
        None => Ok(default_server()),
        Some(value) => match server_config(value) {
            Some(config) => Ok(config),
            None => Err(undecodable("server"@, "ServerConfig"@, value)),
        },
    }
}

/// The boundaries of histogram buckets that a configuration gives, and the default ones for a key
/// that is left out.
pub open spec fn metrics_section(section: Option<Tree>) -> Result<BucketFacts, BitsProblem> {
    match metrics_config(section) {
        Some((duration, queue_wait)) => Ok(
            BucketFacts {
                duration: bounds_or(duration, default_buckets().duration),
                queue_wait: bounds_or(queue_wait, default_buckets().queue_wait),
            },
        ),
        None => Err(undecodable("metrics"@, "MetricsConfig"@, section->0)),
    }
}

/// The host under which a server reaches itself.
pub open spec fn loopback_of(host: Seq<char>) -> Seq<char> {
    if host == "0.0.0.0"@ {
        "127.0.0.1"@
    } else if host == "::"@ {
        "::1"@
    } else {
        host
    }
}

/// The endpoint under which other brokers poll this one, if none is given.
pub open spec fn derived_endpoint(server: ServerFacts) -> Seq<char> {
    let host = loopback_of(server.host);
    if host.contains(':') {
        "http://["@ + host + "]:"@ + decimal_text(server.port as nat) + "/job"@
    } else {
        "http://"@ + host + ":"@ + decimal_text(server.port as nat) + "/job"@
    }
}

/// The words for jobs that would be persisted only after their poll has ended.
pub open spec fn persist_too_late(persist_after: Span, poll_timeout: Span) -> Seq<char> {
    "bits.persist_after_secs ("@ + secs_text(persist_after.secs, persist_after.nanos)
        + " s) + 1 s guard must be less than server.poll_timeout_secs ("@ + secs_text(
        poll_timeout.secs,
        poll_timeout.nanos,
    ) + " s)"@
}

/// The settings that the `bits`, `server` and `metrics` sections give, or the first thing that is
/// wrong with them. Jobs are persisted only where there is a store, and at least a second before
/// their poll ends.
pub open spec fn settings_from(
    config: BitsFacts,
    server: Option<Tree>,
    metrics: Option<Tree>,
) -> Result<SettingsFacts, BitsProblem> {
    let site = tag_setting("bits.site"@, config.site);
    let env = tag_setting("bits.env"@, config.env);
    let internal_poll = positive_setting(
        "bits.internal_poll_timeout_secs"@,
        given_or(config.internal_poll_timeout_secs, NumberValue::Fraction("2.5"@)),
    );
    let sweep = opt_positive_setting("bits.sweep_interval_secs"@, config.sweep_interval_secs);
    let reconnect = positive_setting(
        "bits.reconnect_buffer_secs"@,
        given_or(config.reconnect_buffer_secs, NumberValue::Unsigned(5)),
    );
    let persist = opt_secs_setting("bits.persist_after_secs"@, config.persist_after_secs);
    let http = server_section(server);
    let poll = positive_setting("server.poll_timeout_secs"@, http->Ok_0.poll_timeout_secs);
    let store = planned_store(config.persistence->0);
    if site is Err {
        Err(site->Err_0)
    } else if env is Err {
        Err(env->Err_0)
    } else if internal_poll is Err {
        Err(internal_poll->Err_0)
    } else if sweep is Err {
        Err(sweep->Err_0)
    } else if reconnect is Err {
        Err(reconnect->Err_0)
    } else if persist is Err {
        Err(persist->Err_0)
    } else if config.max_jobs == Some(0usize) {
        Err(invalid("bits.max_jobs"@, "must be greater than zero"@))
    } else if http is Err {
        Err(http->Err_0)
    } else if poll is Err {
        Err(poll->Err_0)
    } else if http->Ok_0.retry_after_secs == 0 {
        Err(invalid("server.retry_after_secs"@, "must be greater than zero"@))
    } else if config.persistence is Some && (persist->Ok_0 matches Some(after) && after.total()
        + 1_000_000_000 >= poll->Ok_0.total()) {
        Err(
            invalid(
                "bits.persist_after_secs"@,
                persist_too_late((persist->Ok_0)->0, poll->Ok_0),
            ),
        )
    } else if config.persistence is Some && store is Err {
        Err(store->Err_0)
    } else if metrics_section(metrics) is Err {
        Err(metrics_section(metrics)->Err_0)
    } else {
        Ok(
            SettingsFacts {
                site: site->Ok_0,
                env: env->Ok_0,
                internal_poll_endpoint: match config.internal_poll_endpoint {
                    Some(endpoint) => endpoint,
                    None => derived_endpoint(http->Ok_0),
                },
                internal_poll_timeout: internal_poll->Ok_0,
                sweep_interval: sweep->Ok_0,
                reconnect_buffer: reconnect->Ok_0,
                persist_after: if config.persistence is Some {
                    persist->Ok_0
                } else {
                    None
                },
                store: if config.persistence is Some {
                    Some((store->Ok_0).0)
                } else {
                    None
                },
                broker_lease_ttl: if config.persistence is Some {
                    (store->Ok_0).1
                } else {
                    Span { secs: DEFAULT_BROKER_LEASE_TTL_SECS, nanos: 0 }
                },
                max_jobs: match config.max_jobs {
                    Some(n) => n,
                    None => DEFAULT_MAX_JOBS,
                },
                worker_server: config.worker_server,
                server_config: http->Ok_0,
                had_server_section: server is Some,
                metrics: metrics_section(metrics)->Ok_0,
            },
        )
    }
}

/// The settings that a configuration gives.
pub open spec fn settings(raw: Tree) -> Result<SettingsFacts, BitsProblem> {
    if !(raw is Obj) {
        Err(invalid("config"@, "top-level config must be a YAML mapping"@))
    } else {
        match bits_section(raw.get("bits"@)) {
            Err(p) => Err(p),
            Ok(config) => settings_from(config, raw.get("server"@), raw.get("metrics"@)),
        }
    }
}

fn contains_colon(s: &str) -> (r: bool)
    ensures
        r == s@.contains(':'),
{
    let chars = chars_of(s);
    let mut i: usize = 0;
    while i < chars.len()
        invariant
            i <= chars@.len(),
            chars@ == s@,
            forall|k: int| 0 <= k < i ==> s@[k] != ':',
        decreases chars@.len() - i,
    {
        if chars[i] == ':' {
            assert(s@[i as int] == ':');
            return true;
        }
        i = i + 1;
    }
    false
}

/// Derives the endpoint under which other brokers poll this one.
pub fn derive_endpoint(server: &ServerConfig) -> (r: String)
    ensures
        r@ == derived_endpoint(server@),
{
    let host = if text_eq(&server.host, "0.0.0.0") {
        "127.0.0.1".to_owned()
    } else if text_eq(&server.host, "::") {
        "::1".to_owned()
    } else {
        server.host.clone()
    };
    let port = decimal(server.port as u64);
    if contains_colon(&host) {
        cat5("http://[", &host, "]:", &port, "/job")
    } else {
        cat5("http://", &host, ":", &port, "/job")
    }
}

/// Checks the settings that the `bits`, `server` and `metrics` sections give.
pub fn read_settings(
    config: BitsConfig,
    server: Option<&Json>,
    metrics: Option<&Json>,
) -> (r: Result<Settings, BitsError>)
    ensures
        match r {
            Ok(settings) => settings_from(config@, opt_tree(server), opt_tree(metrics)) == Ok::<
                SettingsFacts,
                BitsProblem,
            >(settings@),
            Err(e) => settings_from(config@, opt_tree(server), opt_tree(metrics)) == Err::<
                SettingsFacts,
                BitsProblem,
            >(bits_problem(e)),
        },
{
    let site = match require_site_env_tag("bits.site", &config.site) {
        Ok(tag) => tag,
        Err(e) => return Err(e),
    };
    let env = match require_site_env_tag("bits.env", &config.env) {
        Ok(tag) => tag,
        Err(e) => return Err(e),
    };
    let internal_poll_secs = match config.internal_poll_timeout_secs {
        Some(n) => n,
        None => Number::Fraction("2.5".to_owned()),
    };
    let internal_poll_timeout = match positive_duration_secs(
        "bits.internal_poll_timeout_secs",
        &internal_poll_secs,
    ) {
        Ok(span) => span,
        Err(e) => return Err(e),
    };
    let sweep_interval = match &config.sweep_interval_secs {
        None => None,
        Some(n) => match positive_duration_secs("bits.sweep_interval_secs", n) {
            Ok(span) => Some(span),
            Err(e) => return Err(e),
        },
    };
    let reconnect_secs = match config.reconnect_buffer_secs {
        Some(n) => n,
        None => Number::Unsigned(5),
    };
    let reconnect_buffer = match positive_duration_secs(
        "bits.reconnect_buffer_secs",
        &reconnect_secs,
    ) {
        Ok(span) => span,
        Err(e) => return Err(e),
    };
    let persist_after = match &config.persist_after_secs {
        None => None,
        Some(n) => match duration_secs("bits.persist_after_secs", n) {
            Ok(span) => Some(span),
            Err(e) => return Err(e),
        },
    };
    match config.max_jobs {
        Some(n) => {
            if n == 0 {
                return Err(invalid_error("bits.max_jobs", "must be greater than zero"));
            }
        },
        None => {},
    }
    let had_server_section = server.is_some();
    let server_config = match server {
        None => ServerConfig::default(),
        Some(value) => match read_server_config(value) {
            Some(config) => config,
            None => return Err(undecodable_error("server", "ServerConfig", value)),
        },
    };
    let poll_timeout = match positive_duration_secs(
        "server.poll_timeout_secs",
        &server_config.poll_timeout_secs,
    ) {
        Ok(span) => span,
        Err(e) => return Err(e),
    };
    if server_config.retry_after_secs == 0 {
        return Err(invalid_error("server.retry_after_secs", "must be greater than zero"));
    }
    if config.persistence.is_some() {
        match persist_after {
            Some(after) => {
                if after.as_nanos() + 1_000_000_000 >= poll_timeout.as_nanos() {
                    let words = cat5(
                        "bits.persist_after_secs (",
                        &format_secs(after.secs, after.nanos),
                        " s) + 1 s guard must be less than server.poll_timeout_secs (",
                        &format_secs(poll_timeout.secs, poll_timeout.nanos),
                        " s)",
                    );
                    return Err(invalid_error("bits.persist_after_secs", &words));
                }
            },
            None => {},
        }
    }
    let internal_poll_endpoint = match config.internal_poll_endpoint {
        Some(endpoint) => endpoint,
        None => derive_endpoint(&server_config),
    };
    let (store, broker_lease_ttl, persist_after) = match config.persistence {
        Some(persistence) => match plan_store(persistence) {
            Ok((plan, ttl)) => (Some(plan), ttl, persist_after),
            Err(e) => return Err(e),
        },
        None => (None, Span { secs: DEFAULT_BROKER_LEASE_TTL_SECS, nanos: 0 }, None),
    };
    let metrics = match read_metrics_config(metrics) {
        Some(section) => section.buckets(),
        None => match metrics {
            Some(value) => return Err(undecodable_error("metrics", "MetricsConfig", value)),
            None => HistogramBuckets::default(),
        },
    };
    let max_jobs: usize = match config.max_jobs {
        Some(n) => n,
        None => DEFAULT_MAX_JOBS,
    };
    Ok(
        Settings {
            site,
            env,
            internal_poll_endpoint,
            internal_poll_timeout,
            sweep_interval,
            reconnect_buffer,
            persist_after,
            store,
            broker_lease_ttl,
            max_jobs,
            worker_server: config.worker_server,
            server_config,
            had_server_section,
            metrics,
        },
    )
}

// ---------------------------------------------------------------------------------------------
// Registries and routes
// ---------------------------------------------------------------------------------------------

/// The entries of a registry.
pub open spec fn registry(raw: Tree, section: Seq<char>) -> Result<
    Seq<(Seq<char>, Tree)>,
    BitsProblem,
> {
    match raw.get(section) {
        None => Ok(Seq::empty()),
        Some(Tree::Obj(members)) => Ok(members),
        Some(value) => Err(undecodable(section, "map"@, value)),
    }
}

fn read_registry(raw: &Json, section: &str) -> (r: Result<Vec<(String, Json)>, BitsError>)
    ensures
        match r {
            Ok(members) => registry(raw@, section@) == Ok::<Seq<(Seq<char>, Tree)>, BitsProblem>(
                member_trees(members@),
            ),
            Err(e) => registry(raw@, section@) == Err::<Seq<(Seq<char>, Tree)>, BitsProblem>(
                bits_problem(e),
            ),
        },
{
    match raw.get(section) {
        None => {
            let none: Vec<(String, Json)> = Vec::new();
            assert(member_trees(none@) =~= Seq::<(Seq<char>, Tree)>::empty());
            Ok(none)
        },
        Some(value) => match value.copy() {
            Json::Object(members) => Ok(members),
            _ => Err(undecodable_error(section, "map", value)),
        },
    }
}

/// A broker that is ready to run.
#[derive(Debug)]
pub struct RuntimeConfig {
    pub router: Switch,
    pub route_factory: RouteFactory,
    pub sweep_interval: Option<Span>,
    pub reconnect_buffer: Span,
    pub site: String,
    pub env: String,
    pub broker_slot: u16,
    pub internal_poll_endpoint: String,
    pub internal_poll_timeout: Span,
    pub job_store: Option<StorePlan>,
    pub broker_lease_ttl: Span,
    pub persist_after: Option<Span>,
    pub max_jobs: usize,
    pub worker_server: Option<WorkerServerConfig>,
}

/// Parsed startup configuration split into broker runtime and HTTP server parts.
#[derive(Debug)]
pub struct Bootstrap {
    pub runtime_config: RuntimeConfig,
    /// Configuration for the built-in HTTP server.
    pub server_config: ServerConfig,
    /// Whether the configuration has a `server` section.
    pub had_server_section: bool,
    /// Boundaries of the histogram buckets.
    pub metrics: HistogramBuckets,
}

impl Bootstrap {
    /// The boundaries of the histogram buckets that the configuration comes to.
    pub fn metrics_buckets(&self) -> (r: &HistogramBuckets)
        ensures
            r@ == self.carried().metrics,
    {
        &self.metrics
    }

    /// The settings that were carried over.
    pub open spec fn carried(self) -> SettingsFacts {
        SettingsFacts {
            site: self.runtime_config.site@,
            env: self.runtime_config.env@,
            internal_poll_endpoint: self.runtime_config.internal_poll_endpoint@,
            internal_poll_timeout: self.runtime_config.internal_poll_timeout,
            sweep_interval: self.runtime_config.sweep_interval,
            reconnect_buffer: self.runtime_config.reconnect_buffer,
            persist_after: self.runtime_config.persist_after,
            store: opt_store(self.runtime_config.job_store),
            broker_lease_ttl: self.runtime_config.broker_lease_ttl,
            max_jobs: self.runtime_config.max_jobs,
            worker_server: opt_worker_server(self.runtime_config.worker_server),
            server_config: self.server_config@,
            had_server_section: self.had_server_section,
            metrics: self.metrics@,
        }
    }
}

/// A configuration whose settings were checked. A store has to be opened next, where one is
/// planned.
#[derive(Debug)]
pub struct Startup {
    pub settings: Settings,
    pub raw: Json,
    pub catalog: ActionCatalog,
}

/// What surrounds the routes of a configuration.
pub open spec fn surroundings(
    raw: Tree,
    has_worker_server: bool,
    catalog: CatalogFacts,
) -> Result<Surroundings, BitsProblem> {
    let checks = registry(raw, "checks"@);
    let transforms = registry(raw, "transforms"@);
    let targets = registry(raw, "targets"@);
    if checks is Err {
        Err(checks->Err_0)
    } else if transforms is Err {
        Err(transforms->Err_0)
    } else if targets is Err {
        Err(targets->Err_0)
    } else {
        Ok(
            Surroundings {
                checks: checks->Ok_0,
                transforms: transforms->Ok_0,
                targets: targets->Ok_0,
                has_worker_server,
                catalog,
            },
        )
    }
}

/// The routes of a configuration, each of which must be in order. A configuration may have none.
pub open spec fn configured_routes(raw: Tree, around: Surroundings) -> Result<
    Seq<RouteFacts>,
    BitsProblem,
> {
    match raw.get("routes"@) {
        None => Ok(Seq::empty()),
        Some(value) => match routes_of(value, "routes"@, around) {
            Err(p) => Err(p),
            Ok(routes) => match switch_problem(routes) {
                Some(p) => Err(BitsProblem::Routing(p)),
                None => Ok(routes),
            },
        },
    }
}

/// What the second stage comes to.
pub open spec fn finished(
    settings: SettingsFacts,
    raw: Tree,
    catalog: CatalogFacts,
    broker_slot: u16,
    r: Result<Bootstrap, BitsError>,
) -> bool {
    let around = surroundings(raw, settings.worker_server is Some, catalog);
    let routes = configured_routes(raw, around->Ok_0);
    match r {
        Ok(bootstrap) => {
            &&& around is Ok
            &&& routes is Ok
            &&& bootstrap.carried() == settings
            &&& bootstrap.runtime_config.broker_slot == broker_slot
            &&& bootstrap.runtime_config.route_factory@ == around->Ok_0
            &&& bootstrap.runtime_config.router@ == routes->Ok_0
        },
        Err(e) => if around is Err {
            bits_problem(e) == around->Err_0
        } else {
            routes is Err && bits_problem(e) == routes->Err_0
        },
    }
}

impl Startup {
    /// Goes on with the slot that a store allocated, or fails where it allocated none.
    pub fn after_allocation(self, allocated: Result<u16, DbError>) -> (r: Result<
        Bootstrap,
        BitsError,
    >)
        ensures
            match allocated {
                Ok(slot) => finished(self.settings@, self.raw@, self.catalog@, slot, r),
                Err(e) => r == Err::<Bootstrap, BitsError>(BitsError::Persistence(e)),
            },
    {
        match allocated {
            Ok(slot) => self.finish(slot),
            Err(e) => Err(BitsError::Persistence(e)),
        }
    }

    /// Reads the registries and the routes, for a broker with a slot.
    pub fn finish(self, broker_slot: u16) -> (r: Result<Bootstrap, BitsError>)
        ensures
            finished(self.settings@, self.raw@, self.catalog@, broker_slot, r),
    {
        let checks = match read_registry(&self.raw, "checks") {
            Ok(members) => members,
            Err(e) => return Err(e),
        };
        let transforms = match read_registry(&self.raw, "transforms") {
            Ok(members) => members,
            Err(e) => return Err(e),
        };
        let targets = match read_registry(&self.raw, "targets") {
            Ok(members) => members,
            Err(e) => return Err(e),
        };
        let settings = self.settings;
        let route_factory = RouteFactory {
            registries: Registries { checks, transforms, targets },
            has_worker_server: settings.worker_server.is_some(),
            catalog: self.catalog,
        };
        let branches: Vec<Route> = match self.raw.get("routes") {
            None => {
                let none: Vec<Route> = Vec::new();
                assert(routes_facts(none@) =~= Seq::<RouteFacts>::empty());
                none
            },
            Some(value) => match route_factory.parse_route("routes", value) {
                Ok(routes) => routes,
                Err(e) => return Err(e),
            },
        };
        let router = Switch::new(branches);
        match router.validate() {
            Ok(()) => {},
            Err(e) => return Err(BitsError::Routing(e)),
        }
        Ok(
            Bootstrap {
                runtime_config: RuntimeConfig {
                    router,
                    route_factory,
                    sweep_interval: settings.sweep_interval,
                    reconnect_buffer: settings.reconnect_buffer,
                    site: settings.site,
                    env: settings.env,
                    broker_slot,
                    internal_poll_endpoint: settings.internal_poll_endpoint,
                    internal_poll_timeout: settings.internal_poll_timeout,
                    job_store: settings.store,
                    broker_lease_ttl: settings.broker_lease_ttl,
                    persist_after: settings.persist_after,
                    max_jobs: settings.max_jobs,
                    worker_server: settings.worker_server,
                },
                server_config: settings.server_config,
                had_server_section: settings.had_server_section,
                metrics: settings.metrics,
            },
        )
    }
}

/// How far a configuration can be read without a store.
#[derive(Debug)]
pub enum Parsed {
    /// The broker needs no store, and is ready with slot zero.
    Ready(Bootstrap),
    /// The broker needs its store opened, and a slot from it.
    AwaitStore(Startup),
}

/// What reading a configuration comes to.
pub open spec fn parsed(raw: Tree, catalog: CatalogFacts, r: Result<Parsed, BitsError>) -> bool {
    match settings(raw) {
        Err(p) => r matches Err(e) && bits_problem(e) == p,
        Ok(facts) => match r {
            Ok(Parsed::AwaitStore(startup)) => facts.store is Some && startup.settings@ == facts
                && startup.raw@ == raw && startup.catalog@ == catalog,
            Ok(Parsed::Ready(bootstrap)) => facts.store is None && finished(
                facts,
                raw,
                catalog,
                0,
                Ok(bootstrap),
            ),
            Err(e) => facts.store is None && finished(facts, raw, catalog, 0, Err(e)),
        },
    }
}

/// Reads a configuration out of what its text holds.
pub fn parse_document(raw: Json, catalog: ActionCatalog) -> (r: Result<Parsed, BitsError>)
    ensures
        parsed(raw@, catalog@, r),
{
    if !raw.is_object() {
        return Err(invalid_error("config", "top-level config must be a YAML mapping"));
    }
    let config = match raw.get("bits") {
        None => BitsConfig {
            broker_id_prefix: None,
            site: None,
            env: None,
            internal_poll_endpoint: None,
            internal_poll_timeout_secs: None,
            sweep_interval_secs: None,
            reconnect_buffer_secs: None,
            persist_after_secs: None,
            persistence: None,
            worker_server: None,
            max_jobs: None,
        },
        Some(value) => match read_bits_config(value) {
            Some(config) => config,
            None => return Err(undecodable_error("bits", "BitsConfig", value)),
        },
    };
    let settings = match read_settings(config, raw.get("server"), raw.get("metrics")) {
        Ok(settings) => settings,
        Err(e) => return Err(e),
    };
    let startup = Startup { settings, raw, catalog };
    if startup.settings.store.is_some() {
        return Ok(Parsed::AwaitStore(startup));
    }
    match startup.finish(0) {
        Ok(bootstrap) => Ok(Parsed::Ready(bootstrap)),
        Err(e) => Err(e),
    }
}

/// Parses the top-level YAML configuration.
pub fn parse_bootstrap(config: &str, catalog: ActionCatalog) -> (r: Result<Parsed, BitsError>)
    ensures
        match yaml_tree(config@) {
            Err(words) => r matches Err(e) && bits_problem(e) == BitsProblem::Config(
                ConfigProblem::Yaml { words },
            ),
            Ok(raw) => parsed(raw, catalog@, r),
        },
{
    match parse_yaml(config) {
        Err(e) => Err(BitsError::Config(ConfigError::Yaml(e))),
        Ok(raw) => parse_document(raw, catalog),
    }
}

/// Settings that pass the checks are sound: the broker has valid tags, no length of time that must
/// not be zero is, and jobs are persisted only where there is a store, more than a second before
/// their poll ends.
pub proof fn law_settings_are_sound(
    config: BitsFacts,
    server: Option<Tree>,
    metrics: Option<Tree>,
)
    requires
        settings_from(config, server, metrics) is Ok,
    ensures
        ({
            let facts = settings_from(config, server, metrics)->Ok_0;
            let poll = secs_span(number_text(facts.server_config.poll_timeout_secs));
            &&& valid_tag(facts.site)
            &&& valid_tag(facts.env)
            &&& facts.max_jobs > 0
            &&& facts.internal_poll_timeout.total() > 0
            &&& facts.reconnect_buffer.total() > 0
            &&& facts.sweep_interval matches Some(sweep) ==> sweep.total() > 0
            &&& facts.broker_lease_ttl.total() >= 1_000_000_000
            &&& facts.server_config.retry_after_secs > 0
            &&& poll matches Ok(span) && span.total() > 0
            &&& facts.persist_after matches Some(after) ==> facts.store is Some && after.total()
                + 1_000_000_000 < poll->Ok_0.total()
        }),
{
}

/// The `metrics` section decides the boundaries of the histogram buckets, key by key; a key that is
/// left out gets the default ones.
pub proof fn law_metrics_section_sets_the_buckets(
    raw: Tree,
    catalog: CatalogFacts,
    broker_slot: u16,
    bootstrap: Bootstrap,
)
    requires
        settings(raw) is Ok,
        finished(settings(raw)->Ok_0, raw, catalog, broker_slot, Ok(bootstrap)),
    ensures
        ({
            let given = metrics_config(raw.get("metrics"@))->Some_0;
            let set = bootstrap.metrics@;
            &&& metrics_config(raw.get("metrics"@)) is Some
            &&& set.duration == match given.0 {
                Some(list) => BoundsFacts::Secs(list),
                None => default_buckets().duration,
            }
            &&& set.queue_wait == match given.1 {
                Some(list) => BoundsFacts::Secs(list),
                None => default_buckets().queue_wait,
            }
        }),
{
}

/// Whatever routes a configuration has, every one of them ends with its only target or switch.
pub proof fn law_configured_routes_are_valid(raw: Tree, around: Surroundings)
    requires
        configured_routes(raw, around) is Ok,
    ensures
        switch_problem(configured_routes(raw, around)->Ok_0) is None,
{
}

/// A configuration without a store never waits for one, and a broker without a store has slot
/// zero.
pub proof fn law_no_store_no_wait(raw: Tree, catalog: CatalogFacts, r: Result<Parsed, BitsError>)
    requires
        parsed(raw, catalog, r),
        settings(raw) matches Ok(facts) && facts.store is None,
    ensures
        r matches Ok(p) ==> p matches Parsed::Ready(bootstrap)
            && bootstrap.runtime_config.broker_slot == 0,
{
}

/// The waits between attempts to open a store are one, two, four, eight and then ten seconds.
pub proof fn law_init_delays_double(failed: nat)
    ensures
        failed <= 1 ==> init_delay(failed) == 1,
        1 <= failed <= 3 ==> init_delay(failed + 1) == 2 * init_delay(failed),
        failed >= 5 ==> init_delay(failed) == 10,
{
    lemma_init_delay(failed);
    lemma_init_delay(failed + 1);
}

/// Settings that pass are those that the configuration gives, and have fixed defaults where it
/// gives none: 2.5 seconds for a poll between brokers, five seconds to come back, thirty seconds
/// for a lease, half a million jobs, and an endpoint that is derived from the server.
pub proof fn law_settings_are_those_of_the_configuration(
    config: BitsFacts,
    server: Option<Tree>,
    metrics: Option<Tree>,
)
    requires
        settings_from(config, server, metrics) is Ok,
    ensures
        ({
            let facts = settings_from(config, server, metrics)->Ok_0;
            &&& match config.site {
                Some(Tree::Str(tag)) => facts.site == tag,
                Some(Tree::Number(NumberValue::Unsigned(n))) => facts.site == decimal_text(n as nat),
                _ => false,
            }
            &&& match config.env {
                Some(Tree::Str(tag)) => facts.env == tag,
                Some(Tree::Number(NumberValue::Unsigned(n))) => facts.env == decimal_text(n as nat),
                _ => false,
            }
            &&& match config.internal_poll_endpoint {
                Some(endpoint) => facts.internal_poll_endpoint == endpoint,
                None => facts.internal_poll_endpoint == derived_endpoint(facts.server_config),
            }
            &&& secs_span(
                match config.internal_poll_timeout_secs {
                    Some(n) => number_text(n),
                    None => number_text(NumberValue::Fraction("2.5"@)),
                },
            ) == Ok::<Span, Seq<char>>(facts.internal_poll_timeout)
            &&& secs_span(
                match config.reconnect_buffer_secs {
                    Some(n) => number_text(n),
                    None => number_text(NumberValue::Unsigned(5)),
                },
            ) == Ok::<Span, Seq<char>>(facts.reconnect_buffer)
            &&& match config.sweep_interval_secs {
                Some(n) => facts.sweep_interval is Some && secs_span(number_text(n)) == Ok::<
                    Span,
                    Seq<char>,
                >(facts.sweep_interval->0),
                None => facts.sweep_interval is None,
            }
            &&& match (config.persistence, config.persist_after_secs) {
                (Some(_), Some(n)) => facts.persist_after is Some && secs_span(number_text(n))
                    == Ok::<Span, Seq<char>>(facts.persist_after->0),
                _ => facts.persist_after is None,
            }
            &&& facts.store is Some <==> config.persistence is Some
            &&& config.persistence is None ==> facts.broker_lease_ttl == (Span {
                secs: 30,
                nanos: 0,
            })
            &&& match config.max_jobs {
                Some(n) => facts.max_jobs == n,
                None => facts.max_jobs == 500_000,
            }
            &&& facts.worker_server == config.worker_server
            &&& server is None ==> facts.server_config == default_server()
            &&& server matches Some(value) ==> server_config(value) == Some(facts.server_config)
        }),
{
}

/// A broker without a valid site and environment is refused, and so is one with a length of time
/// that is no length or must not be zero, with room for no job, with no pause between retries, or
/// with jobs that would be recorded within a second of the end of their poll or later. Nothing else
/// of these sections is refused but a store that cannot be planned and buckets that cannot be read.
pub proof fn law_settings_are_refused_for_a_reason(
    config: BitsFacts,
    server: Option<Tree>,
    metrics: Option<Tree>,
)
    ensures
        settings_from(config, server, metrics) is Ok <==> {
            let http = match server {
                None => Some(default_server()),
                Some(value) => server_config(value),
            };
            let poll = secs_span(number_text(http->0.poll_timeout_secs));
            let persist = secs_span(number_text(config.persist_after_secs->0));
            &&& tag_setting("bits.site"@, config.site) is Ok
            &&& tag_setting("bits.env"@, config.env) is Ok
            &&& config.internal_poll_timeout_secs matches Some(n) ==> is_length(n)
            &&& config.internal_poll_timeout_secs is None ==> is_length(
                NumberValue::Fraction("2.5"@),
            )
            &&& config.sweep_interval_secs matches Some(n) ==> is_length(n)
            &&& config.reconnect_buffer_secs matches Some(n) ==> is_length(n)
            &&& config.reconnect_buffer_secs is None ==> is_length(NumberValue::Unsigned(5))
            &&& config.persist_after_secs is Some ==> persist is Ok
            &&& config.max_jobs != Some(0usize)
            &&& http is Some
            &&& is_length(http->0.poll_timeout_secs)
            &&& http->0.retry_after_secs > 0
            &&& config.persistence is Some && config.persist_after_secs is Some
                ==> persist->Ok_0.total() + 1_000_000_000 < poll->Ok_0.total()
            &&& config.persistence is Some ==> planned_store(config.persistence->0) is Ok
            &&& metrics_config(metrics) is Some
        },
{
}

/// A number of seconds is a length of time above zero.
pub open spec fn is_length(n: NumberValue) -> bool {
    secs_span(number_text(n)) matches Ok(span) && span.total() > 0
}

/// The tag of a site or environment is a text or a number, of one to three digits and small
/// letters.
pub proof fn law_tags_are_short(field: Seq<char>, value: Option<Tree>)
    ensures
        value is None ==> tag_setting(field, value) == Err::<Seq<char>, BitsProblem>(
            BitsProblem::Config(ConfigProblem::MissingField { path: field }),
        ),
        value matches Some(Tree::Str(tag)) ==> (tag_setting(field, value) is Ok <==> 1 <= tag.len()
            <= 3 && forall|i: int|
            0 <= i < tag.len() ==> ('0' <= #[trigger] tag[i] <= '9' || 'a' <= tag[i] <= 'z')),
        tag_setting(field, value) matches Ok(tag) ==> (value == Some(Tree::Str(tag)) || exists|n: u64|
            value == Some(Tree::Number(NumberValue::Unsigned(n))) && tag == #[trigger] decimal_text(
                n as nat,
            )),
        tag_setting(field, value) matches Err(p) ==> {
            ||| (p matches BitsProblem::Config(ConfigProblem::MissingField { path }) && path
                == field)
            ||| (p matches BitsProblem::Config(ConfigProblem::Validation { path, .. }) && path
                == field)
        },
{
    match value {
        Some(Tree::Str(tag)) => {
            assert forall|i: int| 0 <= i < tag.len() implies crate::request_id::is_tag_char(
                #[trigger] tag[i],
            ) == ('0' <= tag[i] <= '9' || 'a' <= tag[i] <= 'z') by {
            }
        },
        _ => {},
    }
}

/// The endpoint of a broker is its own address, under which it answers itself where it listens on
/// every address, with brackets around an address that has colons.
pub proof fn law_endpoints_lead_to_the_server(server: ServerFacts)
    ensures
        server.host == "0.0.0.0"@ ==> derived_endpoint(server) == "http://"@ + "127.0.0.1"@ + ":"@
            + decimal_text(server.port as nat) + "/job"@,
        server.host == "::"@ ==> derived_endpoint(server) == "http://["@ + "::1"@ + "]:"@
            + decimal_text(server.port as nat) + "/job"@,
        server.host != "0.0.0.0"@ && server.host != "::"@ && server.host.contains(':')
            ==> derived_endpoint(server) == "http://["@ + server.host + "]:"@ + decimal_text(
            server.port as nat,
        ) + "/job"@,
        server.host != "0.0.0.0"@ && server.host != "::"@ && !server.host.contains(':')
            ==> derived_endpoint(server) == "http://"@ + server.host + ":"@ + decimal_text(
            server.port as nat,
        ) + "/job"@,
{
    reveal_strlit("127.0.0.1");
    reveal_strlit("0.0.0.0");
    reveal_strlit("::");
    reveal_strlit("::1");
    assert("::1"@[0] == ':');
    assert("::1"@.contains(':'));
    assert("::"@.len() == 2 && "0.0.0.0"@.len() == 7);
    assert(!"127.0.0.1"@.contains(':'));
}

/// A store is planned exactly where it has somewhere to connect to, leases of at least a second and
/// a connection timeout above zero, and NATS at least one replica and one attempt. What is planned
/// is what was asked for; a connection may take ten seconds, and NATS is tried six times, unless
/// said otherwise.
pub proof fn law_stores_are_planned_as_asked(config: PersistenceFacts)
    ensures
        planned_store(config) matches Ok((plan, ttl)) ==> {
            &&& ttl.secs >= 1
            &&& match (config, plan) {
                (
                    PersistenceFacts::Tikv { endpoints, broker_lease_ttl_secs, connect_timeout_secs },
                    PlannedStore::TiKv { endpoints: e, connect_timeout },
                ) => {
                    &&& e == endpoints && endpoints.len() > 0
                    &&& secs_span(number_text(broker_lease_ttl_secs)) == Ok::<Span, Seq<char>>(ttl)
                    &&& connect_timeout_secs is None ==> connect_timeout == (Span {
                        secs: 10,
                        nanos: 0,
                    })
                    &&& connect_timeout_secs matches Some(n) ==> secs_span(number_text(n)) == Ok::<
                        Span,
                        Seq<char>,
                    >(connect_timeout)
                    &&& connect_timeout.total() > 0
                },
                (
                    PersistenceFacts::Nats {
                        url,
                        jobs_bucket,
                        leases_bucket,
                        broker_lease_ttl_secs,
                        num_replicas,
                        connect_timeout_secs,
                        init_max_attempts,
                    },
                    PlannedStore::Nats {
                        url: u,
                        jobs_bucket: j,
                        leases_bucket: l,
                        lease_ttl,
                        num_replicas: n,
                        connect_timeout,
                        max_attempts,
                    },
                ) => {
                    &&& u == url && j == jobs_bucket && l == leases_bucket && n == num_replicas
                    &&& url.len() > 0 && jobs_bucket.len() > 0 && leases_bucket.len() > 0 && n >= 1
                    &&& lease_ttl == ttl
                    &&& secs_span(number_text(broker_lease_ttl_secs)) == Ok::<Span, Seq<char>>(ttl)
                    &&& connect_timeout_secs is None ==> connect_timeout == (Span {
                        secs: 10,
                        nanos: 0,
                    })
                    &&& connect_timeout_secs matches Some(n) ==> secs_span(number_text(n)) == Ok::<
                        Span,
                        Seq<char>,
                    >(connect_timeout)
                    &&& connect_timeout.total() > 0
                    &&& max_attempts >= 1 && max_attempts == match init_max_attempts {
                        Some(n) => n,
                        None => 6,
                    }
                },
                _ => false,
            }
        },
        config matches PersistenceFacts::Tikv { endpoints, broker_lease_ttl_secs, connect_timeout_secs }
            ==> (planned_store(config) is Ok <==> endpoints.len() > 0 && (secs_span(
            number_text(broker_lease_ttl_secs),
        ) matches Ok(ttl) && ttl.secs >= 1) && (connect_timeout_secs is None || is_length(
            connect_timeout_secs->0,
        ))),
        config matches PersistenceFacts::Nats {
            url,
            jobs_bucket,
            leases_bucket,
            broker_lease_ttl_secs,
            num_replicas,
            connect_timeout_secs,
            init_max_attempts,
        } ==> (planned_store(config) is Ok <==> url.len() > 0 && jobs_bucket.len() > 0
            && leases_bucket.len() > 0 && num_replicas >= 1 && (secs_span(
            number_text(broker_lease_ttl_secs),
        ) matches Ok(ttl) && ttl.secs >= 1) && (connect_timeout_secs is None || is_length(
            connect_timeout_secs->0,
        )) && init_max_attempts != Some(0u32)),
{
}

/// A configuration that is no mapping, or whose settings are refused, starts nothing. One that
/// plans a store waits for it. Any other is ready where its registries and routes are in order,
/// with the settings and routes that it gives, and fails with their first problem otherwise.
pub proof fn law_configurations_start_what_they_say(
    raw: Tree,
    catalog: CatalogFacts,
    r: Result<Parsed, BitsError>,
)
    requires
        parsed(raw, catalog, r),
    ensures
        !(raw is Obj) ==> r is Err,
        settings(raw) is Err ==> (r matches Err(e) && bits_problem(e) == settings(raw)->Err_0),
        (r matches Ok(Parsed::AwaitStore(_))) <==> (settings(raw) matches Ok(facts)
            && facts.store is Some),
        r matches Ok(Parsed::Ready(bootstrap)) ==> bootstrap.runtime_config.site@
            == settings(raw)->Ok_0.site && bootstrap.runtime_config.env@ == settings(raw)->Ok_0.env
            && bootstrap.runtime_config.max_jobs == settings(raw)->Ok_0.max_jobs
            && bootstrap.runtime_config.broker_slot == 0 && configured_routes(
            raw,
            bootstrap.runtime_config.route_factory@,
        ) == Ok::<Seq<RouteFacts>, BitsProblem>(bootstrap.runtime_config.router@),
{
}

/// Each part of a configuration stands under its own key: `bits`, `server` and `metrics` hold the
/// settings, `checks`, `transforms` and `targets` the named actions, and `routes` the routes. What
/// is left out is empty, a registry that is no map is refused, and so are routes that are not in
/// order.
pub proof fn law_parts_stand_under_their_keys(
    members: Seq<(Seq<char>, Tree)>,
    around: Surroundings,
    has_worker_server: bool,
    catalog: CatalogFacts,
)
    ensures
        ({
            let raw = Tree::Obj(members);
            let routes = lookup(members, "routes"@);
            let checks = lookup(members, "checks"@);
            let transforms = lookup(members, "transforms"@);
            let targets = lookup(members, "targets"@);
            let found = surroundings(raw, has_worker_server, catalog);
            &&& match lookup(members, "bits"@) {
                None => settings(raw) is Err,
                Some(section) => match bits_config(section) {
                    None => settings(raw) is Err,
                    Some(config) => settings(raw) == settings_from(
                        config,
                        lookup(members, "server"@),
                        lookup(members, "metrics"@),
                    ),
                },
            }
            &&& match routes {
                None => configured_routes(raw, around) == Ok::<Seq<RouteFacts>, BitsProblem>(
                    Seq::empty(),
                ),
                Some(value) => {
                    let read = routes_of(value, "routes"@, around);
                    &&& configured_routes(raw, around) is Ok <==> read is Ok && switch_problem(
                        read->Ok_0,
                    ) is None
                    &&& configured_routes(raw, around) is Ok ==> configured_routes(raw, around)
                        == read
                },
            }
            &&& found is Ok <==> (checks is None || checks->0 is Obj) && (transforms is None
                || transforms->0 is Obj) && (targets is None || targets->0 is Obj)
            &&& found matches Ok(all) ==> {
                &&& all.checks == (if checks is None {
                    Seq::empty()
                } else {
                    checks->0->Obj_0
                })
                &&& all.transforms == (if transforms is None {
                    Seq::empty()
                } else {
                    transforms->0->Obj_0
                })
                &&& all.targets == (if targets is None {
                    Seq::empty()
                } else {
                    targets->0->Obj_0
                })
                &&& all.has_worker_server == has_worker_server
                &&& all.catalog == catalog
            }
        }),
{
}

/// The reason for which a tag is refused: it is empty, it is too long, or it holds a character that
/// is no digit and no small letter.
pub proof fn law_refused_tags_are_told_why(field: Seq<char>, tag: Seq<char>, i: int)
    ensures
        tag.len() == 0 ==> tag_setting(field, Some(Tree::Str(tag))) == Err::<Seq<char>, BitsProblem>(
            invalid(field, encode_error_text(EncodeError::EmptyTag)),
        ),
        tag.len() > 3 ==> tag_setting(field, Some(Tree::Str(tag))) == Err::<Seq<char>, BitsProblem>(
            invalid(
                field,
                encode_error_text(EncodeError::TagTooLong { actual: tag.len() as usize }),
            ),
        ),
        tag.len() <= 3 && 0 <= i < tag.len() && !('0' <= tag[i] <= '9' || 'a' <= tag[i] <= 'z') && (
        forall|k: int| 0 <= k < i ==> ('0' <= #[trigger] tag[k] <= '9' || 'a' <= tag[k] <= 'z'))
            ==> tag_setting(field, Some(Tree::Str(tag))) == Err::<Seq<char>, BitsProblem>(
            invalid(
                field,
                encode_error_text(EncodeError::InvalidTagCharacter { ch: tag[i] }),
            ),
        ),
{
    assert forall|k: int| 0 <= k < tag.len() implies crate::request_id::is_tag_char(
        #[trigger] tag[k],
    ) == ('0' <= tag[k] <= '9' || 'a' <= tag[k] <= 'z') by {
    }
    if tag.len() <= 3 && 0 <= i < tag.len() && !('0' <= tag[i] <= '9' || 'a' <= tag[i] <= 'z') && (
    forall|k: int| 0 <= k < i ==> ('0' <= #[trigger] tag[k] <= '9' || 'a' <= tag[k] <= 'z')) {
        assert(!crate::request_id::is_tag_char(tag[i]));
        assert(first_invalid(tag, tag[i]));
        let ch = choose|ch: char| first_invalid(tag, ch);
        assert(first_invalid(tag, ch));
        let j = choose|j: int|
            #![trigger tag[j]]
            {
                &&& 0 <= j < tag.len()
                &&& tag[j] == ch
                &&& !crate::request_id::is_tag_char(ch)
                &&& forall|k: int| 0 <= k < j ==> crate::request_id::is_tag_char(#[trigger] tag[k])
            };
        assert(!crate::request_id::is_tag_char(tag[j]));
        assert(j == i);
    }
}

} // verus!
