//! The `bits`, `server` and `metrics` sections of a configuration.

use vstd::prelude::*;

use crate::config::decode::{
    all_known, fields, fields_of, law_other_members_stay, number_or, only_known, opt_json,
    opt_number, opt_number_value, opt_string, opt_uint, opt_value, read_number_or, read_opt_number,
    read_opt_string, read_opt_uint, read_opt_value, read_string, read_string_list, read_string_or,
    read_uint_or, req_string, split_tag, string_list, string_or, strs, tagged, uint_or,
};
use crate::json::{
    find_member, lemma_trees, lookup, opt_tree, tree, trees, Json, Number, NumberValue, Tree,
};
use crate::metrics::{
    default_buckets, number_values, Bounds, BoundsFacts, BucketFacts, HistogramBuckets,
};
use crate::routing::opt_text;
use crate::text::{text_eq, texts};

verus! {

/// Seconds that a broker's lease lasts.
pub const DEFAULT_BROKER_LEASE_TTL_SECS: u64 = 30;

// ---------------------------------------------------------------------------------------------
// Worker server
// ---------------------------------------------------------------------------------------------

/// Where remote workers fetch their work.
#[derive(Debug)]
pub struct WorkerServerConfig {
    pub host: String,
    pub port: u16,
    /// The address that workers are told, if it is not that of the host and port.
    pub advertised_addr: Option<String>,
}

/// The mathematical contents of a [`WorkerServerConfig`].
pub struct WorkerServerFacts {
    pub host: Seq<char>,
    pub port: u16,
    pub advertised_addr: Option<Seq<char>>,
}

impl View for WorkerServerConfig {
    type V = WorkerServerFacts;

    open spec fn view(&self) -> WorkerServerFacts {
        WorkerServerFacts {
            host: self.host@,
            port: self.port,
            advertised_addr: opt_text(self.advertised_addr),
        }
    }
}

pub open spec fn worker_server_names() -> Seq<Seq<char>> {
    seq!["host"@, "port"@, "advertised_addr"@]
}

/// The settings of the worker server.
pub open spec fn worker_server_config(value: Tree) -> Option<WorkerServerFacts> {
    match fields(value, worker_server_names()) {
        None => None,
        Some(members) => {
            let host = string_or(lookup(members, "host"@), "0.0.0.0"@);
            let port = uint_or(lookup(members, "port"@), 65535, 9001);
            let addr = opt_string(lookup(members, "advertised_addr"@));
            if all_known(members, worker_server_names()) && host is Some && port is Some
                && addr is Some {
                Some(
                    WorkerServerFacts {
                        host: host->0,
                        port: port->0 as u16,
                        advertised_addr: addr->0,
                    },
                )
            } else {
                None
            }
        },
    }
}

fn read_worker_server(value: &Json) -> (r: Option<WorkerServerConfig>)
    ensures
        match r {
            Some(config) => worker_server_config(value@) == Some(config@),
            None => worker_server_config(value@) is None,
        },
{
    let names: Vec<&str> = vec!["host", "port", "advertised_addr"];
    assert(strs(names@) =~= worker_server_names());
    let members = match fields_of(value, &names) {
        Some(members) => members,
        None => return None,
    };
    if !only_known(&members, &names) {
        return None;
    }
    let host = match read_string_or(find_member(&members, "host"), "0.0.0.0") {
        Some(host) => host,
        None => return None,
    };
    let port: u16 = match read_uint_or(find_member(&members, "port"), 65535, 9001) {
        Some(port) => port as u16,
        None => return None,
    };
    let advertised_addr = match read_opt_string(find_member(&members, "advertised_addr")) {
        Some(addr) => addr,
        None => return None,
    };
    Some(WorkerServerConfig { host, port, advertised_addr })
}

// ---------------------------------------------------------------------------------------------
// Persistence
// ---------------------------------------------------------------------------------------------

/// Where durable records are kept.
#[derive(Debug)]
pub enum PersistenceConfig {
    Tikv {
        endpoints: Vec<String>,
        broker_lease_ttl_secs: Number,
        connect_timeout_secs: Option<Number>,
    },
    Nats {
        url: String,
        jobs_bucket: String,
        leases_bucket: String,
        broker_lease_ttl_secs: Number,
        num_replicas: usize,
        connect_timeout_secs: Option<Number>,
        init_max_attempts: Option<u32>,
    },
}

/// The mathematical contents of a [`PersistenceConfig`].
pub enum PersistenceFacts {
    Tikv {
        endpoints: Seq<Seq<char>>,
        broker_lease_ttl_secs: NumberValue,
        connect_timeout_secs: Option<NumberValue>,
    },
    Nats {
        url: Seq<char>,
        jobs_bucket: Seq<char>,
        leases_bucket: Seq<char>,
        broker_lease_ttl_secs: NumberValue,
        num_replicas: usize,
        connect_timeout_secs: Option<NumberValue>,
        init_max_attempts: Option<u32>,
    },
}

impl View for PersistenceConfig {
    type V = PersistenceFacts;

    open spec fn view(&self) -> PersistenceFacts {
        match *self {
            PersistenceConfig::Tikv {
                endpoints,
                broker_lease_ttl_secs,
                connect_timeout_secs,
            } => PersistenceFacts::Tikv {
                endpoints: texts(endpoints@),
                broker_lease_ttl_secs: broker_lease_ttl_secs@,
                connect_timeout_secs: opt_number_value(connect_timeout_secs),
            },
            PersistenceConfig::Nats {
                url,
                jobs_bucket,
                leases_bucket,
                broker_lease_ttl_secs,
                num_replicas,
                connect_timeout_secs,
                init_max_attempts,
            } => PersistenceFacts::Nats {
                url: url@,
                jobs_bucket: jobs_bucket@,
                leases_bucket: leases_bucket@,
                broker_lease_ttl_secs: broker_lease_ttl_secs@,
                num_replicas,
                connect_timeout_secs: opt_number_value(connect_timeout_secs),
                init_max_attempts,
            },
        }
    }
}

pub open spec fn tikv_names() -> Seq<Seq<char>> {
    seq!["endpoints"@, "broker_lease_ttl_secs"@, "connect_timeout_secs"@]
}

pub open spec fn nats_names() -> Seq<Seq<char>> {
    seq![
        "url"@,
        "jobs_bucket"@,
        "leases_bucket"@,
        "broker_lease_ttl_secs"@,
        "num_replicas"@,
        "connect_timeout_secs"@,
        "init_max_attempts"@,
    ]
}

/// The settings of a TiKV store.
pub open spec fn tikv_config(rest: Tree) -> Option<PersistenceFacts> {
    match fields(rest, tikv_names()) {
        None => None,
        Some(members) => {
            let endpoints = match lookup(members, "endpoints"@) {
                Some(value) => string_list(value),
                None => None,
            };
            let ttl = number_or(
                lookup(members, "broker_lease_ttl_secs"@),
                NumberValue::Unsigned(DEFAULT_BROKER_LEASE_TTL_SECS),
            );
            let timeout = opt_number(lookup(members, "connect_timeout_secs"@));
            if all_known(members, tikv_names()) && endpoints is Some && ttl is Some
                && timeout is Some {
                Some(
                    PersistenceFacts::Tikv {
                        endpoints: endpoints->0,
                        broker_lease_ttl_secs: ttl->0,
                        connect_timeout_secs: timeout->0,
                    },
                )
            } else {
                None
            }
        },
    }
}

/// The settings of a NATS store.
pub open spec fn nats_config(rest: Tree) -> Option<PersistenceFacts> {
    match fields(rest, nats_names()) {
        None => None,
        Some(members) => {
            let url = req_string(lookup(members, "url"@));
            let jobs = string_or(lookup(members, "jobs_bucket"@), "bits-jobs"@);
            let leases = string_or(lookup(members, "leases_bucket"@), "bits-leases"@);
            let ttl = number_or(
                lookup(members, "broker_lease_ttl_secs"@),
                NumberValue::Unsigned(DEFAULT_BROKER_LEASE_TTL_SECS),
            );
            let replicas = uint_or(lookup(members, "num_replicas"@), usize::MAX as u64, 1);
            let timeout = opt_number(lookup(members, "connect_timeout_secs"@));
            let attempts = opt_uint(lookup(members, "init_max_attempts"@), u32::MAX as u64);
            if all_known(members, nats_names()) && url is Some && jobs is Some && leases is Some
                && ttl is Some && replicas is Some && timeout is Some && attempts is Some {
                Some(
                    PersistenceFacts::Nats {
                        url: url->0,
                        jobs_bucket: jobs->0,
                        leases_bucket: leases->0,
                        broker_lease_ttl_secs: ttl->0,
                        num_replicas: replicas->0 as usize,
                        connect_timeout_secs: timeout->0,
                        init_max_attempts: match attempts->0 {
                            Some(n) => Some(n as u32),
                            None => None,
                        },
                    },
                )
            } else {
                None
            }
        },
    }
}

/// The settings of a store, by its type.
pub open spec fn persistence_config(value: Tree) -> Option<PersistenceFacts> {
    match tagged(value) {
        None => None,
        Some((tag, rest)) => if tag == "tikv"@ {
            tikv_config(rest)
        } else if tag == "nats"@ {
            nats_config(rest)
        } else {
            None
        },
    }
}

fn read_tikv(rest: &Json) -> (r: Option<PersistenceConfig>)
    ensures
        match r {
            Some(config) => tikv_config(rest@) == Some(config@),
            None => tikv_config(rest@) is None,
        },
{
    let names: Vec<&str> = vec!["endpoints", "broker_lease_ttl_secs", "connect_timeout_secs"];
    assert(strs(names@) =~= tikv_names());
    let members = match fields_of(rest, &names) {
        Some(members) => members,
        None => return None,
    };
    if !only_known(&members, &names) {
        return None;
    }
    let endpoints = match find_member(&members, "endpoints") {
        Some(value) => match read_string_list(value) {
            Some(endpoints) => endpoints,
            None => return None,
        },
        None => return None,
    };
    let broker_lease_ttl_secs = match read_number_or(
        find_member(&members, "broker_lease_ttl_secs"),
        DEFAULT_BROKER_LEASE_TTL_SECS,
    ) {
        Some(n) => n,
        None => return None,
    };
    let connect_timeout_secs = match read_opt_number(
        find_member(&members, "connect_timeout_secs"),
    ) {
        Some(n) => n,
        None => return None,
    };
    Some(PersistenceConfig::Tikv { endpoints, broker_lease_ttl_secs, connect_timeout_secs })
}

fn read_nats(rest: &Json) -> (r: Option<PersistenceConfig>)
    ensures
        match r {
            Some(config) => nats_config(rest@) == Some(config@),
            None => nats_config(rest@) is None,
        },
{
    let names: Vec<&str> = vec![
        "url",
        "jobs_bucket",
        "leases_bucket",
        "broker_lease_ttl_secs",
        "num_replicas",
        "connect_timeout_secs",
        "init_max_attempts",
    ];
    assert(strs(names@) =~= nats_names());
    let members = match fields_of(rest, &names) {
        Some(members) => members,
        None => return None,
    };
    if !only_known(&members, &names) {
        return None;
    }
    let url = match read_string(find_member(&members, "url")) {
        Some(s) => s,
        None => return None,
    };
    let jobs_bucket = match read_string_or(find_member(&members, "jobs_bucket"), "bits-jobs") {
        Some(s) => s,
        None => return None,
    };
    let leases_bucket = match read_string_or(
        find_member(&members, "leases_bucket"),
        "bits-leases",
    ) {
        Some(s) => s,
        None => return None,
    };
    let broker_lease_ttl_secs = match read_number_or(
        find_member(&members, "broker_lease_ttl_secs"),
        DEFAULT_BROKER_LEASE_TTL_SECS,
    ) {
        Some(n) => n,
        None => return None,
    };
    let num_replicas: usize = match read_uint_or(
        find_member(&members, "num_replicas"),
        usize::MAX as u64,
        1,
    ) {
        Some(n) => n as usize,
        None => return None,
    };
    let connect_timeout_secs = match read_opt_number(
        find_member(&members, "connect_timeout_secs"),
    ) {
        Some(n) => n,
        None => return None,
    };
    let init_max_attempts = match read_opt_uint(
        find_member(&members, "init_max_attempts"),
        u32::MAX as u64,
    ) {
        Some(Some(n)) => Some(n as u32),
        Some(None) => None,
        None => return None,
    };
    Some(
        PersistenceConfig::Nats {
            url,
            jobs_bucket,
            leases_bucket,
            broker_lease_ttl_secs,
            num_replicas,
            connect_timeout_secs,
            init_max_attempts,
        },
    )
}

fn read_persistence(value: &Json) -> (r: Option<PersistenceConfig>)
    ensures
        match r {
            Some(config) => persistence_config(value@) == Some(config@),
            None => persistence_config(value@) is None,
        },
{
    let (tag, rest) = match split_tag(value) {
        Some((tag, rest)) => (tag, rest),
        None => return None,
    };
    if text_eq(&tag, "tikv") {
        read_tikv(&rest)
    } else if text_eq(&tag, "nats") {
        read_nats(&rest)
    } else {
        None
    }
}

// ---------------------------------------------------------------------------------------------
// Broker
// ---------------------------------------------------------------------------------------------

/// The `bits` section as it is written.
#[derive(Debug)]
pub struct BitsConfig {
    /// No longer in use.
    pub broker_id_prefix: Option<String>,
    pub site: Option<Json>,
    pub env: Option<Json>,
    pub internal_poll_endpoint: Option<String>,
    pub internal_poll_timeout_secs: Option<Number>,
    pub sweep_interval_secs: Option<Number>,
    pub reconnect_buffer_secs: Option<Number>,
    pub persist_after_secs: Option<Number>,
    pub persistence: Option<PersistenceConfig>,
    pub worker_server: Option<WorkerServerConfig>,
    pub max_jobs: Option<usize>,
}

/// The mathematical contents of a [`BitsConfig`].
pub struct BitsFacts {
    pub broker_id_prefix: Option<Seq<char>>,
    pub site: Option<Tree>,
    pub env: Option<Tree>,
    pub internal_poll_endpoint: Option<Seq<char>>,
    pub internal_poll_timeout_secs: Option<NumberValue>,
    pub sweep_interval_secs: Option<NumberValue>,
    pub reconnect_buffer_secs: Option<NumberValue>,
    pub persist_after_secs: Option<NumberValue>,
    pub persistence: Option<PersistenceFacts>,
    pub worker_server: Option<WorkerServerFacts>,
    pub max_jobs: Option<usize>,
}

pub open spec fn opt_persistence(config: Option<PersistenceConfig>) -> Option<PersistenceFacts> {
    match config {
        Some(config) => Some(config@),
        None => None,
    }
}

pub open spec fn opt_worker_server(config: Option<WorkerServerConfig>) -> Option<
    WorkerServerFacts,
> {
    match config {
        Some(config) => Some(config@),
        None => None,
    }
}

impl View for BitsConfig {
    type V = BitsFacts;

    open spec fn view(&self) -> BitsFacts {
        BitsFacts {
            broker_id_prefix: opt_text(self.broker_id_prefix),
            site: opt_json(self.site),
            env: opt_json(self.env),
            internal_poll_endpoint: opt_text(self.internal_poll_endpoint),
            internal_poll_timeout_secs: opt_number_value(self.internal_poll_timeout_secs),
            sweep_interval_secs: opt_number_value(self.sweep_interval_secs),
            reconnect_buffer_secs: opt_number_value(self.reconnect_buffer_secs),
            persist_after_secs: opt_number_value(self.persist_after_secs),
            persistence: opt_persistence(self.persistence),
            worker_server: opt_worker_server(self.worker_server),
            max_jobs: self.max_jobs,
        }
    }
}

pub open spec fn bits_names() -> Seq<Seq<char>> {
    seq![
        "broker_id_prefix"@,
        "site"@,
        "env"@,
        "internal_poll_endpoint"@,
        "internal_poll_timeout_secs"@,
        "sweep_interval_secs"@,
        "reconnect_buffer_secs"@,
        "persist_after_secs"@,
        "persistence"@,
        "worker_server"@,
        "max_jobs"@,
    ]
}

/// Settings of a store that may be left out.
pub open spec fn opt_persistence_config(field: Option<Tree>) -> Option<Option<PersistenceFacts>> {
    match opt_value(field) {
        None => Some(None),
        Some(value) => match persistence_config(value) {
            Some(config) => Some(Some(config)),
            None => None,
        },
    }
}

/// Settings of a worker server that may be left out.
pub open spec fn opt_worker_server_config(field: Option<Tree>) -> Option<
    Option<WorkerServerFacts>,
> {
    match opt_value(field) {
        None => Some(None),
        Some(value) => match worker_server_config(value) {
            Some(config) => Some(Some(config)),
            None => None,
        },
    }
}

/// What the `bits` section holds, if it has the right shape.
pub open spec fn bits_config(value: Tree) -> Option<BitsFacts> {
    match fields(value, bits_names()) {
        None => None,
        Some(members) => {
            let prefix = opt_string(lookup(members, "broker_id_prefix"@));
            let endpoint = opt_string(lookup(members, "internal_poll_endpoint"@));
            let poll = opt_number(lookup(members, "internal_poll_timeout_secs"@));
            let sweep = opt_number(lookup(members, "sweep_interval_secs"@));
            let reconnect = opt_number(lookup(members, "reconnect_buffer_secs"@));
            let persist = opt_number(lookup(members, "persist_after_secs"@));
            let store = opt_persistence_config(lookup(members, "persistence"@));
            let workers = opt_worker_server_config(lookup(members, "worker_server"@));
            let jobs = opt_uint(lookup(members, "max_jobs"@), usize::MAX as u64);
            if all_known(members, bits_names()) && prefix is Some && endpoint is Some
                && poll is Some && sweep is Some && reconnect is Some && persist is Some
                && store is Some && workers is Some && jobs is Some {
                Some(
                    BitsFacts {
                        broker_id_prefix: prefix->0,
                        site: opt_value(lookup(members, "site"@)),
                        env: opt_value(lookup(members, "env"@)),
                        internal_poll_endpoint: endpoint->0,
                        internal_poll_timeout_secs: poll->0,
                        sweep_interval_secs: sweep->0,
                        reconnect_buffer_secs: reconnect->0,
                        persist_after_secs: persist->0,
                        persistence: store->0,
                        worker_server: workers->0,
                        max_jobs: match jobs->0 {
                            Some(n) => Some(n as usize),
                            None => None,
                        },
                    },
                )
            } else {
                None
            }
        },
    }
}

/// Reads the `bits` section.
pub fn read_bits_config(value: &Json) -> (r: Option<BitsConfig>)
    ensures
        match r {
            Some(config) => bits_config(value@) == Some(config@),
            None => bits_config(value@) is None,
        },
{
    let names: Vec<&str> = vec![
        "broker_id_prefix",
        "site",
        "env",
        "internal_poll_endpoint",
        "internal_poll_timeout_secs",
        "sweep_interval_secs",
        "reconnect_buffer_secs",
        "persist_after_secs",
        "persistence",
        "worker_server",
        "max_jobs",
    ];
    assert(strs(names@) =~= bits_names());
    let members = match fields_of(value, &names) {
        Some(members) => members,
        None => return None,
    };
    if !only_known(&members, &names) {
        return None;
    }
    let broker_id_prefix = match read_opt_string(find_member(&members, "broker_id_prefix")) {
        Some(s) => s,
        None => return None,
    };
    let site = read_opt_value(find_member(&members, "site"));
    let env = read_opt_value(find_member(&members, "env"));
    let internal_poll_endpoint = match read_opt_string(
        find_member(&members, "internal_poll_endpoint"),
    ) {
        Some(s) => s,
        None => return None,
    };
    let internal_poll_timeout_secs = match read_opt_number(
        find_member(&members, "internal_poll_timeout_secs"),
    ) {
        Some(n) => n,
        None => return None,
    };
    let sweep_interval_secs = match read_opt_number(find_member(&members, "sweep_interval_secs")) {
        Some(n) => n,
        None => return None,
    };
    let reconnect_buffer_secs = match read_opt_number(
        find_member(&members, "reconnect_buffer_secs"),
    ) {
        Some(n) => n,
        None => return None,
    };
    let persist_after_secs = match read_opt_number(find_member(&members, "persist_after_secs")) {
        Some(n) => n,
        None => return None,
    };
    let persistence = match find_member(&members, "persistence") {
        None | Some(Json::Null) => None,
        Some(value) => match read_persistence(value) {
            Some(config) => Some(config),
            None => return None,
        },
    };
    let worker_server = match find_member(&members, "worker_server") {
        None | Some(Json::Null) => None,
        Some(value) => match read_worker_server(value) {
            Some(config) => Some(config),
            None => return None,
        },
    };
    let max_jobs = match read_opt_uint(find_member(&members, "max_jobs"), usize::MAX as u64) {
        Some(Some(n)) => Some(n as usize),
        Some(None) => None,
        None => return None,
    };
    Some(
        BitsConfig {
            broker_id_prefix,
            site,
            env,
            internal_poll_endpoint,
            internal_poll_timeout_secs,
            sweep_interval_secs,
            reconnect_buffer_secs,
            persist_after_secs,
            persistence,
            worker_server,
            max_jobs,
        },
    )
}

// ---------------------------------------------------------------------------------------------
// Server
// ---------------------------------------------------------------------------------------------

/// Settings of the HTTP server in front of the broker.
#[derive(Debug)]
pub struct ServerConfig {
    pub host: String,
    pub port: u16,
    /// Seconds that a poll waits for a result.
    pub poll_timeout_secs: Number,
    /// Seconds after which a client is asked to poll again.
    pub retry_after_secs: u64,
}

/// The mathematical contents of a [`ServerConfig`].
pub struct ServerFacts {
    pub host: Seq<char>,
    pub port: u16,
    pub poll_timeout_secs: NumberValue,
    pub retry_after_secs: u64,
}

impl View for ServerConfig {
    type V = ServerFacts;

    open spec fn view(&self) -> ServerFacts {
        ServerFacts {
            host: self.host@,
            port: self.port,
            poll_timeout_secs: self.poll_timeout_secs@,
            retry_after_secs: self.retry_after_secs,
        }
    }
}

pub open spec fn server_names() -> Seq<Seq<char>> {
    seq!["host"@, "port"@, "poll_timeout_secs"@, "retry_after_secs"@]
}

/// The settings of a server of which nothing is said.
pub open spec fn default_server() -> ServerFacts {
    ServerFacts {
        host: "0.0.0.0"@,
        port: 8080,
        poll_timeout_secs: NumberValue::Unsigned(25),
        retry_after_secs: 1,
    }
}

/// What the `server` section holds, if it has the right shape.
pub open spec fn server_config(value: Tree) -> Option<ServerFacts> {
    match fields(value, server_names()) {
        None => None,
        Some(members) => {
            let host = string_or(lookup(members, "host"@), default_server().host);
            let port = uint_or(lookup(members, "port"@), 65535, 8080);
            let poll = number_or(
                lookup(members, "poll_timeout_secs"@),
                default_server().poll_timeout_secs,
            );
            let retry = uint_or(lookup(members, "retry_after_secs"@), u64::MAX, 1);
            if host is Some && port is Some && poll is Some && retry is Some {
                Some(
                    ServerFacts {
                        host: host->0,
                        port: port->0 as u16,
                        poll_timeout_secs: poll->0,
                        retry_after_secs: retry->0,
                    },
                )
            } else {
                None
            }
        },
    }
}

impl Default for ServerConfig {
    fn default() -> (config: ServerConfig)
        ensures
            config@ == default_server(),
    {
        ServerConfig {
            host: "0.0.0.0".to_owned(),
            port: 8080,
            poll_timeout_secs: Number::Unsigned(25),
            retry_after_secs: 1,
        }
    }
}

/// Reads the `server` section.
pub fn read_server_config(value: &Json) -> (r: Option<ServerConfig>)
    ensures
        match r {
            Some(config) => server_config(value@) == Some(config@),
            None => server_config(value@) is None,
        },
{
    let names: Vec<&str> = vec!["host", "port", "poll_timeout_secs", "retry_after_secs"];
    assert(strs(names@) =~= server_names());
    let members = match fields_of(value, &names) {
        Some(members) => members,
        None => return None,
    };
    let host = match read_string_or(find_member(&members, "host"), "0.0.0.0") {
        Some(host) => host,
        None => return None,
    };
    let port: u16 = match read_uint_or(find_member(&members, "port"), 65535, 8080) {
        Some(port) => port as u16,
        None => return None,
    };
    let poll_timeout_secs = match read_number_or(find_member(&members, "poll_timeout_secs"), 25) {
        Some(n) => n,
        None => return None,
    };
    let retry_after_secs: u64 = match read_uint_or(
        find_member(&members, "retry_after_secs"),
        u64::MAX,
        1,
    ) {
        Some(n) => n,
        None => return None,
    };
    Some(ServerConfig { host, port, poll_timeout_secs, retry_after_secs })
}

// ---------------------------------------------------------------------------------------------
// Metrics
// ---------------------------------------------------------------------------------------------

/// The `metrics` section: boundaries of histogram buckets in seconds, where they are not the
/// default ones.
#[derive(Debug)]
pub struct MetricsConfig {
    pub duration_buckets: Option<Vec<Number>>,
    pub queue_wait_buckets: Option<Vec<Number>>,
}

/// Every value is a number.
pub open spec fn all_numbers(items: Seq<Tree>) -> bool {
    forall|i: int| 0 <= i < items.len() ==> (#[trigger] items[i]) is Number
}

/// A list of numbers that may be left out.
pub open spec fn opt_number_list(field: Option<Tree>) -> Option<Option<Seq<NumberValue>>> {
    match opt_value(field) {
        None => Some(None),
        Some(Tree::Arr(items)) => if all_numbers(items) {
            Some(Some(Seq::new(items.len(), |i: int| items[i]->Number_0)))
        } else {
            None
        },
        Some(_) => None,
    }
}

/// The contents of an optional list of numbers.
pub open spec fn opt_values(list: Option<Vec<Number>>) -> Option<Seq<NumberValue>> {
    match list {
        Some(list) => Some(number_values(list@)),
        None => None,
    }
}

fn read_number_list(field: Option<&Json>) -> (r: Option<Option<Vec<Number>>>)
    ensures
        match r {
            Some(list) => opt_number_list(opt_tree(field)) == Some(opt_values(list)),
            None => opt_number_list(opt_tree(field)) is None,
        },
{
    let items = match field {
        None | Some(Json::Null) => return Some(None),
        Some(Json::Array(items)) => items,
        Some(_) => return None,
    };
    proof {
        lemma_trees(items@);
    }
    let mut list: Vec<Number> = Vec::new();
    let mut i: usize = 0;
    while i < items.len()
        invariant
            i <= items@.len(),
            list@.len() == i,
            opt_tree(field) == Some(Tree::Arr(trees(items@))),
            trees(items@).len() == items@.len(),
            forall|k: int|
                0 <= k < items@.len() ==> #[trigger] trees(items@)[k] == tree(items@[k]),
            forall|k: int|
                0 <= k < i ==> (#[trigger] trees(items@)[k]) == Tree::Number(list@[k]@),
        decreases items@.len() - i,
    {
        assert(trees(items@)[i as int] == tree(items@[i as int]));
        match &items[i] {
            Json::Number(n) => {
                list.push(n.copy());
            },
            _ => {
                assert(!(trees(items@)[i as int] is Number));
                return None;
            },
        }
        i = i + 1;
    }
    proof {
        assert(opt_values(Some(list))->0 =~= (opt_number_list(opt_tree(field))->0)->0);
    }
    Some(Some(list))
}

/// What the `metrics` section holds, if it has the right shape.
pub open spec fn metrics_config(section: Option<Tree>) -> Option<
    (Option<Seq<NumberValue>>, Option<Seq<NumberValue>>),
> {
    match section {
        None => Some((None, None)),
        Some(value) => match fields(value, seq!["duration_buckets"@, "queue_wait_buckets"@]) {
            None => None,
            Some(members) => {
                let duration = opt_number_list(lookup(members, "duration_buckets"@));
                let wait = opt_number_list(lookup(members, "queue_wait_buckets"@));
                if duration is Some && wait is Some {
                    Some((duration->0, wait->0))
                } else {
                    None
                }
            },
        },
    }
}

/// Reads the `metrics` section.
pub fn read_metrics_config(section: Option<&Json>) -> (r: Option<MetricsConfig>)
    ensures
        match r {
            Some(config) => metrics_config(opt_tree(section)) == Some(
                (opt_values(config.duration_buckets), opt_values(config.queue_wait_buckets)),
            ),
            None => metrics_config(opt_tree(section)) is None,
        },
{
    let value = match section {
        None => {
            return Some(MetricsConfig { duration_buckets: None, queue_wait_buckets: None });
        },
        Some(value) => value,
    };
    let names: Vec<&str> = vec!["duration_buckets", "queue_wait_buckets"];
    assert(strs(names@) =~= seq!["duration_buckets"@, "queue_wait_buckets"@]);
    let members = match fields_of(value, &names) {
        Some(members) => members,
        None => return None,
    };
    let duration_buckets = match read_number_list(find_member(&members, "duration_buckets")) {
        Some(list) => list,
        None => return None,
    };
    let queue_wait_buckets = match read_number_list(find_member(&members, "queue_wait_buckets")) {
        Some(list) => list,
        None => return None,
    };
    Some(MetricsConfig { duration_buckets, queue_wait_buckets })
}

/// The boundaries that given ones and the default ones come to.
pub open spec fn bounds_or(given: Option<Seq<NumberValue>>, default: BoundsFacts) -> BoundsFacts {
    match given {
        Some(list) => BoundsFacts::Secs(list),
        None => default,
    }
}

impl MetricsConfig {
    /// The boundaries of the histogram buckets: those that are given, and the default ones where
    /// none are.
    pub fn buckets(self) -> (r: HistogramBuckets)
        ensures
            r@ == (BucketFacts {
                duration: bounds_or(opt_values(self.duration_buckets), default_buckets().duration),
                queue_wait: bounds_or(
                    opt_values(self.queue_wait_buckets),
                    default_buckets().queue_wait,
                ),
            }),
    {
        let defaults = HistogramBuckets::default();
        let duration = match self.duration_buckets {
            Some(list) => Bounds::Secs(list),
            None => defaults.duration,
        };
        let queue_wait = match self.queue_wait_buckets {
            Some(list) => Bounds::Secs(list),
            None => defaults.queue_wait,
        };
        HistogramBuckets { duration, queue_wait }
    }
}

/// The `server` section is read exactly where each of its settings has the right kind; what is left
/// out has a fixed default.
pub proof fn law_server_section(members: Seq<(Seq<char>, Tree)>)
    ensures
        ({
            let host = lookup(members, "host"@);
            let port = lookup(members, "port"@);
            let poll = lookup(members, "poll_timeout_secs"@);
            let retry = lookup(members, "retry_after_secs"@);
            let r = server_config(Tree::Obj(members));
            &&& r is Some <==> {
                &&& host is None || host->0 is Str
                &&& port is None || (port->0 matches Tree::Number(NumberValue::Unsigned(n)) && n
                    <= 65535)
                &&& poll is None || poll->0 is Number
                &&& retry is None || (retry->0 matches Tree::Number(NumberValue::Unsigned(_)))
            }
            &&& r matches Some(facts) ==> {
                &&& host is None ==> facts.host == "0.0.0.0"@
                &&& host matches Some(value) ==> value == Tree::Str(facts.host)
                &&& port is None ==> facts.port == 8080
                &&& port matches Some(value) ==> value == Tree::Number(
                    NumberValue::Unsigned(facts.port as u64),
                )
                &&& poll is None ==> facts.poll_timeout_secs == NumberValue::Unsigned(25)
                &&& poll matches Some(value) ==> value == Tree::Number(facts.poll_timeout_secs)
                &&& retry is None ==> facts.retry_after_secs == 1
                &&& retry matches Some(value) ==> value == Tree::Number(
                    NumberValue::Unsigned(facts.retry_after_secs),
                )
            }
        }),
{
}

/// The worker server listens on every address and port 9001 unless told otherwise, and knows no
/// other setting than its address, its port and the address that it advertises.
pub proof fn law_worker_server_section(members: Seq<(Seq<char>, Tree)>)
    ensures
        worker_server_config(Tree::Obj(members)) matches Some(facts) ==> ({
            let host = lookup(members, "host"@);
            let port = lookup(members, "port"@);
            let addr = lookup(members, "advertised_addr"@);
            &&& host is None ==> facts.host == "0.0.0.0"@
            &&& host matches Some(value) ==> value == Tree::Str(facts.host)
            &&& port is None ==> facts.port == 9001
            &&& port matches Some(value) ==> value == Tree::Number(
                NumberValue::Unsigned(facts.port as u64),
            )
            &&& match facts.advertised_addr {
                None => addr is None || addr == Some(Tree::Null),
                Some(text) => addr == Some(Tree::Str(text)),
            }
            &&& forall|i: int|
                0 <= i < members.len() ==> seq!["host"@, "port"@, "advertised_addr"@].contains(
                    (#[trigger] members[i]).0,
                )
        }),
{
}

/// What the `bits` section says is taken as it stands, and what it leaves out is left out. A
/// setting that it does not know, or one of the wrong kind, makes it unreadable.
pub proof fn law_bits_section(members: Seq<(Seq<char>, Tree)>)
    ensures
        bits_config(Tree::Obj(members)) matches Some(facts) ==> {
            &&& told_text(lookup(members, "internal_poll_endpoint"@), facts.internal_poll_endpoint)
            &&& told_text(lookup(members, "broker_id_prefix"@), facts.broker_id_prefix)
            &&& told_number(
                lookup(members, "internal_poll_timeout_secs"@),
                facts.internal_poll_timeout_secs,
            )
            &&& told_number(lookup(members, "sweep_interval_secs"@), facts.sweep_interval_secs)
            &&& told_number(lookup(members, "reconnect_buffer_secs"@), facts.reconnect_buffer_secs)
            &&& told_number(lookup(members, "persist_after_secs"@), facts.persist_after_secs)
            &&& match facts.max_jobs {
                None => lookup(members, "max_jobs"@) is None || lookup(members, "max_jobs"@)
                    == Some(Tree::Null),
                Some(n) => lookup(members, "max_jobs"@) == Some(
                    Tree::Number(NumberValue::Unsigned(n as u64)),
                ),
            }
            &&& match facts.site {
                None => lookup(members, "site"@) is None || lookup(members, "site"@) == Some(
                    Tree::Null,
                ),
                Some(value) => lookup(members, "site"@) == Some(value),
            }
            &&& match facts.env {
                None => lookup(members, "env"@) is None || lookup(members, "env"@) == Some(
                    Tree::Null,
                ),
                Some(value) => lookup(members, "env"@) == Some(value),
            }
            &&& match facts.persistence {
                None => lookup(members, "persistence"@) is None || lookup(members, "persistence"@)
                    == Some(Tree::Null),
                Some(store) => lookup(members, "persistence"@) is Some && persistence_config(
                    lookup(members, "persistence"@)->0,
                ) == Some(store),
            }
            &&& match facts.worker_server {
                None => lookup(members, "worker_server"@) is None || lookup(
                    members,
                    "worker_server"@,
                ) == Some(Tree::Null),
                Some(server) => lookup(members, "worker_server"@) is Some && worker_server_config(
                    lookup(members, "worker_server"@)->0,
                ) == Some(server),
            }
        },
{
}

/// An optional text was told, or left out or null.
pub open spec fn told_text(field: Option<Tree>, text: Option<Seq<char>>) -> bool {
    match text {
        None => field is None || field == Some(Tree::Null),
        Some(text) => field == Some(Tree::Str(text)),
    }
}

/// An optional number was told, or left out or null.
pub open spec fn told_number(field: Option<Tree>, n: Option<NumberValue>) -> bool {
    match n {
        None => field is None || field == Some(Tree::Null),
        Some(n) => field == Some(Tree::Number(n)),
    }
}

/// A store is named by its type. A TiKV store needs its endpoints and a NATS store its URL; the
/// names of buckets, the number of replicas and the length of a lease have fixed defaults.
pub proof fn law_store_sections(members: Seq<(Seq<char>, Tree)>)
    ensures
        persistence_config(Tree::Obj(members)) matches Some(facts) ==> ({
            let ttl = lookup(members, "broker_lease_ttl_secs"@);
            match facts {
                PersistenceFacts::Tikv { endpoints, broker_lease_ttl_secs, .. } => {
                    &&& lookup(members, "type"@) == Some(Tree::Str("tikv"@))
                    &&& lookup(members, "endpoints"@) matches Some(Tree::Arr(items))
                        && items.len() == endpoints.len() && forall|i: int|
                        0 <= i < items.len() ==> #[trigger] items[i] == Tree::Str(endpoints[i])
                    &&& ttl is None ==> broker_lease_ttl_secs == NumberValue::Unsigned(30)
                    &&& ttl matches Some(value) ==> value == Tree::Number(broker_lease_ttl_secs)
                },
                PersistenceFacts::Nats {
                    url,
                    jobs_bucket,
                    leases_bucket,
                    broker_lease_ttl_secs,
                    num_replicas,
                    ..
                } => {
                    &&& lookup(members, "type"@) == Some(Tree::Str("nats"@))
                    &&& lookup(members, "url"@) == Some(Tree::Str(url))
                    &&& lookup(members, "jobs_bucket"@) is None ==> jobs_bucket == "bits-jobs"@
                    &&& lookup(members, "jobs_bucket"@) matches Some(value) ==> value == Tree::Str(
                        jobs_bucket,
                    )
                    &&& lookup(members, "leases_bucket"@) is None ==> leases_bucket
                        == "bits-leases"@
                    &&& lookup(members, "leases_bucket"@) matches Some(value) ==> value
                        == Tree::Str(leases_bucket)
                    &&& lookup(members, "num_replicas"@) is None ==> num_replicas == 1
                    &&& lookup(members, "num_replicas"@) matches Some(value) ==> value
                        == Tree::Number(NumberValue::Unsigned(num_replicas as u64))
                    &&& ttl is None ==> broker_lease_ttl_secs == NumberValue::Unsigned(30)
                    &&& ttl matches Some(value) ==> value == Tree::Number(broker_lease_ttl_secs)
                },
            }
        }),
{
    lemma_names_differ_from_type();
    law_other_members_stay(members, "type"@, "endpoints"@);
    law_other_members_stay(members, "type"@, "broker_lease_ttl_secs"@);
    law_other_members_stay(members, "type"@, "url"@);
    law_other_members_stay(members, "type"@, "jobs_bucket"@);
    law_other_members_stay(members, "type"@, "leases_bucket"@);
    law_other_members_stay(members, "type"@, "num_replicas"@);
}

proof fn lemma_names_differ_from_type()
    ensures
        "endpoints"@ != "type"@,
        "broker_lease_ttl_secs"@ != "type"@,
        "url"@ != "type"@,
        "jobs_bucket"@ != "type"@,
        "leases_bucket"@ != "type"@,
        "num_replicas"@ != "type"@,
{
    reveal_strlit("type");
    reveal_strlit("endpoints");
    reveal_strlit("broker_lease_ttl_secs");
    reveal_strlit("url");
    reveal_strlit("jobs_bucket");
    reveal_strlit("leases_bucket");
    reveal_strlit("num_replicas");
    assert("type"@.len() == 4 && "endpoints"@.len() == 9 && "broker_lease_ttl_secs"@.len() == 21
        && "url"@.len() == 3 && "jobs_bucket"@.len() == 11 && "leases_bucket"@.len() == 13
        && "num_replicas"@.len() == 12);
}

} // verus!
