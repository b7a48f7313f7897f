//! The broker: jobs in flight, submission and polling.
//!
//! A broker keeps the jobs that it works on. A poll for one of them waits here for its result. A
//! poll for any other job goes to the broker that owns it or, where that broker is gone, claims
//! the durable record of the job and takes the work up again.

use vstd::prelude::*;

use crate::actions::registry::ActionCatalog;
use crate::actions::{action_error_text, ActionError, TargetResult};
use crate::config::routes::{routes_of, RouteFactory};
use crate::config::sections::ServerConfig;
use crate::config::{parse_bootstrap, parsed, Bootstrap, Parsed, RuntimeConfig, Startup};
use crate::db::keys::names_job;
use crate::db::{
    claim_settled, BrokerLeaseRecord, ClaimResult, DbError, JobFacts, PersistentJobRecord,
};
use crate::error::{bits_problem, BitsError, BitsProblem, ConfigProblem};
use crate::job::{record_of, Job};
use crate::jobs::JobTable;
use crate::json::{trees, yaml_tree, Json, Tree};
use crate::request_id::{
    crockford_text, decode, decoded_id, encode, law_decode_inverts_encode, packed_id, valid_tag,
    CUSTOM_EPOCH_SECS,
};
use crate::result::JobResult;
use crate::routing::switch::{descriptions_from, switch_problem, Switch};
use crate::routing::RouteFacts;
use crate::text::{
    all_digits, cat5, chars_of, decimal, decimal_text, digits_value, parse_digits, text_eq, texts,
};
use crate::time::{utc_now, Span, Timestamp};

verus! {

/// Jobs that a broker keeps at most, unless configured otherwise.
pub const DEFAULT_MAX_JOBS: usize = 500_000;

/// Seconds that a client has to come back after a poll, beyond the poll itself.
pub const DEFAULT_RECONNECT_BUFFER_SECS: u64 = 5;

/// Seconds between removals of finished jobs that nobody asked for.
pub const DEFAULT_SWEEP_INTERVAL_SECS: u64 = 180;

/// Result of polling a submitted job.
#[derive(Debug)]
pub enum PollOutcome {
    /// The job reached a terminal state and produced a final result.
    Ready(JobResult),
    /// The job is still in progress; poll again using the returned id.
    Pending { id: String },
    /// No local, remote, or durable record exists for this job id.
    NotFound,
    /// The original owner disappeared and no durable state remained to recover.
    JobLost,
}

/// Handle returned from submission and used for later polling.
#[derive(Debug)]
pub struct JobHandle {
    /// Stable identifier for the submitted job.
    pub id: String,
}

/// Outcome of a job submission attempt.
#[derive(Debug)]
pub enum SubmitOutcome {
    /// Job was accepted and can be polled.
    Accepted(JobHandle),
    /// Broker is at capacity. The job was not accepted.
    Overloaded,
}

impl SubmitOutcome {
    /// Extracts the handle of a job that was accepted.
    pub fn expect_accepted(self, _msg: &str) -> (handle: JobHandle)
        requires
            self is Accepted,
        ensures
            self == SubmitOutcome::Accepted(handle),
    {
        match self {
            SubmitOutcome::Accepted(handle) => handle,
            SubmitOutcome::Overloaded => JobHandle { id: String::new() },
        }
    }
}

/// Whether a submission counts against the limit of the broker.
#[derive(Debug, Clone, Copy, PartialEq, Eq, Structural)]
pub enum SubmissionAdmission {
    EnforceLimit,
    /// The job was accepted before and has a durable record.
    BypassLimitAlreadyPersisted,
}

// ---------------------------------------------------------------------------------------------
// Brokers' names
// ---------------------------------------------------------------------------------------------

/// The identifier of a broker: its site, its environment and its slot.
pub open spec fn broker_name(site: Seq<char>, env: Seq<char>, slot: u16) -> Seq<char> {
    site + "-"@ + env + "-"@ + decimal_text(slot as nat)
}

/// The broker that issued a job identifier.
pub open spec fn owner_of(job_id: Seq<char>) -> Option<Seq<char>> {
    match decoded_id(job_id) {
        Ok(id) => Some(broker_name(id.site, id.env, id.broker_slot)),
        Err(_) => None,
    }
}

/// A job identifier was issued by a broker.
pub open spec fn issued_by(job_id: Seq<char>, site: Seq<char>, env: Seq<char>, slot: u16) -> bool {
    decoded_id(job_id) matches Ok(id) && id.site == site && id.env == env && id.broker_slot == slot
}

/// The identifier under which a broker accepts a job at a point in time: the one that the job has,
/// if it is a request identifier, and a new one otherwise. There is no new one where the broker's
/// tags are not valid or the time does not fit.
pub open spec fn identified(
    site: Seq<char>,
    env: Seq<char>,
    slot: u16,
    wanted: Seq<char>,
    now: Timestamp,
    id: Seq<char>,
) -> bool {
    let secs = now.secs - CUSTOM_EPOCH_SECS;
    if names_job(wanted) || !valid_tag(site) || !valid_tag(env) || !(0 <= secs <= u32::MAX) {
        id == wanted
    } else {
        exists|random: Seq<u8>|
            random.len() == 5 && id == crockford_text(
                #[trigger] packed_id(site, env, secs as nat, slot as nat, random),
            )
    }
}

/// Names a broker.
pub fn broker_id_of(site: &str, env: &str, slot: u16) -> (r: String)
    ensures
        r@ == broker_name(site@, env@, slot),
{
    cat5(site, "-", env, "-", &decimal(slot as u64))
}

/// Finds the broker that issued a job identifier.
pub fn slot_from_job_id(job_id: &str) -> (r: Option<String>)
    ensures
        match r {
            Some(owner) => owner_of(job_id@) == Some(owner@),
            None => owner_of(job_id@) is None,
        },
{
    match decode(job_id) {
        Ok(id) => Some(broker_id_of(&id.site, &id.env, id.broker_slot)),
        Err(_) => None,
    }
}

/// Where a character first stands in a text, from a place on.
pub open spec fn first_at(s: Seq<char>, ch: char, i: int) -> Option<int>
    decreases s.len() - i,
{
    if i < 0 || i >= s.len() {
        None
    } else if s[i] == ch {
        Some(i)
    } else {
        first_at(s, ch, i + 1)
    }
}

/// Where a character last stands in a text, before a place.
pub open spec fn last_at(s: Seq<char>, ch: char, i: int) -> Option<int>
    decreases i,
{
    if i <= 0 || i > s.len() {
        None
    } else if s[i - 1] == ch {
        Some(i - 1)
    } else {
        last_at(s, ch, i - 1)
    }
}

/// A number of at most sixteen bits, with or without a plus sign.
pub open spec fn slot_value(s: Seq<char>) -> Option<u16> {
    let digits = if s.len() > 0 && s[0] == '+' {
        s.skip(1)
    } else {
        s
    };
    if digits.len() > 0 && all_digits(digits) && digits_value(digits) <= u16::MAX {
        Some(digits_value(digits) as u16)
    } else {
        None
    }
}

/// The site, the environment and the slot that a broker identifier holds.
pub open spec fn identity(broker_id: Seq<char>) -> Option<(Seq<char>, Seq<char>, u16)> {
    match last_at(broker_id, '-', broker_id.len() as int) {
        None => None,
        Some(j) => {
            let prefix = broker_id.take(j);
            match (first_at(prefix, '-', 0), slot_value(broker_id.skip(j + 1))) {
                (Some(i), Some(slot)) => Some((prefix.take(i), prefix.skip(i + 1), slot)),
                _ => None,
            }
        },
    }
}

fn text_between(chars: &Vec<char>, from: usize, to: usize) -> (r: String)
    requires
        from <= to <= chars@.len(),
    ensures
        r@ == chars@.subrange(from as int, to as int),
{
    let mut r = String::new();
    let mut i: usize = from;
    while i < to
        invariant
            from <= i <= to <= chars@.len(),
            r@ == chars@.subrange(from as int, i as int),
        decreases to - i,
    {
        r.push(chars[i]);
        assert(chars@.subrange(from as int, i + 1) =~= chars@.subrange(
            from as int,
            i as int,
        ).push(chars@[i as int]));
        i = i + 1;
    }
    r
}

fn read_slot(chars: &Vec<char>, from: usize) -> (r: Option<u16>)
    requires
        from <= chars@.len(),
    ensures
        r == slot_value(chars@.skip(from as int)),
{
    let ghost s = chars@.skip(from as int);
    let start: usize = if from < chars.len() && chars[from] == '+' {
        from + 1
    } else {
        from
    };
    let digits = text_between(chars, start, chars.len());
    proof {
        if from < chars@.len() {
            assert(s[0] == chars@[from as int]);
        }
        assert(digits@ =~= if s.len() > 0 && s[0] == '+' {
            s.skip(1)
        } else {
            s
        });
    }
    match parse_digits(&digits, 65535) {
        Some(n) => Some(n as u16),
        None => None,
    }
}

/// Reads a broker identifier.
pub fn identity_of(broker_id: &str) -> (r: Option<(String, String, u16)>)
    ensures
        match r {
            Some((site, env, slot)) => identity(broker_id@) == Some((site@, env@, slot)),
            None => identity(broker_id@) is None,
        },
{
    let chars = chars_of(broker_id);
    let mut j: usize = chars.len();
    while j > 0 && chars[j - 1] != '-'
        invariant
            j <= chars@.len(),
            chars@ == broker_id@,
            last_at(broker_id@, '-', chars@.len() as int) == last_at(broker_id@, '-', j as int),
        decreases j,
    {
        j = j - 1;
    }
    if j == 0 {
        return None;
    }
    let split: usize = j - 1;
    let ghost prefix = broker_id@.take(split as int);
    let mut i: usize = 0;
    while i < split && chars[i] != '-'
        invariant
            i <= split < chars@.len(),
            chars@ == broker_id@,
            prefix == broker_id@.take(split as int),
            first_at(prefix, '-', 0) == first_at(prefix, '-', i as int),
        decreases split - i,
    {
        assert(prefix[i as int] == chars@[i as int]);
        i = i + 1;
    }
    if i == split {
        assert(first_at(prefix, '-', i as int) is None);
        return None;
    }
    assert(prefix[i as int] == '-');
    match read_slot(&chars, split + 1) {
        Some(slot) => {
            let site = text_between(&chars, 0, i);
            let env = text_between(&chars, i + 1, split);
            assert(site@ =~= prefix.take(i as int));
            assert(env@ =~= prefix.skip(i + 1));
            Some((site, env, slot))
        },
        None => None,
    }
}

proof fn lemma_first_at(s: Seq<char>, ch: char, i: int, from: int)
    requires
        0 <= from <= i < s.len(),
        s[i] == ch,
        forall|k: int| from <= k < i ==> s[k] != ch,
    ensures
        first_at(s, ch, from) == Some(i),
    decreases i - from,
{
    if from < i {
        lemma_first_at(s, ch, i, from + 1);
    }
}

proof fn lemma_last_at(s: Seq<char>, ch: char, i: int, to: int)
    requires
        0 <= i < to <= s.len(),
        s[i] == ch,
        forall|k: int| i < k < to ==> s[k] != ch,
    ensures
        last_at(s, ch, to) == Some(i),
    decreases to,
{
    if i < to - 1 {
        lemma_last_at(s, ch, i, to - 1);
    }
}

proof fn lemma_decimal_digits(n: nat)
    ensures
        decimal_text(n).len() > 0,
        all_digits(decimal_text(n)),
        digits_value(decimal_text(n)) == n,
        forall|k: int| 0 <= k < decimal_text(n).len() ==> decimal_text(n)[k] != '-'
            && decimal_text(n)[k] != '+',
    decreases n,
{
    let t = decimal_text(n);
    if n >= 10 {
        lemma_decimal_digits(n / 10);
        assert(t.drop_last() =~= decimal_text(n / 10));
        assert(t.last() == crate::text::digit_char(n % 10));
    }
    let c = crate::text::digit_char(n % 10);
    assert(c as nat == 48 + n % 10);
    assert(t.last() == c);
    assert forall|k: int| 0 <= k < t.len() implies '0' <= #[trigger] t[k] <= '9' by {
        if k < t.len() - 1 {
            assert(t[k] == decimal_text(n / 10)[k]);
        }
    }
    if n < 10 {
        assert(t.drop_last() =~= Seq::<char>::empty());
        assert(digits_value(t.drop_last()) == 0);
    }
    assert(digits_value(t) == digits_value(t.drop_last()) * 10 + (t.last() as nat
        - '0' as nat) as nat);
    assert((t.last() as nat - '0' as nat) as nat == n % 10);
}

/// The identifier of a broker reads back as the site, the environment and the slot that it was
/// made of.
pub proof fn law_broker_names_read_back(site: Seq<char>, env: Seq<char>, slot: u16)
    requires
        valid_tag(site),
        valid_tag(env),
    ensures
        identity(broker_name(site, env, slot)) == Some((site, env, slot)),
{
    reveal_strlit("-");
    let digits = decimal_text(slot as nat);
    lemma_decimal_digits(slot as nat);
    let name = broker_name(site, env, slot);
    let j = site.len() + 1 + env.len();
    assert(name[j as int] == '-');
    assert forall|k: int| j < k < name.len() implies name[k] != '-' by {
        assert(name[k] == digits[k - j - 1]);
    }
    lemma_last_at(name, '-', j as int, name.len() as int);
    let prefix = name.take(j as int);
    assert(prefix =~= site + "-"@ + env);
    assert forall|k: int| 0 <= k < site.len() implies prefix[k] != '-' by {
        assert(prefix[k] == site[k]);
        assert(crate::request_id::is_tag_char(site[k]));
    }
    lemma_first_at(prefix, '-', site.len() as int, 0);
    assert(prefix.take(site.len() as int) =~= site);
    assert(prefix.skip(site.len() as int + 1) =~= env);
    assert(name.skip(j as int + 1) =~= digits);
    assert(digits[0] != '+');
}

/// A job identifier that a broker issues leads back to that broker.
pub proof fn law_issued_ids_lead_back(job_id: Seq<char>, site: Seq<char>, env: Seq<char>, slot: u16)
    requires
        issued_by(job_id, site, env, slot),
    ensures
        owner_of(job_id) == Some(broker_name(site, env, slot)),
{
}

// ---------------------------------------------------------------------------------------------
// Broker
// ---------------------------------------------------------------------------------------------

/// A set of routes that was added to a running broker.
#[derive(Debug)]
pub struct AddedRoute {
    pub name: String,
    pub router: Switch,
}

/// Submits jobs to routes that were added to a running broker.
#[derive(Debug)]
pub struct RouteHandle {
    pub name: String,
    pub site: String,
    pub env: String,
    pub broker_slot: u16,
    /// Where the routes stand among those that were added.
    pub place: usize,
}

/// Main broker runtime used to submit, cancel, and poll jobs.
pub struct Bits {
    pub router: Switch,
    pub route_factory: RouteFactory,
    pub broker_id: String,
    pub site: String,
    pub env: String,
    pub broker_slot: u16,
    pub jobs: JobTable,
    pub max_jobs: usize,
    pub reconnect_buffer: Span,
    pub persist_after: Option<Span>,
    /// Whether durable records are kept.
    pub durable: bool,
    pub internal_poll_base_url: String,
    pub internal_poll_timeout: Span,
    pub sweep_interval: Span,
    pub broker_lease_ttl: Span,
    pub added_routes: Vec<AddedRoute>,
}

/// A broker that runs, or one that needs its store opened first.
pub enum Started {
    Running(Bits),
    AwaitStore(Startup),
}

impl Bootstrap {
    /// Makes the broker.
    pub fn into_bits(self) -> (bits: Bits)
        ensures
            bits.made_of(self.runtime_config),
    {
        Bits::from_runtime_config(self.runtime_config)
    }

    /// Makes the broker, and hands out the settings of its server.
    pub fn into_parts(self) -> (r: (Bits, ServerConfig))
        ensures
            r.0.made_of(self.runtime_config),
            r.1 == self.server_config,
    {
        (Bits::from_runtime_config(self.runtime_config), self.server_config)
    }
}

/// The routes of those that were added, one after the other.
pub open spec fn added_names(added: Seq<AddedRoute>) -> Seq<Seq<char>>
    decreases added.len(),
{
    if added.len() == 0 {
        Seq::empty()
    } else {
        added_names(added.drop_last()) + names_of(added.last().router@)
    }
}

/// The names of routes.
pub open spec fn names_of(routes: Seq<RouteFacts>) -> Seq<Seq<char>> {
    Seq::new(routes.len(), |i: int| routes[i].name)
}

/// What the actions of those that were added say about themselves.
pub open spec fn added_descriptions(added: Seq<AddedRoute>) -> Seq<Tree>
    decreases added.len(),
{
    if added.len() == 0 {
        Seq::empty()
    } else {
        added_descriptions(added.drop_last()) + descriptions_from(added.last().router@, 0, 0)
    }
}

impl Bits {
    /// The table of jobs is sound.
    pub open spec fn wf(self) -> bool {
        self.jobs.wf()
    }

    /// Everything but the jobs is as it was.
    pub open spec fn same_broker(self, other: Bits) -> bool {
        &&& self.router == other.router
        &&& self.route_factory == other.route_factory
        &&& self.broker_id == other.broker_id
        &&& self.site == other.site
        &&& self.env == other.env
        &&& self.broker_slot == other.broker_slot
        &&& self.max_jobs == other.max_jobs
        &&& self.reconnect_buffer == other.reconnect_buffer
        &&& self.persist_after == other.persist_after
        &&& self.durable == other.durable
        &&& self.internal_poll_base_url == other.internal_poll_base_url
        &&& self.internal_poll_timeout == other.internal_poll_timeout
        &&& self.sweep_interval == other.sweep_interval
        &&& self.broker_lease_ttl == other.broker_lease_ttl
        &&& self.added_routes == other.added_routes
    }

    /// The broker is the new one that a configuration describes.
    pub open spec fn made_of(self, config: RuntimeConfig) -> bool {
        &&& self.wf()
        &&& self.jobs@ == Map::<Seq<char>, Job>::empty()
        &&& self.jobs.count() == 0
        &&& self.router == config.router
        &&& self.route_factory == config.route_factory
        &&& self.broker_id@ == broker_name(config.site@, config.env@, config.broker_slot)
        &&& self.site == config.site
        &&& self.env == config.env
        &&& self.broker_slot == config.broker_slot
        &&& self.max_jobs == config.max_jobs
        &&& self.reconnect_buffer == config.reconnect_buffer
        &&& self.persist_after == config.persist_after
        &&& self.durable == config.job_store is Some
        &&& self.internal_poll_base_url == config.internal_poll_endpoint
        &&& self.internal_poll_timeout == config.internal_poll_timeout
        &&& self.sweep_interval == match config.sweep_interval {
            Some(interval) => interval,
            None => Span { secs: DEFAULT_SWEEP_INTERVAL_SECS, nanos: 0 },
        }
        &&& self.broker_lease_ttl == config.broker_lease_ttl
        &&& self.added_routes@.len() == 0
    }

    /// Makes a broker out of a configuration.
    pub fn from_runtime_config(config: RuntimeConfig) -> (bits: Bits)
        ensures
            bits.made_of(config),
    {
        let broker_id = broker_id_of(&config.site, &config.env, config.broker_slot);
        let sweep_interval = match config.sweep_interval {
            Some(interval) => interval,
            None => Span { secs: DEFAULT_SWEEP_INTERVAL_SECS, nanos: 0 },
        };
        Bits {
            router: config.router,
            route_factory: config.route_factory,
            broker_id,
            site: config.site,
            env: config.env,
            broker_slot: config.broker_slot,
            jobs: JobTable::new(),
            max_jobs: config.max_jobs,
            reconnect_buffer: config.reconnect_buffer,
            persist_after: config.persist_after,
            durable: config.job_store.is_some(),
            internal_poll_base_url: config.internal_poll_endpoint,
            internal_poll_timeout: config.internal_poll_timeout,
            sweep_interval,
            broker_lease_ttl: config.broker_lease_ttl,
            added_routes: Vec::new(),
        }
    }

    /// Builds a broker from a YAML configuration, as far as it needs no store.
    pub fn from_config(config: &str, catalog: ActionCatalog) -> (r: Result<Started, BitsError>)
        ensures
            match yaml_tree(config@) {
                Err(words) => r matches Err(e) && bits_problem(e) == BitsProblem::Config(
                    ConfigProblem::Yaml { words },
                ),
                Ok(raw) => exists|p: Result<Parsed, BitsError>|
                    #[trigger] parsed(raw, catalog@, p) && match (p, r) {
                        (Err(e), Err(f)) => e == f,
                        (Ok(Parsed::AwaitStore(a)), Ok(Started::AwaitStore(b))) => a == b,
                        (Ok(Parsed::Ready(bootstrap)), Ok(Started::Running(bits))) => bits.made_of(
                            bootstrap.runtime_config,
                        ),
                        _ => false,
                    },
            },
    {
        let p = parse_bootstrap(config, catalog);
        match p {
            Err(e) => Err(e),
            Ok(Parsed::AwaitStore(startup)) => Ok(Started::AwaitStore(startup)),
            Ok(Parsed::Ready(bootstrap)) => Ok(Started::Running(bootstrap.into_bits())),
        }
    }

    /// Makes a broker out of its parts. An identifier that cannot be read stands for slot zero of
    /// the site and environment `tst`.
    pub fn from_router_for_tests(
        router: Switch,
        route_factory: RouteFactory,
        broker_id: String,
        internal_poll_base_url: String,
        internal_poll_timeout: Span,
        persist_after: Option<Span>,
        durable: bool,
        broker_lease_ttl: Span,
    ) -> (bits: Bits)
        ensures
            bits.wf(),
            bits.jobs@ == Map::<Seq<char>, Job>::empty(),
            bits.jobs.count() == 0,
            bits.router == router,
            bits.route_factory == route_factory,
            bits.broker_id == broker_id,
            (bits.site@, bits.env@, bits.broker_slot) == match identity(broker_id@) {
                Some(parts) => parts,
                None => ("tst"@, "tst"@, 0u16),
            },
            bits.max_jobs == DEFAULT_MAX_JOBS,
            bits.reconnect_buffer == (Span { secs: DEFAULT_RECONNECT_BUFFER_SECS, nanos: 0 }),
            bits.persist_after == persist_after,
            bits.durable == durable,
            bits.internal_poll_base_url == internal_poll_base_url,
            bits.internal_poll_timeout == internal_poll_timeout,
            bits.sweep_interval == (Span { secs: DEFAULT_SWEEP_INTERVAL_SECS, nanos: 0 }),
            bits.broker_lease_ttl == broker_lease_ttl,
            bits.added_routes@.len() == 0,
    {
        let (site, env, broker_slot) = match identity_of(&broker_id) {
            Some((site, env, slot)) => (site, env, slot),
            None => ("tst".to_owned(), "tst".to_owned(), 0),
        };
        Bits {
            router,
            route_factory,
            broker_id,
            site,
            env,
            broker_slot,
            jobs: JobTable::new(),
            max_jobs: DEFAULT_MAX_JOBS,
            reconnect_buffer: Span { secs: DEFAULT_RECONNECT_BUFFER_SECS, nanos: 0 },
            persist_after,
            durable,
            internal_poll_base_url,
            internal_poll_timeout,
            sweep_interval: Span { secs: DEFAULT_SWEEP_INTERVAL_SECS, nanos: 0 },
            broker_lease_ttl,
            added_routes: Vec::new(),
        }
    }

    /// Returns the broker instance identifier.
    pub fn broker_id(&self) -> (r: &str)
        ensures
            r@ == self.broker_id@,
    {
        self.broker_id.as_str()
    }

    /// Returns the validated site tag used for generated broker and request identifiers.
    pub fn site(&self) -> (r: &str)
        ensures
            r@ == self.site@,
    {
        self.site.as_str()
    }

    /// Returns the validated environment tag used for generated broker and request identifiers.
    pub fn env(&self) -> (r: &str)
        ensures
            r@ == self.env@,
    {
        self.env.as_str()
    }

    /// Returns the allocated broker slot for this process.
    pub fn broker_slot(&self) -> (r: u16)
        ensures
            r == self.broker_slot,
    {
        self.broker_slot
    }

    pub fn route_factory(&self) -> (r: &RouteFactory)
        ensures
            *r == self.route_factory,
    {
        &self.route_factory
    }

    // -----------------------------------------------------------------------------------------
    // Routes
    // -----------------------------------------------------------------------------------------

    /// Returns the names of the top-level routes configured on this broker, then of those that
    /// were added.
    pub fn route_names(&self) -> (names: Vec<String>)
        ensures
            texts(names@) == names_of(self.router@) + added_names(self.added_routes@),
    {
        let mut names = self.router.route_names();
        let ghost first = texts(names@);
        assert(first =~= names_of(self.router@));
        assert(added_names(self.added_routes@.take(0)) =~= Seq::<Seq<char>>::empty());
        assert(texts(names@) =~= first + added_names(self.added_routes@.take(0)));
        let mut i: usize = 0;
        while i < self.added_routes.len()
            invariant
                i <= self.added_routes@.len(),
                texts(names@) == first + added_names(self.added_routes@.take(i as int)),
            decreases self.added_routes@.len() - i,
        {
            let mut more = self.added_routes[i].router.route_names();
            let ghost before = names@;
            let ghost added = more@;
            names.append(&mut more);
            proof {
                assert(texts(names@) =~= texts(before) + texts(added));
                assert(self.added_routes@.take(i + 1).drop_last() =~= self.added_routes@.take(
                    i as int,
                ));
                assert(texts(added) =~= names_of(self.added_routes@[i as int].router@));
                assert(first + added_names(self.added_routes@.take(i as int)) + texts(added)
                    =~= first + (added_names(self.added_routes@.take(i as int)) + texts(added)));
            }
            i = i + 1;
        }
        assert(self.added_routes@.take(i as int) =~= self.added_routes@);
        names
    }

    /// Returns the names of the sets of routes that were added.
    pub fn added_route_names(&self) -> (names: Vec<String>)
        ensures
            texts(names@) == Seq::new(
                self.added_routes@.len(),
                |i: int| self.added_routes@[i].name@,
            ),
    {
        let mut names: Vec<String> = Vec::new();
        let mut i: usize = 0;
        while i < self.added_routes.len()
            invariant
                i <= self.added_routes@.len(),
                names@.len() == i,
                forall|k: int|
                    0 <= k < i ==> (#[trigger] names@[k])@ == self.added_routes@[k].name@,
            decreases self.added_routes@.len() - i,
        {
            names.push(self.added_routes[i].name.clone());
            i = i + 1;
        }
        assert(texts(names@) =~= Seq::new(
            self.added_routes@.len(),
            |i: int| self.added_routes@[i].name@,
        ));
        names
    }

    /// Collects descriptors from every action in the routing tree.
    pub fn describe_actions(&self) -> (out: Vec<Json>)
        ensures
            trees(out@) == descriptions_from(self.router@, 0, 0) + added_descriptions(
                self.added_routes@,
            ),
    {
        let mut out = self.router.describe_actions();
        let ghost first = trees(out@);
        assert(added_descriptions(self.added_routes@.take(0)) =~= Seq::<Tree>::empty());
        assert(trees(out@) =~= first + added_descriptions(self.added_routes@.take(0)));
        let mut i: usize = 0;
        while i < self.added_routes.len()
            invariant
                i <= self.added_routes@.len(),
                trees(out@) == first + added_descriptions(self.added_routes@.take(i as int)),
            decreases self.added_routes@.len() - i,
        {
            self.added_routes[i].router.describe_into(&mut out);
            proof {
                let before = self.added_routes@.take(i as int);
                let more = descriptions_from(self.added_routes@[i as int].router@, 0, 0);
                assert(self.added_routes@.take(i + 1).drop_last() =~= before);
                assert(first + added_descriptions(before) + more =~= first + (added_descriptions(
                    before,
                ) + more));
            }
            i = i + 1;
        }
        assert(self.added_routes@.take(i as int) =~= self.added_routes@);
        out
    }

    /// Adds routes to the running broker. They are made in the same surroundings as the
    /// configured ones, and share their targets.
    pub fn add_route(&mut self, name: &str, route_value: &Json) -> (r: Result<
        RouteHandle,
        BitsError,
    >)
        requires
            old(self).wf(),
        ensures
            final(self).wf(),
            ({
                let routes = routes_of(route_value@, name@, old(self).route_factory@);
                match r {
                    Ok(handle) => {
                        &&& routes is Ok
                        &&& switch_problem(routes->Ok_0) is None
                        &&& handle.leads_to(*old(self), name@)
                        &&& final(self).added_routes@.len() == old(self).added_routes@.len() + 1
                        &&& final(self).added_routes@.drop_last() == old(self).added_routes@
                        &&& final(self).added_routes@.last().name@ == name@
                        &&& final(self).added_routes@.last().router@ == routes->Ok_0
                        &&& *final(self) == (Bits {
                            added_routes: final(self).added_routes,
                            ..*old(self)
                        })
                    },
                    Err(e) => {
                        &&& *final(self) == *old(self)
                        &&& match routes {
                            Err(p) => bits_problem(e) == p,
                            Ok(routes) => match switch_problem(routes) {
                                Some(p) => bits_problem(e) == BitsProblem::Routing(p),
                                None => false,
                            },
                        }
                    },
                }
            }),
    {
        let routes = match self.route_factory.parse_route(name, route_value) {
            Ok(routes) => routes,
            Err(e) => return Err(e),
        };
        let router = Switch::new(routes);
        match router.validate() {
            Ok(()) => {},
            Err(e) => return Err(BitsError::Routing(e)),
        }
        let handle = RouteHandle {
            name: name.to_owned(),
            site: self.site.clone(),
            env: self.env.clone(),
            broker_slot: self.broker_slot,
            place: self.added_routes.len(),
        };
        self.added_routes.push(AddedRoute { name: name.to_owned(), router });
        assert(self.added_routes@.drop_last() =~= old(self).added_routes@);
        Ok(handle)
    }

    // -----------------------------------------------------------------------------------------
    // Submission
    // -----------------------------------------------------------------------------------------

    /// The identifier under which a job is accepted at a point in time: its own, if it is a
    /// request identifier, and a new one of this broker otherwise.
    pub fn request_id_for(&self, wanted: &str, now: Timestamp) -> (id: String)
        ensures
            identified(self.site@, self.env@, self.broker_slot, wanted@, now, id@),
            names_job(wanted@) ==> id@ == wanted@,
            !names_job(wanted@) ==> id@ == wanted@ || issued_by(
                id@,
                self.site@,
                self.env@,
                self.broker_slot,
            ),
            !names_job(wanted@) && valid_tag(self.site@) && valid_tag(self.env@) && 0 <= now.secs
                - CUSTOM_EPOCH_SECS <= u32::MAX ==> issued_by(
                id@,
                self.site@,
                self.env@,
                self.broker_slot,
            ),
    {
        if decode(wanted).is_ok() {
            return wanted.to_owned();
        }
        let r = encode(&self.site, &self.env, self.broker_slot, now);
        proof {
            let random = choose|random: Seq<u8>|
                random.len() == 5 && #[trigger] crate::request_id::encode_result(
                    self.site@,
                    self.env@,
                    self.broker_slot,
                    now,
                    random,
                    r,
                );
            if r is Ok {
                law_decode_inverts_encode(
                    self.site@,
                    self.env@,
                    (now.secs - CUSTOM_EPOCH_SECS) as u32,
                    self.broker_slot,
                    random,
                );
            }
        }
        match r {
            Ok(id) => id,
            Err(_) => wanted.to_owned(),
        }
    }

    /// Accepts a job, unless the broker is at capacity.
    pub fn submit_at(&mut self, job: Job, admission: SubmissionAdmission, now: Timestamp) -> (r:
        SubmitOutcome)
        requires
            old(self).wf(),
        ensures
            final(self).wf(),
            final(self).same_broker(*old(self)),
            submitted(*old(self), job, admission, *final(self), r),
            r matches SubmitOutcome::Accepted(handle) ==> identified(
                old(self).site@,
                old(self).env@,
                old(self).broker_slot,
                job.id@,
                now,
                handle.id@,
            ),
            r matches SubmitOutcome::Accepted(handle) ==> !names_job(job.id@) && valid_tag(
                old(self).site@,
            ) && valid_tag(old(self).env@) && 0 <= now.secs - CUSTOM_EPOCH_SECS <= u32::MAX
                ==> issued_by(
                handle.id@,
                old(self).site@,
                old(self).env@,
                old(self).broker_slot,
            ),
    {
        if admission == SubmissionAdmission::EnforceLimit && self.jobs.len() >= self.max_jobs {
            return SubmitOutcome::Overloaded;
        }
        let id = self.request_id_for(&job.id, now);
        let mut accepted = job;
        accepted.id = id.clone();
        if admission == SubmissionAdmission::BypassLimitAlreadyPersisted {
            accepted.persisted = true;
        }
        let ghost kept = accepted;
        self.jobs.insert(accepted);
        assert(accepted_as(job, admission, kept));
        SubmitOutcome::Accepted(JobHandle { id })
    }

    /// Submit a job for processing through the routing pipeline.
    pub fn submit(&mut self, job: Job) -> (r: SubmitOutcome)
        requires
            old(self).wf(),
        ensures
            final(self).wf(),
            final(self).same_broker(*old(self)),
            submitted(*old(self), job, SubmissionAdmission::EnforceLimit, *final(self), r),
            r matches SubmitOutcome::Accepted(handle) ==> exists|now: Timestamp| #[trigger]
                identified(
                    old(self).site@,
                    old(self).env@,
                    old(self).broker_slot,
                    job.id@,
                    now,
                    handle.id@,
                ),
    {
        let now = utc_now();
        self.submit_at(job, SubmissionAdmission::EnforceLimit, now)
    }

    /// Submits a job again that was taken over with its durable record.
    pub fn submit_with_state(&mut self, job: Job, already_persisted: bool) -> (r: SubmitOutcome)
        requires
            old(self).wf(),
        ensures
            final(self).wf(),
            final(self).same_broker(*old(self)),
            submitted(
                *old(self),
                job,
                if already_persisted {
                    SubmissionAdmission::BypassLimitAlreadyPersisted
                } else {
                    SubmissionAdmission::EnforceLimit
                },
                *final(self),
                r,
            ),
            r matches SubmitOutcome::Accepted(handle) ==> exists|now: Timestamp| #[trigger]
                identified(
                    old(self).site@,
                    old(self).env@,
                    old(self).broker_slot,
                    job.id@,
                    now,
                    handle.id@,
                ),
    {
        let admission = if already_persisted {
            SubmissionAdmission::BypassLimitAlreadyPersisted
        } else {
            SubmissionAdmission::EnforceLimit
        };
        let now = utc_now();
        self.submit_at(job, admission, now)
    }

    /// Requests cancellation for a previously submitted job.
    ///
    /// Cancellation is best-effort and is observed at action boundaries.
    pub fn cancel(&mut self, id: &str)
        requires
            old(self).wf(),
        ensures
            final(self).wf(),
            final(self).same_broker(*old(self)),
            final(self).jobs.count() == old(self).jobs.count(),
            final(self).jobs@ == if old(self).jobs@.contains_key(id@) {
                old(self).jobs@.insert(
                    id@,
                    Job { cancelled: true, ..old(self).jobs@[id@] },
                )
            } else {
                old(self).jobs@
            },
    {
        proof {
            if self.jobs@.contains_key(id@) {
                self.jobs.lemma_key(id@);
            }
        }
        match self.jobs.remove(id) {
            Some(job) => {
                let mut job = job;
                job.cancelled = true;
                self.jobs.insert(job);
                assert(self.jobs@ =~= old(self).jobs@.insert(
                    id@,
                    Job { cancelled: true, ..old(self).jobs@[id@] },
                ));
            },
            None => {
                assert(self.jobs@ =~= old(self).jobs@);
            },
        }
    }
}

/// The job that is kept for one that was submitted: the same, under its identifier, and marked as
/// durable if it was taken over.
pub open spec fn accepted_as(job: Job, admission: SubmissionAdmission, kept: Job) -> bool {
    kept == (Job {
        id: kept.id,
        persisted: job.persisted || admission == SubmissionAdmission::BypassLimitAlreadyPersisted,
        ..job
    })
}

/// What a submission does.
pub open spec fn submitted(
    before: Bits,
    job: Job,
    admission: SubmissionAdmission,
    after: Bits,
    r: SubmitOutcome,
) -> bool {
    if admission == SubmissionAdmission::EnforceLimit && before.jobs.count() >= before.max_jobs {
        r is Overloaded && after.jobs@ == before.jobs@ && after.jobs.count() == before.jobs.count()
    } else {
        r matches SubmitOutcome::Accepted(handle) && {
            &&& names_job(job.id@) ==> handle.id@ == job.id@
            &&& !names_job(job.id@) ==> handle.id@ == job.id@ || issued_by(
                handle.id@,
                before.site@,
                before.env@,
                before.broker_slot,
            )
            &&& after.jobs@.contains_key(handle.id@)
            &&& after.jobs@[handle.id@].id@ == handle.id@
            &&& accepted_as(job, admission, after.jobs@[handle.id@])
            &&& after.jobs@ == before.jobs@.insert(handle.id@, after.jobs@[handle.id@])
            &&& after.jobs.count() == before.jobs.count() + if before.jobs@.contains_key(
                handle.id@,
            ) {
                0nat
            } else {
                1nat
            }
        }
    }
}

/// A broker never holds more jobs than its limit, however many are submitted to it: only jobs that
/// are taken over come on top.
pub proof fn law_jobs_stay_within_the_limit(before: Bits, job: Job, after: Bits, r: SubmitOutcome)
    requires
        before.jobs.count() <= before.max_jobs,
        submitted(before, job, SubmissionAdmission::EnforceLimit, after, r),
    ensures
        after.jobs.count() <= before.max_jobs,
        r is Overloaded <==> before.jobs.count() == before.max_jobs,
{
}

/// A job is turned away exactly where the limit counts for it and is reached, and then nothing
/// changes. Any other job is kept under its new identifier with all that it came with; only one
/// that is taken over counts as durable. No other job is touched.
pub proof fn law_submissions_keep_the_job(
    before: Bits,
    job: Job,
    admission: SubmissionAdmission,
    after: Bits,
    r: SubmitOutcome,
)
    requires
        submitted(before, job, admission, after, r),
    ensures
        r is Overloaded <==> admission == SubmissionAdmission::EnforceLimit && before.jobs.count()
            >= before.max_jobs,
        r is Overloaded ==> after.jobs@ == before.jobs@,
        r matches SubmitOutcome::Accepted(handle) ==> {
            let kept = after.jobs@[handle.id@];
            &&& after.jobs@.contains_key(handle.id@)
            &&& kept.id@ == handle.id@
            &&& kept.original_request == job.original_request && kept.request == job.request
            &&& kept.user == job.user && kept.metadata == job.metadata
            &&& kept.created_at == job.created_at && kept.cancelled == job.cancelled
            &&& kept.active_pollers == job.active_pollers && kept.result == job.result
            &&& kept.reconnect_deadline_nanos == job.reconnect_deadline_nanos
            &&& kept.persisted == (job.persisted || admission
                == SubmissionAdmission::BypassLimitAlreadyPersisted)
            &&& forall|other: Seq<char>|
                other != handle.id@ ==> (#[trigger] after.jobs@.contains_key(other)
                    <==> before.jobs@.contains_key(other)) && (after.jobs@.contains_key(other)
                    ==> after.jobs@[other] == before.jobs@[other])
        },
{
}

/// A job that comes with a request identifier keeps it. A new identifier is issued by this broker,
/// and carries the second of the submission.
pub proof fn law_accepted_ids_lead_here(
    site: Seq<char>,
    env: Seq<char>,
    slot: u16,
    wanted: Seq<char>,
    now: Timestamp,
    id: Seq<char>,
)
    requires
        identified(site, env, slot, wanted, now, id),
    ensures
        decoded_id(wanted) is Ok ==> id == wanted,
        decoded_id(wanted) is Err && valid_tag(site) && valid_tag(env) && 1_735_689_600 <= now.secs
            <= 1_735_689_600 + u32::MAX ==> decoded_id(id) is Ok && ({
            let fields = decoded_id(id)->Ok_0;
            &&& fields.version == 1
            &&& fields.site == site && fields.env == env && fields.broker_slot == slot
            &&& fields.timestamp == (Timestamp { secs: now.secs, nanos: 0 })
        }),
{
    let secs = now.secs - CUSTOM_EPOCH_SECS;
    if !names_job(wanted) && valid_tag(site) && valid_tag(env) && 0 <= secs <= u32::MAX {
        let random = choose|random: Seq<u8>|
            random.len() == 5 && id == crockford_text(
                #[trigger] packed_id(site, env, secs as nat, slot as nat, random),
            );
        law_decode_inverts_encode(site, env, secs as u32, slot, random);
    }
}

impl RouteHandle {
    /// The handle is that of the routes that are added next to a broker under a name.
    pub open spec fn leads_to(self, bits: Bits, name: Seq<char>) -> bool {
        &&& self.name@ == name
        &&& self.site@ == bits.site@
        &&& self.env@ == bits.env@
        &&& self.broker_slot == bits.broker_slot
        &&& self.place == bits.added_routes@.len()
    }

    /// Submits a job to the broker that the routes belong to.
    pub fn submit(&self, bits: &mut Bits, job: Job) -> (r: SubmitOutcome)
        requires
            old(bits).wf(),
        ensures
            final(bits).wf(),
            final(bits).same_broker(*old(bits)),
            submitted(*old(bits), job, SubmissionAdmission::EnforceLimit, *final(bits), r),
            r matches SubmitOutcome::Accepted(handle) ==> exists|now: Timestamp| #[trigger]
                identified(
                    old(bits).site@,
                    old(bits).env@,
                    old(bits).broker_slot,
                    job.id@,
                    now,
                    handle.id@,
                ),
    {
        bits.submit(job)
    }

    pub fn name(&self) -> (r: &str)
        ensures
            r@ == self.name@,
    {
        self.name.as_str()
    }

    /// Returns the validated site tag inherited from the broker runtime.
    pub fn site(&self) -> (r: &str)
        ensures
            r@ == self.site@,
    {
        self.site.as_str()
    }

    /// Returns the validated environment tag inherited from the broker runtime.
    pub fn env(&self) -> (r: &str)
        ensures
            r@ == self.env@,
    {
        self.env.as_str()
    }

    /// Returns the allocated broker slot inherited from the broker runtime.
    pub fn broker_slot(&self) -> (r: u16)
        ensures
            r == self.broker_slot,
    {
        self.broker_slot
    }

    /// Where the routes stand among those that were added.
    pub fn place(&self) -> (r: usize)
        ensures
            r == self.place,
    {
        self.place
    }
}

// ---------------------------------------------------------------------------------------------
// Polling here
// ---------------------------------------------------------------------------------------------

/// A result that was taken, and whether the durable record of its job is to be removed.
#[derive(Debug)]
pub struct Delivery {
    pub result: JobResult,
    pub cleanup: bool,
}

/// Taking the result of a job takes the job off the broker. A job without a result stays.
pub open spec fn result_taken(
    before: Map<Seq<char>, Job>,
    id: Seq<char>,
    after: Map<Seq<char>, Job>,
    r: Option<Delivery>,
) -> bool {
    if before.contains_key(id) && before[id].result is Some {
        &&& after == before.remove(id)
        &&& r == Some(
            Delivery { result: before[id].result->0, cleanup: before[id].persisted },
        )
    } else {
        after == before && r is None
    }
}

/// The clock reading by which a client must be back after a poll.
pub open spec fn reconnect_deadline(now_nanos: u64, buffer: Span) -> u64 {
    if now_nanos + buffer.total() > u64::MAX {
        u64::MAX
    } else {
        (now_nanos + buffer.total()) as u64
    }
}

impl Bits {
    /// Starts a poll for a job of this broker. Tells whether there is such a job.
    pub fn connect(&mut self, id: &str) -> (r: bool)
        requires
            old(self).wf(),
        ensures
            final(self).wf(),
            final(self).same_broker(*old(self)),
            final(self).jobs.count() == old(self).jobs.count(),
            r == old(self).jobs@.contains_key(id@),
            final(self).jobs@ == if r && old(self).jobs@[id@].active_pollers < usize::MAX {
                old(self).jobs@.insert(
                    id@,
                    Job {
                        active_pollers: (old(self).jobs@[id@].active_pollers + 1) as usize,
                        ..old(self).jobs@[id@]
                    },
                )
            } else {
                old(self).jobs@
            },
    {
        proof {
            if self.jobs@.contains_key(id@) {
                self.jobs.lemma_key(id@);
            }
        }
        match self.jobs.remove(id) {
            Some(job) => {
                let mut job = job;
                if job.active_pollers < usize::MAX {
                    job.active_pollers = job.active_pollers + 1;
                }
                let ghost kept = job;
                self.jobs.insert(job);
                assert(self.jobs@ =~= old(self).jobs@.insert(id@, kept));
                assert(self.jobs@ =~= if kept.active_pollers == old(self).jobs@[id@].active_pollers {
                    old(self).jobs@
                } else {
                    self.jobs@
                });
                true
            },
            None => {
                assert(self.jobs@ =~= old(self).jobs@);
                false
            },
        }
    }

    /// Ends a poll for a job of this broker, if the job is still there. The client then has some
    /// time to come back.
    pub fn disconnect(&mut self, id: &str, now_nanos: u64)
        requires
            old(self).wf(),
        ensures
            final(self).wf(),
            final(self).same_broker(*old(self)),
            final(self).jobs.count() == old(self).jobs.count(),
            final(self).jobs@ == if old(self).jobs@.contains_key(id@) {
                let job = old(self).jobs@[id@];
                old(self).jobs@.insert(
                    id@,
                    Job {
                        active_pollers: if job.active_pollers > 0 {
                            (job.active_pollers - 1) as usize
                        } else {
                            0
                        },
                        reconnect_deadline_nanos: reconnect_deadline(
                            now_nanos,
                            old(self).reconnect_buffer,
                        ),
                        ..job
                    },
                )
            } else {
                old(self).jobs@
            },
    {
        proof {
            if self.jobs@.contains_key(id@) {
                self.jobs.lemma_key(id@);
            }
        }
        let deadline: u128 = now_nanos as u128 + self.reconnect_buffer.as_nanos();
        match self.jobs.remove(id) {
            Some(job) => {
                let mut job = job;
                if job.active_pollers > 0 {
                    job.active_pollers = job.active_pollers - 1;
                }
                let deadline_nanos: u64 = if deadline > u64::MAX as u128 {
                    u64::MAX
                } else {
                    deadline as u64
                };
                job.set_reconnect_deadline(deadline_nanos);
                let ghost kept = job;
                self.jobs.insert(job);
                assert(self.jobs@ =~= old(self).jobs@.insert(id@, kept));
            },
            None => {
                assert(self.jobs@ =~= old(self).jobs@);
            },
        }
    }

    /// Records the final outcome of a job, if it is still there.
    pub fn complete(&mut self, id: &str, result: JobResult)
        requires
            old(self).wf(),
        ensures
            final(self).wf(),
            final(self).same_broker(*old(self)),
            final(self).jobs.count() == old(self).jobs.count(),
            final(self).jobs@ == if old(self).jobs@.contains_key(id@) {
                old(self).jobs@.insert(
                    id@,
                    Job { result: Some(result), ..old(self).jobs@[id@] },
                )
            } else {
                old(self).jobs@
            },
    {
        proof {
            if self.jobs@.contains_key(id@) {
                self.jobs.lemma_key(id@);
            }
        }
        match self.jobs.remove(id) {
            Some(job) => {
                let mut job = job;
                job.result = Some(result);
                let ghost kept = job;
                self.jobs.insert(job);
                assert(self.jobs@ =~= old(self).jobs@.insert(id@, kept));
            },
            None => {
                assert(self.jobs@ =~= old(self).jobs@);
            },
        }
    }

    /// Takes the job off the broker.
    pub fn remove_job(&mut self, id: &str)
        requires
            old(self).wf(),
        ensures
            final(self).wf(),
            final(self).same_broker(*old(self)),
            final(self).jobs@ == old(self).jobs@.remove(id@),
            final(self).jobs.count() == if old(self).jobs@.contains_key(id@) {
                old(self).jobs.count() - 1
            } else {
                old(self).jobs.count() as int
            },
    {
        self.jobs.remove(id);
    }

    /// Takes the result of a job, if there is one, and the job with it.
    pub fn take_result(&mut self, id: &str) -> (r: Option<Delivery>)
        requires
            old(self).wf(),
        ensures
            final(self).wf(),
            final(self).same_broker(*old(self)),
            result_taken(old(self).jobs@, id@, final(self).jobs@, r),
            final(self).jobs.count() == if r is Some {
                old(self).jobs.count() - 1
            } else {
                old(self).jobs.count() as int
            },
    {
        let finished = match self.jobs.get(id) {
            Some(job) => job.result.is_some(),
            None => false,
        };
        if !finished {
            return None;
        }
        match self.jobs.remove(id) {
            Some(job) => match job.result {
                Some(result) => Some(Delivery { result, cleanup: job.persisted }),
                None => None,
            },
            None => None,
        }
    }

    /// What a poll says after it waited for a job of this broker: the result, if the job was
    /// finished in time and nobody else took it, and to come back otherwise.
    pub fn after_wait(&mut self, id: &str, notified: bool) -> (r: (PollOutcome, bool))
        requires
            old(self).wf(),
        ensures
            final(self).wf(),
            final(self).same_broker(*old(self)),
            if notified && old(self).jobs@.contains_key(id@) && old(self).jobs@[id@].result is Some {
                &&& r.0 == PollOutcome::Ready(old(self).jobs@[id@].result->0)
                &&& r.1 == old(self).jobs@[id@].persisted
                &&& final(self).jobs@ == old(self).jobs@.remove(id@)
                &&& final(self).jobs.count() == old(self).jobs.count() - 1
            } else {
                &&& r.0 matches PollOutcome::Pending { id: again } && again@ == id@
                &&& !r.1
                &&& final(self).jobs@ == old(self).jobs@
                &&& final(self).jobs.count() == old(self).jobs.count()
            },
    {
        if notified {
            match self.take_result(id) {
                Some(delivery) => {
                    return (PollOutcome::Ready(delivery.result), delivery.cleanup);
                },
                None => {},
            }
        }
        (PollOutcome::Pending { id: id.to_owned() }, false)
    }
}

/// A job is of no more use: it is finished, and its client is not coming back for it.
pub open spec fn abandoned(job: Job, now_nanos: u64) -> bool {
    job.result is Some && !job.client_here(now_nanos)
}

/// A job that was swept away, and whether its durable record is to be removed.
#[derive(Debug)]
pub struct Swept {
    pub id: String,
    pub cleanup: bool,
}

/// Sweeping takes away the abandoned jobs and lists each of them.
pub open spec fn swept_away(
    before: Map<Seq<char>, Job>,
    now_nanos: u64,
    after: Map<Seq<char>, Job>,
    swept: Seq<Swept>,
) -> bool {
    &&& after == before.restrict(
        Set::new(|id: Seq<char>| before.contains_key(id) && !abandoned(before[id], now_nanos)),
    )
    &&& forall|i: int|
        0 <= i < swept.len() ==> {
            let one = #[trigger] swept[i];
            &&& before.contains_key(one.id@)
            &&& abandoned(before[one.id@], now_nanos)
            &&& one.cleanup == before[one.id@].persisted
        }
    &&& forall|id: Seq<char>|
        #![trigger before.contains_key(id)]
        before.contains_key(id) && abandoned(before[id], now_nanos) ==> exists|i: int|
            0 <= i < swept.len() && (#[trigger] swept[i]).id@ == id
}

impl Bits {
    /// Notes that a durable record of a job was written; false where the job is not here.
    pub fn mark_persisted(&mut self, id: &str) -> (r: bool)
        requires
            old(self).wf(),
        ensures
            final(self).wf(),
            final(self).same_broker(*old(self)),
            final(self).jobs.count() == old(self).jobs.count(),
            r == old(self).jobs@.contains_key(id@),
            final(self).jobs@ == if r {
                old(self).jobs@.insert(id@, Job { persisted: true, ..old(self).jobs@[id@] })
            } else {
                old(self).jobs@
            },
    {
        let ghost before = self.jobs@;
        proof {
            if self.jobs@.contains_key(id@) {
                self.jobs.lemma_key(id@);
            }
        }
        match self.jobs.remove(id) {
            Some(job) => {
                let mut job = job;
                job.persisted = true;
                let ghost kept = job;
                self.jobs.insert(job);
                assert(self.jobs@ =~= before.insert(id@, kept));
                true
            },
            None => {
                assert(self.jobs@ =~= before);
                false
            },
        }
    }

    /// The durable record that is due for a job: there is none once the job is finished or has
    /// one.
    pub fn record_due(&self, id: &str) -> (r: Option<PersistentJobRecord>)
        requires
            self.wf(),
        ensures
            match r {
                Some(record) => {
                    &&& self.jobs@.contains_key(id@)
                    &&& self.jobs@[id@].result is None
                    &&& !self.jobs@[id@].persisted
                    &&& record@ == record_of(self.jobs@[id@]@, self.broker_id@)
                },
                None => self.jobs@.contains_key(id@) ==> self.jobs@[id@].result is Some
                    || self.jobs@[id@].persisted,
            },
    {
        match self.jobs.get(id) {
            Some(job) => {
                if job.result.is_none() && !job.persisted {
                    Some(job.to_record(&self.broker_id))
                } else {
                    None
                }
            },
            None => None,
        }
    }

    /// Takes the abandoned jobs off the broker.
    pub fn sweep(&mut self, now_nanos: u64) -> (swept: Vec<Swept>)
        requires
            old(self).wf(),
        ensures
            final(self).wf(),
            final(self).same_broker(*old(self)),
            swept_away(old(self).jobs@, now_nanos, final(self).jobs@, swept@),
            final(self).jobs.count() == old(self).jobs.count() - swept@.len(),
    {
        let ids = self.jobs.ids();
        let ghost before = self.jobs@;
        let ghost all = texts(ids@);
        let mut swept: Vec<Swept> = Vec::new();
        let mut i: usize = 0;
        while i < ids.len()
            invariant
                i <= ids@.len(),
                self.wf(),
                self.same_broker(*old(self)),
                self.jobs.count() + swept@.len() == old(self).jobs.count(),
                all == texts(ids@),
                all.no_duplicates(),
                forall|id: Seq<char>| #[trigger] all.contains(id) <==> before.contains_key(id),
                forall|id: Seq<char>| #[trigger]
                    self.jobs@.contains_key(id) <==> before.contains_key(id) && (!abandoned(
                        before[id],
                        now_nanos,
                    ) || !all.take(i as int).contains(id)),
                forall|id: Seq<char>| #[trigger]
                    self.jobs@.contains_key(id) ==> self.jobs@[id] == before[id],
                forall|k: int|
                    0 <= k < swept@.len() ==> {
                        let one = #[trigger] swept@[k];
                        &&& before.contains_key(one.id@)
                        &&& abandoned(before[one.id@], now_nanos)
                        &&& one.cleanup == before[one.id@].persisted
                    },
                forall|id: Seq<char>|
                    #![trigger before.contains_key(id)]
                    before.contains_key(id) && !self.jobs@.contains_key(id) ==> exists|k: int|
                        0 <= k < swept@.len() && (#[trigger] swept@[k]).id@ == id,
            decreases ids@.len() - i,
        {
            let ghost here = self.jobs@;
            let ghost listed = swept@;
            let id = ids[i].as_str();
            proof {
                assert(all[i as int] == id@);
                assert(all.contains(id@));
                assert(!all.take(i as int).contains(id@)) by {
                    let fewer = all.take(i as int);
                    if fewer.contains(id@) {
                        let k = choose|k: int| 0 <= k < fewer.len() && fewer[k] == id@;
                        assert(all[k] == all[i as int]);
                    }
                }
                assert forall|x: Seq<char>| #[trigger]
                    all.take(i + 1).contains(x) <==> (x == id@ || all.take(i as int).contains(
                        x,
                    )) by {
                    let more = all.take(i + 1);
                    let fewer = all.take(i as int);
                    if more.contains(x) && x != id@ {
                        let k = choose|k: int| 0 <= k < more.len() && more[k] == x;
                        assert(fewer[k] == x);
                    }
                    if fewer.contains(x) {
                        let k = choose|k: int| 0 <= k < fewer.len() && fewer[k] == x;
                        assert(more[k] == x);
                    }
                    assert(more[i as int] == id@);
                }
            }
            let gone: Option<bool> = match self.jobs.get(id) {
                Some(job) => if job.result.is_some() && !job.client_present(now_nanos) {
                    Some(job.persisted)
                } else {
                    None
                },
                None => None,
            };
            match gone {
                Some(cleanup) => {
                    self.jobs.remove(id);
                    swept.push(Swept { id: ids[i].clone(), cleanup });
                    assert(swept@[listed.len() as int].id@ == id@);
                    assert forall|x: Seq<char>|
                        #![trigger before.contains_key(x)]
                        before.contains_key(x) && !self.jobs@.contains_key(x) implies exists|k: int|
                        0 <= k < swept@.len() && (#[trigger] swept@[k]).id@ == x by {
                        if x != id@ {
                            assert(!here.contains_key(x));
                            let k = choose|k: int|
                                0 <= k < listed.len() && (#[trigger] listed[k]).id@ == x;
                            assert(swept@[k].id@ == x);
                        }
                    }
                },
                None => {},
            }
            i = i + 1;
        }
        proof {
            assert(all.take(i as int) =~= all);
            assert(self.jobs@ =~= before.restrict(
                Set::new(
                    |id: Seq<char>| before.contains_key(id) && !abandoned(before[id], now_nanos),
                ),
            ));
        }
        swept
    }
}

/// Sweeping touches no job that is unfinished, and none whose client is there or may still come.
pub proof fn law_sweeping_spares_the_awaited(
    before: Map<Seq<char>, Job>,
    now_nanos: u64,
    after: Map<Seq<char>, Job>,
    swept: Seq<Swept>,
    id: Seq<char>,
)
    requires
        swept_away(before, now_nanos, after, swept),
        before.contains_key(id),
        before[id].result is None || before[id].client_here(now_nanos),
    ensures
        after.contains_key(id),
        after[id] == before[id],
{
}

/// A result is delivered once: whoever asks again finds neither the result nor the job.
pub proof fn law_results_are_delivered_once(
    before: Map<Seq<char>, Job>,
    id: Seq<char>,
    after: Map<Seq<char>, Job>,
    first: Option<Delivery>,
    last: Map<Seq<char>, Job>,
    second: Option<Delivery>,
)
    requires
        result_taken(before, id, after, first),
        first is Some,
        result_taken(after, id, last, second),
    ensures
        !after.contains_key(id),
        second is None,
        last == after,
{
}

/// A finished job is delivered as it was finished, takes its place on the broker with it, and has
/// its durable record removed if there is one. Nothing else is touched, and an unfinished job is
/// not delivered.
pub proof fn law_finished_jobs_are_delivered(
    before: Map<Seq<char>, Job>,
    id: Seq<char>,
    after: Map<Seq<char>, Job>,
    r: Option<Delivery>,
)
    requires
        result_taken(before, id, after, r),
    ensures
        r is Some <==> before.contains_key(id) && before[id].result is Some,
        r matches Some(delivery) ==> before[id].result == Some(delivery.result) && delivery.cleanup
            == before[id].persisted && !after.contains_key(id),
        r is None ==> after == before,
        forall|other: Seq<char>|
            other != id ==> (#[trigger] after.contains_key(other) <==> before.contains_key(other))
                && (after.contains_key(other) ==> after[other] == before[other]),
{
}

/// A job is swept away exactly where it is finished, nobody polls for it, and the time to come back
/// is over. It is listed, and its durable record is removed if there is one.
pub proof fn law_sweeping_takes_exactly_the_abandoned(
    before: Map<Seq<char>, Job>,
    now_nanos: u64,
    after: Map<Seq<char>, Job>,
    swept: Seq<Swept>,
    id: Seq<char>,
)
    requires
        swept_away(before, now_nanos, after, swept),
        before.contains_key(id),
    ensures
        ({
            let gone = before[id].result is Some && before[id].active_pollers == 0 && now_nanos
                >= before[id].reconnect_deadline_nanos;
            &&& after.contains_key(id) <==> !gone
            &&& after.contains_key(id) ==> after[id] == before[id]
            &&& gone <==> exists|i: int| 0 <= i < swept.len() && (#[trigger] swept[i]).id@ == id
            &&& forall|i: int|
                0 <= i < swept.len() && (#[trigger] swept[i]).id@ == id ==> swept[i].cleanup
                    == before[id].persisted
        }),
{
}

/// After a poll, a client has the whole of the reconnect time to come back, unless the clock ends
/// before.
pub proof fn law_clients_have_the_whole_reconnect_time(now_nanos: u64, buffer: Span)
    ensures
        now_nanos + buffer.secs * 1_000_000_000 + buffer.nanos <= u64::MAX ==> reconnect_deadline(
            now_nanos,
            buffer,
        ) == now_nanos + buffer.secs * 1_000_000_000 + buffer.nanos,
        now_nanos + buffer.secs * 1_000_000_000 + buffer.nanos > u64::MAX ==> reconnect_deadline(
            now_nanos,
            buffer,
        ) == u64::MAX,
{
}

// ---------------------------------------------------------------------------------------------
// Polling elsewhere
// ---------------------------------------------------------------------------------------------

/// What is known of the lease of a broker.
#[derive(Debug)]
pub enum LeaseLookup {
    Active(BrokerLeaseRecord),
    MissingOrExpired,
    /// The registry of leases cannot be reached.
    Unknown,
}

/// Judges what the registry of leases said, if there is a registry.
pub fn lease_lookup(
    read: Option<Result<Option<BrokerLeaseRecord>, DbError>>,
    now: Timestamp,
) -> (r: LeaseLookup)
    ensures
        lease_judged(read, now, r),
{
    match read {
        None => LeaseLookup::MissingOrExpired,
        Some(Err(_)) => LeaseLookup::Unknown,
        Some(Ok(None)) => LeaseLookup::MissingOrExpired,
        Some(Ok(Some(lease))) => if lease.lease_until.is_after(&now) {
            LeaseLookup::Active(lease)
        } else {
            LeaseLookup::MissingOrExpired
        },
    }
}

/// What a poll for a job that is not here does next.
#[derive(Debug)]
pub enum PollStep {
    Done(PollOutcome),
    /// Look up the lease of the broker that issued the job.
    LookupOwner { broker_id: String },
    /// Look up the lease of the broker that took the job over.
    LookupHeir { broker_id: String },
    /// Ask the broker with this lease.
    Proxy(BrokerLeaseRecord),
    /// Claim the durable record of the job from this broker.
    Claim { expected: String },
    /// Take up the work on this record, and poll for it here.
    Recover(PersistentJobRecord),
}

/// A poll ends, and the client is to come back.
pub open spec fn come_back(step: PollStep, id: Seq<char>) -> bool {
    step matches PollStep::Done(PollOutcome::Pending { id: again }) && again@ == id
}

/// A poll claims the durable record of a job, where there are durable records.
pub open spec fn claims(step: PollStep, durable: bool, owner: Seq<char>) -> bool {
    if durable {
        step matches PollStep::Claim { expected } && expected@ == owner
    } else {
        step matches PollStep::Done(PollOutcome::NotFound)
    }
}

/// The first step of a poll for a job that is not here.
pub open spec fn poll_begun(broker_id: Seq<char>, durable: bool, id: Seq<char>, step: PollStep) -> bool {
    match owner_of(id) {
        None => step matches PollStep::Done(PollOutcome::NotFound),
        Some(owner) => if owner != broker_id {
            step matches PollStep::LookupOwner { broker_id: asked } && asked@ == owner
        } else {
            claims(step, durable, owner)
        },
    }
}

/// The step after the lease of the owner was looked up.
pub open spec fn owner_looked_up(
    durable: bool,
    id: Seq<char>,
    lookup: LeaseLookup,
    step: PollStep,
) -> bool {
    match lookup {
        LeaseLookup::Active(lease) => step == PollStep::Proxy(lease),
        LeaseLookup::Unknown => come_back(step, id),
        LeaseLookup::MissingOrExpired => owner_of(id) matches Some(owner) && claims(
            step,
            durable,
            owner,
        ),
    }
}

/// The step after the lease of the heir was looked up.
pub open spec fn heir_looked_up(id: Seq<char>, lookup: LeaseLookup, step: PollStep) -> bool {
    match lookup {
        LeaseLookup::Active(lease) => step == PollStep::Proxy(lease),
        _ => come_back(step, id),
    }
}

/// The step after a claim. A job without a record is unknown to the broker that issued it, and
/// lost to any other.
pub open spec fn claim_answered(
    broker_id: Seq<char>,
    id: Seq<char>,
    claim: Result<ClaimResult, DbError>,
    step: PollStep,
) -> bool {
    match claim {
        Ok(ClaimResult::Claimed(record)) => step == PollStep::Recover(record),
        Ok(ClaimResult::Active { owner_broker_id }) => step matches PollStep::LookupHeir {
            broker_id: asked,
        } && asked == owner_broker_id,
        Ok(ClaimResult::NotFound) => if owner_of(id) == Some(broker_id) {
            step matches PollStep::Done(PollOutcome::NotFound)
        } else {
            step matches PollStep::Done(PollOutcome::JobLost)
        },
        Err(_) => come_back(step, id),
    }
}

impl Bits {
    fn claim_step(&self, owner: String) -> (step: PollStep)
        ensures
            claims(step, self.durable, owner@),
    {
        if self.durable {
            PollStep::Claim { expected: owner }
        } else {
            PollStep::Done(PollOutcome::NotFound)
        }
    }

    /// Begins a poll for a job that is not here.
    pub fn poll_elsewhere(&self, id: &str) -> (step: PollStep)
        ensures
            poll_begun(self.broker_id@, self.durable, id@, step),
    {
        match slot_from_job_id(id) {
            None => PollStep::Done(PollOutcome::NotFound),
            Some(owner) => if text_eq(&owner, &self.broker_id) {
                self.claim_step(owner)
            } else {
                PollStep::LookupOwner { broker_id: owner }
            },
        }
    }

    /// Goes on after the lease of the broker that issued the job was looked up.
    pub fn poll_after_owner(&self, id: &str, lookup: LeaseLookup) -> (step: PollStep)
        requires
            names_job(id@),
        ensures
            owner_looked_up(self.durable, id@, lookup, step),
    {
        match lookup {
            LeaseLookup::Active(lease) => PollStep::Proxy(lease),
            LeaseLookup::Unknown => PollStep::Done(PollOutcome::Pending { id: id.to_owned() }),
            LeaseLookup::MissingOrExpired => match slot_from_job_id(id) {
                Some(owner) => self.claim_step(owner),
                None => PollStep::Done(PollOutcome::NotFound),
            },
        }
    }

    /// Goes on after the lease of the broker that took the job over was looked up.
    pub fn poll_after_heir(&self, id: &str, lookup: LeaseLookup) -> (step: PollStep)
        ensures
            heir_looked_up(id@, lookup, step),
    {
        match lookup {
            LeaseLookup::Active(lease) => PollStep::Proxy(lease),
            _ => PollStep::Done(PollOutcome::Pending { id: id.to_owned() }),
        }
    }

    /// Goes on after the durable record was claimed.
    pub fn poll_after_claim(&self, id: &str, claim: Result<ClaimResult, DbError>) -> (step:
        PollStep)
        ensures
            claim_answered(self.broker_id@, id@, claim, step),
    {
        match claim {
            Ok(ClaimResult::Claimed(record)) => PollStep::Recover(record),
            Ok(ClaimResult::Active { owner_broker_id }) => PollStep::LookupHeir {
                broker_id: owner_broker_id,
            },
            Ok(ClaimResult::NotFound) => {
                let ours = match slot_from_job_id(id) {
                    Some(owner) => text_eq(&owner, &self.broker_id),
                    None => false,
                };
                if ours {
                    PollStep::Done(PollOutcome::NotFound)
                } else {
                    PollStep::Done(PollOutcome::JobLost)
                }
            },
            Err(_) => PollStep::Done(PollOutcome::Pending { id: id.to_owned() }),
        }
    }
}

/// Ends a poll that another broker, or a poll here after recovery, may have answered.
pub fn poll_answered(id: &str, answer: Option<PollOutcome>) -> (r: PollOutcome)
    ensures
        match answer {
            Some(outcome) => r == outcome,
            None => r matches PollOutcome::Pending { id: again } && again@ == id@,
        },
{
    match answer {
        Some(outcome) => outcome,
        None => PollOutcome::Pending { id: id.to_owned() },
    }
}

/// A job is given up as lost only by a broker that did not issue it, after a claim found no
/// durable record.
pub proof fn law_only_orphans_are_lost(
    broker_id: Seq<char>,
    durable: bool,
    id: Seq<char>,
    lookup: LeaseLookup,
    claim: Result<ClaimResult, DbError>,
    begun: PollStep,
    owner_step: PollStep,
    heir_step: PollStep,
    claim_step: PollStep,
)
    requires
        poll_begun(broker_id, durable, id, begun),
        owner_looked_up(durable, id, lookup, owner_step),
        heir_looked_up(id, lookup, heir_step),
        claim_answered(broker_id, id, claim, claim_step),
    ensures
        !(begun matches PollStep::Done(PollOutcome::JobLost)),
        !(owner_step matches PollStep::Done(PollOutcome::JobLost)),
        !(heir_step matches PollStep::Done(PollOutcome::JobLost)),
        claim_step matches PollStep::Done(PollOutcome::JobLost) ==> owner_of(id) != Some(broker_id)
            && (claim matches Ok(ClaimResult::NotFound)),
{
}

/// A text that is no request identifier is found nowhere.
pub proof fn law_foreign_ids_are_not_found(
    broker_id: Seq<char>,
    durable: bool,
    id: Seq<char>,
    step: PollStep,
)
    requires
        !names_job(id),
        poll_begun(broker_id, durable, id, step),
    ensures
        step matches PollStep::Done(PollOutcome::NotFound),
{
}

/// Work is taken up again only on a record that was claimed, so by its only owner.
pub proof fn law_recovery_needs_a_claim(
    broker_id: Seq<char>,
    id: Seq<char>,
    claim: Result<ClaimResult, DbError>,
    step: PollStep,
)
    requires
        claim_answered(broker_id, id, claim, step),
        step is Recover,
    ensures
        claim matches Ok(ClaimResult::Claimed(record)) && step == PollStep::Recover(record),
{
}

/// Whenever the broker that holds a job, be it the one that issued it or the one that took it over,
/// is found alive, the poll asks exactly that broker under that lease.
pub proof fn law_live_holders_are_asked(
    durable: bool,
    id: Seq<char>,
    lease: BrokerLeaseRecord,
    owner_step: PollStep,
    heir_step: PollStep,
)
    requires
        owner_looked_up(durable, id, LeaseLookup::Active(lease), owner_step),
        heir_looked_up(id, LeaseLookup::Active(lease), heir_step),
    ensures
        owner_step == PollStep::Proxy(lease),
        heir_step == PollStep::Proxy(lease),
{
}

/// A broker is asked only under a live lease. A client is told to come back for a job only where
/// nothing is known of the lease of its holder, where its heir has none, or where a claim failed,
/// and then for this very job.
pub proof fn law_clients_wait_only_without_a_live_holder(
    broker_id: Seq<char>,
    durable: bool,
    id: Seq<char>,
    lookup: LeaseLookup,
    claim: Result<ClaimResult, DbError>,
    begun: PollStep,
    owner_step: PollStep,
    heir_step: PollStep,
    claim_step: PollStep,
)
    requires
        poll_begun(broker_id, durable, id, begun),
        owner_looked_up(durable, id, lookup, owner_step),
        heir_looked_up(id, lookup, heir_step),
        claim_answered(broker_id, id, claim, claim_step),
    ensures
        !(begun is Proxy),
        !(claim_step is Proxy),
        owner_step is Proxy <==> lookup is Active,
        heir_step is Proxy <==> lookup is Active,
        !(begun matches PollStep::Done(PollOutcome::Pending { .. })),
        (owner_step matches PollStep::Done(PollOutcome::Pending { .. })) <==> lookup is Unknown,
        (heir_step matches PollStep::Done(PollOutcome::Pending { .. })) <==> !(lookup is Active),
        (claim_step matches PollStep::Done(PollOutcome::Pending { .. })) <==> claim is Err,
        owner_step matches PollStep::Done(PollOutcome::Pending { id: again }) ==> again@ == id,
        heir_step matches PollStep::Done(PollOutcome::Pending { id: again }) ==> again@ == id,
        claim_step matches PollStep::Done(PollOutcome::Pending { id: again }) ==> again@ == id,
{
}

/// A poll for a job of another broker looks up the lease of the one that issued it. A poll for a
/// job of this broker, or of one whose lease is gone, claims the durable record from the issuer,
/// and finds nothing where no records are kept.
pub proof fn law_polls_go_to_the_issuer(
    broker_id: Seq<char>,
    durable: bool,
    id: Seq<char>,
    begun: PollStep,
    owner_step: PollStep,
)
    requires
        decoded_id(id) is Ok,
        poll_begun(broker_id, durable, id, begun),
        owner_looked_up(durable, id, LeaseLookup::MissingOrExpired, owner_step),
    ensures
        ({
            let named = decoded_id(id)->Ok_0;
            let issuer = named.site + "-"@ + named.env + "-"@ + decimal_text(
                named.broker_slot as nat,
            );
            &&& issuer != broker_id ==> (begun matches PollStep::LookupOwner { broker_id: asked }
                && asked@ == issuer)
            &&& issuer == broker_id && durable ==> (begun matches PollStep::Claim { expected }
                && expected@ == issuer)
            &&& issuer == broker_id && !durable ==> (begun matches PollStep::Done(
                PollOutcome::NotFound,
            ))
            &&& durable ==> (owner_step matches PollStep::Claim { expected } && expected@ == issuer)
            &&& !durable ==> (owner_step matches PollStep::Done(PollOutcome::NotFound))
        }),
{
}

/// A claim that was answered decides the poll: a record that was won is worked on here, one that
/// another broker holds leads to that broker, and one that does not exist was delivered if this
/// broker issued the job and is lost otherwise.
pub proof fn law_claims_decide_the_poll(
    broker_id: Seq<char>,
    id: Seq<char>,
    before: Option<JobFacts>,
    after: Option<JobFacts>,
    expected: Seq<char>,
    outcome: ClaimResult,
    step: PollStep,
)
    requires
        decoded_id(id) is Ok,
        claim_settled(before, expected, broker_id, after, outcome),
        claim_answered(broker_id, id, Ok(outcome), step),
    ensures
        ({
            let named = decoded_id(id)->Ok_0;
            let issuer = named.site + "-"@ + named.env + "-"@ + decimal_text(
                named.broker_slot as nat,
            );
            match before {
                None => if issuer == broker_id {
                    step matches PollStep::Done(PollOutcome::NotFound)
                } else {
                    step matches PollStep::Done(PollOutcome::JobLost)
                },
                Some(job) => if job.broker_id == broker_id || job.broker_id == expected {
                    &&& step matches PollStep::Recover(record)
                    &&& record@ == (JobFacts { broker_id, ..job })
                    &&& after == Some(JobFacts { broker_id, ..job })
                } else {
                    &&& step matches PollStep::LookupHeir { broker_id: asked }
                    &&& asked@ == job.broker_id
                    &&& after == before
                },
            }
        }),
{
}

/// A lease counts as live exactly as long as its end lies ahead. Without a registry, and without an
/// entry in it, there is no lease; a registry that fails leaves it open.
pub open spec fn lease_judged(
    read: Option<Result<Option<BrokerLeaseRecord>, DbError>>,
    now: Timestamp,
    r: LeaseLookup,
) -> bool {
    match read {
        None => r is MissingOrExpired,
        Some(Err(_)) => r is Unknown,
        Some(Ok(None)) => r is MissingOrExpired,
        Some(Ok(Some(lease))) => if lease.lease_until.after(now) {
            r == LeaseLookup::Active(lease)
        } else {
            r is MissingOrExpired
        },
    }
}

/// A broker is taken for alive exactly while the end of its lease lies ahead, to the nanosecond. It
/// is not known whether it is alive exactly where the registry could not be read.
pub proof fn law_leases_live_until_their_end(
    read: Option<Result<Option<BrokerLeaseRecord>, DbError>>,
    now: Timestamp,
    r: LeaseLookup,
)
    requires
        lease_judged(read, now, r),
    ensures
        r is Unknown <==> (read matches Some(Err(_))),
        r matches LeaseLookup::Active(lease) ==> read == Some(
            Ok::<Option<BrokerLeaseRecord>, DbError>(Some(lease)),
        ),
        read matches Some(Ok(Some(lease))) ==> (r is Active <==> (now.secs < lease.lease_until.secs
            || (now.secs == lease.lease_until.secs && now.nanos < lease.lease_until.nanos))),
        !(read matches Some(Ok(Some(_)))) ==> !(r is Active),
{
}

// ---------------------------------------------------------------------------------------------
// Final outcomes
// ---------------------------------------------------------------------------------------------

/// The final outcome of a job that went through the routes: what its target produced, an error of
/// the job where every route rejected it, and otherwise the failure in words.
pub fn final_result(outcome: Result<TargetResult, ActionError>) -> (r: JobResult)
    ensures
        match outcome {
            Ok(TargetResult::Complete(result)) => r == result,
            Ok(TargetResult::Reject { reason, .. }) => r == (JobResult::Error { message: reason }),
            Err(ActionError::Cancelled) => r is Cancelled,
            Err(ActionError::ClientGone) => r is ClientGone,
            Err(ActionError::QueueFull(_)) => r matches JobResult::Overloaded { reason } && reason@
                == action_error_text(outcome->Err_0),
            Err(ActionError::UserLimitExceeded(_)) => r matches JobResult::RateLimited { reason }
                && reason@ == action_error_text(outcome->Err_0),
            Err(e) => r matches JobResult::Failed { reason } && reason@ == action_error_text(e),
        },
{
    match outcome {
        Ok(TargetResult::Complete(result)) => result,
        Ok(TargetResult::Reject { reason, .. }) => JobResult::Error { message: reason },
        Err(e) => {
            let reason = e.to_text();
            match e {
                ActionError::Cancelled => JobResult::Cancelled,
                ActionError::ClientGone => JobResult::ClientGone,
                ActionError::QueueFull(_) => JobResult::Overloaded { reason },
                ActionError::UserLimitExceeded(_) => JobResult::RateLimited { reason },
                _ => JobResult::Failed { reason },
            }
        },
    }
}

/// A new broker holds no job, bears the name of its site, environment and slot, keeps what its
/// configuration says, and sweeps every three minutes unless told otherwise.
pub proof fn law_new_brokers_follow_their_configuration(bits: Bits, config: RuntimeConfig)
    requires
        bits.made_of(config),
    ensures
        bits.wf(),
        forall|id: Seq<char>| !(#[trigger] bits.jobs@.dom().contains(id)),
        bits.broker_id@ == config.site@ + "-"@ + config.env@ + "-"@ + decimal_text(
            config.broker_slot as nat,
        ),
        bits.max_jobs == config.max_jobs,
        bits.reconnect_buffer == config.reconnect_buffer,
        bits.persist_after == config.persist_after,
        bits.durable <==> config.job_store is Some,
        config.sweep_interval matches Some(interval) ==> bits.sweep_interval == interval,
        config.sweep_interval is None ==> bits.sweep_interval == (Span { secs: 180, nanos: 0 }),
{
}

/// The names and descriptions of added routes follow in the order in which they were added.
pub proof fn law_added_routes_are_listed_in_order(added: Seq<AddedRoute>, next: AddedRoute, i: int)
    ensures
        added_names(added.push(next)).len() == added_names(added).len() + next.router@.len(),
        added_names(added).is_prefix_of(added_names(added.push(next))),
        0 <= i < next.router@.len() ==> added_names(added.push(next))[added_names(added).len() + i]
            == next.router@[i].name,
        added_descriptions(added.push(next)) == added_descriptions(added) + descriptions_from(
            next.router@,
            0,
            0,
        ),
{
    assert(added.push(next).drop_last() =~= added);
}

/// A slot is read from decimal digits, with or without a plus sign, up to the largest slot.
pub proof fn law_slots_are_decimal(n: nat)
    ensures
        slot_value(decimal_text(n)) == (if n <= 65535 {
            Some(n as u16)
        } else {
            None
        }),
        slot_value(seq!['+'] + decimal_text(n)) == slot_value(decimal_text(n)),
        slot_value(Seq::empty()) is None,
{
    crate::text::law_decimals_read_back(n);
    assert((seq!['+'] + decimal_text(n)).skip(1) =~= decimal_text(n));
    assert('0' <= decimal_text(n)[0] <= '9');
}

/// The handle of added routes finds them again in the broker: it has their place and their name,
/// and issues identifiers as the broker does.
pub proof fn law_handles_find_their_routes(
    before: Bits,
    after: Bits,
    handle: RouteHandle,
    added: AddedRoute,
    name: Seq<char>,
)
    requires
        handle.leads_to(before, name),
        after.added_routes@ == before.added_routes@.push(added),
        added.name@ == name,
        after.site == before.site,
        after.env == before.env,
        after.broker_slot == before.broker_slot,
    ensures
        0 <= handle.place < after.added_routes@.len(),
        after.added_routes@[handle.place as int] == added,
        handle.name@ == added.name@,
        handle.site@ == after.site@,
        handle.env@ == after.env@,
        handle.broker_slot == after.broker_slot,
{
}

} // verus!
