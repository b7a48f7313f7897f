//! Decisions of the store that keeps its records in NATS key-value buckets.
//!
//! A bucket gives each key a revision, and a write can be bound to the revision that was read.
//! Whoever talks to the server asks here what to read or write next and reports what came back.

use vstd::prelude::*;
use vstd::seq_lib::lemma_seq_contains_after_push;
use vstd::utf8::{encode_utf8, encode_utf8_decode_utf8};

use crate::db::keys::{job_key, keyed};
use crate::db::{
    claim_settled, lease_from, limit_facts, new_lease, owned_by, slots_exhausted,
    BrokerLeaseRecord, ClaimResult, DbError, JobFacts, LimitFacts, PersistentJobRecord,
    UserLimitEntry,
};
use crate::text::{cat2, cat3, cat4, cat5, text_eq, texts};
use crate::time::{
    double_span, doubled, fits_millis, format_tenths, millis_fit, tenths_text, Span, Timestamp,
    NANOS_PER_SEC,
};

verus! {

/// How long the marker of a released admission slot is kept, in seconds.
pub const USER_LIMIT_TOMBSTONE_TTL_SECS: u64 = 600;

/// How long a trace of an expired marker is kept, in seconds.
pub const USER_LIMIT_DELETE_MARKER_TTL_SECS: u64 = 600;

/// How often a claim is tried before the outcome is read back.
pub const MAX_CAS_ATTEMPTS: u8 = 3;

/// Where the server is and how its buckets are set up.
pub struct NatsStore {
    pub url: String,
    pub jobs_bucket: String,
    pub leases_bucket: String,
    pub user_limits_bucket: String,
    pub lease_ttl: Span,
    pub num_replicas: usize,
    pub connect_timeout: Span,
    /// Buffer of a subscription, if it is not the client's default.
    pub subscription_capacity: Option<usize>,
    /// In place of [`USER_LIMIT_TOMBSTONE_TTL_SECS`].
    pub tombstone_ttl: Option<Span>,
    /// In place of [`USER_LIMIT_DELETE_MARKER_TTL_SECS`].
    pub delete_marker_ttl: Option<Span>,
}

/// How a bucket is to be set up.
pub struct BucketPlan {
    pub bucket: String,
    pub history: u64,
    pub num_replicas: usize,
    /// Kept in the server's memory instead of on its disk.
    pub in_memory: bool,
    /// How long an entry is kept, if not forever.
    pub max_age: Option<Span>,
    /// How long a trace of an expired entry is kept. Entries can expire one by one only where
    /// this is set.
    pub limit_markers: Option<Span>,
}

impl NatsStore {
    pub fn new(
        url: String,
        jobs_bucket: String,
        leases_bucket: String,
        lease_ttl: Span,
        num_replicas: usize,
        connect_timeout: Span,
    ) -> (store: NatsStore)
        ensures
            store.url == url,
            store.jobs_bucket == jobs_bucket,
            store.leases_bucket == leases_bucket,
            store.user_limits_bucket@ == leases_bucket@ + "-userlimits"@,
            store.lease_ttl == lease_ttl,
            store.num_replicas == num_replicas,
            store.connect_timeout == connect_timeout,
            store.subscription_capacity is None,
            store.tombstone_ttl is None,
            store.delete_marker_ttl is None,
    {
        let user_limits_bucket = cat2(&leases_bucket, "-userlimits");
        NatsStore {
            url,
            jobs_bucket,
            leases_bucket,
            user_limits_bucket,
            lease_ttl,
            num_replicas,
            connect_timeout,
            subscription_capacity: None,
            tombstone_ttl: None,
            delete_marker_ttl: None,
        }
    }

    /// Sets the buffer of a subscription.
    pub fn with_subscription_capacity(self, capacity: usize) -> (store: NatsStore)
        ensures
            store == (NatsStore { subscription_capacity: Some(capacity), ..self }),
    {
        let mut store = self;
        store.subscription_capacity = Some(capacity);
        store
    }

    /// Sets how long the marker of a released admission slot is kept.
    pub fn with_user_limit_tombstone_ttl(self, ttl: Span) -> (store: NatsStore)
        ensures
            store == (NatsStore { tombstone_ttl: Some(ttl), ..self }),
    {
        let mut store = self;
        store.tombstone_ttl = Some(ttl);
        store
    }

    /// Sets how long a trace of an expired marker is kept.
    pub fn with_user_limit_delete_marker_ttl(self, ttl: Span) -> (store: NatsStore)
        ensures
            store == (NatsStore { delete_marker_ttl: Some(ttl), ..self }),
    {
        let mut store = self;
        store.delete_marker_ttl = Some(ttl);
        store
    }

    /// How long the marker of a released admission slot is kept.
    pub fn user_limit_tombstone_ttl(&self) -> (ttl: Span)
        ensures
            ttl == match self.tombstone_ttl {
                Some(ttl) => ttl,
                None => Span { secs: USER_LIMIT_TOMBSTONE_TTL_SECS, nanos: 0 },
            },
    {
        match self.tombstone_ttl {
            Some(ttl) => ttl,
            None => Span { secs: USER_LIMIT_TOMBSTONE_TTL_SECS, nanos: 0 },
        }
    }

    /// How long a trace of an expired marker is kept.
    pub fn user_limit_delete_marker_ttl(&self) -> (ttl: Span)
        ensures
            ttl == match self.delete_marker_ttl {
                Some(ttl) => ttl,
                None => Span { secs: USER_LIMIT_DELETE_MARKER_TTL_SECS, nanos: 0 },
            },
    {
        match self.delete_marker_ttl {
            Some(ttl) => ttl,
            None => Span { secs: USER_LIMIT_DELETE_MARKER_TTL_SECS, nanos: 0 },
        }
    }

    /// The bucket of the job records: on disk, forever.
    pub fn jobs_plan(&self) -> (plan: BucketPlan)
        ensures
            plan.bucket@ == self.jobs_bucket@,
            plan.history == 1,
            plan.num_replicas == self.num_replicas,
            !plan.in_memory,
            plan.max_age is None,
            plan.limit_markers is None,
    {
        BucketPlan {
            bucket: self.jobs_bucket.clone(),
            history: 1,
            num_replicas: self.num_replicas,
            in_memory: false,
            max_age: None,
            limit_markers: None,
        }
    }

    /// The bucket of the leases: in memory, for twice the length of a lease.
    pub fn leases_plan(&self) -> (plan: BucketPlan)
        ensures
            plan.bucket@ == self.leases_bucket@,
            plan.history == 1,
            plan.num_replicas == self.num_replicas,
            plan.in_memory,
            plan.max_age == Some(doubled(self.lease_ttl)),
            plan.limit_markers is None,
    {
        BucketPlan {
            bucket: self.leases_bucket.clone(),
            history: 1,
            num_replicas: self.num_replicas,
            in_memory: true,
            max_age: Some(double_span(self.lease_ttl)),
            limit_markers: None,
        }
    }

    /// The bucket of the admission slots: in memory, forever, with entries that can expire.
    pub fn user_limits_plan(&self) -> (plan: BucketPlan)
        ensures
            plan.bucket@ == self.user_limits_bucket@,
            plan.history == 1,
            plan.num_replicas == self.num_replicas,
            plan.in_memory,
            plan.max_age is None,
            plan.limit_markers == Some(
                match self.delete_marker_ttl {
                    Some(ttl) => ttl,
                    None => Span { secs: USER_LIMIT_DELETE_MARKER_TTL_SECS, nanos: 0 },
                },
            ),
    {
        BucketPlan {
            bucket: self.user_limits_bucket.clone(),
            history: 1,
            num_replicas: self.num_replicas,
            in_memory: true,
            max_age: None,
            limit_markers: Some(self.user_limit_delete_marker_ttl()),
        }
    }

    /// The error of a connection that was not made in time.
    pub fn timed_out(&self) -> (e: DbError)
        requires
            self.connect_timeout.nanos < NANOS_PER_SEC,
        ensures
            e matches DbError::Backend(m) && m@ == "NATS init timed out after "@ + tenths_text(
                self.connect_timeout.secs,
                self.connect_timeout.nanos,
            ) + "s"@,
    {
        DbError::Backend(
            cat3(
                "NATS init timed out after ",
                &format_tenths(self.connect_timeout.secs, self.connect_timeout.nanos),
                "s",
            ),
        )
    }
}

// ---------------------------------------------------------------------------------------------
// Opening a bucket
// ---------------------------------------------------------------------------------------------

/// How far the opening of a bucket has come. A bucket that cannot be created exists already, so
/// its setup is updated; where that is refused too, the bucket is used as it is.
pub enum BucketOpening {
    Create,
    Update { create_error: String },
    Get { create_error: String, update_error: String },
}

/// What comes after a reply.
pub enum BucketStep {
    /// The bucket is open.
    Open,
    /// Go on with the next way.
    Try(BucketOpening),
    /// No way is left.
    Failed(String),
}

impl BucketOpening {
    /// What follows the server's reply, an error in words if it refused.
    pub fn after(self, bucket: &str, refused: Option<String>) -> (step: BucketStep)
        ensures
            match refused {
                None => step is Open,
                Some(error) => match self {
                    BucketOpening::Create => step matches BucketStep::Try(
                        BucketOpening::Update { create_error },
                    ) && create_error == error,
                    BucketOpening::Update { create_error: first } => step matches BucketStep::Try(
                        BucketOpening::Get { create_error, update_error },
                    ) && create_error == first && update_error == error,
                    BucketOpening::Get { create_error, update_error } => step matches
                        BucketStep::Failed(m) && m@ == "bucket '"@ + bucket@
                        + "': create failed ("@ + create_error@ + "), update failed ("@
                        + update_error@ + "), get also failed: "@ + error@,
                },
            },
    {
        match refused {
            None => BucketStep::Open,
            Some(error) => match self {
                BucketOpening::Create => BucketStep::Try(
                    BucketOpening::Update { create_error: error },
                ),
                BucketOpening::Update { create_error } => BucketStep::Try(
                    BucketOpening::Get { create_error, update_error: error },
                ),
                BucketOpening::Get { create_error, update_error } => {
                    let head = cat4("bucket '", bucket, "': create failed (", &create_error);
                    BucketStep::Failed(
                        cat5(
                            &head,
                            "), update failed (",
                            &update_error,
                            "), get also failed: ",
                            &error,
                        ),
                    )
                },
            },
        }
    }
}

// ---------------------------------------------------------------------------------------------
// Keys
// ---------------------------------------------------------------------------------------------

/// The lower-case hexadecimal digit of a value below sixteen.
pub open spec fn hex_digit(value: nat) -> char {
    if value < 10 {
        ('0' as nat + value) as char
    } else {
        ('a' as nat + value - 10) as char
    }
}

/// Bytes, each as two hexadecimal digits.
pub open spec fn hex_text(bytes: Seq<u8>) -> Seq<char> {
    Seq::new(
        2 * bytes.len(),
        |i: int|
            if i % 2 == 0 {
                hex_digit(bytes[i / 2] as nat / 16)
            } else {
                hex_digit(bytes[i / 2] as nat % 16)
            },
    )
}

/// The token of a text: its bytes in hexadecimal.
pub open spec fn token(text: Seq<char>) -> Seq<char> {
    hex_text(encode_utf8(text))
}

fn hex_char(value: u8) -> (ch: char)
    requires
        value < 16,
    ensures
        ch == hex_digit(value as nat),
{
    if value < 10 {
        (48 + value) as char
    } else {
        (97 + (value - 10)) as char
    }
}

/// Encodes a part of a key, which may hold any character, as a token without dots.
pub fn hex_token(text: &str) -> (r: String)
    ensures
        r@ == token(text@),
{
    let bytes = text.as_bytes();
    let mut out = String::new();
    let mut i: usize = 0;
    while i < bytes.len()
        invariant
            i <= bytes@.len(),
            out@ == hex_text(bytes@.take(i as int)),
        decreases bytes@.len() - i,
    {
        let byte: u8 = bytes[i];
        let ghost before = out@;
        out.push(hex_char(byte / 16));
        out.push(hex_char(byte % 16));
        proof {
            let longer = hex_text(bytes@.take(i + 1));
            assert forall|k: int| 0 <= k < longer.len() implies out@[k] == longer[k] by {
                if k < before.len() {
                    assert(before[k] == hex_text(bytes@.take(i as int))[k]);
                }
            }
            assert(out@ =~= longer);
        }
        i = i + 1;
    }
    assert(bytes@.take(i as int) =~= bytes@);
    out
}

/// The beginning of the keys of a user of a dispatcher.
pub open spec fn slot_prefix(scope: Seq<char>, user: Seq<char>) -> Seq<char> {
    "ul."@ + token(scope) + "."@ + token(user) + "."@
}

/// The key of the admission slot of a job.
pub open spec fn slot_key(scope: Seq<char>, user: Seq<char>, job_id: Seq<char>) -> Seq<char> {
    slot_prefix(scope, user) + token(job_id)
}

/// The beginning of the keys of a user of a dispatcher.
pub fn user_slot_prefix(scope: &str, user: &str) -> (r: String)
    ensures
        r@ == slot_prefix(scope@, user@),
{
    let head = cat3("ul.", &hex_token(scope), ".");
    cat3(&head, &hex_token(user), ".")
}

/// The key of the admission slot of a job.
pub fn user_slot_key(scope: &str, user: &str, job_id: &str) -> (r: String)
    ensures
        r@ == slot_key(scope@, user@, job_id@),
{
    cat2(&user_slot_prefix(scope, user), &hex_token(job_id))
}

/// The pattern of the keys of a user of a dispatcher.
pub fn user_slot_pattern(scope: &str, user: &str) -> (r: String)
    ensures
        r@ == slot_prefix(scope@, user@) + ">"@,
{
    cat2(&user_slot_prefix(scope, user), ">")
}

/// The key of a job record.
pub fn nats_job_key(job_id: &str) -> (r: Result<String, DbError>)
    ensures
        keyed(job_id@, "jobs."@, "."@, r),
{
    job_key(job_id, "jobs.", ".")
}

/// The key of a lease.
pub fn broker_lease_key(broker_id: &str) -> (r: String)
    ensures
        r@ == "brokers."@ + broker_id@,
{
    cat2("brokers.", broker_id)
}

/// The key of a slot counter.
pub fn broker_slot_counter_key(site_tag: &str, env_tag: &str) -> (r: String)
    ensures
        r@ == "counters.broker_slot."@ + site_tag@ + "."@ + env_tag@,
{
    cat4("counters.broker_slot.", site_tag, ".", env_tag)
}

proof fn lemma_hex_digits_differ(a: nat, b: nat)
    requires
        a < 16,
        b < 16,
        hex_digit(a) == hex_digit(b),
    ensures
        a == b,
        hex_digit(a) != '.',
{
    let x = ('0' as nat + a) as char;
    let y = ('a' as nat + a - 10) as char;
    assert(a < 10 ==> x as nat == 48 + a);
    assert(a >= 10 ==> y as nat == 87 + a);
    let v = ('0' as nat + b) as char;
    let w = ('a' as nat + b - 10) as char;
    assert(b < 10 ==> v as nat == 48 + b);
    assert(b >= 10 ==> w as nat == 87 + b);
}

proof fn lemma_token_has_no_dot(text: Seq<char>, i: int)
    requires
        0 <= i < token(text).len(),
    ensures
        token(text)[i] != '.',
{
    let bytes = encode_utf8(text);
    let d = if i % 2 == 0 {
        bytes[i / 2] as nat / 16
    } else {
        bytes[i / 2] as nat % 16
    };
    assert(d < 16);
    assert(token(text)[i] == hex_digit(d));
    lemma_hex_digits_differ(d, d);
}

/// Different texts have different tokens.
pub proof fn law_tokens_are_distinct(a: Seq<char>, b: Seq<char>)
    requires
        token(a) == token(b),
    ensures
        a == b,
{
    let x = encode_utf8(a);
    let y = encode_utf8(b);
    assert(token(a).len() == 2 * x.len() && token(b).len() == 2 * y.len());
    assert forall|k: int| 0 <= k < x.len() implies x[k] == y[k] by {
        let even = 2 * k;
        let odd = 2 * k + 1;
        assert(even / 2 == k && odd / 2 == k && even % 2 == 0 && odd % 2 == 1);
        assert(token(a)[even] == hex_digit(x[k] as nat / 16));
        assert(token(b)[even] == hex_digit(y[k] as nat / 16));
        assert(token(a)[odd] == hex_digit(x[k] as nat % 16));
        assert(token(b)[odd] == hex_digit(y[k] as nat % 16));
        lemma_hex_digits_differ(x[k] as nat / 16, y[k] as nat / 16);
        lemma_hex_digits_differ(x[k] as nat % 16, y[k] as nat % 16);
    }
    assert(x =~= y);
    encode_utf8_decode_utf8(a);
    encode_utf8_decode_utf8(b);
}

/// A text up to its first dot is determined by what it begins.
proof fn lemma_first_dot(a: Seq<char>, b: Seq<char>, x: Seq<char>, y: Seq<char>)
    requires
        forall|i: int| 0 <= i < a.len() ==> a[i] != '.',
        forall|i: int| 0 <= i < b.len() ==> b[i] != '.',
        a + "."@ + x == b + "."@ + y,
    ensures
        a == b,
        x == y,
{
    reveal_strlit(".");
    let l = a + "."@ + x;
    let r = b + "."@ + y;
    if a.len() < b.len() {
        assert(l[a.len() as int] == '.');
        assert(r[a.len() as int] == b[a.len() as int]);
    } else if b.len() < a.len() {
        assert(r[b.len() as int] == '.');
        assert(l[b.len() as int] == a[b.len() as int]);
    }
    assert(a =~= l.take(a.len() as int));
    assert(b =~= r.take(b.len() as int));
    assert(x =~= l.skip(a.len() as int + 1));
    assert(y =~= r.skip(b.len() as int + 1));
}

/// Different jobs, users and dispatchers have different keys.
pub proof fn law_slot_keys_are_distinct(
    scope_a: Seq<char>,
    user_a: Seq<char>,
    job_a: Seq<char>,
    scope_b: Seq<char>,
    user_b: Seq<char>,
    job_b: Seq<char>,
)
    requires
        slot_key(scope_a, user_a, job_a) == slot_key(scope_b, user_b, job_b),
    ensures
        scope_a == scope_b,
        user_a == user_b,
        job_a == job_b,
{
    let ka = slot_key(scope_a, user_a, job_a);
    let kb = slot_key(scope_b, user_b, job_b);
    let tail_a = token(user_a) + "."@ + token(job_a);
    let tail_b = token(user_b) + "."@ + token(job_b);
    let n = "ul."@.len() as int;
    assert(ka =~= "ul."@ + (token(scope_a) + "."@ + tail_a));
    assert(kb =~= "ul."@ + (token(scope_b) + "."@ + tail_b));
    assert(ka.skip(n) =~= token(scope_a) + "."@ + tail_a);
    assert(kb.skip(n) =~= token(scope_b) + "."@ + tail_b);
    assert forall|t: Seq<char>, i: int| 0 <= i < token(t).len() implies token(t)[i] != '.' by {
        lemma_token_has_no_dot(t, i);
    }
    lemma_first_dot(token(scope_a), token(scope_b), tail_a, tail_b);
    lemma_first_dot(token(user_a), token(user_b), token(job_a), token(job_b));
    law_tokens_are_distinct(scope_a, scope_b);
    law_tokens_are_distinct(user_a, user_b);
    law_tokens_are_distinct(job_a, job_b);
}

// ---------------------------------------------------------------------------------------------
// Reads and writes
// ---------------------------------------------------------------------------------------------

/// What a read of a key came back with.
pub enum Read<T> {
    /// The key was never written.
    Missing,
    /// The key was removed.
    Removed { revision: u64 },
    /// The key holds a value.
    Found { value: T, revision: u64 },
    /// The key holds something else, with the reader's words.
    Unreadable(String),
    /// The read failed, in the server's words.
    Failed(String),
}

/// What a write that is bound to a revision came back with.
pub enum Write {
    Stored { revision: u64 },
    /// Someone else wrote first.
    Outrun,
    /// The write failed, in the server's words.
    Failed(String),
}

/// The value that was read, if there was one.
pub open spec fn job_read(read: Read<PersistentJobRecord>) -> Option<JobFacts> {
    match read {
        Read::Found { value, .. } => Some(value@),
        _ => None,
    }
}

/// An error is a backend error with a given message.
pub open spec fn backend(e: DbError, message: Seq<char>) -> bool {
    e matches DbError::Backend(m) && m@ == message
}

// ---------------------------------------------------------------------------------------------
// Claims
// ---------------------------------------------------------------------------------------------

/// A claim in progress.
pub struct NatsClaim {
    pub key: String,
    pub expected: String,
    pub claimant: String,
    /// How often another write came first.
    pub attempts: u8,
}

/// What a claim does next.
pub enum ClaimStep {
    /// Read the job record.
    Read,
    /// Write the record over the revision that was read.
    Update { record: PersistentJobRecord, revision: u64 },
    Done(Result<ClaimResult, DbError>),
}

/// What a claim does with a record that it read.
pub open spec fn claim_read(
    attempts: u8,
    expected: Seq<char>,
    claimant: Seq<char>,
    read: Read<PersistentJobRecord>,
    step: ClaimStep,
) -> bool {
    match read {
        Read::Missing | Read::Removed { .. } => step matches ClaimStep::Done(
            Ok(ClaimResult::NotFound),
        ),
        Read::Unreadable(text) => step matches ClaimStep::Done(Err(e)) && backend(
            e,
            "deserialize failed: "@ + text@,
        ),
        Read::Failed(text) => step matches ClaimStep::Done(Err(e)) && backend(
            e,
            if attempts < MAX_CAS_ATTEMPTS {
                "get job entry: "@
            } else {
                "re-read after CAS retries: "@
            } + text@,
        ),
        Read::Found { value, revision } => if value@.broker_id == claimant {
            step matches ClaimStep::Done(Ok(ClaimResult::Claimed(record))) && record@ == value@
        } else if attempts < MAX_CAS_ATTEMPTS && value@.broker_id == expected {
            step matches ClaimStep::Update { record, revision: bound } && record@ == owned_by(
                value@,
                claimant,
            ) && bound == revision
        } else {
            step matches ClaimStep::Done(Ok(ClaimResult::Active { owner_broker_id }))
                && owner_broker_id@ == value@.broker_id
        },
    }
}

impl NatsClaim {
    /// Starts a claim. The first step is to read the record.
    pub fn new(job_id: &str, expected: &str, claimant: &str) -> (r: Result<NatsClaim, DbError>)
        ensures
            match r {
                Ok(claim) => claim.attempts == 0 && claim.expected@ == expected@
                    && claim.claimant@ == claimant@ && keyed(
                    job_id@,
                    "jobs."@,
                    "."@,
                    Ok(claim.key),
                ),
                Err(e) => keyed(job_id@, "jobs."@, "."@, Err(e)),
            },
    {
        match nats_job_key(job_id) {
            Ok(key) => Ok(
                NatsClaim {
                    key,
                    expected: expected.to_owned(),
                    claimant: claimant.to_owned(),
                    attempts: 0,
                },
            ),
            Err(e) => Err(e),
        }
    }

    /// Decides on the record that was read.
    pub fn after_read(&self, read: Read<PersistentJobRecord>) -> (step: ClaimStep)
        ensures
            claim_read(self.attempts, self.expected@, self.claimant@, read, step),
    {
        match read {
            Read::Missing | Read::Removed { .. } => ClaimStep::Done(Ok(ClaimResult::NotFound)),
            Read::Unreadable(text) => ClaimStep::Done(
                Err(DbError::Backend(cat2("deserialize failed: ", &text))),
            ),
            Read::Failed(text) => {
                let what = if self.attempts < MAX_CAS_ATTEMPTS {
                    "get job entry: "
                } else {
                    "re-read after CAS retries: "
                };
                ClaimStep::Done(Err(DbError::Backend(cat2(what, &text))))
            },
            Read::Found { value, revision } => {
                if text_eq(&value.broker_id, &self.claimant) {
                    return ClaimStep::Done(Ok(ClaimResult::Claimed(value)));
                }
                if self.attempts < MAX_CAS_ATTEMPTS && text_eq(&value.broker_id, &self.expected) {
                    let mut record = value;
                    record.broker_id = self.claimant.clone();
                    assert(record@ =~= owned_by(value@, self.claimant@));
                    return ClaimStep::Update { record, revision };
                }
                ClaimStep::Done(Ok(ClaimResult::Active { owner_broker_id: value.broker_id }))
            },
        }
    }

    /// Goes on after the write of a record.
    pub fn after_update(&mut self, record: PersistentJobRecord, reply: Write) -> (step: ClaimStep)
        requires
            old(self).attempts < MAX_CAS_ATTEMPTS,
        ensures
            final(self).key == old(self).key,
            final(self).expected == old(self).expected,
            final(self).claimant == old(self).claimant,
            final(self).attempts == if reply is Outrun {
                old(self).attempts + 1
            } else {
                old(self).attempts as int
            },
            match reply {
                Write::Stored { .. } => step matches ClaimStep::Done(
                    Ok(ClaimResult::Claimed(claimed)),
                ) && claimed == record,
                Write::Outrun => step is Read,
                Write::Failed(text) => step matches ClaimStep::Done(Err(e)) && backend(
                    e,
                    "update job: "@ + text@,
                ),
            },
    {
        match reply {
            Write::Stored { .. } => ClaimStep::Done(Ok(ClaimResult::Claimed(record))),
            Write::Outrun => {
                self.attempts = self.attempts + 1;
                ClaimStep::Read
            },
            Write::Failed(text) => ClaimStep::Done(
                Err(DbError::Backend(cat2("update job: ", &text))),
            ),
        }
    }
}

/// A claim settles the record as it stood when it was read: where it ends without writing, the
/// record as it is, and where it writes, the record over the very revision that was read.
pub proof fn law_nats_claims_settle(
    attempts: u8,
    expected: Seq<char>,
    claimant: Seq<char>,
    read: Read<PersistentJobRecord>,
    step: ClaimStep,
)
    requires
        attempts < MAX_CAS_ATTEMPTS,
        claim_read(attempts, expected, claimant, read, step),
    ensures
        step matches ClaimStep::Done(Ok(r)) ==> claim_settled(
            job_read(read),
            expected,
            claimant,
            job_read(read),
            r,
        ),
        step matches ClaimStep::Update { record, revision } ==> read matches Read::Found {
            revision: seen,
            ..
        } && revision == seen && claim_settled(
            job_read(read),
            expected,
            claimant,
            Some(record@),
            ClaimResult::Claimed(record),
        ),
{
    if read is Found && read->Found_value@.broker_id == claimant {
        assert(owned_by(read->Found_value@, claimant) =~= read->Found_value@);
    }
}

/// A claim that lost every race ends with the next read.
pub proof fn law_nats_claims_end(
    expected: Seq<char>,
    claimant: Seq<char>,
    read: Read<PersistentJobRecord>,
    step: ClaimStep,
)
    requires
        claim_read(MAX_CAS_ATTEMPTS, expected, claimant, read, step),
    ensures
        step is Done,
{
}

// ---------------------------------------------------------------------------------------------
// Broker slots
// ---------------------------------------------------------------------------------------------

/// A bound write of a slot counter.
pub enum SlotWrite {
    /// Create the counter.
    Create,
    /// Start a counter that was removed again.
    Recreate { revision: u64 },
    /// Count one slot more than were used.
    Advance { used: u32, revision: u64 },
}

/// What an allocation does next.
pub enum SlotStep {
    /// Read the counter.
    Read,
    Write(SlotWrite),
    Done(Result<u16, DbError>),
}

impl SlotWrite {
    /// The slots in use before the write.
    pub open spec fn used(self) -> nat {
        match self {
            SlotWrite::Advance { used, .. } => used as nat,
            _ => 0,
        }
    }

    /// The number that is written.
    pub fn value(&self) -> (value: u32)
        requires
            self.used() <= u16::MAX,
        ensures
            value == self.used() + 1,
    {
        match self {
            SlotWrite::Advance { used, .. } => *used + 1,
            _ => 1,
        }
    }
}

/// The slots in use according to a read.
pub open spec fn slots_read(read: Read<u32>) -> nat {
    match read {
        Read::Found { value, .. } => value as nat,
        _ => 0,
    }
}

/// What an allocation does with a counter that it read.
pub open spec fn slot_counter_read(
    site: Seq<char>,
    env: Seq<char>,
    read: Read<u32>,
    step: SlotStep,
) -> bool {
    match read {
        Read::Missing => step matches SlotStep::Write(SlotWrite::Create),
        Read::Removed { revision } => step matches SlotStep::Write(
            SlotWrite::Recreate { revision: bound },
        ) && bound == revision,
        Read::Found { value, revision } => if value > u16::MAX {
            step matches SlotStep::Done(Err(e)) && slots_exhausted(e, site, env)
        } else {
            step matches SlotStep::Write(SlotWrite::Advance { used, revision: bound }) && used
                == value && bound == revision
        },
        Read::Unreadable(text) => step matches SlotStep::Done(Err(e)) && backend(
            e,
            "deserialize failed: "@ + text@,
        ),
        Read::Failed(text) => step matches SlotStep::Done(Err(e)) && backend(
            e,
            "get broker slot counter: "@ + text@,
        ),
    }
}

/// What an allocation does with the reply to its write.
pub open spec fn slot_counter_written(write: SlotWrite, reply: Write, step: SlotStep) -> bool {
    match reply {
        Write::Stored { .. } => step matches SlotStep::Done(Ok(slot)) && slot == write.used(),
        Write::Outrun => step is Read,
        Write::Failed(text) => step matches SlotStep::Done(Err(e)) && backend(
            e,
            match write {
                SlotWrite::Create => "create broker slot counter: "@,
                SlotWrite::Recreate { .. } => "recreate broker slot counter: "@,
                SlotWrite::Advance { .. } => "update broker slot counter: "@,
            } + text@,
        ),
    }
}

/// Decides on the counter that was read.
pub fn slot_after_read(site_tag: &str, env_tag: &str, read: Read<u32>) -> (step: SlotStep)
    ensures
        slot_counter_read(site_tag@, env_tag@, read, step),
        step matches SlotStep::Write(write) ==> write.used() <= u16::MAX,
{
    match read {
        Read::Missing => SlotStep::Write(SlotWrite::Create),
        Read::Removed { revision } => SlotStep::Write(SlotWrite::Recreate { revision }),
        Read::Found { value, revision } => {
            if value > 65535 {
                SlotStep::Done(
                    Err(
                        DbError::SlotExhausted {
                            site: site_tag.to_owned(),
                            env: env_tag.to_owned(),
                            ceiling: 65535,
                        },
                    ),
                )
            } else {
                SlotStep::Write(SlotWrite::Advance { used: value, revision })
            }
        },
        Read::Unreadable(text) => SlotStep::Done(
            Err(DbError::Backend(cat2("deserialize failed: ", &text))),
        ),
        Read::Failed(text) => SlotStep::Done(
            Err(DbError::Backend(cat2("get broker slot counter: ", &text))),
        ),
    }
}

/// Goes on after the write of the counter.
pub fn slot_after_write(write: SlotWrite, reply: Write) -> (step: SlotStep)
    requires
        write.used() <= u16::MAX,
    ensures
        slot_counter_written(write, reply, step),
{
    match reply {
        Write::Stored { .. } => {
            let slot: u16 = match write {
                SlotWrite::Advance { used, .. } => used as u16,
                _ => 0,
            };
            SlotStep::Done(Ok(slot))
        },
        Write::Outrun => SlotStep::Read,
        Write::Failed(text) => {
            let what = match write {
                SlotWrite::Create => "create broker slot counter: ",
                SlotWrite::Recreate { .. } => "recreate broker slot counter: ",
                SlotWrite::Advance { .. } => "update broker slot counter: ",
            };
            SlotStep::Done(Err(DbError::Backend(cat2(what, &text))))
        },
    }
}

/// An allocation whose write goes through takes the first free slot according to the counter that
/// it read, so that the next allocation takes the next one.
pub proof fn law_nats_slots_are_consecutive(
    site: Seq<char>,
    env: Seq<char>,
    read: Read<u32>,
    write: SlotWrite,
    reply: Write,
    step: SlotStep,
)
    requires
        slot_counter_read(site, env, read, SlotStep::Write(write)),
        slot_counter_written(write, reply, step),
        reply is Stored,
    ensures
        step matches SlotStep::Done(Ok(slot)) && slot == slots_read(read),
        write.used() == slots_read(read),
{
}

// ---------------------------------------------------------------------------------------------
// Admission slots
// ---------------------------------------------------------------------------------------------

/// What a reservation does next.
pub enum ReserveStep {
    /// Create the entry.
    Create(UserLimitEntry),
    /// Read the entry that someone else created first.
    ReadWinner,
    Done(Result<u64, DbError>),
}

/// Decides on the entry of a job: it stands where it is there already, and is made otherwise. The
/// entry carries no number of its own; its number is the revision under which it is created.
pub fn reserve_after_read(
    scope: &str,
    user: &str,
    job_id: &str,
    owner_broker_id: &str,
    now: Timestamp,
    read: Read<()>,
) -> (step: ReserveStep)
    ensures
        match read {
            Read::Found { revision, .. } => step matches ReserveStep::Done(Ok(seq)) && seq
                == revision,
            Read::Failed(text) => step matches ReserveStep::Done(Err(e)) && backend(
                e,
                "get user slot: "@ + text@,
            ),
            _ => step matches ReserveStep::Create(entry) && entry@ == (LimitFacts {
                scope: scope@,
                user: user@,
                job_id: job_id@,
                owner_broker_id: owner_broker_id@,
                seq: 0,
                created_at: now,
            }),
        },
{
    match read {
        Read::Found { revision, .. } => ReserveStep::Done(Ok(revision)),
        Read::Failed(text) => ReserveStep::Done(
            Err(DbError::Backend(cat2("get user slot: ", &text))),
        ),
        _ => ReserveStep::Create(
            UserLimitEntry {
                scope: scope.to_owned(),
                user: user.to_owned(),
                job_id: job_id.to_owned(),
                owner_broker_id: owner_broker_id.to_owned(),
                seq: 0,
                created_at: now,
            },
        ),
    }
}

/// Goes on after the creation of an entry.
pub fn reserve_after_create(reply: Write) -> (step: ReserveStep)
    ensures
        match reply {
            Write::Stored { revision } => step matches ReserveStep::Done(Ok(seq)) && seq
                == revision,
            Write::Outrun => step is ReadWinner,
            Write::Failed(text) => step matches ReserveStep::Done(Err(e)) && backend(
                e,
                "create user slot: "@ + text@,
            ),
        },
{
    match reply {
        Write::Stored { revision } => ReserveStep::Done(Ok(revision)),
        Write::Outrun => ReserveStep::ReadWinner,
        Write::Failed(text) => ReserveStep::Done(
            Err(DbError::Backend(cat2("create user slot: ", &text))),
        ),
    }
}

/// Ends a reservation that lost a race with the winner's number, removed or not, or zero where
/// the winner is gone.
pub fn reserve_after_race(read: Read<()>) -> (r: Result<u64, DbError>)
    ensures
        match read {
            Read::Found { revision, .. } => r == Ok::<u64, DbError>(revision),
            Read::Removed { revision } => r == Ok::<u64, DbError>(revision),
            Read::Failed(text) => r matches Err(e) && backend(
                e,
                "get user slot after race: "@ + text@,
            ),
            _ => r == Ok::<u64, DbError>(0),
        },
{
    match read {
        Read::Found { revision, .. } => Ok(revision),
        Read::Removed { revision } => Ok(revision),
        Read::Failed(text) => Err(DbError::Backend(cat2("get user slot after race: ", &text))),
        _ => Ok(0),
    }
}

/// An entry of a snapshot of a bucket.
pub struct Scanned<T> {
    pub key: String,
    pub revision: u64,
    /// The value, or the reader's words where it cannot be read; `None` where the key was removed.
    pub value: Option<Result<T, String>>,
}

/// The entries that a snapshot holds, each numbered by its revision.
pub open spec fn live_slots(scanned: Seq<Scanned<UserLimitEntry>>) -> Seq<LimitFacts>
    decreases scanned.len(),
{
    if scanned.len() == 0 {
        Seq::empty()
    } else {
        let rest = live_slots(scanned.drop_last());
        match scanned.last().value {
            Some(Ok(entry)) => rest.push(
                LimitFacts { seq: scanned.last().revision, ..entry@ },
            ),
            _ => rest,
        }
    }
}

/// The first entry of a snapshot that cannot be read.
pub open spec fn first_unreadable<T>(scanned: Seq<Scanned<T>>, text: Seq<char>) -> bool {
    exists|i: int|
        {
            &&& 0 <= i < scanned.len()
            &&& (#[trigger] scanned[i]).value matches Some(Err(t)) && t@ == text
            &&& forall|k: int|
                0 <= k < i ==> !((#[trigger] scanned[k]).value matches Some(Err(_)))
        }
}

/// Every entry of a snapshot that is there can be read.
pub open spec fn all_readable<T>(scanned: Seq<Scanned<T>>) -> bool {
    forall|k: int|
        0 <= k < scanned.len() ==> !((#[trigger] scanned[k]).value matches Some(Err(_)))
}

/// The admission entries of a snapshot.
pub fn slots_listed(scanned: Vec<Scanned<UserLimitEntry>>) -> (r: Result<
    Vec<UserLimitEntry>,
    DbError,
>)
    ensures
        match r {
            Ok(entries) => all_readable(scanned@) && limit_facts(entries@) == live_slots(scanned@),
            Err(e) => exists|text: Seq<char>|
                #![trigger first_unreadable(scanned@, text)]
                first_unreadable(scanned@, text) && backend(e, "deserialize failed: "@ + text),
        },
{
    let mut entries: Vec<UserLimitEntry> = Vec::new();
    let mut i: usize = 0;
    assert(limit_facts(entries@) =~= live_slots(scanned@.take(0)));
    while i < scanned.len()
        invariant
            i <= scanned@.len(),
            all_readable(scanned@.take(i as int)),
            limit_facts(entries@) == live_slots(scanned@.take(i as int)),
        decreases scanned@.len() - i,
    {
        let item = &scanned[i];
        proof {
            assert(scanned@.take(i + 1).drop_last() =~= scanned@.take(i as int));
            assert(scanned@.take(i + 1).last() == scanned@[i as int]);
            assert forall|k: int| 0 <= k < i implies !((#[trigger] scanned@[k]).value matches Some(
                Err(_),
            )) by {
                assert(scanned@.take(i as int)[k] == scanned@[k]);
            }
        }
        match &item.value {
            Some(Ok(entry)) => {
                let mut listed = entry.copy();
                listed.seq = item.revision;
                let ghost before = entries@;
                let ghost added = listed@;
                entries.push(listed);
                assert(added =~= LimitFacts { seq: item.revision, ..entry@ });
                assert(limit_facts(entries@) =~= limit_facts(before).push(added));
            },
            Some(Err(text)) => {
                assert(first_unreadable(scanned@, text@));
                return Err(DbError::Backend(cat2("deserialize failed: ", text)));
            },
            None => {},
        }
        i = i + 1;
    }
    assert(scanned@.take(i as int) =~= scanned@);
    Ok(entries)
}

/// A broker has a live lease in a snapshot.
pub open spec fn lives_in(
    scanned: Seq<Scanned<BrokerLeaseRecord>>,
    broker_id: Seq<char>,
    now: Timestamp,
) -> bool {
    exists|i: int|
        0 <= i < scanned.len() && ((#[trigger] scanned[i]).value matches Some(Ok(lease))
            && lease.broker_id@ == broker_id && lease.lease_until.after(now))
}

proof fn lemma_lives_in_longer(
    scanned: Seq<Scanned<BrokerLeaseRecord>>,
    item: Scanned<BrokerLeaseRecord>,
    broker_id: Seq<char>,
    now: Timestamp,
)
    ensures
        lives_in(scanned.push(item), broker_id, now) == (lives_in(scanned, broker_id, now) || (
        item.value matches Some(Ok(lease)) && lease.broker_id@ == broker_id
            && lease.lease_until.after(now))),
{
    let longer = scanned.push(item);
    if lives_in(scanned, broker_id, now) {
        let k = choose|k: int|
            0 <= k < scanned.len() && ((#[trigger] scanned[k]).value matches Some(Ok(lease))
                && lease.broker_id@ == broker_id && lease.lease_until.after(now));
        assert(longer[k] == scanned[k]);
    }
    assert(longer[scanned.len() as int] == item);
    if lives_in(longer, broker_id, now) {
        let k = choose|k: int|
            0 <= k < longer.len() && ((#[trigger] longer[k]).value matches Some(Ok(lease))
                && lease.broker_id@ == broker_id && lease.lease_until.after(now));
        if k < scanned.len() {
            assert(scanned[k] == longer[k]);
        }
    }
}

/// The brokers with a live lease in a snapshot.
pub fn live_owners(scanned: Vec<Scanned<BrokerLeaseRecord>>, now: Timestamp) -> (r: Result<
    Vec<String>,
    DbError,
>)
    ensures
        match r {
            Ok(live) => all_readable(scanned@) && forall|b: Seq<char>| #[trigger]
                texts(live@).contains(b) <==> lives_in(scanned@, b, now),
            Err(e) => exists|text: Seq<char>|
                #![trigger first_unreadable(scanned@, text)]
                first_unreadable(scanned@, text) && backend(e, "deserialize failed: "@ + text),
        },
{
    let mut live: Vec<String> = Vec::new();
    let mut i: usize = 0;
    while i < scanned.len()
        invariant
            i <= scanned@.len(),
            all_readable(scanned@.take(i as int)),
            forall|b: Seq<char>| #[trigger]
                texts(live@).contains(b) <==> lives_in(scanned@.take(i as int), b, now),
        decreases scanned@.len() - i,
    {
        let item = &scanned[i];
        let ghost before = live@;
        proof {
            assert forall|k: int| 0 <= k < i implies !((#[trigger] scanned@[k]).value matches Some(
                Err(_),
            )) by {
                assert(scanned@.take(i as int)[k] == scanned@[k]);
            }
        }
        match &item.value {
            Some(Ok(lease)) => {
                if lease.lease_until.is_after(&now) {
                    live.push(lease.broker_id.clone());
                    assert(texts(live@) =~= texts(before).push(lease.broker_id@));
                }
            },
            Some(Err(text)) => {
                assert(first_unreadable(scanned@, text@));
                return Err(DbError::Backend(cat2("deserialize failed: ", text)));
            },
            None => {},
        }
        proof {
            let shorter = scanned@.take(i as int);
            let longer = scanned@.take(i + 1);
            assert(longer =~= shorter.push(scanned@[i as int]));
            assert forall|b: Seq<char>| #[trigger]
                texts(live@).contains(b) <==> lives_in(longer, b, now) by {
                assert(texts(before).contains(b) <==> lives_in(shorter, b, now));
                lemma_lives_in_longer(shorter, scanned@[i as int], b, now);
                if texts(live@) != texts(before) {
                    lemma_seq_contains_after_push(
                        texts(before),
                        (item.value->Some_0)->Ok_0.broker_id@,
                        b,
                    );
                }
            }
        }
        i = i + 1;
    }
    assert(scanned@.take(i as int) =~= scanned@);
    Ok(live)
}

/// What the removal of dead brokers' entries does next.
pub enum ReclaimStep {
    /// Purge the entry at this place of the snapshot, and go on behind it.
    Purge { index: usize },
    /// Nothing is left to purge.
    Done,
    Failed(DbError),
}

/// A key is that of an admission slot.
pub open spec fn is_slot_key(key: Seq<char>) -> bool {
    key.len() >= 3 && key[0] == 'u' && key[1] == 'l' && key[2] == '.'
}

/// The entry of a snapshot is that of a dead broker.
pub open spec fn reclaimable(item: Scanned<UserLimitEntry>, live: Seq<Seq<char>>) -> bool {
    is_slot_key(item.key@) && (item.value matches Some(Ok(entry)) && !live.contains(
        entry.owner_broker_id@,
    ))
}

/// The entry of a snapshot stops the removal.
pub open spec fn blocks_reclaim(item: Scanned<UserLimitEntry>) -> bool {
    is_slot_key(item.key@) && (item.value matches Some(Err(_)))
}

/// The removal passes by the entries of a stretch of a snapshot.
pub open spec fn passes_by(
    scanned: Seq<Scanned<UserLimitEntry>>,
    from: int,
    to: int,
    live: Seq<Seq<char>>,
) -> bool {
    forall|k: int|
        from <= k < to ==> !reclaimable(#[trigger] scanned[k], live) && !blocks_reclaim(scanned[k])
}

fn contains_text(list: &Vec<String>, text: &str) -> (r: bool)
    ensures
        r == texts(list@).contains(text@),
{
    let mut i: usize = 0;
    while i < list.len()
        invariant
            i <= list@.len(),
            forall|k: int| 0 <= k < i ==> (#[trigger] texts(list@)[k]) != text@,
        decreases list@.len() - i,
    {
        if text_eq(&list[i], text) {
            assert(texts(list@)[i as int] == text@);
            return true;
        }
        i = i + 1;
    }
    false
}

fn begins_with_slot(key: &str) -> (r: bool)
    ensures
        r == is_slot_key(key@),
{
    let chars = crate::text::chars_of(key);
    chars.len() >= 3 && chars[0] == 'u' && chars[1] == 'l' && chars[2] == '.'
}

/// Finds the next entry of a snapshot, from a place on, whose owner is not among the living.
pub fn next_reclaim(scanned: &Vec<Scanned<UserLimitEntry>>, from: usize, live: &Vec<String>) -> (step:
    ReclaimStep)
    requires
        from <= scanned@.len(),
    ensures
        match step {
            ReclaimStep::Purge { index } => from <= index < scanned@.len() && reclaimable(
                scanned@[index as int],
                texts(live@),
            ) && passes_by(scanned@, from as int, index as int, texts(live@)),
            ReclaimStep::Done => passes_by(
                scanned@,
                from as int,
                scanned@.len() as int,
                texts(live@),
            ),
            ReclaimStep::Failed(e) => exists|i: int|
                {
                    &&& from <= i < scanned@.len()
                    &&& blocks_reclaim(#[trigger] scanned@[i])
                    &&& passes_by(scanned@, from as int, i, texts(live@))
                    &&& scanned@[i].value matches Some(Err(text)) && backend(
                        e,
                        "deserialize failed: "@ + text@,
                    )
                },
        },
{
    let mut i: usize = from;
    while i < scanned.len()
        invariant
            from <= i <= scanned@.len(),
            passes_by(scanned@, from as int, i as int, texts(live@)),
        decreases scanned@.len() - i,
    {
        let item = &scanned[i];
        if begins_with_slot(&item.key) {
            match &item.value {
                Some(Ok(entry)) => {
                    if !contains_text(live, &entry.owner_broker_id) {
                        return ReclaimStep::Purge { index: i };
                    }
                },
                Some(Err(text)) => {
                    assert(blocks_reclaim(scanned@[i as int]));
                    return ReclaimStep::Failed(
                        DbError::Backend(cat2("deserialize failed: ", text)),
                    );
                },
                None => {},
            }
        }
        i = i + 1;
    }
    ReclaimStep::Done
}

/// The lease that a broker takes, which must fit into signed milliseconds.
pub fn nats_lease(broker_id: &str, internal_poll_base_url: &str, ttl: Span, now: Timestamp) -> (r:
    Result<BrokerLeaseRecord, DbError>)
    ensures
        match r {
            Ok(lease) => fits_millis(ttl) && lease@ == lease_from(
                broker_id@,
                internal_poll_base_url@,
                ttl,
                now,
            ),
            Err(e) => !fits_millis(ttl) && backend(
                e,
                "invalid broker lease ttl: Source duration value is out of range for the target type"@,
            ),
        },
{
    if millis_fit(ttl) {
        Ok(new_lease(broker_id, internal_poll_base_url, ttl, now))
    } else {
        Err(
            DbError::Backend(
                "invalid broker lease ttl: Source duration value is out of range for the target type".to_owned(),
            ),
        )
    }
}

/// A claim writes exactly where the record that it read belongs to the expected owner and not
/// already to the claimant, as long as it has lost fewer than three races. It writes that
/// record with the claimant as its only change, over the revision that it read. It is told of a
/// record of another owner, and fails where nothing could be read.
pub proof fn law_nats_claims_write_only_expected_records(
    attempts: u8,
    expected: Seq<char>,
    claimant: Seq<char>,
    read: Read<PersistentJobRecord>,
    step: ClaimStep,
)
    requires
        claim_read(attempts, expected, claimant, read, step),
    ensures
        !(step is Read),
        step is Update <==> (read matches Read::Found { value, .. } && value@.broker_id == expected
            && value@.broker_id != claimant && attempts < 3),
        step matches ClaimStep::Update { record, revision } ==> record@ == (JobFacts {
            broker_id: claimant,
            ..read->Found_value@
        }) && revision == read->Found_revision,
        (step matches ClaimStep::Done(Ok(ClaimResult::NotFound))) <==> (read is Missing
            || read is Removed),
        (step matches ClaimStep::Done(Ok(ClaimResult::Claimed(_)))) <==> (read matches Read::Found {
            value,
            ..
        } && value@.broker_id == claimant),
        step matches ClaimStep::Done(Ok(ClaimResult::Claimed(record))) ==> record@
            == read->Found_value@,
        step matches ClaimStep::Done(Ok(ClaimResult::Active { owner_broker_id })) ==> (
        read matches Read::Found { value, .. } && owner_broker_id@ == value@.broker_id
            && value@.broker_id != claimant),
        (step matches ClaimStep::Done(Err(_))) <==> (read is Unreadable || read is Failed),
{
}

/// A counter below 65536 gives out its value as the next slot and is written over the revision that
/// was read; one at the ceiling gives out none. A write that was outrun starts over, and any other
/// failure ends the allocation.
pub proof fn law_nats_slots_stop_at_the_ceiling(
    site: Seq<char>,
    env: Seq<char>,
    read: Read<u32>,
    write: SlotWrite,
    reply: Write,
    first: SlotStep,
    second: SlotStep,
)
    requires
        slot_counter_read(site, env, read, first),
        slot_counter_written(write, reply, second),
    ensures
        read is Missing ==> (first matches SlotStep::Write(SlotWrite::Create)),
        read matches Read::Removed { revision } ==> (first matches SlotStep::Write(
            SlotWrite::Recreate { revision: bound },
        ) && bound == revision),
        read matches Read::Found { value, revision } ==> (value <= 65535 ==> (
        first matches SlotStep::Write(SlotWrite::Advance { used, revision: bound }) && used == value
            && bound == revision)),
        read matches Read::Found { value, .. } ==> (value > 65535 ==> (first matches SlotStep::Done(
            Err(DbError::SlotExhausted { site: s, env: e, ceiling }),
        ) && s@ == site && e@ == env && ceiling == 65535)),
        read is Unreadable || read is Failed ==> (first matches SlotStep::Done(
            Err(DbError::Backend(_)),
        )),
        second is Read <==> reply is Outrun,
        (second matches SlotStep::Done(Ok(_))) <==> reply is Stored,
        second matches SlotStep::Done(Ok(slot)) ==> match write {
            SlotWrite::Advance { used, .. } => slot == used,
            _ => slot == 0,
        },
{
}

/// A listing gives every entry that a snapshot holds, numbered by its revision, and nothing else.
pub proof fn law_listings_hold_every_entry(scanned: Seq<Scanned<UserLimitEntry>>, e: LimitFacts)
    ensures
        live_slots(scanned).contains(e) <==> exists|i: int|
            0 <= i < scanned.len() && ((#[trigger] scanned[i]).value matches Some(Ok(entry)) && e == (
            LimitFacts { seq: scanned[i].revision, ..entry@ })),
        live_slots(scanned).len() <= scanned.len(),
    decreases scanned.len(),
{
    if scanned.len() > 0 {
        let front = scanned.drop_last();
        let last = scanned.last();
        law_listings_hold_every_entry(front, e);
        assert(scanned[scanned.len() - 1] == last);
        match last.value {
            Some(Ok(entry)) => {
                lemma_seq_contains_after_push(
                    live_slots(front),
                    LimitFacts { seq: last.revision, ..entry@ },
                    e,
                );
            },
            _ => {},
        }
        if live_slots(front).contains(e) {
            let i = choose|i: int|
                0 <= i < front.len() && ((#[trigger] front[i]).value matches Some(Ok(entry)) && e
                    == (LimitFacts { seq: front[i].revision, ..entry@ }));
            assert(scanned[i] == front[i]);
        }
        if exists|i: int|
            0 <= i < scanned.len() && ((#[trigger] scanned[i]).value matches Some(Ok(entry)) && e
                == (LimitFacts { seq: scanned[i].revision, ..entry@ })) {
            let i = choose|i: int|
                0 <= i < scanned.len() && ((#[trigger] scanned[i]).value matches Some(Ok(entry))
                    && e == (LimitFacts { seq: scanned[i].revision, ..entry@ }));
            if i < front.len() {
                assert(front[i] == scanned[i]);
            }
        }
    }
}

/// An entry is reclaimed exactly where its key is that of an admission slot, it can be read, and
/// its owner is not among the living. A broker lives exactly where some lease of it in the snapshot
/// ends after the present.
pub proof fn law_only_entries_of_the_dead_are_reclaimed(
    item: Scanned<UserLimitEntry>,
    live: Seq<Seq<char>>,
    scanned: Seq<Scanned<BrokerLeaseRecord>>,
    broker_id: Seq<char>,
    now: Timestamp,
)
    ensures
        reclaimable(item, live) <==> (item.value matches Some(Ok(entry)) && item.key@.len() >= 3
            && item.key@[0] == 'u' && item.key@[1] == 'l' && item.key@[2] == '.' && !live.contains(
            entry.owner_broker_id@,
        )),
        lives_in(scanned, broker_id, now) <==> exists|i: int|
            0 <= i < scanned.len() && ((#[trigger] scanned[i]).value matches Some(Ok(lease))
                && lease.broker_id@ == broker_id && (now.secs < lease.lease_until.secs || (now.secs
                == lease.lease_until.secs && now.nanos < lease.lease_until.nanos))),
{
}

/// A listing that cannot be read is refused in the words for its first unreadable item.
pub proof fn law_first_unreadable_item_is_named<T>(
    scanned: Seq<Scanned<T>>,
    i: int,
    words: String,
    text: Seq<char>,
)
    requires
        0 <= i < scanned.len(),
        scanned[i].value == Some(Err::<T, String>(words)),
        forall|k: int| 0 <= k < i ==> !((#[trigger] scanned[k]).value matches Some(Err(_))),
    ensures
        first_unreadable(scanned, text) <==> text == words@,
{
    if text == words@ {
        assert(scanned[i].value matches Some(Err(t)) && t@ == text);
    }
    if first_unreadable(scanned, text) {
        let j = choose|j: int|
            {
                &&& 0 <= j < scanned.len()
                &&& (#[trigger] scanned[j]).value matches Some(Err(t)) && t@ == text
                &&& forall|k: int|
                    0 <= k < j ==> !((#[trigger] scanned[k]).value matches Some(Err(_)))
            };
        assert(scanned[j].value matches Some(Err(_)));
        assert(i == j);
    }
}

/// The search for entries to reclaim is stopped by an entry of a user that cannot be read, and by
/// nothing else.
pub proof fn law_unreadable_entries_stop_the_reclaim(item: Scanned<UserLimitEntry>)
    ensures
        blocks_reclaim(item) <==> (item.value matches Some(Err(_))) && item.key@.len() >= 3
            && item.key@[0] == 'u' && item.key@[1] == 'l' && item.key@[2] == '.',
{
}

} // verus!
