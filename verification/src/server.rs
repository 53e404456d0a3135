//! The HTTP front end and the worker threads.
//!
//! The front end turns an HTTP request into work for one tenant and gives it to
//! the thread of that tenant; a tenant never changes its thread. The thread
//! keeps warm workers in a pool and handles one request after the other.

use std::collections::hash_map::DefaultHasher;
use std::hash::{Hash, Hasher};

use vstd::multiset::Multiset;
use vstd::prelude::*;
use vstd::utf8::encode_utf8;

use crate::error::{fault_status, fault_text, Fault, WorkerError};
use crate::http::{ascii_text, builder_with_header, builder_with_status, built, is_built,
    is_header_name, is_header_value, is_status, is_visible, lowered, visible, visible_headers,
    visible_text, HEADERS_ALWAYS_HELD};
use crate::metrics::{counters, with_cold_start, Metrics, TenantMetrics};
use crate::pool::{distinct, holds, inserted, lemma_inserted, lemma_pushed, lemma_without, slot,
    touched, victim, without, Pool};
use crate::protocol::{RequestView, ResponseView, WorkerRequest, WorkerResponse};
use crate::router::RouteTable;
use crate::text::{pairs, same_text, text_bytes};
use crate::worker::WorkerConfig;

verus! {

/// What a tenant's worker is made of.
#[derive(Debug, PartialEq, Eq)]
pub struct TenantSpec {
    pub script_source: String,
    pub script_url: String,
    pub env: Vec<(String, String)>,
    /// In nanoseconds.
    pub wall_timeout: u128,
    /// In nanoseconds; `None` is no limit.
    pub cpu_budget: Option<u128>,
    /// In bytes; `None` is no limit.
    pub heap_limit: Option<usize>,
}

/// What `list` holds for `name`, where a later entry overrides an earlier one.
pub open spec fn spec_of(list: Seq<(String, TenantSpec)>, name: Seq<char>) -> Option<TenantSpec>
    decreases list.len(),
{
    if list.len() == 0 {
        None
    } else if list.last().0@ == name {
        Some(list.last().1)
    } else {
        spec_of(list.drop_last(), name)
    }
}

/// All tenants by name. A tenant that is given twice counts as given last.
#[derive(Debug, PartialEq, Eq)]
pub struct Tenants {
    list: Vec<(String, TenantSpec)>,
}

impl Tenants {
    /// What is known of the tenant `name`.
    pub closed spec fn spec(&self, name: Seq<char>) -> Option<TenantSpec> {
        spec_of(self.list@, name)
    }

    /// Collects tenants.
    pub fn from_list(list: Vec<(String, TenantSpec)>) -> (tenants: Self)
        ensures
            forall|name: Seq<char>| #[trigger] tenants.spec(name) == spec_of(list@, name),
    {
        Tenants { list }
    }

    /// What is known of the tenant `name`.
    pub fn get(&self, name: &str) -> (spec: Option<&TenantSpec>)
        ensures
            match spec {
                Some(s) => self.spec(name@) == Some(*s),
                None => self.spec(name@) is None,
            },
    {
        let mut i: usize = self.list.len();
        proof {
            assert(self.list@.take(i as int) =~= self.list@);
        }
        while i > 0
            invariant
                i <= self.list@.len(),
                self.spec(name@) == spec_of(self.list@.take(i as int), name@),
            decreases i,
        {
            i = i - 1;
            proof {
                assert(self.list@.take(i + 1).drop_last() =~= self.list@.take(i as int));
                assert(self.list@.take(i + 1).last() == self.list@[i as int]);
            }
            if same_text(self.list[i].0.as_str(), name) {
                return Some(&self.list[i].1);
            }
        }
        None
    }

    /// What a worker for the tenant `name` is made of.
    pub fn cold_start_spec(&self, name: &str) -> (spec: Result<&TenantSpec, WorkerError>)
        ensures
            match spec {
                Ok(s) => self.spec(name@) == Some(*s),
                Err(error) => self.spec(name@) is None && error@ == Fault::Internal(
                    "unknown tenant: "@ + name@,
                ),
            },
    {
        match self.get(name) {
            Some(spec) => Ok(spec),
            None => Err(WorkerError::Internal("unknown tenant: ".to_owned().concat(name))),
        }
    }
}

impl TenantSpec {
    /// How a worker of this tenant runs its script. It can fetch.
    pub fn worker_config(&self) -> (config: WorkerConfig)
        ensures
            pairs(config.env@) == pairs(self.env@),
            config.wall_timeout == self.wall_timeout,
            config.cpu_budget == self.cpu_budget,
            config.heap_limit == self.heap_limit,
            config.fetch_available,
    {
        WorkerConfig {
            env: copy_pairs(&self.env),
            wall_timeout: self.wall_timeout,
            cpu_budget: self.cpu_budget,
            heap_limit: self.heap_limit,
            fetch_available: true,
        }
    }
}

fn copy_pairs(list: &Vec<(String, String)>) -> (copy: Vec<(String, String)>)
    ensures
        pairs(copy@) == pairs(list@),
{
    let mut copy: Vec<(String, String)> = Vec::new();
    for i in 0..list.len()
        invariant
            pairs(copy@) == pairs(list@).take(i as int),
    {
        let ghost before = copy@;
        copy.push((list[i].0.clone(), list[i].1.clone()));
        proof {
            let all = pairs(list@);
            assert(pairs(copy@) =~= pairs(before).push(all[i as int]));
            assert(all.take(i + 1) =~= all.take(i as int).push(all[i as int]));
        }
    }
    proof {
        assert(pairs(list@).take(list@.len() as int) =~= pairs(list@));
    }
    copy
}

/// How a server is run; `A` is the address that it listens on.
#[derive(Debug)]
pub struct ServeOptions<A> {
    pub listen: A,
    pub worker_threads: usize,
    /// How many warm workers each thread keeps.
    pub isolates_per_thread: usize,
    pub route_table: RouteTable,
    pub tenants: Tenants,
}

/// One request for a worker thread; the answer goes to `reply`.
#[derive(Debug, PartialEq, Eq)]
pub struct WorkItem<R> {
    pub tenant: String,
    pub request: WorkerRequest,
    pub reply: R,
}

/// A message to a worker thread.
#[derive(Debug, PartialEq, Eq)]
pub enum Msg<R> {
    Work(WorkItem<R>),
    Shutdown,
}

/// The host that a request asks for, by the bytes of its `Host` header.
pub open spec fn host_of(header: Option<Seq<u8>>) -> Seq<char> {
    match header {
        Some(bytes) => if is_visible(bytes) {
            ascii_text(bytes)
        } else {
            "localhost"@
        },
        None => "localhost"@,
    }
}

/// The host that a request asks for. Without a `Host` header of visible ASCII
/// it is `localhost`.
pub fn request_host(header: Option<&[u8]>) -> (host: String)
    ensures
        host@ == host_of(
            match header {
                Some(bytes) => Some(bytes@),
                None => None,
            },
        ),
{
    match header {
        Some(bytes) => match visible_text(bytes) {
            Some(text) => text,
            None => "localhost".to_owned(),
        },
        None => "localhost".to_owned(),
    }
}

/// A response of plain text: one line.
pub open spec fn plain(status: u16, message: Seq<char>) -> ResponseView {
    ResponseView {
        status,
        headers: seq![("content-type"@, "text/plain; charset=utf-8"@)],
        body: encode_utf8(message + "\n"@),
    }
}

/// A response of plain text that says `message`.
pub fn plain_response(status: u16, message: &str) -> (response: WorkerResponse)
    ensures
        response@ == plain(status, message@),
{
    let mut headers: Vec<(String, String)> = Vec::new();
    headers.push(("content-type".to_owned(), "text/plain; charset=utf-8".to_owned()));
    let line = message.to_owned().concat("\n");
    let response = WorkerResponse { status, headers, body: text_bytes(line.as_str()) };
    proof {
        assert(response@.headers =~= plain(status, message@).headers);
    }
    response
}

/// Where a request goes.
#[derive(Debug, PartialEq, Eq)]
pub enum Target {
    /// To the page of counters.
    Metrics,
    /// To a tenant.
    Tenant(String),
    /// Nowhere: this is the answer.
    Nobody(WorkerResponse),
}

/// Decides where a request goes. The page of counters comes before all tenants.
pub fn target_of(table: &RouteTable, host: &str, path: &str) -> (target: Target)
    ensures
        match target {
            Target::Metrics => path@ == "/__admin/metrics"@,
            Target::Tenant(tenant) => path@ != "/__admin/metrics"@ && table.resolution(
                host@,
                path@,
            ) == Some(tenant@),
            Target::Nobody(response) => {
                &&& path@ != "/__admin/metrics"@
                &&& table.resolution(host@, path@) is None
                &&& response@ == plain(
                    404,
                    "no worker matched host="@ + host@ + " path="@ + path@,
                )
            },
        },
{
    if same_text(path, "/__admin/metrics") {
        return Target::Metrics;
    }
    match table.resolve(host, path) {
        Some(tenant) => Target::Tenant(tenant.to_owned()),
        None => {
            let message = "no worker matched host=".to_owned().concat(host).concat(
                " path=",
            ).concat(path);
            Target::Nobody(plain_response(404, message.as_str()))
        },
    }
}

/// The page of counters, which are given as JSON.
pub fn metrics_response(json: &str) -> (response: WorkerResponse)
    ensures
        response@ == (ResponseView {
            status: 200,
            headers: seq![("content-type"@, "application/json"@)],
            body: encode_utf8(json@),
        }),
{
    let mut headers: Vec<(String, String)> = Vec::new();
    headers.push(("content-type".to_owned(), "application/json".to_owned()));
    let response = WorkerResponse { status: 200, headers, body: text_bytes(json) };
    proof {
        assert(response@.headers =~= seq![("content-type"@, "application/json"@)]);
    }
    response
}

/// The request that a worker gets for an HTTP request. Its URL is absolute, and
/// headers whose values are not visible ASCII are left out.
pub fn collect_request(
    method: String,
    host: &str,
    path_and_query: Option<&str>,
    headers: &Vec<(String, Vec<u8>)>,
    body: Vec<u8>,
) -> (request: WorkerRequest)
    ensures
        request@ == (RequestView {
            method: method@,
            url: "http://"@ + host@ + match path_and_query {
                Some(rest) => rest@,
                None => "/"@,
            },
            headers: visible(headers@),
            body: body@,
        }),
{
    let rest = match path_and_query {
        Some(rest) => rest,
        None => "/",
    };
    let url = "http://".to_owned().concat(host).concat(rest);
    WorkerRequest { method, url, headers: visible_headers(headers), body }
}

/// What hashing `text` adds to what was written to a hasher before.
pub uninterp spec fn with_text(written: Seq<Seq<u8>>, text: Seq<char>) -> Seq<Seq<u8>>;

/// The standard library's `Hash` for `str`: what it writes to a hasher depends
/// on the text alone.
#[verifier::external_body]
fn hash_text(text: &str, hasher: &mut DefaultHasher)
    ensures
        final(hasher)@ == with_text(old(hasher)@, text@),
{
    text.hash(hasher);
}

/// The thread of a tenant among `threads`.
pub open spec fn home_thread(tenant: Seq<char>, threads: nat) -> int
    recommends
        threads > 0,
{
    <DefaultHasher as vstd::std_specs::hash::DefaultHasherAdditionalSpecFns>::spec_finish(
        with_text(Seq::empty(), tenant),
    ) as int % threads as int
}

/// The thread that a tenant's requests go to, which depends on its name alone.
pub fn assigned_thread(tenant: &str, threads: usize) -> (index: usize)
    requires
        threads > 0,
    ensures
        index == home_thread(tenant@, threads as nat),
        index < threads,
{
    let mut hasher = DefaultHasher::new();
    hash_text(tenant, &mut hasher);
    thread_for_hash(hasher.finish(), threads)
}

/// The thread for a tenant whose name has this hash.
pub fn thread_for_hash(hash: u64, threads: usize) -> (index: usize)
    requires
        threads > 0,
    ensures
        index == hash as int % threads as int,
        index < threads,
{
    (hash % threads as u64) as usize
}

/// What came of a request for a tenant.
#[derive(Debug, PartialEq, Eq)]
pub enum Outcome {
    /// It could not be read, for this reason.
    Unreadable(String),
    /// It was not taken in: its thread does not take requests any more.
    ThreadGone,
    /// Its thread let go of it without an answer.
    Dropped,
    /// Its thread answered it like this.
    Answered(Result<WorkerResponse, WorkerError>),
}

/// Whether the status and all headers of a response are valid.
pub open spec fn sendable(response: ResponseView) -> bool {
    &&& is_status(response.status)
    &&& forall|i: int|
        0 <= i < response.headers.len() ==> is_header_name((#[trigger] response.headers[i]).0)
            && is_header_value(response.headers[i].1)
}

/// Whether a response can turn out to be sealed or not, as `sealed` says: what
/// is sealed is valid, and what is valid is sealed unless it has very many
/// headers.
pub open spec fn may_seal(response: ResponseView, sealed: bool) -> bool {
    &&& sealed ==> sendable(response)
    &&& sendable(response) && response.headers.len() <= HEADERS_ALWAYS_HELD ==> sealed
}

/// `headers` as a builder holds them.
pub open spec fn held(headers: Seq<(Seq<char>, Seq<char>)>) -> Multiset<(Seq<char>, Seq<char>)>
    decreases headers.len(),
{
    if headers.len() == 0 {
        Multiset::empty()
    } else {
        held(headers.drop_last()).insert((lowered(headers.last().0), headers.last().1))
    }
}

/// Puts the status and the headers of a response together for sending; `None`
/// if they are not valid or, of very many headers, too many.
pub fn seal(response: &WorkerResponse) -> (sealed: Option<hyper::http::response::Builder>)
    ensures
        may_seal(response@, sealed is Some),
        match sealed {
            Some(builder) => built(builder) == Some((response.status, held(response@.headers))),
            None => true,
        },
{
    let mut builder = builder_with_status(response.status);
    let ghost all = response@.headers;
    proof {
        assert(all.take(0) =~= Seq::<(Seq<char>, Seq<char>)>::empty());
    }
    for i in 0..response.headers.len()
        invariant
            all == response@.headers,
            all.len() == response.headers@.len(),
            match built(builder) {
                Some(so_far) => {
                    &&& so_far == (response.status, held(all.take(i as int)))
                    &&& held(all.take(i as int)).len() == i
                    &&& is_status(response.status)
                    &&& forall|j: int|
                        0 <= j < i ==> is_header_name((#[trigger] all[j]).0) && is_header_value(
                            all[j].1,
                        )
                },
                None => !sendable(response@) || i > HEADERS_ALWAYS_HELD,
            },
    {
        let (name, value) = &response.headers[i];
        proof {
            assert(all[i as int] == (name@, value@));
            assert(all.take(i + 1).drop_last() =~= all.take(i as int));
            assert(all.take(i + 1).last() == (name@, value@));
        }
        builder = builder_with_header(builder, name.as_str(), value.as_str());
    }
    proof {
        assert(all.take(all.len() as int) =~= all);
    }
    if is_built(&builder) {
        Some(builder)
    } else {
        None
    }
}

/// Whether a response can be sent.
pub fn is_sendable(response: &WorkerResponse) -> (yes: bool)
    ensures
        may_seal(response@, yes),
{
    seal(response).is_some()
}

/// The HTTP response to a request that came to this; `sealed` says
/// whether a response of a worker can be sent.
pub open spec fn answer(outcome: Outcome, sealed: bool) -> ResponseView {
    match outcome {
        Outcome::Unreadable(reason) => plain(400, reason@),
        Outcome::ThreadGone => plain(500, "worker thread is gone"@),
        Outcome::Dropped => plain(500, "worker dropped the request"@),
        Outcome::Answered(Ok(response)) => if sealed {
            response@
        } else {
            plain(500, "invalid response"@)
        },
        Outcome::Answered(Err(error)) => plain(fault_status(error@), fault_text(error@)),
    }
}

/// Whether `sealed` can be true of what a request came to.
pub open spec fn may_answer(outcome: Outcome, sealed: bool) -> bool {
    match outcome {
        Outcome::Answered(Ok(response)) => may_seal(response@, sealed),
        _ => true,
    }
}

/// The answer where a response cannot be sent.
pub fn invalid_response() -> (response: WorkerResponse)
    ensures
        response@ == plain(500, "invalid response"@),
{
    plain_response(500, "invalid response")
}

/// The HTTP response to a request that came to this, where it is known
/// whether a response of a worker can be sent.
pub fn response_for(outcome: Outcome, sealed: bool) -> (response: WorkerResponse)
    ensures
        response@ == answer(outcome, sealed),
{
    match outcome {
        Outcome::Unreadable(reason) => plain_response(400, reason.as_str()),
        Outcome::ThreadGone => plain_response(500, "worker thread is gone"),
        Outcome::Dropped => plain_response(500, "worker dropped the request"),
        Outcome::Answered(Ok(response)) => if sealed {
            response
        } else {
            invalid_response()
        },
        Outcome::Answered(Err(error)) => plain_response(
            error.status(),
            error.message().as_str(),
        ),
    }
}

/// The HTTP response to a request that came to this. Of a response with
/// very many headers it is left open whether it can be sent.
pub fn http_response(outcome: Outcome) -> (response: WorkerResponse)
    ensures
        exists|sealed: bool| #[trigger]
            answer(outcome, sealed) == response@ && may_answer(outcome, sealed),
{
    let sealed = match &outcome {
        Outcome::Answered(Ok(response)) => is_sendable(response),
        _ => false,
    };
    let response = response_for(outcome, sealed);
    proof {
        assert(answer(outcome, sealed) == response@ && may_answer(outcome, sealed));
    }
    response
}

/// Whether a worker was warm when a request for it arrived.
#[derive(Debug, Clone, Copy, PartialEq, Eq)]
pub enum Arrival {
    Warm,
    Cold,
}

/// The counters of a tenant once a request arrived.
pub open spec fn arrived(metrics: TenantMetrics, warm: bool) -> TenantMetrics {
    TenantMetrics {
        requests: (metrics.requests + 1) as u64,
        warm_hits: if warm { (metrics.warm_hits + 1) as u64 } else { metrics.warm_hits },
        ..metrics
    }
}

/// The counters of a tenant once one of its requests failed.
pub open spec fn failed(metrics: TenantMetrics) -> TenantMetrics {
    TenantMetrics { errors: (metrics.errors + 1) as u64, ..metrics }
}

/// The counters of a tenant once its worker was evicted.
pub open spec fn lost(metrics: TenantMetrics) -> TenantMetrics {
    TenantMetrics { evictions: (metrics.evictions + 1) as u64, ..metrics }
}

/// Takes a request for `tenant` in: it is counted, and so is a warm worker.
pub fn accept<W>(pool: &mut Pool<W>, metrics: &mut Metrics, tenant: &str) -> (arrival: Arrival)
    requires
        old(pool).wf(),
        old(metrics).wf(),
        counters(old(metrics)@, tenant@).room(),
    ensures
        final(pool).wf(),
        final(pool).capacity() == old(pool).capacity(),
        final(metrics).wf(),
        arrival == if holds(old(pool)@, tenant@) { Arrival::Warm } else { Arrival::Cold },
        final(pool)@ == if holds(old(pool)@, tenant@) {
            touched(old(pool)@, tenant@, old(pool)@[slot(old(pool)@, tenant@)].1)
        } else {
            old(pool)@
        },
        final(metrics)@ == old(metrics)@.insert(
            tenant@,
            arrived(counters(old(metrics)@, tenant@), holds(old(pool)@, tenant@)),
        ),
{
    let warm = match pool.get(tenant) {
        Some(_) => true,
        None => false,
    };
    let counts = metrics.entry(tenant);
    counts.requests = counts.requests + 1;
    if warm {
        counts.warm_hits = counts.warm_hits + 1;
        Arrival::Warm
    } else {
        Arrival::Cold
    }
}

/// The counters once a worker for `tenant` was started, which took `ns`
/// nanoseconds, and `evicted` had to leave the pool for it.
pub open spec fn counted_start(
    metrics: Map<Seq<char>, TenantMetrics>,
    tenant: Seq<char>,
    ns: u64,
    evicted: Option<Seq<char>>,
) -> Map<Seq<char>, TenantMetrics> {
    let started = metrics.insert(tenant, with_cold_start(counters(metrics, tenant), ns));
    match evicted {
        Some(name) => started.insert(name, lost(counters(started, name))),
        None => started,
    }
}

/// The name of an entry.
pub open spec fn name_of<W>(entry: Option<(Seq<char>, W)>) -> Option<Seq<char>> {
    match entry {
        Some((name, _)) => Some(name),
        None => None,
    }
}

/// Whether a start for `tenant` can be counted: the counters of the tenant, and
/// those of the one whose worker has to leave, can count one more event.
pub open spec fn room_to_start<W>(
    metrics: Map<Seq<char>, TenantMetrics>,
    warm: Seq<(Seq<char>, W)>,
    capacity: nat,
    tenant: Seq<char>,
) -> bool {
    &&& counters(metrics, tenant).room()
    &&& match victim(warm, capacity, tenant) {
        Some((name, _)) => counters(metrics, name).room(),
        None => true,
    }
}

/// Puts a worker that was just started, in `ns` nanoseconds, into the pool. The
/// worker that had to leave for it is handed back.
pub fn started<W>(
    pool: &mut Pool<W>,
    metrics: &mut Metrics,
    tenant: String,
    worker: W,
    ns: u64,
) -> (evicted: Option<(String, W)>)
    requires
        old(pool).wf(),
        old(metrics).wf(),
        room_to_start(old(metrics)@, old(pool)@, old(pool).capacity(), tenant@),
    ensures
        final(pool).wf(),
        final(pool).capacity() == old(pool).capacity(),
        final(metrics).wf(),
        final(pool)@ == inserted(old(pool)@, old(pool).capacity(), tenant@, worker),
        match evicted {
            Some(e) => victim(old(pool)@, old(pool).capacity(), tenant@) == Some((e.0@, e.1)),
            None => victim(old(pool)@, old(pool).capacity(), tenant@) is None,
        },
        final(metrics)@ == counted_start(
            old(metrics)@,
            tenant@,
            ns,
            name_of(victim(old(pool)@, old(pool).capacity(), tenant@)),
        ),
{
    metrics.entry(tenant.as_str()).record_cold_start(ns);
    let ghost between = metrics@;
    let evicted = pool.insert(tenant, worker);
    match &evicted {
        Some((name, _)) => {
            proof {
                assert(counters(between, name@).evictions == counters(
                    old(metrics)@,
                    name@,
                ).evictions);
            }
            let counts = metrics.entry(name.as_str());
            counts.evictions = counts.evictions + 1;
        },
        None => {},
    }
    evicted
}

/// Counts a request that failed because no worker could be started.
pub fn not_started(metrics: &mut Metrics, tenant: &str)
    requires
        old(metrics).wf(),
        counters(old(metrics)@, tenant@).errors < u64::MAX,
    ensures
        final(metrics).wf(),
        final(metrics)@ == old(metrics)@.insert(
            tenant@,
            failed(counters(old(metrics)@, tenant@)),
        ),
{
    let counts = metrics.entry(tenant);
    counts.errors = counts.errors + 1;
}

/// What a worker thread does with a request that arrived.
#[derive(Debug, PartialEq, Eq)]
pub enum Begin<'a> {
    /// The warm worker of the tenant handles it.
    Handle,
    /// A worker is started from this first.
    Start(&'a TenantSpec),
    /// It is answered with this error.
    Refuse(WorkerError),
}

/// Takes a request for `tenant` in and decides what happens with it. A request
/// for an unknown tenant is counted as one that failed.
pub fn begin_request<'a, W>(
    pool: &mut Pool<W>,
    metrics: &mut Metrics,
    tenants: &'a Tenants,
    tenant: &str,
) -> (begin: Begin<'a>)
    requires
        old(pool).wf(),
        old(metrics).wf(),
        counters(old(metrics)@, tenant@).room(),
    ensures
        final(pool).wf(),
        final(pool).capacity() == old(pool).capacity(),
        final(metrics).wf(),
        final(pool)@ == if holds(old(pool)@, tenant@) {
            touched(old(pool)@, tenant@, old(pool)@[slot(old(pool)@, tenant@)].1)
        } else {
            old(pool)@
        },
        match begin {
            Begin::Handle => {
                &&& holds(old(pool)@, tenant@)
                &&& final(metrics)@ == old(metrics)@.insert(
                    tenant@,
                    arrived(counters(old(metrics)@, tenant@), true),
                )
            },
            Begin::Start(spec) => {
                &&& !holds(old(pool)@, tenant@)
                &&& tenants.spec(tenant@) == Some(*spec)
                &&& final(metrics)@ == old(metrics)@.insert(
                    tenant@,
                    arrived(counters(old(metrics)@, tenant@), false),
                )
            },
            Begin::Refuse(error) => {
                &&& !holds(old(pool)@, tenant@)
                &&& tenants.spec(tenant@) is None
                &&& error@ == Fault::Internal("unknown tenant: "@ + tenant@)
                &&& final(metrics)@ == old(metrics)@.insert(
                    tenant@,
                    failed(arrived(counters(old(metrics)@, tenant@), false)),
                )
            },
        },
{
    match accept(pool, metrics, tenant) {
        Arrival::Warm => Begin::Handle,
        Arrival::Cold => match tenants.cold_start_spec(tenant) {
            Ok(spec) => Begin::Start(spec),
            Err(error) => {
                not_started(metrics, tenant);
                proof {
                    assert(metrics@ =~= old(metrics)@.insert(tenant@, metrics@[tenant@]));
                }
                Begin::Refuse(error)
            },
        },
    }
}

/// What a worker thread does once it tried to start a worker.
#[derive(Debug, PartialEq, Eq)]
pub enum AfterStart<W> {
    /// The new worker handles the request; this one had to leave for it, if any had.
    Handle { evicted: Option<(String, W)> },
    /// The request is answered with this error.
    Refuse(WorkerError),
}

/// Takes in what came of starting a worker: the worker, with the nanoseconds
/// that it took, or an error, which is counted.
pub fn after_start<W>(
    pool: &mut Pool<W>,
    metrics: &mut Metrics,
    tenant: &str,
    start: Result<(W, u64), WorkerError>,
) -> (after: AfterStart<W>)
    requires
        old(pool).wf(),
        old(metrics).wf(),
        match start {
            Ok(_) => room_to_start(old(metrics)@, old(pool)@, old(pool).capacity(), tenant@),
            Err(_) => counters(old(metrics)@, tenant@).room(),
        },
    ensures
        final(pool).wf(),
        final(pool).capacity() == old(pool).capacity(),
        final(metrics).wf(),
        match start {
            Ok((worker, ns)) => {
                &&& after is Handle
                &&& final(pool)@ == inserted(old(pool)@, old(pool).capacity(), tenant@, worker)
                &&& final(metrics)@ == counted_start(
                    old(metrics)@,
                    tenant@,
                    ns,
                    name_of(victim(old(pool)@, old(pool).capacity(), tenant@)),
                )
                &&& match after->evicted {
                    Some(e) => victim(old(pool)@, old(pool).capacity(), tenant@) == Some(
                        (e.0@, e.1),
                    ),
                    None => victim(old(pool)@, old(pool).capacity(), tenant@) is None,
                }
            },
            Err(error) => {
                &&& after == AfterStart::<W>::Refuse(error)
                &&& final(pool)@ == old(pool)@
                &&& final(metrics)@ == old(metrics)@.insert(
                    tenant@,
                    failed(counters(old(metrics)@, tenant@)),
                )
            },
        },
{
    match start {
        Ok((worker, ns)) => {
            let evicted = started(pool, metrics, tenant.to_owned(), worker, ns);
            AfterStart::Handle { evicted }
        },
        Err(error) => {
            not_started(metrics, tenant);
            AfterStart::Refuse(error)
        },
    }
}

/// The counters of a tenant once a request that ended in `fault`, if in any,
/// was handled.
pub open spec fn ended(metrics: TenantMetrics, fault: Option<Fault>) -> TenantMetrics {
    match fault {
        None => metrics,
        Some(Fault::CpuExceeded) => TenantMetrics {
            errors: (metrics.errors + 1) as u64,
            terminations_cpu: (metrics.terminations_cpu + 1) as u64,
            ..metrics
        },
        Some(Fault::MemExceeded) => TenantMetrics {
            errors: (metrics.errors + 1) as u64,
            terminations_mem: (metrics.terminations_mem + 1) as u64,
            ..metrics
        },
        Some(_) => failed(metrics),
    }
}

/// The counters of all tenants once a request of `tenant` that ended in
/// `fault`, if in any, was handled.
pub open spec fn counted_end(
    metrics: Map<Seq<char>, TenantMetrics>,
    tenant: Seq<char>,
    fault: Option<Fault>,
) -> Map<Seq<char>, TenantMetrics> {
    if fault is Some {
        metrics.insert(tenant, ended(counters(metrics, tenant), fault))
    } else {
        metrics
    }
}

/// The fault that a request ended in, if in any.
pub open spec fn fault_of(result: Result<WorkerResponse, WorkerError>) -> Option<Fault> {
    match result {
        Ok(_) => None,
        Err(error) => Some(error@),
    }
}

/// The warm workers once a request of `tenant` that ended in `fault`, if in
/// any, was handled: a worker that exceeded its memory is not used again.
pub open spec fn kept<W>(
    warm: Seq<(Seq<char>, W)>,
    tenant: Seq<char>,
    fault: Option<Fault>,
) -> Seq<(Seq<char>, W)> {
    if fault == Some(Fault::MemExceeded) {
        without(warm, tenant)
    } else {
        warm
    }
}

/// Counts how a request was handled. A worker that exceeded its memory is taken
/// out of the pool and handed back, to be destroyed.
pub fn finished<W>(
    pool: &mut Pool<W>,
    metrics: &mut Metrics,
    tenant: &str,
    result: &Result<WorkerResponse, WorkerError>,
) -> (discarded: Option<W>)
    requires
        old(pool).wf(),
        old(metrics).wf(),
        counters(old(metrics)@, tenant@).room(),
    ensures
        final(pool).wf(),
        final(pool).capacity() == old(pool).capacity(),
        final(metrics).wf(),
        final(pool)@ == kept(old(pool)@, tenant@, fault_of(*result)),
        final(metrics)@ == counted_end(old(metrics)@, tenant@, fault_of(*result)),
        match discarded {
            Some(worker) => {
                &&& fault_of(*result) == Some(Fault::MemExceeded)
                &&& holds(old(pool)@, tenant@)
                &&& worker == old(pool)@[slot(old(pool)@, tenant@)].1
            },
            None => fault_of(*result) != Some(Fault::MemExceeded) || !holds(
                old(pool)@,
                tenant@,
            ),
        },
{
    match result {
        Ok(_) => None,
        Err(WorkerError::CpuExceeded) => {
            let counts = metrics.entry(tenant);
            counts.errors = counts.errors + 1;
            counts.terminations_cpu = counts.terminations_cpu + 1;
            None
        },
        Err(WorkerError::MemExceeded) => {
            let counts = metrics.entry(tenant);
            counts.errors = counts.errors + 1;
            counts.terminations_mem = counts.terminations_mem + 1;
            pool.remove(tenant)
        },
        Err(_) => {
            let counts = metrics.entry(tenant);
            counts.errors = counts.errors + 1;
            None
        },
    }
}

/// A worker that was just started is the one that handles the request.
pub proof fn law_started_worker_is_found<W>(
    warm: Seq<(Seq<char>, W)>,
    capacity: nat,
    tenant: Seq<char>,
    worker: W,
)
    requires
        distinct(warm),
        1 <= capacity,
        warm.len() <= capacity,
    ensures
        holds(inserted(warm, capacity, tenant, worker), tenant),
        inserted(warm, capacity, tenant, worker)[slot(
            inserted(warm, capacity, tenant, worker),
            tenant,
        )].1 == worker,
{
    lemma_inserted(warm, capacity, tenant, worker);
}

/// A worker that exceeded its memory is gone, so the next request of its tenant
/// starts a new one; whatever else a request ends in, CPU time included, its
/// worker stays warm for the next one. Nobody else's worker is affected.
pub proof fn law_only_memory_costs_the_worker<W>(
    warm: Seq<(Seq<char>, W)>,
    tenant: Seq<char>,
    other: Seq<char>,
    fault: Option<Fault>,
)
    requires
        distinct(warm),
        holds(warm, tenant),
    ensures
        holds(kept(warm, tenant, fault), tenant) <==> fault != Some(Fault::MemExceeded),
        other != tenant ==> holds(kept(warm, tenant, fault), other) == holds(warm, other),
{
    lemma_without(warm, tenant);
}

/// Every answer has a valid status and valid headers.
pub proof fn law_answers_are_valid(outcome: Outcome, sealed: bool)
    requires
        may_answer(outcome, sealed),
    ensures
        sendable(answer(outcome, sealed)),
{
    reveal_strlit("content-type");
    reveal_strlit("text/plain; charset=utf-8");
    let headers = plain(500, Seq::empty()).headers;
    assert(headers.len() == 1);
    assert(is_header_name(headers[0].0));
    assert(is_header_value(headers[0].1));
}

/// A tenant is known by its name: what was given for it last is what its workers
/// are made of, and one that was not given is unknown.
pub proof fn law_tenants_are_known_by_name(
    list: Vec<(String, TenantSpec)>,
    tenants: Tenants,
    name: &str,
    found: Option<&TenantSpec>,
    start: Result<&TenantSpec, WorkerError>,
    i: int,
)
    requires
        call_ensures(Tenants::from_list, (list,), tenants),
        call_ensures(Tenants::get, (&tenants, name), found),
        call_ensures(Tenants::cold_start_spec, (&tenants, name), start),
        -1 <= i < list@.len(),
        i >= 0 ==> list@[i].0@ == name@,
        forall|j: int| i < j < list@.len() ==> (#[trigger] list@[j]).0@ != name@,
    ensures
        found is Some <==> i >= 0,
        found is Some ==> *(found->0) == list@[i].1,
        start is Ok <==> i >= 0,
        start is Ok ==> *(start->Ok_0) == list@[i].1,
        start is Err ==> {
            &&& start->Err_0 is Internal
            &&& start->Err_0->Internal_0@ == "unknown tenant: "@ + name@
        },
{
    lemma_last_spec(list@, name@, i);
}

proof fn lemma_last_spec(list: Seq<(String, TenantSpec)>, name: Seq<char>, i: int)
    requires
        -1 <= i < list.len(),
        i >= 0 ==> list[i].0@ == name,
        forall|j: int| i < j < list.len() ==> (#[trigger] list[j]).0@ != name,
    ensures
        spec_of(list, name) == if i >= 0 { Some(list[i].1) } else { None },
    decreases list.len(),
{
    let last = list.len() - 1;
    if last > i {
        assert(list[last].0@ != name);
        let rest = list.drop_last();
        assert forall|j: int| i < j < rest.len() implies (#[trigger] rest[j]).0@ != name by {
            assert(rest[j] == list[j]);
        }
        lemma_last_spec(rest, name, i);
    }
}

/// A worker runs within the limits of its tenant and with its variables, and it
/// can fetch.
pub proof fn law_workers_are_configured(tenant: TenantSpec, config: WorkerConfig)
    requires
        call_ensures(TenantSpec::worker_config, (&tenant,), config),
    ensures
        config.env@.len() == tenant.env@.len(),
        forall|i: int|
            0 <= i < tenant.env@.len() ==> (#[trigger] config.env@[i]).0@ == tenant.env@[i].0@
                && config.env@[i].1@ == tenant.env@[i].1@,
        config.wall_timeout == tenant.wall_timeout,
        config.cpu_budget == tenant.cpu_budget,
        config.heap_limit == tenant.heap_limit,
        config.fetch_available,
{
    assert(pairs(config.env@).len() == config.env@.len());
    assert(pairs(tenant.env@).len() == tenant.env@.len());
    assert forall|i: int| 0 <= i < tenant.env@.len() implies (#[trigger] config.env@[i]).0@
        == tenant.env@[i].0@ && config.env@[i].1@ == tenant.env@[i].1@ by {
        assert(pairs(config.env@)[i] == pairs(tenant.env@)[i]);
    }
}

/// The host of a request is what its header says, if that is text, and
/// `localhost` otherwise.
pub proof fn law_hosts_are_read(header: &[u8], host: String, none: String, text: Option<String>)
    requires
        call_ensures(request_host, (Some(header),), host),
        call_ensures(request_host, (None,), none),
        call_ensures(visible_text, (header,), text),
    ensures
        text is Some ==> host@ == text->0@,
        text is None ==> host@ == "localhost"@,
        none@ == "localhost"@,
{
}

/// A plain answer has the status and the message that it was given, as one line
/// of text.
pub proof fn law_plain_answers_are_one_line(
    status: u16,
    message: &str,
    response: WorkerResponse,
    invalid: WorkerResponse,
)
    requires
        call_ensures(plain_response, (status, message), response),
        call_ensures(invalid_response, (), invalid),
    ensures
        response.status == status,
        response.body@ == encode_utf8(message@ + "\n"@),
        response.headers@.len() == 1,
        response.headers@[0].0@ == "content-type"@,
        response.headers@[0].1@ == "text/plain; charset=utf-8"@,
        invalid.status == 500,
        invalid.body@ == encode_utf8("invalid response"@ + "\n"@),
{
    assert(response@.status == response.status);
    assert(response@.body == response.body@);
    assert(response@.headers == pairs(response.headers@));
    assert(pairs(response.headers@).len() == response.headers@.len());
    assert(pairs(response.headers@)[0] == (response.headers@[0].0@, response.headers@[0].1@));
    assert(invalid@.status == invalid.status);
    assert(invalid@.body == invalid.body@);
}

/// The page of counters is JSON, as it stands.
pub proof fn law_counters_are_shown_as_json(json: &str, response: WorkerResponse)
    requires
        call_ensures(metrics_response, (json,), response),
    ensures
        response.status == 200,
        response.body@ == encode_utf8(json@),
        response.headers@.len() == 1,
        response.headers@[0].0@ == "content-type"@,
        response.headers@[0].1@ == "application/json"@,
{
    assert(response@.status == response.status);
    assert(response@.body == response.body@);
    assert(response@.headers == pairs(response.headers@));
    assert(pairs(response.headers@).len() == response.headers@.len());
    assert(pairs(response.headers@)[0] == (response.headers@[0].0@, response.headers@[0].1@));
}

/// A request goes where its path and its host lead: the page of counters comes
/// before all tenants, then whoever the table gives, and otherwise it is answered
/// with 404 and a line that names its host and its path.
pub proof fn law_requests_go_where_they_lead(
    table: RouteTable,
    host: &str,
    path: &str,
    target: Target,
    tenant: Option<&str>,
    message: &str,
    nobody: WorkerResponse,
)
    requires
        message@ == "no worker matched host="@ + host@ + " path="@ + path@,
        call_ensures(plain_response, (404, message), nobody),
        call_ensures(target_of, (&table, host, path), target),
        call_ensures(RouteTable::resolve, (&table, host, path), tenant),
    ensures
        target is Metrics <==> path@ == "/__admin/metrics"@,
        target is Tenant <==> path@ != "/__admin/metrics"@ && tenant is Some,
        target is Tenant ==> target->Tenant_0@ == tenant->0@,
        target is Nobody ==> target->Nobody_0@ == nobody@,
{
}

/// A worker gets the request that came in: its method, its body, its URL with the
/// host, and its headers as far as they are text.
pub proof fn law_requests_are_handed_on(
    method: String,
    host: &str,
    path_and_query: Option<&str>,
    list: Vec<(String, Vec<u8>)>,
    body: Vec<u8>,
    request: WorkerRequest,
    headers: Vec<(String, String)>,
)
    requires
        call_ensures(collect_request, (method, host, path_and_query, &list, body), request),
        call_ensures(visible_headers, (&list,), headers),
    ensures
        request.method@ == method@,
        path_and_query is Some ==> request.url@ == "http://"@ + host@ + path_and_query->0@,
        path_and_query is None ==> request.url@ == "http://"@ + host@ + "/"@,
        request.body@ == body@,
        request.headers@.len() == headers@.len(),
        forall|i: int|
            0 <= i < headers@.len() ==> (#[trigger] request.headers@[i]).0@ == headers@[i].0@
                && request.headers@[i].1@ == headers@[i].1@,
{
    assert(request@.method == request.method@);
    assert(request@.url == request.url@);
    assert(request@.body == request.body@);
    assert(request@.headers == pairs(request.headers@));
    assert(pairs(request.headers@).len() == request.headers@.len());
    assert(pairs(headers@).len() == headers@.len());
    assert forall|i: int| 0 <= i < headers@.len() implies (#[trigger] request.headers@[i]).0@
        == headers@[i].0@ && request.headers@[i].1@ == headers@[i].1@ by {
        assert(pairs(request.headers@)[i] == pairs(headers@)[i]);
    }
}

/// The hash of a tenant's name.
pub open spec fn name_hash(tenant: Seq<char>) -> u64 {
    <DefaultHasher as vstd::std_specs::hash::DefaultHasherAdditionalSpecFns>::spec_finish(
        with_text(Seq::empty(), tenant),
    )
}

/// A tenant never changes its thread, and its thread is the remainder of the hash
/// of its name: the hash is the same whatever the number of threads is.
pub proof fn law_tenants_stay_on_their_thread(
    tenant: &str,
    same: &str,
    threads: usize,
    index: usize,
    again: usize,
    hash: u64,
    by_hash: usize,
)
    requires
        threads > 0,
        same@ == tenant@,
        call_ensures(assigned_thread, (tenant, threads), index),
        call_ensures(assigned_thread, (same, threads), again),
        hash == name_hash(tenant@),
        call_ensures(thread_for_hash, (hash, threads), by_hash),
    ensures
        index < threads,
        again == index,
        by_hash == index,
        (hash - index) % threads as int == 0,
{
    let h = hash as int;
    let n = threads as int;
    vstd::arithmetic::div_mod::lemma_fundamental_div_mod(h, n);
    assert((h / n) * n == n * (h / n)) by (nonlinear_arith);
    vstd::arithmetic::div_mod::lemma_mod_multiples_basic(h / n, n);
}

/// What is put together for sending is the response: its status and each of its
/// headers, names in lower case, as often as it occurs.
pub proof fn law_sealed_responses_are_complete(
    response: WorkerResponse,
    sealed: Option<hyper::http::response::Builder>,
)
    requires
        call_ensures(seal, (&response,), sealed),
        sealed is Some,
    ensures
        built(sealed->0) is Some,
        (built(sealed->0)->0).0 == response.status,
        (built(sealed->0)->0).1 == response@.headers.map_values(
            |header: (Seq<char>, Seq<char>)| (lowered(header.0), header.1),
        ).to_multiset(),
{
    lemma_held(response@.headers);
}

proof fn lemma_held(headers: Seq<(Seq<char>, Seq<char>)>)
    ensures
        held(headers) == headers.map_values(
            |header: (Seq<char>, Seq<char>)| (lowered(header.0), header.1),
        ).to_multiset(),
    decreases headers.len(),
{
    broadcast use vstd::seq_lib::group_to_multiset_ensures;

    let lower = |header: (Seq<char>, Seq<char>)| (lowered(header.0), header.1);
    if headers.len() == 0 {
        assert(headers.map_values(lower) =~= Seq::<(Seq<char>, Seq<char>)>::empty());
        assert(held(headers) =~= headers.map_values(lower).to_multiset());
    } else {
        lemma_held(headers.drop_last());
        assert(headers.map_values(lower) =~= headers.drop_last().map_values(lower).push(
            lower(headers.last()),
        ));
    }
}

/// A response with a status of three digits and valid headers can be sent, if it
/// does not have very many of them; no other one can.
pub proof fn law_valid_responses_can_be_sent(response: WorkerResponse, yes: bool)
    requires
        call_ensures(is_sendable, (&response,), yes),
    ensures
        yes ==> 100 <= response.status <= 999,
        yes ==> forall|i: int|
            0 <= i < response.headers@.len() ==> is_header_name(
                (#[trigger] response.headers@[i]).0@,
            ) && is_header_value(response.headers@[i].1@),
        100 <= response.status <= 999 && response.headers@.len() <= 6554 && (forall|i: int|
            0 <= i < response.headers@.len() ==> is_header_name(
                (#[trigger] response.headers@[i]).0@,
            ) && is_header_value(response.headers@[i].1@)) ==> yes,
{
    let all = response@.headers;
    assert(all.len() == response.headers@.len());
    assert(response@.status == response.status);
    assert forall|i: int| 0 <= i < all.len() implies all[i] == (
        (#[trigger] response.headers@[i]).0@,
        response.headers@[i].1@,
    ) by {}
    if yes {
        assert forall|i: int| 0 <= i < response.headers@.len() implies is_header_name(
            (#[trigger] response.headers@[i]).0@,
        ) && is_header_value(response.headers@[i].1@) by {
            assert(is_header_name(all[i].0));
        }
    }
    if forall|i: int|
        0 <= i < response.headers@.len() ==> is_header_name((#[trigger] response.headers@[i]).0@)
            && is_header_value(response.headers@[i].1@) {
        assert forall|i: int| 0 <= i < all.len() implies is_header_name((#[trigger] all[i]).0)
            && is_header_value(all[i].1) by {
            assert(all[i].0 == response.headers@[i].0@);
        }
    }
}

/// Every request is answered with what came of it: a response of a worker as it
/// is, an error with its status and its text, and the rest with a line that says
/// what happened.
pub proof fn law_requests_are_answered(
    outcome: Outcome,
    sealed: bool,
    response: WorkerResponse,
    status: u16,
    text: String,
)
    requires
        call_ensures(response_for, (outcome, sealed), response),
        outcome is Answered && outcome->Answered_0 is Err ==> call_ensures(
            WorkerError::status,
            (&outcome->Answered_0->Err_0,),
            status,
        ) && call_ensures(WorkerError::message, (&outcome->Answered_0->Err_0,), text),
    ensures
        !(outcome is Answered && outcome->Answered_0 is Ok && sealed) ==> {
            &&& response.headers@.len() == 1
            &&& response.headers@[0].0@ == "content-type"@
            &&& response.headers@[0].1@ == "text/plain; charset=utf-8"@
        },
        match outcome {
            Outcome::Answered(Ok(given)) => if sealed {
                &&& response.status == given.status
                &&& response.body@ == given.body@
                &&& pairs(response.headers@) == pairs(given.headers@)
            } else {
                &&& response.status == 500
                &&& response.body@ == encode_utf8("invalid response"@ + "\n"@)
            },
            Outcome::Answered(Err(_)) => response.status == status && response.body@
                == encode_utf8(text@ + "\n"@),
            Outcome::Unreadable(reason) => response.status == 400 && response.body@
                == encode_utf8(reason@ + "\n"@),
            Outcome::ThreadGone => response.status == 500 && response.body@ == encode_utf8(
                "worker thread is gone"@ + "\n"@,
            ),
            Outcome::Dropped => response.status == 500 && response.body@ == encode_utf8(
                "worker dropped the request"@ + "\n"@,
            ),
        },
{
    assert(response@.status == response.status);
    assert(response@.body == response.body@);
    assert(response@.headers == pairs(response.headers@));
    assert(pairs(response.headers@).len() == response.headers@.len());
    if response.headers@.len() > 0 {
        assert(pairs(response.headers@)[0] == (response.headers@[0].0@, response.headers@[0].1@));
    }
}

/// The answer to a request is a worker's own response where that can be sent, and
/// otherwise does not depend on it.
pub proof fn law_answers_are_the_workers(
    outcome: Outcome,
    response: WorkerResponse,
    yes: bool,
    plain_answer: WorkerResponse,
)
    requires
        call_ensures(http_response, (outcome,), response),
        call_ensures(response_for, (outcome, false), plain_answer),
        outcome is Answered && outcome->Answered_0 is Ok ==> call_ensures(
            is_sendable,
            (&outcome->Answered_0->Ok_0,),
            yes,
        ),
    ensures
        outcome is Answered && outcome->Answered_0 is Ok ==> {
            let given = outcome->Answered_0->Ok_0;
            let same = response.status == given.status && response.body@ == given.body@ && pairs(
                response.headers@,
            ) == pairs(given.headers@);
            &&& same || response@ == plain_answer@
            &&& given.headers@.len() <= 6554 && yes ==> same
            &&& given.headers@.len() <= 6554 && !yes ==> response@ == plain_answer@
        },
        !(outcome is Answered && outcome->Answered_0 is Ok) ==> response@ == plain_answer@,
{
    let sealed = choose|sealed: bool| #[trigger]
        answer(outcome, sealed) == response@ && may_answer(outcome, sealed);
    assert(response@.status == response.status);
    assert(response@.body == response.body@);
    assert(response@.headers == pairs(response.headers@));
    if outcome is Answered && outcome->Answered_0 is Ok {
        let given = outcome->Answered_0->Ok_0;
        assert(given@.headers.len() == given.headers@.len());
        assert(given@.status == given.status);
        assert(given@.body == given.body@);
        assert(given@.headers == pairs(given.headers@));
    }
}

/// A request that arrives is counted for its tenant, and so is a warm worker that
/// it finds; nothing is counted for anyone else, and the workers stay.
pub proof fn law_arrivals_are_counted<W>(
    pool: &mut Pool<W>,
    metrics: &mut Metrics,
    tenant: &str,
    arrival: Arrival,
    other: Seq<char>,
)
    requires
        old(pool).wf(),
        counters(old(metrics)@, tenant@).room(),
        call_ensures(accept::<W>, (pool, metrics, tenant), arrival),
        other != tenant@,
    ensures
        arrival is Warm <==> holds(old(pool)@, tenant@),
        ({
            let before = counters(old(metrics)@, tenant@);
            let after = counters(final(metrics)@, tenant@);
            &&& after.requests == before.requests + 1
            &&& after.warm_hits == before.warm_hits + if arrival is Warm { 1int } else { 0int }
            &&& after.errors == before.errors
            &&& after.cold_starts == before.cold_starts
            &&& after.evictions == before.evictions
            &&& after.terminations_cpu == before.terminations_cpu
            &&& after.terminations_mem == before.terminations_mem
            &&& after.cold_start_ns_sum == before.cold_start_ns_sum
        }),
        counters(final(metrics)@, other) == counters(old(metrics)@, other),
        holds(final(pool)@, tenant@) == holds(old(pool)@, tenant@),
        holds(final(pool)@, other) == holds(old(pool)@, other),
{
    let warm = old(pool)@;
    if holds(warm, tenant@) {
        lemma_without(warm, tenant@);
        lemma_pushed(without(warm, tenant@), tenant@, warm[slot(warm, tenant@)].1);
        assert(holds(final(pool)@, other) == holds(without(warm, tenant@), other));
    }
}

/// How a request was handled is counted for its tenant: an error, and a limit
/// that it exceeded. Only one that exceeded its memory costs the worker, which is
/// handed back.
pub proof fn law_ends_are_counted<W>(
    pool: &mut Pool<W>,
    metrics: &mut Metrics,
    tenant: &str,
    result: Result<WorkerResponse, WorkerError>,
    discarded: Option<W>,
    other: Seq<char>,
)
    requires
        old(pool).wf(),
        counters(old(metrics)@, tenant@).room(),
        holds(old(pool)@, tenant@),
        call_ensures(finished::<W>, (pool, metrics, tenant, &result), discarded),
        other != tenant@,
    ensures
        ({
            let before = counters(old(metrics)@, tenant@);
            let after = counters(final(metrics)@, tenant@);
            let cpu = result is Err && result->Err_0 is CpuExceeded;
            let mem = result is Err && result->Err_0 is MemExceeded;
            &&& after.errors == before.errors + if result is Err { 1int } else { 0int }
            &&& after.terminations_cpu == before.terminations_cpu + if cpu { 1int } else { 0int }
            &&& after.terminations_mem == before.terminations_mem + if mem { 1int } else { 0int }
            &&& after.requests == before.requests
            &&& after.warm_hits == before.warm_hits
            &&& after.cold_starts == before.cold_starts
            &&& after.evictions == before.evictions
            &&& discarded is Some <==> mem
            &&& discarded is Some ==> discarded->0 == old(pool)@[slot(old(pool)@, tenant@)].1
            &&& holds(final(pool)@, tenant@) <==> !mem
        }),
        counters(final(metrics)@, other) == counters(old(metrics)@, other),
        holds(final(pool)@, other) == holds(old(pool)@, other),
{
    lemma_without(old(pool)@, tenant@);
}

/// A worker that was started is counted for its tenant, with its time, and the
/// worker that leaves for it is counted for its own tenant.
pub proof fn law_starts_are_counted<W>(
    pool: &mut Pool<W>,
    metrics: &mut Metrics,
    tenant: String,
    worker: W,
    ns: u64,
    evicted: Option<(String, W)>,
    other: Seq<char>,
)
    requires
        old(pool).wf(),
        room_to_start(old(metrics)@, old(pool)@, old(pool).capacity(), tenant@),
        !holds(old(pool)@, tenant@),
        call_ensures(started::<W>, (pool, metrics, tenant, worker, ns), evicted),
        other != tenant@,
    ensures
        ({
            let before = counters(old(metrics)@, tenant@);
            let after = counters(final(metrics)@, tenant@);
            &&& after.cold_starts == before.cold_starts + 1
            &&& after.cold_start_ns_last == ns
            &&& after.cold_start_ns_sum == before.cold_start_ns_sum + ns
            &&& after.requests == before.requests
            &&& after.warm_hits == before.warm_hits
            &&& after.errors == before.errors
            &&& after.evictions == before.evictions
        }),
        counters(final(metrics)@, other).evictions == counters(old(metrics)@, other).evictions
            + if evicted is Some && (evicted->0).0@ == other { 1int } else { 0int },
        counters(final(metrics)@, other).requests == counters(old(metrics)@, other).requests,
        counters(final(metrics)@, other).errors == counters(old(metrics)@, other).errors,
        counters(final(metrics)@, other).cold_starts == counters(
            old(metrics)@,
            other,
        ).cold_starts,
        holds(final(pool)@, tenant@),
        final(pool)@[slot(final(pool)@, tenant@)].1 == worker,
        evicted is Some ==> holds(old(pool)@, (evicted->0).0@),
{
    lemma_inserted(old(pool)@, old(pool).capacity(), tenant@, worker);
    if evicted is Some {
        assert(old(pool)@[0].0 == (evicted->0).0@);
    }
}

/// A request for which no worker could be started counts as one that failed.
pub proof fn law_refusals_are_counted(metrics: &mut Metrics, tenant: &str, other: Seq<char>)
    requires
        counters(old(metrics)@, tenant@).errors < u64::MAX,
        call_ensures(not_started, (metrics, tenant), ()),
        other != tenant@,
    ensures
        counters(final(metrics)@, tenant@).errors == counters(old(metrics)@, tenant@).errors + 1,
        counters(final(metrics)@, tenant@).requests == counters(old(metrics)@, tenant@).requests,
        counters(final(metrics)@, other) == counters(old(metrics)@, other),
{
}

} // verus!
