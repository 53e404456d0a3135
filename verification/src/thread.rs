//! What a worker thread does, step by step.
//!
//! A thread takes one message after the other. For a request it starts a worker
//! where none is warm, lets the worker handle the request and replies; what
//! happens outside is told to it as an event, and it says what to do next.

use vstd::prelude::*;

use crate::error::{Fault, WorkerError};
use crate::metrics::{counters, Metrics, TenantMetrics};
use crate::pool::{distinct, holds, inserted, lemma_inserted, lemma_pushed, lemma_without,
    slot, survivors, touched, victim, without, Pool};
use crate::protocol::{ResponseView, WorkerResponse};
use crate::server::{after_start, arrived, begin_request, counted_end, counted_start, failed,
    fault_of, finished, home_thread, kept, name_of, room_to_start, AfterStart, Begin, Msg,
    TenantSpec, Tenants, WorkItem};
use crate::tally::{lemma_tally_bound, lemma_tally_push, tally};

verus! {

/// What a thread is busy with.
#[derive(Debug, PartialEq, Eq)]
pub enum Phase<R> {
    /// Nothing: it waits for a message.
    Idle,
    /// A worker is being started for this request.
    Starting(WorkItem<R>),
    /// The worker of its tenant is handling this request.
    Handling(WorkItem<R>),
    /// It has come to its end.
    Stopped,
}

/// What a thread is told.
#[derive(Debug, PartialEq, Eq)]
pub enum ThreadEvent<W, R> {
    /// A message came.
    Received(Msg<R>),
    /// No message can come any more.
    Closed,
    /// This came of starting a worker: the worker, with the nanoseconds that it
    /// took, or an error.
    Started(Result<(W, u64), WorkerError>),
    /// The worker handled the request.
    Handled(Result<WorkerResponse, WorkerError>),
}

/// What a thread does next.
#[derive(Debug, PartialEq, Eq)]
pub enum ThreadAction<'a, W, R> {
    /// Start a worker from this.
    Start(&'a TenantSpec),
    /// Let the warm worker of the tenant handle the request; this one had to
    /// leave for it, if any had.
    Handle { evicted: Option<(String, W)> },
    /// Answer the request; this worker is not used again, if any is not.
    Reply {
        reply: R,
        result: Result<WorkerResponse, WorkerError>,
        discarded: Option<W>,
    },
    /// Stop.
    Stop,
}

/// What a thread does next, in terms of views.
pub enum Deed<W, R> {
    Start(TenantSpec),
    Handle { evicted: Option<(Seq<char>, W)> },
    Reply { reply: R, result: Result<ResponseView, Fault>, discarded: Option<W> },
    Stop,
}

/// What a request came to.
pub open spec fn result_view(result: Result<WorkerResponse, WorkerError>) -> Result<
    ResponseView,
    Fault,
> {
    match result {
        Ok(response) => Ok(response@),
        Err(error) => Err(error@),
    }
}

impl<'a, W, R> View for ThreadAction<'a, W, R> {
    type V = Deed<W, R>;

    open spec fn view(&self) -> Deed<W, R> {
        match *self {
            ThreadAction::Start(spec) => Deed::Start(*spec),
            ThreadAction::Handle { evicted } => Deed::Handle {
                evicted: match evicted {
                    Some(entry) => Some((entry.0@, entry.1)),
                    None => None,
                },
            },
            ThreadAction::Reply { reply, result, discarded } => Deed::Reply {
                reply,
                result: result_view(result),
                discarded,
            },
            ThreadAction::Stop => Deed::Stop,
        }
    }
}

/// All that a thread's next step depends on.
pub struct ThreadState<W, R> {
    pub warm: Seq<(Seq<char>, W)>,
    pub metrics: Map<Seq<char>, TenantMetrics>,
    pub phase: Phase<R>,
}

/// Whether a thread can be told this now.
pub open spec fn expects<W, R>(phase: Phase<R>, event: ThreadEvent<W, R>) -> bool {
    match phase {
        Phase::Idle => event is Received || event is Closed,
        Phase::Starting(_) => event is Started,
        Phase::Handling(_) => event is Handled,
        Phase::Stopped => false,
    }
}

/// The request that a thread is busy with when it is told `event`.
pub open spec fn item_at<W, R>(phase: Phase<R>, event: ThreadEvent<W, R>) -> Option<WorkItem<R>> {
    match (phase, event) {
        (Phase::Idle, ThreadEvent::Received(Msg::Work(item))) => Some(item),
        (Phase::Starting(item), _) => Some(item),
        (Phase::Handling(item), _) => Some(item),
        _ => None,
    }
}

/// Whether a step can be counted: the counters of the tenant that it is about
/// can count one more event and, where a worker was started, so can those of the
/// tenant whose worker has to leave for it.
pub open spec fn can_count<W, R>(
    capacity: nat,
    state: ThreadState<W, R>,
    event: ThreadEvent<W, R>,
) -> bool {
    match item_at(state.phase, event) {
        Some(item) => match event {
            ThreadEvent::Started(Ok(_)) => room_to_start(
                state.metrics,
                state.warm,
                capacity,
                item.tenant@,
            ),
            _ => counters(state.metrics, item.tenant@).room(),
        },
        None => true,
    }
}

/// A thread's state and its action once a request arrived.
pub open spec fn next_of_request<W, R>(
    tenants: Tenants,
    state: ThreadState<W, R>,
    item: WorkItem<R>,
) -> (ThreadState<W, R>, Deed<W, R>) {
    let tenant = item.tenant@;
    let count = arrived(counters(state.metrics, tenant), holds(state.warm, tenant));
    if holds(state.warm, tenant) {
        (
            ThreadState {
                warm: touched(state.warm, tenant, state.warm[slot(state.warm, tenant)].1),
                metrics: state.metrics.insert(tenant, count),
                phase: Phase::Handling(item),
            },
            Deed::Handle { evicted: None },
        )
    } else {
        match tenants.spec(tenant) {
            Some(spec) => (
                ThreadState {
                    warm: state.warm,
                    metrics: state.metrics.insert(tenant, count),
                    phase: Phase::Starting(item),
                },
                Deed::Start(spec),
            ),
            None => (
                ThreadState {
                    warm: state.warm,
                    metrics: state.metrics.insert(tenant, failed(count)),
                    phase: Phase::Idle,
                },
                Deed::Reply {
                    reply: item.reply,
                    result: Err(Fault::Internal("unknown tenant: "@ + tenant)),
                    discarded: None,
                },
            ),
        }
    }
}

/// A thread's state and its action once it tried to start a worker.
pub open spec fn next_of_start<W, R>(
    capacity: nat,
    state: ThreadState<W, R>,
    item: WorkItem<R>,
    start: Result<(W, u64), WorkerError>,
) -> (ThreadState<W, R>, Deed<W, R>) {
    let tenant = item.tenant@;
    match start {
        Ok((worker, ns)) => (
            ThreadState {
                warm: inserted(state.warm, capacity, tenant, worker),
                metrics: counted_start(
                    state.metrics,
                    tenant,
                    ns,
                    name_of(victim(state.warm, capacity, tenant)),
                ),
                phase: Phase::Handling(item),
            },
            Deed::Handle { evicted: victim(state.warm, capacity, tenant) },
        ),
        Err(error) => (
            ThreadState {
                warm: state.warm,
                metrics: state.metrics.insert(tenant, failed(counters(state.metrics, tenant))),
                phase: Phase::Idle,
            },
            Deed::Reply { reply: item.reply, result: Err(error@), discarded: None },
        ),
    }
}

/// A thread's state and its action once a request was handled.
pub open spec fn next_of_end<W, R>(
    state: ThreadState<W, R>,
    item: WorkItem<R>,
    result: Result<WorkerResponse, WorkerError>,
) -> (ThreadState<W, R>, Deed<W, R>) {
    let tenant = item.tenant@;
    let condemned = fault_of(result) == Some(Fault::MemExceeded) && holds(state.warm, tenant);
    (
        ThreadState {
            warm: kept(state.warm, tenant, fault_of(result)),
            metrics: counted_end(state.metrics, tenant, fault_of(result)),
            phase: Phase::Idle,
        },
        Deed::Reply {
            reply: item.reply,
            result: result_view(result),
            discarded: if condemned {
                Some(state.warm[slot(state.warm, tenant)].1)
            } else {
                None
            },
        },
    )
}

/// A thread's next state and its action, where it can be told `event`.
pub open spec fn thread_next<W, R>(
    capacity: nat,
    tenants: Tenants,
    state: ThreadState<W, R>,
    event: ThreadEvent<W, R>,
) -> (ThreadState<W, R>, Deed<W, R>) {
    match (state.phase, event) {
        (Phase::Idle, ThreadEvent::Received(Msg::Work(item))) => next_of_request(
            tenants,
            state,
            item,
        ),
        (Phase::Starting(item), ThreadEvent::Started(start)) => next_of_start(
            capacity,
            state,
            item,
            start,
        ),
        (Phase::Handling(item), ThreadEvent::Handled(result)) => next_of_end(state, item, result),
        _ => (ThreadState { phase: Phase::Stopped, ..state }, Deed::Stop),
    }
}

/// Whether the step of a thread on `event` can be counted.
pub fn step_has_room<W, R>(
    pool: &Pool<W>,
    metrics: &Metrics,
    phase: &Phase<R>,
    event: &ThreadEvent<W, R>,
) -> (yes: bool)
    requires
        pool.wf(),
        metrics.wf(),
    ensures
        yes == can_count(
            pool.capacity(),
            (ThreadState { warm: pool@, metrics: metrics@, phase: *phase }),
            *event,
        ),
{
    let item = match phase {
        Phase::Idle => match event {
            ThreadEvent::Received(Msg::Work(item)) => item,
            _ => return true,
        },
        Phase::Starting(item) => item,
        Phase::Handling(item) => item,
        Phase::Stopped => return true,
    };
    let tenant = item.tenant.as_str();
    if !metrics.has_room_for(tenant) {
        return false;
    }
    match event {
        ThreadEvent::Started(Ok(_)) => match pool.would_evict(tenant) {
            Some(name) => metrics.has_room_for(name),
            None => true,
        },
        _ => true,
    }
}

/// One step of a thread that keeps its warm workers in `pool`.
pub fn thread_step<'a, W, R>(
    pool: &mut Pool<W>,
    metrics: &mut Metrics,
    tenants: &'a Tenants,
    phase: Phase<R>,
    event: ThreadEvent<W, R>,
) -> (next: (Phase<R>, ThreadAction<'a, W, R>))
    requires
        old(pool).wf(),
        old(metrics).wf(),
        expects(phase, event),
        can_count(
            old(pool).capacity(),
            (ThreadState { warm: old(pool)@, metrics: old(metrics)@, phase }),
            event,
        ),
    ensures
        final(pool).wf(),
        final(pool).capacity() == old(pool).capacity(),
        final(metrics).wf(),
        thread_next(
            old(pool).capacity(),
            *tenants,
            (ThreadState { warm: old(pool)@, metrics: old(metrics)@, phase }),
            event,
        ) == (
            (ThreadState { warm: final(pool)@, metrics: final(metrics)@, phase: next.0 }),
            next.1@,
        ),
{
    match (phase, event) {
        (Phase::Idle, ThreadEvent::Received(Msg::Work(item))) => {
            match begin_request(pool, metrics, tenants, item.tenant.as_str()) {
                Begin::Handle => (Phase::Handling(item), ThreadAction::Handle { evicted: None }),
                Begin::Start(spec) => (Phase::Starting(item), ThreadAction::Start(spec)),
                Begin::Refuse(error) => (
                    Phase::Idle,
                    ThreadAction::Reply { reply: item.reply, result: Err(error), discarded: None },
                ),
            }
        },
        (Phase::Starting(item), ThreadEvent::Started(start)) => {
            match after_start(pool, metrics, item.tenant.as_str(), start) {
                AfterStart::Handle { evicted } => (
                    Phase::Handling(item),
                    ThreadAction::Handle { evicted },
                ),
                AfterStart::Refuse(error) => (
                    Phase::Idle,
                    ThreadAction::Reply { reply: item.reply, result: Err(error), discarded: None },
                ),
            }
        },
        (Phase::Handling(item), ThreadEvent::Handled(result)) => {
            let discarded = finished(pool, metrics, item.tenant.as_str(), &result);
            (Phase::Idle, ThreadAction::Reply { reply: item.reply, result, discarded })
        },
        _ => (Phase::Stopped, ThreadAction::Stop),
    }
}

/// What a server with its worker threads is made of.
pub struct Setup {
    pub threads: nat,
    /// How many warm workers each thread keeps.
    pub capacity: nat,
    pub tenants: Tenants,
}

/// One thread is told something. Its workers change while they handle requests:
/// `warm` is how they are found.
pub struct Moment<W, R> {
    pub thread: int,
    pub warm: Seq<(Seq<char>, W)>,
    pub event: ThreadEvent<W, R>,
}

/// The state of all threads, with the counters that they share.
pub struct ServerState<W, R> {
    pub pools: Seq<Seq<(Seq<char>, W)>>,
    pub phases: Seq<Phase<R>>,
    pub metrics: Map<Seq<char>, TenantMetrics>,
}

/// What is on record of a moment.
pub struct Entry<W, R> {
    pub thread: int,
    /// The request that the thread is busy with, if with any.
    pub item: Option<WorkItem<R>>,
    pub event: ThreadEvent<W, R>,
    pub deed: Deed<W, R>,
}

/// Whose workers are warm, the least recently used one first.
pub open spec fn names<W>(warm: Seq<(Seq<char>, W)>) -> Seq<Seq<char>> {
    warm.map_values(|entry: (Seq<char>, W)| entry.0)
}

/// The state in which a moment finds its thread.
pub open spec fn thread_at<W, R>(
    state: ServerState<W, R>,
    moment: Moment<W, R>,
) -> ThreadState<W, R> {
    ThreadState {
        warm: moment.warm,
        metrics: state.metrics,
        phase: state.phases[moment.thread],
    }
}

/// What the thread of this moment makes of it.
pub open spec fn outcome_of<W, R>(
    setup: Setup,
    state: ServerState<W, R>,
    moment: Moment<W, R>,
) -> (ThreadState<W, R>, Deed<W, R>) {
    thread_next(setup.capacity, setup.tenants, thread_at(state, moment), moment.event)
}

/// The state of the server after `run`. All threads start idle, without warm
/// workers, and nothing is counted yet.
pub open spec fn server_after<W, R>(setup: Setup, run: Seq<Moment<W, R>>) -> ServerState<W, R>
    decreases run.len(),
{
    if run.len() == 0 {
        ServerState {
            pools: Seq::new(setup.threads, |i: int| Seq::empty()),
            phases: Seq::new(setup.threads, |i: int| Phase::Idle),
            metrics: Map::empty(),
        }
    } else {
        let before = server_after(setup, run.drop_last());
        let after = outcome_of(setup, before, run.last()).0;
        ServerState {
            pools: before.pools.update(run.last().thread, after.warm),
            phases: before.phases.update(run.last().thread, after.phase),
            metrics: after.metrics,
        }
    }
}

/// Whether `moment` can come in this state: a thread is told what it expects,
/// finds the workers that it left, and gets requests of its own tenants only.
pub open spec fn can_come<W, R>(
    setup: Setup,
    state: ServerState<W, R>,
    moment: Moment<W, R>,
) -> bool {
    &&& 0 <= moment.thread < setup.threads
    &&& names(moment.warm) == names(state.pools[moment.thread])
    &&& expects(state.phases[moment.thread], moment.event)
    &&& match moment.event {
        ThreadEvent::Received(Msg::Work(item)) => home_thread(item.tenant@, setup.threads)
            == moment.thread,
        _ => true,
    }
}

/// Whether a server can run like this.
pub open spec fn possible<W, R>(setup: Setup, run: Seq<Moment<W, R>>) -> bool
    decreases run.len(),
{
    if run.len() == 0 {
        setup.threads >= 1 && setup.capacity >= 1
    } else {
        possible(setup, run.drop_last()) && can_come(
            setup,
            server_after(setup, run.drop_last()),
            run.last(),
        )
    }
}

/// The record of `run`.
pub open spec fn record<W, R>(setup: Setup, run: Seq<Moment<W, R>>) -> Seq<Entry<W, R>>
    decreases run.len(),
{
    if run.len() == 0 {
        Seq::empty()
    } else {
        let before = server_after(setup, run.drop_last());
        let moment = run.last();
        record(setup, run.drop_last()).push(
            Entry {
                thread: moment.thread,
                item: item_at(before.phases[moment.thread], moment.event),
                event: moment.event,
                deed: outcome_of(setup, before, moment).1,
            },
        )
    }
}

/// What is true of the thread `index` at all times: no tenant has two warm
/// workers, there are not too many of them, all of them belong to tenants of
/// this thread, and so does the request that it is busy with, whose tenant has a
/// warm worker exactly while the request is being handled.
pub open spec fn in_order<W, R>(
    setup: Setup,
    index: int,
    warm: Seq<(Seq<char>, W)>,
    phase: Phase<R>,
) -> bool {
    &&& distinct(warm)
    &&& warm.len() <= setup.capacity
    &&& forall|name: Seq<char>| #[trigger]
        holds(warm, name) ==> home_thread(name, setup.threads) == index
    &&& match phase {
        Phase::Starting(item) => home_thread(item.tenant@, setup.threads) == index && !holds(
            warm,
            item.tenant@,
        ),
        Phase::Handling(item) => home_thread(item.tenant@, setup.threads) == index && holds(
            warm,
            item.tenant@,
        ),
        _ => true,
    }
}

/// What is true of a server at all times.
pub open spec fn orderly<W, R>(setup: Setup, state: ServerState<W, R>) -> bool {
    &&& state.pools.len() == setup.threads
    &&& state.phases.len() == setup.threads
    &&& forall|i: int|
        0 <= i < setup.threads ==> in_order(
            setup,
            i,
            #[trigger] state.pools[i],
            state.phases[i],
        )
}

proof fn lemma_same_names<W>(first: Seq<(Seq<char>, W)>, second: Seq<(Seq<char>, W)>)
    requires
        names(first) == names(second),
    ensures
        first.len() == second.len(),
        distinct(first) == distinct(second),
        forall|name: Seq<char>| #[trigger] holds(first, name) == holds(second, name),
{
    assert(first.len() == names(first).len());
    assert(second.len() == names(second).len());
    assert forall|i: int| 0 <= i < first.len() implies (#[trigger] first[i]).0 == second[i].0 by {
        assert(names(first)[i] == names(second)[i]);
    }
    assert forall|name: Seq<char>| #[trigger] holds(first, name) == holds(second, name) by {
        if holds(first, name) {
            let i = slot(first, name);
            assert(0 <= i < first.len() && first[i].0 == name);
            assert(second[i].0 == name);
        }
        if holds(second, name) {
            let i = slot(second, name);
            assert(0 <= i < second.len() && second[i].0 == name);
            assert(first[i].0 == name);
        }
    }
    if distinct(first) {
        assert forall|i: int, j: int| 0 <= i < j < second.len() implies #[trigger] second[i].0
            != #[trigger] second[j].0 by {
            assert(first[i].0 != first[j].0);
        }
    }
    if distinct(second) {
        assert forall|i: int, j: int| 0 <= i < j < first.len() implies #[trigger] first[i].0
            != #[trigger] first[j].0 by {
            assert(second[i].0 != second[j].0);
        }
    }
}

proof fn lemma_dropped_first<W>(warm: Seq<(Seq<char>, W)>)
    requires
        distinct(warm),
        warm.len() > 0,
    ensures
        distinct(warm.drop_first()),
        forall|name: Seq<char>| #[trigger] holds(warm.drop_first(), name) ==> holds(warm, name),
{
    let rest = warm.drop_first();
    assert forall|i: int, j: int| 0 <= i < j < rest.len() implies #[trigger] rest[i].0
        != #[trigger] rest[j].0 by {
        assert(rest[i] == warm[i + 1] && rest[j] == warm[j + 1]);
    }
    assert forall|name: Seq<char>| #[trigger] holds(rest, name) implies holds(warm, name) by {
        let i = slot(rest, name);
        assert(0 <= i < rest.len() && rest[i].0 == name);
        assert(warm[i + 1].0 == name);
    }
}

/// A thread in order stays in order.
proof fn lemma_thread_stays_in_order<W, R>(
    setup: Setup,
    state: ServerState<W, R>,
    moment: Moment<W, R>,
)
    requires
        setup.capacity >= 1,
        orderly(setup, state),
        can_come(setup, state, moment),
    ensures
        ({
            let after = outcome_of(setup, state, moment).0;
            in_order(setup, moment.thread, after.warm, after.phase)
        }),
{
    let warm = moment.warm;
    let phase = state.phases[moment.thread];
    assert(in_order(setup, moment.thread, state.pools[moment.thread], phase));
    lemma_same_names(warm, state.pools[moment.thread]);
    match (phase, moment.event) {
        (Phase::Idle, ThreadEvent::Received(Msg::Work(item))) => {
            let tenant = item.tenant@;
            lemma_without(warm, tenant);
            lemma_pushed(without(warm, tenant), tenant, warm[slot(warm, tenant)].1);
        },
        (Phase::Starting(item), ThreadEvent::Started(Ok((worker, _)))) => {
            let tenant = item.tenant@;
            lemma_inserted(warm, setup.capacity, tenant, worker);
            let left = survivors(warm, setup.capacity, tenant);
            if victim(warm, setup.capacity, tenant) is Some {
                lemma_dropped_first(warm);
            }
            lemma_without(left, tenant);
            lemma_pushed(without(left, tenant), tenant, worker);
        },
        (Phase::Handling(item), ThreadEvent::Handled(_)) => {
            lemma_without(warm, item.tenant@);
        },
        _ => {},
    }
}

/// Whatever happens, every thread stays in order. So a request is handled by a
/// warm worker of its tenant, no thread keeps too many workers, and no tenant
/// has warm workers on two threads.
pub proof fn law_server_stays_orderly<W, R>(setup: Setup, run: Seq<Moment<W, R>>)
    requires
        possible(setup, run),
    ensures
        orderly(setup, server_after(setup, run)),
        setup.threads >= 1,
        setup.capacity >= 1,
    decreases run.len(),
{
    let state = server_after(setup, run);
    if run.len() == 0 {
        assert forall|i: int| 0 <= i < setup.threads implies in_order(
            setup,
            i,
            #[trigger] state.pools[i],
            state.phases[i],
        ) by {
            assert(state.pools[i] =~= Seq::<(Seq<char>, W)>::empty());
        }
    } else {
        law_server_stays_orderly(setup, run.drop_last());
        let before = server_after(setup, run.drop_last());
        lemma_thread_stays_in_order(setup, before, run.last());
        assert forall|i: int| 0 <= i < setup.threads implies in_order(
            setup,
            i,
            #[trigger] state.pools[i],
            state.phases[i],
        ) by {
            if i != run.last().thread {
                assert(in_order(setup, i, before.pools[i], before.phases[i]));
            }
        }
    }
}

/// Whether an entry is about a request of `tenant`.
pub open spec fn concerns<W, R>(entry: Entry<W, R>, tenant: Seq<char>) -> bool {
    entry.item is Some && entry.item->0.tenant@ == tenant
}

/// A request of `tenant` is taken in.
pub open spec fn takes<W, R>(tenant: Seq<char>) -> spec_fn(Entry<W, R>) -> bool {
    |entry: Entry<W, R>| concerns(entry, tenant) && entry.event is Received
}

/// A request of `tenant` finds a warm worker.
pub open spec fn finds_warm<W, R>(tenant: Seq<char>) -> spec_fn(Entry<W, R>) -> bool {
    |entry: Entry<W, R>|
        concerns(entry, tenant) && entry.event is Received && entry.deed is Handle
}

/// A worker of `tenant` was started.
pub open spec fn starts<W, R>(tenant: Seq<char>) -> spec_fn(Entry<W, R>) -> bool {
    |entry: Entry<W, R>| concerns(entry, tenant) && entry.event is Started && entry.deed is Handle
}

/// A request of `tenant` is answered without having been handled.
pub open spec fn refuses<W, R>(tenant: Seq<char>) -> spec_fn(Entry<W, R>) -> bool {
    |entry: Entry<W, R>| concerns(entry, tenant) && entry.deed is Reply && !(entry.event is Handled)
}

/// A request of `tenant` is answered with an error.
pub open spec fn errs<W, R>(tenant: Seq<char>) -> spec_fn(Entry<W, R>) -> bool {
    |entry: Entry<W, R>|
        concerns(entry, tenant) && entry.deed is Reply && entry.deed->result is Err
}

/// A request of `tenant` was handled and is answered with this error.
pub open spec fn ends_in<W, R>(tenant: Seq<char>, fault: Fault) -> spec_fn(Entry<W, R>) -> bool {
    |entry: Entry<W, R>|
        concerns(entry, tenant) && entry.event is Handled && entry.deed is Reply
            && entry.deed->result == Err::<ResponseView, Fault>(fault)
}

/// A worker of `tenant` has to leave.
pub open spec fn evicts<W, R>(tenant: Seq<char>) -> spec_fn(Entry<W, R>) -> bool {
    |entry: Entry<W, R>| entry.deed is Handle && name_of(entry.deed->evicted) == Some(tenant)
}

/// Whether a worker of `tenant` is being started.
pub open spec fn is_starting<R>(phase: Phase<R>, tenant: Seq<char>) -> bool {
    match phase {
        Phase::Starting(item) => item.tenant@ == tenant,
        _ => false,
    }
}

/// Whether the counters of `tenant` agree with the record.
pub open spec fn adds_up<W, R>(
    count: TenantMetrics,
    entries: Seq<Entry<W, R>>,
    tenant: Seq<char>,
) -> bool {
    &&& count.requests == tally(entries, takes(tenant))
    &&& count.warm_hits == tally(entries, finds_warm(tenant))
    &&& count.cold_starts == tally(entries, starts(tenant))
    &&& count.errors == tally(entries, errs(tenant))
    &&& count.evictions == tally(entries, evicts(tenant))
    &&& count.terminations_cpu == tally(entries, ends_in(tenant, Fault::CpuExceeded))
    &&& count.terminations_mem == tally(entries, ends_in(tenant, Fault::MemExceeded))
    &&& count.cold_start_ns_sum <= count.cold_starts * u64::MAX
}

proof fn lemma_bounds<W, R>(entries: Seq<Entry<W, R>>, tenant: Seq<char>)
    ensures
        tally(entries, takes(tenant)) <= entries.len(),
        tally(entries, finds_warm(tenant)) <= entries.len(),
        tally(entries, starts(tenant)) <= entries.len(),
        tally(entries, errs(tenant)) <= entries.len(),
        tally(entries, evicts(tenant)) <= entries.len(),
        tally(entries, ends_in(tenant, Fault::CpuExceeded)) <= entries.len(),
        tally(entries, ends_in(tenant, Fault::MemExceeded)) <= entries.len(),
{
    lemma_tally_bound(entries, takes(tenant));
    lemma_tally_bound(entries, finds_warm(tenant));
    lemma_tally_bound(entries, starts(tenant));
    lemma_tally_bound(entries, errs(tenant));
    lemma_tally_bound(entries, evicts(tenant));
    lemma_tally_bound(entries, ends_in(tenant, Fault::CpuExceeded));
    lemma_tally_bound(entries, ends_in(tenant, Fault::MemExceeded));
}

proof fn lemma_pushes<W, R>(entries: Seq<Entry<W, R>>, entry: Entry<W, R>, tenant: Seq<char>)
    ensures
        tally(entries.push(entry), takes(tenant)) == tally(entries, takes(tenant)) + if takes(
            tenant,
        )(entry) { 1nat } else { 0nat },
        tally(entries.push(entry), finds_warm(tenant)) == tally(entries, finds_warm(tenant))
            + if finds_warm(tenant)(entry) { 1nat } else { 0nat },
        tally(entries.push(entry), starts(tenant)) == tally(entries, starts(tenant)) + if starts(
            tenant,
        )(entry) { 1nat } else { 0nat },
        tally(entries.push(entry), refuses(tenant)) == tally(entries, refuses(tenant))
            + if refuses(tenant)(entry) { 1nat } else { 0nat },
        tally(entries.push(entry), errs(tenant)) == tally(entries, errs(tenant)) + if errs(
            tenant,
        )(entry) { 1nat } else { 0nat },
        tally(entries.push(entry), evicts(tenant)) == tally(entries, evicts(tenant)) + if evicts(
            tenant,
        )(entry) { 1nat } else { 0nat },
        tally(entries.push(entry), ends_in(tenant, Fault::CpuExceeded)) == tally(
            entries,
            ends_in(tenant, Fault::CpuExceeded),
        ) + if ends_in(tenant, Fault::CpuExceeded)(entry) { 1nat } else { 0nat },
        tally(entries.push(entry), ends_in(tenant, Fault::MemExceeded)) == tally(
            entries,
            ends_in(tenant, Fault::MemExceeded),
        ) + if ends_in(tenant, Fault::MemExceeded)(entry) { 1nat } else { 0nat },
{
    lemma_tally_push(entries, takes(tenant), entry);
    lemma_tally_push(entries, finds_warm(tenant), entry);
    lemma_tally_push(entries, starts(tenant), entry);
    lemma_tally_push(entries, refuses(tenant), entry);
    lemma_tally_push(entries, errs(tenant), entry);
    lemma_tally_push(entries, evicts(tenant), entry);
    lemma_tally_push(entries, ends_in(tenant, Fault::CpuExceeded), entry);
    lemma_tally_push(entries, ends_in(tenant, Fault::MemExceeded), entry);
}

/// The counters of every tenant agree with what happened, evictions and all.
/// The requests are those that were taken in; every one of them found a warm
/// worker, had one started or was refused, unless its worker is being started
/// right now; and the errors are the requests that were answered with one.
#[verifier::spinoff_prover]
#[verifier::rlimit(50)]
pub proof fn law_counters_add_up<W, R>(
    setup: Setup,
    run: Seq<Moment<W, R>>,
    tenant: Seq<char>,
)
    requires
        possible(setup, run),
        run.len() <= u64::MAX,
    ensures
        adds_up(
            counters(server_after(setup, run).metrics, tenant),
            record(setup, run),
            tenant,
        ),
        ({
            let count = counters(server_after(setup, run).metrics, tenant);
            let phase = server_after(setup, run).phases[home_thread(tenant, setup.threads)];
            count.requests == count.warm_hits + count.cold_starts + tally(
                record(setup, run),
                refuses(tenant),
            ) + if is_starting(phase, tenant) { 1int } else { 0int }
        }),
        record(setup, run).len() == run.len(),
    decreases run.len(),
{
    if run.len() > 0 {
        let earlier = run.drop_last();
        let moment = run.last();
        let before = server_after(setup, earlier);
        law_counters_add_up(setup, earlier, tenant);
        law_server_stays_orderly(setup, earlier);
        let entry = record(setup, run).last();
        lemma_bounds(record(setup, earlier), tenant);
        lemma_pushes(record(setup, earlier), entry, tenant);
        let phase = before.phases[moment.thread];
        assert(in_order(setup, moment.thread, before.pools[moment.thread], phase));
        lemma_same_names(moment.warm, before.pools[moment.thread]);
        let home = home_thread(tenant, setup.threads);
        assert(0 <= home < setup.threads);
        assert(in_order(setup, home, before.pools[home], before.phases[home]));
        let count = counters(before.metrics, tenant);
        assert((count.cold_starts + 1) * u64::MAX == count.cold_starts * u64::MAX + u64::MAX)
            by (nonlinear_arith);
        assert((count.cold_starts + 1) * u64::MAX <= u128::MAX) by (nonlinear_arith)
            requires
                count.cold_starts < u64::MAX,
        ;
    }
}

/// While fewer moments passed than a counter can count, every counter of every
/// tenant has room for one more event, so whatever comes next can be counted.
pub proof fn law_counters_have_room<W, R>(
    setup: Setup,
    run: Seq<Moment<W, R>>,
    next: Moment<W, R>,
)
    requires
        possible(setup, run),
        run.len() < u64::MAX,
    ensures
        forall|tenant: Seq<char>| #[trigger]
            counters(server_after(setup, run).metrics, tenant).room(),
        can_count(setup.capacity, thread_at(server_after(setup, run), next), next.event),
{
    let metrics = server_after(setup, run).metrics;
    assert forall|tenant: Seq<char>| #[trigger] counters(metrics, tenant).room() by {
        law_counters_add_up(setup, run, tenant);
        lemma_bounds(record(setup, run), tenant);
        let starts = counters(metrics, tenant).cold_starts;
        assert(starts * u64::MAX <= u128::MAX - u64::MAX) by (nonlinear_arith)
            requires
                starts < u64::MAX,
        ;
    }
}

/// Where the answers to the requests that the thread `index` took in go, in the
/// order in which they came.
pub open spec fn taken<W, R>(entries: Seq<Entry<W, R>>, index: int) -> Seq<R>
    decreases entries.len(),
{
    if entries.len() == 0 {
        Seq::empty()
    } else {
        let earlier = taken(entries.drop_last(), index);
        match entries.last().event {
            ThreadEvent::Received(Msg::Work(item)) if entries.last().thread == index =>
                earlier.push(item.reply),
            _ => earlier,
        }
    }
}

/// Where the answers of the thread `index` went, in the order in which it gave
/// them.
pub open spec fn answered<W, R>(entries: Seq<Entry<W, R>>, index: int) -> Seq<R>
    decreases entries.len(),
{
    if entries.len() == 0 {
        Seq::empty()
    } else {
        let earlier = answered(entries.drop_last(), index);
        match entries.last().deed {
            Deed::Reply { reply, .. } if entries.last().thread == index => earlier.push(reply),
            _ => earlier,
        }
    }
}

/// Every request that a thread takes in is answered exactly once, and in order:
/// at any time, only the request that the thread is busy with waits for its
/// answer.
pub proof fn law_every_request_is_answered_once<W, R>(
    setup: Setup,
    run: Seq<Moment<W, R>>,
    index: int,
)
    requires
        possible(setup, run),
        0 <= index < setup.threads,
    ensures
        taken(record(setup, run), index) == match server_after(setup, run).phases[index] {
            Phase::Starting(item) | Phase::Handling(item) => answered(
                record(setup, run),
                index,
            ).push(item.reply),
            Phase::Idle | Phase::Stopped => answered(record(setup, run), index),
        },
    decreases run.len(),
{
    if run.len() > 0 {
        law_every_request_is_answered_once(setup, run.drop_last(), index);
        law_server_stays_orderly(setup, run.drop_last());
        assert(record(setup, run).drop_last() =~= record(setup, run.drop_last()));
    }
}

/// A thread that is idle stops when it is told to or when no message can come
/// any more, and then nothing happens on it any more.
pub proof fn law_nothing_after_the_end<W, R>(
    setup: Setup,
    run: Seq<Moment<W, R>>,
    end: Moment<W, R>,
    moment: Moment<W, R>,
)
    requires
        possible(setup, run.push(end)),
        end.event == ThreadEvent::<W, R>::Received(Msg::Shutdown) || end.event is Closed,
        moment.thread == end.thread,
    ensures
        record(setup, run.push(end)).last().deed is Stop,
        server_after(setup, run.push(end)).phases[end.thread] is Stopped,
        !possible(setup, run.push(end).push(moment)),
{
    assert(run.push(end).drop_last() =~= run);
    assert(run.push(end).push(moment).drop_last() =~= run.push(end));
    law_server_stays_orderly(setup, run);
}

/// A request whose worker cannot be started is answered with the error of the
/// attempt; the warm workers stay as they were, one error is counted for its
/// tenant, and nothing for anyone else.
pub proof fn law_failed_starts_change_nothing<W, R>(
    capacity: nat,
    tenants: Tenants,
    state: ThreadState<W, R>,
    item: WorkItem<R>,
    error: WorkerError,
    other: Seq<char>,
)
    requires
        state.phase == Phase::Starting(item),
        other != item.tenant@,
    ensures
        ({
            let event = ThreadEvent::Started(Err::<(W, u64), WorkerError>(error));
            let (after, deed) = thread_next(capacity, tenants, state, event);
            let tenant = item.tenant@;
            &&& after.warm == state.warm
            &&& after.phase is Idle
            &&& counters(after.metrics, tenant) == failed(counters(state.metrics, tenant))
            &&& counters(after.metrics, other) == counters(state.metrics, other)
            &&& deed == Deed::<W, R>::Reply {
                reply: item.reply,
                result: Err(error@),
                discarded: None,
            }
        }),
{
}

/// A request of a tenant that nobody knows is answered with an error at once;
/// the warm workers stay as they were.
pub proof fn law_unknown_tenants_are_refused<W, R>(
    capacity: nat,
    tenants: Tenants,
    state: ThreadState<W, R>,
    item: WorkItem<R>,
)
    requires
        state.phase is Idle,
        !holds(state.warm, item.tenant@),
        tenants.spec(item.tenant@) is None,
    ensures
        ({
            let event = ThreadEvent::<W, R>::Received(Msg::Work(item));
            let (after, deed) = thread_next(capacity, tenants, state, event);
            let tenant = item.tenant@;
            &&& after.warm == state.warm
            &&& after.phase is Idle
            &&& counters(after.metrics, tenant) == failed(
                arrived(counters(state.metrics, tenant), false),
            )
            &&& deed == Deed::<W, R>::Reply {
                reply: item.reply,
                result: Err(Fault::Internal("unknown tenant: "@ + tenant)),
                discarded: None,
            }
        }),
{
}

/// A request that a thread takes in: a warm worker handles it, a known tenant
/// without one gets a worker from its own script, and an unknown tenant is told
/// so at once.
pub proof fn law_requests_are_taken_in<'a, W, R>(
    pool: &mut Pool<W>,
    metrics: &mut Metrics,
    tenants: &'a Tenants,
    item: WorkItem<R>,
    next: (Phase<R>, ThreadAction<'a, W, R>),
)
    requires
        old(pool).wf(),
        counters(old(metrics)@, item.tenant@).room(),
        call_ensures(
            thread_step::<W, R>,
            (pool, metrics, tenants, Phase::Idle, ThreadEvent::Received(Msg::Work(item))),
            next,
        ),
    ensures
        ({
            let tenant = item.tenant@;
            let warm = holds(old(pool)@, tenant);
            let known = tenants.spec(tenant) is Some;
            let before = counters(old(metrics)@, tenant);
            let after = counters(final(metrics)@, tenant);
            &&& warm ==> {
                &&& next.0 == Phase::Handling(item)
                &&& next.1 is Handle
                &&& next.1->evicted is None
                &&& holds(final(pool)@, tenant)
                &&& final(pool)@ == old(pool)@.remove(slot(old(pool)@, tenant)).push(
                    old(pool)@[slot(old(pool)@, tenant)],
                )
            }
            &&& !warm ==> final(pool)@ == old(pool)@
            &&& !warm && known ==> {
                &&& next.0 == Phase::Starting(item)
                &&& next.1 is Start
                &&& *(next.1->Start_0) == tenants.spec(tenant)->0
            }
            &&& !warm && !known ==> {
                &&& next.0 is Idle
                &&& next.1 is Reply
                &&& next.1->reply == item.reply
                &&& next.1->result is Err
                &&& next.1->result->Err_0 is Internal
                &&& next.1->result->Err_0->Internal_0@ == "unknown tenant: "@ + tenant
            }
            &&& after.requests == before.requests + 1
            &&& after.warm_hits == before.warm_hits + if warm { 1int } else { 0int }
            &&& after.errors == before.errors + if !warm && !known { 1int } else { 0int }
        }),
{
    let tenant = item.tenant@;
    let warm = old(pool)@;
    let deed = next.1@;
    if holds(warm, tenant) {
        lemma_without(warm, tenant);
        lemma_pushed(without(warm, tenant), tenant, warm[slot(warm, tenant)].1);
        assert(warm[slot(warm, tenant)].0 == tenant);
        assert(deed is Handle);
    } else if tenants.spec(tenant) is Some {
        assert(deed is Start);
    } else {
        assert(deed is Reply);
    }
}

/// What comes of a start: the new worker is put into the pool, as [`Pool::insert`]
/// does it, and handles the request that it was started for; or the error of the
/// start is the answer and all workers stay.
pub proof fn law_starts_are_taken_in<'a, W, R>(
    pool: &mut Pool<W>,
    metrics: &mut Metrics,
    tenants: &'a Tenants,
    item: WorkItem<R>,
    start: Result<(W, u64), WorkerError>,
    next: (Phase<R>, ThreadAction<'a, W, R>),
    same: &mut Pool<W>,
    tenant: String,
    evicted: Option<(String, W)>,
)
    requires
        old(pool).wf(),
        *old(same) == *old(pool),
        tenant@ == item.tenant@,
        start is Ok ==> call_ensures(
            Pool::<W>::insert,
            (same, tenant, (start->Ok_0).0),
            evicted,
        ),
        call_ensures(
            thread_step::<W, R>,
            (pool, metrics, tenants, Phase::Starting(item), ThreadEvent::Started(start)),
            next,
        ),
    ensures
        match start {
            Ok((worker, _)) => {
                &&& next.0 == Phase::Handling(item)
                &&& next.1 is Handle
                &&& holds(final(pool)@, item.tenant@)
                &&& final(pool)@[slot(final(pool)@, item.tenant@)].1 == worker
                &&& final(pool)@ == final(same)@
                &&& next.1->evicted is Some <==> evicted is Some
                &&& evicted is Some ==> (next.1->evicted->0).0@ == (evicted->0).0@
                &&& evicted is Some ==> (next.1->evicted->0).1 == (evicted->0).1
            },
            Err(error) => {
                &&& next.0 is Idle
                &&& next.1 is Reply
                &&& next.1->reply == item.reply
                &&& next.1->result is Err
                &&& next.1->result->Err_0@ == error@
                &&& final(pool)@ == old(pool)@
            },
        },
{
    let warm = old(pool)@;
    let deed = next.1@;
    match start {
        Ok((worker, _)) => {
            assert(deed is Handle);
            lemma_inserted(warm, old(pool).capacity(), item.tenant@, worker);
        },
        Err(_) => {
            assert(deed is Reply);
        },
    }
}

/// What a worker answers is the reply to the request that it handled, and to no
/// other one, unchanged. The worker is given up only if it exceeded its memory.
pub proof fn law_answers_are_replied<'a, W, R>(
    pool: &mut Pool<W>,
    metrics: &mut Metrics,
    tenants: &'a Tenants,
    item: WorkItem<R>,
    result: Result<WorkerResponse, WorkerError>,
    next: (Phase<R>, ThreadAction<'a, W, R>),
)
    requires
        old(pool).wf(),
        holds(old(pool)@, item.tenant@),
        call_ensures(
            thread_step::<W, R>,
            (pool, metrics, tenants, Phase::Handling(item), ThreadEvent::Handled(result)),
            next,
        ),
    ensures
        next.0 is Idle,
        next.1 is Reply,
        next.1->reply == item.reply,
        match result {
            Ok(response) => {
                &&& next.1->result is Ok
                &&& next.1->result->Ok_0.status == response.status
                &&& next.1->result->Ok_0.body@ == response.body@
                &&& next.1->result->Ok_0@.headers == response@.headers
            },
            Err(error) => {
                &&& next.1->result is Err
                &&& next.1->result->Err_0@ == error@
                &&& error is CpuExceeded ==> next.1->result->Err_0 is CpuExceeded
                &&& error is MemExceeded ==> next.1->result->Err_0 is MemExceeded
            },
        },
        next.1->discarded is Some <==> result is Err && result->Err_0 is MemExceeded,
        holds(final(pool)@, item.tenant@) <==> next.1->discarded is None,
        next.1->discarded is None ==> final(pool)@ == old(pool)@,
        next.1->discarded is Some ==> {
            let at = slot(old(pool)@, item.tenant@);
            final(pool)@ == old(pool)@.remove(at) && next.1->discarded->0 == old(pool)@[at].1
        },
{
    assert(next.1@ is Reply);
    lemma_without(old(pool)@, item.tenant@);
    if result is Ok {
        let given = next.1->result->Ok_0;
        assert(given@ == result->Ok_0@);
        assert(given@.status == given.status);
        assert(given@.body == given.body@);
    }
}

/// A thread stops when it is told to, and when no message can come any more.
pub proof fn law_threads_stop<'a, W, R>(
    pool: &mut Pool<W>,
    metrics: &mut Metrics,
    tenants: &'a Tenants,
    event: ThreadEvent<W, R>,
    next: (Phase<R>, ThreadAction<'a, W, R>),
)
    requires
        event is Closed || event == ThreadEvent::<W, R>::Received(Msg::Shutdown),
        call_ensures(
            thread_step::<W, R>,
            (pool, metrics, tenants, Phase::Idle, event),
            next,
        ),
    ensures
        next.0 is Stopped,
        next.1 is Stop,
        final(pool)@ == old(pool)@,
        final(metrics)@ == old(metrics)@,
{
    assert(next.1@ is Stop);
}

/// A step can be counted as long as no counter that it changes is full.
pub proof fn law_steps_have_room<W, R>(
    pool: Pool<W>,
    metrics: Metrics,
    phase: Phase<R>,
    event: ThreadEvent<W, R>,
    yes: bool,
)
    requires
        forall|tenant: Seq<char>| #[trigger]
            metrics@.contains_key(tenant) ==> {
                let count = metrics@[tenant];
                &&& count.requests < u64::MAX
                &&& count.errors < u64::MAX
                &&& count.cold_starts < u64::MAX
                &&& count.warm_hits < u64::MAX
                &&& count.evictions < u64::MAX
                &&& count.terminations_cpu < u64::MAX
                &&& count.terminations_mem < u64::MAX
                &&& count.cold_start_ns_sum <= u128::MAX - u64::MAX
            },
        call_ensures(step_has_room::<W, R>, (&pool, &metrics, &phase, &event), yes),
    ensures
        yes,
{
}

} // verus!
