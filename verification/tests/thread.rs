use toy_edge_worker::error::WorkerError;
use toy_edge_worker::metrics::{Metrics, TenantMetrics};
use toy_edge_worker::pool::Pool;
use toy_edge_worker::protocol::{WorkerRequest, WorkerResponse};
use toy_edge_worker::server::{Msg, TenantSpec, Tenants, WorkItem};
use toy_edge_worker::thread::{step_has_room, thread_step, Phase, ThreadAction, ThreadEvent};

type Answer = Result<WorkerResponse, WorkerError>;

fn spec(source: &str) -> TenantSpec {
    TenantSpec {
        script_source: source.into(),
        script_url: "u".into(),
        env: vec![],
        wall_timeout: 1,
        cpu_budget: None,
        heap_limit: None,
    }
}

fn request(path: &str) -> WorkerRequest {
    WorkerRequest { method: "GET".into(), url: path.into(), headers: vec![], body: vec![] }
}

fn response(status: u16) -> WorkerResponse {
    WorkerResponse { status, headers: vec![], body: vec![] }
}

fn work(tenant: &str, reply: u32) -> ThreadEvent<&'static str, u32> {
    let item = WorkItem { tenant: tenant.into(), request: request("/"), reply };
    ThreadEvent::Received(Msg::Work(item))
}

/// A thread whose workers are names and whose replies are numbers.
struct Thread {
    pool: Pool<&'static str>,
    metrics: Metrics,
    tenants: Tenants,
    phase: Phase<u32>,
}

impl Thread {
    fn new(capacity: usize, tenants: &[&str]) -> Thread {
        let list = tenants.iter().map(|name| (name.to_string(), spec(name))).collect();
        Thread {
            pool: Pool::new(capacity),
            metrics: Metrics::default(),
            tenants: Tenants::from_list(list),
            phase: Phase::Idle,
        }
    }

    fn tell(
        &mut self,
        event: ThreadEvent<&'static str, u32>,
    ) -> ThreadAction<'_, &'static str, u32> {
        let phase = std::mem::replace(&mut self.phase, Phase::Idle);
        let (phase, action) =
            thread_step(&mut self.pool, &mut self.metrics, &self.tenants, phase, event);
        self.phase = phase;
        action
    }

    fn has_room(&self, event: ThreadEvent<&'static str, u32>) -> bool {
        step_has_room(&self.pool, &self.metrics, &self.phase, &event)
    }

    /// Takes a request all the way to its reply.
    fn go(&mut self, tenant: &str, reply: u32, end: Answer) -> Option<String> {
        let mut gone = None;
        let mut handle = matches!(self.tell(work(tenant, reply)), ThreadAction::Handle { .. });
        if !handle {
            match self.tell(ThreadEvent::Started(Ok(("w", 10)))) {
                ThreadAction::Handle { evicted } => {
                    gone = evicted.map(|entry| entry.0);
                    handle = true;
                }
                other => panic!("{other:?}"),
            }
        }
        assert!(handle && matches!(self.phase, Phase::Handling(_)));
        match self.tell(ThreadEvent::Handled(end)) {
            ThreadAction::Reply { reply: to, .. } => assert_eq!(to, reply),
            other => panic!("{other:?}"),
        }
        gone
    }

    fn counts(&self, tenant: &str) -> TenantMetrics {
        let list = self.metrics.snapshot();
        list.into_iter().find(|entry| entry.0 == tenant).unwrap().1
    }
}

#[test]
fn request_is_started_handled_and_answered() {
    let mut thread = Thread::new(2, &["a"]);
    assert_eq!(thread.tell(work("a", 7)), ThreadAction::Start(&spec("a")));
    assert_eq!(
        thread.tell(ThreadEvent::Started(Ok(("w", 10)))),
        ThreadAction::Handle { evicted: None }
    );
    assert_eq!(
        thread.phase,
        Phase::Handling(WorkItem { tenant: "a".into(), request: request("/"), reply: 7 })
    );
    assert_eq!(thread.pool.get("a"), Some(&mut "w"));
    assert_eq!(
        thread.tell(ThreadEvent::Handled(Ok(response(204)))),
        ThreadAction::Reply { reply: 7, result: Ok(response(204)), discarded: None }
    );
    assert_eq!(thread.phase, Phase::Idle);
    // The worker is warm now.
    assert_eq!(thread.tell(work("a", 8)), ThreadAction::Handle { evicted: None });
}

#[test]
fn failed_start_is_answered_with_its_error() {
    let mut thread = Thread::new(1, &["a", "b"]);
    thread.go("a", 1, Ok(response(200)));
    assert_eq!(thread.tell(work("b", 2)), ThreadAction::Start(&spec("b")));
    assert_eq!(
        thread.tell(ThreadEvent::Started(Err(WorkerError::Script("bad".into())))),
        ThreadAction::Reply {
            reply: 2,
            result: Err(WorkerError::Script("bad".into())),
            discarded: None
        }
    );
    assert_eq!(thread.phase, Phase::Idle);
    // Nobody had to leave for it.
    assert_eq!(thread.pool.get("a"), Some(&mut "w"));
    let b = thread.counts("b");
    assert_eq!((b.requests, b.errors, b.cold_starts, b.warm_hits), (1, 1, 0, 0));
    assert_eq!(thread.counts("a").evictions, 0);
}

#[test]
fn unknown_tenant_is_answered_at_once() {
    let mut thread = Thread::new(1, &["a"]);
    assert_eq!(
        thread.tell(work("x", 3)),
        ThreadAction::Reply {
            reply: 3,
            result: Err(WorkerError::Internal("unknown tenant: x".into())),
            discarded: None
        }
    );
    assert_eq!(thread.phase, Phase::Idle);
}

#[test]
fn exceeded_memory_costs_the_worker() {
    let mut thread = Thread::new(1, &["a"]);
    thread.tell(work("a", 1));
    thread.tell(ThreadEvent::Started(Ok(("w", 10))));
    assert_eq!(
        thread.tell(ThreadEvent::Handled(Err(WorkerError::MemExceeded))),
        ThreadAction::Reply {
            reply: 1,
            result: Err(WorkerError::MemExceeded),
            discarded: Some("w")
        }
    );
    assert!(thread.pool.is_empty());
}

#[test]
fn counters_add_up_over_evictions() {
    let mut thread = Thread::new(1, &["a", "b"]);
    assert_eq!(thread.go("a", 1, Ok(response(200))), None);
    assert_eq!(thread.go("b", 2, Ok(response(200))), Some("a".into()));
    assert_eq!(thread.go("b", 3, Err(WorkerError::CpuExceeded)), None);
    assert_eq!(thread.go("a", 4, Err(WorkerError::MemExceeded)), Some("b".into()));
    assert_eq!(thread.go("a", 5, Ok(response(200))), None);
    let a = thread.counts("a");
    assert_eq!((a.requests, a.cold_starts, a.warm_hits, a.evictions), (3, 3, 0, 1));
    assert_eq!((a.errors, a.terminations_cpu, a.terminations_mem), (1, 0, 1));
    let b = thread.counts("b");
    assert_eq!((b.requests, b.cold_starts, b.warm_hits, b.evictions), (2, 1, 1, 1));
    assert_eq!((b.errors, b.terminations_cpu, b.terminations_mem), (1, 1, 0));
}

#[test]
fn idle_thread_stops_when_told_to() {
    let mut thread = Thread::new(1, &[]);
    assert_eq!(thread.tell(ThreadEvent::Received(Msg::Shutdown)), ThreadAction::Stop);
    assert_eq!(thread.phase, Phase::Stopped);
    let mut thread = Thread::new(1, &[]);
    assert_eq!(thread.tell(ThreadEvent::Closed), ThreadAction::Stop);
    assert_eq!(thread.phase, Phase::Stopped);
}

#[test]
fn only_the_counters_of_a_step_need_room() {
    let mut thread = Thread::new(1, &["a", "b", "c"]);
    thread.go("a", 1, Ok(response(200)));
    thread.metrics.entry("c").requests = u64::MAX;
    assert!(!thread.has_room(work("c", 2)));
    // What is full for one tenant does no harm to another one.
    assert!(thread.has_room(work("b", 2)));
    assert!(thread.has_room(ThreadEvent::Closed));
    assert_eq!(thread.tell(work("b", 2)), ThreadAction::Start(&spec("b")));
    // The worker of `a` has to leave for that of `b`.
    thread.metrics.entry("a").evictions = u64::MAX;
    assert!(!thread.has_room(ThreadEvent::Started(Ok(("w", 10)))));
    assert!(thread.has_room(ThreadEvent::Started(Err(WorkerError::Hung))));
    thread.metrics.entry("a").evictions = u64::MAX - 1;
    assert!(thread.has_room(ThreadEvent::Started(Ok(("w", 10)))));
    assert_eq!(
        thread.tell(ThreadEvent::Started(Ok(("w", 10)))),
        ThreadAction::Handle { evicted: Some(("a".into(), "w")) }
    );
    assert!(thread.has_room(ThreadEvent::Handled(Ok(response(200)))));
    assert_eq!(thread.counts("a").evictions, u64::MAX);
}
