use std::collections::hash_map::DefaultHasher;
use std::hash::{Hash, Hasher};
use std::path::PathBuf;

use toy_edge_worker::env::Env;
use toy_edge_worker::error::WorkerError;
use toy_edge_worker::http::HEADERS_ALWAYS_HELD;
use toy_edge_worker::metrics::{Metrics, TenantMetrics};
use toy_edge_worker::pool::Pool;
use toy_edge_worker::protocol::{WorkerRequest, WorkerResponse};
use toy_edge_worker::router::{Route, RouteTable, WorkerDef};
use toy_edge_worker::server::{
    after_start, assigned_thread, begin_request, collect_request, finished, http_response,
    invalid_response, is_sendable, metrics_response, plain_response, request_host, response_for,
    seal, target_of, thread_for_hash, AfterStart, Begin, Outcome, Target, TenantSpec, Tenants,
};

fn spec(source: &str) -> TenantSpec {
    TenantSpec {
        script_source: source.into(),
        script_url: "file:///w.js".into(),
        env: vec![("K".into(), "V".into())],
        wall_timeout: 3,
        cpu_budget: Some(2),
        heap_limit: Some(1),
    }
}

fn tenants(names: &[&str]) -> Tenants {
    Tenants::from_list(names.iter().map(|name| (name.to_string(), spec(name))).collect())
}

fn counts(metrics: &Metrics, tenant: &str) -> TenantMetrics {
    metrics.snapshot().into_iter().find(|entry| entry.0 == tenant).unwrap().1
}

fn ok() -> Result<WorkerResponse, WorkerError> {
    Ok(WorkerResponse { status: 200, headers: vec![], body: vec![] })
}

/// One request of a worker thread whose workers are numbers.
fn visit(
    pool: &mut Pool<u32>,
    metrics: &mut Metrics,
    known: &Tenants,
    tenant: &str,
    result: Result<WorkerResponse, WorkerError>,
) -> Option<String> {
    let mut gone = None;
    match begin_request(pool, metrics, known, tenant) {
        Begin::Handle => {}
        Begin::Start(spec) => {
            assert_eq!(spec.script_source, tenant);
            match after_start(pool, metrics, tenant, Ok((1, 1_000))) {
                AfterStart::Handle { evicted } => gone = evicted.map(|entry| entry.0),
                AfterStart::Refuse(error) => panic!("{error:?}"),
            }
        }
        Begin::Refuse(error) => panic!("{error:?}"),
    }
    assert_eq!(pool.get(tenant), Some(&mut 1));
    let discarded = finished(pool, metrics, tenant, &result);
    assert_eq!(discarded.is_some(), matches!(result, Err(WorkerError::MemExceeded)));
    gone
}

#[test]
fn host_is_read_from_its_header() {
    assert_eq!(request_host(Some(b"a.b:80")), "a.b:80");
    assert_eq!(request_host(Some(&[0xff])), "localhost");
    assert_eq!(request_host(Some(b"")), "");
    assert_eq!(request_host(None), "localhost");
}

#[test]
fn requests_have_targets() {
    let table = RouteTable::from_workers(&[WorkerDef {
        name: "api".into(),
        script: PathBuf::from("api.js"),
        route: Route { host: Some("admin".into()), path: Some("/api/".into()) },
        env: Env::new(),
    }]);
    assert_eq!(target_of(&table, "admin", "/__admin/metrics"), Target::Metrics);
    assert_eq!(target_of(&table, "admin", "/__admin/metrics/"), Target::Tenant("api".into()));
    assert_eq!(target_of(&table, "h", "/api/x"), Target::Tenant("api".into()));
    assert_eq!(
        target_of(&table, "h:1", "/x"),
        Target::Nobody(WorkerResponse {
            status: 404,
            headers: vec![("content-type".into(), "text/plain; charset=utf-8".into())],
            body: b"no worker matched host=h:1 path=/x\n".to_vec(),
        })
    );
}

#[test]
fn plain_text_is_one_line() {
    assert_eq!(
        plain_response(400, "bad \u{e9}"),
        WorkerResponse {
            status: 400,
            headers: vec![("content-type".into(), "text/plain; charset=utf-8".into())],
            body: "bad \u{e9}\n".as_bytes().to_vec(),
        }
    );
    assert_eq!(
        metrics_response("{}"),
        WorkerResponse {
            status: 200,
            headers: vec![("content-type".into(), "application/json".into())],
            body: b"{}".to_vec(),
        }
    );
}

#[test]
fn request_is_collected() {
    let headers = vec![
        ("a".to_string(), b"1".to_vec()),
        ("b".to_string(), vec![0x80]),
        ("c".to_string(), b"3 \t".to_vec()),
    ];
    assert_eq!(
        collect_request("PUT".into(), "h:8", Some("/p?q=1"), &headers, vec![9]),
        WorkerRequest {
            method: "PUT".into(),
            url: "http://h:8/p?q=1".into(),
            headers: vec![("a".into(), "1".into()), ("c".into(), "3 \t".into())],
            body: vec![9],
        }
    );
    assert_eq!(collect_request("GET".into(), "h", None, &vec![], vec![]).url, "http://h/");
}

#[test]
fn tenant_stays_on_its_thread() {
    for tenant in ["hello", "echo", "", "\u{65e5}"] {
        for threads in 1..9usize {
            let mut hasher = DefaultHasher::new();
            tenant.to_string().hash(&mut hasher);
            let index = assigned_thread(tenant, threads);
            assert_eq!(index, (hasher.finish() % threads as u64) as usize);
            assert_eq!(index, assigned_thread(tenant, threads));
        }
    }
    assert_eq!(thread_for_hash(u64::MAX, 4), 3);
    assert_eq!(thread_for_hash(10, 4), 2);
}

#[test]
fn outcomes_have_answers() {
    let text = |outcome| {
        let response = http_response(outcome);
        (response.status, String::from_utf8(response.body).unwrap())
    };
    assert_eq!(
        text(Outcome::Unreadable("connection reset".into())),
        (400, "connection reset\n".into())
    );
    assert_eq!(text(Outcome::ThreadGone), (500, "worker thread is gone\n".into()));
    assert_eq!(text(Outcome::Dropped), (500, "worker dropped the request\n".into()));
    assert_eq!(
        text(Outcome::Answered(Err(WorkerError::CpuExceeded))),
        (503, "worker exceeded CPU time limit\n".into())
    );
    assert_eq!(
        text(Outcome::Answered(Err(WorkerError::Script("boom".into())))),
        (500, "script error: boom\n".into())
    );
    let response = WorkerResponse {
        status: 299,
        headers: vec![("X-Y".into(), "v\u{e9}\t".into())],
        body: vec![1],
    };
    assert_eq!(http_response(Outcome::Answered(Ok(response.clone()))), response);
}

#[test]
fn only_valid_responses_are_sent() {
    let response = |status: u16, name: &str, value: &str| WorkerResponse {
        status,
        headers: vec![("ok".into(), "ok".into()), (name.into(), value.into())],
        body: vec![],
    };
    for good in [
        response(100, "a", ""),
        response(999, "!#$%&'*+-.^_`|~0Az", " ~\t\u{80}\u{1f600}"),
        response(200, &"n".repeat(65_535), "v"),
    ] {
        assert!(is_sendable(&good));
    }
    for bad in [
        response(99, "a", "b"),
        response(1000, "a", "b"),
        response(0, "a", "b"),
        response(200, "", "b"),
        response(200, "a b", "b"),
        response(200, "a:", "b"),
        response(200, "\u{e9}", "b"),
        response(200, &"n".repeat(65_536), "b"),
        response(200, "a", "b\n"),
        response(200, "a", "\u{7f}"),
        response(200, "a", "\0"),
    ] {
        assert!(!is_sendable(&bad));
        assert_eq!(http_response(Outcome::Answered(Ok(bad))), invalid_response());
    }
}

#[test]
fn too_many_headers_are_not_sent() {
    let response = |count: usize| WorkerResponse {
        status: 200,
        headers: (0..count).map(|i| (format!("H{i}"), "v".to_string())).collect(),
        body: vec![1],
    };
    let many = response(HEADERS_ALWAYS_HELD);
    assert!(is_sendable(&many));
    assert_eq!(http_response(Outcome::Answered(Ok(many.clone()))), many);
    let too_many = response(24_577);
    assert!(!is_sendable(&too_many));
    assert_eq!(http_response(Outcome::Answered(Ok(too_many))), invalid_response());
}

#[test]
fn sealing_keeps_status_and_headers() {
    let response = WorkerResponse {
        status: 201,
        headers: vec![
            ("Set-Cookie".into(), "a=1".into()),
            ("X-Y".into(), "\u{e9}".into()),
            ("set-cookie".into(), "b=2".into()),
        ],
        body: vec![],
    };
    let sealed = seal(&response).unwrap().body(()).unwrap();
    assert_eq!(sealed.status().as_u16(), 201);
    assert_eq!(sealed.headers().len(), 3);
    let cookies: Vec<&[u8]> =
        sealed.headers().get_all("set-cookie").iter().map(|value| value.as_bytes()).collect();
    assert_eq!(cookies, vec![b"a=1", b"b=2"]);
    assert_eq!(sealed.headers().get("x-y").unwrap().as_bytes(), "\u{e9}".as_bytes());
}

#[test]
fn answer_depends_on_whether_it_can_be_sent() {
    let good = WorkerResponse { status: 200, headers: vec![], body: vec![7] };
    let answer = |sealed: bool| response_for(Outcome::Answered(Ok(good.clone())), sealed);
    assert_eq!(answer(true), good);
    assert_eq!(answer(false), invalid_response());
    assert_eq!(
        response_for(Outcome::Unreadable("bad".into()), false),
        plain_response(400, "bad")
    );
    assert_eq!(
        response_for(Outcome::ThreadGone, true),
        plain_response(500, "worker thread is gone")
    );
    assert_eq!(
        response_for(Outcome::Answered(Err(WorkerError::Script("x".into()))), true),
        plain_response(500, "script error: x")
    );
}

#[test]
fn every_answer_can_be_sent() {
    let bad = WorkerResponse { status: 7, headers: vec![], body: vec![] };
    for outcome in [
        Outcome::Unreadable("line\nbreak".into()),
        Outcome::ThreadGone,
        Outcome::Dropped,
        Outcome::Answered(ok()),
        Outcome::Answered(Ok(bad)),
        Outcome::Answered(Err(WorkerError::Script("line\nbreak".into()))),
        Outcome::Answered(Err(WorkerError::Terminated)),
    ] {
        assert!(is_sendable(&http_response(outcome)));
    }
}

#[test]
fn header_rules_are_those_of_http() {
    for byte in 0..128u8 {
        let text = (byte as char).to_string();
        let by_name = WorkerResponse {
            status: 200,
            headers: vec![(text.clone(), "".into())],
            body: vec![],
        };
        let token = byte.is_ascii_alphanumeric() || b"!#$%&'*+-.^_`|~".contains(&byte);
        assert_eq!(is_sendable(&by_name), token);
        let by_value = WorkerResponse {
            status: 200,
            headers: vec![("a".into(), text)],
            body: vec![],
        };
        assert_eq!(is_sendable(&by_value), byte == 9 || (byte >= 32 && byte != 127));
    }
}

#[test]
fn tenants_are_known_by_name() {
    let known = Tenants::from_list(vec![
        ("a".into(), spec("1")),
        ("b".into(), spec("2")),
        ("a".into(), spec("3")),
    ]);
    assert_eq!(known.get("a"), Some(&spec("3")));
    assert_eq!(known.cold_start_spec("b"), Ok(&spec("2")));
    assert_eq!(
        known.cold_start_spec("c"),
        Err(WorkerError::Internal("unknown tenant: c".into()))
    );
    let config = spec("1").worker_config();
    assert_eq!(config.env, vec![("K".to_string(), "V".to_string())]);
    assert_eq!((config.wall_timeout, config.cpu_budget, config.heap_limit), (3, Some(2), Some(1)));
    assert!(config.fetch_available);
}

#[test]
fn least_recently_used_worker_is_evicted() {
    let mut pool = Pool::new(2);
    let mut metrics = Metrics::default();
    let known = tenants(&["hello", "echo", "third"]);
    let mut go = |tenant: &str| visit(&mut pool, &mut metrics, &known, tenant, ok());
    assert_eq!(go("hello"), None);
    assert_eq!(go("echo"), None);
    assert_eq!(go("hello"), None);
    assert_eq!(go("third"), Some("echo".into()));
    assert_eq!(go("echo"), Some("hello".into()));
    let hello = counts(&metrics, "hello");
    assert_eq!((hello.requests, hello.cold_starts, hello.warm_hits, hello.evictions), (2, 1, 1, 1));
    let echo = counts(&metrics, "echo");
    assert_eq!((echo.requests, echo.cold_starts, echo.warm_hits, echo.evictions), (2, 2, 0, 1));
    assert_eq!(echo.cold_start_ns_sum, 2_000);
}

#[test]
fn cpu_limit_keeps_the_worker() {
    let mut pool = Pool::new(2);
    let mut metrics = Metrics::default();
    let known = tenants(&["loop"]);
    for _ in 0..2 {
        visit(&mut pool, &mut metrics, &known, "loop", Err(WorkerError::CpuExceeded));
    }
    let loops = counts(&metrics, "loop");
    assert_eq!((loops.requests, loops.cold_starts, loops.warm_hits), (2, 1, 1));
    assert_eq!((loops.errors, loops.terminations_cpu, loops.terminations_mem), (2, 2, 0));
}

#[test]
fn memory_limit_discards_the_worker() {
    let mut pool = Pool::new(2);
    let mut metrics = Metrics::default();
    let known = tenants(&["membomb", "other"]);
    visit(&mut pool, &mut metrics, &known, "other", ok());
    for _ in 0..2 {
        visit(&mut pool, &mut metrics, &known, "membomb", Err(WorkerError::MemExceeded));
    }
    let bomb = counts(&metrics, "membomb");
    assert_eq!((bomb.requests, bomb.cold_starts, bomb.warm_hits), (2, 2, 0));
    assert_eq!((bomb.errors, bomb.terminations_cpu, bomb.terminations_mem), (2, 0, 2));
    assert!(pool.get("other").is_some());
}

#[test]
fn counters_add_up() {
    let mut pool = Pool::new(1);
    let mut metrics = Metrics::default();
    let known = tenants(&["a"]);
    visit(&mut pool, &mut metrics, &known, "a", ok());
    visit(&mut pool, &mut metrics, &known, "a", Err(WorkerError::Hung));
    visit(&mut pool, &mut metrics, &known, "a", Err(WorkerError::MemExceeded));
    assert!(matches!(
        begin_request(&mut pool, &mut metrics, &known, "a"),
        Begin::Start(_)
    ));
    assert!(matches!(
        after_start(&mut pool, &mut metrics, "a", Err(WorkerError::Terminated)),
        AfterStart::Refuse(WorkerError::Terminated)
    ));
    let a = counts(&metrics, "a");
    assert_eq!((a.requests, a.warm_hits, a.cold_starts, a.errors), (4, 2, 1, 3));
    assert!(pool.is_empty());
}

#[test]
fn unknown_tenant_is_refused() {
    let mut pool: Pool<u32> = Pool::new(1);
    let mut metrics = Metrics::default();
    let known = tenants(&["a"]);
    assert_eq!(
        begin_request(&mut pool, &mut metrics, &known, "b"),
        Begin::Refuse(WorkerError::Internal("unknown tenant: b".into()))
    );
    let b = counts(&metrics, "b");
    assert_eq!((b.requests, b.errors, b.cold_starts, b.warm_hits), (1, 1, 0, 0));
}
