use std::path::PathBuf;

use toy_edge_worker::env::Env;
use toy_edge_worker::options::{
    build_serve_options, heap_limit_fits, invocation, listen_address, located, parse_env,
    parse_headers, plan_config, plan_script, request_with_method, show_parts, show_response,
    tenant_spec, thread_count, ServePlan,
};
use toy_edge_worker::protocol::{WorkerRequest, WorkerResponse};
use toy_edge_worker::router::{Config, Limits, Route, ServerConfig, WorkerDef};
use toy_edge_worker::server::TenantSpec;

fn texts(list: &[&str]) -> Vec<String> {
    list.iter().map(|text| text.to_string()).collect()
}

fn pairs(list: &[(&str, &str)]) -> Vec<(String, String)> {
    list.iter().map(|(k, v)| (k.to_string(), v.to_string())).collect()
}

fn def(name: &str, path: &str) -> WorkerDef {
    WorkerDef {
        name: name.into(),
        script: PathBuf::from("w.js"),
        route: Route { host: None, path: Some(path.into()) },
        env: Env::from_pairs(pairs(&[("B", "2"), ("A", "1")])),
    }
}

#[test]
fn variables_are_cut_at_the_first_equals_sign() {
    assert_eq!(
        parse_env(&texts(&["A=1", "B=x=y", "=", "C= z "])),
        Ok(pairs(&[("A", "1"), ("B", "x=y"), ("", ""), ("C", " z ")]))
    );
    assert_eq!(parse_env(&[]), Ok(vec![]));
    assert_eq!(
        parse_env(&texts(&["A=1", "B", "C"])),
        Err("invalid --env (expected KEY=VALUE): B".into())
    );
}

#[test]
fn headers_are_cut_at_the_first_colon_and_trimmed() {
    assert_eq!(
        parse_headers(&texts(&["Content-Type: text/plain", " a :b: c\t", ":"])),
        Ok(pairs(&[("Content-Type", "text/plain"), ("a", "b: c"), ("", "")]))
    );
    assert_eq!(
        parse_headers(&texts(&["a: b", "nothing"])),
        Err("invalid --header (expected 'key: value'): nothing".into())
    );
}

#[test]
fn invocation_makes_a_request() {
    assert_eq!(
        invocation("post".into(), "/echo".into(), Some("h\u{e9}".into()), pairs(&[("a", "b")])),
        WorkerRequest {
            method: "POST".into(),
            url: "http://localhost/echo".into(),
            headers: pairs(&[("a", "b")]),
            body: "h\u{e9}".as_bytes().to_vec(),
        }
    );
    let request = invocation("stra\u{df}e".into(), "https://x/y".into(), None, vec![]);
    assert_eq!(request.method, "STRASSE");
    assert_eq!(request.url, "https://x/y");
    assert!(request.body.is_empty());
    let request = request_with_method("get".into(), "".into(), None, vec![]);
    assert_eq!(request.method, "get");
    assert_eq!(request.url, "");
}

#[test]
fn response_is_shown() {
    let response = WorkerResponse {
        status: 201,
        headers: pairs(&[("content-type", "text/plain"), ("x", "")]),
        body: vec![b'a', 0xff],
    };
    assert_eq!(
        show_response(&response),
        "HTTP 201\ncontent-type: text/plain\nx: \n\na\u{fffd}\n"
    );
    let empty = WorkerResponse { status: 0, headers: vec![], body: vec![] };
    assert_eq!(show_response(&empty), "HTTP 0\n\n\n");
    assert_eq!(show_parts(&empty, "text"), "HTTP 0\n\ntext\n");
}

#[test]
fn single_script_is_planned() {
    let plan = plan_script(PathBuf::from("a.js"), &texts(&["K=1", "K=2"])).unwrap();
    assert_eq!(plan.listen, "127.0.0.1:8787");
    assert_eq!(plan.worker_threads, 1);
    assert_eq!(plan.limits, Limits::default());
    assert_eq!(plan.workers.len(), 1);
    assert_eq!(plan.workers[0].name, "default");
    assert_eq!(plan.workers[0].script, PathBuf::from("a.js"));
    assert_eq!(plan.workers[0].route.host, None);
    assert_eq!(plan.workers[0].route.path.as_deref(), Some("/"));
    assert_eq!(plan.workers[0].env.get("K"), Some("2"));
    let options = build_serve_options(
        plan,
        vec![TenantSpec {
            script_source: "s".into(),
            script_url: "u".into(),
            env: vec![],
            wall_timeout: 1,
            cpu_budget: None,
            heap_limit: None,
        }],
        7,
    );
    assert_eq!(options.route_table.resolve("any.host", "/x/y"), Some("default"));
    assert_eq!(options.isolates_per_thread, 16);
    assert_eq!(options.tenants.get("default").unwrap().script_source, "s");
    assert_eq!(
        plan_script(PathBuf::from("a.js"), &texts(&["K"])).unwrap_err(),
        "invalid --env (expected KEY=VALUE): K"
    );
}

#[test]
fn configuration_is_planned() {
    let limits = Limits { cpu_ms: 50, heap_mb: 2, isolates_max: 9, wall_timeout_ms: 10 };
    let config = Config {
        server: ServerConfig { listen: "l".into(), worker_threads: 4 },
        limits,
        workers: vec![def("a", "/a"), def("b", "/b"), def("a", "/c")],
    };
    let plan = plan_config(config);
    assert_eq!(plan.listen, "l");
    let specs: Vec<TenantSpec> = plan
        .workers
        .iter()
        .enumerate()
        .map(|(i, def)| tenant_spec(def, &plan.limits, format!("source {i}"), format!("url {i}")))
        .collect();
    assert_eq!(
        specs[0],
        TenantSpec {
            script_source: "source 0".into(),
            script_url: "url 0".into(),
            env: pairs(&[("A", "1"), ("B", "2")]),
            wall_timeout: 10_000_000,
            cpu_budget: Some(50_000_000),
            heap_limit: Some(2 * 1024 * 1024),
        }
    );
    let options = build_serve_options(plan, specs, "address");
    assert_eq!(options.listen, "address");
    assert_eq!(options.worker_threads, 4);
    assert_eq!(options.isolates_per_thread, 2);
    assert_eq!(options.route_table.resolve("h", "/c"), Some("a"));
    // A tenant that is given twice counts as given last, and every routed tenant is known.
    assert_eq!(options.tenants.get("a").unwrap().script_source, "source 2");
    assert_eq!(options.tenants.get("b").unwrap().script_url, "url 1");
    assert!(options.tenants.get("c").is_none());
}

#[test]
fn isolates_are_shared_among_threads() {
    let share = |isolates_max: usize, worker_threads: usize| {
        let plan = ServePlan {
            listen: "".into(),
            worker_threads,
            limits: Limits { isolates_max, ..Limits::default() },
            workers: vec![],
        };
        build_serve_options(plan, vec![], ()).isolates_per_thread
    };
    assert_eq!(share(16, 4), 4);
    assert_eq!(share(7, 2), 3);
    assert_eq!(share(3, 4), 1);
    assert_eq!(share(0, 4), 1);
    assert_eq!(share(5, 0), 5);
    for (isolates_max, threads) in [(16, 4), (7, 2), (4, 4), (100, 7)] {
        assert!(share(isolates_max, threads) * threads <= isolates_max);
    }
    assert_eq!(thread_count(0), 1);
    assert_eq!(thread_count(3), 3);
}

#[test]
fn scripts_are_found_relative_to_the_configuration() {
    let joined = PathBuf::from("base/w.js");
    assert_eq!(located(def("a", "/"), true, joined.clone()).script, joined);
    let found = located(def("a", "/"), false, joined);
    assert_eq!(found.script, PathBuf::from("w.js"));
    assert_eq!(found.name, "a");
}

#[test]
fn listen_address_is_chosen() {
    assert_eq!(listen_address(Some(1), "x", Some(2)), Ok(1));
    assert_eq!(listen_address(None, "x", Some(2)), Ok(2));
    assert_eq!(
        listen_address::<u8>(None, "x:y", None),
        Err("invalid listen address: x:y".into())
    );
}

#[test]
fn huge_heaps_do_not_fit() {
    let limits = |heap_mb: usize| Limits { heap_mb, ..Limits::default() };
    assert!(heap_limit_fits(&limits(64)));
    assert!(heap_limit_fits(&limits(usize::MAX / 1024 / 1024)));
    assert!(!heap_limit_fits(&limits(usize::MAX / 1024 / 1024 + 1)));
}
