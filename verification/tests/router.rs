use std::path::PathBuf;

use toy_edge_worker::env::Env;
use toy_edge_worker::router::{Config, Limits, Route, RouteTable, WorkerDef, WrittenConfig};

fn def(name: &str, host: Option<&str>, path: Option<&str>) -> WorkerDef {
    WorkerDef {
        name: name.into(),
        script: PathBuf::from(format!("{name}.js")),
        route: Route {
            host: host.map(Into::into),
            path: path.map(Into::into),
        },
        env: Env::new(),
    }
}

#[test]
fn host_exact_match_wins() {
    let table = RouteTable::from_workers(&[
        def("hello", Some("hello.localhost"), None),
        def("echo", None, Some("/")),
    ]);
    assert_eq!(table.resolve("hello.localhost", "/anything"), Some("hello"));
    assert_eq!(table.resolve("hello.localhost:8787", "/x"), Some("hello"));
    assert_eq!(table.resolve("other.localhost", "/x"), Some("echo"));
}

#[test]
fn path_longest_prefix() {
    let table = RouteTable::from_workers(&[
        def("api", None, Some("/api/")),
        def("api-v2", None, Some("/api/v2/")),
        def("root", None, Some("/")),
    ]);
    assert_eq!(table.resolve("localhost", "/api/v2/users"), Some("api-v2"));
    assert_eq!(table.resolve("localhost", "/api/users"), Some("api"));
    assert_eq!(table.resolve("localhost", "/top"), Some("root"));
}

#[test]
fn no_match_is_none() {
    let table = RouteTable::from_workers(&[def("api", None, Some("/api/"))]);
    assert_eq!(table.resolve("localhost", "/other"), None);
}

fn text(value: Option<&toml::Value>) -> Option<String> {
    value.and_then(|v| v.as_str()).map(String::from)
}

fn number(table: &toml::Table, section: &str, key: &str) -> Option<u64> {
    table.get(section).and_then(|s| s.get(key)).and_then(|v| v.as_integer()).map(|n| n as u64)
}

fn written(source: &str) -> WrittenConfig {
    let table: toml::Table = source.parse().unwrap();
    let workers = match table.get("workers").and_then(|v| v.as_array()) {
        Some(list) => list
            .iter()
            .map(|worker| {
                let route = worker.get("route").unwrap();
                let mut env = Env::new();
                if let Some(variables) = worker.get("env").and_then(|v| v.as_table()) {
                    for (key, value) in variables {
                        env.insert(key.clone(), value.as_str().unwrap().into());
                    }
                }
                WorkerDef {
                    name: text(worker.get("name")).unwrap(),
                    script: PathBuf::from(text(worker.get("script")).unwrap()),
                    route: Route { host: text(route.get("host")), path: text(route.get("path")) },
                    env,
                }
            })
            .collect(),
        None => Vec::new(),
    };
    WrittenConfig {
        listen: text(table.get("server").and_then(|s| s.get("listen"))),
        worker_threads: number(&table, "server", "worker_threads").map(|n| n as usize),
        cpu_ms: number(&table, "limits", "cpu_ms"),
        heap_mb: number(&table, "limits", "heap_mb").map(|n| n as usize),
        isolates_max: number(&table, "limits", "isolates_max").map(|n| n as usize),
        wall_timeout_ms: number(&table, "limits", "wall_timeout_ms"),
        workers,
    }
}

#[test]
fn parse_config() {
    let config = Config::with_defaults(written(
        r#"
            [server]
            listen = "127.0.0.1:9999"

            [limits]
            cpu_ms = 100

            [[workers]]
            name = "hello"
            script = "hello.js"
            route = { host = "hello.localhost" }
            env = { GREETING = "hi" }
            "#,
    ));
    assert_eq!(config.server.listen, "127.0.0.1:9999");
    assert_eq!(config.server.worker_threads, 4);
    assert_eq!(config.limits.cpu_ms, 100);
    assert_eq!(config.limits.heap_mb, 64);
    assert_eq!(config.workers[0].env.get("GREETING"), Some("hi"));
}

#[test]
fn everything_may_be_left_out() {
    let config = Config::with_defaults(written("[server]"));
    assert_eq!(config.server.listen, "127.0.0.1:8787");
    assert_eq!(
        config.limits,
        Limits { cpu_ms: 50, heap_mb: 64, isolates_max: 16, wall_timeout_ms: 10_000 }
    );
    assert!(config.workers.is_empty());
}

#[test]
fn everything_may_be_written() {
    let config = Config::with_defaults(written(
        r#"
            [server]
            worker_threads = 2
            [limits]
            heap_mb = 1
            isolates_max = 2
            wall_timeout_ms = 3
            "#,
    ));
    assert_eq!(config.server.worker_threads, 2);
    assert_eq!(
        config.limits,
        Limits { cpu_ms: 50, heap_mb: 1, isolates_max: 2, wall_timeout_ms: 3 }
    );
}

#[test]
fn last_host_and_first_prefix_win() {
    let table = RouteTable::from_workers(&[
        def("a", Some("h"), Some("/p")),
        def("b", Some("h"), Some("/p")),
        def("c", None, Some("/\u{e9}")),
        def("d", None, Some("")),
    ]);
    assert_eq!(table.resolve("h:1:2", "/p/x"), Some("b"));
    assert_eq!(table.resolve("g", "/p/x"), Some("a"));
    assert_eq!(table.resolve("g", "/\u{e9}t\u{e9}"), Some("c"));
    assert_eq!(table.resolve("g", ""), Some("d"));
    assert_eq!(table.resolve("", "/"), Some("d"));
}

#[test]
fn empty_table_routes_nothing() {
    let table = RouteTable::default();
    assert_eq!(table.resolve("localhost", "/"), None);
}
