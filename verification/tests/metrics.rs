use toy_edge_worker::metrics::{Metrics, TenantMetrics};

fn ns(ms: f64) -> u64 {
    (ms * 1_000_000.0) as u64
}

fn ms(ns: u64) -> f64 {
    ns as f64 / 1_000_000.0
}

fn of(list: &[(String, TenantMetrics)], tenant: &str) -> TenantMetrics {
    list.iter().find(|entry| entry.0 == tenant).unwrap().1
}

#[test]
fn metrics_aggregate() {
    let mut metrics = Metrics::default();
    metrics.with("t", |m| m.record_cold_start(ns(5.0)));
    metrics.with("t", |m| m.record_cold_start(ns(3.0)));
    let snapshot = metrics.snapshot();
    assert_eq!(of(&snapshot, "t").cold_starts, 2);
    assert_eq!(ms(of(&snapshot, "t").cold_start_ns_max), 5.0);
    assert_eq!(ms(of(&snapshot, "t").cold_start_ns_last), 3.0);
}

#[test]
fn cold_starts_are_summed_up() {
    let mut metrics = TenantMetrics::default();
    for time in [7u64, 20, 4] {
        metrics.record_cold_start(time);
    }
    assert_eq!(
        metrics,
        TenantMetrics {
            cold_starts: 3,
            cold_start_ns_last: 4,
            cold_start_ns_max: 20,
            cold_start_ns_sum: 31,
            ..TenantMetrics::default()
        }
    );
}

#[test]
fn tenants_are_counted_apart() {
    let mut metrics = Metrics::default();
    assert!(metrics.snapshot().is_empty());
    metrics.entry("a").requests += 1;
    metrics.entry("b").errors += 2;
    metrics.entry("a").requests += 1;
    let snapshot = metrics.snapshot();
    assert_eq!(snapshot.len(), 2);
    assert_eq!(of(&snapshot, "a").requests, 2);
    assert_eq!(of(&snapshot, "a").errors, 0);
    assert_eq!(of(&snapshot, "b").errors, 2);
}

#[test]
fn full_counters_have_no_room() {
    let mut metrics = Metrics::default();
    assert!(metrics.has_room_for("a"));
    metrics.entry("a").requests = u64::MAX - 1;
    assert!(metrics.has_room_for("a"));
    metrics.entry("b").cold_start_ns_sum = u128::MAX;
    assert!(!metrics.has_room_for("b"));
    metrics.entry("b").cold_start_ns_sum = u128::MAX - u64::MAX as u128;
    assert!(metrics.has_room_for("b"));
    metrics.entry("a").requests = u64::MAX;
    assert!(!metrics.has_room_for("a"));
    assert!(metrics.has_room_for("b"));
}
