use concurrency::metrics::atomic_map::AtomicMetrics;
use concurrency::metrics::cmap::CMapMetrics;
use concurrency::metrics::{Metrics, MetricsError};

#[test]
fn metrics_start_empty() {
    let m = Metrics::new();
    assert_eq!(m.get("requests"), None);
    assert_eq!(m.render(), "");
    assert_eq!(Metrics::default().get("requests"), None);
}

#[test]
fn metrics_count_up_and_down() {
    let mut m = Metrics::new();
    assert_eq!(m.incr("requests"), Ok(()));
    assert_eq!(m.incr("requests"), Ok(()));
    assert_eq!(m.incr("errors"), Ok(()));
    assert_eq!(m.decr("requests"), Ok(()));
    assert_eq!(m.decr("idle"), Ok(()));
    assert_eq!(m.get("requests"), Some(1));
    assert_eq!(m.get("errors"), Some(1));
    assert_eq!(m.get("idle"), Some(-1));
    assert_eq!(m.get("other"), None);
}

#[test]
fn metrics_keep_names_apart() {
    let mut m = Metrics::new();
    m.incr("a").unwrap();
    m.incr("ab").unwrap();
    m.incr("ab").unwrap();
    m.incr("").unwrap();
    assert_eq!(m.get("a"), Some(1));
    assert_eq!(m.get("ab"), Some(2));
    assert_eq!(m.get(""), Some(1));
    assert_eq!(m.get("b"), None);
}

#[test]
fn metrics_refuse_to_leave_the_range() {
    let mut m = Metrics::new();
    m.set("high", i64::MAX);
    m.set("low", i64::MIN);
    assert_eq!(m.incr("high"), Err(MetricsError::Overflow));
    assert_eq!(m.decr("low"), Err(MetricsError::Overflow));
    assert_eq!(m.get("high"), Some(i64::MAX));
    assert_eq!(m.get("low"), Some(i64::MIN));
    assert_eq!(m.decr("high"), Ok(()));
    assert_eq!(m.incr("low"), Ok(()));
    assert_eq!(m.get("high"), Some(i64::MAX - 1));
    assert_eq!(m.get("low"), Some(i64::MIN + 1));
}

#[test]
fn metrics_set_replaces_the_count() {
    let mut m = Metrics::new();
    m.set("a", 5);
    m.set("b", -5);
    m.set("a", 7);
    assert_eq!(m.get("a"), Some(7));
    assert_eq!(m.get("b"), Some(-5));
}

#[test]
fn metrics_render_one_line_per_counter() {
    let mut m = Metrics::new();
    m.incr("requests").unwrap();
    m.decr("idle").unwrap();
    m.incr("requests").unwrap();
    m.set("big", i64::MIN);
    assert_eq!(m.render(), "requests: 2\nidle: -1\nbig: -9223372036854775808\n");
}

#[test]
fn atomic_metrics_start_at_zero() {
    let m = AtomicMetrics::new(&["call.a", "call.b"]);
    assert_eq!(m.get("call.a"), Some(0));
    assert_eq!(m.get("call.b"), Some(0));
    assert_eq!(m.get("call.c"), None);
    assert_eq!(m.render(), "call.a: 0\ncall.b: 0\n");
}

#[test]
fn atomic_metrics_take_a_repeated_name_once() {
    let m = AtomicMetrics::new(&["a", "b", "a"]);
    assert_eq!(m.render(), "a: 0\nb: 0\n");
    assert_eq!(AtomicMetrics::new(&[]).render(), "");
}

#[test]
fn atomic_metrics_count_up_and_down() {
    let mut m = AtomicMetrics::new(&["call.a", "call.b"]);
    assert_eq!(m.incr("call.a"), Ok(()));
    assert_eq!(m.incr("call.a"), Ok(()));
    assert_eq!(m.decr("call.b"), Ok(()));
    assert_eq!(m.get("call.a"), Some(2));
    assert_eq!(m.get("call.b"), Some(-1));
}

#[test]
fn atomic_metrics_know_only_their_names() {
    let mut m = AtomicMetrics::new(&["call.a"]);
    assert_eq!(m.incr("call.b"), Err(MetricsError::KeyNotFound));
    assert_eq!(m.decr("call.b"), Err(MetricsError::KeyNotFound));
    assert_eq!(m.set("call.b", 3), Err(MetricsError::KeyNotFound));
    assert_eq!(m.get("call.b"), None);
    assert_eq!(m.get("call.a"), Some(0));
}

#[test]
fn atomic_metrics_wrap_around() {
    let mut m = AtomicMetrics::new(&["high", "low"]);
    assert_eq!(m.set("high", i64::MAX), Ok(()));
    assert_eq!(m.set("low", i64::MIN), Ok(()));
    assert_eq!(m.incr("high"), Ok(()));
    assert_eq!(m.decr("low"), Ok(()));
    assert_eq!(m.get("high"), Some(i64::MIN));
    assert_eq!(m.get("low"), Some(i64::MAX));
}

#[test]
fn cmap_metrics_start_empty() {
    let m = CMapMetrics::new();
    assert_eq!(m.get("requests"), None);
    assert_eq!(CMapMetrics::default().get("requests"), None);
}

#[test]
fn cmap_metrics_count_up_and_down() {
    let mut m = CMapMetrics::new();
    assert_eq!(m.incr("requests"), Ok(()));
    assert_eq!(m.incr("requests"), Ok(()));
    assert_eq!(m.incr("requests"), Ok(()));
    assert_eq!(m.decr("requests"), Ok(()));
    assert_eq!(m.decr("idle"), Ok(()));
    assert_eq!(m.get("requests"), Some(2));
    assert_eq!(m.get("idle"), Some(-1));
    assert_eq!(m.get("other"), None);
}

#[test]
fn cmap_metrics_set_replaces_the_count() {
    let mut m = CMapMetrics::new();
    m.set("a", 5);
    m.set("b", -5);
    m.set("a", 7);
    assert_eq!(m.get("a"), Some(7));
    assert_eq!(m.get("b"), Some(-5));
    assert_eq!(m.incr("a"), Ok(()));
    assert_eq!(m.get("a"), Some(8));
}

#[test]
fn cmap_metrics_refuse_to_leave_the_range() {
    let mut m = CMapMetrics::new();
    m.set("high", i64::MAX);
    m.set("low", i64::MIN);
    assert_eq!(m.incr("high"), Err(MetricsError::Overflow));
    assert_eq!(m.decr("low"), Err(MetricsError::Overflow));
    assert_eq!(m.get("high"), Some(i64::MAX));
    assert_eq!(m.get("low"), Some(i64::MIN));
}

#[test]
fn metrics_errors_in_words() {
    assert_eq!(MetricsError::Overflow.message(), "counter out of range");
    assert_eq!(MetricsError::KeyNotFound.message(), "key not found");
}
