//! Tests of the instrumentation core: recording, backlog, rates, handle
//! lifecycle, pending tokens, and the Prometheus rendering of a snapshot.

use buswatch::metrics::{ModuleMetrics, ReadMetrics, WriteMetrics};
use buswatch::prometheus::format_prometheus;
use buswatch::registry::{Instrumentor, Registry};
use buswatch::snapshot::Snapshot;
use buswatch::duration::Microseconds;
use buswatch::wire::snapshot_to_json;

fn collect_at(reg: &mut Registry, now_micros: u64) -> Snapshot {
    reg.collect(now_micros, now_micros / 1000)
}

#[test]
fn basic_pipeline_and_backlog() {
    let mut reg = Registry::new();
    let api = reg.register("api");
    let processor = reg.register("processor");
    let notifier = reg.register("notifier");

    reg.record_write(&api, "orders", 1000);
    reg.record_read(&processor, "orders", 950);
    reg.record_write(&processor, "notifications", 950);
    reg.record_read(&notifier, "notifications", 900);

    let snap = collect_at(&mut reg, 1_000_000);

    let api_m = snap.get("api").unwrap();
    assert_eq!(api_m.writes.get("orders").unwrap().count, 1000);

    let proc_m = snap.get("processor").unwrap();
    assert_eq!(proc_m.reads.get("orders").unwrap().count, 950);
    assert_eq!(proc_m.reads.get("orders").unwrap().backlog, Some(50));
    assert_eq!(proc_m.writes.get("notifications").unwrap().count, 950);

    let notif_m = snap.get("notifier").unwrap();
    assert_eq!(notif_m.reads.get("notifications").unwrap().count, 900);
    assert_eq!(notif_m.reads.get("notifications").unwrap().backlog, Some(50));
}

#[test]
fn unregister_and_reregister() {
    let mut reg = Registry::new();
    let worker = reg.register("worker");
    reg.record_read(&worker, "jobs", 50);

    let snap = collect_at(&mut reg, 1_000_000);
    assert_eq!(snap.get("worker").unwrap().reads.get("jobs").unwrap().count, 50);

    assert!(reg.unregister("worker"));
    let snap = collect_at(&mut reg, 2_000_000);
    assert!(snap.get("worker").is_none());

    assert!(!reg.unregister("worker"));

    let worker2 = reg.register("worker");
    let snap = collect_at(&mut reg, 3_000_000);
    let m = snap.get("worker").unwrap();
    assert_eq!(m.reads.len(), 0);

    // The old handle keeps feeding the orphaned series, invisibly.
    reg.record_read(&worker, "jobs", 7);
    // The new handle's series starts fresh.
    reg.record_read(&worker2, "jobs", 25);
    let snap = collect_at(&mut reg, 4_000_000);
    assert_eq!(snap.get("worker").unwrap().reads.get("jobs").unwrap().count, 25);
}

#[test]
fn rate_computation_with_synthetic_clock() {
    let mut reg = Registry::new();
    let svc = reg.register("svc");
    reg.record_read(&svc, "t", 0);

    // First collection establishes the memo; rate is absent.
    let snap = collect_at(&mut reg, 1_000_000);
    assert_eq!(snap.get("svc").unwrap().reads.get("t").unwrap().rate, None);

    // Fifty milliseconds later, one hundred more messages: 2000/s.
    reg.record_read(&svc, "t", 100);
    let snap = collect_at(&mut reg, 1_050_000);
    let rate = snap.get("svc").unwrap().reads.get("t").unwrap().rate.unwrap();
    // The rate is in hundredths per second.
    assert_eq!(rate, 200_000);
    assert_eq!(snap.get("svc").unwrap().reads.get("t").unwrap().count, 100);
}

#[test]
fn rate_suppressed_under_ten_milliseconds() {
    let mut reg = Registry::new();
    let svc = reg.register("svc");
    reg.record_read(&svc, "t", 10);
    let _ = collect_at(&mut reg, 1_000_000);
    reg.record_read(&svc, "t", 10);
    // Only five milliseconds later: no rate.
    let snap = collect_at(&mut reg, 1_005_000);
    assert_eq!(snap.get("svc").unwrap().reads.get("t").unwrap().rate, None);
}

#[test]
fn rate_zero_when_no_new_messages() {
    let mut reg = Registry::new();
    let svc = reg.register("svc");
    reg.record_read(&svc, "t", 100);
    let _ = collect_at(&mut reg, 1_000_000);
    let snap = collect_at(&mut reg, 1_020_000);
    assert_eq!(snap.get("svc").unwrap().reads.get("t").unwrap().rate, Some(0));
}

#[test]
fn counts_accumulate_across_records() {
    let mut reg = Registry::new();
    let svc = reg.register("svc");
    for _ in 0..1000 {
        reg.record_read(&svc, "t", 1);
    }
    let snap = collect_at(&mut reg, 1_000_000);
    assert_eq!(snap.get("svc").unwrap().reads.get("t").unwrap().count, 1000);
}

#[test]
fn register_is_idempotent() {
    let mut reg = Registry::new();
    let h1 = reg.register("service");
    let h2 = reg.register("service");
    assert_eq!(h1.id, h2.id);

    reg.record_read(&h1, "topic", 10);
    reg.record_read(&h2, "topic", 5);

    let snap = collect_at(&mut reg, 1_000_000);
    assert_eq!(snap.get("service").unwrap().reads.get("topic").unwrap().count, 15);
}

#[test]
fn backlog_none_without_global_writes() {
    let mut reg = Registry::new();
    let consumer = reg.register("consumer");
    reg.record_read(&consumer, "events", 50);
    let snap = collect_at(&mut reg, 1_000_000);
    assert_eq!(snap.get("consumer").unwrap().reads.get("events").unwrap().backlog, None);
}

#[test]
fn backlog_none_when_reads_equal_writes() {
    let mut reg = Registry::new();
    let producer = reg.register("producer");
    let consumer = reg.register("consumer");
    reg.record_write(&producer, "events", 100);
    reg.record_read(&consumer, "events", 100);
    let snap = collect_at(&mut reg, 1_000_000);
    assert_eq!(snap.get("consumer").unwrap().reads.get("events").unwrap().backlog, None);
}

#[test]
fn unregister_keeps_global_write_counters() {
    let mut reg = Registry::new();
    let producer = reg.register("producer");
    reg.record_write(&producer, "events", 100);
    reg.unregister("producer");

    let consumer = reg.register("consumer");
    reg.record_read(&consumer, "events", 70);
    let snap = collect_at(&mut reg, 1_000_000);
    // Historical producer output still counts against the consumer.
    assert_eq!(snap.get("consumer").unwrap().reads.get("events").unwrap().backlog, Some(30));
}

#[test]
fn pending_token_sets_and_release_clears() {
    let mut reg = Registry::new();
    let svc = reg.register("svc");
    let guard = reg.start_read(&svc, "topic", 500_000);

    let snap = collect_at(&mut reg, 1_500_000);
    let pending = snap.get("svc").unwrap().reads.get("topic").unwrap().pending;
    assert_eq!(pending, Some(Microseconds(1_000_000)));

    reg.release(guard);
    let snap = collect_at(&mut reg, 2_500_000);
    assert_eq!(snap.get("svc").unwrap().reads.get("topic").unwrap().pending, None);
}

#[test]
fn double_release_is_harmless() {
    let mut reg = Registry::new();
    let svc = reg.register("svc");
    let g1 = reg.start_write(&svc, "topic", 100);
    let g2 = g1.clone();
    reg.release(g1);
    reg.release(g2);
    let snap = collect_at(&mut reg, 1_000_000);
    assert_eq!(snap.get("svc").unwrap().writes.get("topic").unwrap().pending, None);
}

#[test]
fn set_pending_overrides() {
    let mut reg = Registry::new();
    let svc = reg.register("svc");
    reg.set_read_pending(&svc, "t", Some(100));
    reg.set_read_pending(&svc, "t", Some(700_000));
    let snap = collect_at(&mut reg, 1_700_000);
    assert_eq!(
        snap.get("svc").unwrap().reads.get("t").unwrap().pending,
        Some(Microseconds(1_000_000))
    );
    reg.set_read_pending(&svc, "t", None);
    let snap = collect_at(&mut reg, 2_000_000);
    assert_eq!(snap.get("svc").unwrap().reads.get("t").unwrap().pending, None);
}

#[test]
fn snapshot_modules_sorted_by_name() {
    let mut reg = Registry::new();
    let _ = reg.register("zebra");
    let _ = reg.register("alpha");
    let _ = reg.register("middle");
    let snap = collect_at(&mut reg, 1_000_000);
    assert_eq!(snap.len(), 3);
    assert_eq!(
        snap.modules.keys,
        vec!["alpha".to_string(), "middle".to_string(), "zebra".to_string()]
    );
}

#[test]
fn instrumentor_builder_and_collect() {
    let mut inst = Instrumentor::builder().interval(500).build();
    assert_eq!(inst.interval_ms, 500);
    let h = inst.register("producer");
    inst.registry.record_write(&h, "events", 100);
    inst.registry.record_read(&h, "commands", 50);
    let snap = inst.collect();
    assert_eq!(snap.len(), 1);
    let m = snap.get("producer").unwrap();
    assert_eq!(m.writes.get("events").unwrap().count, 100);
    assert_eq!(m.reads.get("commands").unwrap().count, 50);
    assert!(snap.version.is_compatible());

    let default_inst = Instrumentor::new();
    assert_eq!(default_inst.interval_ms, 1000);
}

#[test]
fn prometheus_rendering_exact_lines() {
    let metrics = ModuleMetrics::builder()
        .read("events", ReadMetrics {
            count: 1000,
            backlog: Some(50),
            pending: Some(Microseconds::from_millis(100)),
            rate: Some(5050),
        })
        .write("output", WriteMetrics { count: 500, pending: None, rate: Some(2500) })
        .build();
    let snapshot = Snapshot::builder()
        .timestamp_ms(1703160000000)
        .module_metrics("my-service", metrics)
        .build();

    let output = format_prometheus(&snapshot, None);

    assert!(output.contains("buswatch_read_count{module=\"my-service\",topic=\"events\"} 1000"));
    assert!(output.contains("buswatch_write_count{module=\"my-service\",topic=\"output\"} 500"));
    assert!(output.contains("buswatch_read_backlog{module=\"my-service\",topic=\"events\"} 50"));
    assert!(output.contains(
        "buswatch_read_pending_seconds{module=\"my-service\",topic=\"events\"} 0.100000"
    ));
    assert!(output.contains(
        "buswatch_read_rate_per_second{module=\"my-service\",topic=\"events\"} 50.50"
    ));
    assert!(output.contains(
        "buswatch_write_rate_per_second{module=\"my-service\",topic=\"output\"} 25.00"
    ));
    assert!(output.contains("# HELP buswatch_read_count"));
    assert!(output.contains("# TYPE buswatch_read_count counter"));
    assert!(output.contains("buswatch_snapshot_timestamp_seconds 1703160000.000"));
}

#[test]
fn prometheus_rendering_with_namespace() {
    let snapshot = Snapshot::builder().timestamp_ms(1000).build();
    let output = format_prometheus(&snapshot, Some("myapp"));
    assert!(output.contains("myapp_buswatch_read_count"));
    assert!(output.contains("# HELP myapp_buswatch_read_count"));
    assert!(output.contains("myapp_buswatch_snapshot_timestamp_seconds 1.000"));
}

#[test]
fn prometheus_escapes_label_values() {
    let metrics = ModuleMetrics::builder()
        .read("a\"b\\c\nd", ReadMetrics { count: 1, backlog: None, pending: None, rate: None })
        .build();
    let snapshot = Snapshot::builder()
        .timestamp_ms(0)
        .module_metrics("svc", metrics)
        .build();
    let output = format_prometheus(&snapshot, None);
    assert!(output.contains("topic=\"a\\\"b\\\\c\\nd\""));
}

#[test]
fn snapshot_totals() {
    let snapshot = Snapshot::builder()
        .timestamp_ms(0)
        .module_metrics("a", ModuleMetrics::builder()
            .read("t", ReadMetrics::new(100))
            .write("u", WriteMetrics::new(40))
            .build())
        .module_metrics("b", ModuleMetrics::builder()
            .read("t", ReadMetrics::new(23))
            .build())
        .build();
    assert_eq!(snapshot.total_reads(), 123);
    assert_eq!(snapshot.total_writes(), 40);
    assert!(!snapshot.is_empty());
    assert_eq!(snapshot.len(), 2);
    assert!(snapshot.get("a").is_some());
    assert!(snapshot.get("missing").is_none());
}

#[test]
fn module_metrics_accessors() {
    let m = ModuleMetrics::builder()
        .read("orders", ReadMetrics { count: 42, backlog: Some(3), pending: None, rate: None })
        .write("notifications", WriteMetrics { count: 40, pending: None, rate: Some(500) })
        .build();
    assert_eq!(m.total_reads(), 42);
    assert_eq!(m.total_writes(), 40);
    assert!(!m.is_empty());
    assert_eq!(m.reads.get("orders").unwrap().backlog, Some(3));
    assert_eq!(m.writes.get("notifications").unwrap().rate, Some(500));
}

#[test]
fn wire_encoding_exact() {
    let metrics = ModuleMetrics::builder()
        .read("in", ReadMetrics {
            count: 100,
            backlog: Some(5),
            pending: Some(Microseconds(250)),
            rate: Some(5050),
        })
        .write("out", WriteMetrics { count: 95, pending: None, rate: Some(2500) })
        .build();
    let snap = Snapshot::builder()
        .timestamp_ms(1703160000000)
        .module_metrics("svc", metrics)
        .build();
    let json = snapshot_to_json(&snap);
    let expected = "{\"version\":{\"major\":1,\"minor\":0},\"timestamp_ms\":1703160000000,\"modules\":{\"svc\":{\"reads\":{\"in\":{\"count\":100,\"backlog\":5,\"pending\":250,\"rate\":50.5}},\"writes\":{\"out\":{\"count\":95,\"rate\":25.0}}}}}";
    assert_eq!(json, expected);
    // The wire form round-trips through a strict JSON reader unchanged in
    // meaning: optional fields are simply absent, never null or zero.
    assert!(!json.contains("null"));
}

#[test]
fn read_metrics_health() {
    let healthy = ReadMetrics::new(100);
    assert!(healthy.is_healthy(10, Microseconds::from_secs(5)));

    let with_backlog = ReadMetrics::builder().count(100).backlog(20).build();
    assert!(!with_backlog.is_healthy(10, Microseconds::from_secs(5)));

    let with_pending = ReadMetrics::builder()
        .count(100)
        .pending(Microseconds::from_secs(10))
        .build();
    assert!(!with_pending.is_healthy(10, Microseconds::from_secs(5)));

    let at_threshold = ReadMetrics::builder().count(1).backlog(10).build();
    assert!(at_threshold.is_healthy(10, Microseconds::from_secs(5)));

    let w = WriteMetrics::builder().count(1).pending(Microseconds::from_secs(6)).build();
    assert!(!w.is_healthy(Microseconds::from_secs(5)));
    assert!(WriteMetrics::new(5).is_healthy(Microseconds::from_secs(5)));
}
