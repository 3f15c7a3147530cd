//! Tests of the derived view: health classification, module rows, the
//! flow graph, history and sparklines, navigation, filtering, sorting,
//! the export document and the source freshness decisions.

use buswatch::app_state::{format_count, render_sparkline, App, BottleneckSortColumn, KeyInput,
    KeyOutcome, MouseInput, SortColumn, ViewKind, sort_modules_by};
use buswatch::duration::Microseconds;
use buswatch::export::export_json;
use buswatch::flow::DataFlowGraph;
use buswatch::history::History;
use buswatch::metrics::{ModuleMetrics, ReadMetrics, WriteMetrics};
use buswatch::monitor::{compute_read_status, compute_write_status, HealthStatus, MonitorData,
    Thresholds, UnhealthyTopic};
use buswatch::snapshot::Snapshot;
use buswatch::sources::{channel_poll_should_yield, file_poll_should_read};
use buswatch::adapters::{queue_to_metrics, stream_to_metrics, sum_partition_offsets, QueueFacts};
use buswatch::namemap::NameMap;

fn pipeline_snapshot() -> Snapshot {
    Snapshot::builder()
        .timestamp_ms(1000)
        .module_metrics("api", ModuleMetrics::builder()
            .write("orders", WriteMetrics::new(1000))
            .build())
        .module_metrics("processor", ModuleMetrics::builder()
            .read("orders", ReadMetrics { count: 950, backlog: Some(50), pending: None, rate: None })
            .write("notifications", WriteMetrics::new(950))
            .build())
        .module_metrics("notifier", ModuleMetrics::builder()
            .read("notifications", ReadMetrics { count: 900, backlog: Some(50), pending: None, rate: None })
            .build())
        .build()
}

#[test]
fn health_classification() {
    let th = Thresholds::default();
    assert_eq!(compute_read_status(None, None, &th), HealthStatus::Healthy);
    assert_eq!(
        compute_read_status(Some(Microseconds::from_secs(1)), None, &th),
        HealthStatus::Warning
    );
    assert_eq!(
        compute_read_status(Some(Microseconds::from_secs(10)), None, &th),
        HealthStatus::Critical
    );
    assert_eq!(compute_read_status(None, Some(1000), &th), HealthStatus::Warning);
    assert_eq!(compute_read_status(None, Some(5000), &th), HealthStatus::Critical);
    assert_eq!(compute_read_status(None, Some(999), &th), HealthStatus::Healthy);
    // The worse of the two components wins.
    assert_eq!(
        compute_read_status(Some(Microseconds::from_secs(1)), Some(5000), &th),
        HealthStatus::Critical
    );
    assert_eq!(compute_write_status(Some(Microseconds::from_secs(2)), &th), HealthStatus::Warning);
    assert_eq!(compute_write_status(None, &th), HealthStatus::Healthy);
}

#[test]
fn health_symbols() {
    assert_eq!(HealthStatus::Healthy.symbol(), "OK");
    assert_eq!(HealthStatus::Warning.symbol(), "WARN");
    assert_eq!(HealthStatus::Critical.symbol(), "CRIT");
}

#[test]
fn from_snapshot_derives_rows() {
    let th = Thresholds::default();
    let data = MonitorData::from_snapshot(&pipeline_snapshot(), &th, 42);
    assert_eq!(data.last_updated_micros, 42);
    assert_eq!(data.modules.len(), 3);
    // All healthy, so rows come sorted by name.
    assert_eq!(data.modules[0].name, "api");
    assert_eq!(data.modules[1].name, "notifier");
    assert_eq!(data.modules[2].name, "processor");
    assert_eq!(data.modules[0].total_written, 1000);
    assert_eq!(data.modules[2].total_read, 950);
    assert_eq!(data.modules[2].total_written, 950);
    assert_eq!(data.modules[2].health, HealthStatus::Healthy);
}

#[test]
fn from_snapshot_sorts_unhealthy_first() {
    let th = Thresholds::default();
    let snap = Snapshot::builder()
        .timestamp_ms(0)
        .module_metrics("calm", ModuleMetrics::builder()
            .read("t", ReadMetrics::new(1))
            .build())
        .module_metrics("stuck", ModuleMetrics::builder()
            .read("t", ReadMetrics { count: 1, backlog: Some(9999), pending: None, rate: None })
            .build())
        .build();
    let data = MonitorData::from_snapshot(&snap, &th, 0);
    assert_eq!(data.modules[0].name, "stuck");
    assert_eq!(data.modules[0].health, HealthStatus::Critical);
    assert_eq!(data.modules[1].name, "calm");
}

#[test]
fn unhealthy_topics_listed_worst_first() {
    let th = Thresholds::default();
    let snap = Snapshot::builder()
        .timestamp_ms(0)
        .module_metrics("m", ModuleMetrics::builder()
            .read("warn", ReadMetrics { count: 1, backlog: Some(2000), pending: None, rate: None })
            .read("crit", ReadMetrics { count: 1, backlog: Some(9999), pending: None, rate: None })
            .read("fine", ReadMetrics::new(1))
            .write("wpend", WriteMetrics {
                count: 1,
                pending: Some(Microseconds::from_secs(20)),
                rate: None,
            })
            .build())
        .build();
    let data = MonitorData::from_snapshot(&snap, &th, 0);
    let unhealthy = data.unhealthy_topics();
    assert_eq!(unhealthy.len(), 3);
    assert_eq!(unhealthy[0].1.status(), HealthStatus::Critical);
    assert_eq!(unhealthy[1].1.status(), HealthStatus::Critical);
    assert_eq!(unhealthy[2].1.status(), HealthStatus::Warning);
    assert_eq!(unhealthy[2].1.topic(), "warn");
    match &unhealthy[2].1 {
        UnhealthyTopic::Read(r) => assert_eq!(r.unread, Some(2000)),
        UnhealthyTopic::Write(_) => panic!("expected a read row"),
    }
}

#[test]
fn flow_graph_of_pipeline() {
    let th = Thresholds::default();
    let data = MonitorData::from_snapshot(&pipeline_snapshot(), &th, 0);
    let graph = DataFlowGraph::from_monitor_data(&data);

    assert_eq!(graph.topics, vec!["notifications", "orders"]);
    assert_eq!(graph.producers.get("orders").unwrap(), &vec!["api".to_string()]);
    assert_eq!(graph.consumers.get("orders").unwrap(), &vec!["processor".to_string()]);
    assert_eq!(graph.producers.get("notifications").unwrap(), &vec!["processor".to_string()]);
    assert_eq!(graph.consumers.get("notifications").unwrap(), &vec!["notifier".to_string()]);
    assert!(graph.consumers.get("missing").is_none());
}

#[test]
fn history_records_and_sparkline() {
    let th = Thresholds::default();
    let mut h = History::new();
    assert!(h.get_reads_sparkline("svc").is_empty());

    for i in 0..5u64 {
        let snap = Snapshot::builder()
            .timestamp_ms(i * 1000)
            .module_metrics("svc", ModuleMetrics::builder()
                .read("t", ReadMetrics::new(i * 100))
                .build())
            .build();
        let data = MonitorData::from_snapshot(&snap, &th, i * 1_000_000);
        h.record(&data);
    }
    let spark = h.get_reads_sparkline("svc");
    assert_eq!(spark.len(), 4);
    // Equal deltas all normalize to the same level.
    assert!(spark.iter().all(|&v| v == spark[0]));
    assert_eq!(h.timestamps.len(), 5);
}

#[test]
fn history_read_rate_from_last_two_records() {
    let th = Thresholds::default();
    let mut h = History::new();
    assert!(h.get_read_rate("svc").is_none());

    let mk = |count: u64, micros: u64| {
        let snap = Snapshot::builder()
            .timestamp_ms(micros / 1000)
            .module_metrics("svc", ModuleMetrics::builder()
                .read("t", ReadMetrics::new(count))
                .build())
            .build();
        MonitorData::from_snapshot(&snap, &th, micros)
    };
    h.record(&mk(100, 1_000_000));
    assert!(h.get_read_rate("svc").is_none());
    h.record(&mk(200, 2_000_000));
    // One hundred messages in one second.
    assert_eq!(h.get_read_rate("svc"), Some((false, 100)));
    h.record(&mk(150, 3_000_000));
    // Fifty fewer: the counter moved backwards.
    assert_eq!(h.get_read_rate("svc"), Some((true, 50)));
}

#[test]
fn history_window_is_capped() {
    let th = Thresholds::default();
    let mut h = History::new();
    for i in 0..70u64 {
        let snap = Snapshot::builder()
            .timestamp_ms(i)
            .module_metrics("svc", ModuleMetrics::builder()
                .read("t", ReadMetrics::new(i))
                .build())
            .build();
        let data = MonitorData::from_snapshot(&snap, &th, i);
        h.record(&data);
    }
    assert_eq!(h.timestamps.len(), 60);
    assert_eq!(h.module_reads.get("svc").unwrap().len(), 60);
}

#[test]
fn app_navigation_keys() {
    let mut app = App::new(Thresholds::default());
    assert!(app.running);
    assert_eq!(app.current_view, ViewKind::Summary);

    assert_eq!(app.handle_key(KeyInput::Char('2')), KeyOutcome::Handled);
    assert_eq!(app.current_view, ViewKind::Bottleneck);
    app.handle_key(KeyInput::Char('3'));
    assert_eq!(app.current_view, ViewKind::DataFlow);
    app.handle_key(KeyInput::Tab);
    assert_eq!(app.current_view, ViewKind::Summary);
    app.handle_key(KeyInput::BackTab);
    assert_eq!(app.current_view, ViewKind::DataFlow);
    app.handle_key(KeyInput::Right);
    assert_eq!(app.current_view, ViewKind::Summary);
    app.handle_key(KeyInput::Left);
    assert_eq!(app.current_view, ViewKind::DataFlow);

    app.handle_key(KeyInput::Char('q'));
    assert!(!app.running);
}

#[test]
fn app_overlays_and_back() {
    let mut app = App::new(Thresholds::default());
    app.handle_key(KeyInput::Enter);
    assert!(app.show_detail_overlay);
    app.handle_key(KeyInput::Esc);
    assert!(!app.show_detail_overlay);

    app.handle_key(KeyInput::Char('?'));
    assert!(app.show_help);
    // Any key closes help.
    app.handle_key(KeyInput::Char('x'));
    assert!(!app.show_help);

    app.set_view(ViewKind::Bottleneck);
    app.handle_key(KeyInput::Esc);
    assert_eq!(app.current_view, ViewKind::Summary);
}

#[test]
fn app_filter_input_mode() {
    let mut app = App::new(Thresholds::default());
    app.handle_key(KeyInput::Char('/'));
    assert!(app.filter_active);
    app.handle_key(KeyInput::Char('a'));
    app.handle_key(KeyInput::Char('b'));
    assert_eq!(app.filter_text, "ab");
    app.handle_key(KeyInput::Enter);
    assert!(!app.filter_active);
    assert_eq!(app.filter_text, "ab");

    app.handle_key(KeyInput::Char('/'));
    app.handle_key(KeyInput::Backspace);
    assert_eq!(app.filter_text, "a");
    app.handle_key(KeyInput::Backspace);
    assert!(!app.filter_active);
    assert_eq!(app.filter_text, "");

    app.handle_key(KeyInput::Char('/'));
    app.handle_key(KeyInput::Char('z'));
    app.handle_key(KeyInput::CtrlChar('c'));
    assert_eq!(app.filter_text, "");
    assert!(!app.filter_active);
}

#[test]
fn app_filter_matches_case_insensitive() {
    let mut app = App::new(Thresholds::default());
    app.handle_key(KeyInput::Char('/'));
    app.handle_key(KeyInput::Char('A'));
    app.handle_key(KeyInput::Char('P'));
    app.handle_key(KeyInput::Enter);
    assert!(app.matches_filter("api"));
    assert!(app.matches_filter("the-API-gateway"));
    assert!(!app.matches_filter("worker"));
}

#[test]
fn app_sort_cycling() {
    let mut app = App::new(Thresholds::default());
    assert_eq!(app.sort_column, SortColumn::Name);
    app.handle_key(KeyInput::Char('s'));
    assert_eq!(app.sort_column, SortColumn::Reads);
    app.handle_key(KeyInput::Char('S'));
    assert!(!app.sort_ascending);

    app.set_view(ViewKind::Bottleneck);
    assert_eq!(app.bottleneck_sort_column, BottleneckSortColumn::Status);
    app.handle_key(KeyInput::Char('s'));
    assert_eq!(app.bottleneck_sort_column, BottleneckSortColumn::Module);
    assert!(!app.bottleneck_sort_ascending);
    app.handle_key(KeyInput::Char('S'));
    assert!(app.bottleneck_sort_ascending);
}

#[test]
fn app_reload_and_export_requests() {
    let mut app = App::new(Thresholds::default());
    assert_eq!(app.handle_key(KeyInput::Char('r')), KeyOutcome::RequestReload);
    assert_eq!(app.handle_key(KeyInput::Char('e')), KeyOutcome::RequestExport);
}

#[test]
fn app_apply_snapshot_and_selection() {
    let mut app = App::new(Thresholds::default());
    app.apply_snapshot(&pipeline_snapshot(), 10);
    assert!(app.data.is_some());
    assert!(app.load_error.is_none());
    let idx = app.get_selected_module_raw_index().unwrap();
    // The first visual row is "api", which is also raw row 0.
    assert_eq!(app.data.as_ref().unwrap().modules[idx].name, "api");

    app.handle_key(KeyInput::Down);
    let idx = app.get_selected_module_raw_index().unwrap();
    assert_eq!(app.data.as_ref().unwrap().modules[idx].name, "notifier");
    app.handle_key(KeyInput::End);
    let idx = app.get_selected_module_raw_index().unwrap();
    assert_eq!(app.data.as_ref().unwrap().modules[idx].name, "processor");
    app.handle_key(KeyInput::Home);
    let idx = app.get_selected_module_raw_index().unwrap();
    assert_eq!(app.data.as_ref().unwrap().modules[idx].name, "api");
}

#[test]
fn sort_modules_by_columns() {
    let th = Thresholds::default();
    let data = MonitorData::from_snapshot(&pipeline_snapshot(), &th, 0);
    let idxs: Vec<usize> = (0..data.modules.len()).collect();

    let by_reads = sort_modules_by(&data.modules, idxs.clone(), SortColumn::Reads, false);
    // processor has the highest total_read.
    assert_eq!(data.modules[by_reads[0]].name, "processor");

    let by_name = sort_modules_by(&data.modules, idxs, SortColumn::Name, true);
    assert_eq!(data.modules[by_name[0]].name, "api");
    assert_eq!(data.modules[by_name[2]].name, "processor");
}

#[test]
fn status_message_expires() {
    let mut app = App::new(Thresholds::default());
    app.set_status_message("saved".to_string(), 1000);
    assert_eq!(app.get_status_message(1500).unwrap(), "saved");
    assert!(app.get_status_message(4000).is_none());
}

#[test]
fn export_document_shape() {
    let th = Thresholds::default();
    let snap = Snapshot::builder()
        .timestamp_ms(0)
        .module_metrics("svc", ModuleMetrics::builder()
            .read("t", ReadMetrics { count: 7, backlog: Some(9999), pending: None, rate: None })
            .build())
        .build();
    let data = MonitorData::from_snapshot(&snap, &th, 0);
    let doc = export_json(&data);
    assert!(doc.starts_with("{\"summary\":{\"total_modules\":1"));
    assert!(doc.contains("\"healthy\":0"));
    assert!(doc.contains("\"critical\":1"));
    assert!(doc.contains("\"modules\":[{\"name\":\"svc\",\"total_read\":7"));
    assert!(doc.contains("\"bottlenecks\":[{\"module\":\"svc\",\"topic\":\"t\",\"status\":\"Critical\"}"));
}

#[test]
fn file_source_freshness_decisions() {
    // First poll always reads.
    assert!(file_poll_should_read(None, Some(5)));
    assert!(file_poll_should_read(None, None));
    // A missing file is never fresh once something was seen.
    assert!(!file_poll_should_read(Some(5), None));
    // Freshness is exactly an advanced modification time.
    assert!(file_poll_should_read(Some(5), Some(6)));
    assert!(!file_poll_should_read(Some(5), Some(5)));
    assert!(!file_poll_should_read(Some(5), Some(4)));
}

#[test]
fn channel_source_coalescing_decisions() {
    // The initial value is surfaced once so the viewer can render.
    assert!(channel_poll_should_yield(false, false));
    assert!(channel_poll_should_yield(false, true));
    // After that, only changes are surfaced.
    assert!(channel_poll_should_yield(true, true));
    assert!(!channel_poll_should_yield(true, false));
}

#[test]
fn count_formatting() {
    assert_eq!(format_count(0), "0");
    assert_eq!(format_count(999), "999");
    assert_eq!(format_count(1000), "1.0K");
    assert_eq!(format_count(1234), "1.2K");
    assert_eq!(format_count(1250), "1.3K");
    assert_eq!(format_count(999_949), "999.9K");
    assert_eq!(format_count(1_000_000), "1.0M");
    assert_eq!(format_count(2_450_000), "2.5M");
}

#[test]
fn sparkline_text() {
    assert_eq!(render_sparkline(&vec![]), "        ");
    assert_eq!(render_sparkline(&vec![0, 7]), "\u{2581}\u{2588}");
    // Only the last eight levels are shown.
    let long = vec![0, 0, 0, 1, 2, 3, 4, 5, 6, 7];
    assert_eq!(render_sparkline(&long).chars().count(), 8);
    assert_eq!(
        render_sparkline(&long),
        "\u{2581}\u{2582}\u{2583}\u{2584}\u{2585}\u{2586}\u{2587}\u{2588}"
    );
}

#[test]
fn go_back_restores_selections() {
    let mut app = App::new(Thresholds::default());
    app.apply_snapshot(&pipeline_snapshot(), 0);
    app.handle_key(KeyInput::Down);
    app.push_view(ViewKind::Bottleneck);
    app.handle_key(KeyInput::Down);
    // Popping the stack restores the saved view and both selections.
    app.handle_key(KeyInput::Esc);
    assert_eq!(app.current_view, ViewKind::Summary);
    assert_eq!(app.selected_module_index, 1);
    assert_eq!(app.selected_topic_index, 0);
    // With an empty stack, back falls through to the summary view.
    app.set_view(ViewKind::DataFlow);
    app.handle_key(KeyInput::Esc);
    assert_eq!(app.current_view, ViewKind::Summary);
}

#[test]
fn raw_index_follows_sort_and_filter() {
    let mut app = App::new(Thresholds::default());
    app.apply_snapshot(&pipeline_snapshot(), 0);
    // Sort by reads descending: processor (950) comes first visually.
    app.handle_key(KeyInput::Char('s'));
    app.handle_key(KeyInput::Char('S'));
    assert_eq!(app.sort_column, SortColumn::Reads);
    assert!(!app.sort_ascending);
    let ix = app.get_selected_module_raw_index().unwrap();
    assert_eq!(app.data.as_ref().unwrap().modules[ix].name, "processor");
    // Filtering down to one module pins the selection to it.
    app.handle_key(KeyInput::Char('/'));
    app.handle_key(KeyInput::Char('a'));
    app.handle_key(KeyInput::Char('p'));
    app.handle_key(KeyInput::Char('i'));
    app.handle_key(KeyInput::Enter);
    app.handle_key(KeyInput::Home);
    let ix = app.get_selected_module_raw_index().unwrap();
    assert_eq!(app.data.as_ref().unwrap().modules[ix].name, "api");
    // Out of range yields nothing.
    app.handle_key(KeyInput::Char('c'));
    app.set_view(ViewKind::Bottleneck);
    assert!(app.get_selected_module_raw_index().is_none());
}

#[test]
fn mouse_selects_and_switches() {
    let mut app = App::new(Thresholds::default());
    app.apply_snapshot(&pipeline_snapshot(), 0);
    // A click on the second content row selects it.
    app.handle_mouse(MouseInput::LeftClick(4, 0), 2);
    assert_eq!(app.selected_module_index, 1);
    // The wheel moves by one.
    app.handle_mouse(MouseInput::ScrollUp, 2);
    assert_eq!(app.selected_module_index, 0);
    app.handle_mouse(MouseInput::ScrollDown, 2);
    assert_eq!(app.selected_module_index, 1);
    // A click on the tab row switches the view by column band.
    app.handle_mouse(MouseInput::LeftClick(1, 20), 2);
    assert_eq!(app.current_view, ViewKind::Bottleneck);
    app.handle_mouse(MouseInput::LeftClick(1, 35), 2);
    assert_eq!(app.current_view, ViewKind::DataFlow);
    app.handle_mouse(MouseInput::LeftClick(1, 5), 2);
    assert_eq!(app.current_view, ViewKind::Summary);
    // Right click goes back.
    app.handle_key(KeyInput::Enter);
    assert!(app.show_detail_overlay);
    app.handle_mouse(MouseInput::RightClick, 2);
    assert!(!app.show_detail_overlay);
}

#[test]
fn selection_bounded_by_visible_rows() {
    let mut app = App::new(Thresholds::default());
    app.apply_snapshot(&pipeline_snapshot(), 0);
    app.handle_key(KeyInput::PageDown);
    // Three modules: the selection stops at the last row.
    assert_eq!(app.selected_module_index, 2);
    app.handle_key(KeyInput::Down);
    assert_eq!(app.selected_module_index, 2);
    app.handle_key(KeyInput::PageUp);
    assert_eq!(app.selected_module_index, 0);
}

#[test]
fn view_labels_and_cycles() {
    assert_eq!(ViewKind::Summary.label(), "Summary");
    assert_eq!(ViewKind::Bottleneck.label(), "Bottlenecks");
    assert_eq!(ViewKind::DataFlow.label(), "Flow");
    assert_eq!(ViewKind::Summary.next(), ViewKind::Bottleneck);
    assert_eq!(ViewKind::DataFlow.next(), ViewKind::Summary);
    assert_eq!(ViewKind::Summary.prev(), ViewKind::DataFlow);
    assert_eq!(SortColumn::Status.next(), SortColumn::Name);
    assert_eq!(BottleneckSortColumn::Unread.next(), BottleneckSortColumn::Status);
}

#[test]
fn queue_and_stream_synthesis() {
    let q = QueueFacts {
        name: "test-queue".to_string(),
        messages_ready: 100,
        consumers: 2,
        messages_delivered: Some(500),
        messages_published: Some(600),
        deliver_rate: Some(920),
        publish_rate: Some(1050),
    };
    let m = queue_to_metrics(&q);
    let read = m.reads.get("messages").unwrap();
    assert_eq!(read.count, 500);
    assert_eq!(read.backlog, Some(100));
    assert_eq!(read.rate, Some(920));
    let write = m.writes.get("messages").unwrap();
    assert_eq!(write.count, 600);
    assert_eq!(write.rate, Some(1050));

    let idle = QueueFacts { consumers: 0, ..q };
    let m = queue_to_metrics(&idle);
    let read = m.reads.get("messages").unwrap();
    assert_eq!(read.count, 0);
    assert_eq!(read.rate, None);
    assert_eq!(read.backlog, Some(100));

    let mut consumers: NameMap<u64> = NameMap::new();
    let _ = consumers.insert("worker", 70);
    let m = stream_to_metrics(100, &consumers);
    assert_eq!(m.writes.get("stream").unwrap().count, 100);
    let r = m.reads.get("worker").unwrap();
    assert_eq!(r.count, 70);
    assert_eq!(r.backlog, Some(30));
}

#[test]
fn partition_offset_sums() {
    let parts = vec![(10i64, Some(15i64)), (20, Some(20)), (-1, Some(5)), (7, None)];
    let (committed, lag) = sum_partition_offsets(&parts);
    assert_eq!(committed, 37);
    assert_eq!(lag, 5);
}
