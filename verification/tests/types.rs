//! Tests of the value types: schema version, microsecond durations, the
//! duration codec, endpoint configurations and the adapter error texts.

use buswatch::adapters::{AdapterError, KafkaAdapterBuilder, NatsAdapterBuilder,
    RabbitMqAdapterBuilder, urlencoded};
use buswatch::duration::{format_duration, parse_duration, DurationError, Microseconds};
use buswatch::otel::OtelConfig;
use buswatch::prometheus::{escape_label_value, PrometheusConfig};
use buswatch::version::SchemaVersion;
use buswatch::SCHEMA_VERSION;
use std::time::Duration;

// ---------------------------------------------------------------------------
// Schema version
// ---------------------------------------------------------------------------

#[test]
fn current_version() {
    let v = SchemaVersion::current();
    assert_eq!(v.major, SCHEMA_VERSION);
    assert_eq!(v.minor, 0);
}

#[test]
fn new_version() {
    let v = SchemaVersion::new(2, 5);
    assert_eq!(v.major, 2);
    assert_eq!(v.minor, 5);
}

#[test]
fn is_compatible_same_major() {
    let v = SchemaVersion::new(SCHEMA_VERSION, 10);
    assert!(v.is_compatible());
}

#[test]
fn is_incompatible_different_major() {
    let v = SchemaVersion::new(SCHEMA_VERSION + 1, 0);
    assert!(!v.is_compatible());

    if SCHEMA_VERSION > 0 {
        let v2 = SchemaVersion::new(0, 0);
        assert!(!v2.is_compatible());
    }
}

#[test]
fn default_is_current() {
    let v = SchemaVersion::default();
    assert_eq!(v, SchemaVersion::current());
    assert!(v.is_compatible());
}

#[test]
fn equality() {
    let v1 = SchemaVersion::new(1, 0);
    let v2 = SchemaVersion::new(1, 0);
    let v3 = SchemaVersion::new(1, 1);
    let v4 = SchemaVersion::new(2, 0);

    assert_eq!(v1, v2);
    assert_ne!(v1, v3);
    assert_ne!(v1, v4);
}

#[test]
fn version_copy_semantics() {
    let v1 = SchemaVersion::new(1, 0);
    let v2 = v1;
    assert_eq!(v1, v2);
    assert_eq!(v1.major, 1);
}

#[test]
fn version_debug_format() {
    let v = SchemaVersion::new(1, 5);
    let debug = format!("{:?}", v);
    assert!(debug.contains("SchemaVersion"));
    assert!(debug.contains("1"));
    assert!(debug.contains("5"));
}

#[test]
fn const_new() {
    let v = SchemaVersion::new(1, 0);
    assert_eq!(v.major, 1);
    assert_eq!(v.minor, 0);
}

#[test]
fn const_current() {
    let v = SchemaVersion::current();
    assert_eq!(v.major, SCHEMA_VERSION);
}

// ---------------------------------------------------------------------------
// Microseconds
// ---------------------------------------------------------------------------

#[test]
fn test_conversions() {
    let d = Duration::from_millis(1500);
    let m = Microseconds::from_duration(d);
    assert_eq!(m.as_micros(), 1_500_000);
    assert_eq!(m.as_millis(), 1500);
    assert_eq!(m.as_secs(), 1);

    let d2: Duration = m.to_duration();
    assert_eq!(d, d2);
}

#[test]
fn from_micros() {
    let m = Microseconds::from_micros(1_500_000);
    assert_eq!(m.as_micros(), 1_500_000);
    assert_eq!(m.as_millis(), 1500);
    assert_eq!(m.as_secs(), 1);
}

#[test]
fn from_millis() {
    let m = Microseconds::from_millis(2500);
    assert_eq!(m.as_micros(), 2_500_000);
    assert_eq!(m.as_millis(), 2500);
    assert_eq!(m.as_secs(), 2);
}

#[test]
fn from_secs() {
    let m = Microseconds::from_secs(5);
    assert_eq!(m.as_micros(), 5_000_000);
    assert_eq!(m.as_millis(), 5000);
    assert_eq!(m.as_secs(), 5);
}

#[test]
fn to_duration() {
    let m = Microseconds::from_millis(567);
    let d = m.to_duration();
    assert_eq!(d, Duration::from_millis(567));
}

#[test]
fn default_is_zero() {
    let m = Microseconds::default();
    assert_eq!(m.as_micros(), 0);
    assert_eq!(m.to_duration(), Duration::ZERO);
}

#[test]
fn ordering() {
    let a = Microseconds::from_millis(100);
    let b = Microseconds::from_millis(200);
    let c = Microseconds::from_millis(100);

    assert!(a < b);
    assert!(b > a);
    assert_eq!(a, c);
    assert!(a <= c);
    assert!(a >= c);
}

#[test]
fn truncation_behavior() {
    let m = Microseconds::from_micros(1_500_999);
    assert_eq!(m.as_millis(), 1500);
    assert_eq!(m.as_secs(), 1);
}

#[test]
fn large_values() {
    let days_in_micros = 86_400_000_000u64 * 30;
    let m = Microseconds::from_micros(days_in_micros);
    assert_eq!(m.as_secs(), 86_400 * 30);
}

#[test]
fn zero_values() {
    let m = Microseconds::from_micros(0);
    assert_eq!(m.as_micros(), 0);
    assert_eq!(m.as_millis(), 0);
    assert_eq!(m.as_secs(), 0);
}

#[test]
fn duration_copy_semantics() {
    let m1 = Microseconds::from_secs(5);
    let m2 = m1;
    assert_eq!(m1, m2);
    assert_eq!(m1.as_secs(), 5);
}

#[test]
fn duration_debug_format() {
    let m = Microseconds::from_millis(1500);
    let debug = format!("{:?}", m);
    assert!(debug.contains("1500000"));
}

// ---------------------------------------------------------------------------
// Duration codec
// ---------------------------------------------------------------------------

#[test]
fn duration_test_parse_seconds() {
    let d = parse_duration("29.992671083s").unwrap();
    assert!((d as f64 / 1e9 - 29.992671083).abs() < 0.0001);
}

#[test]
fn duration_test_parse_milliseconds() {
    let d = parse_duration("988.82775ms").unwrap();
    assert!((d as f64 / 1e9 - 0.98882775).abs() < 0.0001);
}

#[test]
fn duration_test_parse_microseconds() {
    let d = parse_duration("16.958µs").unwrap();
    assert_eq!(d, 16958);
}

#[test]
fn duration_test_parse_nanoseconds() {
    let d = parse_duration("0ns").unwrap();
    assert_eq!(d, 0);
}

#[test]
fn parse_microseconds_with_us_suffix() {
    let d = parse_duration("500us").unwrap();
    assert_eq!(d, 500_000);
}

#[test]
fn parse_whole_seconds() {
    let d = parse_duration("5s").unwrap();
    assert_eq!(d / 1_000_000_000, 5);
}

#[test]
fn parse_with_whitespace() {
    let d = parse_duration("  100ms  ").unwrap();
    assert_eq!(d / 1_000_000, 100);
}

#[test]
fn parse_unknown_format_fails() {
    let result = parse_duration("100x");
    assert!(result.is_err());
}

#[test]
fn parse_invalid_number_fails() {
    let result = parse_duration("abcms");
    assert!(result.is_err());
}

#[test]
fn parse_error_variants() {
    assert_eq!(parse_duration("100x"), Err(DurationError::UnknownFormat));
    assert_eq!(parse_duration(""), Err(DurationError::UnknownFormat));
    assert_eq!(parse_duration("abcms"), Err(DurationError::InvalidNumber));
    assert_eq!(parse_duration("1.2.3s"), Err(DurationError::InvalidNumber));
    assert_eq!(parse_duration(".s"), Err(DurationError::InvalidNumber));
    assert_eq!(parse_duration("ns"), Err(DurationError::InvalidNumber));
    assert_eq!(DurationError::UnknownFormat.message(), "unknown duration format");
    assert_eq!(DurationError::InvalidNumber.message(), "invalid number");
}

#[test]
fn format_zero() {
    assert_eq!(format_duration(0), "0ns");
}

#[test]
fn format_nanoseconds() {
    assert_eq!(format_duration(500), "500ns");
}

#[test]
fn format_microseconds() {
    let s = format_duration(1500);
    assert!(s.contains("µs"));
}

#[test]
fn format_milliseconds() {
    let s = format_duration(1_500_000);
    assert!(s.contains("ms"));
}

#[test]
fn format_seconds() {
    let s = format_duration(1_500_000_000);
    assert!(s.contains("s"));
    assert!(!s.contains("ms"));
}

#[test]
fn format_large_duration() {
    let s = format_duration(3600u64 * 1_000_000_000);
    assert!(s.contains("3600"));
}

#[test]
fn duration_codec_round_trip_values() {
    // Whole nanoseconds below a microsecond survive exactly.
    for d in [0u64, 1, 999] {
        assert_eq!(parse_duration(&format_duration(d)).unwrap(), d);
    }
    // Above, the codec keeps two decimals of the printed unit.
    assert_eq!(parse_duration(&format_duration(1_000)).unwrap(), 1_000);
    assert_eq!(parse_duration(&format_duration(1_000_000)).unwrap(), 1_000_000);
    assert_eq!(parse_duration(&format_duration(1_000_000_000)).unwrap(), 1_000_000_000);
    // An arbitrary value comes back within half of the last printed digit.
    let d = 123_456_789u64;
    let rt = parse_duration(&format_duration(d)).unwrap();
    assert!(rt.abs_diff(d) <= 5_000);
}

// ---------------------------------------------------------------------------
// Adapter errors and builders
// ---------------------------------------------------------------------------

#[test]
fn error_display_http() {
    let err = AdapterError::Http("404 Not Found".to_string());
    assert_eq!(err.message(), "HTTP request failed: 404 Not Found");
}

#[test]
fn error_display_parse() {
    let err = AdapterError::Parse("invalid JSON".to_string());
    assert_eq!(err.message(), "Failed to parse response: invalid JSON");
}

#[test]
fn error_display_auth() {
    let err = AdapterError::Auth("bad credentials".to_string());
    assert_eq!(err.message(), "Authentication failed: bad credentials");
}

#[test]
fn error_display_connection() {
    let err = AdapterError::Connection("connection refused".to_string());
    assert_eq!(err.message(), "Connection failed: connection refused");
}

#[test]
fn error_display_timeout() {
    let err = AdapterError::Timeout;
    assert_eq!(err.message(), "Request timed out");
}

#[test]
fn error_display_unsupported() {
    let err = AdapterError::Unsupported("feature X".to_string());
    assert_eq!(err.message(), "Feature not supported: feature X");
}

#[test]
fn error_is_debug() {
    let err = AdapterError::Timeout;
    let debug = format!("{:?}", err);
    assert!(debug.contains("Timeout"));
}

#[test]
fn builder_default_is_empty() {
    let builder = KafkaAdapterBuilder::default();
    assert!(builder.brokers.is_none());
    assert!(builder.group_id.is_none());
    assert!(builder.group_filter.is_none());
    assert!(builder.timeout_ms.is_none());
}

#[test]
fn kafka_builder_chains_all_options() {
    let builder = KafkaAdapterBuilder::new()
        .brokers("localhost:9092")
        .group_id("test")
        .group_filter("app-")
        .timeout(15_000);

    assert_eq!(builder.brokers.unwrap(), "localhost:9092");
    assert_eq!(builder.group_id.unwrap(), "test");
    assert_eq!(builder.group_filter.unwrap(), "app-");
    assert_eq!(builder.timeout_ms.unwrap(), 15_000);
}

#[test]
fn rabbitmq_builder_custom() {
    let b = RabbitMqAdapterBuilder::new()
        .endpoint("http://rabbit.local:15672")
        .credentials("admin", "secret")
        .vhost("myapp");

    assert_eq!(b.endpoint.unwrap(), "http://rabbit.local:15672");
    assert_eq!(b.username.unwrap(), "admin");
    assert_eq!(b.password.unwrap(), "secret");
    assert_eq!(b.vhost.unwrap(), "myapp");
}

#[test]
fn nats_builder_stores_url() {
    let b = NatsAdapterBuilder::new().url("nats://localhost:4222");
    assert_eq!(b.url.unwrap(), "nats://localhost:4222");
    assert!(b.credentials.is_none());
}

#[test]
fn test_urlencoded() {
    assert_eq!(urlencoded("/"), "%2F");
    assert_eq!(urlencoded("my/vhost"), "my%2Fvhost");
    assert_eq!(urlencoded("simple"), "simple");
}

// ---------------------------------------------------------------------------
// Endpoint configurations
// ---------------------------------------------------------------------------

#[test]
fn test_prometheus_config_builder() {
    let config = PrometheusConfig::builder()
        .listen_addr("127.0.0.1:8080")
        .metrics_path("/custom-metrics")
        .namespace("myapp")
        .build();

    assert_eq!(config.listen_addr, "127.0.0.1:8080");
    assert_eq!(config.metrics_path, "/custom-metrics");
    assert_eq!(config.namespace, Some("myapp".to_string()));
}

#[test]
fn test_prometheus_config_defaults() {
    let config = PrometheusConfig::default();

    assert_eq!(config.listen_addr, "0.0.0.0:9090");
    assert_eq!(config.metrics_path, "/metrics");
    assert_eq!(config.namespace, None);
}

#[test]
fn test_escape_label_value() {
    assert_eq!(escape_label_value("simple"), "simple");
    assert_eq!(escape_label_value("with\"quote"), "with\\\"quote");
    assert_eq!(escape_label_value("with\\backslash"), "with\\\\backslash");
    assert_eq!(escape_label_value("with\nnewline"), "with\\nnewline");
}

#[test]
fn otel_config_builder_and_defaults() {
    let c = OtelConfig::builder()
        .endpoint("http://collector:4318")
        .service_name("svc")
        .build();
    assert_eq!(c.endpoint, "http://collector:4318");
    assert_eq!(c.service_name, "svc");

    let d = OtelConfig::builder().build();
    assert_eq!(d.endpoint, "http://localhost:4318");
    assert_eq!(d.service_name, "buswatch");
}
