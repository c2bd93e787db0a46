use std::mem::{align_of, size_of};
use std::time::Instant;

use unshroud::buffer::{MetricPoint, MetricType};
use unshroud::protocol::{
    hash_bytes, hash_metric_id, EventPayload, HeartbeatPayload, MetricPayload, PluginMessage,
};
use unshroud::state::CoreState;

#[test]
fn test_metric_point_layout() {
    assert_eq!(size_of::<MetricPoint>(), 24, "MetricPoint should be 24 bytes");
    assert_eq!(
        align_of::<MetricPoint>(),
        4,
        "MetricPoint should be 4-byte aligned (u32 fields, [u8;8] value)"
    );
}

#[test]
fn test_hash_metric_id_deterministic() {
    let id = "cpu.load.avg1";
    let h1 = hash_metric_id(id);
    let h2 = hash_metric_id(id);
    assert_eq!(h1, h2, "Hash must be deterministic");

    let h3 = hash_metric_id("cpu.load.avg5");
    assert_ne!(h1, h3, "Different ids should produce different hashes");

    let h_empty = hash_metric_id("");
    assert_eq!(h_empty, 0x811c9dc5, "FNV-1a empty string hash");
}

#[test]
fn hash_matches_known_fnv1a_values() {
    // Published FNV-1a 32-bit test vectors.
    assert_eq!(hash_metric_id("a"), 0xe40c292c);
    assert_eq!(hash_metric_id("foobar"), 0xbf9cf968);
    assert_eq!(hash_bytes(b"foobar"), 0xbf9cf968);
    // Non-ASCII names hash their UTF-8 bytes.
    assert_eq!(hash_metric_id("é"), hash_bytes(&[0xc3, 0xa9]));
}

#[test]
fn test_metric_payload_routes_to_metrics_buffer() {
    let mut state = CoreState::new(16, 8);

    let payload = MetricPayload { id: "test.cpu".to_string(), value: Some(42.5f64.to_bits()) };

    payload.process(&mut state);

    assert_eq!(state.metrics.len(), 1, "Expected 1 metric after process()");

    let points = state.metrics.drain();
    let point = &points[0];

    assert_eq!(point.metric_id, hash_metric_id("test.cpu"));
    assert_eq!(point.metric_type, MetricType::Float as u8);

    let val = f64::from_bits(point.as_float().unwrap());
    assert!((val - 42.5).abs() < f64::EPSILON, "Value mismatch: {}", val);

    assert!(point.timestamp < 10, "Timestamp offset too large: {}", point.timestamp);
}

#[test]
fn metric_payload_without_value_changes_nothing() {
    let mut state = CoreState::new(4, 4);
    MetricPayload { id: "x".to_string(), value: None }.process(&mut state);
    assert_eq!(state.metrics.len(), 0);
    assert_eq!(state.events.drain().len(), 0);
}

#[test]
fn test_event_payload_routes_to_events_buffer() {
    let mut state = CoreState::new(8, 16);

    let payload = EventPayload { level: "warn".to_string(), message: "Test alert".to_string() };

    payload.process(&mut state);

    let events = state.events.drain();
    assert_eq!(events.len(), 1, "Expected 1 event after process()");
    assert!(events[0].contains("[warn]"), "Event should contain level");
    assert!(events[0].contains("Test alert"), "Event should contain message");
}

#[test]
fn event_text_is_level_in_brackets_then_message() {
    let mut state = CoreState::new(8, 16);
    EventPayload { level: "error".to_string(), message: "disk full".to_string() }.process(&mut state);
    assert_eq!(state.events.drain(), vec!["[error] disk full".to_string()]);
}

#[test]
fn test_heartbeat_payload_is_noop() {
    let mut state = CoreState::new(8, 8);
    let initial_metrics = state.metrics.len();
    let initial_events = state.events.drain().len();

    let payload = HeartbeatPayload { status: "ok".to_string(), load: Some("low".to_string()) };

    payload.process(&mut state);

    assert_eq!(state.metrics.len(), initial_metrics, "Heartbeat should not push metrics");
    assert_eq!(state.events.drain().len(), initial_events, "Heartbeat should not push events");
}

#[test]
fn test_plugin_message_enum_dispatch() {
    let mut state = CoreState::new(16, 16);

    let msg = PluginMessage::Metric(MetricPayload {
        id: "dispatch.test".to_string(),
        value: Some(1.0f64.to_bits()),
    });
    msg.route(&mut state);
    assert_eq!(state.metrics.len(), 1);

    let msg = PluginMessage::Event(EventPayload {
        level: "info".to_string(),
        message: "Dispatched".to_string(),
    });
    msg.route(&mut state);
    assert_eq!(state.events.drain().len(), 1);

    let msg = PluginMessage::Heartbeat(HeartbeatPayload { status: "ok".to_string(), load: None });
    msg.route(&mut state);
}

#[test]
fn test_protocol_throughput_cpu_only() {
    let mut state = CoreState::new(1024, 256);
    const N: usize = 100_000;

    let start = Instant::now();
    for i in 0..N {
        let msg = PluginMessage::Metric(MetricPayload {
            id: format!("bench.{}", i),
            value: Some((i as f64 * 0.1).to_bits()),
        });
        msg.route(&mut state);
    }
    let elapsed = start.elapsed();

    let rps = N as f64 / elapsed.as_secs_f64();
    println!("Protocol CPU throughput: {:.0} msg/sec ({} msgs in {:?})", rps, N, elapsed);

    assert!(rps > 500_000.0, "Protocol dispatch too slow: {:.0}", rps);

    assert_eq!(state.metrics.len(), N.min(1024), "Buffer should contain min(N, capacity)");
}

#[test]
fn hashing_continues_over_a_suffix() {
    let prefix = hash_metric_id("plugin.");
    let continued = "netmon".bytes().fold(prefix, |h, b| (h ^ b as u32).wrapping_mul(0x01000193));
    assert_eq!(continued, hash_metric_id("plugin.netmon"));
}
