use unshroud::buffer::MetricPoint;
use unshroud::state::{next_offset, offset_since, CoreState, EventBuffer};

#[test]
fn event_log_keeps_the_newest_events() {
    let mut ev = EventBuffer::new(2);
    ev.push("a");
    ev.push("b");
    ev.push("c");
    assert_eq!(ev.drain(), vec!["b".to_string(), "c".to_string()]);
    // reading does not empty the log
    assert_eq!(ev.drain().len(), 2);
}

#[test]
fn event_log_of_capacity_zero_keeps_the_last_event() {
    let mut ev = EventBuffer::new(0);
    assert!(ev.drain().is_empty());
    ev.push("x");
    ev.push("y");
    assert_eq!(ev.drain(), vec!["y".to_string()]);
}

#[test]
fn core_state_starts_empty() {
    let mut s = CoreState::new(4, 2);
    assert_eq!(s.metrics.len(), 0);
    assert_eq!(s.metrics.capacity(), 4);
    assert!(s.events.drain().is_empty());
    assert!(s.metric_names.is_empty());
    assert!(s.base_time > 0);
    let o = s.current_offset();
    assert!(o < 10);
    s.metrics.push(MetricPoint::new_int(o, 1, 1));
    assert_eq!(s.metrics.len(), 1);
}

#[test]
fn offsets_are_seconds_since_base_truncated_to_32_bits() {
    assert_eq!(offset_since(100, 130), 30);
    assert_eq!(offset_since(0, (1u64 << 32) + 5), 5);
    assert_eq!(offset_since(10, 9), u32::MAX);
}

#[test]
fn offset_refreshes_only_after_ten_milliseconds() {
    assert_eq!(next_offset(7, 9, Some(150), 100), 7);
    assert_eq!(next_offset(7, 10, Some(150), 100), 50);
    assert_eq!(next_offset(7, 500, None, 100), 7);
    assert_eq!(next_offset(7, 0, None, 100), 7);
}

#[test]
fn core_state_with_a_given_base_time() {
    let mut s = CoreState::with_base_time(2, 2, 1234);
    assert_eq!(s.base_time, 1234);
    assert_eq!(s.metrics.base_time(), 1234);
    assert_eq!(s.cached_offset, 0);
    s.events.push("a");
    s.events.push("b");
    s.events.push("c");
    assert_eq!(s.events.drain(), vec!["b".to_string(), "c".to_string()]);
}
