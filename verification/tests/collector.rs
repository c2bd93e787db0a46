use std::sync::{Arc, Mutex};

use unshroud::buffer::MetricType;
use unshroud::collector::{counters_advance, parse_stat, parse_ticks, route_cpu_metric, tick_deltas, CpuTicks};
use unshroud::protocol::hash_metric_id;
use unshroud::state::CoreState;

#[test]
fn test_parse_ticks() {
    let line = "cpu  100 20 30 500 10 5 2 1 0 0";
    let ticks = parse_ticks(line);
    assert_eq!(ticks.user, 100);
    assert_eq!(ticks.nice, 20);
    assert_eq!(ticks.system, 30);
    assert_eq!(ticks.idle, 500);
    assert_eq!(ticks.iowait, 10);
    assert_eq!(ticks.irq, 5);
    assert_eq!(ticks.softirq, 2);
    assert_eq!(ticks.steal, 1);
}

#[test]
fn test_parse_ticks_missing_values() {
    let line = "cpu  100 20";
    let ticks = parse_ticks(line);
    assert_eq!(ticks.user, 100);
    assert_eq!(ticks.idle, 0);
}

#[test]
fn parse_ticks_reads_malformed_counters_as_zero() {
    let ticks = parse_ticks("cpu +7 -3 x9 18446744073709551615 18446744073709551616 4\t5\u{a0}6");
    assert_eq!(ticks.user, 7);
    assert_eq!(ticks.nice, 0);
    assert_eq!(ticks.system, 0);
    assert_eq!(ticks.idle, u64::MAX);
    assert_eq!(ticks.iowait, 0);
    assert_eq!(ticks.irq, 4);
    assert_eq!(ticks.softirq, 5);
    assert_eq!(ticks.steal, 6);
    assert_eq!(parse_ticks(""), CpuTicks::default());
    assert_eq!(parse_ticks("cpu + 1").user, 0);
}

#[test]
fn parse_stat_finds_the_aggregate_line() {
    let content = "intr 5\r\ncpu0 1 2 3 4\ncpu  10 0 5 85 0 0 0 0 0 0\r\ncpu  99\n";
    let t = parse_stat(content).unwrap();
    assert_eq!(t.user, 10);
    assert_eq!(t.system, 5);
    assert_eq!(t.idle, 85);
    assert_eq!(parse_stat("cpu0 1 2\nintr 3"), None);
    assert_eq!(parse_stat(""), None);
    assert_eq!(parse_stat("cpu 4").unwrap().user, 4);
}

#[test]
fn tick_deltas_count_total_and_idle() {
    let prev = CpuTicks { user: 100, nice: 0, system: 50, idle: 850, iowait: 0, irq: 0, softirq: 0, steal: 0 };
    let curr = CpuTicks { user: 120, nice: 0, system: 60, idle: 920, iowait: 0, irq: 0, softirq: 0, steal: 0 };
    assert_eq!(tick_deltas(&prev, &curr), (100, 70));
    let z = CpuTicks::default();
    assert_eq!(tick_deltas(&z, &z), (0, 0));
}

#[test]
fn test_route_via_plugin_api() {
    let state: Arc<Mutex<CoreState>> = Arc::new(Mutex::new(CoreState::new(64, 16)));
    {
        let mut guard = state.lock().unwrap();
        route_cpu_metric(&mut guard, 0.75f64.to_bits());
    }
    let mut guard = state.lock().unwrap();
    assert_eq!(guard.metrics.len(), 1);
    let points = guard.metrics.drain();
    assert_eq!(points[0].metric_id, hash_metric_id("internal.cpu.usage"));
    assert_eq!(points[0].metric_type, MetricType::Float as u8);
    let val = f64::from_bits(points[0].as_float().unwrap());
    assert!((val - 0.75).abs() < f64::EPSILON);
}

/// The counters as `str::split_whitespace` and `str::parse` read them.
fn reference_ticks(line: &str) -> CpuTicks {
    let mut parts = line.split_whitespace();
    parts.next();
    let mut next = || parts.next().and_then(|s| s.parse().ok()).unwrap_or(0);
    CpuTicks {
        user: next(),
        nice: next(),
        system: next(),
        idle: next(),
        iowait: next(),
        irq: next(),
        softirq: next(),
        steal: next(),
    }
}

fn reference_stat(content: &str) -> Option<CpuTicks> {
    content.lines().find(|l| l.starts_with("cpu ")).map(reference_ticks)
}

#[test]
fn parsing_agrees_with_std_on_generated_text() {
    let alphabet: Vec<char> = vec![
        'c', 'p', 'u', ' ', ' ', '1', '2', '9', '0', '+', '-', 'x', '\n', '\r', '\t', '\u{a0}',
        '\u{2003}', '\u{3000}', 'é', '\u{85}', '\u{1f600}',
    ];
    let mut seed: u64 = 0x2545f4914f6cdd1d;
    for _ in 0..4000 {
        seed ^= seed << 13;
        seed ^= seed >> 7;
        seed ^= seed << 17;
        let len = (seed % 40) as usize;
        let mut s = String::new();
        let mut x = seed;
        for _ in 0..len {
            x = x.wrapping_mul(6364136223846793005).wrapping_add(1442695040888963407);
            s.push(alphabet[((x >> 33) as usize) % alphabet.len()]);
        }
        let line = format!("cpu {}", s);
        assert_eq!(parse_ticks(&s), reference_ticks(&s), "line {:?}", s);
        assert_eq!(parse_ticks(&line), reference_ticks(&line), "line {:?}", line);
        assert_eq!(parse_stat(&s), reference_stat(&s), "text {:?}", s);
        let text = format!("x\r\n{}\ncpu 5 6\r", s);
        assert_eq!(parse_stat(&text), reference_stat(&text), "text {:?}", text);
    }
    let big = "cpu 99999999999999999999 18446744073709551615 +18446744073709551615";
    assert_eq!(parse_ticks(big), reference_ticks(big));
}

#[test]
fn counters_advance_only_forward_and_within_64_bits() {
    let z = CpuTicks::default();
    let one = CpuTicks { user: 1, ..z };
    assert!(counters_advance(&z, &z));
    assert!(counters_advance(&z, &one));
    assert!(!counters_advance(&one, &z));
    let big = CpuTicks { user: u64::MAX, idle: u64::MAX, ..z };
    assert!(!counters_advance(&z, &big));
    let max = CpuTicks { user: u64::MAX, ..z };
    assert!(counters_advance(&z, &max));
}
