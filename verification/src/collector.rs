use vstd::prelude::*;

use crate::protocol::{metric_routed, MetricPayload, PluginMessage};
use crate::state::CoreState;
use crate::text::{
    chars_of, has_prefix, lines, parse_u64, parse_u64_spec, split_line_pieces, split_words,
    starts_with, strip_line_end, strip_piece, words,
};

verus! {

/// The cumulative CPU time counters of the aggregate `cpu` line of
/// `/proc/stat`, in clock ticks.
#[derive(Clone, Copy, Debug, PartialEq, Eq, Structural)]
pub struct CpuTicks {
    pub user: u64,
    pub nice: u64,
    pub system: u64,
    pub idle: u64,
    pub iowait: u64,
    pub irq: u64,
    pub softirq: u64,
    pub steal: u64,
}

impl Default for CpuTicks {
    fn default() -> (t: Self)
        ensures
            t == (CpuTicks { user: 0, nice: 0, system: 0, idle: 0, iowait: 0, irq: 0, softirq: 0, steal: 0 }),
    {
        CpuTicks { user: 0, nice: 0, system: 0, idle: 0, iowait: 0, irq: 0, softirq: 0, steal: 0 }
    }
}

/// The `k`-th counter of a line: its `(k + 1)`-th word parsed as a `u64`,
/// or 0 when that word is missing or is not a `u64`.
pub open spec fn tick_field(ws: Seq<Seq<char>>, k: int) -> u64 {
    if k + 1 < ws.len() {
        match parse_u64_spec(ws[k + 1]) {
            Some(v) => v,
            None => 0,
        }
    } else {
        0
    }
}

/// The counters a `cpu` line gives: the eight words after the first.
pub open spec fn ticks_of(line: Seq<char>) -> CpuTicks {
    let ws = words(line);
    CpuTicks {
        user: tick_field(ws, 0),
        nice: tick_field(ws, 1),
        system: tick_field(ws, 2),
        idle: tick_field(ws, 3),
        iowait: tick_field(ws, 4),
        irq: tick_field(ws, 5),
        softirq: tick_field(ws, 6),
        steal: tick_field(ws, 7),
    }
}

fn field(ws: &Vec<Vec<char>>, k: usize) -> (v: u64)
    requires
        k < 8,
    ensures
        v == tick_field(ws@.map_values(|w: Vec<char>| w@), k as int),
{
    if k + 1 < ws.len() {
        match parse_u64(&ws[k + 1]) {
            Some(v) => v,
            None => 0,
        }
    } else {
        0
    }
}

/// Reads the eight counters of a `cpu` line; a missing or malformed counter
/// reads as 0.
pub fn parse_ticks(line: &str) -> (t: CpuTicks)
    ensures
        t == ticks_of(line@),
{
    parse_line_chars(&chars_of(line))
}

/// The first of `ls`, from position `from` on, that begins with `cpu `.
pub open spec fn first_cpu_line_from(ls: Seq<Seq<char>>, from: int) -> Option<int>
    decreases ls.len() - from,
{
    if from < 0 || from >= ls.len() {
        None
    } else if has_prefix(ls[from], "cpu "@) {
        Some(from)
    } else {
        first_cpu_line_from(ls, from + 1)
    }
}

/// The counters of the first line of `content` that begins with `cpu `, if any.
pub open spec fn stat_ticks(content: Seq<char>) -> Option<CpuTicks> {
    match first_cpu_line_from(lines(content), 0) {
        Some(i) => Some(ticks_of(lines(content)[i])),
        None => None,
    }
}

/// Finds the aggregate `cpu ` line of a `/proc/stat` text and reads its counters.
pub fn parse_stat(content: &str) -> (r: Option<CpuTicks>)
    ensures
        r == stat_ticks(content@),
{
    let chars = chars_of(content);
    let pieces = split_line_pieces(&chars);
    let ghost ls = lines(content@);
    let prefix_str = "cpu ";
    proof {
        reveal_strlit("cpu ");
    }
    let prefix = chars_of(prefix_str);
    let mut i: usize = 0;
    while i < pieces.len()
        invariant
            pieces@.map_values(|w: Vec<char>| w@).map_values(|p: Seq<char>| strip_line_end(p)) == ls,
            ls == lines(content@),
            prefix@ == "cpu "@,
            i <= pieces@.len(),
            first_cpu_line_from(ls, 0) == first_cpu_line_from(ls, i as int),
        decreases pieces@.len() - i,
    {
        let line = strip_piece(&pieces[i]);
        assert(line@ == ls[i as int]);
        if starts_with(&line, &prefix) {
            let ticks = parse_line_chars(&line);
            return Some(ticks);
        }
        i = i + 1;
    }
    None
}

/// The counters of a line given as characters.
fn parse_line_chars(line: &Vec<char>) -> (t: CpuTicks)
    ensures
        t == ticks_of(line@),
{
    let ws = split_words(line);
    CpuTicks {
        user: field(&ws, 0),
        nice: field(&ws, 1),
        system: field(&ws, 2),
        idle: field(&ws, 3),
        iowait: field(&ws, 4),
        irq: field(&ws, 5),
        softirq: field(&ws, 6),
        steal: field(&ws, 7),
    }
}

/// Whether every counter of `curr` is at least that of `prev` and the sum
/// of the differences fits in 64 bits.
pub open spec fn ticks_advance(prev: CpuTicks, curr: CpuTicks) -> bool {
    &&& curr.user >= prev.user
    &&& curr.nice >= prev.nice
    &&& curr.system >= prev.system
    &&& curr.idle >= prev.idle
    &&& curr.iowait >= prev.iowait
    &&& curr.irq >= prev.irq
    &&& curr.softirq >= prev.softirq
    &&& curr.steal >= prev.steal
    &&& (curr.user - prev.user) + (curr.nice - prev.nice) + (curr.system - prev.system) + (curr.idle
        - prev.idle) + (curr.iowait - prev.iowait) + (curr.irq - prev.irq) + (curr.softirq
        - prev.softirq) + (curr.steal - prev.steal) <= u64::MAX
}

/// Whether every counter advanced from `prev` to `curr` and the total of
/// the differences fits in 64 bits (what `tick_deltas` needs).
pub fn counters_advance(prev: &CpuTicks, curr: &CpuTicks) -> (b: bool)
    ensures
        b == ticks_advance(*prev, *curr),
{
    if curr.user < prev.user || curr.nice < prev.nice || curr.system < prev.system || curr.idle
        < prev.idle || curr.iowait < prev.iowait || curr.irq < prev.irq || curr.softirq
        < prev.softirq || curr.steal < prev.steal {
        return false;
    }
    let total: u128 = (curr.user - prev.user) as u128 + (curr.nice - prev.nice) as u128 + (
    curr.system - prev.system) as u128 + (curr.idle - prev.idle) as u128 + (curr.iowait
        - prev.iowait) as u128 + (curr.irq - prev.irq) as u128 + (curr.softirq - prev.softirq) as u128
        + (curr.steal - prev.steal) as u128;
    total <= u64::MAX as u128
}

/// The ticks that passed between two readings, in total and idle (idle plus
/// I/O wait). The CPU usage over the interval is `1 - idle / total`, or 0
/// when no tick passed.
pub fn tick_deltas(prev: &CpuTicks, curr: &CpuTicks) -> (r: (u64, u64))
    requires
        ticks_advance(*prev, *curr),
    ensures
        r.0 == (curr.user - prev.user) + (curr.nice - prev.nice) + (curr.system - prev.system) + (
        curr.idle - prev.idle) + (curr.iowait - prev.iowait) + (curr.irq - prev.irq) + (
        curr.softirq - prev.softirq) + (curr.steal - prev.steal),
        r.1 == (curr.idle - prev.idle) + (curr.iowait - prev.iowait),
        r.1 <= r.0,
{
    let total = (curr.user - prev.user) + (curr.nice - prev.nice) + (curr.system - prev.system) + (
    curr.idle - prev.idle) + (curr.iowait - prev.iowait) + (curr.irq - prev.irq) + (curr.softirq
        - prev.softirq) + (curr.steal - prev.steal);
    let idle = (curr.idle - prev.idle) + (curr.iowait - prev.iowait);
    (total, idle)
}

/// Files a CPU usage sample (the bit pattern of an `f64` in [0, 1]) under
/// `internal.cpu.usage`.
pub fn route_cpu_metric(state: &mut CoreState, usage_bits: u64)
    requires
        old(state).metrics.spec_capacity() > 0,
    ensures
        metric_routed(*old(state), *final(state), "internal.cpu.usage"@, usage_bits),
{
    let id = "internal.cpu.usage";
    PluginMessage::Metric(MetricPayload { id: id.to_owned(), value: Some(usage_bits) }).route(state);
}

} // verus!
