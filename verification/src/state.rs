use vstd::prelude::*;
use std::collections::{HashMap, VecDeque};
use std::time::Instant;

use crate::buffer::RingBuffer;
use crate::clock;

verus! {

/// What an event log of capacity `cap` holds after `e` is appended to
/// contents `s`: when it already holds `cap` or more entries (and at least
/// one), the oldest leaves first.
pub open spec fn event_push(s: Seq<Seq<char>>, cap: nat, e: Seq<char>) -> Seq<Seq<char>> {
    if s.len() >= cap && s.len() > 0 {
        s.drop_first().push(e)
    } else {
        s.push(e)
    }
}

/// What an event log of capacity `cap` holds after each of `es` is appended in order.
pub open spec fn event_push_all(s: Seq<Seq<char>>, cap: nat, es: Seq<Seq<char>>) -> Seq<Seq<char>>
    decreases es.len(),
{
    if es.len() == 0 {
        s
    } else {
        event_push(event_push_all(s, cap, es.drop_last()), cap, es.last())
    }
}

/// An event log of capacity `cap > 0` that starts empty keeps exactly the
/// newest `min(n, cap)` of the `n` events appended to it, oldest first.
pub proof fn lemma_event_log_keeps_newest(cap: nat, es: Seq<Seq<char>>)
    requires
        cap > 0,
    ensures
        event_push_all(Seq::empty(), cap, es) == es.subrange(
            if es.len() > cap { es.len() - cap } else { 0int },
            es.len() as int,
        ),
    decreases es.len(),
{
    lemma_event_push_all_is_ring(cap, es);
    crate::buffer::lemma_ring_keeps_newest(Seq::<Seq<char>>::empty(), cap, es);
    assert(Seq::<Seq<char>>::empty() + es =~= es);
}

/// A log of capacity `cap > 0` holding `s` (never more than `cap` events)
/// keeps, after `e` is appended, the newest `min(|s| + 1, cap)` events of
/// `s + [e]`, oldest first.
pub proof fn lemma_event_push_keeps_newest(s: Seq<Seq<char>>, cap: nat, e: Seq<char>)
    requires
        cap > 0,
        s.len() <= cap,
    ensures
        event_push(s, cap, e) == s.push(e).subrange(
            if s.len() + 1 > cap { s.len() + 1 - cap } else { 0int },
            s.len() + 1int,
        ),
        event_push(s, cap, e).len() <= cap,
{
    if s.len() >= cap {
        assert(s.drop_first().push(e) =~= s.push(e).subrange(1, s.len() + 1int));
    } else {
        assert(s.push(e) =~= s.push(e).subrange(0, s.len() + 1int));
    }
}

proof fn lemma_event_push_all_is_ring(cap: nat, es: Seq<Seq<char>>)
    requires
        cap > 0,
    ensures
        event_push_all(Seq::empty(), cap, es) == crate::buffer::ring_push_all(Seq::empty(), cap, es),
        event_push_all(Seq::empty(), cap, es).len() <= cap,
    decreases es.len(),
{
    if es.len() > 0 {
        lemma_event_push_all_is_ring(cap, es.drop_last());
        crate::buffer::lemma_ring_len_bounded(cap, es);
    }
}

/// A bounded log of text events that keeps the most recent ones.
pub struct EventBuffer {
    storage: VecDeque<String>,
    capacity: usize,
}

/// The most events a log of capacity `cap` ever holds: `cap`, or one event
/// for a log of capacity 0 (each push replaces it).
pub open spec fn event_bound(cap: nat) -> nat {
    if cap == 0 { 1 } else { cap }
}

impl EventBuffer {
    #[verifier::type_invariant]
    spec fn wf(self) -> bool {
        self.storage@.len() <= event_bound(self.capacity as nat)
    }

    /// The events held, oldest first.
    pub closed spec fn contents(self) -> Seq<Seq<char>> {
        self.storage@.map_values(|s: String| s@)
    }

    /// The capacity the log was created with.
    pub closed spec fn spec_capacity(self) -> nat {
        self.capacity as nat
    }

    /// An empty log of the given capacity.
    pub fn new(capacity: usize) -> (b: Self)
        ensures
            b@ == Seq::<Seq<char>>::empty(),
            b.spec_capacity() == capacity,
            b@.len() <= event_bound(b.spec_capacity()),
    {
        let b = EventBuffer { storage: VecDeque::with_capacity(capacity), capacity };
        assert(b.contents() =~= Seq::<Seq<char>>::empty());
        b
    }

    /// Appends an event, dropping the oldest one when the log is full.
    pub fn push(&mut self, event: &str)
        ensures
            final(self)@ == event_push(old(self)@, old(self).spec_capacity(), event@),
            final(self).spec_capacity() == old(self).spec_capacity(),
            old(self)@.len() <= event_bound(old(self).spec_capacity()),
            final(self)@.len() <= event_bound(final(self).spec_capacity()),
    {
        proof {
            use_type_invariant(&*self);
        }
        let ghost before = self.contents();
        let mut storage: VecDeque<String> = VecDeque::new();
        std::mem::swap(&mut storage, &mut self.storage);
        if storage.len() >= self.capacity {
            let _ = storage.pop_front();
        }
        storage.push_back(event.to_owned());
        proof {
            assert(storage@.map_values(|s: String| s@) =~= event_push(before, self.capacity as nat, event@));
        }
        self.storage = storage;
    }

    /// A copy of every event held, oldest first; the log is left as it is.
    pub fn drain(&self) -> (r: Vec<String>)
        ensures
            r@.map_values(|s: String| s@) == self@,
            self@.len() <= event_bound(self.spec_capacity()),
    {
        proof {
            use_type_invariant(self);
        }
        let mut r: Vec<String> = Vec::new();
        let mut i: usize = 0;
        while i < self.storage.len()
            invariant
                i <= self.storage@.len(),
                r@.len() == i,
                forall|j: int| 0 <= j < i ==> r@[j]@ == self.storage@[j]@,
            decreases self.storage@.len() - i,
        {
            r.push(self.storage[i].clone());
            i = i + 1;
        }
        assert(r@.map_values(|s: String| s@) =~= self.contents());
        r
    }
}

impl View for EventBuffer {
    type V = Seq<Seq<char>>;

    open spec fn view(&self) -> Seq<Seq<char>> {
        self.contents()
    }
}

/// The offset, in seconds, of wall-clock second `now` from `base`, as the
/// 32-bit timestamp points carry (wrapping, then truncated).
pub open spec fn spec_offset(base: u64, now: u64) -> u32 {
    now.wrapping_sub(base) as u32
}

/// The 32-bit timestamp of wall-clock second `now` relative to `base`.
pub fn offset_since(base: u64, now: u64) -> (o: u32)
    ensures
        o == spec_offset(base, now),
{
    now.wrapping_sub(base) as u32
}

/// The shared state of the agent: recent metric points, recent events, and
/// the names registered for metric ids.
pub struct CoreState {
    pub metrics: RingBuffer,
    pub events: EventBuffer,
    pub base_time: u64,
    pub metric_names: HashMap<u32, String>,
    pub cached_offset: u32,
    pub last_tick: Instant,
    pub reading: Ghost<(u128, Option<u64>)>,
}

/// The offset a state gives after a clock reading: when at least 10 ms have
/// passed since the last refresh and the wall clock reads second `now`, the
/// offset of `now` from `base`; otherwise the cached offset again.
pub open spec fn spec_next_offset(cached: u32, elapsed_ms: u128, now_secs: Option<u64>, base: u64) -> u32 {
    if elapsed_ms >= 10 {
        match now_secs {
            Some(t) => spec_offset(base, t),
            None => cached,
        }
    } else {
        cached
    }
}

/// The offset after a clock reading: `elapsed_ms` milliseconds since the last
/// refresh, the wall clock at `now_secs` (none before the Unix epoch).
pub fn next_offset(cached: u32, elapsed_ms: u128, now_secs: Option<u64>, base: u64) -> (o: u32)
    ensures
        o == spec_next_offset(cached, elapsed_ms, now_secs, base),
{
    if elapsed_ms >= 10 {
        match now_secs {
            Some(t) => offset_since(base, t),
            None => cached,
        }
    } else {
        cached
    }
}

/// Offsets of later clock readings are never smaller, while the readings
/// stay at or after `base` and less than 2^32 seconds after it; the offset is
/// then exactly the seconds elapsed since `base`.
pub proof fn lemma_offset_monotone(base: u64, t1: u64, t2: u64)
    requires
        base <= t1 <= t2,
        t2 - base < 0x1_0000_0000,
    ensures
        spec_offset(base, t1) == t1 - base,
        spec_offset(base, t2) == t2 - base,
        spec_offset(base, t1) <= spec_offset(base, t2),
{
}

/// A refresh (at least 10 ms since the last one, the wall clock reading
/// second `now`, no earlier than `base` and less than 2^32 seconds after it)
/// gives exactly the seconds elapsed since `base`, whatever was cached; a
/// reading less than 10 ms after the last refresh gives the cached offset.
pub proof fn lemma_refresh_gives_elapsed_seconds(cached: u32, elapsed_ms: u128, now: u64, base: u64)
    ensures
        elapsed_ms >= 10 && base <= now && now - base < 0x1_0000_0000 ==> spec_next_offset(
            cached,
            elapsed_ms,
            Some(now),
            base,
        ) == now - base,
        elapsed_ms < 10 ==> spec_next_offset(cached, elapsed_ms, Some(now), base) == cached,
        elapsed_ms < 10 ==> spec_next_offset(cached, elapsed_ms, None, base) == cached,
{
}

impl CoreState {
    /// The clock reading the last `current_offset` was computed from: the
    /// milliseconds of monotonic time since the refresh before it, and the
    /// wall-clock second read then (none when fewer than 10 ms had passed,
    /// or the clock read before the Unix epoch). A new state has read
    /// nothing: `(0, None)`.
    pub open spec fn last_reading(self) -> (u128, Option<u64>) {
        self.reading@
    }

    /// Empty buffers of the given capacities whose base time (and that of
    /// the metric ring) is `base_time`.
    pub fn with_base_time(metrics_capacity: usize, events_capacity: usize, base_time: u64) -> (s: Self)
        ensures
            s.metrics@ == Seq::<crate::buffer::MetricPoint>::empty(),
            s.metrics.spec_capacity() == metrics_capacity,
            s.metrics.spec_base_time() == base_time,
            s.events@ == Seq::<Seq<char>>::empty(),
            s.events.spec_capacity() == events_capacity,
            s.base_time == base_time,
            s.metric_names@ == Map::<u32, String>::empty(),
            s.cached_offset == 0,
            s.last_reading() == (0u128, None::<u64>),
    {
        CoreState {
            metrics: RingBuffer::with_base_time(metrics_capacity, base_time),
            events: EventBuffer::new(events_capacity),
            base_time,
            cached_offset: 0,
            last_tick: clock::instant_now(),
            metric_names: HashMap::new(),
            reading: Ghost((0, None)),
        }
    }

    /// Empty buffers of the given capacities; the base time is the current
    /// wall-clock second (0 when the clock reads before the Unix epoch).
    pub fn new(metrics_capacity: usize, events_capacity: usize) -> (s: Self)
        ensures
            s.metrics@ == Seq::<crate::buffer::MetricPoint>::empty(),
            s.metrics.spec_capacity() == metrics_capacity,
            s.metrics.spec_base_time() == s.base_time,
            s.events@ == Seq::<Seq<char>>::empty(),
            s.events.spec_capacity() == events_capacity,
            s.metric_names@ == Map::<u32, String>::empty(),
            s.cached_offset == 0,
    {
        let now = clock::system_now();
        let base_time = match clock::unix_secs(&now) {
            Some(t) => t,
            None => 0,
        };
        Self::with_base_time(metrics_capacity, events_capacity, base_time)
    }

    /// The current timestamp offset from `base_time`, in seconds: the result
    /// of `next_offset` on the cached offset, the milliseconds of monotonic
    /// time since the last refresh and (when at least 10 ms have passed) the
    /// wall-clock second; that reading is kept as `last_reading`. Which
    /// readings the clocks give is not stated.
    pub fn current_offset(&mut self) -> (o: u32)
        ensures
            o == final(self).cached_offset,
            o == spec_next_offset(
                old(self).cached_offset,
                final(self).last_reading().0,
                final(self).last_reading().1,
                old(self).base_time,
            ),
            final(self).last_reading().0 < 10 ==> final(self).last_reading().1 is None,
            final(self).last_reading().0 >= 10 ==> match final(self).last_reading().1 {
                Some(t) => o == spec_offset(old(self).base_time, t),
                None => o == old(self).cached_offset,
            },
            final(self).metrics == old(self).metrics,
            final(self).events == old(self).events,
            final(self).base_time == old(self).base_time,
            final(self).metric_names == old(self).metric_names,
    {
        let elapsed_ms = clock::millis_since(&self.last_tick);
        let now_secs = if elapsed_ms >= 10 {
            let now = clock::system_now();
            clock::unix_secs(&now)
        } else {
            None
        };
        self.cached_offset = next_offset(self.cached_offset, elapsed_ms, now_secs, self.base_time);
        self.reading = Ghost((elapsed_ms, now_secs));
        if elapsed_ms >= 10 {
            self.last_tick = clock::instant_now();
        }
        self.cached_offset
    }
}

} // verus!
