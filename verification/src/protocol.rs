use vstd::prelude::*;
use vstd::string::StringExecFns;

use crate::buffer::{is_point, ring_push, MetricPoint, MetricType};
use crate::state::{event_push, CoreState};

verus! {

/// The FNV-1a offset basis for 32-bit hashes.
pub const FNV_OFFSET_BASIS: u32 = 0x811c9dc5;

/// The FNV-1a prime for 32-bit hashes.
pub const FNV_PRIME: u32 = 0x01000193;

/// One FNV-1a round: fold a byte into the running hash.
pub open spec fn fnv1a_step(h: u32, b: u8) -> u32 {
    (h ^ (b as u32)).wrapping_mul(FNV_PRIME)
}

/// The 32-bit FNV-1a hash of a byte sequence.
pub open spec fn fnv1a(bytes: Seq<u8>) -> u32
    decreases bytes.len(),
{
    if bytes.len() == 0 {
        FNV_OFFSET_BASIS
    } else {
        fnv1a_step(fnv1a(bytes.drop_last()), bytes.last())
    }
}

/// FNV-1a continued from running hash `h` over `bytes`.
pub open spec fn fnv1a_from(h: u32, bytes: Seq<u8>) -> u32
    decreases bytes.len(),
{
    if bytes.len() == 0 {
        h
    } else {
        fnv1a_step(fnv1a_from(h, bytes.drop_last()), bytes.last())
    }
}

proof fn lemma_fnv1a_is_from_basis(bytes: Seq<u8>)
    ensures
        fnv1a(bytes) == fnv1a_from(FNV_OFFSET_BASIS, bytes),
    decreases bytes.len(),
{
    if bytes.len() > 0 {
        lemma_fnv1a_is_from_basis(bytes.drop_last());
    }
}

proof fn lemma_fnv1a_from_concat(h: u32, a: Seq<u8>, b: Seq<u8>)
    ensures
        fnv1a_from(h, a + b) == fnv1a_from(fnv1a_from(h, a), b),
    decreases b.len(),
{
    if b.len() == 0 {
        assert(a + b =~= a);
    } else {
        lemma_fnv1a_from_concat(h, a, b.drop_last());
        assert((a + b).drop_last() =~= a + b.drop_last());
        assert((a + b).last() == b.last());
    }
}

proof fn lemma_utf8_concat(a: Seq<char>, b: Seq<char>)
    ensures
        vstd::utf8::encode_utf8(a + b) == vstd::utf8::encode_utf8(a) + vstd::utf8::encode_utf8(b),
    decreases a.len(),
{
    if a.len() == 0 {
        assert(a + b =~= b);
        assert(vstd::utf8::encode_utf8(a) + vstd::utf8::encode_utf8(b) =~= vstd::utf8::encode_utf8(b));
    } else {
        lemma_utf8_concat(a.drop_first(), b);
        assert((a + b).drop_first() =~= a.drop_first() + b);
        assert((a + b)[0] == a[0]);
        let x = vstd::utf8::encode_scalar(a[0] as u32);
        let ea = vstd::utf8::encode_utf8(a.drop_first());
        let eb = vstd::utf8::encode_utf8(b);
        assert(x + (ea + eb) =~= (x + ea) + eb);
    }
}

/// Hashing is incremental: the hash of a concatenated name is FNV-1a
/// continued from the hash of its first part over the UTF-8 bytes of the rest.
pub proof fn lemma_metric_id_concat(a: Seq<char>, b: Seq<char>)
    ensures
        spec_metric_id(a + b) == fnv1a_from(spec_metric_id(a), vstd::utf8::encode_utf8(b)),
{
    let ea = vstd::utf8::encode_utf8(a);
    let eb = vstd::utf8::encode_utf8(b);
    lemma_utf8_concat(a, b);
    lemma_fnv1a_is_from_basis(ea + eb);
    lemma_fnv1a_is_from_basis(ea);
    lemma_fnv1a_from_concat(FNV_OFFSET_BASIS, ea, eb);
}

/// The id a metric name is filed under: the FNV-1a hash of its UTF-8 bytes.
pub open spec fn spec_metric_id(name: Seq<char>) -> u32 {
    fnv1a(vstd::utf8::encode_utf8(name))
}

/// Hashes raw bytes with 32-bit FNV-1a.
pub fn hash_bytes(bytes: &[u8]) -> (h: u32)
    ensures
        h == fnv1a(bytes@),
{
    let mut h: u32 = FNV_OFFSET_BASIS;
    let mut i: usize = 0;
    while i < bytes.len()
        invariant
            i <= bytes@.len(),
            h == fnv1a(bytes@.subrange(0, i as int)),
        decreases bytes@.len() - i,
    {
        proof {
            assert(bytes@.subrange(0, i + 1).drop_last() =~= bytes@.subrange(0, i as int));
        }
        h = h ^ (bytes[i] as u32);
        h = h.wrapping_mul(FNV_PRIME);
        i = i + 1;
    }
    proof {
        assert(bytes@.subrange(0, bytes@.len() as int) =~= bytes@);
    }
    h
}

/// The numeric id of a metric name: the FNV-1a hash of its UTF-8 bytes.
pub fn hash_metric_id(id: &str) -> (h: u32)
    ensures
        h == spec_metric_id(id@),
{
    hash_bytes(id.as_bytes())
}

/// The text an event is logged as: `[level] message`.
pub open spec fn event_text(level: Seq<char>, message: Seq<char>) -> Seq<char> {
    seq!['['] + level + seq![']', ' '] + message
}

/// A message from a plugin.
pub enum PluginMessage {
    Metric(MetricPayload),
    Event(EventPayload),
    Heartbeat(HeartbeatPayload),
}

/// A metric sample from a plugin; `value` is the IEEE-754 bit pattern of the
/// `f64` sample (`f64::to_bits`), if one was sent.
pub struct MetricPayload {
    pub id: String,
    pub value: Option<u64>,
}

/// A log event from a plugin.
pub struct EventPayload {
    pub level: String,
    pub message: String,
}

/// A liveness signal from a plugin.
pub struct HeartbeatPayload {
    pub status: String,
    pub load: Option<String>,
}

/// What routing a metric sample with value bits `v` and name `id` does to
/// the metric ring: one float point is appended, stamped with the state's
/// offset after refreshing it (see `CoreState::current_offset`).
pub open spec fn metric_routed(old_state: CoreState, new_state: CoreState, id: Seq<char>, v: u64) -> bool {
    let pts = new_state.metrics@;
    &&& pts.len() > 0
    &&& pts == ring_push(old_state.metrics@, old_state.metrics.spec_capacity(), pts.last())
    &&& is_point(pts.last(), new_state.cached_offset, spec_metric_id(id), MetricType::Float, v)
    &&& new_state.metrics.spec_capacity() == old_state.metrics.spec_capacity()
    &&& new_state.metrics.spec_base_time() == old_state.metrics.spec_base_time()
    &&& new_state.events == old_state.events
    &&& new_state.base_time == old_state.base_time
    &&& new_state.metric_names == old_state.metric_names
}

impl MetricPayload {
    /// Files the sample, if it carries a value, as a float point under the
    /// hash of its name; a sample without a value changes nothing.
    pub fn process(self, state: &mut CoreState)
        requires
            self.value is Some ==> old(state).metrics.spec_capacity() > 0,
        ensures
            match self.value {
                Some(v) => metric_routed(*old(state), *final(state), self.id@, v),
                None => *final(state) == *old(state),
            },
    {
        if let Some(val) = self.value {
            let now = state.current_offset();
            let point = MetricPoint::new_float(now, hash_metric_id(self.id.as_str()), val);
            state.metrics.push(point);
        }
    }
}

impl EventPayload {
    /// Logs the event as `[level] message`.
    pub fn process(self, state: &mut CoreState)
        ensures
            final(state).events@ == event_push(
                old(state).events@,
                old(state).events.spec_capacity(),
                event_text(self.level@, self.message@),
            ),
            final(state).events.spec_capacity() == old(state).events.spec_capacity(),
            final(state).metrics == old(state).metrics,
            final(state).base_time == old(state).base_time,
            final(state).metric_names == old(state).metric_names,
            final(state).cached_offset == old(state).cached_offset,
    {
        let open = "[";
        let close = "] ";
        proof {
            reveal_strlit("[");
            reveal_strlit("] ");
        }
        let mut text = open.to_owned();
        text.append(self.level.as_str());
        text.append(close);
        text.append(self.message.as_str());
        assert(text@ =~= event_text(self.level@, self.message@));
        state.events.push(text.as_str());
    }
}

impl HeartbeatPayload {
    /// A heartbeat changes nothing.
    pub fn process(self, state: &mut CoreState)
        ensures
            *final(state) == *old(state),
    {
    }
}

impl PluginMessage {
    /// Hands the message to the handler of its kind.
    pub fn route(self, state: &mut CoreState)
        requires
            self matches PluginMessage::Metric(m) && m.value is Some ==> old(state).metrics.spec_capacity() > 0,
        ensures
            match self {
                PluginMessage::Metric(m) => match m.value {
                    Some(v) => metric_routed(*old(state), *final(state), m.id@, v),
                    None => *final(state) == *old(state),
                },
                PluginMessage::Event(e) => {
                    &&& final(state).events@ == event_push(
                        old(state).events@,
                        old(state).events.spec_capacity(),
                        event_text(e.level@, e.message@),
                    )
                    &&& final(state).events.spec_capacity() == old(state).events.spec_capacity()
                    &&& final(state).metrics == old(state).metrics
                    &&& final(state).base_time == old(state).base_time
                    &&& final(state).metric_names == old(state).metric_names
                    &&& final(state).cached_offset == old(state).cached_offset
                },
                PluginMessage::Heartbeat(_) => *final(state) == *old(state),
            },
    {
        match self {
            PluginMessage::Metric(m) => m.process(state),
            PluginMessage::Event(e) => e.process(state),
            PluginMessage::Heartbeat(h) => h.process(state),
        }
    }
}

} // verus!
