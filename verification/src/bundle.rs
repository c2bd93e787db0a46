use vstd::prelude::*;
use vstd::bytes::{spec_u32_to_le_bytes, u32_to_le_bytes};
use vstd::string::StringExecFns;

use crate::buffer::MetricPoint;
use crate::text::{append_decimal, decimal};

verus! {

/// An error of the standard I/O library.
#[verifier::external_type_specification]
#[verifier::external_body]
pub struct ExIoError(std::io::Error);

/// The zstd frame that `zstd::stream::encode_all` produces for `data` at
/// compression level `level`.
pub uninterp spec fn zstd_frame(data: Seq<u8>, level: i32) -> Seq<u8>;

/// `zstd::stream::encode_all`: compresses `data` into one zstd frame at
/// compression level `level`, as a streaming `zstd::Encoder` would. Claimed:
/// on success the bytes are `zstd_frame(data, level)`; what the frame holds
/// is not stated. Success itself is not claimed: the C library returns a
/// `memory_allocation` error, which the crate passes on as `Err`, when it
/// cannot allocate its working space.
#[verifier::external_body]
fn zstd_encode_all(data: &[u8], level: i32) -> (r: Result<Vec<u8>, std::io::Error>)
    ensures
        r matches Ok(v) ==> v@ == zstd_frame(data@, level),
{
    zstd::stream::encode_all(data, level)
}

/// The zstd compression level of bundles.
pub const COMPRESSION_LEVEL: i32 = 3;

/// The 24 bytes a metric point is stored as: timestamp and metric id
/// (little-endian), the kind code, three padding bytes, the eight value
/// bytes and four padding bytes.
pub open spec fn point_bytes(p: MetricPoint) -> Seq<u8> {
    spec_u32_to_le_bytes(p.timestamp) + spec_u32_to_le_bytes(p.metric_id) + seq![p.metric_type]
        + p._align@ + p.raw_value@ + p._pad@
}

/// The points stored one after another.
pub open spec fn points_bytes(ps: Seq<MetricPoint>) -> Seq<u8>
    decreases ps.len(),
{
    if ps.len() == 0 {
        Seq::empty()
    } else {
        points_bytes(ps.drop_last()) + point_bytes(ps.last())
    }
}

/// An event stored as its UTF-8 length (32 bits, little-endian) and bytes.
pub open spec fn event_bytes(e: Seq<char>) -> Seq<u8> {
    let b = vstd::utf8::encode_utf8(e);
    spec_u32_to_le_bytes(b.len() as u32) + b
}

/// The events stored one after another.
pub open spec fn events_bytes(es: Seq<Seq<char>>) -> Seq<u8>
    decreases es.len(),
{
    if es.len() == 0 {
        Seq::empty()
    } else {
        events_bytes(es.drop_last()) + event_bytes(es.last())
    }
}

/// The uncompressed content of a bundle: the number of points (32 bits,
/// little-endian), the points, the number of events, the events.
pub open spec fn bundle_payload(ps: Seq<MetricPoint>, es: Seq<Seq<char>>) -> Seq<u8> {
    spec_u32_to_le_bytes(ps.len() as u32) + points_bytes(ps) + spec_u32_to_le_bytes(es.len() as u32)
        + events_bytes(es)
}

/// The views of a slice of string slices.
pub open spec fn texts(es: Seq<&str>) -> Seq<Seq<char>> {
    es.map_values(|e: &str| e@)
}

fn append_bytes(out: &mut Vec<u8>, src: &[u8])
    ensures
        final(out)@ == old(out)@ + src@,
{
    let ghost start = out@;
    let mut i: usize = 0;
    while i < src.len()
        invariant
            i <= src@.len(),
            out@ == start + src@.subrange(0, i as int),
        decreases src@.len() - i,
    {
        out.push(src[i]);
        i = i + 1;
        proof {
            assert(out@ =~= start + src@.subrange(0, i as int));
        }
    }
    proof {
        assert(src@.subrange(0, src@.len() as int) =~= src@);
    }
}

fn append_u32(out: &mut Vec<u8>, x: u32)
    ensures
        final(out)@ == old(out)@ + spec_u32_to_le_bytes(x),
{
    let b = u32_to_le_bytes(x);
    append_bytes(out, b.as_slice());
}

/// Appends the 24 stored bytes of a point.
fn append_point(out: &mut Vec<u8>, p: &MetricPoint)
    ensures
        final(out)@ == old(out)@ + point_bytes(*p),
{
    let ghost start = out@;
    append_u32(out, p.timestamp);
    append_u32(out, p.metric_id);
    out.push(p.metric_type);
    append_bytes(out, p._align.as_slice());
    append_bytes(out, p.raw_value.as_slice());
    append_bytes(out, p._pad.as_slice());
    proof {
        assert(out@ =~= start + point_bytes(*p));
    }
}

/// The uncompressed content of a bundle of these points and events.
pub fn encode_payload(metrics: &[MetricPoint], events: &[&str]) -> (r: Vec<u8>)
    ensures
        r@ == bundle_payload(metrics@, texts(events@)),
{
    let mut out: Vec<u8> = Vec::new();
    append_u32(&mut out, metrics.len() as u32);
    let ghost head = out@;
    let mut i: usize = 0;
    while i < metrics.len()
        invariant
            i <= metrics@.len(),
            out@ == head + points_bytes(metrics@.subrange(0, i as int)),
        decreases metrics@.len() - i,
    {
        proof {
            assert(metrics@.subrange(0, i + 1).drop_last() =~= metrics@.subrange(0, i as int));
        }
        append_point(&mut out, &metrics[i]);
        i = i + 1;
        proof {
            assert(out@ =~= head + points_bytes(metrics@.subrange(0, i as int)));
        }
    }
    proof {
        assert(metrics@.subrange(0, metrics@.len() as int) =~= metrics@);
    }
    append_u32(&mut out, events.len() as u32);
    let ghost mid = out@;
    let ghost es = texts(events@);
    let mut j: usize = 0;
    while j < events.len()
        invariant
            j <= events@.len(),
            es == texts(events@),
            out@ == mid + events_bytes(es.subrange(0, j as int)),
        decreases events@.len() - j,
    {
        proof {
            assert(es.subrange(0, j + 1).drop_last() =~= es.subrange(0, j as int));
            assert(es.subrange(0, j + 1).last() == events@[j as int]@);
        }
        let b = events[j].as_bytes();
        append_u32(&mut out, b.len() as u32);
        append_bytes(&mut out, b);
        j = j + 1;
        proof {
            assert(out@ =~= mid + events_bytes(es.subrange(0, j as int)));
        }
    }
    proof {
        assert(es.subrange(0, es.len() as int) =~= es);
        assert(out@ =~= bundle_payload(metrics@, es));
    }
    out
}

/// The name a bundle written at wall-clock second `ts` gets: `bundle.<ts>.zst`.
pub open spec fn bundle_name(ts: u64) -> Seq<char> {
    "bundle."@ + decimal(ts as nat) + ".zst"@
}

/// The name a bundle is written under before it is complete: `.bundle.<ts>.tmp`.
pub open spec fn temp_bundle_name(ts: u64) -> Seq<char> {
    ".bundle."@ + decimal(ts as nat) + ".tmp"@
}

/// Why a bundle could not be made.
pub enum BundleError {
    /// The compressor failed.
    Compress(std::io::Error),
}

/// A bundle ready to be written: the file names (relative to the output
/// directory) and the compressed content.
pub struct PreparedBundle {
    pub temp_name: String,
    pub final_name: String,
    pub compressed: Vec<u8>,
}

/// Writes forensic bundles into one directory.
pub struct BundleBuilder {
    pub output_dir: String,
}

impl BundleBuilder {
    /// A builder writing into `output_dir`.
    pub fn new(output_dir: &str) -> (b: Self)
        ensures
            b.output_dir@ == output_dir@,
    {
        BundleBuilder { output_dir: output_dir.to_owned() }
    }

    /// The names and compressed content of the bundle of these points and
    /// events made at wall-clock second `ts`: the payload compressed as one
    /// zstd frame at level 3. It fails only when the compressor does (for
    /// want of memory); the names are relative to `output_dir`.
    pub fn prepare(&self, metrics: &[MetricPoint], events: &[&str], ts: u64) -> (r: Result<PreparedBundle, BundleError>)
        ensures
            r matches Ok(b) ==> {
                &&& b.temp_name@ == temp_bundle_name(ts)
                &&& b.final_name@ == bundle_name(ts)
                &&& b.compressed@ == zstd_frame(bundle_payload(metrics@, texts(events@)), COMPRESSION_LEVEL)
            },
    {
        let payload = encode_payload(metrics, events);
        let compressed = zstd_encode_all(payload.as_slice(), COMPRESSION_LEVEL);
        assemble_bundle(ts, compressed)
    }
}

/// The bundle made at wall-clock second `ts` from the compressor's result:
/// on success, the file names and the compressed bytes as they came; on
/// failure, the compressor's error.
pub fn assemble_bundle(ts: u64, compressed: Result<Vec<u8>, std::io::Error>) -> (r: Result<PreparedBundle, BundleError>)
    ensures
        match compressed {
            Ok(v) => r matches Ok(b) && b.temp_name@ == temp_bundle_name(ts) && b.final_name@ == bundle_name(ts)
                && b.compressed@ == v@,
            Err(e) => r matches Err(BundleError::Compress(e2)) && e2 == e,
        },
{
    match compressed {
        Ok(v) => {
            let (temp_name, final_name) = bundle_file_names(ts);
            Ok(PreparedBundle { temp_name, final_name, compressed: v })
        },
        Err(e) => Err(BundleError::Compress(e)),
    }
}

/// The temporary and final file names of the bundle made at wall-clock
/// second `ts`.
pub fn bundle_file_names(ts: u64) -> (r: (String, String))
    ensures
        r.0@ == temp_bundle_name(ts),
        r.1@ == bundle_name(ts),
{
    proof {
        reveal_strlit("bundle.");
        reveal_strlit(".zst");
        reveal_strlit(".bundle.");
        reveal_strlit(".tmp");
    }
    let mut final_name = "bundle.".to_owned();
    append_decimal(&mut final_name, ts);
    final_name.append(".zst");
    let mut temp_name = ".bundle.".to_owned();
    append_decimal(&mut temp_name, ts);
    temp_name.append(".tmp");
    (temp_name, final_name)
}

/// The total UTF-8 size of the events plus four bytes of length each.
pub open spec fn events_size(es: Seq<Seq<char>>) -> nat
    decreases es.len(),
{
    if es.len() == 0 {
        0
    } else {
        events_size(es.drop_last()) + 4 + vstd::utf8::encode_utf8(es.last()).len()
    }
}

/// A bundle's uncompressed size is 4 bytes of point count, 24 bytes per
/// point, 4 bytes of event count, and 4 bytes of length plus the UTF-8
/// bytes per event.
pub proof fn lemma_payload_size(ps: Seq<MetricPoint>, es: Seq<Seq<char>>)
    ensures
        bundle_payload(ps, es).len() == 4 + 24 * ps.len() + 4 + events_size(es),
{
    vstd::bytes::lemma_auto_spec_u32_to_from_le_bytes();
    lemma_points_size(ps);
    lemma_events_size(es);
}

/// The payload lists its parts in order: the point count, then point `i`
/// (for each `i`, in slice order) in the 24 bytes from `4 + 24 * i`, then the
/// event count, then event `i` (in order) right after the events before it.
pub proof fn lemma_payload_layout(ps: Seq<MetricPoint>, es: Seq<Seq<char>>)
    ensures
        ({
            let b = bundle_payload(ps, es);
            let ev: int = 8 + 24 * ps.len() as int;
            &&& b.subrange(0, 4) == spec_u32_to_le_bytes(ps.len() as u32)
            &&& forall|i: int| 0 <= i < ps.len() ==> b.subrange(4 + 24 * i, 4 + 24 * i + 24) == point_bytes(
                #[trigger] ps[i],
            )
            &&& b.subrange(4 + 24 * ps.len() as int, ev) == spec_u32_to_le_bytes(es.len() as u32)
            &&& forall|i: int| 0 <= i < es.len() ==> b.subrange(
                ev + events_size(es.take(i)) as int,
                ev + events_size(es.take(i + 1)) as int,
            ) == event_bytes(#[trigger] es[i])
        }),
{
    vstd::bytes::lemma_auto_spec_u32_to_from_le_bytes();
    lemma_points_size(ps);
    lemma_events_size(es);
    let pre = spec_u32_to_le_bytes(ps.len() as u32);
    let pts = points_bytes(ps);
    let cnt = spec_u32_to_le_bytes(es.len() as u32);
    let evs = events_bytes(es);
    let b = bundle_payload(ps, es);
    assert(b == pre + pts + cnt + evs);
    let ev: int = 8 + 24 * ps.len() as int;
    assert(b.subrange(0, 4) =~= pre);
    assert forall|i: int| 0 <= i < ps.len() implies b.subrange(4 + 24 * i, 4 + 24 * i + 24) == point_bytes(
        #[trigger] ps[i],
    ) by {
        lemma_point_at(ps, i);
        assert(b.subrange(4 + 24 * i, 4 + 24 * i + 24) =~= pts.subrange(24 * i, 24 * i + 24));
    }
    assert(b.subrange(4 + 24 * ps.len() as int, ev) =~= cnt);
    assert forall|i: int| 0 <= i < es.len() implies b.subrange(
        ev + events_size(es.take(i)) as int,
        ev + events_size(es.take(i + 1)) as int,
    ) == event_bytes(#[trigger] es[i]) by {
        lemma_event_at(es, i);
        lemma_events_size_monotone(es, i);
        assert(b.subrange(ev + events_size(es.take(i)) as int, ev + events_size(es.take(i + 1)) as int) =~= evs.subrange(
            events_size(es.take(i)) as int,
            events_size(es.take(i + 1)) as int,
        ));
    }
}

proof fn lemma_point_at(ps: Seq<MetricPoint>, i: int)
    requires
        0 <= i < ps.len(),
    ensures
        points_bytes(ps).len() == 24 * ps.len(),
        points_bytes(ps).subrange(24 * i, 24 * i + 24) == point_bytes(ps[i]),
    decreases ps.len(),
{
    lemma_points_size(ps);
    lemma_points_size(ps.drop_last());
    vstd::bytes::lemma_auto_spec_u32_to_from_le_bytes();
    let p = ps.last();
    assert(p._align@.len() == 3 && p.raw_value@.len() == 8 && p._pad@.len() == 4);
    let front = points_bytes(ps.drop_last());
    if i == ps.len() - 1 {
        assert(points_bytes(ps).subrange(24 * i, 24 * i + 24) =~= point_bytes(p));
    } else {
        lemma_point_at(ps.drop_last(), i);
        assert(points_bytes(ps).subrange(24 * i, 24 * i + 24) =~= front.subrange(24 * i, 24 * i + 24));
    }
}

proof fn lemma_events_size_monotone(es: Seq<Seq<char>>, i: int)
    requires
        0 <= i < es.len(),
    ensures
        events_size(es.take(i)) + event_bytes(es[i]).len() == events_size(es.take(i + 1)),
        events_size(es.take(i + 1)) <= events_size(es),
    decreases es.len(),
{
    vstd::bytes::lemma_auto_spec_u32_to_from_le_bytes();
    assert(es.take(i + 1).drop_last() =~= es.take(i));
    if i + 1 < es.len() {
        lemma_events_size_monotone(es.drop_last(), i);
        assert(es.drop_last().take(i) =~= es.take(i));
        assert(es.drop_last().take(i + 1) =~= es.take(i + 1));
    } else {
        assert(es.take(i + 1) =~= es);
    }
}

proof fn lemma_event_at(es: Seq<Seq<char>>, i: int)
    requires
        0 <= i < es.len(),
    ensures
        events_bytes(es).subrange(events_size(es.take(i)) as int, events_size(es.take(i + 1)) as int)
            == event_bytes(es[i]),
    decreases es.len(),
{
    vstd::bytes::lemma_auto_spec_u32_to_from_le_bytes();
    lemma_events_size(es);
    lemma_events_size(es.drop_last());
    lemma_events_size_monotone(es, i);
    let front = events_bytes(es.drop_last());
    if i == es.len() - 1 {
        assert(es.take(i) =~= es.drop_last());
        assert(es.take(i + 1) =~= es);
        assert(events_bytes(es).subrange(events_size(es.take(i)) as int, events_size(es.take(i + 1)) as int)
            =~= event_bytes(es[i]));
    } else {
        lemma_event_at(es.drop_last(), i);
        lemma_events_size_monotone(es.drop_last(), i);
        assert(es.drop_last().take(i) =~= es.take(i));
        assert(es.drop_last().take(i + 1) =~= es.take(i + 1));
        assert(events_bytes(es).subrange(events_size(es.take(i)) as int, events_size(es.take(i + 1)) as int)
            =~= front.subrange(events_size(es.take(i)) as int, events_size(es.take(i + 1)) as int));
    }
}

proof fn lemma_points_size(ps: Seq<MetricPoint>)
    ensures
        points_bytes(ps).len() == 24 * ps.len(),
    decreases ps.len(),
{
    vstd::bytes::lemma_auto_spec_u32_to_from_le_bytes();
    if ps.len() > 0 {
        lemma_points_size(ps.drop_last());
        let p = ps.last();
        assert(p._align@.len() == 3 && p.raw_value@.len() == 8 && p._pad@.len() == 4);
    }
}

proof fn lemma_events_size(es: Seq<Seq<char>>)
    ensures
        events_bytes(es).len() == events_size(es),
    decreases es.len(),
{
    vstd::bytes::lemma_auto_spec_u32_to_from_le_bytes();
    if es.len() > 0 {
        lemma_events_size(es.drop_last());
    }
}

} // verus!
