use vstd::prelude::*;
use vstd::bytes::{spec_u64_to_le_bytes, spec_u64_from_le_bytes, u64_to_le_bytes, u64_from_le_bytes};

use crate::clock;

verus! {

broadcast use vstd::array::group_array_axioms;

/// The kind of value a metric point carries in its eight raw bytes.
#[derive(Debug, Clone, Copy, PartialEq, Eq, Structural)]
pub enum MetricType {
    Float,
    Int,
    Bool,
    Bytes,
}

impl MetricType {
    /// The one-byte code stored in a point: `Float` 0, `Int` 1, `Bool` 2, `Bytes` 3.
    pub open spec fn spec_code(self) -> u8 {
        match self {
            MetricType::Float => 0,
            MetricType::Int => 1,
            MetricType::Bool => 2,
            MetricType::Bytes => 3,
        }
    }

    /// The one-byte code of this kind.
    pub fn code(self) -> (c: u8)
        ensures
            c == self.spec_code(),
    {
        match self {
            MetricType::Float => 0,
            MetricType::Int => 1,
            MetricType::Bool => 2,
            MetricType::Bytes => 3,
        }
    }
}

/// One sample: seconds since the buffer's base time, the metric's id, the
/// kind code and eight bytes of value (little-endian), padded to 24 bytes.
#[derive(Clone, Copy)]
pub struct MetricPoint {
    pub timestamp: u32,
    pub metric_id: u32,
    pub metric_type: u8,
    pub _align: [u8; 3],
    pub raw_value: [u8; 8],
    pub _pad: [u8; 4],
}

/// Whether `p` is the point that the constructors build from these parts:
/// zero padding, the kind's code, and `value` as eight little-endian bytes.
pub open spec fn is_point(p: MetricPoint, offset_sec: u32, id: u32, kind: MetricType, value: u64) -> bool {
    &&& p.timestamp == offset_sec
    &&& p.metric_id == id
    &&& p.metric_type == kind.spec_code()
    &&& p._align@ == seq![0u8, 0u8, 0u8]
    &&& p.raw_value@ == spec_u64_to_le_bytes(value)
    &&& p._pad@ == seq![0u8, 0u8, 0u8, 0u8]
}

/// The value bytes of a point read back as a little-endian `u64`.
pub open spec fn raw_bits(p: MetricPoint) -> u64 {
    spec_u64_from_le_bytes(p.raw_value@)
}

/// The eight little-endian bytes of `v`.
fn raw_from_u64(v: u64) -> (a: [u8; 8])
    ensures
        a@ == spec_u64_to_le_bytes(v),
{
    let b = u64_to_le_bytes(v);
    let a: [u8; 8] = [b[0], b[1], b[2], b[3], b[4], b[5], b[6], b[7]];
    assert(a@ =~= b@);
    a
}

/// The `u64` whose little-endian bytes are `a`.
fn raw_to_u64(a: &[u8; 8]) -> (v: u64)
    ensures
        v == spec_u64_from_le_bytes(a@),
{
    u64_from_le_bytes(a.as_slice())
}

impl MetricPoint {
    fn build(offset_sec: u32, id: u32, kind: MetricType, value: u64) -> (p: Self)
        ensures
            is_point(p, offset_sec, id, kind, value),
    {
        let p = MetricPoint {
            timestamp: offset_sec,
            metric_id: id,
            metric_type: kind.code(),
            _align: [0u8, 0u8, 0u8],
            raw_value: raw_from_u64(value),
            _pad: [0u8, 0u8, 0u8, 0u8],
        };
        assert(p._align@ =~= seq![0u8, 0u8, 0u8]);
        assert(p._pad@ =~= seq![0u8, 0u8, 0u8, 0u8]);
        p
    }

    /// A floating-point sample, given by the IEEE-754 bit pattern of the
    /// value (`f64::to_bits`).
    pub fn new_float(offset_sec: u32, id: u32, value_bits: u64) -> (p: Self)
        ensures
            is_point(p, offset_sec, id, MetricType::Float, value_bits),
    {
        Self::build(offset_sec, id, MetricType::Float, value_bits)
    }

    /// An integer sample.
    pub fn new_int(offset_sec: u32, id: u32, val: i64) -> (p: Self)
        ensures
            is_point(p, offset_sec, id, MetricType::Int, val as u64),
    {
        Self::build(offset_sec, id, MetricType::Int, val as u64)
    }

    /// A boolean sample, stored as the integer 1 or 0.
    pub fn new_bool(offset_sec: u32, id: u32, val: bool) -> (p: Self)
        ensures
            is_point(p, offset_sec, id, MetricType::Bool, if val { 1u64 } else { 0u64 }),
    {
        let v: u64 = if val { 1 } else { 0 };
        Self::build(offset_sec, id, MetricType::Bool, v)
    }

    /// The bit pattern of the `f64` value, if this is a float sample.
    pub fn as_float(&self) -> (r: Option<u64>)
        ensures
            r == (if self.metric_type == MetricType::Float.spec_code() { Some(raw_bits(*self)) } else { None::<u64> }),
    {
        if self.metric_type == MetricType::Float.code() {
            Some(raw_to_u64(&self.raw_value))
        } else {
            None
        }
    }

    /// The integer value, if this is an integer sample.
    pub fn as_int(&self) -> (r: Option<i64>)
        ensures
            r == (if self.metric_type == MetricType::Int.spec_code() { Some(raw_bits(*self) as i64) } else { None::<i64> }),
    {
        if self.metric_type == MetricType::Int.code() {
            Some(raw_to_u64(&self.raw_value) as i64)
        } else {
            None
        }
    }

    /// The boolean value (any nonzero integer is true), if this is a boolean sample.
    pub fn as_bool(&self) -> (r: Option<bool>)
        ensures
            r == (if self.metric_type == MetricType::Bool.spec_code() { Some(raw_bits(*self) != 0) } else { None::<bool> }),
    {
        if self.metric_type == MetricType::Bool.code() {
            Some(raw_to_u64(&self.raw_value) != 0)
        } else {
            None
        }
    }

    /// The eight raw value bytes, if this is a bytes sample.
    pub fn as_bytes(&self) -> (r: Option<&[u8]>)
        ensures
            self.metric_type == MetricType::Bytes.spec_code() ==> r is Some && r->0@ == self.raw_value@,
            self.metric_type != MetricType::Bytes.spec_code() ==> r is None,
    {
        if self.metric_type == MetricType::Bytes.code() {
            Some(self.raw_value.as_slice())
        } else {
            None
        }
    }
}

/// What a ring of capacity `cap` holds after `p` is pushed onto contents
/// `s`: `p` is appended, and when the ring is full the oldest point leaves.
pub open spec fn ring_push<T>(s: Seq<T>, cap: nat, p: T) -> Seq<T> {
    if s.len() < cap {
        s.push(p)
    } else {
        s.drop_first().push(p)
    }
}

/// What a ring of capacity `cap` holds after each of `ps` is pushed in order.
pub open spec fn ring_push_all<T>(s: Seq<T>, cap: nat, ps: Seq<T>) -> Seq<T>
    decreases ps.len(),
{
    if ps.len() == 0 {
        s
    } else {
        ring_push(ring_push_all(s, cap, ps.drop_last()), cap, ps.last())
    }
}

/// A fixed-capacity ring of metric points; once full, each push overwrites
/// the oldest point.
pub struct RingBuffer {
    storage: Vec<MetricPoint>,
    capacity: usize,
    head: usize,
    count: usize,
    base_time: u64,
}

/// The storage slot of the `i`-th oldest point of a ring whose next write
/// goes to `head` and which holds `count` points.
pub open spec fn slot(head: int, count: int, cap: int, i: int) -> int {
    let s = head - count + i;
    if s < 0 { s + cap } else { s }
}

impl RingBuffer {
    #[verifier::type_invariant]
    spec fn wf(self) -> bool {
        &&& self.storage@.len() == self.capacity
        &&& self.count <= self.capacity
        &&& (self.capacity == 0 ==> self.head == 0)
        &&& (self.capacity > 0 ==> self.head < self.capacity)
    }

    /// The points held, oldest first.
    pub closed spec fn contents(self) -> Seq<MetricPoint> {
        Seq::new(
            self.count as nat,
            |i: int| self.storage@[slot(self.head as int, self.count as int, self.capacity as int, i)],
        )
    }

    /// The number of points the ring can hold.
    pub closed spec fn spec_capacity(self) -> nat {
        self.capacity as nat
    }

    /// The wall-clock second (since the Unix epoch) the ring was created at.
    pub closed spec fn spec_base_time(self) -> u64 {
        self.base_time
    }

    /// An empty ring of the given capacity with the given base time.
    pub fn with_base_time(capacity: usize, base_time: u64) -> (r: Self)
        ensures
            r@ == Seq::<MetricPoint>::empty(),
            r.spec_capacity() == capacity,
            r.spec_base_time() == base_time,
    {
        let zero = MetricPoint {
            timestamp: 0,
            metric_id: 0,
            metric_type: 0,
            _align: [0u8, 0u8, 0u8],
            raw_value: [0u8, 0u8, 0u8, 0u8, 0u8, 0u8, 0u8, 0u8],
            _pad: [0u8, 0u8, 0u8, 0u8],
        };
        let storage = vec![zero; capacity];
        let r = RingBuffer { storage, capacity, head: 0, count: 0, base_time };
        assert(r.contents() =~= Seq::<MetricPoint>::empty());
        r
    }

    /// An empty ring of the given capacity whose base time is the current
    /// wall-clock second (0 when the clock reads before the Unix epoch).
    pub fn new(capacity: usize) -> (r: Self)
        ensures
            r@ == Seq::<MetricPoint>::empty(),
            r.spec_capacity() == capacity,
    {
        let now = clock::system_now();
        let base_time = match clock::unix_secs(&now) {
            Some(s) => s,
            None => 0,
        };
        Self::with_base_time(capacity, base_time)
    }

    /// Appends a point; when the ring is full the oldest point is dropped.
    pub fn push(&mut self, point: MetricPoint)
        requires
            old(self).spec_capacity() > 0,
        ensures
            final(self)@ == ring_push(old(self)@, old(self).spec_capacity(), point),
            final(self).spec_capacity() == old(self).spec_capacity(),
            final(self).spec_base_time() == old(self).spec_base_time(),
    {
        proof {
            use_type_invariant(&*self);
        }
        let ghost before = self.contents();
        let ghost h = self.head as int;
        let ghost c = self.count as int;
        let ghost cap = self.capacity as int;
        let head = self.head;
        self.storage[head] = point;
        if head + 1 >= self.capacity {
            self.head = 0;
        } else {
            self.head = head + 1;
        }
        if self.count < self.capacity {
            self.count = self.count + 1;
        }
        proof {
            let after = self.contents();
            let expect = ring_push(before, cap as nat, point);
            if c < cap {
                assert forall|i: int| 0 <= i < c implies after[i] == expect[i] by {
                    let k = slot(h, c, cap, i);
                    assert(k != h);
                }
                assert(after[c] == point);
            } else {
                assert forall|i: int| 0 <= i < c - 1 implies after[i] == expect[i] by {
                    let k = slot(h, c, cap, i + 1);
                    assert(k != h);
                }
                assert(after[c - 1] == point);
            }
            assert(after =~= expect);
        }
    }

    /// The number of points held.
    pub fn len(&self) -> (n: usize)
        ensures
            n == self@.len(),
    {
        self.count
    }

    /// Whether no point is held.
    pub fn is_empty(&self) -> (b: bool)
        ensures
            b == (self@.len() == 0),
    {
        self.count == 0
    }

    /// The number of points the ring can hold.
    pub fn capacity(&self) -> (n: usize)
        ensures
            n == self.spec_capacity(),
    {
        self.capacity
    }

    /// The wall-clock second the ring was created at.
    pub fn base_time(&self) -> (t: u64)
        ensures
            t == self.spec_base_time(),
    {
        self.base_time
    }

    /// Takes every point out, oldest first, and leaves the ring empty.
    pub fn drain(&mut self) -> (result: Vec<MetricPoint>)
        ensures
            result@ == old(self)@,
            final(self)@ == Seq::<MetricPoint>::empty(),
            final(self).spec_capacity() == old(self).spec_capacity(),
            final(self).spec_base_time() == old(self).spec_base_time(),
    {
        proof {
            use_type_invariant(&*self);
        }
        let mut result: Vec<MetricPoint> = Vec::with_capacity(self.count);
        if self.count == 0 {
            assert(result@ =~= self.contents());
            return result;
        }
        let ghost before = self.contents();
        let mut idx: usize = if self.head >= self.count {
            self.head - self.count
        } else {
            self.head + (self.capacity - self.count)
        };
        let mut j: usize = 0;
        while j < self.count
            invariant
                self.storage@.len() == self.capacity,
                0 < self.count <= self.capacity,
                self.head < self.capacity,
                before == self.contents(),
                j <= self.count,
                idx < self.capacity,
                idx == slot(self.head as int, self.count as int, self.capacity as int, j as int)
                    || j == self.count,
                result@ == before.subrange(0, j as int),
            decreases self.count - j,
        {
            result.push(self.storage[idx]);
            proof {
                assert(result@ =~= before.subrange(0, j + 1));
            }
            if idx + 1 >= self.capacity {
                idx = 0;
            } else {
                idx = idx + 1;
            }
            j = j + 1;
        }
        self.count = 0;
        self.head = 0;
        proof {
            assert(result@ =~= before);
            assert(self.contents() =~= Seq::<MetricPoint>::empty());
        }
        result
    }
}

impl View for RingBuffer {
    type V = Seq<MetricPoint>;

    open spec fn view(&self) -> Seq<MetricPoint> {
        self.contents()
    }
}

/// A ring of capacity `cap > 0` that starts with at most `cap` items keeps
/// exactly the newest `cap` items of everything it has seen: after pushing
/// `ps` onto `s`, it holds the last `min(|s| + |ps|, cap)` items of `s + ps`,
/// oldest first.
pub proof fn lemma_ring_keeps_newest<T>(s: Seq<T>, cap: nat, ps: Seq<T>)
    requires
        cap > 0,
        s.len() <= cap,
    ensures
        ring_push_all(s, cap, ps) == (s + ps).subrange(
            if s.len() + ps.len() > cap { s.len() + ps.len() - cap } else { 0int },
            (s.len() + ps.len()) as int,
        ),
    decreases ps.len(),
{
    let n = s.len() + ps.len();
    if ps.len() == 0 {
        assert((s + ps).subrange(0, n as int) =~= s);
    } else {
        let prev = ps.drop_last();
        lemma_ring_keeps_newest(s, cap, prev);
        let r = ring_push_all(s, cap, prev);
        let lo1: int = if n - 1 > cap { n - 1 - cap } else { 0 };
        assert(r == (s + prev).subrange(lo1, n - 1));
        assert((s + prev) =~= (s + ps).subrange(0, n - 1));
        if r.len() < cap {
            assert(r.push(ps.last()) =~= (s + ps).subrange(0, n as int));
        } else {
            assert(r.drop_first().push(ps.last()) =~= (s + ps).subrange(n - cap, n as int));
        }
    }
}

/// A ring that starts empty never holds more than its capacity, and holds
/// everything pushed while that fits.
pub proof fn lemma_ring_len_bounded<T>(cap: nat, ps: Seq<T>)
    requires
        cap > 0,
    ensures
        ring_push_all(Seq::<T>::empty(), cap, ps).len() == if ps.len() < cap { ps.len() } else { cap },
        ring_push_all(Seq::<T>::empty(), cap, ps).len() <= cap,
{
    lemma_ring_keeps_newest(Seq::<T>::empty(), cap, ps);
}

/// A point built from a value gives back exactly that value as its bits:
/// the eight stored bytes decode to what was encoded.
pub proof fn lemma_point_value_roundtrip(p: MetricPoint, offset_sec: u32, id: u32, kind: MetricType, value: u64)
    requires
        is_point(p, offset_sec, id, kind, value),
    ensures
        raw_bits(p) == value,
{
    vstd::bytes::lemma_auto_spec_u64_to_from_le_bytes();
}

/// `new_int` then `as_int` gives back the integer, and a point of one kind is
/// read as no other kind.
pub proof fn lemma_int_roundtrip(p: MetricPoint, offset_sec: u32, id: u32, v: i64)
    requires
        is_point(p, offset_sec, id, MetricType::Int, v as u64),
    ensures
        raw_bits(p) as i64 == v,
        p.metric_type == MetricType::Int.spec_code(),
        p.metric_type != MetricType::Float.spec_code(),
        p.metric_type != MetricType::Bool.spec_code(),
        p.metric_type != MetricType::Bytes.spec_code(),
{
    lemma_point_value_roundtrip(p, offset_sec, id, MetricType::Int, v as u64);
    assert((v as u64) as i64 == v) by (bit_vector);
}

/// `new_bool` then `as_bool` gives back the boolean.
pub proof fn lemma_bool_roundtrip(p: MetricPoint, offset_sec: u32, id: u32, b: bool)
    requires
        is_point(p, offset_sec, id, MetricType::Bool, if b { 1u64 } else { 0u64 }),
    ensures
        (raw_bits(p) != 0) == b,
        p.metric_type == MetricType::Bool.spec_code(),
{
    lemma_point_value_roundtrip(p, offset_sec, id, MetricType::Bool, if b { 1u64 } else { 0u64 });
}

} // verus!
