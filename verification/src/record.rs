//! The canonical telemetry record and the model of its metric values.
//!
//! A metric value is an IEEE-754 double held by its 64-bit pattern, so that
//! every rule about it is a statement about integers.

use vstd::prelude::*;

verus! {

/// Bit pattern of the double 100.
pub const HUNDRED_BITS: u64 = 0x4059_0000_0000_0000u64;

/// Bit pattern of the double 200.
pub const TWO_HUNDRED_BITS: u64 = 0x4069_0000_0000_0000u64;

/// Bit pattern of the double -100.
pub const MINUS_HUNDRED_BITS: u64 = 0xC059_0000_0000_0000u64;

/// Mask of the eleven exponent bits of a double.
pub const EXPONENT_MASK: u64 = 0x7FF0_0000_0000_0000u64;

/// Mask of everything but the sign bit.
pub const MAGNITUDE_MASK: u64 = 0x7FFF_FFFF_FFFF_FFFFu64;

/// A double is finite exactly when its exponent bits are not all ones.
pub open spec fn is_finite_bits(bits: u64) -> bool {
    bits & EXPONENT_MASK != EXPONENT_MASK
}

/// An integer that orders finite doubles as their values are ordered: the
/// magnitude bits for a clear sign bit, their negation for a set one (so the
/// two zeros share the key 0).
pub open spec fn order_key(bits: u64) -> int {
    if bits & MAGNITUDE_MASK == bits {
        (bits & MAGNITUDE_MASK) as int
    } else {
        -((bits & MAGNITUDE_MASK) as int)
    }
}

/// The closed interval between two doubles, over their bit patterns.
pub open spec fn in_range_bits(bits: u64, lo: u64, hi: u64) -> bool {
    order_key(lo) <= order_key(bits) <= order_key(hi)
}

/// Whether the double with this bit pattern is neither NaN nor infinite.
pub fn finite(bits: u64) -> (r: bool)
    ensures
        r == is_finite_bits(bits),
{
    bits & EXPONENT_MASK != EXPONENT_MASK
}

/// Computes the ordering key of a bit pattern.
fn key_of(bits: u64) -> (r: i128)
    ensures
        r == order_key(bits),
{
    let mag: u64 = bits & MAGNITUDE_MASK;
    assert(mag <= 0x7FFF_FFFF_FFFF_FFFFu64) by (bit_vector)
        requires
            mag == bits & 0x7FFF_FFFF_FFFF_FFFFu64,
    ;
    if mag == bits {
        mag as i128
    } else {
        -(mag as i128)
    }
}

/// Whether a finite double lies in the closed interval `[lo, hi]` of two
/// finite doubles, all three given by their bit patterns.
pub fn in_range(bits: u64, lo: u64, hi: u64) -> (r: bool)
    ensures
        r == in_range_bits(bits, lo, hi),
{
    let k: i128 = key_of(bits);
    key_of(lo) <= k && k <= key_of(hi)
}

/// One named measurement.
#[derive(Debug, Clone)]
pub struct Metric {
    pub name: String,
    /// Bit pattern of the value.
    pub bits: u64,
}

impl View for Metric {
    type V = (Seq<char>, u64);

    open spec fn view(&self) -> (Seq<char>, u64) {
        (self.name@, self.bits)
    }
}

/// The metrics of a record as a sequence of name and bit pattern.
pub open spec fn metrics_view(ms: Seq<Metric>) -> Seq<(Seq<char>, u64)> {
    Seq::new(ms.len(), |i: int| ms[i]@)
}

/// The mapping that a sequence of metrics denotes: a name maps to the value
/// of its last entry.
pub open spec fn metrics_map(ms: Seq<(Seq<char>, u64)>) -> Map<Seq<char>, u64>
    decreases ms.len(),
{
    if ms.len() == 0 {
        Map::empty()
    } else {
        metrics_map(ms.drop_last()).insert(ms.last().0, ms.last().1)
    }
}

/// Whether no two metrics of a sequence share a name: the metrics of a
/// valid request and of a valid record are a mapping, each name once.
pub open spec fn distinct_names(ms: Seq<(Seq<char>, u64)>) -> bool {
    forall|i: int, j: int| 0 <= i < j < ms.len() ==> ms[i].0 != ms[j].0
}

/// Whether a sequence holds a metric of the given name.
pub open spec fn has_name(ms: Seq<(Seq<char>, u64)>, name: Seq<char>) -> bool {
    exists|i: int| 0 <= i < ms.len() && (#[trigger] ms[i]).0 == name
}

/// A metric sequence after a metric was put into it as into a mapping: it
/// takes the place of a metric of its name, and else comes last.
pub open spec fn upsert(ms: Seq<(Seq<char>, u64)>, m: (Seq<char>, u64)) -> Seq<(Seq<char>, u64)> {
    if has_name(ms, m.0) {
        ms.update(choose|i: int| 0 <= i < ms.len() && (#[trigger] ms[i]).0 == m.0, m)
    } else {
        ms.push(m)
    }
}

/// Putting a metric into a sequence of distinct names leaves the names
/// distinct.
pub proof fn lemma_upsert_distinct(ms: Seq<(Seq<char>, u64)>, m: (Seq<char>, u64))
    requires
        distinct_names(ms),
    ensures
        distinct_names(upsert(ms, m)),
{
    let out = upsert(ms, m);
    if has_name(ms, m.0) {
        let k = choose|i: int| 0 <= i < ms.len() && (#[trigger] ms[i]).0 == m.0;
        assert forall|i: int, j: int| 0 <= i < j < out.len() implies out[i].0 != out[j].0 by {
            assert(out[i].0 == ms[i].0 && out[j].0 == ms[j].0);
        }
    } else {
        assert forall|i: int, j: int| 0 <= i < j < out.len() implies out[i].0 != out[j].0 by {
            if j == ms.len() {
                assert(ms[i].0 != m.0);
            }
        }
    }
}

/// Puts a metric into a metric set whose names are distinct: it takes the
/// place of the metric of its name, and else comes last.
pub fn put_metric(metrics: &mut Vec<Metric>, m: Metric)
    requires
        distinct_names(metrics_view(old(metrics)@)),
    ensures
        metrics_view(final(metrics)@) == upsert(metrics_view(old(metrics)@), m@),
        distinct_names(metrics_view(final(metrics)@)),
{
    let ghost before = metrics_view(metrics@);
    proof {
        lemma_upsert_distinct(before, m@);
    }
    let mut i: usize = 0;
    while i < metrics.len()
        invariant
            i <= metrics.len(),
            before == metrics_view(metrics@),
            metrics@ == old(metrics)@,
            distinct_names(before),
            distinct_names(upsert(before, m@)),
            forall|j: int| 0 <= j < i ==> (#[trigger] before[j]).0 != m.name@,
        decreases metrics.len() - i,
    {
        if metrics[i].name == m.name {
            assert(before[i as int].0 == m@.0);
            assert(has_name(before, m@.0));
            let ghost k = choose|k: int| 0 <= k < before.len() && (#[trigger] before[k]).0 == m@.0;
            assert(k == i) by {
                if k < i {
                    assert(before[k].0 != before[i as int].0);
                } else if k > i {
                    assert(before[i as int].0 != before[k].0);
                }
            }
            metrics.set(i, m);
            assert(metrics_view(metrics@) =~= before.update(i as int, m@));
            return ;
        }
        i = i + 1;
    }
    assert(!has_name(before, m@.0));
    metrics.push(m);
    assert(metrics_view(metrics@) =~= before.push(m@));
}

/// The mapping that a sequence of metrics is read as, kept as a sequence of
/// distinct names: each metric is put into it in turn, so the last value of
/// a name stays, at the place where the name came first.
pub open spec fn as_mapping(ms: Seq<(Seq<char>, u64)>) -> Seq<(Seq<char>, u64)>
    decreases ms.len(),
{
    if ms.len() == 0 {
        Seq::empty()
    } else {
        upsert(as_mapping(ms.drop_last()), ms.last())
    }
}

/// Reading a sequence as a mapping gives distinct names, only metrics of
/// the sequence, at least one if the sequence has one, and the sequence
/// itself where its names are distinct already.
pub proof fn law_as_mapping(ms: Seq<(Seq<char>, u64)>)
    ensures
        distinct_names(as_mapping(ms)),
        forall|k: int|
            0 <= k < as_mapping(ms).len() ==> exists|i: int|
                0 <= i < ms.len() && #[trigger] ms[i] == #[trigger] as_mapping(ms)[k],
        ms.len() > 0 ==> as_mapping(ms).len() > 0,
        distinct_names(ms) ==> as_mapping(ms) == ms,
    decreases ms.len(),
{
    if ms.len() > 0 {
        let init = ms.drop_last();
        let last = ms.last();
        let mid = as_mapping(init);
        let out = as_mapping(ms);
        law_as_mapping(init);
        lemma_upsert_distinct(mid, last);
        assert forall|k: int| 0 <= k < out.len() implies exists|i: int|
            0 <= i < ms.len() && #[trigger] ms[i] == #[trigger] out[k] by {
            if out[k] == last {
                assert(ms[ms.len() - 1] == out[k]);
            } else {
                assert(out[k] == mid[k]);
                let i = choose|i: int| 0 <= i < init.len() && #[trigger] init[i] == mid[k];
                assert(ms[i] == out[k]);
            }
        }
        if distinct_names(ms) {
            assert(distinct_names(init)) by {
                assert forall|i: int, j: int| 0 <= i < j < init.len() implies init[i].0
                    != init[j].0 by {
                    assert(init[i] == ms[i] && init[j] == ms[j]);
                }
            }
            assert(mid == init);
            assert(!has_name(init, last.0)) by {
                if has_name(init, last.0) {
                    let k = choose|k: int| 0 <= k < init.len() && (#[trigger] init[k]).0 == last.0;
                    assert(ms[k].0 == init[k].0 && ms[ms.len() - 1] == last);
                }
            }
            assert(out =~= ms);
        }
    }
}

/// Reads a metric set as a mapping: of two metrics of one name the later
/// value stays.
pub fn into_mapping(metrics: &Vec<Metric>) -> (out: Vec<Metric>)
    ensures
        metrics_view(out@) == as_mapping(metrics_view(metrics@)),
        distinct_names(metrics_view(out@)),
{
    let ghost all = metrics_view(metrics@);
    let mut out: Vec<Metric> = Vec::new();
    let mut i: usize = 0;
    assert(metrics_view(out@) =~= as_mapping(all.take(0)));
    while i < metrics.len()
        invariant
            i <= metrics.len(),
            all == metrics_view(metrics@),
            metrics_view(out@) == as_mapping(all.take(i as int)),
            distinct_names(metrics_view(out@)),
        decreases metrics.len() - i,
    {
        proof {
            let next = all.take(i as int + 1);
            assert(next.drop_last() =~= all.take(i as int));
            assert(next.last() == metrics@[i as int]@);
        }
        put_metric(&mut out, Metric { name: metrics[i].name.clone(), bits: metrics[i].bits });
        i = i + 1;
    }
    assert(all.take(i as int) =~= all);
    out
}

/// One device's metric snapshot at a point in time.
#[derive(Debug, Clone)]
pub struct TelemetryRecord {
    pub device_id: String,
    /// Milliseconds since the epoch.
    pub ts: i64,
    pub metrics: Vec<Metric>,
    pub raw: Vec<u8>,
}

/// The mathematical value of a record.
pub struct RecordView {
    pub device_id: Seq<char>,
    pub ts: i64,
    pub metrics: Seq<(Seq<char>, u64)>,
    pub raw: Seq<u8>,
}

impl View for TelemetryRecord {
    type V = RecordView;

    open spec fn view(&self) -> RecordView {
        RecordView {
            device_id: self.device_id@,
            ts: self.ts,
            metrics: metrics_view(self.metrics@),
            raw: self.raw@,
        }
    }
}

} // verus!
