//! Decoding undoes encoding.

use vstd::prelude::*;
use vstd::bytes::{lemma_auto_spec_u64_to_from_le_bytes, spec_u64_to_le_bytes};
use vstd::utf8::{encode_utf8, encode_utf8_decode_utf8, encode_utf8_valid_utf8};
use crate::kafka::Delivery;
use crate::record::{RecordView, distinct_names, has_name, metrics_map, upsert};
use crate::telemetry_handler::delivery_of;
use crate::wire::{
    FieldAt, KEY_DEVICE_ID, KEY_METRIC, KEY_NAME, KEY_RAW, KEY_TS, KEY_VALUE, bytes_field,
    decoded, empty_record, entry_bytes, entry_decoded, entry_from, entry_with, field_at,
    fixed64_field, len_delimited, metrics_bytes, record_bytes, record_from, record_with,
    text_field, varint_at, varint_bytes, varint_field,
};

verus! {

/// Whether `x` lies in `s` from position `i` on.
pub open spec fn has_at(s: Seq<u8>, i: int, x: Seq<u8>) -> bool {
    &&& 0 <= i
    &&& i + x.len() <= s.len()
    &&& s.subrange(i, i + x.len()) == x
}

/// Whether a record's metrics are a mapping, each name once, and its
/// lengths fit the length prefixes of its binary form.
pub open spec fn encodable(r: RecordView) -> bool {
    &&& distinct_names(r.metrics)
    &&& encode_utf8(r.device_id).len() <= u64::MAX
    &&& r.raw.len() <= u64::MAX
    &&& forall|k: int|
        0 <= k < r.metrics.len() ==> encode_utf8((#[trigger] r.metrics[k]).0).len() <= u64::MAX
            && entry_bytes(r.metrics[k]).len() <= u64::MAX
}

/// A varint takes between one and ten bytes.
proof fn lemma_varint_len(v: u64)
    ensures
        1 <= varint_bytes(v).len() <= 10,
{
    reveal_with_fuel(varint_bytes, 11);
}

/// A varint that lies at a position is read back there.
proof fn lemma_varint_at(s: Seq<u8>, i: int, v: u64, budget: nat)
    requires
        has_at(s, i, varint_bytes(v)),
        varint_bytes(v).len() <= budget,
    ensures
        varint_at(s, i, budget) == Some((v, i + varint_bytes(v).len())),
    decreases v,
{
    let vb = varint_bytes(v);
    assert(s.subrange(i, i + vb.len())[0] == s[i]);
    if v >= 128 {
        let rest = varint_bytes(v / 128);
        assert(vb =~= seq![(v % 128 + 128) as u8] + rest);
        assert(s.subrange(i + 1, i + 1 + rest.len()) =~= s.subrange(i, i + vb.len()).subrange(
            1,
            vb.len() as int,
        ));
        assert(vb.subrange(1, vb.len() as int) =~= rest);
        lemma_varint_at(s, i + 1, v / 128, (budget - 1) as nat);
    }
}

/// A key byte under 128 is read as a one-byte varint.
proof fn lemma_key_at(s: Seq<u8>, i: int, key: u8)
    requires
        0 <= i < s.len(),
        s[i] == key,
        key < 128,
    ensures
        varint_at(s, i, 10) == Some((key as u64, i + 1)),
{
}

/// A length-delimited field that lies at a position is found there, with
/// its body.
proof fn lemma_len_delimited_at(s: Seq<u8>, i: int, key: u8, body: Seq<u8>)
    requires
        has_at(s, i, len_delimited(key, body)),
        8 <= key < 128,
        key % 8 == 2,
        body.len() <= u64::MAX,
    ensures
        field_at(s, i) == Some(
            FieldAt {
                number: (key / 8) as u64,
                wire_type: 2,
                value: body.len() as u64,
                start: i + len_delimited(key, body).len() - body.len(),
                end: i + len_delimited(key, body).len(),
            },
        ),
        s.subrange(i + len_delimited(key, body).len() - body.len(), i + len_delimited(key, body).len())
            == body,
        len_delimited(key, body).len() > body.len(),
{
    let n = body.len() as u64;
    let vb = varint_bytes(n);
    let whole = len_delimited(key, body);
    let part = s.subrange(i, i + whole.len());
    lemma_varint_len(n);
    assert(part[0] == s[i]);
    lemma_key_at(s, i, key);
    assert(s.subrange(i + 1, i + 1 + vb.len()) =~= part.subrange(1, 1 + vb.len() as int));
    assert(whole.subrange(1, 1 + vb.len() as int) =~= vb);
    lemma_varint_at(s, i + 1, n, 10);
    assert(s.subrange(i + 1 + vb.len(), i + whole.len()) =~= part.subrange(
        1 + vb.len() as int,
        whole.len() as int,
    ));
    assert(whole.subrange(1 + vb.len() as int, whole.len() as int) =~= body);
}

/// Where a concatenation lies, both of its halves lie.
proof fn lemma_has_at_split(s: Seq<u8>, i: int, a: Seq<u8>, b: Seq<u8>)
    requires
        has_at(s, i, a + b),
    ensures
        has_at(s, i, a),
        has_at(s, i + a.len(), b),
{
    let part = s.subrange(i, i + (a + b).len());
    assert(s.subrange(i, i + a.len()) =~= part.subrange(0, a.len() as int));
    assert((a + b).subrange(0, a.len() as int) =~= a);
    assert(s.subrange(i + a.len(), i + a.len() + b.len()) =~= part.subrange(
        a.len() as int,
        (a + b).len() as int,
    ));
    assert((a + b).subrange(a.len() as int, (a + b).len() as int) =~= b);
}

/// An entry body decodes to the metric it was made from.
pub proof fn lemma_entry_round_trip(m: (Seq<char>, u64))
    requires
        encode_utf8(m.0).len() <= u64::MAX,
    ensures
        entry_decoded(entry_bytes(m)) == Some(m),
{
    let a = text_field(KEY_NAME, m.0);
    let b = fixed64_field(KEY_VALUE, m.1);
    let e = entry_bytes(m);
    assert(e.subrange(0, e.len() as int) =~= e);
    lemma_has_at_split(e, 0, a, b);
    let acc0 = (Seq::<char>::empty(), 0u64);
    let acc1 = (m.0, 0u64);
    let i = a.len() as int;
    if m.0.len() > 0 {
        lemma_len_delimited_at(e, 0, KEY_NAME, encode_utf8(m.0));
        encode_utf8_valid_utf8(m.0);
        encode_utf8_decode_utf8(m.0);
        let f1 = field_at(e, 0)->0;
        assert(entry_with(e, f1, acc0) == Some(acc1));
        assert(entry_from(e, 0, acc0) == entry_from(e, i, acc1));
    } else {
        assert(m.0 =~= Seq::<char>::empty());
    }
    assert(entry_from(e, 0, acc0) == entry_from(e, i, acc1));
    if m.1 != 0 {
        lemma_auto_spec_u64_to_from_le_bytes();
        assert(e.subrange(i, i + b.len())[0] == e[i]);
        lemma_key_at(e, i, KEY_VALUE);
        let f2 = field_at(e, i)->0;
        assert(f2.number == 2 && f2.wire_type == 1 && f2.start == i + 1 && f2.end == i + 9);
        assert(e.subrange(i + 1, i + 9) =~= e.subrange(i, i + b.len()).subrange(1, 9));
        assert(b.subrange(1, 9) =~= spec_u64_to_le_bytes(m.1));
        assert(entry_with(e, f2, acc1) == Some(m));
        assert(entry_from(e, i, acc1) == entry_from(e, i + 9, m));
    }
}

/// Metric fields that lie at a position add their metrics, in order.
proof fn lemma_metrics_at(s: Seq<u8>, i: int, ms: Seq<(Seq<char>, u64)>, acc: RecordView)
    requires
        has_at(s, i, metrics_bytes(ms)),
        distinct_names(acc.metrics + ms),
        forall|k: int|
            0 <= k < ms.len() ==> encode_utf8((#[trigger] ms[k]).0).len() <= u64::MAX
                && entry_bytes(ms[k]).len() <= u64::MAX,
    ensures
        record_from(s, i, acc) == record_from(
            s,
            i + metrics_bytes(ms).len(),
            RecordView { metrics: acc.metrics + ms, ..acc },
        ),
    decreases ms.len(),
{
    if ms.len() == 0 {
        assert(acc.metrics + ms =~= acc.metrics);
    } else {
        let init = ms.drop_last();
        let last = ms.last();
        let field = len_delimited(KEY_METRIC, entry_bytes(last));
        lemma_has_at_split(s, i, metrics_bytes(init), field);
        assert forall|k: int| 0 <= k < init.len() implies encode_utf8((#[trigger] init[k]).0).len()
            <= u64::MAX && entry_bytes(init[k]).len() <= u64::MAX by {
            assert(init[k] == ms[k]);
        }
        let all = acc.metrics + ms;
        assert(distinct_names(acc.metrics + init)) by {
            assert forall|k: int, l: int| 0 <= k < l < (acc.metrics + init).len() implies (
            acc.metrics + init)[k].0 != (acc.metrics + init)[l].0 by {
                assert((acc.metrics + init)[k] == all[k] && (acc.metrics + init)[l] == all[l]);
            }
        }
        lemma_metrics_at(s, i, init, acc);
        let j = i + metrics_bytes(init).len();
        let mid = RecordView { metrics: acc.metrics + init, ..acc };
        assert(!has_name(mid.metrics, last.0)) by {
            if has_name(mid.metrics, last.0) {
                let k = choose|k: int|
                    0 <= k < mid.metrics.len() && (#[trigger] mid.metrics[k]).0 == last.0;
                assert(all[k] == mid.metrics[k] && all[all.len() - 1] == last);
            }
        }
        assert(upsert(mid.metrics, last) == mid.metrics.push(last));
        lemma_len_delimited_at(s, j, KEY_METRIC, entry_bytes(last));
        lemma_entry_round_trip(last);
        let f = field_at(s, j)->0;
        assert(record_with(s, f, mid) == Some(
            RecordView { metrics: (acc.metrics + init).push(last), ..acc },
        ));
        assert((acc.metrics + init).push(last) =~= acc.metrics + ms);
        assert(record_from(s, j, mid) == record_from(
            s,
            j + field.len(),
            RecordView { metrics: acc.metrics + ms, ..acc },
        ));
    }
}

/// One of the four parts of a record's binary form: the device identifier
/// (0), the timestamp (1), the metrics (2) or the raw payload (3).
pub open spec fn part_bytes(r: RecordView, part: int) -> Seq<u8> {
    if part == 0 {
        text_field(KEY_DEVICE_ID, r.device_id)
    } else if part == 1 {
        varint_field(KEY_TS, r.ts as u64)
    } else if part == 2 {
        metrics_bytes(r.metrics)
    } else {
        bytes_field(KEY_RAW, r.raw)
    }
}

/// The parts of a record's binary form laid out in a given order.
pub open spec fn parts_bytes(r: RecordView, order: Seq<int>) -> Seq<u8>
    decreases order.len(),
{
    if order.len() == 0 {
        Seq::empty()
    } else {
        part_bytes(r, order[0]) + parts_bytes(r, order.skip(1))
    }
}

/// The record with the parts in `done` taken from `r` and every other part
/// at its default.
pub open spec fn partial_record(r: RecordView, done: Set<int>) -> RecordView {
    RecordView {
        device_id: if done.contains(0) {
            r.device_id
        } else {
            Seq::empty()
        },
        ts: if done.contains(1) {
            r.ts
        } else {
            0
        },
        metrics: if done.contains(2) {
            r.metrics
        } else {
            Seq::empty()
        },
        raw: if done.contains(3) {
            r.raw
        } else {
            Seq::empty()
        },
    }
}

/// Whether a sequence names each of the four parts once.
pub open spec fn names_each_part_once(order: Seq<int>) -> bool {
    &&& order.len() == 4
    &&& forall|k: int| 0 <= k < order.len() ==> 0 <= #[trigger] order[k] < 4
    &&& forall|k: int, l: int| 0 <= k < l < order.len() ==> order[k] != order[l]
    &&& forall|part: int| 0 <= part < 4 ==> order.contains(part)
}

/// A part that lies at a position sets its own component of the record
/// and leaves the others.
proof fn lemma_part_step(s: Seq<u8>, i: int, r: RecordView, part: int, done: Set<int>)
    requires
        has_at(s, i, part_bytes(r, part)),
        0 <= part < 4,
        !done.contains(part),
        encodable(r),
    ensures
        record_from(s, i, partial_record(r, done)) == record_from(
            s,
            i + part_bytes(r, part).len(),
            partial_record(r, done.insert(part)),
        ),
{
    let acc = partial_record(r, done);
    let next = partial_record(r, done.insert(part));
    let x = part_bytes(r, part);
    let t: i64 = r.ts;
    if part == 0 {
        if r.device_id.len() > 0 {
            lemma_len_delimited_at(s, i, KEY_DEVICE_ID, encode_utf8(r.device_id));
            encode_utf8_valid_utf8(r.device_id);
            encode_utf8_decode_utf8(r.device_id);
            let f = field_at(s, i)->0;
            assert(record_with(s, f, acc) == Some(next));
        } else {
            assert(r.device_id =~= Seq::<char>::empty());
            assert(next == acc);
        }
    } else if part == 1 {
        assert((t as u64) as i64 == t) by (bit_vector);
        if t as u64 != 0 {
            lemma_has_at_split(s, i, seq![KEY_TS], varint_bytes(t as u64));
            assert(s.subrange(i, i + 1)[0] == s[i]);
            lemma_key_at(s, i, KEY_TS);
            lemma_varint_len(t as u64);
            lemma_varint_at(s, i + 1, t as u64, 10);
            let f = field_at(s, i)->0;
            assert(f.number == 2 && f.wire_type == 0 && f.value == t as u64 && f.end == i
                + x.len());
            assert(record_with(s, f, acc) == Some(next));
        } else {
            assert(next == acc);
        }
    } else if part == 2 {
        assert(acc.metrics + r.metrics =~= r.metrics);
        lemma_metrics_at(s, i, r.metrics, acc);
        assert(next == RecordView { metrics: acc.metrics + r.metrics, ..acc });
    } else {
        if r.raw.len() > 0 {
            lemma_len_delimited_at(s, i, KEY_RAW, r.raw);
            let f = field_at(s, i)->0;
            assert(record_with(s, f, acc) == Some(next));
        } else {
            assert(r.raw =~= Seq::<u8>::empty());
            assert(next == acc);
        }
    }
}

/// Parts laid out from a position on set their components, whatever
/// their order.
proof fn lemma_parts_at(s: Seq<u8>, i: int, r: RecordView, rest: Seq<int>, done: Set<int>)
    requires
        has_at(s, i, parts_bytes(r, rest)),
        encodable(r),
        forall|k: int| 0 <= k < rest.len() ==> 0 <= #[trigger] rest[k] < 4 && !done.contains(rest[k]),
        forall|k: int, l: int| 0 <= k < l < rest.len() ==> rest[k] != rest[l],
    ensures
        record_from(s, i, partial_record(r, done)) == record_from(
            s,
            i + parts_bytes(r, rest).len(),
            partial_record(r, done + rest.to_set()),
        ),
    decreases rest.len(),
{
    if rest.len() == 0 {
        assert(done + rest.to_set() =~= done);
    } else {
        let head = rest[0];
        let tail = rest.skip(1);
        lemma_has_at_split(s, i, part_bytes(r, head), parts_bytes(r, tail));
        lemma_part_step(s, i, r, head, done);
        assert forall|k: int| 0 <= k < tail.len() implies 0 <= #[trigger] tail[k] < 4
            && !done.insert(head).contains(tail[k]) by {
            assert(tail[k] == rest[k + 1]);
        }
        assert forall|k: int, l: int| 0 <= k < l < tail.len() implies tail[k] != tail[l] by {
            assert(tail[k] == rest[k + 1] && tail[l] == rest[l + 1]);
        }
        lemma_parts_at(s, i + part_bytes(r, head).len(), r, tail, done.insert(head));
        assert(done.insert(head) + tail.to_set() =~= done + rest.to_set()) by {
            assert forall|x: int| rest.to_set().contains(x) <==> (x == head || tail.to_set().contains(
                x,
            )) by {
                if rest.contains(x) {
                    let k = choose|k: int| 0 <= k < rest.len() && rest[k] == x;
                    if k > 0 {
                        assert(tail[k - 1] == x);
                    }
                }
                if tail.contains(x) {
                    let k = choose|k: int| 0 <= k < tail.len() && tail[k] == x;
                    assert(rest[k + 1] == x);
                }
                if x == head {
                    assert(rest[0] == x);
                }
            }
        }
    }
}

/// Decoding does not depend on the order of the fields: the four parts of a
/// record's binary form, laid out in any order, decode to the record.
pub proof fn law_round_trip_any_order(r: RecordView, order: Seq<int>)
    requires
        encodable(r),
        names_each_part_once(order),
    ensures
        decoded(parts_bytes(r, order)) == Some(r),
{
    let s = parts_bytes(r, order);
    assert(s.subrange(0, s.len() as int) =~= s);
    lemma_parts_at(s, 0, r, order, Set::empty());
    let done = Set::<int>::empty() + order.to_set();
    assert(done.contains(0) && done.contains(1) && done.contains(2) && done.contains(3));
    assert(partial_record(r, Set::empty()) == empty_record());
    assert(partial_record(r, done) == r);
}

/// Decoding the binary form of a record gives the record back: the same
/// device identifier, timestamp, metrics in the same order, and raw payload.
pub proof fn law_round_trip(r: RecordView)
    requires
        encodable(r),
    ensures
        decoded(record_bytes(r)) == Some(r),
        metrics_map(decoded(record_bytes(r))->0.metrics) == metrics_map(r.metrics),
{
    let s = record_bytes(r);
    let a = part_bytes(r, 0);
    let b = part_bytes(r, 1);
    let c = part_bytes(r, 2);
    let d = part_bytes(r, 3);
    assert(s =~= ((a + b) + c) + d);
    assert(s.subrange(0, s.len() as int) =~= s);
    lemma_has_at_split(s, 0, (a + b) + c, d);
    lemma_has_at_split(s, 0, a + b, c);
    lemma_has_at_split(s, 0, a, b);
    let none = Set::<int>::empty();
    lemma_part_step(s, 0, r, 0, none);
    lemma_part_step(s, a.len() as int, r, 1, none.insert(0));
    lemma_part_step(s, (a + b).len() as int, r, 2, none.insert(0).insert(1));
    lemma_part_step(s, ((a + b) + c).len() as int, r, 3, none.insert(0).insert(1).insert(2));
    assert(partial_record(r, none) == empty_record());
    assert(partial_record(r, none.insert(0).insert(1).insert(2).insert(3)) == r);
}

/// The message prepared for a record is keyed by the record's device and
/// its payload decodes to the record.
pub proof fn law_delivery_carries_record(topic: Seq<char>, r: RecordView, d: Delivery)
    requires
        delivery_of(topic, r, d),
        encodable(r),
    ensures
        d.key@ == r.device_id,
        decoded(d.payload@) == Some(r),
{
    law_round_trip(r);
}

/// With distinct names, the mapping of a metric sequence holds exactly its
/// entries: each name maps to its value, and no other name is mapped.
pub proof fn law_metrics_map_entries(ms: Seq<(Seq<char>, u64)>)
    requires
        distinct_names(ms),
    ensures
        forall|i: int|
            0 <= i < ms.len() ==> metrics_map(ms).contains_key((#[trigger] ms[i]).0) && metrics_map(
                ms,
            )[ms[i].0] == ms[i].1,
        forall|k: Seq<char>| #[trigger]
            metrics_map(ms).contains_key(k) ==> exists|i: int|
                0 <= i < ms.len() && (#[trigger] ms[i]).0 == k,
    decreases ms.len(),
{
    if ms.len() > 0 {
        let init = ms.drop_last();
        let last = ms.last();
        assert(distinct_names(init)) by {
            assert forall|i: int, j: int| 0 <= i < j < init.len() implies init[i].0 != init[j].0 by {
                assert(init[i] == ms[i] && init[j] == ms[j]);
            }
        }
        law_metrics_map_entries(init);
        assert forall|i: int| 0 <= i < ms.len() implies metrics_map(ms).contains_key(
            (#[trigger] ms[i]).0,
        ) && metrics_map(ms)[ms[i].0] == ms[i].1 by {
            if i < ms.len() - 1 {
                assert(init[i] == ms[i]);
                assert(ms[i].0 != ms[ms.len() - 1].0);
            }
        }
        assert forall|k: Seq<char>| #[trigger] metrics_map(ms).contains_key(k) implies exists|i: int|
            0 <= i < ms.len() && (#[trigger] ms[i]).0 == k by {
            if k == last.0 {
                assert(ms[ms.len() - 1].0 == k);
            } else {
                assert(metrics_map(init).contains_key(k));
                let i = choose|i: int| 0 <= i < init.len() && (#[trigger] init[i]).0 == k;
                assert(ms[i].0 == k);
            }
        }
    }
}

/// The mapping of a metric sequence does not depend on the order of its
/// entries: two sequences with distinct names and the same entries denote
/// the same mapping.
pub proof fn law_metrics_map_order_free(a: Seq<(Seq<char>, u64)>, b: Seq<(Seq<char>, u64)>)
    requires
        distinct_names(a),
        distinct_names(b),
        forall|i: int| 0 <= i < a.len() ==> b.contains(#[trigger] a[i]),
        forall|j: int| 0 <= j < b.len() ==> a.contains(#[trigger] b[j]),
    ensures
        metrics_map(a) == metrics_map(b),
{
    law_metrics_map_entries(a);
    law_metrics_map_entries(b);
    assert forall|k: Seq<char>| metrics_map(a).contains_key(k) implies metrics_map(b).contains_key(
        k,
    ) && metrics_map(b)[k] == metrics_map(a)[k] by {
        let i = choose|i: int| 0 <= i < a.len() && (#[trigger] a[i]).0 == k;
        assert(b.contains(a[i]));
        let j = choose|j: int| 0 <= j < b.len() && b[j] == a[i];
        assert(b[j].0 == k);
    }
    assert forall|k: Seq<char>| metrics_map(b).contains_key(k) implies metrics_map(a).contains_key(
        k,
    ) by {
        let j = choose|j: int| 0 <= j < b.len() && (#[trigger] b[j]).0 == k;
        assert(a.contains(b[j]));
        let i = choose|i: int| 0 <= i < a.len() && a[i] == b[j];
        assert(a[i].0 == k);
    }
    assert(metrics_map(a) =~= metrics_map(b));
}

} // verus!
