//! The binary form of a telemetry record.
//!
//! A record is a sequence of tagged fields in the Protocol Buffers wire
//! format: field 1 the device identifier (length-delimited UTF-8), field 2
//! the timestamp (varint, two's complement), field 3 one metric per
//! occurrence (a length-delimited entry whose field 1 is the name and whose
//! field 2 is the value as eight little-endian bytes), field 4 the raw
//! payload (length-delimited). A field whose value is the default (no text,
//! zero, no bytes) is left out, and reading gives a missing field its
//! default.

use vstd::prelude::*;
use vstd::bytes::{spec_u64_from_le_bytes, spec_u64_to_le_bytes, u64_from_le_bytes, u64_to_le_bytes};
use vstd::slice::{slice_subrange, slice_to_vec};
use vstd::utf8::{decode_utf8, encode_utf8, valid_utf8};
use crate::record::{
    Metric, TelemetryRecord, RecordView, distinct_names, metrics_view, put_metric, upsert,
};

verus! {

/// Key byte of the device identifier: field 1, length-delimited.
pub const KEY_DEVICE_ID: u8 = 0x0Au8;

/// Key byte of the timestamp: field 2, varint.
pub const KEY_TS: u8 = 0x10u8;

/// Key byte of a metric entry: field 3, length-delimited.
pub const KEY_METRIC: u8 = 0x1Au8;

/// Key byte of the raw payload: field 4, length-delimited.
pub const KEY_RAW: u8 = 0x22u8;

/// Key byte of a metric's name inside its entry: field 1, length-delimited.
pub const KEY_NAME: u8 = 0x0Au8;

/// Key byte of a metric's value inside its entry: field 2, eight bytes.
pub const KEY_VALUE: u8 = 0x11u8;

/// The base-128 little-endian form of an integer: seven bits per byte, the
/// high bit set on every byte but the last.
pub open spec fn varint_bytes(v: u64) -> Seq<u8>
    decreases v,
{
    if v < 128 {
        seq![v as u8]
    } else {
        seq![(v % 128 + 128) as u8] + varint_bytes(v / 128)
    }
}

/// A length-delimited field: its key byte, the length of its body, the body.
pub open spec fn len_delimited(key: u8, body: Seq<u8>) -> Seq<u8> {
    seq![key] + varint_bytes(body.len() as u64) + body
}

/// A text field: nothing for the empty text.
pub open spec fn text_field(key: u8, text: Seq<char>) -> Seq<u8> {
    if text.len() == 0 {
        Seq::empty()
    } else {
        len_delimited(key, encode_utf8(text))
    }
}

/// A bytes field: nothing for no bytes.
pub open spec fn bytes_field(key: u8, body: Seq<u8>) -> Seq<u8> {
    if body.len() == 0 {
        Seq::empty()
    } else {
        len_delimited(key, body)
    }
}

/// A varint field: nothing for zero.
pub open spec fn varint_field(key: u8, v: u64) -> Seq<u8> {
    if v == 0 {
        Seq::empty()
    } else {
        seq![key] + varint_bytes(v)
    }
}

/// A field of eight little-endian bytes: nothing for the zero pattern.
pub open spec fn fixed64_field(key: u8, v: u64) -> Seq<u8> {
    if v == 0 {
        Seq::empty()
    } else {
        seq![key] + spec_u64_to_le_bytes(v)
    }
}

/// The body of one metric entry.
pub open spec fn entry_bytes(m: (Seq<char>, u64)) -> Seq<u8> {
    text_field(KEY_NAME, m.0) + fixed64_field(KEY_VALUE, m.1)
}

/// The metric fields of a record, in order.
pub open spec fn metrics_bytes(ms: Seq<(Seq<char>, u64)>) -> Seq<u8>
    decreases ms.len(),
{
    if ms.len() == 0 {
        Seq::empty()
    } else {
        metrics_bytes(ms.drop_last()) + len_delimited(KEY_METRIC, entry_bytes(ms.last()))
    }
}

/// The binary form of a record.
pub open spec fn record_bytes(r: RecordView) -> Seq<u8> {
    text_field(KEY_DEVICE_ID, r.device_id) + varint_field(KEY_TS, r.ts as u64) + metrics_bytes(
        r.metrics,
    ) + bytes_field(KEY_RAW, r.raw)
}

/// Appends the varint form of `value` with `prost::encoding::encode_varint`,
/// which writes seven bits per byte, low bits first, and sets the high bit on
/// every byte but the last.
#[verifier::external_body]
fn put_varint(value: u64, buf: &mut Vec<u8>)
    ensures
        final(buf)@ == old(buf)@ + varint_bytes(value),
{
    prost::encoding::encode_varint(value, buf);
}

/// Appends a length-delimited field.
fn put_len_delimited(key: u8, body: &[u8], buf: &mut Vec<u8>)
    ensures
        final(buf)@ == old(buf)@ + len_delimited(key, body@),
{
    buf.push(key);
    put_varint(body.len() as u64, buf);
    buf.extend_from_slice(body);
    assert(buf@ =~= old(buf)@ + len_delimited(key, body@));
}

/// Appends a text field, unless the text is empty.
fn put_text(key: u8, text: &str, buf: &mut Vec<u8>)
    ensures
        final(buf)@ == old(buf)@ + text_field(key, text@),
{
    if text.is_empty() {
        assert(buf@ =~= old(buf)@ + text_field(key, text@));
    } else {
        put_len_delimited(key, text.as_bytes(), buf);
    }
}

/// Serializes one metric entry body.
fn encode_entry(m: &Metric) -> (out: Vec<u8>)
    ensures
        out@ == entry_bytes(m@),
{
    let mut out: Vec<u8> = Vec::new();
    put_text(KEY_NAME, m.name.as_str(), &mut out);
    if m.bits != 0 {
        out.push(KEY_VALUE);
        let value = u64_to_le_bytes(m.bits);
        out.extend_from_slice(value.as_slice());
    }
    assert(out@ =~= entry_bytes(m@));
    out
}

/// Serializes a record. Total and deterministic: the result is a function
/// of the record's value alone.
pub fn encode(record: &TelemetryRecord) -> (out: Vec<u8>)
    ensures
        out@ == record_bytes(record@),
{
    let mut out: Vec<u8> = Vec::new();
    put_text(KEY_DEVICE_ID, record.device_id.as_str(), &mut out);
    let ts: i64 = record.ts;
    assert(ts != 0 <==> ts as u64 != 0) by (bit_vector);
    if ts != 0 {
        out.push(KEY_TS);
        put_varint(ts as u64, &mut out);
    }
    let ghost head = out@;
    assert(head =~= text_field(KEY_DEVICE_ID, record@.device_id) + varint_field(
        KEY_TS,
        record.ts as u64,
    ));
    let ghost all = metrics_view(record.metrics@);
    let mut i: usize = 0;
    while i < record.metrics.len()
        invariant
            i <= record.metrics.len(),
            all == metrics_view(record.metrics@),
            out@ == head + metrics_bytes(all.take(i as int)),
        decreases record.metrics.len() - i,
    {
        let entry = encode_entry(&record.metrics[i]);
        put_len_delimited(KEY_METRIC, entry.as_slice(), &mut out);
        proof {
            let next = all.take(i as int + 1);
            assert(next.drop_last() =~= all.take(i as int));
            assert(next.last() == record.metrics@[i as int]@);
        }
        i = i + 1;
    }
    assert(all.take(i as int) =~= all);
    if record.raw.len() > 0 {
        put_len_delimited(KEY_RAW, record.raw.as_slice(), &mut out);
    }
    assert(out@ =~= record_bytes(record@));
    out
}

/// Why bytes give no record.
#[derive(Debug, PartialEq, Eq, Structural, Clone, Copy)]
pub enum DecodeError {
    /// The bytes are truncated, or a known field has the wrong wire type.
    MalformedRecord,
}

/// The largest value that seven more low bits can be appended to.
pub const MAX_HIGH: u64 = 0x01FF_FFFF_FFFF_FFFFu64;

/// The most bytes a varint may take.
pub const MAX_VARINT_LEN: u8 = 10u8;

/// The varint that starts at position `i`, read in at most `budget` bytes:
/// its value and the position after it.
pub open spec fn varint_at(s: Seq<u8>, i: int, budget: nat) -> Option<(u64, int)>
    decreases budget,
{
    if budget == 0 || i < 0 || i >= s.len() {
        None
    } else if s[i] < 128 {
        Some((s[i] as u64, i + 1))
    } else {
        match varint_at(s, i + 1, (budget - 1) as nat) {
            Some((high, next)) => if high <= MAX_HIGH {
                Some(((high * 128 + (s[i] - 128)) as u64, next))
            } else {
                None
            },
            None => None,
        }
    }
}

/// One field as it lies in a byte sequence: its number and wire type, the
/// value of a varint field, and the range of the body of any other.
pub struct FieldAt {
    pub number: u64,
    pub wire_type: u64,
    pub value: u64,
    pub start: int,
    pub end: int,
}

/// How deep groups may nest.
pub const GROUP_DEPTH: u8 = 100u8;

/// The position after the body of a field that is no group, where the body
/// starts at `j`: a varint, eight bytes, a length and as many bytes, or four
/// bytes.
pub open spec fn plain_end(s: Seq<u8>, wire_type: u64, j: int) -> Option<int> {
    if wire_type == 0 {
        match varint_at(s, j, MAX_VARINT_LEN as nat) {
            Some((v, k)) => Some(k),
            None => None,
        }
    } else if wire_type == 1 {
        if 0 <= j && j + 8 <= s.len() {
            Some(j + 8)
        } else {
            None
        }
    } else if wire_type == 2 {
        match varint_at(s, j, MAX_VARINT_LEN as nat) {
            Some((n, k)) => if k + n <= s.len() {
                Some(k + n)
            } else {
                None
            },
            None => None,
        }
    } else if wire_type == 5 {
        if 0 <= j && j + 4 <= s.len() {
            Some(j + 4)
        } else {
            None
        }
    } else {
        None
    }
}

/// The position after the end marker of the group with the given field
/// number whose fields start at `i`. The fields inside are passed over,
/// groups among them down to `depth` more levels; an end marker of another
/// number, or none, gives nothing.
pub open spec fn group_end(s: Seq<u8>, i: int, number: u64, depth: nat) -> Option<int>
    decreases s.len() - i,
{
    match varint_at(s, i, MAX_VARINT_LEN as nat) {
        None => None,
        Some((key, j)) => {
            if j <= i || j > s.len() || key / 8 == 0 {
                None
            } else if key % 8 == 4 {
                if key / 8 == number {
                    Some(j)
                } else {
                    None
                }
            } else if key % 8 == 3 {
                if depth == 0 {
                    None
                } else {
                    match group_end(s, j, key / 8, (depth - 1) as nat) {
                        Some(k) => if k <= i || k > s.len() {
                            None
                        } else {
                            group_end(s, k, number, depth)
                        },
                        None => None,
                    }
                }
            } else {
                match plain_end(s, key % 8, j) {
                    Some(k) => if k <= i || k > s.len() {
                        None
                    } else {
                        group_end(s, k, number, depth)
                    },
                    None => None,
                }
            }
        },
    }
}

/// The field that starts at position `i`. Wire types 0 (varint), 1 (eight
/// bytes), 2 (length-delimited), 3 (a group, up to its end marker) and 5
/// (four bytes) are read; an end marker without a group, any other wire
/// type, the field number 0 and a body that runs past the end give nothing.
pub open spec fn field_at(s: Seq<u8>, i: int) -> Option<FieldAt> {
    match varint_at(s, i, MAX_VARINT_LEN as nat) {
        None => None,
        Some((key, j)) => {
            let number = key / 8;
            let wire_type = key % 8;
            if number == 0 {
                None
            } else if wire_type == 0 {
                match varint_at(s, j, MAX_VARINT_LEN as nat) {
                    Some((v, k)) => Some(FieldAt { number, wire_type, value: v, start: k, end: k }),
                    None => None,
                }
            } else if wire_type == 1 {
                if j + 8 <= s.len() {
                    Some(FieldAt { number, wire_type, value: 0, start: j, end: j + 8 })
                } else {
                    None
                }
            } else if wire_type == 2 {
                match varint_at(s, j, MAX_VARINT_LEN as nat) {
                    Some((n, k)) => if k + n <= s.len() {
                        Some(FieldAt { number, wire_type, value: n, start: k, end: k + n })
                    } else {
                        None
                    },
                    None => None,
                }
            } else if wire_type == 3 {
                match group_end(s, j, number, GROUP_DEPTH as nat) {
                    Some(k) => Some(FieldAt { number, wire_type, value: 0, start: j, end: k }),
                    None => None,
                }
            } else if wire_type == 5 {
                if j + 4 <= s.len() {
                    Some(FieldAt { number, wire_type, value: 0, start: j, end: j + 4 })
                } else {
                    None
                }
            } else {
                None
            }
        },
    }
}

/// A metric entry after one more of its fields: field 1 sets the name and
/// field 2 the value, each only in its own wire type; any other field is
/// passed over.
pub open spec fn entry_with(e: Seq<u8>, f: FieldAt, acc: (Seq<char>, u64)) -> Option<
    (Seq<char>, u64),
> {
    let body = e.subrange(f.start, f.end);
    if f.number == 1 {
        if f.wire_type == 2 && valid_utf8(body) {
            Some((decode_utf8(body), acc.1))
        } else {
            None
        }
    } else if f.number == 2 {
        if f.wire_type == 1 {
            Some((acc.0, spec_u64_from_le_bytes(body)))
        } else {
            None
        }
    } else {
        Some(acc)
    }
}

/// The metric entry that the fields from position `i` on make of `acc`.
pub open spec fn entry_from(e: Seq<u8>, i: int, acc: (Seq<char>, u64)) -> Option<(Seq<char>, u64)>
    decreases e.len() - i,
{
    if i >= e.len() {
        Some(acc)
    } else {
        match field_at(e, i) {
            None => None,
            Some(f) => if f.end <= i || f.end > e.len() {
                None
            } else {
                match entry_with(e, f, acc) {
                    None => None,
                    Some(next) => entry_from(e, f.end, next),
                }
            },
        }
    }
}

/// The metric that an entry body holds: a missing name is empty, a missing
/// value is the zero pattern.
pub open spec fn entry_decoded(e: Seq<u8>) -> Option<(Seq<char>, u64)> {
    entry_from(e, 0, (Seq::empty(), 0u64))
}

/// A record after one more of its fields: fields 1, 2 and 4 set the device
/// identifier, the timestamp and the raw payload, field 3 puts a metric
/// into the mapping (the last value of a name stays),
/// each only in its own wire type; any other field is passed over.
pub open spec fn record_with(s: Seq<u8>, f: FieldAt, acc: RecordView) -> Option<RecordView> {
    let body = s.subrange(f.start, f.end);
    if f.number == 1 {
        if f.wire_type == 2 && valid_utf8(body) {
            Some(RecordView { device_id: decode_utf8(body), ..acc })
        } else {
            None
        }
    } else if f.number == 2 {
        if f.wire_type == 0 {
            Some(RecordView { ts: f.value as i64, ..acc })
        } else {
            None
        }
    } else if f.number == 3 {
        if f.wire_type == 2 {
            match entry_decoded(body) {
                Some(m) => Some(RecordView { metrics: upsert(acc.metrics, m), ..acc }),
                None => None,
            }
        } else {
            None
        }
    } else if f.number == 4 {
        if f.wire_type == 2 {
            Some(RecordView { raw: body, ..acc })
        } else {
            None
        }
    } else {
        Some(acc)
    }
}

/// The record that the fields from position `i` on make of `acc`.
pub open spec fn record_from(s: Seq<u8>, i: int, acc: RecordView) -> Option<RecordView>
    decreases s.len() - i,
{
    if i >= s.len() {
        Some(acc)
    } else {
        match field_at(s, i) {
            None => None,
            Some(f) => if f.end <= i || f.end > s.len() {
                None
            } else {
                match record_with(s, f, acc) {
                    None => None,
                    Some(next) => record_from(s, f.end, next),
                }
            },
        }
    }
}

/// The record with every field at its default.
pub open spec fn empty_record() -> RecordView {
    RecordView { device_id: Seq::empty(), ts: 0, metrics: Seq::empty(), raw: Seq::empty() }
}

/// The record that a byte sequence holds, if it holds one.
pub open spec fn decoded(s: Seq<u8>) -> Option<RecordView> {
    record_from(s, 0, empty_record())
}

/// Reads bytes as text with `std::str::from_utf8`, which succeeds exactly on
/// valid UTF-8 and then gives the text that the bytes encode.
#[verifier::external_body]
fn utf8_text<'a>(bytes: &'a [u8]) -> (r: Option<&'a str>)
    ensures
        match r {
            Some(text) => valid_utf8(bytes@) && text@ == decode_utf8(bytes@),
            None => !valid_utf8(bytes@),
        },
{
    std::str::from_utf8(bytes).ok()
}

/// Reads the varint at position `i` in at most `budget` bytes.
fn read_varint(s: &[u8], i: usize, budget: u8) -> (r: Option<(u64, usize)>)
    ensures
        match r {
            Some((v, next)) => varint_at(s@, i as int, budget as nat) == Some((v, next as int)) && i
                < next <= s@.len(),
            None => varint_at(s@, i as int, budget as nat) is None,
        },
    decreases budget,
{
    if budget == 0 || i >= s.len() {
        return None;
    }
    let b: u8 = s[i];
    if b < 128 {
        return Some((b as u64, i + 1));
    }
    match read_varint(s, i + 1, budget - 1) {
        Some((high, next)) => {
            if high <= MAX_HIGH {
                Some((high * 128 + (b - 128) as u64, next))
            } else {
                None
            }
        },
        None => None,
    }
}

/// A field found in a buffer.
pub struct Field {
    pub number: u64,
    pub wire_type: u64,
    pub value: u64,
    pub start: usize,
    pub end: usize,
}

impl View for Field {
    type V = FieldAt;

    open spec fn view(&self) -> FieldAt {
        FieldAt {
            number: self.number,
            wire_type: self.wire_type,
            value: self.value,
            start: self.start as int,
            end: self.end as int,
        }
    }
}

/// Passes over the body of a field that is no group.
fn skip_plain(s: &[u8], wire_type: u64, j: usize) -> (r: Option<usize>)
    requires
        j <= s@.len(),
    ensures
        match r {
            Some(k) => plain_end(s@, wire_type, j as int) == Some(k as int) && j <= k <= s@.len(),
            None => plain_end(s@, wire_type, j as int) is None,
        },
{
    if wire_type == 0 {
        match read_varint(s, j, MAX_VARINT_LEN) {
            Some((_, k)) => Some(k),
            None => None,
        }
    } else if wire_type == 1 {
        if s.len() - j >= 8 {
            Some(j + 8)
        } else {
            None
        }
    } else if wire_type == 2 {
        match read_varint(s, j, MAX_VARINT_LEN) {
            Some((n, k)) => {
                if n <= (s.len() - k) as u64 {
                    Some(k + n as usize)
                } else {
                    None
                }
            },
            None => None,
        }
    } else if wire_type == 5 {
        if s.len() - j >= 4 {
            Some(j + 4)
        } else {
            None
        }
    } else {
        None
    }
}

/// Passes over the fields of a group up to its end marker.
fn skip_group(s: &[u8], start: usize, number: u64, depth: u8) -> (r: Option<usize>)
    requires
        start <= s@.len(),
    ensures
        match r {
            Some(k) => group_end(s@, start as int, number, depth as nat) == Some(k as int) && start
                < k <= s@.len(),
            None => group_end(s@, start as int, number, depth as nat) is None,
        },
    decreases depth,
{
    let mut i: usize = start;
    while i < s.len()
        invariant
            start <= i <= s@.len(),
            group_end(s@, i as int, number, depth as nat) == group_end(
                s@,
                start as int,
                number,
                depth as nat,
            ),
        decreases s@.len() - i,
    {
        let (key, j) = match read_varint(s, i, MAX_VARINT_LEN) {
            Some(found) => found,
            None => {
                return None;
            },
        };
        let inner: u64 = key / 8;
        let wire_type: u64 = key % 8;
        if inner == 0 {
            return None;
        }
        if wire_type == 4 {
            if inner == number {
                return Some(j);
            } else {
                return None;
            }
        }
        let next = if wire_type == 3 {
            if depth == 0 {
                return None;
            }
            skip_group(s, j, inner, depth - 1)
        } else {
            skip_plain(s, wire_type, j)
        };
        match next {
            Some(k) => {
                i = k;
            },
            None => {
                return None;
            },
        }
    }
    None
}

/// Reads the field at position `i`.
fn read_field(s: &[u8], i: usize) -> (r: Option<Field>)
    ensures
        match r {
            Some(f) => field_at(s@, i as int) == Some(f@) && i < f.start <= f.end <= s@.len(),
            None => field_at(s@, i as int) is None,
        },
{
    let (key, j) = match read_varint(s, i, MAX_VARINT_LEN) {
        Some(found) => found,
        None => {
            return None;
        },
    };
    let number: u64 = key / 8;
    let wire_type: u64 = key % 8;
    if number == 0 {
        None
    } else if wire_type == 0 {
        match read_varint(s, j, MAX_VARINT_LEN) {
            Some((v, k)) => Some(Field { number, wire_type, value: v, start: k, end: k }),
            None => None,
        }
    } else if wire_type == 1 {
        if s.len() - j >= 8 {
            Some(Field { number, wire_type, value: 0, start: j, end: j + 8 })
        } else {
            None
        }
    } else if wire_type == 2 {
        match read_varint(s, j, MAX_VARINT_LEN) {
            Some((n, k)) => {
                if n <= (s.len() - k) as u64 {
                    Some(Field { number, wire_type, value: n, start: k, end: k + n as usize })
                } else {
                    None
                }
            },
            None => None,
        }
    } else if wire_type == 3 {
        match skip_group(s, j, number, GROUP_DEPTH) {
            Some(k) => Some(Field { number, wire_type, value: 0, start: j, end: k }),
            None => None,
        }
    } else if wire_type == 5 {
        if s.len() - j >= 4 {
            Some(Field { number, wire_type, value: 0, start: j, end: j + 4 })
        } else {
            None
        }
    } else {
        None
    }
}

/// Reads one metric entry body.
fn decode_entry(e: &[u8]) -> (r: Option<Metric>)
    ensures
        match r {
            Some(m) => entry_decoded(e@) == Some(m@),
            None => entry_decoded(e@) is None,
        },
{
    let mut name: String = String::new();
    let mut bits: u64 = 0;
    let mut i: usize = 0;
    while i < e.len()
        invariant
            i <= e@.len(),
            entry_from(e@, i as int, (name@, bits)) == entry_decoded(e@),
        decreases e@.len() - i,
    {
        let f = match read_field(e, i) {
            Some(f) => f,
            None => {
                return None;
            },
        };
        let body = slice_subrange(e, f.start, f.end);
        if f.number == 1 {
            if f.wire_type != 2 {
                return None;
            }
            match utf8_text(body) {
                Some(text) => {
                    name = text.to_owned();
                },
                None => {
                    return None;
                },
            }
        } else if f.number == 2 {
            if f.wire_type != 1 {
                return None;
            }
            bits = u64_from_le_bytes(body);
        }
        i = f.end;
    }
    Some(Metric { name, bits })
}

/// Reads a record from its binary form. Fields may come in any order, a
/// repeated field replaces what was read before it (a metric field replaces
/// the metric of its name, so the names of the result are distinct), unknown fields of every wire type, groups too, are passed
/// over and missing ones keep their defaults. Fails exactly on bytes that hold no record.
pub fn decode(bytes: &[u8]) -> (r: Result<TelemetryRecord, DecodeError>)
    ensures
        match r {
            Ok(record) => decoded(bytes@) == Some(record@) && distinct_names(record@.metrics),
            Err(_) => decoded(bytes@) is None,
        },
{
    let mut device_id: String = String::new();
    let mut ts: i64 = 0;
    let mut metrics: Vec<Metric> = Vec::new();
    let mut raw: Vec<u8> = Vec::new();
    let mut i: usize = 0;
    assert(metrics_view(metrics@) =~= Seq::empty());
    while i < bytes.len()
        invariant
            i <= bytes@.len(),
            distinct_names(metrics_view(metrics@)),
            record_from(
                bytes@,
                i as int,
                RecordView {
                    device_id: device_id@,
                    ts,
                    metrics: metrics_view(metrics@),
                    raw: raw@,
                },
            ) == decoded(bytes@),
        decreases bytes@.len() - i,
    {
        let f = match read_field(bytes, i) {
            Some(f) => f,
            None => {
                return Err(DecodeError::MalformedRecord);
            },
        };
        let body = slice_subrange(bytes, f.start, f.end);
        if f.number == 1 {
            if f.wire_type != 2 {
                return Err(DecodeError::MalformedRecord);
            }
            match utf8_text(body) {
                Some(text) => {
                    device_id = text.to_owned();
                },
                None => {
                    return Err(DecodeError::MalformedRecord);
                },
            }
        } else if f.number == 2 {
            if f.wire_type != 0 {
                return Err(DecodeError::MalformedRecord);
            }
            ts = f.value as i64;
        } else if f.number == 3 {
            if f.wire_type != 2 {
                return Err(DecodeError::MalformedRecord);
            }
            match decode_entry(body) {
                Some(m) => {
                    put_metric(&mut metrics, m);
                },
                None => {
                    return Err(DecodeError::MalformedRecord);
                },
            }
        } else if f.number == 4 {
            if f.wire_type != 2 {
                return Err(DecodeError::MalformedRecord);
            }
            raw = slice_to_vec(body);
        }
        i = f.end;
    }
    Ok(TelemetryRecord { device_id, ts, metrics, raw })
}

} // verus!
