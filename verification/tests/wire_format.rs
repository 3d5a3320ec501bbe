use rust_ingest::record::{put_metric, Metric, TelemetryRecord};
use rust_ingest::wire::{decode, encode, DecodeError};

fn metric(name: &str, value: f64) -> Metric {
    Metric { name: name.to_string(), bits: value.to_bits() }
}

fn record(device_id: &str, ts: i64, metrics: Vec<Metric>, raw: Vec<u8>) -> TelemetryRecord {
    TelemetryRecord { device_id: device_id.to_string(), ts, metrics, raw }
}

fn same(a: &TelemetryRecord, b: &TelemetryRecord) -> bool {
    a.device_id == b.device_id
        && a.ts == b.ts
        && a.raw == b.raw
        && a.metrics.len() == b.metrics.len()
        && a.metrics.iter().zip(b.metrics.iter()).all(|(x, y)| x.name == y.name && x.bits == y.bits)
}

/// The bytes that prost's encoders write for the same message, each field
/// left out at its default as generated code does.
fn protobuf_form(r: &TelemetryRecord) -> Vec<u8> {
    let mut expected: Vec<u8> = Vec::new();
    if !r.device_id.is_empty() {
        prost::encoding::string::encode(1, &r.device_id, &mut expected);
    }
    if r.ts != 0 {
        prost::encoding::int64::encode(2, &r.ts, &mut expected);
    }
    for m in r.metrics.iter() {
        let mut one: std::collections::HashMap<String, f64> = std::collections::HashMap::new();
        one.insert(m.name.clone(), f64::from_bits(m.bits));
        prost::encoding::hash_map::encode(
            prost::encoding::string::encode,
            prost::encoding::string::encoded_len,
            prost::encoding::double::encode,
            prost::encoding::double::encoded_len,
            3,
            &one,
            &mut expected,
        );
    }
    if !r.raw.is_empty() {
        prost::encoding::bytes::encode(4, &r.raw, &mut expected);
    }
    expected
}

#[test]
fn encode_writes_the_fields_in_order() {
    let r = record("d", 1, vec![metric("x", 1.0)], vec![7]);
    let expected: Vec<u8> = vec![
        0x0A, 0x01, 0x64, 0x10, 0x01, 0x1A, 0x0C, 0x0A, 0x01, 0x78, 0x11, 0, 0, 0, 0, 0, 0, 0xF0,
        0x3F, 0x22, 0x01, 0x07,
    ];
    assert_eq!(encode(&r), expected);
}

#[test]
fn encode_writes_multi_byte_varints() {
    let r = record("", 300, Vec::new(), Vec::new());
    assert_eq!(encode(&r), vec![0x10, 0xAC, 0x02]);
    let r = record("", 127, Vec::new(), Vec::new());
    assert_eq!(encode(&r), vec![0x10, 0x7F]);
    let r = record("", 128, Vec::new(), Vec::new());
    assert_eq!(encode(&r), vec![0x10, 0x80, 0x01]);
    let r = record("", -1, Vec::new(), Vec::new());
    assert_eq!(
        encode(&r),
        vec![0x10, 0xFF, 0xFF, 0xFF, 0xFF, 0xFF, 0xFF, 0xFF, 0xFF, 0xFF, 0x01]
    );
}

#[test]
fn encode_writes_long_lengths_as_varints() {
    let r = record("", 0, Vec::new(), vec![9; 200]);
    let out = encode(&r);
    assert_eq!(&out[..3], &[0x22, 0xC8, 0x01]);
    assert_eq!(out.len(), 203);
}

#[test]
fn encode_leaves_out_defaults() {
    assert!(encode(&record("", 0, Vec::new(), Vec::new())).is_empty());
    let r = record("", 0, vec![metric("k", 0.0)], Vec::new());
    assert_eq!(encode(&r), vec![0x1A, 0x03, 0x0A, 0x01, 0x6B]);
    let r = record("", 0, vec![metric("", 0.0)], Vec::new());
    assert_eq!(encode(&r), vec![0x1A, 0x00]);
    let r = record("", 0, vec![metric("", -0.0)], Vec::new());
    assert_eq!(encode(&r), vec![0x1A, 0x09, 0x11, 0, 0, 0, 0, 0, 0, 0, 0x80]);
}

#[test]
fn encode_agrees_with_the_protobuf_encoders() {
    let r = record(
        "dev-1",
        1_700_000_000_123,
        vec![metric("temperature", 23.5), metric("humidity", 45.2)],
        vec![1, 2, 3],
    );
    assert_eq!(encode(&r), protobuf_form(&r));
    let r = record("dev-2", 0, vec![metric("zero", 0.0), metric("", 7.25)], Vec::new());
    assert_eq!(encode(&r), protobuf_form(&r));
    let r = record("", -5, vec![metric("battery_level", 100.0)], vec![0; 130]);
    assert_eq!(encode(&r), protobuf_form(&r));
}

#[test]
fn encode_is_deterministic() {
    let r = record("dev", 12, vec![metric("a", 1.0), metric("b", 2.0)], vec![5]);
    assert_eq!(encode(&r), encode(&r));
}

#[test]
fn decode_undoes_encode() {
    let cases = vec![
        record("dev-1", 1_700_000_000_123, vec![metric("temperature", 23.5), metric("humidity", 45.2)], vec![1, 2, 3]),
        record("d", 0, vec![metric("zero", 0.0), metric("neg_zero", -0.0)], Vec::new()),
        record("\u{00e9}\u{4e2d}\u{1f600}", -1, vec![metric("\u{00b5}", f64::MIN_POSITIVE)], vec![0xff, 0x00]),
        record("x", i64::MIN, vec![metric("m", -1e300)], vec![0; 300]),
        record("x", i64::MAX, Vec::new(), Vec::new()),
        record("", 0, Vec::new(), Vec::new()),
    ];
    for r in cases.iter() {
        let back = decode(&encode(r)).unwrap();
        assert!(same(r, &back));
    }
}

#[test]
fn decode_of_nothing_is_the_default_record() {
    let r = decode(&[]).unwrap();
    assert!(same(&r, &record("", 0, Vec::new(), Vec::new())));
}

#[test]
fn decode_accepts_any_field_order() {
    let bytes: Vec<u8> = vec![
        0x22, 0x01, 0x07, 0x1A, 0x0C, 0x11, 0, 0, 0, 0, 0, 0, 0xF0, 0x3F, 0x0A, 0x01, 0x78, 0x10,
        0x01, 0x0A, 0x01, 0x64,
    ];
    let r = decode(&bytes).unwrap();
    assert!(same(&r, &record("d", 1, vec![metric("x", 1.0)], vec![7])));
}

#[test]
fn decode_passes_over_unknown_fields() {
    let bytes: Vec<u8> = vec![
        0x0A, 0x01, 0x64, // device_id
        0x28, 0x96, 0x01, // field 5, varint
        0x32, 0x02, 0xAA, 0xBB, // field 6, length-delimited
        0x39, 1, 2, 3, 4, 5, 6, 7, 8, // field 7, eight bytes
        0x45, 1, 2, 3, 4, // field 8, four bytes
        0x10, 0x05, // ts
    ];
    let r = decode(&bytes).unwrap();
    assert!(same(&r, &record("d", 5, Vec::new(), Vec::new())));
}

#[test]
fn decode_passes_over_unknown_entry_fields() {
    let bytes: Vec<u8> = vec![0x1A, 0x05, 0x18, 0x01, 0x0A, 0x01, 0x6B];
    let r = decode(&bytes).unwrap();
    assert!(same(&r, &record("", 0, vec![metric("k", 0.0)], Vec::new())));
}

#[test]
fn decode_keeps_the_last_of_a_repeated_field() {
    let bytes: Vec<u8> = vec![0x10, 0x01, 0x10, 0x02, 0x0A, 0x01, 0x61, 0x0A, 0x01, 0x62];
    let r = decode(&bytes).unwrap();
    assert!(same(&r, &record("b", 2, Vec::new(), Vec::new())));
}

#[test]
fn decode_refuses_truncated_bytes() {
    let whole = encode(&record("dev", 77, vec![metric("x", 1.0)], vec![1, 2, 3]));
    assert!(decode(&whole).is_ok());
    for cut in [1usize, 2, 4, 6, 8, 12, whole.len() - 1] {
        assert_eq!(decode(&whole[..cut]).unwrap_err(), DecodeError::MalformedRecord);
    }
    assert_eq!(decode(&[0x10]).unwrap_err(), DecodeError::MalformedRecord);
    assert_eq!(decode(&[0x10, 0x80]).unwrap_err(), DecodeError::MalformedRecord);
}

#[test]
fn decode_refuses_a_wrong_wire_type() {
    // the device identifier as a varint
    assert_eq!(decode(&[0x08, 0x01]).unwrap_err(), DecodeError::MalformedRecord);
    // the timestamp as length-delimited
    assert_eq!(decode(&[0x12, 0x01, 0x00]).unwrap_err(), DecodeError::MalformedRecord);
    // a metric as a varint
    assert_eq!(decode(&[0x18, 0x01]).unwrap_err(), DecodeError::MalformedRecord);
    // the raw payload as eight bytes
    assert_eq!(decode(&[0x21, 0, 0, 0, 0, 0, 0, 0, 0]).unwrap_err(), DecodeError::MalformedRecord);
    // a metric value as a varint
    assert_eq!(decode(&[0x1A, 0x02, 0x10, 0x01]).unwrap_err(), DecodeError::MalformedRecord);
}

#[test]
fn decode_refuses_invalid_text_and_bad_keys() {
    assert_eq!(decode(&[0x0A, 0x01, 0xFF]).unwrap_err(), DecodeError::MalformedRecord);
    // field number 0
    assert_eq!(decode(&[0x02, 0x00]).unwrap_err(), DecodeError::MalformedRecord);
    // a group without its end marker
    assert_eq!(decode(&[0x2B]).unwrap_err(), DecodeError::MalformedRecord);
    // wire types 6 and 7
    assert_eq!(decode(&[0x2E]).unwrap_err(), DecodeError::MalformedRecord);
    assert_eq!(decode(&[0x2F]).unwrap_err(), DecodeError::MalformedRecord);
    // a varint of eleven bytes
    let long = [0x10, 0x80, 0x80, 0x80, 0x80, 0x80, 0x80, 0x80, 0x80, 0x80, 0x80, 0x00];
    assert_eq!(decode(&long).unwrap_err(), DecodeError::MalformedRecord);
    // a varint of ten bytes that does not fit 64 bits
    let wide = [0x10, 0xFF, 0xFF, 0xFF, 0xFF, 0xFF, 0xFF, 0xFF, 0xFF, 0xFF, 0x02];
    assert_eq!(decode(&wide).unwrap_err(), DecodeError::MalformedRecord);
}

#[test]
fn decode_passes_over_unknown_groups() {
    let bytes: Vec<u8> = vec![
        0x2B, // field 5, group starts
        0x08, 0x01, // field 1 inside the group, varint
        0x33, 0x12, 0x01, 0xFF, 0x34, // field 6, a group inside with a length-delimited field
        0x2C, // field 5, group ends
        0x10, 0x05, // ts
    ];
    let r = decode(&bytes).unwrap();
    assert!(same(&r, &record("", 5, Vec::new(), Vec::new())));
    // inside a metric entry too
    let bytes: Vec<u8> = vec![0x1A, 0x05, 0x1B, 0x1C, 0x0A, 0x01, 0x6B];
    let r = decode(&bytes).unwrap();
    assert!(same(&r, &record("", 0, vec![metric("k", 0.0)], Vec::new())));
}

#[test]
fn decode_refuses_broken_groups() {
    // the end marker of another field
    assert_eq!(decode(&[0x2B, 0x34]).unwrap_err(), DecodeError::MalformedRecord);
    // an end marker without a group
    assert_eq!(decode(&[0x2C]).unwrap_err(), DecodeError::MalformedRecord);
    // a truncated field inside a group
    assert_eq!(decode(&[0x2B, 0x12, 0x05, 0x2C]).unwrap_err(), DecodeError::MalformedRecord);
    // a known field as a group
    assert_eq!(decode(&[0x13, 0x14]).unwrap_err(), DecodeError::MalformedRecord);
}

#[test]
fn decode_bounds_the_nesting_of_groups() {
    let nested = |n: usize| {
        let mut bytes = vec![0x2Bu8; n];
        bytes.extend(vec![0x2Cu8; n]);
        bytes
    };
    assert!(decode(&nested(1)).is_ok());
    assert!(decode(&nested(101)).is_ok());
    assert_eq!(decode(&nested(102)).unwrap_err(), DecodeError::MalformedRecord);
}

#[test]
fn decode_keeps_the_last_value_of_a_name() {
    let mut bytes: Vec<u8> = Vec::new();
    for v in [1.0f64, 5.0, 2.0] {
        let name: u8 = if v == 5.0 { 0x6A } else { 0x6B };
        bytes.extend_from_slice(&[0x1A, 0x0C, 0x0A, 0x01, name, 0x11]);
        bytes.extend_from_slice(&v.to_bits().to_le_bytes());
    }
    let r = decode(&bytes).unwrap();
    assert!(same(&r, &record("", 0, vec![metric("k", 2.0), metric("j", 5.0)], Vec::new())));
}

#[test]
fn put_metric_replaces_or_appends() {
    let mut metrics = vec![metric("a", 1.0), metric("b", 2.0)];
    put_metric(&mut metrics, metric("a", 3.0));
    put_metric(&mut metrics, metric("c", 4.0));
    let r = record("", 0, metrics, Vec::new());
    assert!(same(
        &r,
        &record("", 0, vec![metric("a", 3.0), metric("b", 2.0), metric("c", 4.0)], Vec::new())
    ));
}
