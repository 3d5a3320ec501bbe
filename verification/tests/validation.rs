use rust_ingest::record::{finite, in_range, Metric, HUNDRED_BITS, MINUS_HUNDRED_BITS, TWO_HUNDRED_BITS};
use rust_ingest::telemetry_handler::{
    build_envelope, check_metric, envelope_payload, create_telemetry_from_json, enrich_telemetry, enrich_telemetry_at,
    metric_warning, metrics_from_members, normalize, normalize_at, validate_metrics, JsonError,
    RangeWarning, ValidationError,
};
use rust_ingest::record::TelemetryRecord;

fn metric(name: &str, value: f64) -> Metric {
    Metric { name: name.to_string(), bits: value.to_bits() }
}

fn value_of(record: &TelemetryRecord, name: &str) -> f64 {
    let found = record.metrics.iter().find(|m| m.name == name);
    f64::from_bits(found.unwrap().bits)
}

#[test]
fn test_create_telemetry_from_json() {
    let json = r#"{"temperature": 23.5, "humidity": 45.2}"#;
    let telemetry = create_telemetry_from_json(json, "test-device").unwrap();

    assert_eq!(telemetry.device_id, "test-device");
    assert_eq!(telemetry.metrics.len(), 2);
    assert_eq!(value_of(&telemetry, "temperature"), 23.5);
    assert_eq!(value_of(&telemetry, "humidity"), 45.2);
}

#[test]
fn test_validate_metrics() {
    let mut metrics = Vec::new();
    metrics.push(metric("temperature", 25.0));
    metrics.push(metric("humidity", 60.0));

    assert!(validate_metrics(&metrics).is_ok());

    // Test invalid battery level
    metrics.push(metric("battery_level", 150.0));
    assert!(validate_metrics(&metrics).is_err());
}

#[test]
fn test_validate_metrics_with_invalid_values() {
    let mut metrics = Vec::new();
    metrics.push(metric("temperature", f64::NAN));

    assert!(validate_metrics(&metrics).is_err());
}

#[test]
fn json_keeps_text_as_raw_and_skips_non_numbers() {
    let json = r#"{"a": 1, "b": "text", "c": null, "d": -2.5, "e": [1]}"#;
    let telemetry = create_telemetry_from_json(json, "dev").unwrap();
    assert_eq!(telemetry.raw, json.as_bytes().to_vec());
    assert_eq!(telemetry.metrics.len(), 2);
    assert_eq!(value_of(&telemetry, "a"), 1.0);
    assert_eq!(value_of(&telemetry, "d"), -2.5);
    assert!(telemetry.ts > 0);
}

#[test]
fn json_that_is_no_object_gives_no_metrics() {
    let telemetry = create_telemetry_from_json("[1, 2]", "dev").unwrap();
    assert!(telemetry.metrics.is_empty());
}

#[test]
fn json_that_is_no_document_fails() {
    assert_eq!(create_telemetry_from_json("{not json", "dev").unwrap_err(), JsonError::Malformed);
}

#[test]
fn members_without_a_number_are_dropped_in_order() {
    let members = vec![
        ("x".to_string(), Some(1.0f64.to_bits())),
        ("y".to_string(), None),
        ("z".to_string(), Some(3.0f64.to_bits())),
    ];
    let metrics = metrics_from_members(members);
    assert_eq!(metrics.len(), 2);
    assert_eq!(metrics[0].name, "x");
    assert_eq!(metrics[1].name, "z");
    assert_eq!(metrics[1].bits, 3.0f64.to_bits());
}

#[test]
fn bit_patterns_of_the_bounds() {
    assert_eq!(HUNDRED_BITS, 100.0f64.to_bits());
    assert_eq!(TWO_HUNDRED_BITS, 200.0f64.to_bits());
    assert_eq!(MINUS_HUNDRED_BITS, (-100.0f64).to_bits());
}

#[test]
fn finite_tells_nan_and_infinities() {
    assert!(finite(0.0f64.to_bits()));
    assert!(finite(f64::MAX.to_bits()));
    assert!(finite(f64::MIN_POSITIVE.to_bits()));
    assert!(!finite(f64::NAN.to_bits()));
    assert!(!finite(f64::INFINITY.to_bits()));
    assert!(!finite(f64::NEG_INFINITY.to_bits()));
}

#[test]
fn in_range_orders_as_the_values_do() {
    let samples = [-250.0f64, -100.0, -99.5, -1e-300, -0.0, 0.0, 1e-300, 99.999, 100.0, 100.001, 200.0, 1e9];
    for v in samples {
        assert_eq!(
            in_range(v.to_bits(), MINUS_HUNDRED_BITS, TWO_HUNDRED_BITS),
            (-100.0..=200.0).contains(&v)
        );
        assert_eq!(in_range(v.to_bits(), 0, HUNDRED_BITS), (0.0..=100.0).contains(&v));
    }
}

#[test]
fn empty_metric_name_is_refused() {
    let metrics = vec![metric("", 1.0)];
    assert!(matches!(validate_metrics(&metrics), Err(ValidationError::EmptyMetricName)));
}

#[test]
fn empty_name_comes_before_a_bad_value() {
    assert!(matches!(check_metric(&metric("", f64::NAN)), Err(ValidationError::EmptyMetricName)));
}

#[test]
fn non_finite_value_names_its_key() {
    let metrics = vec![metric("ok", 1.0), metric("pressure", f64::INFINITY)];
    match validate_metrics(&metrics) {
        Err(ValidationError::NonFiniteValue { key }) => assert_eq!(key, "pressure"),
        _ => panic!("a non-finite value must be refused"),
    }
    let metrics = vec![metric("battery_level", f64::NAN)];
    match validate_metrics(&metrics) {
        Err(ValidationError::NonFiniteValue { key }) => assert_eq!(key, "battery_level"),
        _ => panic!("a non-finite value must be refused"),
    }
}

#[test]
fn structural_failures_come_before_range_failures() {
    let metrics = vec![metric("battery_level", 150.0), metric("t", f64::NAN)];
    match validate_metrics(&metrics) {
        Err(ValidationError::NonFiniteValue { key }) => assert_eq!(key, "t"),
        _ => panic!("the non-finite value comes before the battery level"),
    }
    let metrics = vec![metric("t", f64::NAN), metric("battery_level", 150.0)];
    match validate_metrics(&metrics) {
        Err(ValidationError::NonFiniteValue { key }) => assert_eq!(key, "t"),
        _ => panic!("the non-finite value comes before the battery level"),
    }
    let metrics = vec![metric("battery_level", -1.0), metric("ok", 1.0), metric("", 2.0)];
    assert!(matches!(validate_metrics(&metrics), Err(ValidationError::EmptyMetricName)));
}

#[test]
fn first_failure_of_a_kind_is_reported() {
    let metrics = vec![metric("a", f64::INFINITY), metric("", 1.0), metric("b", f64::NAN)];
    match validate_metrics(&metrics) {
        Err(ValidationError::NonFiniteValue { key }) => assert_eq!(key, "a"),
        _ => panic!("the first structural failure is reported"),
    }
    let metrics = vec![metric("", 1.0), metric("a", f64::INFINITY)];
    assert!(matches!(validate_metrics(&metrics), Err(ValidationError::EmptyMetricName)));
    let metrics = vec![metric("ok", 1.0), metric("battery_level", 101.0)];
    match validate_metrics(&metrics) {
        Err(ValidationError::OutOfRange { key }) => assert_eq!(key, "battery_level"),
        _ => panic!("a range failure is reported where nothing else fails"),
    }
}

#[test]
fn normalization_puts_structure_before_range() {
    let metrics = vec![metric("battery_level", 150.0), metric("t", f64::NAN)];
    match normalize_at("dev".to_string(), None, metrics, None, 1) {
        Err(ValidationError::NonFiniteValue { key }) => assert_eq!(key, "t"),
        _ => panic!("the non-finite value comes before the battery level"),
    }
}

#[test]
fn failed_serialization_gives_an_empty_payload() {
    assert!(envelope_payload(None).is_empty());
    assert_eq!(envelope_payload(Some(vec![1, 2])), vec![1, 2]);
}

#[test]
fn envelope_has_three_members() {
    let members = build_envelope("when", "node", "text");
    assert_eq!(
        members,
        vec![
            ("ingested_at".to_string(), "when".to_string()),
            ("ingestion_node".to_string(), "node".to_string()),
            ("original_raw".to_string(), "text".to_string()),
        ]
    );
}

#[test]
fn battery_level_bounds_are_inclusive() {
    assert!(validate_metrics(&vec![metric("battery_level", 0.0)]).is_ok());
    assert!(validate_metrics(&vec![metric("battery_level", -0.0)]).is_ok());
    assert!(validate_metrics(&vec![metric("battery_level", 100.0)]).is_ok());
    assert!(validate_metrics(&vec![metric("battery_level", 55.5)]).is_ok());
}

#[test]
fn battery_level_outside_is_refused() {
    for v in [150.0f64, 100.00000001, -0.0000001, -5.0, 1e300] {
        match validate_metrics(&vec![metric("battery_level", v)]) {
            Err(ValidationError::OutOfRange { key }) => assert_eq!(key, "battery_level"),
            _ => panic!("a battery level outside the interval must be refused"),
        }
    }
}

#[test]
fn soft_ranges_only_warn() {
    let metrics = vec![metric("temperature", 999.0), metric("humidity", -5.0)];
    assert!(validate_metrics(&metrics).is_ok());
    assert_eq!(metric_warning(&metrics[0]), Some(RangeWarning::Temperature));
    assert_eq!(metric_warning(&metrics[1]), Some(RangeWarning::Humidity));
    assert_eq!(metric_warning(&metric("temperature", 200.0)), None);
    assert_eq!(metric_warning(&metric("temperature", -100.0)), None);
    assert_eq!(metric_warning(&metric("temperature", -100.5)), Some(RangeWarning::Temperature));
    assert_eq!(metric_warning(&metric("humidity", 100.0)), None);
    assert_eq!(metric_warning(&metric("battery_level", 150.0)), None);
    assert_eq!(metric_warning(&metric("other", 1e12)), None);
}

#[test]
fn unknown_names_need_only_be_finite() {
    assert!(validate_metrics(&vec![metric("rpm", -1e300), metric("load", 1e300)]).is_ok());
}

#[test]
fn missing_device_id_comes_first() {
    let r = normalize_at(String::new(), Some(1), Vec::new(), None, 9);
    assert!(matches!(r, Err(ValidationError::MissingDeviceId)));
    let r = normalize_at(String::new(), None, vec![metric("battery_level", 150.0)], None, 9);
    assert!(matches!(r, Err(ValidationError::MissingDeviceId)));
    let r = normalize(String::new(), None, vec![metric("x", 1.0)], None);
    assert!(matches!(r, Err(ValidationError::MissingDeviceId)));
}

#[test]
fn empty_metrics_come_second() {
    let r = normalize_at("dev".to_string(), Some(1), Vec::new(), None, 9);
    assert!(matches!(r, Err(ValidationError::EmptyMetrics)));
    let r = normalize("dev".to_string(), None, Vec::new(), Some(vec![1]));
    assert!(matches!(r, Err(ValidationError::EmptyMetrics)));
}

#[test]
fn metric_failures_come_third() {
    let r = normalize_at("dev".to_string(), None, vec![metric("battery_level", 150.0)], None, 9);
    assert!(matches!(r, Err(ValidationError::OutOfRange { .. })));
}

#[test]
fn normalize_resolves_timestamp_and_raw() {
    let r = normalize_at("dev".to_string(), Some(42), vec![metric("x", 1.5)], Some(vec![1, 2]), 9)
        .unwrap();
    assert_eq!(r.device_id, "dev");
    assert_eq!(r.ts, 42);
    assert_eq!(r.raw, vec![1, 2]);
    assert_eq!(r.metrics.len(), 1);
    assert_eq!(r.metrics[0].name, "x");
    assert_eq!(r.metrics[0].bits, 1.5f64.to_bits());

    let r = normalize_at("dev".to_string(), None, vec![metric("x", 1.5)], None, 9).unwrap();
    assert_eq!(r.ts, 9);
    assert!(r.raw.is_empty());

    let r = normalize("dev".to_string(), Some(-7), vec![metric("x", 1.5)], None).unwrap();
    assert_eq!(r.ts, -7);
    let r = normalize("dev".to_string(), None, vec![metric("x", 1.5)], None).unwrap();
    assert!(r.ts > 1_600_000_000_000);
}

fn sample(raw: Vec<u8>) -> TelemetryRecord {
    TelemetryRecord { device_id: "dev".to_string(), ts: 5, metrics: vec![metric("x", 2.0)], raw }
}

#[test]
fn enrichment_wraps_the_raw_payload() {
    let r = enrich_telemetry_at(sample(b"hello".to_vec()), "node-1", "2024-01-01T00:00:00+00:00");
    assert_eq!(r.device_id, "dev");
    assert_eq!(r.ts, 5);
    assert_eq!(r.metrics.len(), 1);
    let v: serde_json::Value = serde_json::from_slice(&r.raw).unwrap();
    assert_eq!(v["ingested_at"].as_str(), Some("2024-01-01T00:00:00+00:00"));
    assert_eq!(v["ingestion_node"].as_str(), Some("node-1"));
    assert_eq!(v["original_raw"].as_str(), Some("hello"));
    assert_eq!(v.as_object().unwrap().len(), 3);
}

#[test]
fn enrichment_accepts_invalid_text() {
    let r = enrich_telemetry(sample(vec![0x61, 0xff, 0xfe, 0x62]), "node-2");
    let v: serde_json::Value = serde_json::from_slice(&r.raw).unwrap();
    assert_eq!(v["ingestion_node"].as_str(), Some("node-2"));
    assert_eq!(v["original_raw"].as_str(), Some("a\u{fffd}\u{fffd}b"));
    let stamp = v["ingested_at"].as_str().unwrap();
    assert!(chrono::DateTime::parse_from_rfc3339(stamp).is_ok());
    assert_eq!(r.device_id, "dev");
    assert_eq!(r.metrics[0].bits, 2.0f64.to_bits());
}

#[test]
fn enrichment_of_an_empty_payload() {
    let r = enrich_telemetry(sample(Vec::new()), "n");
    let v: serde_json::Value = serde_json::from_slice(&r.raw).unwrap();
    assert_eq!(v["original_raw"].as_str(), Some(""));
}

#[test]
fn normalization_reads_metrics_as_a_mapping() {
    let metrics = vec![metric("a", 1.0), metric("b", 2.0), metric("a", 3.0)];
    let r = normalize_at("dev".to_string(), Some(1), metrics, None, 9).unwrap();
    assert_eq!(r.metrics.len(), 2);
    assert_eq!(r.metrics[0].name, "a");
    assert_eq!(f64::from_bits(r.metrics[0].bits), 3.0);
    assert_eq!(r.metrics[1].name, "b");
    assert_eq!(f64::from_bits(r.metrics[1].bits), 2.0);
}

#[test]
fn a_replaced_metric_is_validated_too() {
    let metrics = vec![metric("a", f64::NAN), metric("a", 3.0)];
    let r = normalize_at("dev".to_string(), Some(1), metrics, None, 9);
    assert!(matches!(r, Err(ValidationError::NonFiniteValue { .. })));
}
