//! Validation, normalization and enrichment of telemetry records.

use vstd::prelude::*;
use vstd::utf8::{decode_utf8, valid_utf8};
use crate::kafka::Delivery;
use crate::wire::{encode, record_bytes};
use crate::record::{
    Metric, TelemetryRecord, RecordView, metrics_view, is_finite_bits, in_range_bits, finite,
    in_range, distinct_names, as_mapping, into_mapping, law_as_mapping, HUNDRED_BITS,
    MINUS_HUNDRED_BITS, TWO_HUNDRED_BITS,
};

verus! {

/// Why a request is refused before anything is sent.
#[derive(Debug)]
pub enum ValidationError {
    MissingDeviceId,
    EmptyMetrics,
    EmptyMetricName,
    NonFiniteValue { key: String },
    OutOfRange { key: String },
}

/// The mathematical value of a `ValidationError`.
pub enum Fault {
    MissingDeviceId,
    EmptyMetrics,
    EmptyMetricName,
    NonFiniteValue(Seq<char>),
    OutOfRange(Seq<char>),
}

impl View for ValidationError {
    type V = Fault;

    open spec fn view(&self) -> Fault {
        match self {
            ValidationError::MissingDeviceId => Fault::MissingDeviceId,
            ValidationError::EmptyMetrics => Fault::EmptyMetrics,
            ValidationError::EmptyMetricName => Fault::EmptyMetricName,
            ValidationError::NonFiniteValue { key } => Fault::NonFiniteValue(key@),
            ValidationError::OutOfRange { key } => Fault::OutOfRange(key@),
        }
    }
}

/// The structural failure of one metric, if it has one: an empty name, then
/// a value that is not finite.
pub open spec fn structural_fault(m: (Seq<char>, u64)) -> Option<Fault> {
    if m.0.len() == 0 {
        Some(Fault::EmptyMetricName)
    } else if !is_finite_bits(m.1) {
        Some(Fault::NonFiniteValue(m.0))
    } else {
        None
    }
}

/// The range failure of one metric, if it has one: a battery level outside
/// `[0, 100]`.
pub open spec fn range_fault(m: (Seq<char>, u64)) -> Option<Fault> {
    if m.0 == "battery_level"@ && !in_range_bits(m.1, 0, HUNDRED_BITS) {
        Some(Fault::OutOfRange(m.0))
    } else {
        None
    }
}

/// The failure of one kind that a metric has: structural, or of range.
pub open spec fn fault_of(m: (Seq<char>, u64), structural: bool) -> Option<Fault> {
    if structural {
        structural_fault(m)
    } else {
        range_fault(m)
    }
}

/// The hard failure of one metric taken alone: its structural failure, else
/// its range failure.
pub open spec fn metric_fault(m: (Seq<char>, u64)) -> Option<Fault> {
    if structural_fault(m) is Some {
        structural_fault(m)
    } else {
        range_fault(m)
    }
}

/// The failure of one kind of the first metric that has one of that kind.
pub open spec fn first_of(ms: Seq<(Seq<char>, u64)>, structural: bool) -> Option<Fault>
    decreases ms.len(),
{
    if ms.len() == 0 {
        None
    } else if fault_of(ms[0], structural) is Some {
        fault_of(ms[0], structural)
    } else {
        first_of(ms.skip(1), structural)
    }
}

/// The failure that a metric set is refused with. Structural failures come
/// before range failures, wherever they stand: the first structural failure
/// in the whole set if there is one, and only else the first range failure.
pub open spec fn metrics_fault(ms: Seq<(Seq<char>, u64)>) -> Option<Fault> {
    if first_of(ms, true) is Some {
        first_of(ms, true)
    } else {
        first_of(ms, false)
    }
}

/// Whether a string equals a literal.
fn name_is(name: &String, literal: &str) -> (r: bool)
    ensures
        r == (name@ == literal@),
{
    let other: String = literal.to_owned();
    *name == other
}

/// Checks one metric for a structural failure.
fn check_structure(m: &Metric) -> (r: Result<(), ValidationError>)
    ensures
        match r {
            Ok(()) => structural_fault(m@) is None,
            Err(e) => structural_fault(m@) == Some(e@),
        },
{
    if m.name.as_str().is_empty() {
        return Err(ValidationError::EmptyMetricName);
    }
    if !finite(m.bits) {
        return Err(ValidationError::NonFiniteValue { key: m.name.clone() });
    }
    Ok(())
}

/// Checks one metric for a range failure.
fn check_range(m: &Metric) -> (r: Result<(), ValidationError>)
    ensures
        match r {
            Ok(()) => range_fault(m@) is None,
            Err(e) => range_fault(m@) == Some(e@),
        },
{
    if name_is(&m.name, "battery_level") && !in_range(m.bits, 0, HUNDRED_BITS) {
        return Err(ValidationError::OutOfRange { key: m.name.clone() });
    }
    Ok(())
}

/// Checks one metric, taken alone, against the hard rules.
pub fn check_metric(m: &Metric) -> (r: Result<(), ValidationError>)
    ensures
        match r {
            Ok(()) => metric_fault(m@) is None,
            Err(e) => metric_fault(m@) == Some(e@),
        },
{
    match check_structure(m) {
        Ok(()) => check_range(m),
        Err(e) => Err(e),
    }
}

/// A value that is accepted though it lies outside its expected range.
#[derive(Debug, PartialEq, Eq, Structural, Clone, Copy)]
pub enum RangeWarning {
    /// A temperature outside `[-100, 200]`.
    Temperature,
    /// A humidity outside `[0, 100]`.
    Humidity,
}

/// The warning that a metric without a hard failure calls for, if any.
pub open spec fn metric_warning_spec(m: (Seq<char>, u64)) -> Option<RangeWarning> {
    if metric_fault(m) is Some {
        None
    } else if m.0 == "temperature"@ && !in_range_bits(m.1, MINUS_HUNDRED_BITS, TWO_HUNDRED_BITS) {
        Some(RangeWarning::Temperature)
    } else if m.0 == "humidity"@ && !in_range_bits(m.1, 0, HUNDRED_BITS) {
        Some(RangeWarning::Humidity)
    } else {
        None
    }
}

/// Tells whether an accepted metric is worth a warning: a temperature or a
/// humidity outside its expected range. The metric is accepted all the same.
pub fn metric_warning(m: &Metric) -> (r: Option<RangeWarning>)
    ensures
        r == metric_warning_spec(m@),
{
    if check_metric(m).is_err() {
        return None;
    }
    if name_is(&m.name, "temperature") && !in_range(m.bits, MINUS_HUNDRED_BITS, TWO_HUNDRED_BITS) {
        Some(RangeWarning::Temperature)
    } else if name_is(&m.name, "humidity") && !in_range(m.bits, 0, HUNDRED_BITS) {
        Some(RangeWarning::Humidity)
    } else {
        None
    }
}

/// Runs one kind of check over a metric set, in order.
fn first_failure(metrics: &Vec<Metric>, structural: bool) -> (r: Result<(), ValidationError>)
    ensures
        match r {
            Ok(()) => first_of(metrics_view(metrics@), structural) is None,
            Err(e) => first_of(metrics_view(metrics@), structural) == Some(e@),
        },
{
    let ghost all = metrics_view(metrics@);
    assert(all.skip(0) =~= all);
    let mut i: usize = 0;
    while i < metrics.len()
        invariant
            i <= metrics.len(),
            all == metrics_view(metrics@),
            first_of(all, structural) == first_of(all.skip(i as int), structural),
        decreases metrics.len() - i,
    {
        let ghost rest = all.skip(i as int);
        assert(rest[0] == metrics@[i as int]@);
        assert(rest.skip(1) =~= all.skip(i as int + 1));
        let checked = if structural {
            check_structure(&metrics[i])
        } else {
            check_range(&metrics[i])
        };
        match checked {
            Ok(()) => {},
            Err(e) => {
                return Err(e);
            },
        }
        i = i + 1;
    }
    assert(all.skip(i as int).len() == 0);
    Ok(())
}

/// Validates a metric set: succeeds when no metric has a hard failure.
/// Otherwise it reports the first structural failure in the whole set, and
/// only where there is none the first range failure, so that the order of
/// the metrics never lets a range failure hide a structural one.
pub fn validate_metrics(metrics: &Vec<Metric>) -> (r: Result<(), ValidationError>)
    ensures
        match r {
            Ok(()) => metrics_fault(metrics_view(metrics@)) is None,
            Err(e) => metrics_fault(metrics_view(metrics@)) == Some(e@),
        },
{
    match first_failure(metrics, true) {
        Ok(()) => first_failure(metrics, false),
        Err(e) => Err(e),
    }
}

/// The current wall-clock time in milliseconds since the epoch, from
/// `chrono::Utc::now().timestamp_millis()`. Nothing is claimed of the value.
#[verifier::external_body]
pub(crate) fn now_millis() -> i64 {
    chrono::Utc::now().timestamp_millis()
}

/// The current wall-clock time as RFC 3339 text, from
/// `chrono::Utc::now().to_rfc3339()`. Nothing is claimed of the value.
#[verifier::external_body]
fn now_rfc3339() -> String {
    chrono::Utc::now().to_rfc3339()
}

/// What normalization refuses, in order of precedence: a missing device
/// identifier, an empty metric set, a structural failure of a metric, then
/// a range failure of a metric.
pub open spec fn normalize_fault(device_id: Seq<char>, metrics: Seq<(Seq<char>, u64)>) -> Option<
    Fault,
> {
    if device_id.len() == 0 {
        Some(Fault::MissingDeviceId)
    } else if metrics.len() == 0 {
        Some(Fault::EmptyMetrics)
    } else {
        metrics_fault(metrics)
    }
}

/// Whether a record is valid: it names its device, has a metric, none of
/// its metrics has a hard failure, and no two of them share a name.
/// Normalization gives a valid record for every request it lets through;
/// enrichment keeps a record valid;
/// decoding the binary form of a valid record gives it back.
pub open spec fn well_formed(r: RecordView) -> bool {
    &&& normalize_fault(r.device_id, r.metrics) is None
    &&& distinct_names(r.metrics)
}

/// The bytes a record carries when the request gave these.
pub open spec fn raw_or_empty(raw: Option<Vec<u8>>) -> Seq<u8> {
    match raw {
        Some(bytes) => bytes@,
        None => Seq::empty(),
    }
}

/// Builds the canonical record of a request received at `now` (milliseconds
/// since the epoch): the supplied timestamp if there is one, else `now`; the
/// supplied raw bytes if there are any, else none; the supplied metrics read
/// as a mapping, which are the supplied metrics themselves where no two share
/// a name. Every supplied metric is validated. The record is valid.
pub fn normalize_at(
    device_id: String,
    ts: Option<i64>,
    metrics: Vec<Metric>,
    raw: Option<Vec<u8>>,
    now: i64,
) -> (r: Result<TelemetryRecord, ValidationError>)
    ensures
        match r {
            Ok(rec) => {
                &&& normalize_fault(device_id@, metrics_view(metrics@)) is None
                &&& well_formed(rec@)
                &&& rec@ == (RecordView {
                    device_id: device_id@,
                    ts: match ts {
                        Some(t) => t,
                        None => now,
                    },
                    metrics: as_mapping(metrics_view(metrics@)),
                    raw: raw_or_empty(raw),
                })
                &&& distinct_names(metrics_view(metrics@)) ==> rec@.metrics == metrics_view(
                    metrics@,
                )
            },
            Err(e) => normalize_fault(device_id@, metrics_view(metrics@)) == Some(e@),
        },
{
    if device_id.as_str().is_empty() {
        return Err(ValidationError::MissingDeviceId);
    }
    if metrics.len() == 0 {
        return Err(ValidationError::EmptyMetrics);
    }
    match validate_metrics(&metrics) {
        Ok(()) => {},
        Err(e) => {
            return Err(e);
        },
    }
    let ts: i64 = match ts {
        Some(t) => t,
        None => now,
    };
    let raw = match raw {
        Some(bytes) => bytes,
        None => Vec::new(),
    };
    let mapping = into_mapping(&metrics);
    proof {
        let given = metrics_view(metrics@);
        let kept = metrics_view(mapping@);
        law_as_mapping(given);
        law_metrics_fault(given);
        law_metrics_fault(kept);
        assert forall|k: int| 0 <= k < kept.len() implies metric_fault(#[trigger] kept[k]) is None by {
            let i = choose|i: int| 0 <= i < given.len() && #[trigger] given[i] == kept[k];
            assert(metric_fault(given[i]) is None);
        }
    }
    Ok(TelemetryRecord { device_id, ts, metrics: mapping, raw })
}

/// Builds the canonical record of a request, reading the clock for a missing
/// timestamp. Every field but a defaulted timestamp is determined by the
/// arguments.
pub fn normalize(device_id: String, ts: Option<i64>, metrics: Vec<Metric>, raw: Option<Vec<u8>>) -> (r:
    Result<TelemetryRecord, ValidationError>)
    ensures
        match r {
            Ok(rec) => {
                &&& normalize_fault(device_id@, metrics_view(metrics@)) is None
                &&& well_formed(rec@)
                &&& rec@.device_id == device_id@
                &&& rec@.metrics == as_mapping(metrics_view(metrics@))
                &&& distinct_names(metrics_view(metrics@)) ==> rec@.metrics == metrics_view(
                    metrics@,
                )
                &&& rec@.raw == raw_or_empty(raw)
                &&& ts is Some ==> Some(rec@.ts) == ts
            },
            Err(e) => normalize_fault(device_id@, metrics_view(metrics@)) == Some(e@),
        },
{
    let now: i64 = now_millis();
    normalize_at(device_id, ts, metrics, raw, now)
}

/// A request without a device identifier is refused as such, whatever its
/// metrics hold.
pub proof fn law_missing_device_id_first(device_id: Seq<char>, metrics: Seq<(Seq<char>, u64)>)
    requires
        device_id.len() == 0,
    ensures
        normalize_fault(device_id, metrics) == Some(Fault::MissingDeviceId),
{
}

/// A request with a device identifier and no metrics is refused for its
/// empty metric set; without a device identifier that comes first.
pub proof fn law_empty_metrics_second(device_id: Seq<char>, metrics: Seq<(Seq<char>, u64)>)
    requires
        metrics.len() == 0,
    ensures
        device_id.len() > 0 ==> normalize_fault(device_id, metrics) == Some(Fault::EmptyMetrics),
        device_id.len() == 0 ==> normalize_fault(device_id, metrics) == Some(
            Fault::MissingDeviceId,
        ),
{
}

/// The first failure of a kind is that of one of the metrics, before which
/// none has one of that kind; there is none exactly when no metric has one.
pub proof fn law_first_of(ms: Seq<(Seq<char>, u64)>, structural: bool)
    ensures
        first_of(ms, structural) is None <==> (forall|i: int|
            0 <= i < ms.len() ==> fault_of(#[trigger] ms[i], structural) is None),
        first_of(ms, structural) is Some ==> exists|i: int|
            0 <= i < ms.len() && first_of(ms, structural) == fault_of(#[trigger] ms[i], structural)
                && (forall|j: int| 0 <= j < i ==> fault_of(#[trigger] ms[j], structural) is None),
    decreases ms.len(),
{
    if ms.len() > 0 {
        let rest = ms.skip(1);
        law_first_of(rest, structural);
        assert(forall|i: int| 0 <= i < rest.len() ==> rest[i] == ms[i + 1]);
        if fault_of(ms[0], structural) is Some {
            assert(first_of(ms, structural) == fault_of(ms[0], structural));
        } else {
            if first_of(rest, structural) is Some {
                let i = choose|i: int|
                    0 <= i < rest.len() && first_of(rest, structural) == fault_of(
                        #[trigger] rest[i],
                        structural,
                    ) && (forall|j: int|
                        0 <= j < i ==> fault_of(#[trigger] rest[j], structural) is None);
                assert(first_of(ms, structural) == fault_of(ms[i + 1], structural));
                assert forall|j: int| 0 <= j < i + 1 implies fault_of(
                    #[trigger] ms[j],
                    structural,
                ) is None by {
                    if j > 0 {
                        assert(ms[j] == rest[j - 1]);
                    }
                }
            } else {
                assert forall|i: int| 0 <= i < ms.len() implies fault_of(
                    #[trigger] ms[i],
                    structural,
                ) is None by {
                    if i > 0 {
                        assert(ms[i] == rest[i - 1]);
                    }
                }
            }
        }
    }
}

/// A metric set is accepted exactly when none of its metrics has a hard
/// failure. A set with a structural failure is refused with a structural
/// one, whatever else it holds and in whatever order; a range failure is
/// reported only for a set without any structural failure.
pub proof fn law_metrics_fault(ms: Seq<(Seq<char>, u64)>)
    ensures
        metrics_fault(ms) is None <==> (forall|i: int|
            0 <= i < ms.len() ==> metric_fault(#[trigger] ms[i]) is None),
        (exists|i: int| 0 <= i < ms.len() && structural_fault(#[trigger] ms[i]) is Some)
            ==> exists|i: int|
            0 <= i < ms.len() && structural_fault(#[trigger] ms[i]) is Some && metrics_fault(ms)
                == structural_fault(ms[i]),
        metrics_fault(ms) is Some && (forall|i: int|
            0 <= i < ms.len() ==> structural_fault(#[trigger] ms[i]) is None) ==> exists|i: int|
            0 <= i < ms.len() && range_fault(#[trigger] ms[i]) is Some && metrics_fault(ms)
                == range_fault(ms[i]),
{
    law_first_of(ms, true);
    law_first_of(ms, false);
    assert forall|i: int| 0 <= i < ms.len() implies (fault_of(#[trigger] ms[i], true)
        == structural_fault(ms[i]) && fault_of(ms[i], false) == range_fault(ms[i])) by {}
    if metrics_fault(ms) is None {
        assert forall|i: int| 0 <= i < ms.len() implies metric_fault(#[trigger] ms[i]) is None by {
            assert(fault_of(ms[i], true) is None && fault_of(ms[i], false) is None);
        }
    }
    if forall|i: int| 0 <= i < ms.len() ==> metric_fault(#[trigger] ms[i]) is None {
        assert forall|i: int| 0 <= i < ms.len() implies fault_of(#[trigger] ms[i], true) is None by {
            assert(metric_fault(ms[i]) is None);
        }
        assert forall|i: int| 0 <= i < ms.len() implies fault_of(
            #[trigger] ms[i],
            false,
        ) is None by {
            assert(metric_fault(ms[i]) is None);
        }
    }
    if exists|i: int| 0 <= i < ms.len() && structural_fault(#[trigger] ms[i]) is Some {
        let k = choose|i: int| 0 <= i < ms.len() && structural_fault(#[trigger] ms[i]) is Some;
        assert(fault_of(ms[k], true) is Some);
        let i = choose|i: int|
            0 <= i < ms.len() && first_of(ms, true) == fault_of(#[trigger] ms[i], true);
        assert(structural_fault(ms[i]) is Some && metrics_fault(ms) == structural_fault(ms[i]));
    }
    if metrics_fault(ms) is Some && (forall|i: int|
        0 <= i < ms.len() ==> structural_fault(#[trigger] ms[i]) is None) {
        assert forall|i: int| 0 <= i < ms.len() implies fault_of(#[trigger] ms[i], true) is None by {
            assert(structural_fault(ms[i]) is None);
        }
        let i = choose|i: int|
            0 <= i < ms.len() && first_of(ms, false) == fault_of(#[trigger] ms[i], false);
        assert(range_fault(ms[i]) is Some && metrics_fault(ms) == range_fault(ms[i]));
    }
}

/// A metric set that holds a non-finite value is refused with a structural
/// failure; where every name is non-empty, the failure names a key whose
/// value is not finite, whatever else the set holds and in whatever order.
pub proof fn law_non_finite_refused(ms: Seq<(Seq<char>, u64)>, k: int)
    requires
        0 <= k < ms.len(),
        !is_finite_bits(ms[k].1),
    ensures
        metrics_fault(ms) is Some,
        !(metrics_fault(ms)->0 is OutOfRange),
        (forall|i: int| 0 <= i < ms.len() ==> (#[trigger] ms[i]).0.len() > 0) ==> exists|i: int|
            0 <= i < ms.len() && !is_finite_bits((#[trigger] ms[i]).1) && metrics_fault(ms) == Some(
                Fault::NonFiniteValue(ms[i].0),
            ),
{
    law_metrics_fault(ms);
    assert(structural_fault(ms[k]) is Some);
    let i = choose|i: int|
        0 <= i < ms.len() && structural_fault(#[trigger] ms[i]) is Some && metrics_fault(ms)
            == structural_fault(ms[i]);
    if forall|i: int| 0 <= i < ms.len() ==> (#[trigger] ms[i]).0.len() > 0 {
        assert(ms[i].0.len() > 0);
        assert(!is_finite_bits(ms[i].1));
    }
}

/// A battery level outside `[0, 100]` makes its metric set fail, wherever it
/// stands; a finite one inside the interval, bounds included, is no failure.
pub proof fn law_battery_level_bounds(ms: Seq<(Seq<char>, u64)>, k: int)
    requires
        0 <= k < ms.len(),
        ms[k].0 == "battery_level"@,
    ensures
        !in_range_bits(ms[k].1, 0, HUNDRED_BITS) ==> metrics_fault(ms) is Some,
        is_finite_bits(ms[k].1) && in_range_bits(ms[k].1, 0, HUNDRED_BITS) ==> metric_fault(ms[k])
            is None,
        metric_fault(("battery_level"@, 0u64)) is None,
        metric_fault(("battery_level"@, HUNDRED_BITS)) is None,
{
    reveal_strlit("battery_level");
    law_metrics_fault(ms);
    if !in_range_bits(ms[k].1, 0, HUNDRED_BITS) {
        assert(metric_fault(ms[k]) is Some);
    }
    assert(0u64 & 0x7FF0_0000_0000_0000u64 == 0u64) by (bit_vector);
    assert(0u64 & 0x7FFF_FFFF_FFFF_FFFFu64 == 0u64) by (bit_vector);
    assert(0x4059_0000_0000_0000u64 & 0x7FF0_0000_0000_0000u64 == 0x4050_0000_0000_0000u64)
        by (bit_vector);
    assert(0x4059_0000_0000_0000u64 & 0x7FFF_FFFF_FFFF_FFFFu64 == 0x4059_0000_0000_0000u64)
        by (bit_vector);
}

/// A finite temperature or humidity is never a failure, whatever its value.
pub proof fn law_soft_ranges_accept(m: (Seq<char>, u64))
    requires
        m.0 == "temperature"@ || m.0 == "humidity"@,
        is_finite_bits(m.1),
    ensures
        metric_fault(m) is None,
{
    reveal_strlit("temperature");
    reveal_strlit("humidity");
    reveal_strlit("battery_level");
}

/// The message that carries a record to the broker.
pub open spec fn delivery_of(topic: Seq<char>, r: RecordView, d: Delivery) -> bool {
    &&& d.topic@ == topic
    &&& d.key@ == r.device_id
    &&& d.payload@ == record_bytes(r)
}

/// Prepares the delivery of a record: refuses one without a device
/// identifier, then one without metrics, and otherwise yields the message
/// for `topic`, keyed by the device identifier, that holds the encoded
/// record. Sending it is the caller's part.
pub fn handle_telemetry(telemetry: TelemetryRecord, topic: &str) -> (r: Result<
    Delivery,
    ValidationError,
>)
    ensures
        match r {
            Ok(d) => {
                &&& telemetry@.device_id.len() > 0
                &&& telemetry@.metrics.len() > 0
                &&& delivery_of(topic@, telemetry@, d)
            },
            Err(e) => if telemetry@.device_id.len() == 0 {
                e@ == Fault::MissingDeviceId
            } else {
                telemetry@.metrics.len() == 0 && e@ == Fault::EmptyMetrics
            },
        },
{
    if telemetry.device_id.as_str().is_empty() {
        return Err(ValidationError::MissingDeviceId);
    }
    if telemetry.metrics.len() == 0 {
        return Err(ValidationError::EmptyMetrics);
    }
    let payload = encode(&telemetry);
    Ok(Delivery { topic: topic.to_owned(), key: telemetry.device_id, payload })
}

/// Why a JSON text gives no record.
#[derive(Debug, PartialEq, Eq, Structural, Clone, Copy)]
pub enum JsonError {
    /// The text is not a JSON document.
    Malformed,
}

/// `serde_json::Error`, the parser's own error: carried out of the parser
/// unread and answered with `JsonError::Malformed`.
#[verifier::external_type_specification]
#[verifier::external_body]
pub struct ExJsonError(serde_json::Error);

/// What `serde_json` reads in a text: nothing if it is no JSON document;
/// for a JSON object its members in the order `serde_json` keeps them, each
/// with the bit pattern of its value as a double if it is a number; for any
/// other document no members.
pub uninterp spec fn json_members(text: Seq<char>) -> Option<Seq<(Seq<char>, Option<u64>)>>;

/// Whether no two members share a name.
pub open spec fn distinct_member_names(ms: Seq<(Seq<char>, Option<u64>)>) -> bool {
    forall|i: int, j: int| 0 <= i < j < ms.len() ==> ms[i].0 != ms[j].0
}

/// The members of a parsed object as mathematical values.
pub open spec fn members_view(ms: Seq<(String, Option<u64>)>) -> Seq<(Seq<char>, Option<u64>)> {
    Seq::new(ms.len(), |i: int| (ms[i].0@, ms[i].1))
}

/// Parses a text with `serde_json::from_str` into a `serde_json::Value` and
/// hands out the members of its top-level object (`Value::as_object`), each
/// value through `Value::as_f64`. The contract names the result and says
/// that no name comes twice, the object being a map keyed by name.
#[verifier::external_body]
fn parse_members(text: &str) -> (r: Result<Vec<(String, Option<u64>)>, serde_json::Error>)
    ensures
        match r {
            Ok(ms) => json_members(text@) == Some(members_view(ms@)) && distinct_member_names(
                members_view(ms@),
            ),
            Err(_) => json_members(text@) is None,
        },
{
    let parsed: serde_json::Value = serde_json::from_str(text)?;
    let mut out = Vec::new();
    if let Some(object) = parsed.as_object() {
        for (key, value) in object {
            out.push((key.clone(), value.as_f64().map(|x| x.to_bits())));
        }
    }
    Ok(out)
}

/// The members that are numbers, in order.
pub open spec fn numeric_members(ms: Seq<(Seq<char>, Option<u64>)>) -> Seq<(Seq<char>, u64)>
    decreases ms.len(),
{
    if ms.len() == 0 {
        Seq::empty()
    } else {
        match ms.last().1 {
            Some(bits) => numeric_members(ms.drop_last()).push((ms.last().0, bits)),
            None => numeric_members(ms.drop_last()),
        }
    }
}

/// The numeric members carry names of the members, and distinct ones where
/// those are distinct.
pub proof fn lemma_numeric_members_names(ms: Seq<(Seq<char>, Option<u64>)>)
    ensures
        forall|k: int|
            0 <= k < numeric_members(ms).len() ==> exists|i: int|
                0 <= i < ms.len() && (#[trigger] ms[i]).0 == (#[trigger] numeric_members(ms)[k]).0,
        distinct_member_names(ms) ==> distinct_names(numeric_members(ms)),
    decreases ms.len(),
{
    if ms.len() > 0 {
        let init = ms.drop_last();
        let last = ms.last();
        let head = numeric_members(init);
        let out = numeric_members(ms);
        lemma_numeric_members_names(init);
        assert forall|k: int| 0 <= k < out.len() implies exists|i: int|
            0 <= i < ms.len() && (#[trigger] ms[i]).0 == (#[trigger] out[k]).0 by {
            if k < head.len() {
                assert(out[k] == head[k]);
                let i = choose|i: int| 0 <= i < init.len() && (#[trigger] init[i]).0 == head[k].0;
                assert(ms[i].0 == out[k].0);
            } else {
                assert(ms[ms.len() - 1].0 == out[k].0);
            }
        }
        if distinct_member_names(ms) {
            assert(distinct_member_names(init)) by {
                assert forall|i: int, j: int| 0 <= i < j < init.len() implies init[i].0
                    != init[j].0 by {
                    assert(init[i] == ms[i] && init[j] == ms[j]);
                }
            }
            assert forall|k: int, l: int| 0 <= k < l < out.len() implies out[k].0 != out[l].0 by {
                assert(out[k] == head[k]);
                if l < head.len() {
                    assert(out[l] == head[l]);
                } else {
                    let i = choose|i: int|
                        0 <= i < init.len() && (#[trigger] init[i]).0 == head[k].0;
                    assert(ms[i].0 != ms[ms.len() - 1].0);
                }
            }
        }
    }
}

/// Keeps the numeric members of a parsed object as metrics.
pub fn metrics_from_members(members: Vec<(String, Option<u64>)>) -> (out: Vec<Metric>)
    ensures
        metrics_view(out@) == numeric_members(members_view(members@)),
        distinct_member_names(members_view(members@)) ==> distinct_names(metrics_view(out@)),
{
    let ghost all = members_view(members@);
    proof {
        lemma_numeric_members_names(all);
    }
    let mut out: Vec<Metric> = Vec::new();
    let mut i: usize = 0;
    assert(metrics_view(out@) =~= numeric_members(all.take(0)));
    while i < members.len()
        invariant
            i <= members.len(),
            all == members_view(members@),
            metrics_view(out@) == numeric_members(all.take(i as int)),
        decreases members.len() - i,
    {
        let ghost before = metrics_view(out@);
        proof {
            let next = all.take(i as int + 1);
            assert(next.drop_last() =~= all.take(i as int));
            assert(next.last() == (members@[i as int].0@, members@[i as int].1));
        }
        match members[i].1 {
            Some(bits) => {
                out.push(Metric { name: members[i].0.clone(), bits });
                assert(metrics_view(out@) =~= before.push((members@[i as int].0@, bits)));
            },
            None => {},
        }
        i = i + 1;
    }
    assert(all.take(i as int) =~= all);
    out
}

/// The record that a JSON text of metrics gives for a device at time `now`:
/// the numeric members of its top-level object as metrics, the text itself
/// as raw payload. Members that are not numbers are left out, and so is
/// everything in a document that is not an object.
pub fn telemetry_from_members(
    members: Vec<(String, Option<u64>)>,
    json_data: &str,
    device_id: &str,
    now: i64,
) -> (rec: TelemetryRecord)
    ensures
        rec@ == (RecordView {
            device_id: device_id@,
            ts: now,
            metrics: numeric_members(members_view(members@)),
            raw: vstd::utf8::encode_utf8(json_data@),
        }),
        distinct_member_names(members_view(members@)) ==> distinct_names(rec@.metrics),
{
    let metrics = metrics_from_members(members);
    TelemetryRecord {
        device_id: device_id.to_owned(),
        ts: now,
        metrics,
        raw: json_data.as_bytes_vec(),
    }
}

/// Builds a record from a JSON text of metrics, stamped with the current
/// time. Fails exactly when the text is no JSON document.
pub fn create_telemetry_from_json(json_data: &str, device_id: &str) -> (r: Result<
    TelemetryRecord,
    JsonError,
>)
    ensures
        match r {
            Ok(rec) => {
                &&& json_members(json_data@) is Some
                &&& rec@.device_id == device_id@
                &&& rec@.metrics == numeric_members(json_members(json_data@)->0)
                &&& rec@.raw == vstd::utf8::encode_utf8(json_data@)
                &&& distinct_names(rec@.metrics)
            },
            Err(e) => json_members(json_data@) is None,
        },
{
    match parse_members(json_data) {
        Ok(members) => {
            let now: i64 = now_millis();
            Ok(telemetry_from_members(members, json_data, device_id, now))
        },
        Err(_) => Err(JsonError::Malformed),
    }
}

/// The text that `String::from_utf8_lossy` gives for a byte sequence: the
/// decoded text where the bytes are valid UTF-8, and otherwise the text with
/// a replacement character for each invalid sequence.
pub uninterp spec fn lossy_text(bytes: Seq<u8>) -> Seq<char>;

/// Decodes bytes as text with `String::from_utf8_lossy`, which never fails
/// and, by its documentation, gives valid UTF-8 back as the text it encodes.
#[verifier::external_body]
fn to_lossy_text(bytes: &Vec<u8>) -> (r: String)
    ensures
        r@ == lossy_text(bytes@),
        valid_utf8(bytes@) ==> r@ == decode_utf8(bytes@),
{
    String::from_utf8_lossy(bytes).into_owned()
}

/// The bytes that `serde_json::to_vec` writes for the JSON object with the
/// given members, each value a string; nothing if it cannot write them.
pub uninterp spec fn json_object_bytes(members: Seq<(Seq<char>, Seq<char>)>) -> Option<Seq<u8>>;

/// Members of a JSON object as mathematical values.
pub open spec fn members_text_view(ms: Seq<(String, String)>) -> Seq<(Seq<char>, Seq<char>)> {
    Seq::new(ms.len(), |i: int| (ms[i].0@, ms[i].1@))
}

/// Puts the members into a `serde_json::Map` with `Map::insert`, in order,
/// and serializes the object with `serde_json::to_vec`. The contract only
/// names the result.
#[verifier::external_body]
fn write_json_object(members: &Vec<(String, String)>) -> (r: Option<Vec<u8>>)
    ensures
        match r {
            Some(b) => json_object_bytes(members_text_view(members@)) == Some(b@),
            None => json_object_bytes(members_text_view(members@)) is None,
        },
{
    let mut object = serde_json::Map::new();
    for (name, text) in members {
        object.insert(name.clone(), serde_json::Value::from(text.as_str()));
    }
    serde_json::to_vec(&serde_json::Value::Object(object)).ok()
}

/// The members of the ingestion envelope: when the record was ingested, by
/// which node, and the text of the payload it replaces.
pub open spec fn envelope_members(
    ingested_at: Seq<char>,
    node_id: Seq<char>,
    original: Seq<char>,
) -> Seq<(Seq<char>, Seq<char>)> {
    seq![
        ("ingested_at"@, ingested_at),
        ("ingestion_node"@, node_id),
        ("original_raw"@, original),
    ]
}

/// The payload that a serialized envelope becomes: its bytes, or no bytes
/// where it could not be serialized.
pub open spec fn payload_of(written: Option<Seq<u8>>) -> Seq<u8> {
    match written {
        Some(bytes) => bytes,
        None => Seq::empty(),
    }
}

/// The record with its raw payload replaced by the envelope that holds
/// `original` as the text of the old payload.
pub open spec fn enriched_with(
    r: RecordView,
    node_id: Seq<char>,
    ingested_at: Seq<char>,
    original: Seq<char>,
) -> RecordView {
    RecordView {
        raw: payload_of(json_object_bytes(envelope_members(ingested_at, node_id, original))),
        ..r
    }
}

/// The record with its raw payload replaced by the envelope for an ingestion
/// that `node_id` made at `ingested_at`.
pub open spec fn enriched(r: RecordView, node_id: Seq<char>, ingested_at: Seq<char>) -> RecordView {
    enriched_with(r, node_id, ingested_at, lossy_text(r.raw))
}

/// Enrichment keeps a valid record valid: it touches neither the device
/// identifier nor the metrics.
pub proof fn law_enriched_stays_valid(r: RecordView, node_id: Seq<char>, ingested_at: Seq<char>)
    requires
        well_formed(r),
    ensures
        well_formed(enriched(r, node_id, ingested_at)),
{
}

/// Builds the three members of the envelope.
pub fn build_envelope(ingested_at: &str, node_id: &str, original: &str) -> (members: Vec<
    (String, String),
>)
    ensures
        members_text_view(members@) == envelope_members(ingested_at@, node_id@, original@),
{
    let mut members: Vec<(String, String)> = Vec::new();
    members.push(("ingested_at".to_owned(), ingested_at.to_owned()));
    members.push(("ingestion_node".to_owned(), node_id.to_owned()));
    members.push(("original_raw".to_owned(), original.to_owned()));
    assert(members_text_view(members@) =~= envelope_members(ingested_at@, node_id@, original@));
    members
}

/// The payload for a serialized envelope: a failed serialization gives an
/// empty payload and never an error.
pub fn envelope_payload(written: Option<Vec<u8>>) -> (raw: Vec<u8>)
    ensures
        raw@ == payload_of(
            match written {
                Some(bytes) => Some(bytes@),
                None => None,
            },
        ),
{
    match written {
        Some(bytes) => bytes,
        None => Vec::new(),
    }
}

/// Attaches ingestion metadata for a given ingestion time: only the raw
/// payload changes. Total: any bytes are accepted as the old payload, and a
/// payload that is valid UTF-8 enters the envelope as the text it encodes.
pub fn enrich_telemetry_at(telemetry: TelemetryRecord, node_id: &str, ingested_at: &str) -> (r:
    TelemetryRecord)
    ensures
        r@ == enriched(telemetry@, node_id@, ingested_at@),
        valid_utf8(telemetry@.raw) ==> r@ == enriched_with(
            telemetry@,
            node_id@,
            ingested_at@,
            decode_utf8(telemetry@.raw),
        ),
{
    let original = to_lossy_text(&telemetry.raw);
    let members = build_envelope(ingested_at, node_id, original.as_str());
    let raw = envelope_payload(write_json_object(&members));
    TelemetryRecord {
        device_id: telemetry.device_id,
        ts: telemetry.ts,
        metrics: telemetry.metrics,
        raw,
    }
}

/// Attaches ingestion metadata, stamped with the current time. Never fails,
/// whatever the raw payload holds, and changes nothing but the raw payload.
pub fn enrich_telemetry(telemetry: TelemetryRecord, node_id: &str) -> (r: TelemetryRecord)
    ensures
        exists|ingested_at: Seq<char>| r@ == enriched(telemetry@, node_id@, ingested_at),
        r@.device_id == telemetry@.device_id,
        r@.ts == telemetry@.ts,
        r@.metrics == telemetry@.metrics,
{
    let ingested_at = now_rfc3339();
    let r = enrich_telemetry_at(telemetry, node_id, ingested_at.as_str());
    assert(r@ == enriched(telemetry@, node_id@, ingested_at@));
    r
}

} // verus!
