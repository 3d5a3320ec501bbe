//! The request state machine: what a request becomes before delivery, and
//! what the caller is told after it.

use vstd::prelude::*;
use crate::kafka::{Delivery, DeliveryError};
use crate::record::{Metric, RecordView, as_mapping, distinct_names, metrics_view};
use crate::telemetry_handler::{
    Fault, ValidationError, delivery_of, handle_telemetry, normalize_at, normalize_fault,
    raw_or_empty, now_millis, well_formed,
};

verus! {

/// Status of a refused request.
pub const BAD_REQUEST: u16 = 400u16;

/// Status of a request that failed after validation.
pub const INTERNAL_SERVER_ERROR: u16 = 500u16;

/// The body of a telemetry request.
#[derive(Debug)]
pub struct TelemetryRequest {
    pub device_id: String,
    pub ts: Option<i64>,
    pub metrics: Vec<Metric>,
    pub raw: Option<Vec<u8>>,
}

/// The body of a health reply.
#[derive(Debug)]
pub struct HealthResponse {
    pub status: String,
    pub timestamp: i64,
    pub version: String,
}

/// The body of an acknowledgment.
#[derive(Debug)]
pub struct TelemetryResponse {
    pub success: bool,
    pub message: String,
    pub device_id: String,
}

/// The body of a failure reply.
#[derive(Debug)]
pub struct ErrorResponse {
    pub error: String,
    pub details: Option<String>,
}

/// The reason given for a refusal.
pub open spec fn fault_error(f: Fault) -> Seq<char> {
    match f {
        Fault::MissingDeviceId => "device_id is required"@,
        Fault::EmptyMetrics => "metrics cannot be empty"@,
        Fault::EmptyMetricName => "Metric name cannot be empty"@,
        Fault::NonFiniteValue(_) => "Invalid metric value"@,
        Fault::OutOfRange(_) => "Battery level must be between 0-100%"@,
    }
}

/// The offending metric, where a refusal has one.
pub open spec fn fault_details(f: Fault) -> Option<Seq<char>> {
    match f {
        Fault::NonFiniteValue(key) => Some(key),
        Fault::OutOfRange(key) => Some(key),
        _ => None,
    }
}

/// Whether a failure body tells of this refusal.
pub open spec fn tells_fault(body: ErrorResponse, f: Fault) -> bool {
    &&& body.error@ == fault_error(f)
    &&& match body.details {
        Some(d) => fault_details(f) == Some(d@),
        None => fault_details(f) is None,
    }
}

/// The client-error reply that tells of a validation failure.
pub fn reject(e: ValidationError) -> (r: (u16, ErrorResponse))
    ensures
        r.0 == BAD_REQUEST,
        tells_fault(r.1, e@),
{
    let body = match e {
        ValidationError::MissingDeviceId => ErrorResponse {
            error: "device_id is required".to_owned(),
            details: None,
        },
        ValidationError::EmptyMetrics => ErrorResponse {
            error: "metrics cannot be empty".to_owned(),
            details: None,
        },
        ValidationError::EmptyMetricName => ErrorResponse {
            error: "Metric name cannot be empty".to_owned(),
            details: None,
        },
        ValidationError::NonFiniteValue { key } => ErrorResponse {
            error: "Invalid metric value".to_owned(),
            details: Some(key),
        },
        ValidationError::OutOfRange { key } => ErrorResponse {
            error: "Battery level must be between 0-100%".to_owned(),
            details: Some(key),
        },
    };
    (BAD_REQUEST, body)
}

/// Whether a request is valid as a mapping of metrics: no two of its
/// metrics share a name. A request read from a JSON object is.
pub open spec fn valid_request(request: TelemetryRequest) -> bool {
    distinct_names(metrics_view(request.metrics@))
}

/// The record of a request received at `now`. Its metrics are those of the
/// request read as a mapping: the request's own where the request is valid.
pub open spec fn record_of(request: TelemetryRequest, now: i64) -> RecordView {
    RecordView {
        device_id: request.device_id@,
        ts: match request.ts {
            Some(t) => t,
            None => now,
        },
        metrics: as_mapping(metrics_view(request.metrics@)),
        raw: raw_or_empty(request.raw),
    }
}

/// First transition of a request received at `now`: normalize, validate and
/// encode. A request that fails validation is answered at once with a client
/// error and nothing is handed to the broker; any other yields the one
/// message to deliver.
pub fn ingest_telemetry_at(request: TelemetryRequest, topic: &str, now: i64) -> (r: Result<
    Delivery,
    (u16, ErrorResponse),
>)
    ensures
        match r {
            Ok(d) => {
                &&& normalize_fault(request.device_id@, metrics_view(request.metrics@)) is None
                &&& delivery_of(topic@, record_of(request, now), d)
                &&& well_formed(record_of(request, now))
                &&& valid_request(request) ==> record_of(request, now).metrics == metrics_view(
                    request.metrics@,
                )
            },
            Err(reply) => {
                &&& normalize_fault(request.device_id@, metrics_view(request.metrics@)) is Some
                &&& reply.0 == BAD_REQUEST
                &&& tells_fault(
                    reply.1,
                    normalize_fault(request.device_id@, metrics_view(request.metrics@))->0,
                )
            },
        },
{
    let record = match normalize_at(
        request.device_id,
        request.ts,
        request.metrics,
        request.raw,
        now,
    ) {
        Ok(record) => record,
        Err(e) => {
            return Err(reject(e));
        },
    };
    match handle_telemetry(record, topic) {
        Ok(d) => Ok(d),
        Err(e) => Err(reject(e)),
    }
}

/// First transition of a request, reading the clock for a missing
/// timestamp: the reply for a request that fails validation, or the one
/// message to deliver, which holds the request's record with the supplied
/// timestamp or else a time the clock gave.
pub fn ingest_telemetry(request: TelemetryRequest, topic: &str) -> (r: Result<
    Delivery,
    (u16, ErrorResponse),
>)
    ensures
        match r {
            Ok(d) => {
                &&& normalize_fault(request.device_id@, metrics_view(request.metrics@)) is None
                &&& exists|now: i64| delivery_of(topic@, record_of(request, now), d)
            },
            Err(reply) => {
                &&& normalize_fault(request.device_id@, metrics_view(request.metrics@)) is Some
                &&& reply.0 == BAD_REQUEST
                &&& tells_fault(
                    reply.1,
                    normalize_fault(request.device_id@, metrics_view(request.metrics@))->0,
                )
            },
        },
{
    let now: i64 = now_millis();
    let r = ingest_telemetry_at(request, topic, now);
    proof {
        if r is Ok {
            assert(delivery_of(topic@, record_of(request, now), r->Ok_0));
        }
    }
    r
}

/// Whether a reply closes a request for `device_id` whose delivery ended in
/// `outcome`: an acknowledgment after a success, a server error that
/// describes the failure after any other.
pub open spec fn closes(
    reply: Result<TelemetryResponse, (u16, ErrorResponse)>,
    device_id: Seq<char>,
    outcome: Result<(), DeliveryError>,
) -> bool {
    match outcome {
        Ok(()) => match reply {
            Ok(ack) => {
                &&& ack.success
                &&& ack.message@ == "Telemetry received successfully"@
                &&& ack.device_id@ == device_id
            },
            Err(_) => false,
        },
        Err(e) => match reply {
            Ok(_) => false,
            Err(failure) => {
                &&& failure.0 == INTERNAL_SERVER_ERROR
                &&& failure.1.error@ == "Failed to process telemetry"@
                &&& match failure.1.details {
                    Some(d) => d@ == e.message_spec(),
                    None => false,
                }
            },
        },
    }
}

/// Second transition of a request: the reply once the delivery has ended.
/// A failed delivery is reported and nothing is kept or tried again.
pub fn finish_ingest(device_id: String, outcome: Result<(), DeliveryError>) -> (r: Result<
    TelemetryResponse,
    (u16, ErrorResponse),
>)
    ensures
        closes(r, device_id@, outcome),
{
    match outcome {
        Ok(()) => Ok(
            TelemetryResponse {
                success: true,
                message: "Telemetry received successfully".to_owned(),
                device_id,
            },
        ),
        Err(e) => Err(
            (
                INTERNAL_SERVER_ERROR,
                ErrorResponse {
                    error: "Failed to process telemetry".to_owned(),
                    details: Some(e.message()),
                },
            ),
        ),
    }
}

/// The health reply at `now` (seconds since the epoch) for a build of the
/// given version.
pub fn health_check(now: i64, version: &str) -> (r: HealthResponse)
    ensures
        r.status@ == "healthy"@,
        r.timestamp == now,
        r.version@ == version@,
{
    HealthResponse { status: "healthy".to_owned(), timestamp: now, version: version.to_owned() }
}

/// The plain-text counter exposition.
pub fn metrics_handler() -> (r: &'static str)
    ensures
        r@ == "# HELP rust_ingest_requests_total Total number of telemetry requests\n# TYPE rust_ingest_requests_total counter\nrust_ingest_requests_total 0\n"@,
{
    "# HELP rust_ingest_requests_total Total number of telemetry requests\n# TYPE rust_ingest_requests_total counter\nrust_ingest_requests_total 0\n"
}

} // verus!
