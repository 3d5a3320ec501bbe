//! What is handed to the broker, and how a failed delivery is described.

use vstd::prelude::*;

verus! {

/// How long the broker client waits for an acknowledgment, in milliseconds.
pub const MESSAGE_TIMEOUT_MS: u64 = 5000u64;

/// One message for the broker: a record's bytes under its device's key.
#[derive(Debug)]
pub struct Delivery {
    pub topic: String,
    pub key: String,
    pub payload: Vec<u8>,
}

/// Why a delivery failed.
#[derive(Debug)]
pub enum DeliveryError {
    /// No acknowledgment arrived in time.
    Timeout,
    /// No broker endpoint could be reached.
    BrokerUnavailable,
    /// The broker refused the write.
    Rejected { reason: String },
}

/// Broker client code for a message that was not acknowledged in time.
pub const CODE_MESSAGE_TIMED_OUT: i32 = -192i32;

/// Broker code for a request that was not answered in time.
pub const CODE_REQUEST_TIMED_OUT: i32 = 7i32;

/// Broker client code for a failed connection to a broker.
pub const CODE_TRANSPORT: i32 = -195i32;

/// Broker client code for no broker being reachable.
pub const CODE_ALL_BROKERS_DOWN: i32 = -187i32;

/// The failure that a broker client error stands for: a timeout, an
/// unreachable broker, or else a refusal with the client's own words.
pub open spec fn classified(code: Option<i32>, reason: Seq<char>, e: DeliveryError) -> bool {
    if code == Some(CODE_MESSAGE_TIMED_OUT) || code == Some(CODE_REQUEST_TIMED_OUT) {
        e is Timeout
    } else if code == Some(CODE_TRANSPORT) || code == Some(CODE_ALL_BROKERS_DOWN) {
        e is BrokerUnavailable
    } else {
        e is Rejected && e->reason@ == reason
    }
}

/// Classifies the error of a failed send by the broker client's error code,
/// if it has one, keeping its description for a refusal.
pub fn classify_failure(code: Option<i32>, reason: String) -> (e: DeliveryError)
    ensures
        classified(code, reason@, e),
{
    match code {
        Some(c) => {
            if c == CODE_MESSAGE_TIMED_OUT || c == CODE_REQUEST_TIMED_OUT {
                DeliveryError::Timeout
            } else if c == CODE_TRANSPORT || c == CODE_ALL_BROKERS_DOWN {
                DeliveryError::BrokerUnavailable
            } else {
                DeliveryError::Rejected { reason }
            }
        },
        None => DeliveryError::Rejected { reason },
    }
}

impl DeliveryError {
    /// The text that describes the failure.
    pub open spec fn message_spec(&self) -> Seq<char> {
        match self {
            DeliveryError::Timeout => "delivery timed out"@,
            DeliveryError::BrokerUnavailable => "broker unavailable"@,
            DeliveryError::Rejected { reason } => reason@,
        }
    }

    /// The text that describes the failure.
    pub fn message(&self) -> (r: String)
        ensures
            r@ == self.message_spec(),
    {
        match self {
            DeliveryError::Timeout => "delivery timed out".to_owned(),
            DeliveryError::BrokerUnavailable => "broker unavailable".to_owned(),
            DeliveryError::Rejected { reason } => reason.clone(),
        }
    }
}

} // verus!
