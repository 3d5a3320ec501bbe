//! Telemetry ingestion gateway: validation, normalization, enrichment,
//! binary encoding and the request state machine, with machine-checked
//! contracts.

pub mod config;
pub mod kafka;
pub mod record;
pub mod round_trip;
pub mod server;
pub mod telemetry_handler;
pub mod wire;
