//! Shared HTTP protocol types for capture-to-processing traffic.
//!
//! The wire encoding lives outside the library; these are the plain
//! values the endpoints exchange.

use vstd::prelude::*;

verus! {

/// One recording available on a capture server.
pub struct RecordingInfo {
    pub filename: String,
    pub size: u64,
    /// ISO-8601 creation timestamp.
    pub created: String,
}

/// Health-check response.
pub struct HealthResponse {
    pub status: String,
    pub uptime_secs: u64,
}

/// Payload of a new-recording notification.
pub struct NewRecordingEvent {
    pub filename: String,
    pub size: u64,
}

} // verus!
