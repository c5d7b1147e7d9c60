//! Errors of the engine.

use serde_json::Error as JsonError;
use vstd::prelude::*;

verus! {

#[verifier::external_type_specification]
#[verifier::external_body]
pub struct ExJsonError(JsonError);

/// What can go wrong while reading market data.
#[derive(Debug)]
pub enum Error {
    /// The text is not JSON.
    Json(JsonError),
    MalformedResponse(String),
    RateLimited { retry_after_secs: u64 },
    UpstreamStatus { status: u16 },
    NoExchanges,
    Config(String),
    Network(String),
    /// The system clock reads before the Unix epoch.
    Clock,
}

} // verus!
