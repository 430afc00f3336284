//! Values that a configuration takes when it leaves a setting out.
use vstd::prelude::*;

use crate::config::HttpMethod;

verus! {

/// Port of the metrics server.
pub fn port() -> (r: u16)
    ensures
        r == 9191,
{
    9191
}

/// Number of probes that may run at once.
pub fn max_concurrent_probes() -> (r: usize)
    ensures
        r == 50,
{
    50
}

/// Seconds between two probes of an endpoint.
pub fn default_interval_secs() -> (r: u64)
    ensures
        r == 30,
{
    30
}

/// Milliseconds a probe may take.
pub fn default_timeout_ms() -> (r: u64)
    ensures
        r == 5000,
{
    5000
}

/// Method of HTTP probes.
pub fn http_method() -> (r: HttpMethod)
    ensures
        r == HttpMethod::Get,
{
    HttpMethod::Get
}

/// `Content-Type` of HTTP payloads.
pub fn content_type() -> (r: String)
    ensures
        r@ == "application/json"@,
{
    "application/json".to_owned()
}

} // verus!
