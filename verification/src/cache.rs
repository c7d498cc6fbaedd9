//! The content cache's rules on payloads: only clean JSON is ever stored, and
//! a stored row whose payload no longer parses is a miss (never trusted
//! content). The SQL reads and writes live with the database code.

use vstd::prelude::*;

use crate::json::{json_parse, parse_json};
use crate::text::concat2;

verus! {

/// Entries older than this many days are purged at startup.
pub const TTL_DAYS: i64 = 30;

/// Serving reads skip entries older than this many days.
pub const STALE_DAYS: i64 = 7;

/// At most this many rows are kept per (concept, content type).
pub const KEEP_PER_KEY: i64 = 3;

/// A cache hit: the row id (the quiz-instance nonce), the payload that parsed
/// as JSON, and its side-band metadata.
#[derive(Debug, Clone, PartialEq)]
pub struct CacheHit {
    pub id: i64,
    pub payload_json: String,
    pub mastery_band: Option<String>,
    pub model_version: Option<String>,
}

/// The write guard: a payload may be stored only when it parses as JSON;
/// otherwise the refusal carries the parser's message.
pub fn check_cacheable(payload_json: &str) -> (r: Result<(), String>)
    ensures
        match json_parse(payload_json@) {
            Ok(_) => r is Ok,
            Err(m) => r matches Err(e) && e@ == "refusing to cache non-JSON payload: "@ + m,
        },
{
    match parse_json(payload_json) {
        Ok(_) => Ok(()),
        Err(m) => Err(concat2("refusing to cache non-JSON payload: ", m.as_str())),
    }
}

/// On reading: a stored row is a hit, carried over field for field, only
/// when its payload parses as JSON; a corrupt payload is a miss (and the
/// caller deletes the row).
pub fn accept_row(
    id: i64,
    payload_json: String,
    mastery_band: Option<String>,
    model_version: Option<String>,
) -> (r: Option<CacheHit>)
    ensures
        r is Some <==> json_parse(payload_json@) is Ok,
        r matches Some(hit) ==> hit.id == id && hit.payload_json@ == payload_json@
            && hit.mastery_band == mastery_band && hit.model_version == model_version,
{
    match parse_json(payload_json.as_str()) {
        Ok(_) => Some(CacheHit { id, payload_json, mastery_band, model_version }),
        Err(_) => None,
    }
}

} // verus!
