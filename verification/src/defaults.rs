//! Values that a record or a zone file takes where its author gave none.

use vstd::prelude::*;
use vstd::string::*;

verus! {

/// Class of a record: the Internet.
pub const CLASS: &'static str = "IN";

/// Seconds after which secondary name servers ask for the start of
/// authority again: 24 hours.
pub const REFRESH: u32 = 86400;

/// Seconds for which resolvers keep a record: kept low, since the
/// addresses of services change often.
pub const TTL: u32 = 360;

/// Serial of a zone file that has not been rendered yet.
pub const SERIAL: u32 = 1;

/// Seconds after which a secondary name server asks again when the
/// primary did not answer: 2 hours.
pub const RETRY: u32 = 7200;

/// Seconds after which secondary name servers stop answering for the zone
/// when the primary does not answer: 1000 hours.
pub const EXPIRE: u32 = 3600000;

/// Seconds for which resolvers keep the answer that a name does not exist:
/// kept low, so that records still being provisioned are found soon.
pub const NEGATIVE_RESPONSE_CACHE: u32 = 360;

/// Number of rendered zone files to keep.
pub const HISTORY: u32 = 10;

pub fn class() -> (class: String)
    ensures
        class@ == CLASS@,
{
    String::from_str(CLASS)
}

pub fn refresh() -> (seconds: u32)
    ensures
        seconds == REFRESH,
{
    REFRESH
}

pub fn ttl() -> (seconds: u32)
    ensures
        seconds == TTL,
{
    TTL
}

pub fn serial() -> (serial: u32)
    ensures
        serial == SERIAL,
{
    SERIAL
}

pub fn retry() -> (seconds: u32)
    ensures
        seconds == RETRY,
{
    RETRY
}

pub fn expire() -> (seconds: u32)
    ensures
        seconds == EXPIRE,
{
    EXPIRE
}

pub fn negative_response_cache() -> (seconds: u32)
    ensures
        seconds == NEGATIVE_RESPONSE_CACHE,
{
    NEGATIVE_RESPONSE_CACHE
}

pub fn history() -> (revisions: u32)
    ensures
        revisions == HISTORY,
{
    HISTORY
}

} // verus!
