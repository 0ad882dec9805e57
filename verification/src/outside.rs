//! Trusted bridges to std and outside-crate functions that Verus cannot read.

use vstd::prelude::*;
use crate::models::Timestamp;

verus! {

/// `String::push` from std: appends one character at the end of the string.
#[verifier::external_body]
pub(crate) fn push_char(s: &mut String, c: char)
    ensures
        final(s)@ == old(s)@.push(c),
{
    s.push(c);
}

/// `chrono::Utc::now`: the current time, as whole seconds since the Unix
/// epoch and the nanoseconds past that second. Claimed: the seconds are not
/// negative and the nanoseconds are below one second (chrono builds the value
/// from `SystemTime::now().duration_since(UNIX_EPOCH)`). Which time comes
/// back is not stated.
#[verifier::external_body]
pub(crate) fn now() -> (t: Timestamp)
    ensures
        t.secs >= 0,
        t.nanos < 1_000_000_000,
{
    let now = chrono::Utc::now();
    Timestamp { secs: now.timestamp(), nanos: now.timestamp_subsec_nanos() }
}

/// `uuid::Uuid::new_v4` as a 128-bit value (`as_u128`, big-endian). Claimed:
/// the version nibble is 4 and the variant bits are `10`, which `new_v4`
/// sets by masking; the other bits are random and not stated.
#[verifier::external_body]
pub(crate) fn new_device_id() -> (id: u128)
    ensures
        (id >> 76u128) & 0xfu128 == 4,
        (id >> 62u128) & 0x3u128 == 2,
{
    uuid::Uuid::new_v4().as_u128()
}

} // verus!
