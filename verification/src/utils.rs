//! Fresh identifiers and the wall clock.

use std::time::{Duration, SystemTime, SystemTimeError, UNIX_EPOCH};
use uuid::Uuid;
use vstd::prelude::*;

verus! {

/// Whether `c` is one of `0`-`9` or `a`-`f`.
pub open spec fn is_lower_hex(c: char) -> bool {
    ('0' <= c && c <= '9') || ('a' <= c && c <= 'f')
}

/// The textual shape of a random (version 4) UUID: 36 characters, lowercase
/// hexadecimal digits in five groups of 8, 4, 4, 4 and 12 separated by
/// hyphens, with the version digit `4` and a variant digit of `8`, `9`, `a`
/// or `b`.
pub open spec fn is_uuid_text(s: Seq<char>) -> bool {
    &&& s.len() == 36
    &&& forall|i: int|
        0 <= i < 36 ==> if i == 8 || i == 13 || i == 18 || i == 23 {
            s[i] == '-'
        } else {
            is_lower_hex(#[trigger] s[i])
        }
    &&& s[14] == '4'
    &&& (s[19] == '8' || s[19] == '9' || s[19] == 'a' || s[19] == 'b')
}

/// Generates a unique identifier.
///
/// Calls `uuid::Uuid::new_v4` and renders the result with its `Display`
/// impl. Which identifier comes back is left open; the contract only claims
/// the shape that every version 4 UUID has in hyphenated lowercase text.
#[verifier::external_body]
pub fn generate_unique_id() -> (id: String)
    ensures
        is_uuid_text(id@),
{
    Uuid::new_v4().to_string()
}

/// `std::time::SystemTime`, carried through as an opaque value.
#[verifier::external_type_specification]
#[verifier::external_body]
pub struct ExSystemTime(SystemTime);

/// `std::time::SystemTimeError`, carried through as an opaque value.
#[verifier::external_type_specification]
#[verifier::external_body]
pub struct ExSystemTimeError(SystemTimeError);

/// Reads the system clock with `std::time::SystemTime::now`. Nothing is
/// claimed of the reading.
#[verifier::external_body]
fn clock_now() -> (now: SystemTime) {
    SystemTime::now()
}

/// The time from the Unix epoch to `t`, by
/// `std::time::SystemTime::duration_since`; an error when `t` lies before
/// the epoch. Nothing is claimed of the result.
#[verifier::external_body]
fn since_unix_epoch(t: &SystemTime) -> (elapsed: Result<Duration, SystemTimeError>) {
    t.duration_since(UNIX_EPOCH)
}

/// The whole milliseconds in `d`, by `std::time::Duration::as_millis`.
/// Nothing is claimed of the result.
#[verifier::external_body]
fn whole_millis(d: &Duration) -> (ms: u128) {
    d.as_millis()
}

/// Gets the current timestamp in milliseconds since the Unix epoch, or zero
/// when the system clock is set before the epoch.
pub fn current_timestamp() -> u128 {
    let now = clock_now();
    let millis = match since_unix_epoch(&now) {
        Ok(elapsed) => Ok(whole_millis(&elapsed)),
        Err(e) => Err(e),
    };
    timestamp_from(millis)
}

/// The timestamp for one reading of the clock: the milliseconds since the
/// Unix epoch where the clock gave them, and zero where it stood before the
/// epoch.
pub fn timestamp_from(millis: Result<u128, SystemTimeError>) -> (ms: u128)
    ensures
        ms == match millis {
            Ok(v) => v,
            Err(_) => 0,
        },
{
    match millis {
        Ok(v) => v,
        Err(_) => 0,
    }
}

} // verus!
