//! Randomness, unique ids and the clock, from `rand`, `uuid` and `chrono`.
//!
//! What these return depends on chance or time; their contracts state only
//! what holds of every outcome.
use rand::distributions::{Alphanumeric, DistString};
use rand::Rng;
use vstd::prelude::*;

use crate::text::{is_ascii_alphanumeric, is_ascii_digit};

verus! {

/// A point in time, as seconds and nanoseconds since the Unix epoch (UTC).
/// The nanoseconds exceed 999,999,999 only during a leap second.
#[derive(Clone, Copy, PartialEq, Eq, Structural, Debug)]
pub struct UtcTime {
    pub secs: i64,
    pub nanos: u32,
}

/// `a` is earlier than `b`.
pub open spec fn time_before(a: UtcTime, b: UtcTime) -> bool {
    a.secs < b.secs || (a.secs == b.secs && a.nanos < b.nanos)
}

/// A lowercase hexadecimal digit.
pub open spec fn is_lower_hex(c: char) -> bool {
    is_ascii_digit(c) || ('a' <= c && c <= 'f')
}

pub open spec fn all_alphanumeric(s: Seq<char>) -> bool {
    forall|i: int| 0 <= i < s.len() ==> is_ascii_alphanumeric(#[trigger] s[i])
}

/// `Alphanumeric.sample_string(&mut rand::thread_rng(), len)`: `len`
/// characters drawn from `A-Z`, `a-z` and `0-9`.
#[verifier::external_body]
pub(crate) fn random_alphanumeric(len: usize) -> (res: String)
    ensures
        res@.len() == len,
        all_alphanumeric(res@),
{
    Alphanumeric.sample_string(&mut rand::thread_rng(), len)
}

/// `rand::thread_rng().gen_range(start..=end)`: a number in `start..=end`.
/// (`gen_range` panics on an empty range, which `requires` leaves out.)
#[verifier::external_body]
pub(crate) fn random_in_range(start: u16, end: u16) -> (res: u16)
    requires
        start <= end,
    ensures
        start <= res <= end,
{
    rand::thread_rng().gen_range(start..=end)
}

/// `Uuid::new_v4()` in its simple format: 32 lowercase hexadecimal digits.
#[verifier::external_body]
pub(crate) fn new_uuid_simple() -> (res: String)
    ensures
        res@.len() == 32,
        forall|i: int| 0 <= i < 32 ==> is_lower_hex(#[trigger] res@[i]),
{
    uuid::Uuid::new_v4().simple().to_string()
}

/// `chrono::Utc::now()`, read through `timestamp` and
/// `timestamp_subsec_nanos`. It does not return before the Unix epoch.
#[verifier::external_body]
pub(crate) fn utc_now() -> (res: UtcTime)
    ensures
        res.secs >= 0,
        res.nanos < 2_000_000_000,
{
    let now = chrono::Utc::now();
    UtcTime { secs: now.timestamp(), nanos: now.timestamp_subsec_nanos() }
}

} // verus!
