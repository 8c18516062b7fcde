//! Points in time, and their HTTP form.
//!
//! [`std::time::SystemTime`] stays opaque and is described by its distance from
//! the Unix epoch. Dates are read and written with the [`httpdate`] crate.

use crate::headers::is_visible_chars;
use std::time::SystemTime;
use vstd::prelude::*;

verus! {

/// [`std::time::SystemTime`], opaque.
#[verifier::external_type_specification]
#[verifier::external_body]
pub struct ExSystemTime(std::time::SystemTime);

/// [`httpdate::Error`], opaque.
#[verifier::external_type_specification]
#[verifier::external_body]
pub struct ExHttpDateError(httpdate::Error);

/// The nanoseconds from the Unix epoch to a point in time; negative before the
/// epoch.
pub uninterp spec fn unix_nanos(t: SystemTime) -> int;

/// The seconds from the Unix epoch to the point in time that an HTTP date
/// stands for, or `None` if the text is not an HTTP date.
pub uninterp spec fn http_date_seconds(s: Seq<char>) -> Option<nat>;

/// The HTTP date of a number of seconds since the Unix epoch.
pub uninterp spec fn http_date_text(seconds: nat) -> Seq<char>;

/// Nanoseconds in a second.
pub const NANOS_PER_SECOND: u64 = 1_000_000_000;

/// Seconds from the Unix epoch to the end of the year 9999, where the dates end
/// that can be written in HTTP form.
pub const HTTP_DATE_LIMIT: u64 = 253_402_300_800;

/// Whether a point in time has an HTTP date: it is not before the Unix epoch
/// and not after the year 9999.
pub open spec fn has_http_date(t: SystemTime) -> bool {
    0 <= unix_nanos(t) < HTTP_DATE_LIMIT * NANOS_PER_SECOND
}

/// The whole seconds from the Unix epoch to a point in time; 0 before the epoch.
pub open spec fn unix_seconds_of(t: SystemTime) -> nat {
    if unix_nanos(t) < 0 {
        0
    } else {
        (unix_nanos(t) / NANOS_PER_SECOND as int) as nat
    }
}

/// The distance of a point in time from the Unix epoch, by
/// `std::time::SystemTime::duration_since`: whether it is before the epoch, and
/// the whole seconds and remaining nanoseconds in between.
#[verifier::external_body]
pub(crate) fn epoch_offset(t: SystemTime) -> (r: (bool, u64, u32))
    ensures
        r.0 == (unix_nanos(t) < 0),
        r.2 < NANOS_PER_SECOND,
        unix_nanos(t) == (if r.0 {
            -(r.1 * NANOS_PER_SECOND + r.2)
        } else {
            r.1 * NANOS_PER_SECOND + r.2
        }),
{
    match t.duration_since(SystemTime::UNIX_EPOCH) {
        Ok(d) => (false, d.as_secs(), d.subsec_nanos()),
        Err(e) => (true, e.duration().as_secs(), e.duration().subsec_nanos()),
    }
}

/// `httpdate::parse_http_date` reads an HTTP date, which has whole seconds and
/// lies between the Unix epoch and the end of the year 9999. Which texts are
/// dates, and of when, is left to [`http_date_seconds`].
pub assume_specification[ httpdate::parse_http_date ](s: &str) -> (r: Result<
    SystemTime,
    httpdate::Error,
>)
    ensures
        match r {
            Ok(t) => http_date_seconds(s@) == Some(unix_seconds_of(t)) && has_http_date(t)
                && unix_nanos(t) == unix_seconds_of(t) * NANOS_PER_SECOND,
            Err(_) => http_date_seconds(s@) is None,
        },
;

/// `httpdate::fmt_http_date` writes the HTTP date of a point in time, which
/// depends on the whole seconds only, is visible ASCII, and can be read back.
/// It panics before the Unix epoch and after the year 9999.
pub assume_specification[ httpdate::fmt_http_date ](d: SystemTime) -> (r: String)
    requires
        has_http_date(d),
    ensures
        r@ == http_date_text(unix_seconds_of(d)),
        is_visible_chars(r@),
        http_date_seconds(r@) == Some(unix_seconds_of(d)),
;

/// The whole seconds from the Unix epoch to a point in time; 0 before the epoch.
pub(crate) fn unix_seconds(t: SystemTime) -> (r: u64)
    ensures
        r == unix_seconds_of(t),
{
    let (before, secs, nanos) = epoch_offset(t);
    if before {
        0
    } else {
        assert(unix_nanos(t) / NANOS_PER_SECOND as int == secs);
        secs
    }
}

/// Whether a point in time has an HTTP date.
pub fn is_http_time(t: SystemTime) -> (r: bool)
    ensures
        r == has_http_date(t),
{
    let (before, secs, nanos) = epoch_offset(t);
    !before && secs < HTTP_DATE_LIMIT
}

/// Whether a point in time is not before the Unix epoch.
pub fn is_since_epoch(t: SystemTime) -> (r: bool)
    ensures
        r == (unix_nanos(t) >= 0),
{
    !epoch_offset(t).0
}

/// Whether `a` is not later than `b`, of two points in time after the Unix
/// epoch.
pub(crate) fn not_later(a: SystemTime, b: SystemTime) -> (r: bool)
    requires
        unix_nanos(a) >= 0,
        unix_nanos(b) >= 0,
    ensures
        r == (unix_nanos(a) <= unix_nanos(b)),
{
    let (_, a_secs, a_nanos) = epoch_offset(a);
    let (_, b_secs, b_nanos) = epoch_offset(b);
    a_secs < b_secs || (a_secs == b_secs && a_nanos <= b_nanos)
}

} // verus!
