//! The boundary to the `time` and `timeago` crates: reading the clock and the
//! local offset, turning a timestamp into an instant, formatting an instant,
//! and phrasing a duration in words.
//!
//! Everything here hands plain values across the boundary; the rest of the
//! crate computes on those values and is verified against these contracts.

use vstd::prelude::*;

verus! {

/// The smallest Unix timestamp, in seconds, whose date the `time` crate
/// represents (the first instant of its lowest supported year).
pub const MIN_TIMESTAMP_SECONDS: i64 = -377_705_116_800;

/// The largest Unix timestamp, in seconds, whose date the `time` crate
/// represents (the last whole second of its highest supported year).
pub const MAX_TIMESTAMP_SECONDS: i64 = 253_402_300_799;

/// The smallest representable Unix timestamp in nanoseconds.
pub const MIN_TIMESTAMP_NANOS: i128 = -377_705_116_800_000_000_000;

/// The largest representable Unix timestamp in nanoseconds.
pub const MAX_TIMESTAMP_NANOS: i128 = 253_402_300_799_999_999_999;

/// The widest local offset, in whole seconds, that the `time` crate admits.
pub const MAX_OFFSET_SECONDS: i32 = 93_599;

/// A second count denotes a representable instant.
pub open spec fn in_seconds_range(v: int) -> bool {
    MIN_TIMESTAMP_SECONDS <= v <= MAX_TIMESTAMP_SECONDS
}

/// A nanosecond count denotes a representable instant.
pub open spec fn in_nanos_range(v: int) -> bool {
    MIN_TIMESTAMP_NANOS <= v <= MAX_TIMESTAMP_NANOS
}

/// A plausible local offset in whole seconds.
pub open spec fn plausible_offset(v: int) -> bool {
    -MAX_OFFSET_SECONDS <= v <= MAX_OFFSET_SECONDS
}

/// The fixed date format: `YYYY-MM-DD @ hh:mm:ss AM/PM`, twelve-hour clock.
pub const FORMAT_TEXT: &'static str =
    "[year]-[month]-[day] @ [hour repr:12]:[minute]:[second] [period]";

/// The text of the range error the `time` crate reports for a timestamp
/// outside the supported calendar.
pub open spec fn range_error_chars() -> Seq<char> {
    "timestamp was not in range"@
}

/// The fixed-format UTC rendering of the instant at `nanos`.
pub uninterp spec fn utc_format_chars(nanos: i128) -> Seq<char>;

/// The fixed-format rendering of the instant at `nanos`, shifted to the local
/// offset of `offset_seconds` whole seconds.
pub uninterp spec fn local_format_chars(nanos: i128, offset_seconds: i32) -> Seq<char>;

/// The worded form of a nonnegative duration: up to five nonzero units, none
/// finer than milliseconds.
pub uninterp spec fn humanize_chars(seconds: u64, subsec_nanos: u32) -> Seq<char>;

/// The text reported when a local shift leaves the supported calendar: the
/// one reachable failure of the rendering chain.
pub open spec fn local_range_error_chars() -> Seq<char> {
    "local datetime out of valid range"@
}

/// Relies on `time::OffsetDateTime::from_unix_timestamp`: it succeeds exactly
/// on the timestamps of the supported calendar years, the instant it builds
/// has that timestamp and no subsecond part, and an out-of-range timestamp
/// earns the fixed range-error message.
#[verifier::external_body]
pub(crate) fn instant_from_seconds(secs: i64) -> (r: Result<i128, String>)
    ensures
        r matches Ok(n) ==> in_seconds_range(secs as int) && n == secs as int * 1_000_000_000,
        r matches Err(m) ==> !in_seconds_range(secs as int) && m@ == range_error_chars(),
{
    match time::OffsetDateTime::from_unix_timestamp(secs) {
        Ok(odt) => Ok(odt.unix_timestamp_nanos()),
        Err(e) => Err(e.to_string()),
    }
}

/// Relies on `time::OffsetDateTime::from_unix_timestamp_nanos`: it succeeds
/// exactly on the nanosecond timestamps of the supported calendar years, the
/// instant it builds has exactly that nanosecond timestamp, and an
/// out-of-range timestamp earns the fixed range-error message.
#[verifier::external_body]
pub(crate) fn instant_from_nanos(nanos: i128) -> (r: Result<i128, String>)
    ensures
        r matches Ok(n) ==> in_nanos_range(nanos as int) && n == nanos,
        r matches Err(m) ==> !in_nanos_range(nanos as int) && m@ == range_error_chars(),
{
    match time::OffsetDateTime::from_unix_timestamp_nanos(nanos) {
        Ok(odt) => Ok(odt.unix_timestamp_nanos()),
        Err(e) => Err(e.to_string()),
    }
}

/// Relies on `time::OffsetDateTime::now_utc`: the clock is read as a UTC
/// instant, whose date the `time` crate keeps within its supported calendar
/// years, so its timestamp lies within the supported range.
#[verifier::external_body]
pub fn now_unix_nanos() -> (r: i128)
    ensures
        in_nanos_range(r as int),
{
    time::OffsetDateTime::now_utc().unix_timestamp_nanos()
}

/// Relies on `time::UtcOffset::current_local_offset`: a determined offset
/// lies within the range the `time` crate admits; an undetermined one is
/// reported as an error, whose text is handed back.
#[verifier::external_body]
pub fn local_offset_seconds() -> (r: Result<i32, String>)
    ensures
        r matches Ok(s) ==> plausible_offset(s as int),
{
    match time::UtcOffset::current_local_offset() {
        Ok(o) => Ok(o.whole_seconds()),
        Err(e) => Err(e.to_string()),
    }
}

/// Relies on `time::format_description::parse` and
/// `time::OffsetDateTime::format`: the fixed format text parses, every
/// component it names is available on an `OffsetDateTime`, and formatting
/// writes into an in-memory buffer, so formatting an in-range instant cannot
/// fail, and its text depends on the instant alone.
#[verifier::external_body]
pub(crate) fn format_utc(nanos: i128) -> (r: Result<String, String>)
    requires
        in_nanos_range(nanos as int),
    ensures
        r is Ok,
        r matches Ok(s) ==> s@ == utc_format_chars(nanos),
{
    let items = time::format_description::parse(FORMAT_TEXT).map_err(|e| e.to_string())?;
    let odt = time::OffsetDateTime::from_unix_timestamp_nanos(nanos).map_err(|e| e.to_string())?;
    odt.format(&items).map_err(|e| e.to_string())
}

/// Relies on `time::UtcOffset::from_whole_seconds`,
/// `time::OffsetDateTime::checked_to_offset` and
/// `time::OffsetDateTime::format`: a plausible offset always builds, the
/// shift succeeds exactly when the local wall-clock instant stays within the
/// supported calendar, formatting a shifted instant with the fixed format
/// cannot fail, and the text depends on the instant and the offset alone.
#[verifier::external_body]
pub(crate) fn format_local(nanos: i128, offset_seconds: i32) -> (r: Result<String, String>)
    requires
        in_nanos_range(nanos as int),
        plausible_offset(offset_seconds as int),
    ensures
        r is Ok <==> in_nanos_range(nanos as int + offset_seconds as int * 1_000_000_000),
        r matches Ok(s) ==> s@ == local_format_chars(nanos, offset_seconds),
        r matches Err(m) ==> m@ == local_range_error_chars(),
{
    let items = time::format_description::parse(FORMAT_TEXT).map_err(|e| e.to_string())?;
    let odt = time::OffsetDateTime::from_unix_timestamp_nanos(nanos).map_err(|e| e.to_string())?;
    let offset = time::UtcOffset::from_whole_seconds(offset_seconds).map_err(|e| e.to_string())?;
    let local = odt.checked_to_offset(offset).ok_or("local datetime out of valid range")?;
    local.format(&items).map_err(|e| e.to_string())
}

/// Relies on `timeago::Formatter::convert`, configured with no suffix, at
/// most five items, and milliseconds as the finest unit: the wording depends
/// on the duration alone.
#[verifier::external_body]
pub(crate) fn humanize_duration(seconds: u64, subsec_nanos: u32) -> (r: String)
    requires
        subsec_nanos < 1_000_000_000,
    ensures
        r@ == humanize_chars(seconds, subsec_nanos),
{
    let mut formatter = timeago::Formatter::new();
    formatter.ago("");
    formatter.min_unit(timeago::TimeUnit::Milliseconds);
    formatter.num_items(5);
    formatter.convert(core::time::Duration::new(seconds, subsec_nanos))
}

} // verus!
