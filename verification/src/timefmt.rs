//! RFC 3339 rendering of timestamps, through the `time` crate.

use vstd::prelude::*;
use crate::hashing::opt_text;
use crate::column::TimeUnit;

verus! {

/// The RFC 3339 text of the UTC instant `nanos` nanoseconds after the UNIX
/// epoch, as the `time` crate writes it, or `None` where `time` refuses the
/// instant (outside its supported range or not expressible in RFC 3339).
pub uninterp spec fn rfc3339_text(nanos: int) -> Option<Seq<char>>;

/// `time::OffsetDateTime::from_unix_timestamp_nanos` followed by
/// `OffsetDateTime::format` with the `Rfc3339` well-known format. The text is
/// a function of `nanos` alone (the instant is in UTC); it is named
/// `rfc3339_text` and not spelled out here, and neither is the range of
/// instants that `time` accepts.
#[verifier::external_body]
fn format_rfc3339(nanos: i128) -> (r: Option<String>)
    ensures
        opt_text(r) == rfc3339_text(nanos as int),
{
    match time::OffsetDateTime::from_unix_timestamp_nanos(nanos) {
        Ok(dt) => dt.format(&time::format_description::well_known::Rfc3339).ok(),
        Err(_) => None,
    }
}

/// Nanoseconds per tick of `unit`.
pub open spec fn nanos_per_tick(unit: TimeUnit) -> int {
    match unit {
        TimeUnit::Milliseconds => 1_000_000,
        TimeUnit::Microseconds => 1_000,
        TimeUnit::Nanoseconds => 1,
    }
}

/// The RFC 3339 text of `ticks` ticks of `unit` after the UNIX epoch, or
/// `None` when the instant cannot be rendered.
pub fn datetime_text(ticks: i64, unit: TimeUnit) -> (r: Option<String>)
    ensures
        opt_text(r) == rfc3339_text(ticks * nanos_per_tick(unit)),
        unit == TimeUnit::Nanoseconds ==> opt_text(r) == rfc3339_text(ticks as int),
        unit == TimeUnit::Microseconds ==> opt_text(r) == rfc3339_text(ticks * 1_000),
        unit == TimeUnit::Milliseconds ==> opt_text(r) == rfc3339_text(ticks * 1_000_000),
{
    let factor: i128 = match unit {
        TimeUnit::Milliseconds => 1_000_000,
        TimeUnit::Microseconds => 1_000,
        TimeUnit::Nanoseconds => 1,
    };
    assert(-0x8000_0000_0000_0000 * 1_000_000 <= ticks * factor <= 0x7FFF_FFFF_FFFF_FFFF * 1_000_000) by (nonlinear_arith)
        requires
            -0x8000_0000_0000_0000 <= ticks <= 0x7FFF_FFFF_FFFF_FFFF,
            1 <= factor <= 1_000_000,
    ;
    format_rfc3339((ticks as i128) * factor)
}

} // verus!
