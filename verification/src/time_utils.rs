//! Pretty display of times in a chosen time zone, and parsing of duplicity
//! timestamps.

use vstd::prelude::*;
pub use crate::timefmt::{PrettyDisplay, parse_time_str};
use crate::timefmt::{TimeDisplay, Timespec, local_clock_of, ts_displayable, spec_at_utc};

verus! {

/// The time zone in which a time is displayed.
#[derive(Clone, Copy, Debug, PartialEq, Eq, Structural)]
pub enum Format {
    /// The local time zone.
    Local,
    /// The UTC time zone.
    Utc,
}

/// A pretty display of a time in the UTC time zone.
pub fn to_pretty_utc(ts: Timespec) -> (r: PrettyDisplay)
    requires
        ts_displayable(ts),
    ensures
        r@ == spec_at_utc(ts),
{
    ts.into_utc_display()
}

/// A pretty display of a time in the local time zone.
pub fn to_pretty_local(ts: Timespec) -> (r: PrettyDisplay)
    requires
        ts_displayable(ts),
    ensures
        local_clock_of(ts, r@),
{
    ts.into_local_display()
}

/// A pretty display of a time in the time zone that `format` names.
pub fn to_pretty(ts: Timespec, format: Format) -> (r: PrettyDisplay)
    requires
        ts_displayable(ts),
    ensures
        format == Format::Utc ==> r@ == spec_at_utc(ts),
        format == Format::Local ==> local_clock_of(ts, r@),
{
    match format {
        Format::Local => to_pretty_local(ts),
        Format::Utc => to_pretty_utc(ts),
    }
}

} // verus!
