//! Calendar text for the store's timestamps (seconds since the Unix epoch).
use vstd::prelude::*;

verus! {

/// `strftime` pattern of the calendar text, `YYYY-MM-DDTHH:MM:SS`.
pub const ISO_FORMAT: &'static str = "%Y-%m-%dT%H:%M:%S";

/// The UTC calendar text, in `ISO_FORMAT`, of `secs` seconds after the Unix
/// epoch, if the calendar reaches that far.
pub uninterp spec fn iso_time_of(secs: u64) -> Option<Seq<char>>;

/// Relies on `chrono::DateTime::from_timestamp`, `naive_utc` and `format`:
/// the UTC calendar time of `secs`, written out with `ISO_FORMAT`; `None`
/// where chrono's calendar does not reach.
#[verifier::external_body]
fn chrono_iso(secs: u64) -> (r: Option<String>)
    ensures
        match r {
            Some(s) => iso_time_of(secs) == Some(s@),
            None => iso_time_of(secs) is None,
        },
{
    let secs = i64::try_from(secs).ok()?;
    chrono::DateTime::from_timestamp(secs, 0).map(|t| t.naive_utc().format(ISO_FORMAT).to_string())
}

/// The calendar text of `secs`, or `None` where the calendar does not reach.
pub fn format_time(secs: u64) -> (r: Option<String>)
    ensures
        match r {
            Some(s) => iso_time_of(secs) == Some(s@),
            None => iso_time_of(secs) is None,
        },
{
    chrono_iso(secs)
}

} // verus!
