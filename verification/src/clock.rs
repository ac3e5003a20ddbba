//! Points in time, and the calendar that shows and reads them.
use vstd::prelude::*;

verus! {

/// A point in time: nanoseconds since the Unix epoch, and the offset from UTC in which it is
/// shown, in seconds.
#[derive(Clone, Copy, Debug, PartialEq, Eq, Structural)]
pub struct Stamp {
    pub nanos: i128,
    pub offset: i32,
}

/// A point in time in UTC, in a year from 0 to 9999.
pub open spec fn in_calendar(nanos: i128, offset: i32) -> bool {
    &&& offset == 0
    &&& -62_167_219_200_000_000_000 <= nanos < 253_402_300_800_000_000_000
}

/// What `time` writes for a point in time under RFC 3339.
pub uninterp spec fn rfc3339_text(nanos: i128, offset: i32) -> Option<Seq<char>>;

/// The point in time that `time` reads from RFC 3339 text, with its offset.
pub uninterp spec fn rfc3339_stamp(text: Seq<char>) -> Option<(i128, i32)>;

/// What `time` writes for a point in time under a format description.
pub uninterp spec fn described_text(nanos: i128, offset: i32, shape: Seq<char>) -> Option<Seq<char>>;

/// `time::OffsetDateTime::now_utc`: some point in time, shown in UTC.
#[verifier::external_body]
pub(crate) fn now() -> (r: Stamp)
    ensures
        r.offset == 0,
{
    let t = time::OffsetDateTime::now_utc();
    Stamp { nanos: t.unix_timestamp_nanos(), offset: t.offset().whole_seconds() }
}

/// `time::OffsetDateTime::format` with `Rfc3339`. It has text for every time in UTC from the year
/// 0 to 9999, and `parse` reads that text back to the same time and offset.
#[verifier::external_body]
pub(crate) fn format_rfc3339(nanos: i128, offset: i32) -> (r: Option<String>)
    ensures
        (match r {
            Some(s) => Some(s@),
            None => None,
        }) == rfc3339_text(nanos, offset),
        in_calendar(nanos, offset) ==> r is Some,
        r is Some ==> rfc3339_stamp(r->0@) == Some((nanos, offset)),
{
    let t = time::OffsetDateTime::from_unix_timestamp_nanos(nanos).ok()?;
    let t = t.checked_to_offset(time::UtcOffset::from_whole_seconds(offset).ok()?)?;
    t.format(&time::format_description::well_known::Rfc3339).ok()
}

/// `time::OffsetDateTime::parse` with `Rfc3339`: the point in time that the text names, where it
/// names one.
#[verifier::external_body]
pub(crate) fn parse_rfc3339(s: &str) -> (r: Option<(i128, i32)>)
    ensures
        r == rfc3339_stamp(s@),
{
    let t = time::OffsetDateTime::parse(s, &time::format_description::well_known::Rfc3339).ok()?;
    Some((t.unix_timestamp_nanos(), t.offset().whole_seconds()))
}

/// `time::OffsetDateTime::format` with the format description that `shape` holds.
#[verifier::external_body]
pub(crate) fn format_described(nanos: i128, offset: i32, shape: &str) -> (r: Option<String>)
    ensures
        (match r {
            Some(s) => Some(s@),
            None => None,
        }) == described_text(nanos, offset, shape@),
{
    let t = time::OffsetDateTime::from_unix_timestamp_nanos(nanos).ok()?;
    let t = t.checked_to_offset(time::UtcOffset::from_whole_seconds(offset).ok()?)?;
    let description = time::format_description::parse(shape).ok()?;
    t.format(&description).ok()
}

impl Stamp {
    /// Seconds since the Unix epoch, rounded down.
    pub open spec fn seconds(self) -> int {
        self.nanos as int / 1_000_000_000
    }

    /// Seconds since the Unix epoch, rounded down.
    pub fn unix_seconds(&self) -> (r: i128)
        ensures
            r == self.seconds(),
    {
        if self.nanos >= 0 {
            self.nanos / 1_000_000_000
        } else {
            let m: i128 = -(self.nanos + 1);
            -(m / 1_000_000_000) - 1
        }
    }
}

}
