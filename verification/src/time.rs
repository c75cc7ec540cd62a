//! Timestamps and calendar dates.
//!
//! A point in time is a count of milliseconds since the Unix epoch (`i64`),
//! matching the resolution the ingestion source reports. A calendar date is
//! held as plain year, month and day fields so that partition keys can be
//! compared and formatted by verified code; the conversion from a timestamp
//! to its civil date is delegated to chrono.

use chrono::Datelike;
use vstd::prelude::*;
use vstd::string::StringExecFns;

verus! {

/// Earliest timestamp the date conversion accepts: 0001-01-01T00:00:00Z.
pub const MIN_TIMESTAMP_MS: i64 = -62_135_596_800_000;

/// Latest timestamp the date conversion accepts: 9999-12-31T23:59:59.999Z.
pub const MAX_TIMESTAMP_MS: i64 = 253_402_300_799_999;

/// A calendar date, by value.
#[derive(Debug, Clone, Copy, PartialEq, Eq, Structural)]
pub struct Date {
    pub year: u16,
    pub month: u8,
    pub day: u8,
}

impl Date {
    /// A date that the calendar admits and that formats as four, two and
    /// two decimal digits.
    pub open spec fn valid(self) -> bool {
        &&& 1 <= self.year <= 9999
        &&& 1 <= self.month <= 12
        &&& 1 <= self.day <= 31
    }

    pub fn new(year: u16, month: u8, day: u8) -> (d: Date)
        requires
            1 <= year <= 9999,
            1 <= month <= 12,
            1 <= day <= 31,
        ensures
            d == (Date { year, month, day }),
            d.valid(),
    {
        Date { year, month, day }
    }
}

/// The `YYYY-MM-DD` rendering of a date, each field zero-padded.
pub open spec fn date_str(d: Date) -> Seq<char> {
    crate::text::padded4_str(d.year as nat) + seq!['-'] + crate::text::padded2_str(d.month as nat)
        + seq!['-'] + crate::text::padded2_str(d.day as nat)
}

/// Appends the `YYYY-MM-DD` rendering of a date.
pub fn append_date(out: &mut String, d: Date)
    ensures
        final(out)@ == old(out)@ + date_str(d),
{
    crate::text::append_padded4(out, d.year as u64);
    proof {
        reveal_strlit("-");
        assert("-"@ =~= seq!['-']);
    }
    out.append("-");
    crate::text::append_padded2(out, d.month as u64);
    out.append("-");
    crate::text::append_padded2(out, d.day as u64);
    proof {
        assert(out@ =~= old(out)@ + date_str(d));
    }
}

/// The civil date (year, month, day) of a millisecond timestamp, in UTC.
/// What it is on a given value only chrono knows; the library states only
/// that it is a function of the timestamp alone.
pub uninterp spec fn civil_date_of(ms: int) -> (int, int, int);

/// Relies on chrono's `DateTime::from_timestamp_millis` and
/// `DateTime::date_naive`: the civil date in UTC is a function of the
/// millisecond timestamp alone, and its fields lie in the calendar's ranges.
#[verifier::external_body]
pub(crate) fn date_of_timestamp(ms: i64) -> (d: Date)
    requires
        MIN_TIMESTAMP_MS <= ms <= MAX_TIMESTAMP_MS,
    ensures
        (d.year as int, d.month as int, d.day as int) == civil_date_of(ms as int),
        d.valid(),
{
    let date = chrono::DateTime::from_timestamp_millis(ms)
        .expect("timestamp within the supported range")
        .date_naive();
    Date { year: date.year() as u16, month: date.month() as u8, day: date.day() as u8 }
}

/// The RFC 3339 rendering of a millisecond timestamp, in UTC. A function of
/// the timestamp alone; only chrono knows the characters.
pub uninterp spec fn rfc3339_of(ms: int) -> Seq<char>;

/// Relies on chrono's `DateTime::to_rfc3339`: the rendering is a function of
/// the millisecond timestamp alone.
#[verifier::external_body]
pub(crate) fn timestamp_to_rfc3339(ms: i64) -> (r: String)
    requires
        MIN_TIMESTAMP_MS <= ms <= MAX_TIMESTAMP_MS,
    ensures
        r@ == rfc3339_of(ms as int),
{
    chrono::DateTime::from_timestamp_millis(ms)
        .expect("timestamp within the supported range")
        .to_rfc3339()
}

} // verus!
