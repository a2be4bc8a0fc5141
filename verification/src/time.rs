//! Points in time as plain integers, with parsing and internet date
//! rendering delegated to `chrono`.

use vstd::prelude::*;
use crate::text::text_view;

verus! {

/// An instant with the UTC offset it was written in.
///
/// `secs` and `nanos` locate the instant on the UTC time line (seconds since
/// the Unix epoch and the sub-second part); `offset` is the number of
/// seconds that local time is ahead of UTC.
#[derive(Clone, Copy, Debug, PartialEq, Eq, Structural)]
pub struct Timestamp {
    pub secs: i64,
    pub nanos: u32,
    pub offset: i32,
}

/// Local second count of the first instant of year 0.
pub const RFC2822_MIN_LOCAL_SECS: i64 = -62_167_219_200;

/// Local second count of the last second of year 9999.
pub const RFC2822_MAX_LOCAL_SECS: i64 = 253_402_300_799;

/// What `chrono` reads out of a date string: the instant and offset, or
/// `None` when the text is not a date-time with an offset.
pub uninterp spec fn parsed_timestamp(text: Seq<char>) -> Option<Timestamp>;

/// What `chrono` writes for an instant in the internet message date format
/// (`Tue, 1 Jul 2003 10:52:37 +0200`), or `None` when it cannot build a
/// date-time from the three numbers.
pub uninterp spec fn rfc2822_text(secs: int, nanos: int, offset: int) -> Option<Seq<char>>;

impl Timestamp {
    /// Whether `self` is the same instant as `other` or an earlier one.
    /// Offsets play no part: only the position on the time line counts.
    pub open spec fn at_or_before(self, other: Timestamp) -> bool {
        self.secs < other.secs || (self.secs == other.secs && self.nanos <= other.nanos)
    }

    /// Whether the local calendar year lies in `0..=9999`, the years that
    /// the internet message date format can express.
    pub open spec fn renderable(self) -> bool {
        RFC2822_MIN_LOCAL_SECS <= self.secs + self.offset <= RFC2822_MAX_LOCAL_SECS
    }

    /// Executable form of [`Timestamp::at_or_before`].
    pub fn is_at_or_before(&self, other: &Timestamp) -> (r: bool)
        ensures
            r == self.at_or_before(*other),
    {
        self.secs < other.secs || (self.secs == other.secs && self.nanos <= other.nanos)
    }

    /// Parses a date-time with offset, such as `2024-05-01T00:00:00Z`.
    pub fn parse(text: &str) -> (r: Option<Timestamp>)
        ensures
            r == parsed_timestamp(text@),
    {
        chrono_parse(text)
    }

    /// Renders the instant in the internet message date format.
    ///
    /// Returns `None` when the local year falls outside `0..=9999`, or when
    /// the numbers do not form a date-time at all.
    pub fn to_rfc2822(&self) -> (r: Option<String>)
        ensures
            text_view(r) == if self.renderable() {
                rfc2822_text(self.secs as int, self.nanos as int, self.offset as int)
            } else {
                None
            },
    {
        let local: i128 = self.secs as i128 + self.offset as i128;
        if local < RFC2822_MIN_LOCAL_SECS as i128 || local > RFC2822_MAX_LOCAL_SECS as i128 {
            return None;
        }
        chrono_rfc2822(self)
    }
}

/// Calls `str::parse::<chrono::DateTime<chrono::FixedOffset>>`.
///
/// The parse is a function of the text alone; the contract gives its outcome
/// a name and claims nothing about which texts are accepted. The three
/// numbers are read off the parsed value with `timestamp`,
/// `timestamp_subsec_nanos` and `offset().local_minus_utc()`.
#[verifier::external_body]
fn chrono_parse(text: &str) -> (r: Option<Timestamp>)
    ensures
        r == parsed_timestamp(text@),
{
    let parsed = text.parse::<chrono::DateTime<chrono::FixedOffset>>().ok()?;
    Some(Timestamp {
        secs: parsed.timestamp(),
        nanos: parsed.timestamp_subsec_nanos(),
        offset: parsed.offset().local_minus_utc(),
    })
}

/// Calls `chrono::DateTime::to_rfc2822` on the date-time that
/// `chrono::DateTime::from_timestamp` and `chrono::FixedOffset::east_opt`
/// build from the three numbers.
///
/// `to_rfc2822` panics when the local year is outside `0..=9999`, which the
/// precondition rules out. The result is `None` when either constructor
/// refuses its input. The text is a function of the three numbers alone and
/// is only named here.
#[verifier::external_body]
fn chrono_rfc2822(at: &Timestamp) -> (r: Option<String>)
    requires
        at.renderable(),
    ensures
        text_view(r) == rfc2822_text(at.secs as int, at.nanos as int, at.offset as int),
{
    let zone = chrono::FixedOffset::east_opt(at.offset)?;
    let utc = chrono::DateTime::from_timestamp(at.secs, at.nanos)?;
    Some(utc.with_timezone(&zone).to_rfc2822())
}

} // verus!
