use vstd::prelude::*;

verus! {

/// The layout of a timestamp: `YYYY-MM-DD HH:MM:SS`, read as UTC.
pub const TIMESTAMP_FORMAT: &'static str = "%Y-%m-%d %H:%M:%S";

/// The number of characters that a timestamp in `TIMESTAMP_FORMAT` takes at the
/// start of a log line.
pub const TIMESTAMP_WIDTH: usize = 19;

/// The number of characters of the date in a timestamp text, before the space
/// that parts it from the time of day.
pub const DATE_WIDTH: usize = 10;

/// What chrono reads from `text` under `format`, taken as a UTC instant: the whole
/// seconds since the Unix epoch and the nanoseconds past them (a leap second shows
/// as nanoseconds of 1_000_000_000 and above), or `None` where it does not match.
pub uninterp spec fn utc_instant_of(text: Seq<char>, format: Seq<char>) -> Option<(i64, u32)>;

/// Relies on chrono's `NaiveDateTime::parse_from_str`, with `and_utc`, `timestamp`
/// and `timestamp_subsec_nanos`: the instant that `text` names under `format`. The
/// result depends on the two strings alone.
#[verifier::external_body]
fn parse_utc_instant(text: &str, format: &str) -> (r: Option<(i64, u32)>)
    ensures
        r == utc_instant_of(text@, format@),
{
    chrono::NaiveDateTime::parse_from_str(text, format).ok().map(|dt| {
        let utc = dt.and_utc();
        (utc.timestamp(), utc.timestamp_subsec_nanos())
    })
}

/// A point in time, in UTC: whole seconds since the Unix epoch, and nanoseconds
/// past them. Instants are ordered by seconds first, then by nanoseconds.
#[derive(Clone, Copy, Debug, PartialEq, Eq, Structural)]
pub struct Timestamp {
    pub secs: i64,
    pub nanos: u32,
}

/// The instant that `text` names in `TIMESTAMP_FORMAT`, if it names one.
pub open spec fn timestamp_of(text: Seq<char>) -> Option<Timestamp> {
    match utc_instant_of(text, TIMESTAMP_FORMAT@) {
        Some(p) => Some(Timestamp { secs: p.0, nanos: p.1 }),
        None => None,
    }
}

impl Timestamp {
    /// `self` comes no later than `other`.
    pub open spec fn spec_le(self, other: Timestamp) -> bool {
        self.secs < other.secs || (self.secs == other.secs && self.nanos <= other.nanos)
    }

    /// Reads a timestamp in `TIMESTAMP_FORMAT`; `None` where `text` is not one.
    pub fn parse(text: &str) -> (r: Option<Timestamp>)
        ensures
            r == timestamp_of(text@),
    {
        match parse_utc_instant(text, TIMESTAMP_FORMAT) {
            Some(p) => Some(Timestamp { secs: p.0, nanos: p.1 }),
            None => None,
        }
    }

    /// Whether `self` comes no later than `other`.
    pub fn le(&self, other: &Timestamp) -> (r: bool)
        ensures
            r == self.spec_le(*other),
    {
        self.secs < other.secs || (self.secs == other.secs && self.nanos <= other.nanos)
    }
}

} // verus!
