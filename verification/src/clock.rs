//! Instants of time as the store keeps them, and the wire format they are
//! written in.

use vstd::prelude::*;

use crate::text::opt_text;

verus! {

/// An instant in UTC: whole seconds since 1970-01-01T00:00:00Z and the
/// nanoseconds that follow them.
#[derive(Clone, Copy, Debug, PartialEq, Eq, Structural, PartialOrd, Ord, Hash)]
pub struct Timestamp {
    pub secs: i64,
    pub nanos: u32,
}

pub const NANOS_PER_SEC: i128 = 1_000_000_000;

pub const SECS_PER_DAY: i128 = 86_400;

/// The instant that an RFC 3339 text denotes, as seconds and nanoseconds, or
/// `None` where the text is not a valid RFC 3339 date and time.
pub uninterp spec fn rfc3339_instant(s: Seq<char>) -> Option<(int, int)>;

/// The RFC 3339 text of an instant given as seconds and nanoseconds, or `None`
/// where the instant lies outside the calendar that can be written.
pub uninterp spec fn rfc3339_text(secs: int, nanos: int) -> Option<Seq<char>>;

/// `x` limited to the range of `i64`.
pub open spec fn clamp_i64(x: int) -> int {
    if x < i64::MIN {
        i64::MIN as int
    } else if x > i64::MAX {
        i64::MAX as int
    } else {
        x
    }
}

/// `n` nanoseconds in whole seconds, rounded toward zero.
pub open spec fn whole_seconds(n: int) -> int {
    if n >= 0 {
        n / 1_000_000_000
    } else {
        -((-n) / 1_000_000_000)
    }
}

impl Timestamp {
    /// Whether `self` is strictly earlier than `other`.
    pub open spec fn before(self, other: Timestamp) -> bool {
        self.secs < other.secs || (self.secs == other.secs && self.nanos < other.nanos)
    }

    /// The nanoseconds from `self` to `end`; negative where `end` is earlier.
    pub open spec fn nanos_until(self, end: Timestamp) -> int {
        (end.secs - self.secs) * 1_000_000_000 + (end.nanos - self.nanos)
    }

    /// The whole seconds from `self` to `end`, rounded toward zero and limited
    /// to the range of `i64`.
    pub open spec fn seconds_until(self, end: Timestamp) -> int {
        clamp_i64(whole_seconds(self.nanos_until(end)))
    }

    /// Whether `self` is more than `days` days earlier than `now`.
    pub open spec fn older_than(self, now: Timestamp, days: int) -> bool {
        let limit = now.secs - days * 86_400;
        self.secs < limit || (self.secs == limit && self.nanos < now.nanos)
    }

    /// Whether the instant lies within the calendar, so that it can be
    /// written as RFC 3339 text.
    pub open spec fn is_writable(self) -> bool {
        rfc3339_text(self.secs as int, self.nanos as int) is Some
    }

    /// The current time: an instant of the calendar, whatever the clock
    /// says.
    pub fn now() -> (t: Timestamp)
        ensures
            t.is_writable(),
    {
        system_time()
    }

    pub fn is_before(&self, other: &Timestamp) -> (r: bool)
        ensures
            r == self.before(*other),
    {
        self.secs < other.secs || (self.secs == other.secs && self.nanos < other.nanos)
    }

    pub fn elapsed_seconds(&self, end: &Timestamp) -> (r: i64)
        ensures
            r == self.seconds_until(*end),
    {
        let ds: i128 = end.secs as i128 - self.secs as i128;
        let dn: i128 = end.nanos as i128 - self.nanos as i128;
        assert(-0x1_0000_0000_0000_0000 < ds < 0x1_0000_0000_0000_0000);
        assert(ds * 1_000_000_000 == (end.secs - self.secs) * 1_000_000_000) by (nonlinear_arith)
            requires
                ds == end.secs - self.secs,
        ;
        assert(-0x1_0000_0000_0000_0000 * 1_000_000_000 < ds * 1_000_000_000
            < 0x1_0000_0000_0000_0000 * 1_000_000_000) by (nonlinear_arith)
            requires
                -0x1_0000_0000_0000_0000 < ds < 0x1_0000_0000_0000_0000,
        ;
        let n: i128 = ds * NANOS_PER_SEC + dn;
        let whole: i128 = if n >= 0 {
            n / NANOS_PER_SEC
        } else {
            -((-n) / NANOS_PER_SEC)
        };
        if whole < i64::MIN as i128 {
            i64::MIN
        } else if whole > i64::MAX as i128 {
            i64::MAX
        } else {
            whole as i64
        }
    }

    pub fn is_older_than(&self, now: &Timestamp, days: i64) -> (r: bool)
        ensures
            r == self.older_than(*now, days as int),
    {
        assert(-0x8000_0000_0000_0000 * 86_400 <= days * 86_400 <= 0x8000_0000_0000_0000 * 86_400)
            by (nonlinear_arith)
            requires
                -0x8000_0000_0000_0000 <= days <= 0x8000_0000_0000_0000,
        ;
        let limit: i128 = now.secs as i128 - (days as i128) * SECS_PER_DAY;
        let secs: i128 = self.secs as i128;
        secs < limit || (secs == limit && self.nanos < now.nanos)
    }

    /// The instant written as RFC 3339 text, `None` where it lies outside the
    /// calendar that can be written.
    pub fn to_rfc3339(&self) -> (r: Option<String>)
        ensures
            opt_text(r) == rfc3339_text(self.secs as int, self.nanos as int),
    {
        format_rfc3339(*self)
    }
}

/// Reads the system clock with `chrono::Utc::now` and hands back its seconds
/// and nanoseconds since the epoch. The value depends on when the call is
/// made; what is claimed holds of every reading: `chrono` builds the instant
/// with `DateTime::from_timestamp`, which gives back an instant for the
/// seconds and nanoseconds of any instant it made, so the reading can be
/// written. `chrono` stops the program where the clock stands before 1970.
#[verifier::external_body]
pub(crate) fn system_time() -> (t: Timestamp)
    ensures
        t.is_writable(),
{
    let t = chrono::Utc::now();
    Timestamp { secs: t.timestamp(), nanos: t.timestamp_subsec_nanos() }
}

/// Parses RFC 3339 text with `chrono::DateTime::parse_from_rfc3339` and hands
/// back the instant's seconds and nanoseconds since the epoch. The claim is
/// only that the outcome is a function of the text: `rfc3339_instant`.
#[verifier::external_body]
pub(crate) fn parse_rfc3339(s: &str) -> (r: Option<Timestamp>)
    ensures
        match r {
            Some(t) => rfc3339_instant(s@) == Some((t.secs as int, t.nanos as int)),
            None => rfc3339_instant(s@) is None,
        },
{
    match chrono::DateTime::parse_from_rfc3339(s) {
        Ok(d) => Some(Timestamp { secs: d.timestamp(), nanos: d.timestamp_subsec_nanos() }),
        Err(_) => None,
    }
}

/// Builds the instant with `chrono::DateTime::from_timestamp` and writes it
/// with `chrono::DateTime::to_rfc3339`. The claim is only that the outcome is
/// a function of the seconds and nanoseconds: `rfc3339_text`.
#[verifier::external_body]
pub(crate) fn format_rfc3339(t: Timestamp) -> (r: Option<String>)
    ensures
        opt_text(r) == rfc3339_text(t.secs as int, t.nanos as int),
{
    match chrono::DateTime::from_timestamp(t.secs, t.nanos) {
        Some(d) => Some(d.to_rfc3339()),
        None => None,
    }
}

/// The instant that `s` denotes, or `fallback` where `s` is not valid
/// RFC 3339 text.
pub fn parse_datetime_or(s: &str, fallback: Timestamp) -> (t: Timestamp)
    ensures
        match rfc3339_instant(s@) {
            Some(p) => p == (t.secs as int, t.nanos as int),
            None => t == fallback,
        },
{
    match parse_rfc3339(s) {
        Some(t) => t,
        None => fallback,
    }
}

/// The instant that `s` denotes, or the current time where `s` is not valid
/// RFC 3339 text, so that a malformed stored value never fails a read.
pub fn parse_datetime(s: &str) -> (t: Timestamp)
    ensures
        rfc3339_instant(s@) matches Some(p) ==> p == (t.secs as int, t.nanos as int),
{
    match parse_rfc3339(s) {
        Some(t) => t,
        None => system_time(),
    }
}

} // verus!
