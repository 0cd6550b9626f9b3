//! Points in time: a UTC time as it is stored with a tab, and a monotonic clock
//! to measure how long something has lasted.

use vstd::prelude::*;
use crate::text::text_before;

verus! {

/// The first second that a UTC time can have: the start of the year -262143.
pub const MIN_SECONDS: i64 = -8_334_601_228_800;

/// The last second that a UTC time can have: the end of the year 262142.
pub const MAX_SECONDS: i64 = 8_210_266_876_799;

/// Seconds since the Unix epoch and nanoseconds since that second make a UTC
/// time. The nanoseconds go past a whole second in a leap second only.
pub open spec fn is_utc(secs: i64, nanos: u32) -> bool {
    &&& MIN_SECONDS <= secs <= MAX_SECONDS
    &&& nanos < 1_000_000_000 || (nanos < 2_000_000_000 && secs % 60 == 59)
}

/// The time lies in one of the years 0 to 9999, which are written in four digits.
pub open spec fn in_four_digit_year(secs: i64) -> bool {
    -62_167_219_200 <= secs <= 253_402_300_799
}

/// The RFC 3339 text that chrono writes for a UTC time.
pub uninterp spec fn rfc3339_text(secs: i64, nanos: u32) -> Seq<char>;

/// What chrono reads from a text as a UTC time, if it reads one.
pub uninterp spec fn parsed_utc(s: Seq<char>) -> Option<(i64, u32)>;

/// `chrono::Utc::now`: the clock's UTC time, as `timestamp` and
/// `timestamp_subsec_nanos` give it. Whatever the clock shows, it is not before
/// the epoch and no leap second.
#[verifier::external_body]
fn chrono_now() -> (r: (i64, u32))
    ensures
        is_utc(r.0, r.1),
        r.0 >= 0,
        r.1 < 1_000_000_000,
{
    let now = chrono::Utc::now();
    (now.timestamp(), now.timestamp_subsec_nanos())
}

/// `chrono::DateTime::to_rfc3339`, on the time that `from_timestamp` makes of the
/// two numbers. The text is read back as the same time. Texts of times with
/// four-digit years stand in the order of the times.
#[verifier::external_body]
fn chrono_to_rfc3339(secs: i64, nanos: u32) -> (r: String)
    requires
        is_utc(secs, nanos),
    ensures
        r@ == rfc3339_text(secs, nanos),
        parsed_utc(r@) == Some((secs, nanos)),
        in_four_digit_year(secs) ==> forall|s: i64, n: u32|
            #![trigger rfc3339_text(s, n)]
            is_utc(s, n) && in_four_digit_year(s) ==> (text_before(rfc3339_text(s, n), r@) <==> (s
                < secs || (s == secs && n < nanos))),
{
    chrono::DateTime::from_timestamp(secs, nanos).unwrap().to_rfc3339()
}

/// `str::parse` to a `chrono::DateTime<Utc>`. What it reads depends on the text
/// alone; where it reads a time, `timestamp` and `timestamp_subsec_nanos` give it.
#[verifier::external_body]
fn chrono_parse(s: &str) -> (r: Option<(i64, u32)>)
    ensures
        r == parsed_utc(s@),
        r matches Some(t) ==> is_utc(t.0, t.1),
{
    let parsed = s.parse::<chrono::DateTime<chrono::Utc>>();
    parsed.ok().map(|t| (t.timestamp(), t.timestamp_subsec_nanos()))
}

/// `chrono::DateTime - chrono::Duration::hours`: that many hours earlier. Left
/// out are leap seconds and what leaves chrono's range, where it panics.
#[verifier::external_body]
fn chrono_minus_hours(secs: i64, nanos: u32, hours: i64) -> (r: (i64, u32))
    requires
        is_utc(secs, nanos),
        nanos < 1_000_000_000,
        0 <= hours,
        MIN_SECONDS <= secs - 3600 * hours,
    ensures
        r.0 == secs - 3600 * hours,
        r.1 == nanos,
{
    let t = chrono::DateTime::from_timestamp(secs, nanos).unwrap() - chrono::Duration::hours(hours);
    (t.timestamp(), t.timestamp_subsec_nanos())
}

/// A UTC time.
#[derive(Clone, Copy, Debug, PartialEq, Eq, Structural)]
pub struct UtcTime {
    secs: i64,
    nanos: u32,
}

impl UtcTime {
    #[verifier::type_invariant]
    spec fn in_range(self) -> bool {
        is_utc(self.secs, self.nanos)
    }

    /// Seconds since the Unix epoch.
    pub closed spec fn seconds(self) -> i64 {
        self.secs
    }

    /// Nanoseconds since that second.
    pub closed spec fn subsec(self) -> u32 {
        self.nanos
    }

    /// The time with the given seconds and nanoseconds.
    pub closed spec fn of_parts(secs: i64, nanos: u32) -> UtcTime {
        UtcTime { secs, nanos }
    }

    /// The time is one that chrono can hold.
    pub open spec fn valid(self) -> bool {
        is_utc(self.seconds(), self.subsec())
    }

    /// The time is earlier than another one.
    pub open spec fn earlier_than(self, other: UtcTime) -> bool {
        self.seconds() < other.seconds() || (self.seconds() == other.seconds() && self.subsec()
            < other.subsec())
    }

    /// The RFC 3339 text of the time.
    pub open spec fn rfc3339(self) -> Seq<char> {
        rfc3339_text(self.seconds(), self.subsec())
    }

    /// A time is its seconds and nanoseconds.
    pub proof fn lemma_parts(t: UtcTime, secs: i64, nanos: u32)
        ensures
            UtcTime::of_parts(t.seconds(), t.subsec()) == t,
            UtcTime::of_parts(secs, nanos).seconds() == secs,
            UtcTime::of_parts(secs, nanos).subsec() == nanos,
    {
    }

    /// The time with the given seconds and nanoseconds, if there is one.
    pub fn from_timestamp(secs: i64, nanos: u32) -> (r: Option<UtcTime>)
        ensures
            r is Some <==> is_utc(secs, nanos),
            r matches Some(t) ==> t == UtcTime::of_parts(secs, nanos) && t.seconds() == secs
                && t.subsec() == nanos && t.valid(),
    {
        if MIN_SECONDS <= secs && secs <= MAX_SECONDS && (nanos < 1_000_000_000 || (nanos
            < 2_000_000_000 && ends_in_59(secs))) {
            Some(UtcTime { secs, nanos })
        } else {
            None
        }
    }

    /// The seconds since the Unix epoch.
    pub fn timestamp(&self) -> (r: i64)
        ensures
            r == self.seconds(),
            self.valid(),
    {
        proof {
            use_type_invariant(self);
        }
        self.secs
    }

    /// The nanoseconds since that second.
    pub fn timestamp_subsec_nanos(&self) -> (r: u32)
        ensures
            r == self.subsec(),
            self.valid(),
    {
        proof {
            use_type_invariant(self);
        }
        self.nanos
    }

    /// The clock's time. Which one depends on when it is called.
    pub fn now() -> (r: UtcTime)
        ensures
            r.valid(),
            r.seconds() >= 0,
            r.subsec() < 1_000_000_000,
    {
        let (secs, nanos) = chrono_now();
        UtcTime { secs, nanos }
    }

    /// The RFC 3339 text of the time. It is read back as this time, and texts of
    /// times with four-digit years stand in the order of the times.
    pub fn to_rfc3339(&self) -> (r: String)
        ensures
            r@ == self.rfc3339(),
            parsed_utc(r@) == Some((self.seconds(), self.subsec())),
            in_four_digit_year(self.seconds()) ==> forall|t: UtcTime|
                #![trigger t.rfc3339()]
                t.valid() && in_four_digit_year(t.seconds()) ==> (text_before(t.rfc3339(), r@)
                    <==> t.earlier_than(*self)),
            self.valid(),
    {
        proof {
            use_type_invariant(self);
        }
        chrono_to_rfc3339(self.secs, self.nanos)
    }

    /// The time that a text is read as, if it is read as one.
    pub fn parse(s: &str) -> (r: Option<UtcTime>)
        ensures
            r == (match parsed_utc(s@) {
                Some(parts) => Some(UtcTime::of_parts(parts.0, parts.1)),
                None => None,
            }),
            r matches Some(t) ==> t.valid(),
    {
        match chrono_parse(s) {
            Some((secs, nanos)) => Some(UtcTime { secs, nanos }),
            None => None,
        }
    }

    /// The time that many hours earlier.
    pub fn minus_hours(&self, hours: u64) -> (r: UtcTime)
        requires
            self.subsec() < 1_000_000_000,
            MIN_SECONDS <= self.seconds() - 3600 * hours,
        ensures
            r.seconds() == self.seconds() - 3600 * hours,
            r.subsec() == self.subsec(),
            r.valid(),
    {
        proof {
            use_type_invariant(self);
        }
        let (secs, nanos) = chrono_minus_hours(self.secs, self.nanos, hours as i64);
        UtcTime { secs, nanos }
    }
}

/// Whether a number of seconds leaves 59 when divided by 60.
fn ends_in_59(secs: i64) -> (r: bool)
    requires
        MIN_SECONDS <= secs <= MAX_SECONDS,
    ensures
        r == (secs % 60 == 59),
{
    let shifted: u64 = (secs + 8_334_601_228_800) as u64;
    shifted % 60 == 59
}

/// `std::time::Instant`, a reading of the monotonic clock.
#[verifier::external_type_specification]
#[verifier::external_body]
pub struct ExInstant(std::time::Instant);

/// `std::time::Instant::now`: a reading of the monotonic clock, of which nothing
/// is known beforehand.
pub assume_specification[ std::time::Instant::now ]() -> (r: std::time::Instant)
;

/// `std::time::Instant::elapsed`, in nanoseconds. How many there are depends on
/// when it is called; nothing is promised of them. Left unsaid is that a later
/// call on the same instant gives no fewer.
#[verifier::external_body]
fn nanos_since(start: &std::time::Instant) -> (r: u64) {
    start.elapsed().as_nanos() as u64
}

/// A monotonic clock. It counts nanoseconds from the moment it was made.
pub struct MonotonicClock {
    start: std::time::Instant,
}

impl MonotonicClock {
    /// A clock that starts now. Which moment that is is left unsaid.
    pub(crate) fn start() -> (r: MonotonicClock) {
        MonotonicClock { start: std::time::Instant::now() }
    }

    /// The clock's reading. Which one depends on when it is called: any number can
    /// come back, and callers hold for every one of them.
    pub(crate) fn now(&self) -> (r: u64) {
        nanos_since(&self.start)
    }
}

/// The nanoseconds from `since` to `now`, zero where `now` is the earlier one.
pub open spec fn elapsed_nanos(since: u64, now: u64) -> int {
    if now >= since {
        now - since
    } else {
        0
    }
}

/// At least `seconds` seconds have passed from `since` to `now`.
pub open spec fn has_lasted(since: u64, now: u64, seconds: int) -> bool {
    elapsed_nanos(since, now) >= seconds * 1_000_000_000
}

/// Whether at least `seconds` seconds have passed from `since` to `now`.
pub fn lasted(since: u64, now: u64, seconds: u64) -> (r: bool)
    ensures
        r == has_lasted(since, now, seconds as int),
{
    let limit: u128 = seconds as u128 * 1_000_000_000;
    now.saturating_sub(since) as u128 >= limit
}

}
