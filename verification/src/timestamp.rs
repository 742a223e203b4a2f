//! Instants of time, to the nanosecond.

use vstd::prelude::*;

verus! {

/// The first second that can be told.
pub const FIRST_SECOND: i64 = -8_334_601_228_800;

/// The last second that can be told.
pub const LAST_SECOND: i64 = 8_210_266_876_799;

/// An instant: the whole seconds since the start of 1970, and the nanoseconds since
/// then. A leap second is told as the second before it, with a thousand million
/// nanoseconds more.
#[derive(Debug, Clone, Copy, PartialEq, Eq, Structural)]
pub struct Timestamp {
    seconds: i64,
    nanoseconds: u32,
}

/// Whether seconds and nanoseconds tell an instant. Only the last second of a minute
/// can be followed by a leap second.
pub open spec fn valid_instant(seconds: int, nanoseconds: int) -> bool {
    &&& FIRST_SECOND <= seconds <= LAST_SECOND
    &&& 0 <= nanoseconds < 2_000_000_000
    &&& nanoseconds >= 1_000_000_000 ==> seconds % 60 == 59
}

/// An instant a number of hours earlier. From a leap second it is reckoned as if the
/// leap second were the second after it.
pub open spec fn hours_earlier(seconds: int, nanoseconds: int, hours: int) -> (int, int) {
    if hours == 0 || nanoseconds < 1_000_000_000 {
        (seconds - 3600 * hours, nanoseconds)
    } else {
        (seconds + 1 - 3600 * hours, nanoseconds - 1_000_000_000)
    }
}

impl Timestamp {
    #[verifier::type_invariant]
    closed spec fn valid(self) -> bool {
        valid_instant(self.seconds as int, self.nanoseconds as int)
    }

    /// The whole seconds since the start of 1970.
    pub closed spec fn secs(self) -> i64 {
        self.seconds
    }

    /// The nanoseconds since the last whole second.
    pub closed spec fn nanos(self) -> u32 {
        self.nanoseconds
    }

    /// Whether the instant comes before another.
    pub open spec fn before(self, other: Timestamp) -> bool {
        self.secs() < other.secs() || (self.secs() == other.secs() && self.nanos() < other.nanos())
    }

    /// Whether there is an instant a number of hours earlier.
    pub open spec fn reaches_back(self, hours: int) -> bool {
        hours_earlier(self.secs() as int, self.nanos() as int, hours).0 >= FIRST_SECOND
    }

    /// The instant a number of hours earlier.
    pub open spec fn earlier_by(self, hours: int) -> Timestamp {
        let (seconds, nanoseconds) = hours_earlier(self.secs() as int, self.nanos() as int, hours);
        Timestamp::at(seconds as i64, nanoseconds as u32)
    }

    /// The instant of some seconds and nanoseconds.
    pub closed spec fn at(seconds: i64, nanoseconds: u32) -> Timestamp {
        Timestamp { seconds, nanoseconds }
    }

    /// The instant that a text in a record tells.
    pub open spec fn told_by(text: Seq<char>) -> Option<Timestamp> {
        match read_instant(text) {
            Some((seconds, nanoseconds)) => Some(Timestamp::at(seconds, nanoseconds)),
            None => None,
        }
    }

    /// The instant that a text in the form of RFC 3339 tells, or what is wrong with it.
    pub open spec fn rfc3339(text: Seq<char>) -> Result<Timestamp, Seq<char>> {
        match rfc3339_instant(text) {
            Ok((seconds, nanoseconds)) => Ok(Timestamp::at(seconds, nanoseconds)),
            Err(cause) => Err(cause),
        }
    }

    /// The text that tells the instant in a record.
    pub open spec fn telling(self) -> Seq<char> {
        written_instant(self.secs(), self.nanos())
    }

    /// Seconds and nanoseconds tell one instant.
    pub proof fn lemma_at(seconds: i64, nanoseconds: u32)
        ensures
            Timestamp::at(seconds, nanoseconds).secs() == seconds,
            Timestamp::at(seconds, nanoseconds).nanos() == nanoseconds,
    {
    }

    /// Instants with the same seconds and nanoseconds are the same.
    pub proof fn lemma_same(self, other: Timestamp)
        requires
            self.secs() == other.secs(),
            self.nanos() == other.nanos(),
        ensures
            self == other,
    {
    }

    /// The instant of some seconds and nanoseconds, where they tell one.
    pub fn new(seconds: i64, nanoseconds: u32) -> (made: Option<Timestamp>)
        ensures
            match made {
                Some(instant) => {
                    &&& valid_instant(seconds as int, nanoseconds as int)
                    &&& instant.secs() == seconds
                    &&& instant.nanos() == nanoseconds
                },
                None => !valid_instant(seconds as int, nanoseconds as int),
            },
    {
        if seconds < FIRST_SECOND || seconds > LAST_SECOND || nanoseconds >= 2_000_000_000 {
            return None;
        }
        if nanoseconds >= 1_000_000_000 {
            let from_first: i64 = seconds - FIRST_SECOND;
            assert(FIRST_SECOND % 60 == 0);
            assert(seconds as int % 60 == from_first as int % 60);
            if from_first % 60 != 59 {
                return None;
            }
        }
        Some(Timestamp { seconds, nanoseconds })
    }

    /// The whole seconds since the start of 1970.
    pub fn unix_seconds(&self) -> (seconds: i64)
        ensures
            seconds == self.secs(),
    {
        self.seconds
    }

    /// The nanoseconds since the last whole second.
    pub fn subsecond_nanoseconds(&self) -> (nanoseconds: u32)
        ensures
            nanoseconds == self.nanos(),
    {
        self.nanoseconds
    }

    /// Whether the instant comes before another.
    pub fn is_before(&self, other: &Timestamp) -> (yes: bool)
        ensures
            yes == self.before(*other),
    {
        self.seconds < other.seconds || (self.seconds == other.seconds && self.nanoseconds
            < other.nanoseconds)
    }

    /// Whether there is an instant a number of hours earlier.
    pub fn can_go_back(&self, hours: i64) -> (yes: bool)
        ensures
            yes == self.reaches_back(hours as int),
    {
        let leap: i128 = if hours != 0 && self.nanoseconds >= 1_000_000_000 {
            1
        } else {
            0
        };
        self.seconds as i128 + leap - 3600 * (hours as i128) >= FIRST_SECOND as i128
    }

    /// The instant a number of hours earlier.
    pub fn hours_before(&self, hours: i64) -> (earlier: Timestamp)
        requires
            hours >= 0,
            self.reaches_back(hours as int),
        ensures
            earlier == self.earlier_by(hours as int),
            (earlier.secs() as int, earlier.nanos() as int) == hours_earlier(
                self.secs() as int,
                self.nanos() as int,
                hours as int,
            ),
    {
        proof {
            use_type_invariant(self);
        }
        let (seconds, nanoseconds) = subtract_hours(self.seconds, self.nanoseconds, hours);
        Timestamp { seconds, nanoseconds }
    }

    /// The instant as it is written in records.
    pub fn record_text(&self) -> (text: String)
        ensures
            text@ == self.telling(),
            Timestamp::told_by(text@) == Some(*self),
    {
        proof {
            use_type_invariant(self);
        }
        instant_to_rfc3339(self.seconds, self.nanoseconds)
    }

    /// The instant that a text in a record tells.
    pub fn from_record_text(text: &str) -> (told: Option<Timestamp>)
        ensures
            told == Timestamp::told_by(text@),
    {
        match instant_from_text(text) {
            Some((seconds, nanoseconds)) => Some(Timestamp { seconds, nanoseconds }),
            None => None,
        }
    }

    /// The instant that a text in the form of RFC 3339 tells, or what is wrong with
    /// the text.
    pub fn from_rfc3339(text: &str) -> (told: Result<Timestamp, String>)
        ensures
            match told {
                Ok(instant) => Timestamp::rfc3339(text@) == Ok::<Timestamp, Seq<char>>(instant),
                Err(cause) => Timestamp::rfc3339(text@) == Err::<Timestamp, Seq<char>>(cause@),
            },
    {
        match instant_from_rfc3339(text) {
            Ok((seconds, nanoseconds)) => Ok(Timestamp { seconds, nanoseconds }),
            Err(cause) => Err(cause),
        }
    }

    /// The instant as it is shown to people.
    pub fn shown(&self) -> (text: String)
        ensures
            text@ == shown_instant(self.secs(), self.nanos()),
    {
        proof {
            use_type_invariant(self);
        }
        instant_display(self.seconds, self.nanoseconds)
    }
}

/// Calls the subtraction of a `chrono::Duration` of whole hours from a
/// `chrono::DateTime<Utc>`, which panics on a result before the first instant.
#[verifier::external_body]
fn subtract_hours(seconds: i64, nanoseconds: u32, hours: i64) -> (earlier: (i64, u32))
    requires
        valid_instant(seconds as int, nanoseconds as int),
        hours >= 0,
        hours_earlier(seconds as int, nanoseconds as int, hours as int).0 >= FIRST_SECOND,
    ensures
        (earlier.0 as int, earlier.1 as int) == hours_earlier(
            seconds as int,
            nanoseconds as int,
            hours as int,
        ),
        valid_instant(earlier.0 as int, earlier.1 as int),
{
    let instant = chrono::DateTime::<chrono::Utc>::from_timestamp(seconds, nanoseconds).unwrap();
    let earlier = instant - chrono::Duration::hours(hours);
    (earlier.timestamp(), earlier.timestamp_subsec_nanos())
}

/// The text that `chrono::DateTime::to_rfc3339_opts` writes for an instant in UTC.
pub uninterp spec fn written_instant(seconds: i64, nanoseconds: u32) -> Seq<char>;

/// The instant that `chrono` reads from a text with the `FromStr` of
/// `DateTime<Utc>`.
pub uninterp spec fn read_instant(text: Seq<char>) -> Option<(i64, u32)>;

/// What `chrono::DateTime::parse_from_rfc3339` makes of a text: an instant, or the
/// message of its error.
pub uninterp spec fn rfc3339_instant(text: Seq<char>) -> Result<(i64, u32), Seq<char>>;

/// The text that `chrono` displays for a `DateTime<Utc>`.
pub uninterp spec fn shown_instant(seconds: i64, nanoseconds: u32) -> Seq<char>;

/// Calls `chrono::DateTime::to_rfc3339_opts` with as many decimals as the instant
/// needs and with `Z` for UTC, the form in which `chrono` serialises instants. Years
/// outside 0 to 9999 are written with a sign, and a leap second as second 60, and
/// `chrono` reads both: it reads the text back as the same instant.
#[verifier::external_body]
fn instant_to_rfc3339(seconds: i64, nanoseconds: u32) -> (text: String)
    requires
        valid_instant(seconds as int, nanoseconds as int),
    ensures
        text@ == written_instant(seconds, nanoseconds),
        read_instant(text@) == Some((seconds, nanoseconds)),
{
    let instant = chrono::DateTime::<chrono::Utc>::from_timestamp(seconds, nanoseconds).unwrap();
    instant.to_rfc3339_opts(chrono::SecondsFormat::AutoSi, true)
}

/// Calls the `FromStr` of `chrono::DateTime<Utc>`, with which `chrono` deserialises
/// instants. What it reads depends on the text alone.
#[verifier::external_body]
fn instant_from_text(text: &str) -> (told: Option<(i64, u32)>)
    ensures
        told == read_instant(text@),
        told matches Some((seconds, nanoseconds)) ==> valid_instant(
            seconds as int,
            nanoseconds as int,
        ),
{
    match text.parse::<chrono::DateTime<chrono::Utc>>() {
        Ok(instant) => Some((instant.timestamp(), instant.timestamp_subsec_nanos())),
        Err(_) => None,
    }
}

/// Calls `chrono::DateTime::parse_from_rfc3339`. What it reads, or the message of its
/// error, depends on the text alone.
#[verifier::external_body]
fn instant_from_rfc3339(text: &str) -> (told: Result<(i64, u32), String>)
    ensures
        match told {
            Ok(instant) => {
                &&& rfc3339_instant(text@) == Ok::<(i64, u32), Seq<char>>(instant)
                &&& valid_instant(instant.0 as int, instant.1 as int)
            },
            Err(cause) => rfc3339_instant(text@) == Err::<(i64, u32), Seq<char>>(cause@),
        },
{
    match chrono::DateTime::parse_from_rfc3339(text) {
        Ok(instant) => Ok((instant.timestamp(), instant.timestamp_subsec_nanos())),
        Err(error) => Err(error.to_string()),
    }
}

/// Displays a `chrono::DateTime<Utc>`.
#[verifier::external_body]
fn instant_display(seconds: i64, nanoseconds: u32) -> (text: String)
    requires
        valid_instant(seconds as int, nanoseconds as int),
    ensures
        text@ == shown_instant(seconds, nanoseconds),
{
    chrono::DateTime::<chrono::Utc>::from_timestamp(seconds, nanoseconds).unwrap().to_string()
}

} // verus!
