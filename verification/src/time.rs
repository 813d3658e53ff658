//! Instants on the UTC time line, as plain numbers.

use vstd::prelude::*;

verus! {

/// An instant on the UTC time line: whole seconds since 1970-01-01 00:00:00
/// UTC, and the nanoseconds since the last second boundary.
///
/// During a leap second the nanoseconds exceed 999,999,999, so that the leap
/// second sorts after the second before it and before the second after it.
#[derive(Clone, Copy, Debug, PartialEq, Eq, Structural)]
pub struct Timestamp {
    pub secs: i64,
    pub nanos: u32,
}

impl Timestamp {
    /// `self` is not later than `other`.
    pub open spec fn is_not_after(self, other: Timestamp) -> bool {
        self.secs < other.secs || (self.secs == other.secs && self.nanos <= other.nanos)
    }

    /// The later of two instants.
    pub open spec fn latest(a: Timestamp, b: Timestamp) -> Timestamp {
        if a.is_not_after(b) {
            b
        } else {
            a
        }
    }

    /// The instant `secs` seconds and `nanos` nanoseconds after the epoch.
    pub fn new(secs: i64, nanos: u32) -> (t: Timestamp)
        ensures
            t == (Timestamp { secs, nanos }),
    {
        Timestamp { secs, nanos }
    }

    /// Whether `self` is not later than `other`.
    pub fn not_after(&self, other: &Timestamp) -> (r: bool)
        ensures
            r == self.is_not_after(*other),
    {
        self.secs < other.secs || (self.secs == other.secs && self.nanos <= other.nanos)
    }

    /// The later of two instants; the second when they are equal.
    pub fn later_of(a: Timestamp, b: Timestamp) -> (t: Timestamp)
        ensures
            t == Timestamp::latest(a, b),
            a.is_not_after(t),
            b.is_not_after(t),
    {
        if a.not_after(&b) {
            b
        } else {
            a
        }
    }
}

/// Reads the system clock through `chrono::Utc::now`.
///
/// The contract claims nothing about the instant: the clock may be set to
/// any time, and two readings need not be in order.
#[verifier::external_body]
pub(crate) fn utc_now() -> (t: Timestamp) {
    let now = chrono::Utc::now();
    Timestamp { secs: now.timestamp(), nanos: now.timestamp_subsec_nanos() }
}

/// `chrono` can represent the instant: `chrono::DateTime::from_timestamp`
/// gives a date and time for it.
pub uninterp spec fn instant_in_range(secs: i64, nanos: u32) -> bool;

/// The text `YYYY-MM-DD HH:MM` of an instant on the clocks that are
/// `offset` seconds ahead of UTC, as `chrono::DateTime::format` gives it;
/// `None` for an instant or an offset outside the range of `chrono`.
pub uninterp spec fn minute_text_of(secs: i64, nanos: u32, offset: i32) -> Option<Seq<char>>;

/// An offset from UTC that a time zone can have: less than a day, to
/// either side.
pub open spec fn offset_in_range(offset: i32) -> bool {
    -86_400 < offset < 86_400
}

/// Renders an instant as `YYYY-MM-DD HH:MM` on the clocks that are `offset`
/// seconds ahead of UTC, through `chrono::DateTime::from_timestamp`,
/// `FixedOffset::east_opt`, `DateTime::with_timezone` and `DateTime::format`.
///
/// The contract names the text. There is a text if `from_timestamp` takes
/// the instant and `east_opt` the offset; `east_opt` takes the offsets of
/// less than a day.
#[verifier::external_body]
fn format_minute(t: Timestamp, offset: i32) -> (r: Option<String>)
    ensures
        crate::text::opt_text(r) == minute_text_of(t.secs, t.nanos, offset),
        r.is_some() == (instant_in_range(t.secs, t.nanos) && offset_in_range(offset)),
{
    match (chrono::DateTime::from_timestamp(t.secs, t.nanos), chrono::FixedOffset::east_opt(offset)) {
        (Some(instant), Some(zone)) => Some(
            format!("{}", instant.with_timezone(&zone).format("%Y-%m-%d %H:%M")),
        ),
        _ => None,
    }
}

/// How many seconds the clocks of the machine's time zone are ahead of UTC
/// at an instant, through `chrono::DateTime::from_timestamp`,
/// `DateTime::with_timezone`, `DateTime::offset` and
/// `FixedOffset::local_minus_utc`.
///
/// The offset depends on the time zone of the machine, so the contract
/// states only what holds of every time zone: there is an offset if
/// `from_timestamp` takes the instant, and it is less than a day, as
/// `chrono` documents of every `FixedOffset`.
#[verifier::external_body]
fn local_offset_at(t: Timestamp) -> (r: Option<i32>)
    ensures
        r.is_some() == instant_in_range(t.secs, t.nanos),
        r.is_some() ==> offset_in_range(r.unwrap()),
{
    match chrono::DateTime::from_timestamp(t.secs, t.nanos) {
        Some(instant) => Some(instant.with_timezone(&chrono::Local).offset().local_minus_utc()),
        None => None,
    }
}

impl Timestamp {
    /// `text` is the instant as `YYYY-MM-DD HH:MM` on the clocks of some
    /// time zone; for an instant that `chrono` cannot represent, `text` is
    /// empty.
    pub open spec fn is_local_text(self, text: Seq<char>) -> bool {
        if instant_in_range(self.secs, self.nanos) {
            exists|offset: i32|
                offset_in_range(offset) && #[trigger] minute_text_of(self.secs, self.nanos, offset)
                    == Some(text)
        } else {
            text == Seq::<char>::empty()
        }
    }

    /// The instant as `YYYY-MM-DD HH:MM` on the clocks that are `offset`
    /// seconds ahead of UTC; `None` for an instant that `chrono` cannot
    /// represent and for an offset of a day or more.
    pub fn text_at(&self, offset: i32) -> (r: Option<String>)
        ensures
            crate::text::opt_text(r) == minute_text_of(self.secs, self.nanos, offset),
            r.is_some() == (instant_in_range(self.secs, self.nanos) && offset_in_range(offset)),
    {
        format_minute(*self, offset)
    }

    /// The instant as `YYYY-MM-DD HH:MM` on the clocks of the machine's
    /// time zone: the text at the offset that the time zone has at the
    /// instant. An instant that `chrono` cannot represent gives the empty
    /// text.
    pub fn local_text(&self) -> (r: String)
        ensures
            self.is_local_text(r@),
    {
        match local_offset_at(*self) {
            Some(offset) => match self.text_at(offset) {
                Some(text) => {
                    assert(minute_text_of(self.secs, self.nanos, offset) == Some(text@));
                    text
                },
                None => String::new(),
            },
            None => String::new(),
        }
    }
}

/// Reads a text of the form `YYYY-MM-DD HH:MM` as a time of the machine's
/// local time zone, through `chrono::NaiveDateTime::parse_from_str` and
/// `NaiveDateTime::and_local_timezone`.
///
/// The instant depends on the time zone of the machine, so the contract
/// claims nothing about it. A text of another form gives the message of
/// `chrono`; a local time that names no single instant gives an empty
/// message.
#[verifier::external_body]
pub(crate) fn local_minute_instant(text: &str) -> (r: Result<Timestamp, String>) {
    match chrono::NaiveDateTime::parse_from_str(text, "%Y-%m-%d %H:%M") {
        Ok(naive) => match naive.and_local_timezone(chrono::Local).single() {
            Some(instant) => Ok(
                Timestamp { secs: instant.timestamp(), nanos: instant.timestamp_subsec_nanos() },
            ),
            None => Err(String::new()),
        },
        Err(e) => Err(format!("{}", e)),
    }
}

} // verus!
