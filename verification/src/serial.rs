//! Zone file serials in the date-based scheme of RFC 1912: the serial of a
//! day is `YYYYMMDD00`, and a zone that changes more than once a day counts
//! up from there.

use vstd::prelude::*;

verus! {

/// A day of the calendar in UTC.
#[derive(Debug, Clone, Copy, PartialEq, Eq)]
pub struct UtcDate {
    pub year: i32,
    pub month: u8,
    pub day: u8,
}

impl UtcDate {
    /// Whether month and day lie in the range of a calendar.
    pub open spec fn is_calendar_day(self) -> bool {
        1 <= self.month <= 12 && 1 <= self.day <= 31
    }

    /// The number `YYYYMMDD00`.
    pub open spec fn serial(self) -> int {
        self.year * 1000000 + self.month * 10000 + self.day * 100
    }

    /// Whether the day has a serial: it is a calendar day of a year that is
    /// not negative, and `YYYYMMDD00` fits 32 bits.
    pub open spec fn has_serial(self) -> bool {
        self.is_calendar_day() && self.year >= 0 && self.serial() <= u32::MAX
    }
}

/// A point in time as the operating system counts it.
#[verifier::external_type_specification]
#[verifier::external_body]
pub struct ExSystemTime(std::time::SystemTime);

/// `SystemTime::now` reads the clock. Nothing is claimed of what it shows.
pub assume_specification[ std::time::SystemTime::now ]() -> (now: std::time::SystemTime);

/// `Duration::as_secs` gives the whole seconds of a span of time. Nothing
/// is claimed of their number.
pub assume_specification[ core::time::Duration::as_secs ](span: &core::time::Duration) -> (seconds:
    u64);

/// Calls `SystemTime::duration_since` with the Unix epoch, which gives the
/// time that has passed since the epoch, or an error for a point in time
/// before it. The error becomes `None`; nothing is claimed of the span.
#[verifier::external_body]
fn since_epoch(now: &std::time::SystemTime) -> (span: Option<core::time::Duration>) {
    match now.duration_since(std::time::SystemTime::UNIX_EPOCH) {
        Ok(span) => Some(span),
        Err(_) => None,
    }
}

/// Names what `time::OffsetDateTime::from_unix_timestamp` makes of a
/// number of seconds since the Unix epoch: the day in UTC on which that
/// second falls, or none where `time` holds no such day.
pub uninterp spec fn day_of_timestamp(timestamp: i64) -> Option<UtcDate>;

/// Calls `time::OffsetDateTime::from_unix_timestamp`, which returns an
/// error for a second outside the years that `time` can hold, and takes
/// year, month and day of the month from what it returns otherwise. The
/// contract gives the result its name, and claims of it that the month lies
/// between 1 and 12 and the day between 1 and 31, which `time` documents of
/// `Month` and of `day`.
#[verifier::external_body]
fn day_of(timestamp: i64) -> (day: Option<UtcDate>)
    ensures
        day == day_of_timestamp(timestamp),
        day matches Some(date) ==> date.is_calendar_day(),
{
    match time::OffsetDateTime::from_unix_timestamp(timestamp) {
        Ok(moment) => Some(
            UtcDate { year: moment.year(), month: u8::from(moment.month()), day: moment.day() },
        ),
        Err(_) => None,
    }
}

/// The day in UTC on which a second falls, counted from the Unix epoch;
/// none where the count does not fit a timestamp or `time` holds no such
/// day.
pub open spec fn day_at(seconds: u64) -> Option<UtcDate> {
    if seconds <= i64::MAX {
        day_of_timestamp(seconds as i64)
    } else {
        None
    }
}

/// The day in UTC on which the second `seconds` after the Unix epoch
/// falls.
pub fn utc_day_at(seconds: u64) -> (day: Option<UtcDate>)
    ensures
        day == day_at(seconds),
        day matches Some(date) ==> date.is_calendar_day(),
{
    if seconds <= i64::MAX as u64 {
        day_of(seconds as i64)
    } else {
        None
    }
}

/// The day that the clock shows, in UTC; none where the clock stands
/// before the Unix epoch or beyond the days that can be told.
pub fn utc_today() -> (today: Option<UtcDate>)
    ensures
        today is Some ==> exists|seconds: u64| today == #[trigger] day_at(seconds),
        today matches Some(date) ==> date.is_calendar_day(),
{
    let now = std::time::SystemTime::now();
    match since_epoch(&now) {
        Some(span) => utc_day_at(span.as_secs()),
        None => None,
    }
}

/// The serial `YYYYMMDD00` of a day, where it has one.
pub fn date_serial(date: UtcDate) -> (serial: Option<u32>)
    ensures
        serial.is_some() == date.has_serial(),
        date.has_serial() ==> serial == Some(date.serial() as u32),
{
    if date.month < 1 || date.month > 12 || date.day < 1 || date.day > 31 {
        return None;
    }
    if date.year < 0 || date.year > 4294 {
        return None;
    }
    let year: u32 = date.year as u32;
    let month: u32 = date.month as u32;
    let day: u32 = date.day as u32;
    Some(year * 1000000 + month * 10000 + day * 100)
}

/// The serial that follows `last` when a zone file is rendered on a day
/// whose serial is `today`: the serial of the day where that is ahead, the
/// increment of the last serial otherwise.
pub open spec fn following_serial(today: nat, last: nat) -> nat {
    if today >= last + 1 {
        today
    } else {
        last + 1
    }
}

/// The serial of the next rendering.
pub fn next_serial(today: u32, last: u32) -> (next: u32)
    requires
        last < u32::MAX,
    ensures
        next == following_serial(today as nat, last as nat),
        next > last,
        next >= today,
{
    let bumped: u32 = last + 1;
    if today >= bumped {
        today
    } else {
        bumped
    }
}

/// The serial of a rendering on `date` that follows the serial `last`;
/// none where the day has no serial or `last` cannot be counted up.
pub open spec fn rotated_serial(date: UtcDate, last: u32) -> Option<u32> {
    if date.has_serial() && last < u32::MAX {
        Some(following_serial(date.serial() as nat, last as nat) as u32)
    } else {
        None
    }
}

/// The serial of a rendering on `date` that follows the serial `last`.
pub fn rotate_serial(date: UtcDate, last: u32) -> (next: Option<u32>)
    ensures
        next == rotated_serial(date, last),
        next.is_some() ==> next.unwrap() > last && next.unwrap() >= date.serial(),
{
    match date_serial(date) {
        Some(today) => {
            if last < u32::MAX {
                Some(next_serial(today, last))
            } else {
                None
            }
        },
        None => None,
    }
}

/// The serial after a run of renderings, one on each of the days whose
/// serials `days` lists, that began with the serial `first`.
pub open spec fn serial_after(first: nat, days: Seq<nat>) -> nat
    decreases days.len(),
{
    if days.len() == 0 {
        first
    } else {
        following_serial(days.last(), serial_after(first, days.drop_last()))
    }
}

/// Over any run of renderings the serial rises strictly: after `j`
/// renderings it is above what it was after `i < j` of them.
pub proof fn lemma_serials_rise(first: nat, days: Seq<nat>, i: int, j: int)
    requires
        0 <= i < j <= days.len(),
    ensures
        serial_after(first, days.take(i)) < serial_after(first, days.take(j)),
    decreases j - i,
{
    assert(days.take(j).drop_last() == days.take(j - 1));
    if i < j - 1 {
        lemma_serials_rise(first, days, i, j - 1);
    }
}

/// After a rendering the serial is no less than the serial of the day on
/// which it was rendered.
pub proof fn lemma_serial_reaches_day(first: nat, days: Seq<nat>)
    requires
        days.len() > 0,
    ensures
        serial_after(first, days) >= days.last(),
{
}

} // verus!
