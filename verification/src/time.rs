use vstd::prelude::*;
use chrono::{Offset, TimeZone};

verus! {

/// The bound on instants that the library handles: about 31,000 years either side of 1970.
pub const TIME_LIMIT: i64 = 1_000_000_000_000i64;

/// Seconds in a day and in an hour.
pub const DAY: i64 = 86_400i64;
pub const HOUR: i64 = 3_600i64;

/// An instant (seconds since 1970-01-01 UTC) together with the fixed UTC offset, in seconds,
/// that it is shown in.
#[derive(Clone, Copy, Debug, PartialEq, Eq, Structural)]
pub struct LocalTime {
    pub utc_seconds: i64,
    pub offset_seconds: i32,
}

/// Whether an instant lies in the handled range and its offset is less than a day.
pub open spec fn valid_time(t: LocalTime) -> bool {
    &&& -TIME_LIMIT <= t.utc_seconds <= TIME_LIMIT
    &&& -DAY < t.offset_seconds < DAY
}

/// The wall-clock seconds of an instant in its offset.
pub open spec fn local_seconds(t: LocalTime) -> int {
    t.utc_seconds + t.offset_seconds
}

/// The seconds since local midnight.
pub open spec fn second_of_day(t: LocalTime) -> int {
    local_seconds(t) % (DAY as int)
}

/// The wall-clock hour of an instant, 0 to 23.
pub open spec fn hour_of(t: LocalTime) -> int {
    second_of_day(t) / (HOUR as int)
}

/// The same local day at `hour`:00:00, in the same offset.
pub open spec fn at_hour(t: LocalTime, hour: int) -> LocalTime {
    LocalTime {
        utc_seconds: (t.utc_seconds - second_of_day(t) + hour * HOUR) as i64,
        offset_seconds: t.offset_seconds,
    }
}

/// An instant moved by a number of seconds, in the same offset.
pub open spec fn shifted(t: LocalTime, seconds: int) -> LocalTime {
    LocalTime { utc_seconds: (t.utc_seconds + seconds) as i64, offset_seconds: t.offset_seconds }
}

/// The instant at midnight UTC starting a day counted from 1970-01-01.
pub open spec fn utc_midnight(day: int) -> LocalTime {
    LocalTime { utc_seconds: (day * DAY) as i64, offset_seconds: 0 }
}

fn modulo_day(x: i64) -> (r: i64)
    requires
        -3 * TIME_LIMIT <= x <= 3 * TIME_LIMIT,
    ensures
        r == (x as int) % (DAY as int),
        0 <= r < DAY,
{
    let r = x % DAY;
    if r < 0 {
        r + DAY
    } else {
        r
    }
}

impl LocalTime {
    /// The wall-clock hour of the instant in its offset.
    pub fn hour(&self) -> (h: i64)
        requires
            valid_time(*self),
        ensures
            h == hour_of(*self),
            0 <= h < 24,
    {
        let local = self.utc_seconds + self.offset_seconds as i64;
        modulo_day(local) / HOUR
    }

    /// The same local day at the given hour, with minutes and seconds set to zero.
    pub fn with_hour_exact(&self, hour: i64) -> (r: LocalTime)
        requires
            -2 * TIME_LIMIT <= self.utc_seconds <= 2 * TIME_LIMIT,
            -DAY < self.offset_seconds < DAY,
            0 <= hour < 24,
        ensures
            r == at_hour(*self, hour as int),
            self.utc_seconds - DAY + hour * HOUR < r.utc_seconds <= self.utc_seconds + hour * HOUR,
    {
        let local = self.utc_seconds + self.offset_seconds as i64;
        let sod = modulo_day(local);
        LocalTime { utc_seconds: self.utc_seconds - sod + hour * HOUR, offset_seconds: self.offset_seconds }
    }

    /// The instant a number of seconds later (or earlier), in the same offset.
    pub fn plus_seconds(&self, seconds: i64) -> (r: LocalTime)
        requires
            -2 * TIME_LIMIT <= self.utc_seconds <= 2 * TIME_LIMIT,
            -4 * DAY <= seconds <= 4 * DAY,
        ensures
            r == shifted(*self, seconds as int),
    {
        LocalTime { utc_seconds: self.utc_seconds + seconds, offset_seconds: self.offset_seconds }
    }

    /// Whether `self` is strictly before `other` (as instants).
    pub fn before(&self, other: &LocalTime) -> (r: bool)
        ensures
            r == (self.utc_seconds < other.utc_seconds),
    {
        self.utc_seconds < other.utc_seconds
    }
}

/// What the time zone Europe/Stockholm's offset from UTC, in seconds, is at an instant.
pub uninterp spec fn stockholm_offset_at(utc_seconds: i64) -> i32;

/// chrono-tz's Europe/Stockholm zone: its offset from UTC at an instant. The result is named:
/// it depends on the instant alone (the zone data is compiled in). chrono's fixed offsets lie
/// strictly within a day of UTC.
#[verifier::external_body]
fn stockholm_offset(utc_seconds: i64) -> (offset: i32)
    requires
        -TIME_LIMIT <= utc_seconds <= TIME_LIMIT,
    ensures
        offset == stockholm_offset_at(utc_seconds),
        -DAY < offset < DAY,
{
    let utc = chrono::DateTime::from_timestamp(utc_seconds, 0).unwrap().naive_utc();
    chrono_tz::Tz::Europe__Stockholm.offset_from_utc_datetime(&utc).fix().local_minus_utc()
}

/// The instant shown in Stockholm time.
pub open spec fn in_stockholm(t: LocalTime) -> LocalTime {
    LocalTime { utc_seconds: t.utc_seconds, offset_seconds: stockholm_offset_at(t.utc_seconds) }
}

/// The same instant, shown in the offset that Stockholm has at that instant.
pub fn to_stockholm(t: LocalTime) -> (r: LocalTime)
    requires
        valid_time(t),
    ensures
        r == in_stockholm(t),
        valid_time(r),
{
    LocalTime { utc_seconds: t.utc_seconds, offset_seconds: stockholm_offset(t.utc_seconds) }
}

/// What chrono prints for an instant in its offset with the pattern `%Y-%m-%d %H:%M:%S`.
pub uninterp spec fn formatted_timestamp(utc_seconds: i64, offset_seconds: i32) -> Seq<char>;

/// chrono's `DateTime::format` with the pattern `%Y-%m-%d %H:%M:%S`, on the instant taken in
/// its fixed offset: the wall-clock date and time there. The result is named: it depends on
/// the instant and the offset alone (no locale is involved). Within the handled range chrono
/// holds every instant, and an offset of less than a day is one that chrono accepts.
#[verifier::external_body]
pub(crate) fn format_timestamp(t: LocalTime) -> (r: String)
    requires
        valid_time(t),
    ensures
        r@ == formatted_timestamp(t.utc_seconds, t.offset_seconds),
{
    let offset = chrono::FixedOffset::east_opt(t.offset_seconds).unwrap();
    let utc = chrono::DateTime::from_timestamp(t.utc_seconds, 0).unwrap();
    utc.with_timezone(&offset).format("%Y-%m-%d %H:%M:%S").to_string()
}

} // verus!
