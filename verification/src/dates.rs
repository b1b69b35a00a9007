use vstd::prelude::*;
use chrono::Offset;
use crate::time::{DAY, LocalTime, TIME_LIMIT, valid_time};

verus! {

/// What chrono gives when it adds whole days to an instant in a named time zone of chrono-tz
/// (the same wall-clock time that many days later): the instant and its offset then, or
/// `None` where the zone is unknown or the local time does not exist there or is ambiguous.
pub uninterp spec fn zone_days_later(utc_seconds: i64, zone: Seq<char>, days: u64) -> Option<(i64, i32)>;

/// chrono's `DateTime::checked_add_days` on the instant taken in the chrono-tz zone named
/// `zone`. The result is named: it depends on the instant, the zone's name and the number of
/// days alone (the zone data is compiled in). Within the handled range chrono holds every
/// instant.
#[verifier::external_body]
fn days_later_in_zone(utc_seconds: i64, zone: &str, days: u64) -> (r: Option<(i64, i32)>)
    requires
        -TIME_LIMIT <= utc_seconds <= TIME_LIMIT,
    ensures
        r == zone_days_later(utc_seconds, zone@, days),
{
    let tz: chrono_tz::Tz = match zone.parse() {
        Ok(tz) => tz,
        Err(_) => return None,
    };
    let start = chrono::DateTime::from_timestamp(utc_seconds, 0).unwrap().with_timezone(&tz);
    start.checked_add_days(chrono::Days::new(days)).map(|t| (t.timestamp(), t.offset().fix().local_minus_utc()))
}

/// The days of a competition: from its start to its end, in a named time zone.
pub struct DateRange {
    pub start: LocalTime,
    pub end: LocalTime,
    pub zone: String,
}

/// Whole days between two instants, rounded toward zero.
pub open spec fn whole_days(from: int, to: int) -> int {
    if to - from >= 0 {
        (to - from) / (DAY as int)
    } else {
        -((from - to) / (DAY as int))
    }
}

/// The instant `day` days after the start, where chrono has one.
pub open spec fn day_of(r: DateRange, day: u64) -> Option<LocalTime> {
    match zone_days_later(r.start.utc_seconds, r.zone@, day) {
        Some((utc, offset)) => Some(LocalTime { utc_seconds: utc, offset_seconds: offset }),
        None => None,
    }
}

/// The days of the range that chrono has, from the first `count` days counted from the start.
pub open spec fn days_of(r: DateRange, count: nat) -> Seq<LocalTime>
    decreases count,
{
    if count == 0 {
        Seq::empty()
    } else {
        let rest = days_of(r, (count - 1) as nat);
        match day_of(r, (count - 1) as u64) {
            Some(t) => rest.push(t),
            None => rest,
        }
    }
}

/// Every day of a range, from the start to the end inclusive, that chrono has.
pub open spec fn range_days(r: DateRange) -> Seq<LocalTime> {
    if whole_days(r.start.utc_seconds as int, r.end.utc_seconds as int) >= 0 {
        days_of(r, (whole_days(r.start.utc_seconds as int, r.end.utc_seconds as int) + 1) as nat)
    } else {
        Seq::empty()
    }
}

/// The date (days since 1970-01-01) of an instant's wall clock.
pub open spec fn local_date(t: LocalTime) -> int {
    (t.utc_seconds + t.offset_seconds) / (DAY as int)
}

/// The days that were found, in order.
pub open spec fn present(found: Seq<Option<LocalTime>>) -> Seq<LocalTime>
    decreases found.len(),
{
    if found.len() == 0 {
        Seq::empty()
    } else {
        let rest = present(found.drop_last());
        match found.last() {
            Some(t) => rest.push(t),
            None => rest,
        }
    }
}

/// The days that were found, in order; days that chrono does not have are left out.
pub fn present_days(found: &Vec<Option<LocalTime>>) -> (r: Vec<LocalTime>)
    ensures
        r@ == present(found@),
{
    let mut out: Vec<LocalTime> = Vec::new();
    let mut i: usize = 0;
    while i < found.len()
        invariant
            i <= found.len(),
            out@ == present(found@.take(i as int)),
        decreases found.len() - i,
    {
        assert(found@.take(i + 1).drop_last() =~= found@.take(i as int));
        match found[i] {
            Some(t) => out.push(t),
            None => {},
        }
        i = i + 1;
    }
    assert(found@.take(i as int) =~= found@);
    out
}

proof fn lemma_present_days_of(r: DateRange, found: Seq<Option<LocalTime>>, count: nat)
    requires
        found.len() == count,
        forall|j: int| 0 <= j < count ==> #[trigger] found[j] == day_of(r, j as u64),
    ensures
        present(found) == days_of(r, count),
    decreases count,
{
    if count > 0 {
        let prev = found.drop_last();
        assert forall|j: int| 0 <= j < count - 1 implies #[trigger] prev[j] == day_of(r, j as u64) by {
            assert(prev[j] == found[j]);
        }
        lemma_present_days_of(r, prev, (count - 1) as nat);
        assert(found.last() == day_of(r, (count - 1) as u64));
    }
}

impl DateRange {
    /// The whole days from the start to the end, rounded toward zero.
    pub fn len(&self) -> (n: i64)
        requires
            valid_time(self.start),
            valid_time(self.end),
        ensures
            n == whole_days(self.start.utc_seconds as int, self.end.utc_seconds as int),
    {
        let d = self.end.utc_seconds - self.start.utc_seconds;
        if d >= 0 {
            d / DAY
        } else {
            -((-d) / DAY)
        }
    }

    /// The instant `day` days after the start, in the range's zone.
    pub fn get_day(&self, day: u64) -> (r: Option<LocalTime>)
        requires
            valid_time(self.start),
        ensures
            r == day_of(*self, day),
    {
        match days_later_in_zone(self.start.utc_seconds, self.zone.as_str(), day) {
            Some((utc, offset)) => Some(LocalTime { utc_seconds: utc, offset_seconds: offset }),
            None => None,
        }
    }

    /// The instant `day` days after the start, for a day within the range.
    fn date_time(&self, day: u64) -> (r: Option<LocalTime>)
        requires
            valid_time(self.start),
            valid_time(self.end),
            day <= i64::MAX,
        ensures
            r == (if whole_days(self.start.utc_seconds as int, self.end.utc_seconds as int) >= day {
                day_of(*self, day)
            } else {
                None
            }),
    {
        if self.len() >= day as i64 {
            self.get_day(day)
        } else {
            None
        }
    }

    /// Every day of the range, from the start to the end inclusive, that chrono has.
    pub fn date_times(&self) -> (r: Vec<LocalTime>)
        requires
            valid_time(self.start),
            valid_time(self.end),
        ensures
            r@ == range_days(*self),
    {
        let n = self.len();
        let mut found: Vec<Option<LocalTime>> = Vec::new();
        if n < 0 {
            return present_days(&found);
        }
        let mut k: i64 = 0;
        while k <= n
            invariant
                0 <= k <= n + 1,
                n == whole_days(self.start.utc_seconds as int, self.end.utc_seconds as int),
                n < TIME_LIMIT,
                valid_time(self.start),
                valid_time(self.end),
                found@.len() == k,
                forall|j: int| 0 <= j < k ==> #[trigger] found@[j] == day_of(*self, j as u64),
            decreases n + 1 - k,
        {
            found.push(self.date_time(k as u64));
            k = k + 1;
        }
        let r = present_days(&found);
        proof {
            lemma_present_days_of(*self, found@, (n + 1) as nat);
        }
        r
    }

    /// The date of the start on its own wall clock (days since 1970-01-01).
    pub fn start_date(&self) -> (d: i64)
        requires
            valid_time(self.start),
        ensures
            d == local_date(self.start),
    {
        let local = self.start.utc_seconds + self.start.offset_seconds as i64;
        if local >= 0 {
            local / DAY
        } else {
            -((-local + DAY - 1) / DAY)
        }
    }
}

} // verus!
