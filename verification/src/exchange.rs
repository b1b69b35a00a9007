use vstd::prelude::*;
use crate::competition::StoredCompetitionStatus;
use crate::sorting::{Keyed, lemma_sorted_len, sort_desc_by_key, sorted_desc};
use crate::time::{
    DAY, HOUR, LocalTime, TIME_LIMIT, at_hour, hour_of, in_stockholm, second_of_day, shifted, to_stockholm,
    utc_midnight, valid_time,
};

verus! {

/// What the exchange windows need to know of a competition of a tournament: its stored
/// status, when it ended (if it did) and the day it starts (days since 1970-01-01).
#[derive(Clone, Copy, Debug, PartialEq, Eq, Structural)]
pub struct CompetitionSchedule {
    pub status: StoredCompetitionStatus,
    pub ended_at: Option<LocalTime>,
    pub start_day: i64,
}

/// A user of the service.
pub struct User {
    pub id: i32,
    pub username: String,
}

/// A participant of a tournament with the total of their scores.
pub struct UserWithScore {
    pub user: User,
    pub score: i32,
}

/// The bound on ending instants and start days that the windows handle: roughly 15,000 years
/// either side of 1970, which leaves room for a window to be scheduled for each of millions
/// of users.
pub open spec fn schedule_inputs_valid(comps: Seq<CompetitionSchedule>) -> bool {
    forall|i: int|
        0 <= i < comps.len() ==> {
            let c = #[trigger] comps[i];
            &&& -(TIME_LIMIT / 2) <= c.start_day * DAY <= TIME_LIMIT / 2
            &&& match c.ended_at {
                Some(t) => valid_time(t) && -(TIME_LIMIT / 2) <= t.utc_seconds <= TIME_LIMIT / 2,
                None => true,
            }
        }
}

pub open spec fn any_running(comps: Seq<CompetitionSchedule>) -> bool {
    exists|i: int| 0 <= i < comps.len() && (#[trigger] comps[i]).status == StoredCompetitionStatus::Running
}

/// The latest ending instant among the competitions (the last of equal ones).
pub open spec fn latest_end(comps: Seq<CompetitionSchedule>) -> Option<LocalTime>
    decreases comps.len(),
{
    if comps.len() == 0 {
        None
    } else {
        let rest = latest_end(comps.drop_last());
        match comps.last().ended_at {
            None => rest,
            Some(t) => match rest {
                None => Some(t),
                Some(m) => if t.utc_seconds >= m.utc_seconds {
                    Some(t)
                } else {
                    Some(m)
                },
            },
        }
    }
}

/// The first exchange window: none while a competition runs or before any has ended;
/// otherwise 08:00 Stockholm time on the day after the last competition ended, or on that
/// same day when it ended at hour 6 (in its own offset), which marks an end forced by the
/// clock.
pub open spec fn first_window(comps: Seq<CompetitionSchedule>) -> Option<LocalTime> {
    if any_running(comps) {
        None
    } else {
        match latest_end(comps) {
            None => None,
            Some(e) => {
                let days = if hour_of(e) != 6 { 1int } else { 0int };
                Some(at_hour(shifted(in_stockholm(e), days * DAY), 8))
            },
        }
    }
}

/// The window after a window: the next day at 08:00 after an evening window (hour 20), four
/// hours later otherwise.
pub open spec fn next_window(t: LocalTime) -> LocalTime {
    if hour_of(t) == 20 {
        at_hour(shifted(t, DAY as int), 8)
    } else {
        shifted(t, 4 * HOUR)
    }
}

/// The window `n` steps after `first`.
pub open spec fn nth_window(first: LocalTime, n: nat) -> LocalTime
    decreases n,
{
    if n == 0 {
        first
    } else {
        next_window(nth_window(first, (n - 1) as nat))
    }
}

/// The day on which the next competition that has not started begins (the first of equal
/// ones).
pub open spec fn next_start_day(comps: Seq<CompetitionSchedule>) -> Option<i64>
    decreases comps.len(),
{
    if comps.len() == 0 {
        None
    } else {
        let rest = next_start_day(comps.drop_last());
        let c = comps.last();
        if c.status == StoredCompetitionStatus::NotStarted {
            match rest {
                None => Some(c.start_day),
                Some(d) => if c.start_day < d {
                    Some(c.start_day)
                } else {
                    Some(d)
                },
            }
        } else {
            rest
        }
    }
}

/// After the last window everyone may exchange: 20:00 UTC the day before the next competition
/// starts.
pub open spec fn last_window(comps: Seq<CompetitionSchedule>) -> Option<LocalTime> {
    match next_start_day(comps) {
        None => None,
        Some(d) => Some(at_hour(shifted(utc_midnight(d as int), -DAY), 20)),
    }
}

proof fn lemma_mod_shift(x: int)
    ensures
        (x + DAY) % (DAY as int) == x % (DAY as int),
        (x + 4 * HOUR) % (DAY as int) == if x % (DAY as int) + 4 * HOUR < DAY {
            x % (DAY as int) + 4 * HOUR
        } else {
            x % (DAY as int) + 4 * HOUR - DAY
        },
{
    assert((x + DAY) % (DAY as int) == x % (DAY as int)) by (nonlinear_arith);
    assert((x + 4 * HOUR) % (DAY as int) == if x % (DAY as int) + 4 * HOUR < DAY {
        x % (DAY as int) + 4 * HOUR
    } else {
        x % (DAY as int) + 4 * HOUR - DAY
    }) by (nonlinear_arith);
}

/// A window follows its predecessor by at least four hours and at most a day and a half.
proof fn lemma_next_window_step(t: LocalTime)
    requires
        -DAY < t.offset_seconds < DAY,
        -TIME_LIMIT <= t.utc_seconds <= TIME_LIMIT,
    ensures
        t.utc_seconds + 4 * HOUR <= next_window(t).utc_seconds <= t.utc_seconds + 2 * DAY,
        next_window(t).offset_seconds == t.offset_seconds,
{
    let x = t.utc_seconds + t.offset_seconds;
    lemma_mod_shift(x);
    assert(0 <= x % (DAY as int) < DAY) by (nonlinear_arith);
}

pub open spec fn windows_open_fuel(first: LocalTime, now: i64) -> nat {
    if now < first.utc_seconds {
        0
    } else {
        ((now - first.utc_seconds) / (4 * HOUR) + 1) as nat
    }
}

/// How many windows, from `first` on, have opened by `now`.
pub open spec fn windows_open(first: LocalTime, now: i64, fuel: nat) -> nat
    decreases fuel,
{
    if fuel == 0 || now < first.utc_seconds {
        0
    } else {
        1 + windows_open(next_window(first), now, (fuel - 1) as nat)
    }
}

} // verus!

verus! {

/// The participants in order of falling score, equal scores in the order they came in.
pub open spec fn sorted_users(users: Seq<UserWithScore>) -> Seq<UserWithScore> {
    sorted_desc(users)
}

impl Keyed for UserWithScore {
    open spec fn key_of(&self) -> i128 {
        self.score as i128
    }

    fn key(&self) -> (k: i128) {
        self.score as i128
    }
}

/// Sorts participants by falling score; participants with equal scores keep their order.
pub fn sort_by_score(users: Vec<UserWithScore>) -> (r: Vec<UserWithScore>)
    ensures
        r@ == sorted_users(users@),
{
    sort_desc_by_key(users)
}

} // verus!

verus! {

/// Whether any competition of the tournament is running.
pub fn any_competitions_running(comps: &Vec<CompetitionSchedule>) -> (r: bool)
    ensures
        r == any_running(comps@),
{
    let mut i: usize = 0;
    while i < comps.len()
        invariant
            i <= comps.len(),
            forall|j: int| 0 <= j < i ==> (#[trigger] comps@[j]).status != StoredCompetitionStatus::Running,
        decreases comps.len() - i,
    {
        if comps[i].status == StoredCompetitionStatus::Running {
            return true;
        }
        i = i + 1;
    }
    false
}

proof fn lemma_latest_end_bounds(comps: Seq<CompetitionSchedule>)
    requires
        schedule_inputs_valid(comps),
    ensures
        latest_end(comps) matches Some(t) ==> valid_time(t) && -(TIME_LIMIT / 2) <= t.utc_seconds <= TIME_LIMIT / 2,
    decreases comps.len(),
{
    if comps.len() > 0 {
        let prev = comps.drop_last();
        assert forall|i: int| 0 <= i < prev.len() implies #[trigger] prev[i] == comps[i] by {}
        assert(schedule_inputs_valid(prev)) by {
            assert forall|i: int| 0 <= i < prev.len() implies {
                let c = #[trigger] prev[i];
                &&& -(TIME_LIMIT / 2) <= c.start_day * DAY <= TIME_LIMIT / 2
                &&& match c.ended_at {
                    Some(t) => valid_time(t) && -(TIME_LIMIT / 2) <= t.utc_seconds <= TIME_LIMIT / 2,
                    None => true,
                }
            } by {
                assert(prev[i] == comps[i]);
            }
        }
        lemma_latest_end_bounds(prev);
        let last = comps[comps.len() - 1];
        assert(last == comps.last());
    }
}

/// The end that the first window is built from is the latest end: there is one exactly when
/// some competition has ended, it is the end of one of the competitions, and no competition
/// ended later.
pub proof fn law_latest_end_is_latest(comps: Seq<CompetitionSchedule>)
    ensures
        latest_end(comps) is Some <==> exists|i: int|
            0 <= i < comps.len() && (#[trigger] comps[i]).ended_at is Some,
        latest_end(comps) matches Some(t) ==> exists|i: int|
            0 <= i < comps.len() && (#[trigger] comps[i]).ended_at == Some(t),
        latest_end(comps) matches Some(t) ==> forall|i: int|
            0 <= i < comps.len() && (#[trigger] comps[i]).ended_at is Some
                ==> comps[i].ended_at->0.utc_seconds <= t.utc_seconds,
    decreases comps.len(),
{
    if comps.len() > 0 {
        let prev = comps.drop_last();
        let n = comps.len() - 1;
        assert forall|i: int| 0 <= i < prev.len() implies #[trigger] prev[i] == comps[i] by {}
        law_latest_end_is_latest(prev);
        assert(comps[n] == comps.last());
        if latest_end(prev) is Some {
            let w = choose|i: int| 0 <= i < prev.len() && (#[trigger] prev[i]).ended_at == latest_end(prev);
            assert(comps[w] == prev[w]);
        }
        assert forall|i: int| 0 <= i < comps.len() && (#[trigger] comps[i]).ended_at is Some
            implies latest_end(prev) is Some || i == n by {
            if i < n {
                assert(prev[i] == comps[i]);
            }
        }
        assert forall|i: int| 0 <= i < n && (#[trigger] comps[i]).ended_at is Some
            implies prev[i].ended_at is Some by {
            assert(prev[i] == comps[i]);
        }
    }
}

/// The latest ending instant among the competitions.
fn latest_end_time(comps: &Vec<CompetitionSchedule>) -> (r: Option<LocalTime>)
    ensures
        r == latest_end(comps@),
{
    let mut best: Option<LocalTime> = None;
    let mut i: usize = 0;
    while i < comps.len()
        invariant
            i <= comps.len(),
            best == latest_end(comps@.take(i as int)),
        decreases comps.len() - i,
    {
        assert(comps@.take(i + 1).drop_last() =~= comps@.take(i as int));
        match comps[i].ended_at {
            None => {},
            Some(t) => {
                match best {
                    None => best = Some(t),
                    Some(m) => {
                        if t.utc_seconds >= m.utc_seconds {
                            best = Some(t);
                        }
                    },
                }
            },
        }
        i = i + 1;
    }
    assert(comps@.take(i as int) =~= comps@);
    best
}

/// The first exchange window of a tournament, if there is one yet.
pub fn first_exchange_window(comps: &Vec<CompetitionSchedule>) -> (r: Option<LocalTime>)
    requires
        schedule_inputs_valid(comps@),
    ensures
        r == first_window(comps@),
        r matches Some(f) ==> valid_time(f) && -(TIME_LIMIT / 2) - 2 * DAY <= f.utc_seconds <= TIME_LIMIT / 2 + 2 * DAY,
{
    if any_competitions_running(comps) {
        return None;
    }
    proof {
        lemma_latest_end_bounds(comps@);
    }
    match latest_end_time(comps) {
        None => None,
        Some(end) => {
            let local = to_stockholm(end);
            Some(window_after_end(end, local.offset_seconds))
        },
    }
}

/// The first window after the last competition ended at `end`, given Stockholm's offset from
/// UTC then: 08:00 Stockholm time on the next day, or on the same day when the competition
/// ended at hour 6 in its own offset.
pub fn window_after_end(end: LocalTime, stockholm_offset: i32) -> (r: LocalTime)
    requires
        valid_time(end),
        -(TIME_LIMIT / 2) <= end.utc_seconds <= TIME_LIMIT / 2,
        -DAY < stockholm_offset < DAY,
    ensures
        r == at_hour(
            shifted(
                LocalTime { utc_seconds: end.utc_seconds, offset_seconds: stockholm_offset },
                (if hour_of(end) != 6 { 1int } else { 0int }) * DAY,
            ),
            8,
        ),
        valid_time(r),
        -(TIME_LIMIT / 2) - 2 * DAY <= r.utc_seconds <= TIME_LIMIT / 2 + 2 * DAY,
{
    let add_day = end.hour() != 6;
    let local = LocalTime { utc_seconds: end.utc_seconds, offset_seconds: stockholm_offset };
    let moved = local.plus_seconds(if add_day { DAY } else { 0 });
    proof {
        let x = moved.utc_seconds + moved.offset_seconds;
        assert(0 <= x % (DAY as int) < DAY) by (nonlinear_arith);
    }
    moved.with_hour_exact(8)
}

} // verus!

verus! {

/// The exchange window that follows a window.
pub fn next_exchange_window(t: LocalTime) -> (r: LocalTime)
    requires
        valid_time(t),
    ensures
        r == next_window(t),
        t.utc_seconds + 4 * HOUR <= r.utc_seconds <= t.utc_seconds + 2 * DAY,
        r.offset_seconds == t.offset_seconds,
{
    proof {
        lemma_next_window_step(t);
    }
    if t.hour() == 20 {
        let moved = t.plus_seconds(DAY);
        LocalTime { utc_seconds: moved.utc_seconds, offset_seconds: moved.offset_seconds }.with_hour_exact(8)
    } else {
        t.plus_seconds(4 * HOUR)
    }
}

} // verus!

verus! {

impl User {
    /// A copy of the user.
    pub fn duplicate(&self) -> (r: User)
        ensures
            r == *self,
    {
        User { id: self.id, username: self.username.clone() }
    }
}

impl UserWithScore {
    /// A copy of the participant.
    pub fn duplicate(&self) -> (r: UserWithScore)
        ensures
            r == *self,
    {
        UserWithScore { user: self.user.duplicate(), score: self.score }
    }
}

fn duplicate_all(users: &Vec<UserWithScore>) -> (r: Vec<UserWithScore>)
    ensures
        r@ == users@,
{
    let mut out: Vec<UserWithScore> = Vec::new();
    let mut i: usize = 0;
    while i < users.len()
        invariant
            i <= users.len(),
            out@ == users@.take(i as int),
        decreases users.len() - i,
    {
        out.push(users[i].duplicate());
        assert(users@.take(i + 1) =~= users@.take(i as int).push(users@[i as int]));
        i = i + 1;
    }
    assert(users@.take(i as int) =~= users@);
    out
}

fn next_start(comps: &Vec<CompetitionSchedule>) -> (r: Option<i64>)
    ensures
        r == next_start_day(comps@),
{
    let mut best: Option<i64> = None;
    let mut i: usize = 0;
    while i < comps.len()
        invariant
            i <= comps.len(),
            best == next_start_day(comps@.take(i as int)),
        decreases comps.len() - i,
    {
        assert(comps@.take(i + 1).drop_last() =~= comps@.take(i as int));
        let c = comps[i];
        if c.status == StoredCompetitionStatus::NotStarted {
            match best {
                None => best = Some(c.start_day),
                Some(d) => {
                    if c.start_day < d {
                        best = Some(c.start_day);
                    }
                },
            }
        }
        i = i + 1;
    }
    assert(comps@.take(i as int) =~= comps@);
    best
}

proof fn lemma_next_start_in(comps: Seq<CompetitionSchedule>)
    ensures
        next_start_day(comps) matches Some(d) ==> exists|i: int| 0 <= i < comps.len() && (#[trigger] comps[i]).start_day == d,
    decreases comps.len(),
{
    if comps.len() > 0 {
        lemma_next_start_in(comps.drop_last());
        if let Some(d) = next_start_day(comps) {
            if next_start_day(comps.drop_last()) == Some(d) {
                let i = choose|i: int| 0 <= i < comps.drop_last().len() && (#[trigger] comps.drop_last()[i]).start_day == d;
                assert(comps[i] == comps.drop_last()[i]);
            } else {
                assert(comps[comps.len() - 1].start_day == d);
            }
        }
    }
}

/// The time after which every participant may exchange, if a competition is still to come.
pub fn last_exchange_window(comps: &Vec<CompetitionSchedule>) -> (r: Option<LocalTime>)
    requires
        schedule_inputs_valid(comps@),
    ensures
        r == last_window(comps@),
{
    proof {
        lemma_next_start_in(comps@);
    }
    match next_start(comps) {
        None => None,
        Some(d) => {
            proof {
                let i = choose|i: int| 0 <= i < comps@.len() && (#[trigger] comps@[i]).start_day == d;
                assert(-(TIME_LIMIT / 2) <= comps@[i].start_day * DAY <= TIME_LIMIT / 2);
            }
            let midnight = LocalTime { utc_seconds: d * DAY, offset_seconds: 0 };
            let before = midnight.plus_seconds(-DAY);
            Some(before.with_hour_exact(20))
        },
    }
}

pub open spec fn lowest_first(sorted: Seq<UserWithScore>, k: int) -> Seq<UserWithScore> {
    Seq::new(k as nat, |i: int| sorted[sorted.len() - 1 - i])
}

pub open spec fn min_int(a: int, b: int) -> int {
    if a < b {
        a
    } else {
        b
    }
}

/// Whether the participants let in are those of the schedule whose windows have opened by
/// `now`: the first entries of the schedule, in its order, and no later one.
pub open spec fn follows_schedule(allowed: Seq<UserWithScore>, schedule: Seq<(UserWithScore, LocalTime)>, now: i64) -> bool {
    &&& allowed.len() <= schedule.len()
    &&& forall|k: int| 0 <= k < allowed.len() ==> #[trigger] allowed[k] == schedule[k].0 && schedule[k].1.utc_seconds <= now
    &&& forall|k: int| allowed.len() <= k < schedule.len() ==> (#[trigger] schedule[k]).1.utc_seconds > now
}

pub open spec fn opened_by(first: LocalTime, now: i64) -> nat {
    windows_open(first, now, windows_open_fuel(first, now))
}

/// The participants who may exchange at `now`. Once the last window has passed, everyone may
/// (in order of falling score). Otherwise one participant is let in per window that has
/// opened, the lowest score first.
pub open spec fn allowed_users(comps: Seq<CompetitionSchedule>, users: Seq<UserWithScore>, now: i64) -> Seq<
    UserWithScore,
> {
    let sorted = sorted_users(users);
    if last_window(comps) is Some && now > last_window(comps)->0.utc_seconds {
        sorted
    } else {
        match first_window(comps) {
            None => Seq::empty(),
            Some(f) => lowest_first(sorted, min_int(opened_by(f, now) as int, sorted.len() as int)),
        }
    }
}

proof fn lemma_nth_window(first: LocalTime, n: nat, bound: int)
    requires
        valid_time(first),
        first.utc_seconds + 2 * DAY * n <= bound,
        bound <= TIME_LIMIT,
    ensures
        first.utc_seconds + 4 * HOUR * n <= nth_window(first, n).utc_seconds <= first.utc_seconds + 2 * DAY * n,
        nth_window(first, n).offset_seconds == first.offset_seconds,
    decreases n,
{
    if n > 0 {
        let m = (n - 1) as nat;
        assert(2 * DAY * m <= 2 * DAY * n) by (nonlinear_arith)
            requires
                m <= n,
        ;
        lemma_nth_window(first, m, bound);
        lemma_next_window_step(nth_window(first, m));
        assert(4 * HOUR * n == 4 * HOUR * m + 4 * HOUR && 2 * DAY * n == 2 * DAY * m + 2 * DAY) by (nonlinear_arith)
            requires
                n == m + 1,
        ;
    }
}

/// The window `i + 1` steps after `t` is the window `i` steps after the one following `t`.
proof fn lemma_nth_shift(t: LocalTime, i: nat)
    ensures
        nth_window(t, i + 1) == nth_window(next_window(t), i),
    decreases i,
{
    assert(nth_window(t, i + 1) == next_window(nth_window(t, i)));
    if i > 0 {
        lemma_nth_shift(t, (i - 1) as nat);
        assert(nth_window(next_window(t), i) == next_window(nth_window(next_window(t), (i - 1) as nat)));
    } else {
        assert(nth_window(t, 0) == t);
        assert(nth_window(next_window(t), 0) == next_window(t));
    }
}

/// Counting the windows from `t` that have opened by `now`: each counted one opened by then,
/// and the next one had not.
proof fn lemma_windows_open_count(t: LocalTime, now: i64, fuel: nat)
    requires
        -DAY < t.offset_seconds < DAY,
        -TIME_LIMIT <= t.utc_seconds,
        -TIME_LIMIT <= now <= TIME_LIMIT,
        fuel >= windows_open_fuel(t, now),
    ensures
        forall|i: nat| i < windows_open(t, now, fuel) ==> (#[trigger] nth_window(t, i)).utc_seconds <= now,
        nth_window(t, windows_open(t, now, fuel)).utc_seconds > now,
    decreases fuel,
{
    if now >= t.utc_seconds {
        assert(fuel >= 1) by (nonlinear_arith)
            requires
                fuel >= (now - t.utc_seconds) / (4 * HOUR) + 1,
                now >= t.utc_seconds,
        ;
        lemma_next_window_step(t);
        let n = next_window(t);
        let f1 = (fuel - 1) as nat;
        if now >= n.utc_seconds {
            assert(f1 >= windows_open_fuel(n, now)) by (nonlinear_arith)
                requires
                    fuel >= (now - t.utc_seconds) / (4 * HOUR) + 1,
                    f1 == fuel - 1,
                    n.utc_seconds >= t.utc_seconds + 4 * HOUR,
                    now >= n.utc_seconds,
                    windows_open_fuel(n, now) == (now - n.utc_seconds) / (4 * HOUR) + 1,
            ;
        }
        lemma_windows_open_count(n, now, f1);
        let c = windows_open(t, now, fuel);
        assert(c == 1 + windows_open(n, now, f1));
        lemma_nth_shift(t, (c - 1) as nat);
        assert forall|i: nat| i < c implies (#[trigger] nth_window(t, i)).utc_seconds <= now by {
            if i > 0 {
                lemma_nth_shift(t, (i - 1) as nat);
            }
        }
    }
}

/// Windows never come earlier than those before them, within the handled range.
proof fn lemma_nth_monotone(f: LocalTime, j: nat, k: nat)
    requires
        valid_time(f),
        j <= k,
        f.utc_seconds + 2 * DAY * k <= TIME_LIMIT,
    ensures
        nth_window(f, j).utc_seconds <= nth_window(f, k).utc_seconds,
    decreases k,
{
    if j < k {
        let m = (k - 1) as nat;
        assert(2 * DAY * m <= 2 * DAY * k) by (nonlinear_arith)
            requires
                m <= k,
        ;
        lemma_nth_monotone(f, j, m);
        lemma_nth_window(f, m, TIME_LIMIT as int);
        lemma_next_window_step(nth_window(f, m));
    }
}

/// Each exchange window opens at least four hours after the one before it, and at most two
/// days after.
pub proof fn law_windows_at_least_four_hours_apart(first: LocalTime, n: nat)
    requires
        valid_time(first),
        first.utc_seconds + 2 * DAY * (n + 1) <= TIME_LIMIT,
    ensures
        nth_window(first, n).utc_seconds + 4 * HOUR <= nth_window(first, n + 1).utc_seconds,
        nth_window(first, n + 1).utc_seconds <= nth_window(first, n).utc_seconds + 2 * DAY,
{
    assert(first.utc_seconds + 2 * DAY * n <= TIME_LIMIT) by (nonlinear_arith)
        requires
            first.utc_seconds + 2 * DAY * (n + 1) <= TIME_LIMIT,
    ;
    lemma_nth_window(first, n, TIME_LIMIT as int);
    lemma_next_window_step(nth_window(first, n));
}

/// Before the last window, the participants let in are exactly those whose windows in the
/// schedule have opened: a prefix of the schedule, lowest score first.
proof fn lemma_allowed_follow_schedule(comps: Seq<CompetitionSchedule>, users: Seq<UserWithScore>, now: i64)
    requires
        first_window(comps) matches Some(f) ==> valid_time(f) && -(TIME_LIMIT / 2) - 2 * DAY <= f.utc_seconds
            <= TIME_LIMIT / 2 + 2 * DAY,
        -TIME_LIMIT <= now <= TIME_LIMIT,
        users.len() <= 1_000_000,
        !(last_window(comps) is Some && now > last_window(comps)->0.utc_seconds),
    ensures
        follows_schedule(allowed_users(comps, users, now), exchange_schedule(comps, users), now),
{
    lemma_sorted_len(users);
    let sorted = sorted_users(users);
    let n = sorted.len();
    if let Some(f) = first_window(comps) {
        let c = opened_by(f, now);
        lemma_windows_open_count(f, now, windows_open_fuel(f, now));
        let allowed = allowed_users(comps, users, now);
        let sched = exchange_schedule(comps, users);
        assert forall|k: int| min_int(c as int, n as int) <= k < n implies (#[trigger] sched[k]).1.utc_seconds
            > now by {
            assert(f.utc_seconds + 2 * DAY * k <= TIME_LIMIT) by (nonlinear_arith)
                requires
                    k < 1_000_000,
                    f.utc_seconds <= TIME_LIMIT / 2 + 2 * DAY,
            ;
            lemma_nth_monotone(f, c, k as nat);
        }
        assert forall|k: int| 0 <= k < allowed.len() implies #[trigger] allowed[k] == sched[k].0
            && sched[k].1.utc_seconds <= now by {
            assert(nth_window(f, k as nat).utc_seconds <= now);
        }
    }
}

/// The participants who may exchange at `now`, given the tournament's competitions and its
/// participants with their scores.
pub fn see_which_users_can_exchange(comps: &Vec<CompetitionSchedule>, users: Vec<UserWithScore>, now: i64) -> (r: Vec<
    UserWithScore,
>)
    requires
        schedule_inputs_valid(comps@),
        -TIME_LIMIT <= now <= TIME_LIMIT,
    ensures
        r@ == allowed_users(comps@, users@, now),
        users@.len() <= 1_000_000 && !(last_window(comps@) is Some && now > last_window(comps@)->0.utc_seconds)
            ==> follows_schedule(r@, exchange_schedule(comps@, users@), now),
{
    let first = first_exchange_window(comps);
    proof {
        if users@.len() <= 1_000_000 && !(last_window(comps@) is Some && now > last_window(comps@)->0.utc_seconds) {
            lemma_allowed_follow_schedule(comps@, users@, now);
        }
    }
    let ghost all = users@;
    let mut sorted = sort_by_score(users);
    let ghost ordered = sorted@;
    let last = last_exchange_window(comps);
    if let Some(l) = last {
        if now > l.utc_seconds {
            return sorted;
        }
    }
    let mut allowed: Vec<UserWithScore> = Vec::new();
    match first {
        None => allowed,
        Some(f) => {
            let ghost fuel = windows_open_fuel(f, now);
            let ghost n = ordered.len();
            let mut t = f;
            let ghost mut j: nat = 0;
            while !(now < t.utc_seconds)
                invariant
                    valid_time(f),
                    -(TIME_LIMIT / 2) - 2 * DAY <= f.utc_seconds <= TIME_LIMIT / 2 + 2 * DAY,
                    -TIME_LIMIT <= now <= TIME_LIMIT,
                    t == nth_window(f, j),
                    f.utc_seconds + 4 * HOUR * j <= t.utc_seconds,
                    t.utc_seconds <= now + 2 * DAY || (j == 0 && t == f),
                    t.offset_seconds == f.offset_seconds,
                    opened_by(f, now) == j + windows_open(t, now, (fuel - j) as nat),
                    fuel == windows_open_fuel(f, now),
                    j <= fuel,
                    ordered.len() == n,
                    allowed@ == lowest_first(ordered, min_int(j as int, n as int)),
                    sorted@ == ordered.take(n - min_int(j as int, n as int)),
                decreases now + 2 * DAY - t.utc_seconds,
            {
                assert(j < fuel) by (nonlinear_arith)
                    requires
                        f.utc_seconds + 4 * HOUR * j <= t.utc_seconds,
                        t.utc_seconds <= now,
                        fuel == (now - f.utc_seconds) / (4 * HOUR) + 1,
                ;
                assert(windows_open(t, now, (fuel - j) as nat) == 1 + windows_open(next_window(t), now, (fuel - j - 1) as nat));
                let ghost before = allowed@;
                match sorted.pop() {
                    Some(u) => {
                        allowed.push(u);
                        assert(allowed@ =~= lowest_first(ordered, min_int(j as int + 1, n as int)));
                    },
                    None => {
                        assert(allowed@ =~= lowest_first(ordered, min_int(j as int + 1, n as int)));
                    },
                }
                assert(sorted@ =~= ordered.take(n - min_int(j as int + 1, n as int)));
                t = next_exchange_window(t);
                proof {
                    assert(4 * HOUR * (j + 1) == 4 * HOUR * j + 4 * HOUR) by (nonlinear_arith);
                    j = j + 1;
                }
            }
            assert(windows_open(t, now, (fuel - j) as nat) == 0);
            allowed
        },
    }
}

} // verus!

verus! {

/// When each participant's window opens: one window each, the lowest score first, from the
/// first window on. Empty while there is no first window.
pub open spec fn exchange_schedule(comps: Seq<CompetitionSchedule>, users: Seq<UserWithScore>) -> Seq<
    (UserWithScore, LocalTime),
> {
    let sorted = sorted_users(users);
    match first_window(comps) {
        None => Seq::empty(),
        Some(f) => Seq::new(sorted.len(), |i: int| (sorted[sorted.len() - 1 - i], nth_window(f, i as nat))),
    }
}

/// When each participant of a tournament may exchange.
pub fn see_when_users_can_exchange(comps: &Vec<CompetitionSchedule>, users: Vec<UserWithScore>) -> (r: Vec<
    (UserWithScore, LocalTime),
>)
    requires
        schedule_inputs_valid(comps@),
        users@.len() <= 1_000_000,
    ensures
        r@ == exchange_schedule(comps@, users@),
{
    let first = first_exchange_window(comps);
    let ghost all = users@;
    proof {
        lemma_sorted_len(all);
    }
    let mut sorted = sort_by_score(users);
    let ghost ordered = sorted@;
    let ghost n = ordered.len();
    let mut out: Vec<(UserWithScore, LocalTime)> = Vec::new();
    match first {
        None => out,
        Some(f) => {
            let mut t = f;
            let mut i: usize = 0;
            while sorted.len() > 0
                invariant
                    valid_time(f),
                    -(TIME_LIMIT / 2) - 2 * DAY <= f.utc_seconds <= TIME_LIMIT / 2 + 2 * DAY,
                    n == ordered.len(),
                    n <= 1_000_000,
                    i + sorted@.len() == n,
                    sorted@ == ordered.take(n - i),
                    t == nth_window(f, i as nat),
                    out@ == Seq::new(i as nat, |k: int| (ordered[n - 1 - k], nth_window(f, k as nat))),
                decreases sorted@.len(),
            {
                assert(f.utc_seconds + 2 * DAY * i <= TIME_LIMIT) by (nonlinear_arith)
                    requires
                        i <= 1_000_000,
                        f.utc_seconds <= TIME_LIMIT / 2 + 2 * DAY,
                ;
                proof {
                    lemma_nth_window(f, i as nat, TIME_LIMIT as int);
                }
                let u = sorted.pop().unwrap();
                out.push((u, t));
                assert(out@ =~= Seq::new((i + 1) as nat, |k: int| (ordered[n - 1 - k], nth_window(f, k as nat))));
                assert(sorted@ =~= ordered.take(n - (i + 1)));
                t = next_exchange_window(t);
                i = i + 1;
            }
            assert(out@ =~= exchange_schedule(comps@, all));
            out
        },
    }
}

/// Whether a user may exchange now: no competition of the tournament is running and the
/// user is among those let in.
pub open spec fn user_allowed(comps: Seq<CompetitionSchedule>, users: Seq<UserWithScore>, user_id: i32, now: i64) -> bool {
    !any_running(comps) && exists|k: int|
        0 <= k < allowed_users(comps, users, now).len() && (#[trigger] allowed_users(comps, users, now)[k]).user.id
            == user_id
}

/// Whether a user may exchange players at `now`.
pub fn is_user_allowed_to_exchange(comps: &Vec<CompetitionSchedule>, users: Vec<UserWithScore>, user_id: i32, now: i64) -> (r: bool)
    requires
        schedule_inputs_valid(comps@),
        -TIME_LIMIT <= now <= TIME_LIMIT,
    ensures
        r == user_allowed(comps@, users@, user_id, now),
        any_running(comps@) ==> !r,
{
    let ghost us = users@;
    let allowed = see_which_users_can_exchange(comps, users, now);
    if any_competitions_running(comps) {
        return false;
    }
    let mut i: usize = 0;
    while i < allowed.len()
        invariant
            i <= allowed.len(),
            !any_running(comps@),
            allowed@ == allowed_users(comps@, us, now),
            us == users@,
            forall|k: int| 0 <= k < i ==> (#[trigger] allowed@[k]).user.id != user_id,
        decreases allowed.len() - i,
    {
        if allowed[i].user.id == user_id {
            assert(allowed_users(comps@, us, now)[i as int].user.id == user_id);
            assert(user_allowed(comps@, us, user_id, now));
            return true;
        }
        i = i + 1;
    }
    false
}

/// Whether the first exchange window has opened before `now`.
pub fn has_exchange_begun(comps: &Vec<CompetitionSchedule>, now: i64) -> (r: bool)
    requires
        schedule_inputs_valid(comps@),
    ensures
        r == (first_window(comps@) matches Some(f) && f.utc_seconds < now),
{
    match first_exchange_window(comps) {
        Some(f) => f.utc_seconds < now,
        None => false,
    }
}

/// What a user may do with their picks.
pub enum ExchangeWindowStatus {
    AllowedToExchange,
    AllowedToReorder { window_opens_at: LocalTime },
    Closed,
}

/// The position of the first entry of the schedule for a user, or its length.
pub open spec fn schedule_position(schedule: Seq<(UserWithScore, LocalTime)>, user_id: i32) -> int
    decreases schedule.len(),
{
    if schedule.len() == 0 {
        0
    } else if schedule[0].0.user.id == user_id {
        0
    } else {
        1 + schedule_position(schedule.drop_first(), user_id)
    }
}

proof fn lemma_schedule_position(schedule: Seq<(UserWithScore, LocalTime)>, user_id: i32)
    ensures
        0 <= schedule_position(schedule, user_id) <= schedule.len(),
        schedule_position(schedule, user_id) < schedule.len() ==> schedule[schedule_position(schedule, user_id)].0.user.id
            == user_id,
        forall|j: int| 0 <= j < schedule_position(schedule, user_id) ==> (#[trigger] schedule[j]).0.user.id != user_id,
    decreases schedule.len(),
{
    if schedule.len() > 0 && schedule[0].0.user.id != user_id {
        lemma_schedule_position(schedule.drop_first(), user_id);
        assert forall|j: int| 0 <= j < schedule_position(schedule, user_id) implies (#[trigger] schedule[j]).0.user.id
            != user_id by {
            if j > 0 {
                assert(schedule[j] == schedule.drop_first()[j - 1]);
            }
        }
    }
}

/// The window status of a user: allowed to exchange inside their window; allowed to reorder,
/// with the time their window opens, while no competition runs; closed otherwise.
pub open spec fn window_status_of(
    comps: Seq<CompetitionSchedule>,
    users: Seq<UserWithScore>,
    user_id: i32,
    now: i64,
) -> ExchangeWindowStatus {
    if user_allowed(comps, users, user_id, now) {
        ExchangeWindowStatus::AllowedToExchange
    } else if !any_running(comps) {
        let schedule = exchange_schedule(comps, users);
        ExchangeWindowStatus::AllowedToReorder {
            window_opens_at: schedule[schedule_position(schedule, user_id)].1,
        }
    } else {
        ExchangeWindowStatus::Closed
    }
}

impl ExchangeWindowStatus {
    /// The window status of a user of a tournament at `now`. A user who may neither exchange
    /// nor wait for a window (no competition runs) must have a place in the schedule.
    pub fn new(comps: &Vec<CompetitionSchedule>, users: &Vec<UserWithScore>, user_id: i32, now: i64) -> (r: ExchangeWindowStatus)
        requires
            schedule_inputs_valid(comps@),
            -TIME_LIMIT <= now <= TIME_LIMIT,
            users@.len() <= 1_000_000,
            !user_allowed(comps@, users@, user_id, now) && !any_running(comps@) ==> schedule_position(
                exchange_schedule(comps@, users@),
                user_id,
            ) < exchange_schedule(comps@, users@).len(),
        ensures
            r == window_status_of(comps@, users@, user_id, now),
    {
        if is_user_allowed_to_exchange(comps, duplicate_all(users), user_id, now) {
            ExchangeWindowStatus::AllowedToExchange
        } else if !any_competitions_running(comps) {
            let schedule = see_when_users_can_exchange(comps, duplicate_all(users));
            let ghost sch = schedule@;
            proof {
                lemma_schedule_position(sch, user_id);
            }
            let mut i: usize = 0;
            while i < schedule.len()
                invariant
                    i <= schedule.len(),
                    sch == schedule@,
                    sch == exchange_schedule(comps@, users@),
                    !user_allowed(comps@, users@, user_id, now),
                    !any_running(comps@),
                    forall|j: int| 0 <= j < i ==> (#[trigger] sch[j]).0.user.id != user_id,
                    0 <= schedule_position(sch, user_id) < sch.len(),
                    sch[schedule_position(sch, user_id)].0.user.id == user_id,
                    forall|j: int| 0 <= j < schedule_position(sch, user_id) ==> (#[trigger] sch[j]).0.user.id != user_id,
                decreases schedule.len() - i,
            {
                if schedule[i].0.user.id == user_id {
                    assert(sch[i as int].0.user.id == user_id);
                    let ghost p = schedule_position(sch, user_id);
                    assert(!(p < i)) by {
                        if p < i {
                            assert(sch[p].0.user.id != user_id);
                        }
                    }
                    assert(!(p > i)) by {
                        if p > i {
                            assert(sch[i as int].0.user.id != user_id);
                        }
                    }
                    return ExchangeWindowStatus::AllowedToReorder { window_opens_at: schedule[i].1 };
                }
                i = i + 1;
            }
            assert(false);
            ExchangeWindowStatus::Closed
        } else {
            ExchangeWindowStatus::Closed
        }
    }
}

} // verus!
