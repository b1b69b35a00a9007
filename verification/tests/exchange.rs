use rustling_chains::competition::StoredCompetitionStatus;
use rustling_chains::exchange::{
    any_competitions_running, first_exchange_window, has_exchange_begun, is_user_allowed_to_exchange,
    last_exchange_window, next_exchange_window, see_when_users_can_exchange, see_which_users_can_exchange,
    CompetitionSchedule, ExchangeWindowStatus, User, UserWithScore,
};
use rustling_chains::exchange::window_after_end;
use rustling_chains::time::{to_stockholm, LocalTime};

// 2024-03-18 00:00 UTC.
const MARCH_18: i64 = 1_710_720_000;
const HOUR: i64 = 3_600;

fn user(id: i32, name: &str, score: i32) -> UserWithScore {
    UserWithScore { user: User { id, username: name.to_string() }, score }
}

fn users() -> Vec<UserWithScore> {
    vec![user(1, "anna", 10), user(2, "bo", 5), user(3, "cia", 20)]
}

/// A finished competition that ended 2024-03-17 at 16:00 Stockholm time, and one that starts
/// ten days later.
fn comps() -> Vec<CompetitionSchedule> {
    vec![
        CompetitionSchedule {
            status: StoredCompetitionStatus::Finished,
            ended_at: Some(LocalTime { utc_seconds: MARCH_18 - 9 * HOUR, offset_seconds: 3_600 }),
            start_day: 19_795,
        },
        CompetitionSchedule { status: StoredCompetitionStatus::NotStarted, ended_at: None, start_day: 19_810 },
    ]
}

#[test]
fn stockholm_offset_follows_summer_time() {
    let winter = to_stockholm(LocalTime { utc_seconds: MARCH_18, offset_seconds: 0 });
    assert_eq!(winter.offset_seconds, 3_600);
    // 2024-07-01 12:00 UTC
    let summer = to_stockholm(LocalTime { utc_seconds: 1_719_835_200, offset_seconds: 0 });
    assert_eq!(summer.offset_seconds, 7_200);
    assert_eq!(summer.utc_seconds, 1_719_835_200);
}

#[test]
fn first_window_is_eight_the_next_morning() {
    let f = first_exchange_window(&comps()).unwrap();
    assert_eq!(f.utc_seconds, MARCH_18 + 7 * HOUR);
    assert_eq!(f.offset_seconds, 3_600);
}

#[test]
fn first_window_same_day_when_ended_at_six() {
    // Ended 2024-03-18 at 06:00 local (05:00 UTC): the window opens that same day at 08:00.
    let c = vec![CompetitionSchedule {
        status: StoredCompetitionStatus::Finished,
        ended_at: Some(LocalTime { utc_seconds: MARCH_18 + 5 * HOUR, offset_seconds: 3_600 }),
        start_day: 19_795,
    }];
    assert_eq!(first_exchange_window(&c).unwrap().utc_seconds, MARCH_18 + 7 * HOUR);
}

#[test]
fn no_window_while_running() {
    let mut c = comps();
    c[1].status = StoredCompetitionStatus::Running;
    assert!(any_competitions_running(&c));
    assert_eq!(first_exchange_window(&c), None);
    assert!(!is_user_allowed_to_exchange(&c, users(), 2, MARCH_18 + 20 * HOUR));
    assert!(!has_exchange_begun(&c, MARCH_18 + 20 * HOUR));
}

#[test]
fn windows_step_four_hours_then_to_next_morning() {
    let f = first_exchange_window(&comps()).unwrap();
    let w2 = next_exchange_window(f);
    assert_eq!(w2.utc_seconds, f.utc_seconds + 4 * HOUR);
    let w3 = next_exchange_window(w2);
    let w4 = next_exchange_window(w3);
    assert_eq!(w4.utc_seconds, f.utc_seconds + 12 * HOUR); // 20:00 local
    let w5 = next_exchange_window(w4);
    assert_eq!(w5.utc_seconds, f.utc_seconds + 24 * HOUR); // 08:00 the next day
}

#[test]
fn schedule_lets_lowest_score_in_first() {
    let s = see_when_users_can_exchange(&comps(), users());
    let ids: Vec<i32> = s.iter().map(|(u, _)| u.user.id).collect();
    assert_eq!(ids, vec![2, 1, 3]);
    let times: Vec<i64> = s.iter().map(|(_, t)| t.utc_seconds).collect();
    assert_eq!(times, vec![MARCH_18 + 7 * HOUR, MARCH_18 + 11 * HOUR, MARCH_18 + 15 * HOUR]);
}

#[test]
fn allowed_users_are_those_whose_window_opened() {
    let before = see_which_users_can_exchange(&comps(), users(), MARCH_18 + 6 * HOUR);
    assert!(before.is_empty());
    let first = see_which_users_can_exchange(&comps(), users(), MARCH_18 + 7 * HOUR);
    assert_eq!(first.iter().map(|u| u.user.id).collect::<Vec<_>>(), vec![2]);
    let two = see_which_users_can_exchange(&comps(), users(), MARCH_18 + 11 * HOUR);
    assert_eq!(two.iter().map(|u| u.user.id).collect::<Vec<_>>(), vec![2, 1]);
    let all = see_which_users_can_exchange(&comps(), users(), MARCH_18 + 30 * HOUR);
    assert_eq!(all.iter().map(|u| u.user.id).collect::<Vec<_>>(), vec![2, 1, 3]);
    assert!(is_user_allowed_to_exchange(&comps(), users(), 1, MARCH_18 + 11 * HOUR));
    assert!(!is_user_allowed_to_exchange(&comps(), users(), 3, MARCH_18 + 11 * HOUR));
}

#[test]
fn everyone_after_the_last_window() {
    let last = last_exchange_window(&comps()).unwrap();
    // 20:00 UTC the day before day 19810.
    assert_eq!(last.utc_seconds, 19_809 * 86_400 + 20 * HOUR);
    let all = see_which_users_can_exchange(&comps(), users(), last.utc_seconds + 1);
    // Everyone, in order of falling score.
    assert_eq!(all.iter().map(|u| u.user.id).collect::<Vec<_>>(), vec![3, 1, 2]);
}

#[test]
fn exchange_begins_at_the_first_window() {
    assert!(!has_exchange_begun(&comps(), MARCH_18 + 7 * HOUR));
    assert!(has_exchange_begun(&comps(), MARCH_18 + 7 * HOUR + 1));
}

#[test]
fn window_status_of_users() {
    let now = MARCH_18 + 8 * HOUR;
    match ExchangeWindowStatus::new(&comps(), &users(), 2, now) {
        ExchangeWindowStatus::AllowedToExchange => {}
        _ => panic!("the lowest score may exchange"),
    }
    match ExchangeWindowStatus::new(&comps(), &users(), 3, now) {
        ExchangeWindowStatus::AllowedToReorder { window_opens_at } => {
            assert_eq!(window_opens_at.utc_seconds, MARCH_18 + 15 * HOUR)
        }
        _ => panic!("the highest score waits"),
    }
    let mut running = comps();
    running[0].status = StoredCompetitionStatus::Running;
    match ExchangeWindowStatus::new(&running, &users(), 3, now) {
        ExchangeWindowStatus::Closed => {}
        _ => panic!("closed while a competition runs"),
    }
}

#[test]
fn sort_by_score_falls_and_keeps_ties_in_order() {
    let sorted = rustling_chains::exchange::sort_by_score(vec![
        user(1, "a", 5),
        user(2, "b", 9),
        user(3, "c", 5),
        user(4, "d", -2),
        user(5, "e", 9),
    ]);
    assert_eq!(sorted.iter().map(|u| u.user.id).collect::<Vec<_>>(), vec![2, 5, 1, 3, 4]);
}

#[test]
fn window_after_end_for_a_given_offset() {
    let end = LocalTime { utc_seconds: MARCH_18 - 9 * HOUR, offset_seconds: 3_600 };
    assert_eq!(window_after_end(end, 3_600), LocalTime { utc_seconds: MARCH_18 + 7 * HOUR, offset_seconds: 3_600 });
    assert_eq!(window_after_end(end, 7_200), LocalTime { utc_seconds: MARCH_18 + 6 * HOUR, offset_seconds: 7_200 });
    // Ended at 06:00 on its own clock: the window is the same day.
    let early = LocalTime { utc_seconds: MARCH_18 + 5 * HOUR, offset_seconds: 3_600 };
    assert_eq!(window_after_end(early, 3_600).utc_seconds, MARCH_18 + 7 * HOUR);
}
