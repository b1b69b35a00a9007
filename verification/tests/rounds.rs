use rustling_chains::competition::{
    competition_divisions, round_date, sorted_round_labels, ApiRoundLabelInfo, CompetitionInfo, CompetitionStatus,
    StoredCompetitionStatus,
};
use rustling_chains::division::{CompetitionLevel, Division};
use rustling_chains::error::GenericError;
use rustling_chains::round::{
    bool_from_int, count_ties, course_length, fix_length, flexible_number, parse_hole_scores, ApiPlayer, ApiScalar,
    Hole, Layout, PlayerScore, PlayerStatus, RoundFromApi, RoundInformation, RoundLabel, RoundLabelInfo,
    RoundScoreRecord, RoundStatus, RoundType, Unit,
};
use rustling_chains::scoring::Tied;
use rustling_chains::dates::DateRange;
use rustling_chains::time::LocalTime;

fn api_player(pdga: u32, place: u16, started: bool, finished: bool, throws: u8) -> ApiPlayer {
    ApiPlayer {
        pdga_number: pdga,
        first_name: "Paul".to_string(),
        last_name: "McBeth".to_string(),
        name: "Paul McBeth".to_string(),
        avatar: Some("/files/a.jpg".to_string()),
        division: Division::MPO,
        round_to_par: -5,
        player_started_round: started,
        player_finished_round: finished,
        running_place: Some(place),
        throws,
        hole_scores: vec!["3".to_string(), "x".to_string(), "+4".to_string(), "300".to_string()],
    }
}

fn layout() -> Layout {
    Layout {
        holes: vec![
            Hole { par: 3, hole_number: 1, length: Some(1000) },
            Hole { par: 4, hole_number: 2, length: None },
        ],
        length: Some(10_000),
        unit: Some(Unit::Feet),
    }
}

#[test]
fn feet_become_meters() {
    // 1000 ft = 304.8 m, rounded to 305.
    assert_eq!(fix_length(Some(1000), Some(Unit::Feet)), Some(305));
    assert_eq!(fix_length(Some(1000), Some(Unit::Meters)), Some(1000));
    assert_eq!(fix_length(None, Some(Unit::Feet)), None);
    // 10,000 ft = 3048 m.
    assert_eq!(course_length(Some(10_000), Some(Unit::Feet)), 3048);
    assert_eq!(course_length(None, Some(Unit::Feet)), 0);
}

#[test]
fn hole_scores_that_are_not_bytes_drop() {
    let texts = vec!["3".to_string(), "x".to_string(), "+4".to_string(), "300".to_string(), "".to_string()];
    assert_eq!(parse_hole_scores(&texts), vec![3, 4]);
}

#[test]
fn lenient_numbers_and_flags() {
    assert_eq!(flexible_number(&ApiScalar::Unsigned(54)), 54);
    assert_eq!(flexible_number(&ApiScalar::Unsigned(999)), 255);
    assert_eq!(flexible_number(&ApiScalar::Signed(-3)), 255);
    assert_eq!(flexible_number(&ApiScalar::Text("61".to_string())), 61);
    assert_eq!(flexible_number(&ApiScalar::Text("DNF".to_string())), 255);
    assert_eq!(bool_from_int(&ApiScalar::Unsigned(1)), Some(true));
    assert_eq!(bool_from_int(&ApiScalar::Unsigned(0)), Some(false));
    assert_eq!(bool_from_int(&ApiScalar::Signed(-1)), Some(false));
    assert_eq!(bool_from_int(&ApiScalar::Text("1".to_string())), None);
}

#[test]
fn player_status_from_flags() {
    assert_eq!(PlayerStatus::from_api(&api_player(1, 1, true, true, 50)), PlayerStatus::Finished);
    assert_eq!(PlayerStatus::from_api(&api_player(1, 1, true, false, 50)), PlayerStatus::Started);
    assert_eq!(PlayerStatus::from_api(&api_player(1, 1, false, true, 50)), PlayerStatus::DidNotFinish);
    assert_eq!(PlayerStatus::from_api(&api_player(1, 1, false, false, 255)), PlayerStatus::DidNotFinish);
    assert_eq!(PlayerStatus::from_api(&api_player(1, 1, false, false, 0)), PlayerStatus::Pending);
    assert!(PlayerStatus::Pending.is_troubled());
    assert!(PlayerStatus::DidNotStart.is_troubled());
    assert!(!PlayerStatus::Started.is_troubled());
}

#[test]
fn score_of_a_reported_line() {
    let p = PlayerScore::from_api(&api_player(27523, 2, true, true, 50), Tied::NotTied);
    assert_eq!(p.pdga_number, 27523);
    assert_eq!(p.placement, 2);
    assert_eq!(p.hole_scores, vec![3, 4]);
    assert_eq!(p.avatar, Some("https://www.pdga.com/files/a.jpg".to_string()));
    assert_eq!(p.started, PlayerStatus::Finished);
    assert_eq!(p.get_user_score(CompetitionLevel::Major), 170);
}

#[test]
fn ties_count_others_at_the_same_place() {
    let all = vec![api_player(1, 3, true, true, 50), api_player(2, 3, true, true, 50), api_player(3, 4, true, true, 51)];
    assert_eq!(count_ties(&all[0], &all), Tied::Tied(1));
    assert_eq!(count_ties(&all[2], &all), Tied::NotTied);
}

#[test]
fn round_labels_from_text() {
    assert_eq!(RoundLabel::from_text("Round 2", 2), RoundLabel::Round(2));
    assert_eq!(RoundLabel::from_text("ROUND", 1), RoundLabel::Round(1));
    assert_eq!(RoundLabel::from_text("Finals", 4), RoundLabel::Final);
    assert_eq!(RoundLabel::from_text("final", 4), RoundLabel::Final);
    assert_eq!(RoundLabel::from_text("Playoffs", 5), RoundLabel::Playoff);
    assert_eq!(RoundLabel::from_text("Semifinal", 3), RoundLabel::Other);
    assert_eq!(RoundLabel::from_round_type(RoundType::Round), RoundLabel::Other);
    assert_eq!(RoundLabel::from_round_type(RoundType::Final), RoundLabel::Final);
}

#[test]
fn round_numbers_from_labels() {
    let fin = RoundLabelInfo { round_number: 9, label: RoundLabel::Final };
    let play = RoundLabelInfo { round_number: 9, label: RoundLabel::Playoff };
    let num = RoundLabelInfo { round_number: 9, label: RoundLabel::Round(2) };
    let other = RoundLabelInfo { round_number: 3, label: RoundLabel::Other };
    assert_eq!(fin.get_round_number_from_label(4), 4);
    assert_eq!(play.get_round_number_from_label(4), 3);
    assert_eq!(num.get_round_number_from_label(4), 2);
    assert_eq!(other.get_round_number_from_label(4), 3);
    assert_eq!(play.round_type(), RoundType::Playoff);
}

#[test]
fn round_from_fetched_divisions() {
    let label = RoundLabelInfo { round_number: 1, label: RoundLabel::Round(1) };
    let div = RoundFromApi {
        layouts: vec![layout()],
        scores: vec![api_player(1, 1, true, true, 50), api_player(2, 2, true, false, 30)],
        div: Division::MPO,
    };
    let round = RoundInformation::new(vec![Ok(div), Err(GenericError::PdgaGaveUp("x"))], 77, label, 3).unwrap();
    assert_eq!(round.holes.len(), 2);
    assert_eq!(round.holes[0].length, Some(305));
    assert_eq!(round.course_length, 3048);
    assert_eq!(round.players.len(), 2);
    assert_eq!(round.round_number, 1);
    assert!(!round.phantom);
    // One of two active players finished: half counts as finished.
    assert_eq!(round.status(), RoundStatus::Finished);
    let records = round.all_player_round_scores(1, 77, &Vec::new());
    assert_eq!(records.len(), 2);
    // A score already stored with the same throws and placement is not stored again.
    let unchanged = round.all_player_round_scores(1, 77, &vec![records[0]]);
    assert_eq!(unchanged.len(), 1);
    assert_eq!(unchanged[0].pdga_number, 2);
    let mut moved = records[0];
    moved.placement = 5;
    assert_eq!(round.all_player_round_scores(1, 77, &vec![moved]).len(), 2);
    let other_round = RoundScoreRecord { round: 2, ..records[0] };
    assert_eq!(round.all_player_round_scores(1, 77, &vec![other_round]).len(), 2);

    let failed = RoundInformation::new(vec![Err(GenericError::PdgaGaveUp("gave up"))], 77, label, 3);
    assert!(matches!(failed, Err(GenericError::PdgaGaveUp("gave up"))));
}

#[test]
fn phantom_rounds_are_pending() {
    let r = RoundInformation::phantom(RoundLabelInfo { round_number: 2, label: RoundLabel::Final }, 5, 3);
    assert!(r.phantom);
    assert_eq!(r.round_number, 3);
    assert_eq!(r.status(), RoundStatus::Pending);
}

#[test]
fn divisions_without_unknown_and_repeats() {
    let raw = vec![Division::MPO, Division::MPO, Division::Unknown, Division::FPO, Division::Unknown, Division::FPO, Division::MPO];
    assert_eq!(competition_divisions(&raw), vec![Division::MPO, Division::FPO, Division::MPO]);
}

#[test]
fn competition_from_listing() {
    let listing = vec![
        ApiRoundLabelInfo { round_number: 3, label: "Finals".to_string() },
        ApiRoundLabelInfo { round_number: 1, label: "Round 1".to_string() },
        ApiRoundLabelInfo { round_number: 2, label: "Round 2".to_string() },
    ];
    let labels = sorted_round_labels(&listing);
    assert_eq!(labels.iter().map(|l| l.round_number).collect::<Vec<_>>(), vec![1, 2, 3]);
    assert_eq!(labels[2].label, RoundLabel::Final);
    let comp = CompetitionInfo::from_web(
        "Open".to_string(),
        77,
        &vec![Division::MPO, Division::Unknown, Division::MPO, Division::FPO],
        labels,
        vec![None, None, None],
        Some(0),
        days(),
    );
    assert_eq!(comp.amount_of_rounds, 3);
    assert_eq!(comp.divisions, vec![Division::MPO, Division::FPO]);
    assert_eq!(comp.start_date(), 19_811);
    let dated = comp.rounds_with_dates().unwrap();
    assert_eq!(dated.iter().map(|d| d.round_number).collect::<Vec<_>>(), vec![1, 2, 3]);
    assert_eq!(dated[0].date.utc_seconds, 1_711_692_000);
    assert_eq!(dated[2].date, LocalTime { utc_seconds: 1_711_861_200, offset_seconds: 7_200 });
    let no_days = CompetitionInfo::from_web(
        "Open".to_string(),
        77,
        &vec![Division::MPO],
        vec![RoundLabelInfo { round_number: 1, label: RoundLabel::Round(1) }],
        vec![None],
        None,
        DateRange { zone: "Mars/Olympus".to_string(), ..days() },
    );
    assert!(no_days.rounds_with_dates().is_none());
    assert_eq!(comp.rounds.iter().map(|r| r.round_number).collect::<Vec<_>>(), vec![1, 2, 3]);
    assert!(comp.rounds.iter().all(|r| r.phantom));
    assert_eq!(comp.status(true), CompetitionStatus::Pending);
    assert_eq!(comp.current_round(true), 0);
    assert_eq!(StoredCompetitionStatus::from_competition_status(comp.status(true)), StoredCompetitionStatus::NotStarted);
}

#[test]
fn finished_competition() {
    let label = RoundLabelInfo { round_number: 1, label: RoundLabel::Round(1) };
    let div = RoundFromApi {
        layouts: vec![layout()],
        scores: vec![api_player(1, 1, true, true, 50)],
        div: Division::MPO,
    };
    let round = RoundInformation::new(vec![Ok(div)], 77, label, 1).unwrap();
    let comp = CompetitionInfo::from_web("Open".to_string(), 77, &vec![Division::MPO], vec![label], vec![Some(round)], None, days());
    assert_eq!(comp.status(true), CompetitionStatus::Finished);
    assert_eq!(comp.status(false), CompetitionStatus::Active(0));
    assert_eq!(comp.current_round(true), 0);
    let scores = comp.get_current_player_scores(true).unwrap();
    assert_eq!(scores.len(), 1);
    assert_eq!(scores[0].pdga_number, 1);
}

#[test]
fn round_dates_fall_back_to_the_last_day() {
    let days = vec![
        LocalTime { utc_seconds: 100, offset_seconds: 0 },
        LocalTime { utc_seconds: 200, offset_seconds: 0 },
    ];
    assert_eq!(round_date(&days, 1).utc_seconds, 100);
    assert_eq!(round_date(&days, 2).utc_seconds, 200);
    assert_eq!(round_date(&days, 5).utc_seconds, 200);
}

#[test]
fn lowercase_labels() {
    assert_eq!(RoundLabel::from_lowercase("round 3", 3), RoundLabel::Round(3));
    assert_eq!(RoundLabel::from_lowercase("Finals", 3), RoundLabel::Other);
    assert_eq!(RoundLabel::from_lowercase("playoff", 3), RoundLabel::Playoff);
}

/// 2024-03-29 07:00 to 2024-03-31 22:00 in Stockholm.
fn days() -> DateRange {
    DateRange {
        start: LocalTime { utc_seconds: 1_711_692_000, offset_seconds: 3_600 },
        end: LocalTime { utc_seconds: 1_711_915_200, offset_seconds: 7_200 },
        zone: "Europe/Stockholm".to_string(),
    }
}

#[test]
fn round_records_exactly_when_changed() {
    let started = PlayerScore::from_api(&api_player(1, 3, true, false, 40), Tied::NotTied);
    assert!(started.round_score_record(1, 77, Division::MPO, None).is_some());
    assert!(started.round_score_record(1, 77, Division::MPO, Some((40, 3))).is_none());
    assert!(started.round_score_record(1, 77, Division::MPO, Some((41, 3))).is_some());
    // A pending player's score is a record where it changed; the round leaves it out.
    let pending = PlayerScore::from_api(&api_player(2, 0, false, false, 0), Tied::NotTied);
    assert!(pending.round_score_record(1, 77, Division::MPO, None).is_some());
}

#[test]
fn player_rows_of_a_competition() {
    let label = RoundLabelInfo { round_number: 1, label: RoundLabel::Round(1) };
    let div = RoundFromApi {
        layouts: vec![layout()],
        scores: vec![api_player(1, 1, true, true, 50), api_player(2, 2, true, false, 30)],
        div: Division::FPO,
    };
    let round = RoundInformation::new(vec![Ok(div)], 77, label, 1).unwrap();
    let comp = CompetitionInfo::from_web("Open".to_string(), 77, &vec![Division::FPO], vec![label], vec![Some(round)], None, days());
    let rows = comp.player_rows();
    assert_eq!(rows.len(), 2);
    assert_eq!(rows[1].pdga_number, 2);
    assert_eq!(rows[0].first_name, "Paul");
    assert_eq!(rows[0].avatar, Some("https://www.pdga.com/files/a.jpg".to_string()));
    let divs = comp.player_division_rows(5);
    assert_eq!(divs[0].fantasy_tournament_id, 5);
    let in_comp = comp.players_in_competition();
    assert_eq!(in_comp[1].competition_id, 77);
    assert_eq!(in_comp[1].pdga_number, 2);
}
