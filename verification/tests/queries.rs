use rustling_chains::queries::{fantasy_model, insert_competition_in_fantasy, insert_in_fantasy, CompetitionAddition};
use rustling_chains::user_score::{scores_to_store, UserScore};
use rustling_chains::queries::{after_fetch, is_active_competition, registration_error, running_competition_ids, FetchStep};
use rustling_chains::queries::{get_user_pick_in_tournament, get_user_picks_in_tournament, PickWithPlayer};
use rustling_chains::competition_scores::{AttributeCompetitionScores, AttributeName, UserDataCombination};
use rustling_chains::exchange::User;
use rustling_chains::round::{PlayerInRound, RoundLineScore};
use rustling_chains::division::CompetitionLevel;
use rustling_chains::queries::{competition_write, CompetitionWrite};
use rustling_chains::competition::{CompetitionStatus, StoredCompetitionStatus};
use rustling_chains::competition_scores::{CompetitionScores, Player, PlayerCompetitionScore, RoundPlacement};
use rustling_chains::division::{Division, InvitationStatus};
use rustling_chains::error::{GenericError, UserError};
use rustling_chains::queries::{
    answered_status, competition_status_change, creation_error, get_fantasy_tournament, get_player_positions_in_round,
    get_tournament_bench_limit, get_tournament_bench_size, get_users_fantasy_tournaments, max_picks,
    participant_score, pick_permission, CreateTournament, CreationStep, Membership, RoundScoreRow, TournamentRow,
    WriteFailure,
};

fn row(id: i32, owner: i32) -> TournamentRow {
    TournamentRow { id, name: format!("t{}", id), owner, max_picks_per_user: 6, bench_size: 2 }
}

#[test]
fn tournaments_a_user_sees() {
    let all = vec![row(1, 5), row(2, 6)];
    let all = Ok(all);
    let admin = get_users_fantasy_tournaments(true, &all, &Err(())).unwrap();
    assert_eq!(admin.len(), 2);
    assert_eq!(admin[1].id, 2);
    assert_eq!(admin[1].owner_id, 6);
    assert_eq!(admin[1].invitation_status, InvitationStatus::Accepted);
    let memberships = vec![
        Membership { tournament: Ok(Some(row(3, 7))), invitation_status: InvitationStatus::Pending },
        Membership { tournament: Ok(None), invitation_status: InvitationStatus::Accepted },
        Membership { tournament: Ok(Some(row(4, 8))), invitation_status: InvitationStatus::Declined },
    ];
    let mine = get_users_fantasy_tournaments(false, &all, &Ok(memberships)).unwrap();
    assert_eq!(mine.iter().map(|t| t.id).collect::<Vec<_>>(), vec![3, 4]);
    assert_eq!(mine[0].invitation_status, InvitationStatus::Pending);
    assert_eq!(mine[1].name, "t4");
    assert_eq!(
        get_users_fantasy_tournaments(true, &Err(()), &Ok(Vec::new())).err().unwrap(),
        GenericError::UnknownError("Unknown error while getting tournaments")
    );
    assert_eq!(
        get_users_fantasy_tournaments(false, &all, &Err(())).err().unwrap(),
        GenericError::UnknownError("Unknown error while getting tournaments")
    );
    let failing = vec![
        Membership { tournament: Ok(Some(row(3, 7))), invitation_status: InvitationStatus::Pending },
        Membership { tournament: Err(()), invitation_status: InvitationStatus::Accepted },
    ];
    assert_eq!(
        get_users_fantasy_tournaments(false, &all, &Ok(failing)).err().unwrap(),
        GenericError::UnknownError("Unknown error while getting tournament")
    );
}

#[test]
fn one_tournament_and_its_limits() {
    let t = Some(row(1, 5));
    assert_eq!(get_fantasy_tournament(&t, None).unwrap().owner_id, 5);
    assert_eq!(get_fantasy_tournament(&t, Some(9)).unwrap().owner_id, 9);
    assert!(get_fantasy_tournament(&None, Some(9)).is_none());
    assert_eq!(max_picks(&t), 6);
    assert_eq!(max_picks(&None), 0);
    assert_eq!(get_tournament_bench_size(&t), Ok(2));
    assert_eq!(get_tournament_bench_limit(&t), Ok(4));
    assert_eq!(get_tournament_bench_size(&None), Err(GenericError::NotFound("Tournament not found")));
}

#[test]
fn participant_scores_add_up() {
    assert_eq!(participant_score(&vec![10, -3, 25]), 32);
    assert_eq!(participant_score(&Vec::new()), 0);
}

#[test]
fn positions_fall_by_throws_later_first_on_ties() {
    let scores = vec![
        RoundScoreRow { pdga_number: 1, throws: 50, placement: 1 },
        RoundScoreRow { pdga_number: 2, throws: 55, placement: 3 },
        RoundScoreRow { pdga_number: 3, throws: 50, placement: 2 },
    ];
    let r = get_player_positions_in_round(scores);
    assert_eq!(r.iter().map(|s| s.pdga_number).collect::<Vec<_>>(), vec![2, 3, 1]);
}

#[test]
fn refreshed_status_changes() {
    assert_eq!(competition_status_change(StoredCompetitionStatus::Running, CompetitionStatus::Active(1)), None);
    assert_eq!(
        competition_status_change(StoredCompetitionStatus::Running, CompetitionStatus::Finished),
        Some((StoredCompetitionStatus::Finished, true))
    );
    assert_eq!(
        competition_status_change(StoredCompetitionStatus::NotStarted, CompetitionStatus::Active(0)),
        Some((StoredCompetitionStatus::Running, false))
    );
}

#[test]
fn creating_tournaments() {
    let c = CreateTournament { name: "Cup".to_string(), max_picks_per_user: None, divisions: vec![Division::MPO], amount_in_bench: Some(2) };
    let t = c.into_active_model(4);
    assert_eq!(t.name, "Cup");
    assert_eq!(t.owner, 4);
    assert_eq!(t.max_picks_per_user, None);
    assert_eq!(t.bench_size, Some(2));
    assert_eq!(
        creation_error(CreationStep::Tournament, WriteFailure::UniqueViolation),
        GenericError::Conflict("Tournament name already taken")
    );
    assert_eq!(
        creation_error(CreationStep::Owner, WriteFailure::ForeignKeyViolation),
        GenericError::UserError(UserError::InvalidUserId("User not found"))
    );
    assert_eq!(
        creation_error(CreationStep::Tournament, WriteFailure::ForeignKeyViolation),
        GenericError::UserError(UserError::InvalidUserId("Owner not found"))
    );
    assert_eq!(
        creation_error(CreationStep::Divisions, WriteFailure::UniqueViolation),
        GenericError::UnknownError("Unable to insert fantasy tournament divisions")
    );
    assert_eq!(answered_status(true), InvitationStatus::Accepted);
    assert_eq!(answered_status(false), InvitationStatus::Declined);
    assert_eq!(pick_permission(3, true, 3), Ok(()));
    assert_eq!(
        pick_permission(3, true, 4),
        Err(GenericError::UserError(UserError::NotPermitted("You are not permitted to add picks for this user")))
    );
    assert!(pick_permission(3, false, 3).is_err());
}

#[test]
fn competition_scores_order_and_total() {
    let player = |n: i32| Player::from_row("Paul", "McBeth", n);
    assert_eq!(player(27523).name, "Paul McBeth");
    let a = PlayerCompetitionScore::from_rounds(
        Some(player(1)),
        100,
        &vec![
            RoundPlacement { round: 2, placement: 5 },
            RoundPlacement { round: 1, placement: 9 },
            RoundPlacement { round: 2, placement: 4 },
        ],
    )
    .unwrap();
    assert_eq!(a.placement, 4);
    assert_eq!(a.score, 100);
    let b = PlayerCompetitionScore::from_rounds(Some(player(2)), 300, &vec![RoundPlacement { round: 1, placement: 2 }]).unwrap();
    assert_eq!(b.score, 44); // 300 keeps its low eight bits
    assert!(PlayerCompetitionScore::from_rounds(Some(player(3)), 1, &Vec::new()).is_none());
    assert!(PlayerCompetitionScore::from_rounds(None, 1, &vec![RoundPlacement { round: 1, placement: 2 }]).is_none());
    let scores = CompetitionScores::new(Ok(vec![Ok(Some(a)), Ok(None), Ok(Some(b))])).unwrap();
    assert_eq!(scores.0.iter().map(|s| s.placement).collect::<Vec<_>>(), vec![2, 4]);
    assert_eq!(scores.total_score(), 144);
    assert_eq!(
        CompetitionScores::new(Err(())).err().unwrap(),
        GenericError::UnknownError("Unable to get user scores from competition")
    );
    assert_eq!(
        CompetitionScores::new(Ok(vec![Ok(None), Err(GenericError::UnknownError("first")), Err(GenericError::NotFound("second"))]))
            .err()
            .unwrap(),
        GenericError::UnknownError("first")
    );
    assert_eq!(
        PlayerCompetitionScore::from_db(Err(()), 1, &Ok(Vec::new())).err().unwrap(),
        GenericError::UnknownError("Unknown internal db error while trying to get player from competition score")
    );
    assert!(PlayerCompetitionScore::from_db(Ok(None), 1, &Err(())).unwrap().is_none());
    assert_eq!(
        PlayerCompetitionScore::from_db(Ok(Some(player(5))), 1, &Err(())).err().unwrap(),
        GenericError::UnknownError("Unable to get player round scores from db")
    );
    let found = PlayerCompetitionScore::from_db(Ok(Some(player(5))), 7, &Ok(vec![RoundPlacement { round: 1, placement: 3 }]))
        .unwrap()
        .unwrap();
    assert_eq!(found.placement, 3);
}

#[test]
fn picks_as_the_asker_sees_them() {
    let stored = vec![
        PickWithPlayer {
            pick_number: 1,
            player: 27523,
            benched: false,
            player_name: Some(("Paul".to_string(), "McBeth".to_string())),
        },
        PickWithPlayer { pick_number: 7, player: 1, benched: true, player_name: None },
    ];
    let mine = get_user_picks_in_tournament(&stored, 3, 3, 9);
    assert!(mine.owner);
    assert_eq!(mine.fantasy_tournament_id, 9);
    assert_eq!(mine.picks[0].name, Some("Paul McBeth".to_string()));
    assert_eq!(mine.picks[1].name, None);
    assert!(mine.picks[1].benched);
    let theirs = get_user_picks_in_tournament(&stored, 4, 3, 9);
    assert!(!theirs.owner);
    let one = get_user_pick_in_tournament(&Some(PickWithPlayer { pick_number: 2, player: 5, benched: false, player_name: None }));
    assert_eq!(one.unwrap().slot, 2);
    assert_eq!(get_user_pick_in_tournament(&None).err().unwrap(), GenericError::NotFound("Pick not found"));
}

#[test]
fn per_user_records_carry_their_names() {
    assert_eq!(AttributeCompetitionScores::NAME, "UserWithCompetitionScores");
    assert_eq!(AttributeCompetitionScores::FIELD_NAME, "CompetitionScores");
    let combo = UserDataCombination::new(User { id: 4, username: "anna".to_string() }, CompetitionScores::new(Ok(Vec::new())).unwrap());
    assert_eq!(combo.user.id, 4);
    assert!(combo.data.0 .0.is_empty());
}

#[test]
fn older_round_lines_become_scores() {
    let line = PlayerInRound { pdga_number: 7, name: "x".to_string(), hole_scores: vec![3, 4], round_score: 7, round_to_par: -1 };
    let s = RoundLineScore::from(line);
    assert_eq!(s.pdga_number, 7);
    assert_eq!(s.hole_scores, vec![3, 4]);
    assert_eq!(s.round_score, 7);
    assert_eq!(s.round_to_par, -1);
}

#[test]
fn writes_for_fetched_competitions() {
    assert_eq!(
        competition_write(Some(StoredCompetitionStatus::Running), None, CompetitionStatus::Active(2), 4, 0),
        Ok(None)
    );
    assert_eq!(
        competition_write(Some(StoredCompetitionStatus::Running), None, CompetitionStatus::Finished, 4, 0),
        Ok(Some(CompetitionWrite::UpdateStatus(StoredCompetitionStatus::Finished)))
    );
    assert_eq!(
        competition_write(None, Some(CompetitionLevel::Elite), CompetitionStatus::Finished, 4, 19_811),
        Ok(Some(CompetitionWrite::Insert {
            status: StoredCompetitionStatus::Finished,
            level: CompetitionLevel::Elite,
            rounds: 4,
            start_date: 19_811,
            ended_now: true
        }))
    );
    assert_eq!(
        competition_write(None, None, CompetitionStatus::Pending, 4, 0),
        Err(GenericError::UnknownError("Somehow, called active model without level when model not in DB"))
    );
}

#[test]
fn unknown_endpoints_answer_plainly() {
    assert_eq!(rustling_chains::queries::general_not_found(), "Api endpoint not found");
}

#[test]
fn refreshing_competitions() {
    assert!(is_active_competition(StoredCompetitionStatus::Running, 100, 50));
    assert!(is_active_competition(StoredCompetitionStatus::NotStarted, 50, 50));
    assert!(!is_active_competition(StoredCompetitionStatus::NotStarted, 51, 50));
    assert!(!is_active_competition(StoredCompetitionStatus::Finished, 10, 50));
    let comps = vec![
        (1, StoredCompetitionStatus::Running),
        (2, StoredCompetitionStatus::Finished),
        (3, StoredCompetitionStatus::Running),
    ];
    assert_eq!(running_competition_ids(&comps), vec![1, 3]);
    assert_eq!(after_fetch(true, Ok(())), FetchStep::Use);
    assert_eq!(after_fetch(true, Err(GenericError::PdgaGaveUp("x"))), FetchStep::RetryAfterPause);
    assert_eq!(after_fetch(false, Err(GenericError::PdgaGaveUp("x"))), FetchStep::Fail(GenericError::PdgaGaveUp("x")));
    assert_eq!(after_fetch(true, Err(GenericError::NotFound("y"))), FetchStep::Fail(GenericError::NotFound("y")));
    assert_eq!(registration_error(true), GenericError::Conflict("Username already taken"));
    assert_eq!(registration_error(false), GenericError::UnknownError("Unable to insert user into database"));
}

#[test]
fn adding_competitions_to_tournaments() {
    assert_eq!(insert_competition_in_fantasy(Ok(true), Ok(false)), Ok(CompetitionAddition::Link));
    assert_eq!(insert_competition_in_fantasy(Ok(false), Err(())), Ok(CompetitionAddition::FetchAndInsert));
    assert_eq!(insert_competition_in_fantasy(Ok(true), Ok(true)), Err(GenericError::Conflict("Competition already added")));
    assert_eq!(
        insert_competition_in_fantasy(Err(()), Ok(false)),
        Err(GenericError::UnknownError("Internal error while trying to get competition"))
    );
    assert_eq!(
        insert_competition_in_fantasy(Ok(true), Err(())),
        Err(GenericError::UnknownError("Internal db error while trying to find competition in fantasy tournament"))
    );
    assert_eq!(insert_in_fantasy(Ok(false), Ok(false)), Err(GenericError::NotFound("Competition not found in PDGA")));
    assert_eq!(insert_in_fantasy(Ok(true), Ok(false)), Ok(()));
    let link = fantasy_model(77, 3);
    assert_eq!((link.competition_id, link.fantasy_tournament_id), (77, 3));
}

fn user_score(user: i32, pdga: u32, score: i32) -> UserScore {
    UserScore {
        user,
        score,
        competition_id: 9,
        pdga_num: pdga,
        fantasy_tournament_id: 4,
        benched: false,
        slot: 1,
        division: Division::MPO,
    }
}

#[test]
fn stored_user_scores_one_per_player() {
    assert!(scores_to_store(&Vec::new(), 9).is_none());
    let rows = scores_to_store(&vec![user_score(1, 10, 50), user_score(2, 11, 40), user_score(3, 10, 99)], 9).unwrap();
    assert_eq!(rows.len(), 2);
    assert_eq!((rows[0].user, rows[0].pdga_number, rows[0].score), (1, 10, 50));
    assert_eq!((rows[1].user, rows[1].pdga_number, rows[1].competition_id, rows[1].fantasy_tournament_id), (2, 11, 9, 4));
}
