use rustling_chains::division::{CompetitionLevel, Division, StoredDivision};
use rustling_chains::error::{AuthError, GenericError, InviteError, PlayerError, TournamentError, UserError};
use rustling_chains::scoring::{apply_level, placement_to_score, tied_round_points, user_score, Tied};

#[test]
fn placement_points_follow_the_table() {
    assert_eq!(placement_to_score(1), 100);
    assert_eq!(placement_to_score(2), 85);
    assert_eq!(placement_to_score(3), 75);
    assert_eq!(placement_to_score(4), 69);
    assert_eq!(placement_to_score(5), 64);
    assert_eq!(placement_to_score(6), 60);
    assert_eq!(placement_to_score(7), 57);
    assert_eq!(placement_to_score(8), 54);
    assert_eq!(placement_to_score(20), 30);
    assert_eq!(placement_to_score(21), 29);
    assert_eq!(placement_to_score(48), 2);
    assert_eq!(placement_to_score(49), 2);
    assert_eq!(placement_to_score(50), 2);
    assert_eq!(placement_to_score(51), 0);
    assert_eq!(placement_to_score(0), 0);
}

#[test]
fn points_never_rise_with_placement() {
    let mut previous = placement_to_score(1);
    for p in 2..=60u16 {
        let now = placement_to_score(p);
        assert!(now <= previous);
        previous = now;
    }
}

#[test]
fn tie_averages_the_shared_places() {
    // Places 1 and 2 shared: (100 + 85) / 2 = 92 (rounded down).
    assert_eq!(tied_round_points(1, Tied::Tied(1)), 92);
    // Places 3, 4 and 5 shared: (75 + 69 + 64) / 3 = 69.
    assert_eq!(tied_round_points(3, Tied::Tied(2)), 69);
    assert_eq!(tied_round_points(3, Tied::NotTied), 75);
    assert_eq!(tied_round_points(7, Tied::Tied(0)), placement_to_score(7) as u32);
}

#[test]
fn tie_lies_between_the_shared_places() {
    let t = tied_round_points(10, Tied::Tied(4));
    assert!(t <= placement_to_score(10) as u32);
    assert!(t >= placement_to_score(14) as u32);
}

#[test]
fn level_scales_points_in_quarters() {
    assert_eq!(apply_level(100, CompetitionLevel::Major), 200);
    assert_eq!(apply_level(100, CompetitionLevel::Playoff), 150);
    assert_eq!(apply_level(85, CompetitionLevel::Playoff), 128); // 127.5 rounds up
    assert_eq!(apply_level(85, CompetitionLevel::ElitePlus), 106); // 106.25
    assert_eq!(apply_level(69, CompetitionLevel::Elite), 69);
    assert_eq!(apply_level(75, CompetitionLevel::Silver), 38); // 37.5 rounds up
}

#[test]
fn user_score_combines_tie_and_level() {
    assert_eq!(user_score(1, Tied::NotTied, CompetitionLevel::Major), 200);
    assert_eq!(user_score(1, Tied::Tied(1), CompetitionLevel::Elite), 92);
    assert_eq!(user_score(60, Tied::NotTied, CompetitionLevel::Major), 0);
}

#[test]
fn multipliers_in_quarters() {
    assert_eq!(CompetitionLevel::Major.multiplier_quarters(), 8);
    assert_eq!(CompetitionLevel::Playoff.multiplier_quarters(), 6);
    assert_eq!(CompetitionLevel::ElitePlus.multiplier_quarters(), 5);
    assert_eq!(CompetitionLevel::Elite.multiplier_quarters(), 4);
    assert_eq!(CompetitionLevel::Silver.multiplier_quarters(), 2);
}

#[test]
fn divisions_store_and_name() {
    assert_eq!(Division::MPO.to_stored(), StoredDivision::Mpo);
    assert_eq!(Division::FPO.to_stored(), StoredDivision::Fpo);
    assert_eq!(Division::Unknown.to_stored(), StoredDivision::Mpo);
    assert_eq!(Division::from_stored(StoredDivision::Fpo), Division::FPO);
    assert_eq!(Division::from_name("FPO"), Division::FPO);
    assert_eq!(Division::from_name("MPO"), Division::MPO);
    assert_eq!(Division::from_name("anything"), Division::MPO);
    assert_eq!(Division::Unknown.display_name(), "MPO");
    assert_eq!(Division::default(), Division::Unknown);
}

#[test]
fn error_statuses() {
    assert_eq!(GenericError::UnknownError("x").status_code(), 500);
    assert_eq!(GenericError::NotFound("x").status_code(), 404);
    assert_eq!(GenericError::Conflict("x").status_code(), 409);
    assert_eq!(GenericError::BadRequest("x").status_code(), 400);
    assert_eq!(GenericError::CheckError("x").status_code(), 422);
    assert_eq!(GenericError::from(AuthError::Missing("x")).status_code(), 401);
    assert_eq!(GenericError::from(AuthError::WrongPassword("x")).status_code(), 403);
    assert_eq!(GenericError::from(UserError::UsernameConflict("x")).status_code(), 409);
    assert_eq!(GenericError::from(TournamentError::NotFound("x")).status_code(), 404);
}

#[test]
fn player_and_invite_errors_convert() {
    assert_eq!(
        GenericError::from(PlayerError::NotFound),
        GenericError::NotFound("Player not found in tournament")
    );
    assert_eq!(
        GenericError::from(PlayerError::WrongDivision),
        GenericError::NotFound("Player not in specified division")
    );
    assert_eq!(
        GenericError::from(InviteError::UserNotFound),
        GenericError::UserError(UserError::InvalidUserId("User not found"))
    );
    assert_eq!(GenericError::from(InviteError::TournamentNotFound).status_code(), 404);
}

#[test]
fn divisions_convert_both_ways() {
    assert_eq!(Division::from(StoredDivision::Fpo), Division::FPO);
    assert_eq!(StoredDivision::from(Division::MPO), StoredDivision::Mpo);
    assert_eq!(StoredDivision::from(Division::Unknown), StoredDivision::Mpo);
    for d in [Division::MPO, Division::FPO] {
        assert_eq!(Division::from(StoredDivision::from(d)), d);
        assert_eq!(Division::from_name(d.display_name()), d);
    }
}
