use vstd::prelude::*;
use crate::competition::{CompetitionStatus, StoredCompetitionStatus, stored_status};
use crate::division::{CompetitionLevel, Division, InvitationStatus};
use crate::error::{GenericError, UserError};
use crate::sorting::{Keyed, sort_desc_by_key, sorted_desc};
use crate::trading::{FantasyPick, bench_limit};
use crate::tradelog::full_name;

verus! {

/// A fantasy tournament as stored.
pub struct TournamentRow {
    pub id: i32,
    pub name: String,
    pub owner: i32,
    pub max_picks_per_user: i32,
    pub bench_size: i32,
}

/// A tournament as a user's list shows it.
pub struct SimpleFantasyTournament {
    pub id: i32,
    pub name: String,
    pub owner_id: i32,
    pub invitation_status: InvitationStatus,
}

/// A user's place in a tournament: the lookup of the tournament (failed, found nothing, or
/// found it) and the state of the user's invitation.
pub struct Membership {
    pub tournament: Result<Option<TournamentRow>, ()>,
    pub invitation_status: InvitationStatus,
}

/// A player's stored score in a round.
#[derive(Clone, Copy, Debug, PartialEq, Eq, Structural)]
pub struct RoundScoreRow {
    pub pdga_number: i32,
    pub throws: i32,
    pub placement: i32,
}

/// Whether a listed tournament shows a stored one with an owner and an invitation state.
pub open spec fn shows(s: SimpleFantasyTournament, t: TournamentRow, owner_id: i32, status: InvitationStatus) -> bool {
    s.id == t.id && s.name@ == t.name@ && s.owner_id == owner_id && s.invitation_status == status
}

impl SimpleFantasyTournament {
    /// A stored tournament with an owner and an invitation state.
    pub fn new(t: &TournamentRow, owner_id: i32, invitation_status: InvitationStatus) -> (s: SimpleFantasyTournament)
        ensures
            shows(s, *t, owner_id, invitation_status),
    {
        SimpleFantasyTournament { id: t.id, name: t.name.clone(), owner_id, invitation_status }
    }
}

/// The tournaments of the memberships whose tournament was found, in order.
pub open spec fn found_memberships(m: Seq<Membership>) -> Seq<Membership>
    decreases m.len(),
{
    if m.len() == 0 {
        Seq::empty()
    } else {
        let rest = found_memberships(m.drop_last());
        if m.last().tournament matches Ok(Some(_)) {
            rest.push(m.last())
        } else {
            rest
        }
    }
}

/// Whether looking up the tournament of some membership failed.
pub open spec fn some_lookup_failed(m: Seq<Membership>) -> bool {
    exists|i: int| 0 <= i < m.len() && #[trigger] m[i].tournament is Err
}

/// The tournaments a user sees: an admin every tournament, as accepted; anyone else the
/// tournaments they were invited to that were found, with the state of the invitation. A
/// failed read of the database gives an unknown error.
pub fn get_users_fantasy_tournaments(
    admin: bool,
    all: &Result<Vec<TournamentRow>, ()>,
    memberships: &Result<Vec<Membership>, ()>,
) -> (r: Result<Vec<SimpleFantasyTournament>, GenericError>)
    ensures
        admin ==> match *all {
            Err(_) => r == Err::<Vec<SimpleFantasyTournament>, GenericError>(
                GenericError::UnknownError("Unknown error while getting tournaments"),
            ),
            Ok(rows) => r matches Ok(v) && v@.len() == rows@.len() && forall|i: int|
                0 <= i < rows@.len() ==> shows(#[trigger] v@[i], rows@[i], rows@[i].owner, InvitationStatus::Accepted),
        },
        !admin ==> match *memberships {
            Err(_) => r == Err::<Vec<SimpleFantasyTournament>, GenericError>(
                GenericError::UnknownError("Unknown error while getting tournaments"),
            ),
            Ok(ms) => if some_lookup_failed(ms@) {
                r == Err::<Vec<SimpleFantasyTournament>, GenericError>(
                    GenericError::UnknownError("Unknown error while getting tournament"),
                )
            } else {
                r matches Ok(v) && v@.len() == found_memberships(ms@).len() && forall|i: int|
                    0 <= i < v@.len() ==> {
                        let m = #[trigger] found_memberships(ms@)[i];
                        shows(v@[i], m.tournament->Ok_0->0, m.tournament->Ok_0->0.owner, m.invitation_status)
                    }
            },
        },
{
    let mut out: Vec<SimpleFantasyTournament> = Vec::new();
    if admin {
        let rows = match all {
            Ok(rows) => rows,
            Err(_) => {
                return Err(GenericError::UnknownError("Unknown error while getting tournaments"));
            },
        };
        let mut i: usize = 0;
        while i < rows.len()
            invariant
                i <= rows.len(),
                *all == Ok::<Vec<TournamentRow>, ()>(*rows),
                out@.len() == i,
                forall|k: int| 0 <= k < i ==> shows(#[trigger] out@[k], rows@[k], rows@[k].owner, InvitationStatus::Accepted),
            decreases rows.len() - i,
        {
            out.push(SimpleFantasyTournament::new(&rows[i], rows[i].owner, InvitationStatus::Accepted));
            i = i + 1;
        }
    } else {
        let ms = match memberships {
            Ok(ms) => ms,
            Err(_) => {
                return Err(GenericError::UnknownError("Unknown error while getting tournaments"));
            },
        };
        let mut i: usize = 0;
        while i < ms.len()
            invariant
                i <= ms.len(),
                !admin,
                *memberships == Ok::<Vec<Membership>, ()>(*ms),
                forall|k: int| 0 <= k < i ==> !(#[trigger] ms@[k].tournament is Err),
                out@.len() == found_memberships(ms@.take(i as int)).len(),
                forall|k: int|
                    0 <= k < out@.len() ==> {
                        let m = #[trigger] found_memberships(ms@.take(i as int))[k];
                        shows(out@[k], m.tournament->Ok_0->0, m.tournament->Ok_0->0.owner, m.invitation_status)
                    },
            decreases ms.len() - i,
        {
            let ghost pre = ms@.take(i as int);
            let ghost now = ms@.take(i + 1);
            assert(now.drop_last() =~= pre);
            let m = &ms[i];
            match &m.tournament {
                Err(_) => {
                    assert(ms@[i as int].tournament is Err);
                    return Err(GenericError::UnknownError("Unknown error while getting tournament"));
                },
                Ok(Some(t)) => {
                    out.push(SimpleFantasyTournament::new(t, t.owner, m.invitation_status));
                    assert forall|k: int| 0 <= k < out@.len() implies {
                        let n = #[trigger] found_memberships(now)[k];
                        shows(out@[k], n.tournament->Ok_0->0, n.tournament->Ok_0->0.owner, n.invitation_status)
                    } by {
                        if k < out@.len() - 1 {
                            assert(found_memberships(now)[k] == found_memberships(pre)[k]);
                        }
                    }
                },
                Ok(None) => {},
            }
            i = i + 1;
        }
        assert(ms@.take(i as int) =~= ms@);
    }
    Ok(out)
}

/// A tournament as one user sees it: accepted, owned by the given user where one is given
/// (an admin looking), else by its owner.
pub fn get_fantasy_tournament(t: &Option<TournamentRow>, user_admin_id: Option<i32>) -> (r: Option<SimpleFantasyTournament>)
    ensures
        match (r, *t) {
            (None, None) => true,
            (Some(s), Some(row)) => shows(
                s,
                row,
                match user_admin_id {
                    Some(id) => id,
                    None => row.owner,
                },
                InvitationStatus::Accepted,
            ),
            _ => false,
        },
{
    match t {
        Some(row) => {
            let owner = match user_admin_id {
                Some(id) => id,
                None => row.owner,
            };
            Some(SimpleFantasyTournament::new(row, owner, InvitationStatus::Accepted))
        },
        None => None,
    }
}

/// The picks a user may make in a tournament: none for an unknown tournament.
pub fn max_picks(t: &Option<TournamentRow>) -> (r: i32)
    ensures
        r == (match *t {
            Some(row) => row.max_picks_per_user,
            None => 0,
        }),
{
    match t {
        Some(row) => row.max_picks_per_user,
        None => 0,
    }
}

/// The bench size of a tournament.
pub fn get_tournament_bench_size(t: &Option<TournamentRow>) -> (r: Result<i32, GenericError>)
    ensures
        r == (match *t {
            Some(row) => Ok::<i32, GenericError>(row.bench_size),
            None => Err(GenericError::NotFound("Tournament not found")),
        }),
{
    match t {
        Some(row) => Ok(row.bench_size),
        None => Err(GenericError::NotFound("Tournament not found")),
    }
}

/// The slot past which a tournament's picks sit on the bench.
pub fn get_tournament_bench_limit(t: &Option<TournamentRow>) -> (r: Result<i32, GenericError>)
    requires
        t matches Some(row) ==> i32::MIN <= row.max_picks_per_user - row.bench_size <= i32::MAX,
    ensures
        r == (match *t {
            Some(row) => Ok::<i32, GenericError>((row.max_picks_per_user - row.bench_size) as i32),
            None => Err(GenericError::NotFound("Tournament not found")),
        }),
{
    match t {
        Some(row) => Ok(bench_limit(row.max_picks_per_user, row.bench_size)),
        None => Err(GenericError::NotFound("Tournament not found")),
    }
}

/// The sum of a participant's scores.
pub open spec fn score_sum(scores: Seq<i32>) -> int
    decreases scores.len(),
{
    if scores.len() == 0 {
        0
    } else {
        score_sum(scores.drop_last()) + scores.last()
    }
}

/// Whether every partial sum of the scores fits in an `i32`.
pub open spec fn sums_fit(scores: Seq<i32>) -> bool {
    forall|k: int| 0 <= k <= scores.len() ==> i32::MIN <= #[trigger] score_sum(scores.take(k)) <= i32::MAX
}

/// A participant's total score in a tournament.
pub fn participant_score(scores: &Vec<i32>) -> (total: i32)
    requires
        sums_fit(scores@),
    ensures
        total == score_sum(scores@),
{
    let mut total: i32 = 0;
    let mut i: usize = 0;
    assert(scores@.take(0) =~= Seq::<i32>::empty());
    while i < scores.len()
        invariant
            i <= scores.len(),
            sums_fit(scores@),
            total == score_sum(scores@.take(i as int)),
        decreases scores.len() - i,
    {
        assert(scores@.take(i + 1).drop_last() =~= scores@.take(i as int));
        assert(i32::MIN <= score_sum(scores@.take(i + 1)) <= i32::MAX);
        total = total + scores[i];
        i = i + 1;
    }
    assert(scores@.take(i as int) =~= scores@);
    total
}

impl Keyed for RoundScoreRow {
    open spec fn key_of(&self) -> i128 {
        self.throws as i128
    }

    fn key(&self) -> (k: i128) {
        self.throws as i128
    }
}

/// The scores of a round in order of falling throws; of equal throws the later stored
/// comes first (the stable rising order, reversed).
pub fn get_player_positions_in_round(scores: Vec<RoundScoreRow>) -> (r: Vec<RoundScoreRow>)
    ensures
        r@ == sorted_desc(scores@.reverse()),
{
    let mut reversed: Vec<RoundScoreRow> = Vec::new();
    let mut i: usize = scores.len();
    while i > 0
        invariant
            i <= scores.len(),
            reversed@ == scores@.subrange(i as int, scores@.len() as int).reverse(),
        decreases i,
    {
        i = i - 1;
        reversed.push(scores[i]);
        assert(reversed@ =~= scores@.subrange(i as int, scores@.len() as int).reverse());
    }
    assert(scores@.subrange(0, scores@.len() as int) =~= scores@);
    sort_desc_by_key(reversed)
}

/// What a refreshed competition changes in its stored row: nothing when its stored status is
/// still right; else the new status, and whether the end is stamped now (when it finished).
pub open spec fn status_change(stored: StoredCompetitionStatus, current: CompetitionStatus) -> Option<
    (StoredCompetitionStatus, bool),
> {
    if stored == stored_status(current) {
        None
    } else {
        Some((stored_status(current), stored_status(current) == StoredCompetitionStatus::Finished))
    }
}

/// The change that a refreshed competition makes to its stored row.
pub fn competition_status_change(stored: StoredCompetitionStatus, current: CompetitionStatus) -> (r: Option<
    (StoredCompetitionStatus, bool),
>)
    ensures
        r == status_change(stored, current),
{
    let new_status = StoredCompetitionStatus::from_competition_status(current);
    if stored == new_status {
        None
    } else {
        Some((new_status, new_status == StoredCompetitionStatus::Finished))
    }
}

/// The details with which a tournament is created.
pub struct CreateTournament {
    pub name: String,
    pub max_picks_per_user: Option<i32>,
    pub divisions: Vec<Division>,
    pub amount_in_bench: Option<i32>,
}

/// A tournament to store; a limit that is `None` takes the stored default.
pub struct NewTournament {
    pub name: String,
    pub owner: i32,
    pub max_picks_per_user: Option<i32>,
    pub bench_size: Option<i32>,
}

impl CreateTournament {
    /// The tournament to store for an owner.
    pub fn into_active_model(self, owner_id: i32) -> (r: NewTournament)
        ensures
            r.name == self.name,
            r.owner == owner_id,
            r.max_picks_per_user == self.max_picks_per_user,
            r.bench_size == self.amount_in_bench,
    {
        NewTournament {
            name: self.name,
            owner: owner_id,
            max_picks_per_user: self.max_picks_per_user,
            bench_size: self.amount_in_bench,
        }
    }
}

/// How a database write failed.
#[derive(Clone, Copy, Debug, PartialEq, Eq, Structural)]
pub enum WriteFailure {
    UniqueViolation,
    ForeignKeyViolation,
    Other,
}

/// The steps of creating a tournament.
#[derive(Clone, Copy, Debug, PartialEq, Eq, Structural)]
pub enum CreationStep {
    Tournament,
    Owner,
    Divisions,
}

/// The error that a failed step of creating a tournament gives. An owner who does not exist
/// is an invalid user id.
pub open spec fn creation_error_of(step: CreationStep, failure: WriteFailure) -> GenericError {
    match (step, failure) {
        (CreationStep::Tournament, WriteFailure::UniqueViolation) => GenericError::Conflict("Tournament name already taken"),
        (CreationStep::Tournament, WriteFailure::ForeignKeyViolation) => GenericError::UserError(
            UserError::InvalidUserId("Owner not found"),
        ),
        (CreationStep::Tournament, WriteFailure::Other) => GenericError::UnknownError("Unable to insert fantasy tournament"),
        (CreationStep::Owner, WriteFailure::UniqueViolation) => GenericError::Conflict("User already in tournament"),
        (CreationStep::Owner, WriteFailure::ForeignKeyViolation) => GenericError::UserError(
            UserError::InvalidUserId("User not found"),
        ),
        (CreationStep::Owner, WriteFailure::Other) => GenericError::UnknownError(
            "Unable to insert user in fantasy tournament",
        ),
        (CreationStep::Divisions, WriteFailure::ForeignKeyViolation) => GenericError::NotFound("Division not found"),
        (CreationStep::Divisions, _) => GenericError::UnknownError("Unable to insert fantasy tournament divisions"),
    }
}

/// The error that a failed step of creating a tournament gives.
pub fn creation_error(step: CreationStep, failure: WriteFailure) -> (e: GenericError)
    ensures
        e == creation_error_of(step, failure),
{
    match (step, failure) {
        (CreationStep::Tournament, WriteFailure::UniqueViolation) => GenericError::Conflict("Tournament name already taken"),
        (CreationStep::Tournament, WriteFailure::ForeignKeyViolation) => GenericError::UserError(
            UserError::InvalidUserId("Owner not found"),
        ),
        (CreationStep::Tournament, WriteFailure::Other) => GenericError::UnknownError("Unable to insert fantasy tournament"),
        (CreationStep::Owner, WriteFailure::UniqueViolation) => GenericError::Conflict("User already in tournament"),
        (CreationStep::Owner, WriteFailure::ForeignKeyViolation) => GenericError::UserError(
            UserError::InvalidUserId("User not found"),
        ),
        (CreationStep::Owner, WriteFailure::Other) => GenericError::UnknownError(
            "Unable to insert user in fantasy tournament",
        ),
        (CreationStep::Divisions, WriteFailure::ForeignKeyViolation) => GenericError::NotFound("Division not found"),
        (CreationStep::Divisions, _) => GenericError::UnknownError("Unable to insert fantasy tournament divisions"),
    }
}

/// The state an answered invitation takes.
pub fn answered_status(accepted: bool) -> (s: InvitationStatus)
    ensures
        s == (if accepted {
            InvitationStatus::Accepted
        } else {
            InvitationStatus::Declined
        }),
{
    if accepted {
        InvitationStatus::Accepted
    } else {
        InvitationStatus::Declined
    }
}

/// Whether a user may set picks for another: only members of the tournament, and only their
/// own picks.
pub fn pick_permission(requester_id: i32, requester_in_tournament: bool, user_id: i32) -> (r: Result<(), GenericError>)
    ensures
        r == (if requester_in_tournament && requester_id == user_id {
            Ok::<(), GenericError>(())
        } else {
            Err(GenericError::UserError(UserError::NotPermitted("You are not permitted to add picks for this user")))
        }),
{
    if requester_in_tournament && requester_id == user_id {
        Ok(())
    } else {
        Err(GenericError::UserError(UserError::NotPermitted("You are not permitted to add picks for this user")))
    }
}

/// What storing a fetched competition writes.
#[derive(Clone, Copy, Debug, PartialEq, Eq, Structural)]
pub enum CompetitionWrite {
    /// The stored row gets a new status.
    UpdateStatus(StoredCompetitionStatus),
    /// A new row, with the competition's status, level, number of rounds and first day; its
    /// end is stamped now when it has finished.
    Insert { status: StoredCompetitionStatus, level: CompetitionLevel, rounds: i32, start_date: i64, ended_now: bool },
}

/// What storing a competition writes: for a stored one a new status where it changed; for a
/// new one a row, which needs a level.
pub open spec fn competition_write_of(
    stored: Option<StoredCompetitionStatus>,
    level: Option<CompetitionLevel>,
    current: CompetitionStatus,
    amount_of_rounds: usize,
    start_date: i64,
) -> Result<Option<CompetitionWrite>, GenericError> {
    match stored {
        Some(s) => Ok(
            if s != stored_status(current) {
                Some(CompetitionWrite::UpdateStatus(stored_status(current)))
            } else {
                None
            },
        ),
        None => match level {
            Some(l) => Ok(
                Some(
                    CompetitionWrite::Insert {
                        status: stored_status(current),
                        level: l,
                        rounds: amount_of_rounds as i32,
                        start_date,
                        ended_now: current == CompetitionStatus::Finished,
                    },
                ),
            ),
            None => Err(GenericError::UnknownError("Somehow, called active model without level when model not in DB")),
        },
    }
}

/// What storing a competition writes, given its stored status if it is stored and the date of
/// its first day.
pub fn competition_write(
    stored: Option<StoredCompetitionStatus>,
    level: Option<CompetitionLevel>,
    current: CompetitionStatus,
    amount_of_rounds: usize,
    start_date: i64,
) -> (r: Result<Option<CompetitionWrite>, GenericError>)
    ensures
        r == competition_write_of(stored, level, current, amount_of_rounds, start_date),
{
    let status = StoredCompetitionStatus::from_competition_status(current);
    match stored {
        Some(s) => Ok(
            if s != status {
                Some(CompetitionWrite::UpdateStatus(status))
            } else {
                None
            },
        ),
        None => match level {
            Some(l) => Ok(
                Some(
                    CompetitionWrite::Insert {
                        status,
                        level: l,
                        rounds: amount_of_rounds as i32,
                        start_date,
                        ended_now: match current {
                            CompetitionStatus::Finished => true,
                            _ => false,
                        },
                    },
                ),
            ),
            None => Err(GenericError::UnknownError("Somehow, called active model without level when model not in DB")),
        },
    }
}

/// A stored pick with the name of its player, where the player was found.
pub struct PickWithPlayer {
    pub pick_number: i32,
    pub player: i32,
    pub benched: bool,
    pub player_name: Option<(String, String)>,
}

/// A user's picks in a tournament and division, and whether the one asking owns them.
pub struct FantasyPicks {
    pub picks: Vec<FantasyPick>,
    pub owner: bool,
    pub fantasy_tournament_id: i32,
}

/// Whether a shown pick is a stored pick with its player's full name, where it was found.
pub open spec fn shows_pick(p: FantasyPick, stored: PickWithPlayer) -> bool {
    &&& p.slot == stored.pick_number
    &&& p.pdga_number == stored.player
    &&& p.benched == stored.benched
    &&& match (p.name, stored.player_name) {
        (None, None) => true,
        (Some(n), Some((first, last))) => n@ == first@ + " "@ + last@,
        _ => false,
    }
}

/// A stored pick as it is shown.
pub fn show_pick(stored: &PickWithPlayer) -> (p: FantasyPick)
    ensures
        shows_pick(p, *stored),
{
    let name = match &stored.player_name {
        Some((first, last)) => Some(full_name(first.as_str(), last.as_str())),
        None => None,
    };
    FantasyPick { slot: stored.pick_number, pdga_number: stored.player, name, benched: stored.benched }
}

/// A user's picks as the one asking sees them: each stored pick with its player's name, and
/// ownership when the one asking is the user.
pub fn get_user_picks_in_tournament(
    picks: &Vec<PickWithPlayer>,
    requester_id: i32,
    user_id: i32,
    tournament_id: i32,
) -> (r: FantasyPicks)
    ensures
        r.owner == (requester_id == user_id),
        r.fantasy_tournament_id == tournament_id,
        r.picks@.len() == picks@.len(),
        forall|i: int| 0 <= i < picks@.len() ==> shows_pick(#[trigger] r.picks@[i], picks@[i]),
{
    let mut out: Vec<FantasyPick> = Vec::new();
    let mut i: usize = 0;
    while i < picks.len()
        invariant
            i <= picks.len(),
            out@.len() == i,
            forall|k: int| 0 <= k < i ==> shows_pick(#[trigger] out@[k], picks@[k]),
        decreases picks.len() - i,
    {
        out.push(show_pick(&picks[i]));
        i = i + 1;
    }
    FantasyPicks { picks: out, owner: requester_id == user_id, fantasy_tournament_id: tournament_id }
}

/// One of a user's picks, where it is stored.
pub fn get_user_pick_in_tournament(pick: &Option<PickWithPlayer>) -> (r: Result<FantasyPick, GenericError>)
    ensures
        match (r, *pick) {
            (Ok(p), Some(stored)) => shows_pick(p, stored),
            (Err(e), None) => e == GenericError::NotFound("Pick not found"),
            _ => false,
        },
{
    match pick {
        Some(stored) => Ok(show_pick(stored)),
        None => Err(GenericError::NotFound("Pick not found")),
    }
}

/// The answer to a request for an endpoint that does not exist.
pub fn general_not_found() -> (r: &'static str)
    ensures
        r@ == "Api endpoint not found"@,
{
    "Api endpoint not found"
}

/// Whether a stored competition is one to refresh: running, or not started though its start
/// day has come.
pub fn is_active_competition(status: StoredCompetitionStatus, start_day: i64, today: i64) -> (r: bool)
    ensures
        r == (status == StoredCompetitionStatus::Running || (status == StoredCompetitionStatus::NotStarted
            && start_day <= today)),
{
    status == StoredCompetitionStatus::Running || (status == StoredCompetitionStatus::NotStarted && start_day <= today)
}

/// The ids of the running competitions, in order.
pub open spec fn running_ids(comps: Seq<(i32, StoredCompetitionStatus)>) -> Seq<u32>
    decreases comps.len(),
{
    if comps.len() == 0 {
        Seq::empty()
    } else {
        let rest = running_ids(comps.drop_last());
        if comps.last().1 == StoredCompetitionStatus::Running {
            rest.push(comps.last().0 as u32)
        } else {
            rest
        }
    }
}

/// The ids of a tournament's running competitions, whose user scores are refreshed.
pub fn running_competition_ids(comps: &Vec<(i32, StoredCompetitionStatus)>) -> (r: Vec<u32>)
    ensures
        r@ == running_ids(comps@),
{
    let mut out: Vec<u32> = Vec::new();
    let mut i: usize = 0;
    while i < comps.len()
        invariant
            i <= comps.len(),
            out@ == running_ids(comps@.take(i as int)),
        decreases comps.len() - i,
    {
        assert(comps@.take(i + 1).drop_last() =~= comps@.take(i as int));
        let (id, status) = comps[i];
        if status == StoredCompetitionStatus::Running {
            out.push(id as u32);
        }
        i = i + 1;
    }
    assert(comps@.take(i as int) =~= comps@);
    out
}

/// What follows fetching a competition when its user scores are refreshed.
#[derive(Clone, Copy, Debug, PartialEq, Eq)]
pub enum FetchStep {
    /// Use what was fetched.
    Use,
    /// Pause briefly and fetch once more.
    RetryAfterPause,
    /// Stop with this error.
    Fail(GenericError),
}

/// What follows a fetch: the results service giving up on the first attempt earns one more
/// try after a pause; any other failure, or a second one, stops the refresh.
pub fn after_fetch(first_attempt: bool, outcome: Result<(), GenericError>) -> (r: FetchStep)
    ensures
        r == (match outcome {
            Ok(()) => FetchStep::Use,
            Err(GenericError::PdgaGaveUp(m)) => if first_attempt {
                FetchStep::RetryAfterPause
            } else {
                FetchStep::Fail(GenericError::PdgaGaveUp(m))
            },
            Err(e) => FetchStep::Fail(e),
        }),
{
    match outcome {
        Ok(()) => FetchStep::Use,
        Err(GenericError::PdgaGaveUp(m)) => {
            if first_attempt {
                FetchStep::RetryAfterPause
            } else {
                FetchStep::Fail(GenericError::PdgaGaveUp(m))
            }
        },
        Err(e) => FetchStep::Fail(e),
    }
}

/// The error of a failed registration: any error the database reports on storing the user
/// means the name is taken; a failure without one is unknown.
pub fn registration_error(database_reported: bool) -> (e: GenericError)
    ensures
        e == (if database_reported {
            GenericError::Conflict("Username already taken")
        } else {
            GenericError::UnknownError("Unable to insert user into database")
        }),
{
    if database_reported {
        GenericError::Conflict("Username already taken")
    } else {
        GenericError::UnknownError("Unable to insert user into database")
    }
}

/// What adding a competition to a fantasy tournament goes on to do.
#[derive(Clone, Copy, Debug, PartialEq, Eq, Structural)]
pub enum CompetitionAddition {
    /// The competition is stored: link it to the tournament.
    Link,
    /// The competition is not stored yet: fetch it, store it with its players, and link it.
    FetchAndInsert,
}

/// What adding a competition to a fantasy tournament does, from the lookup of the stored
/// competition and, for a stored one, of its link to a fantasy tournament.
pub open spec fn addition_of(competition: Result<bool, ()>, already_linked: Result<bool, ()>) -> Result<
    CompetitionAddition,
    GenericError,
> {
    match competition {
        Err(_) => Err(GenericError::UnknownError("Internal error while trying to get competition")),
        Ok(false) => Ok(CompetitionAddition::FetchAndInsert),
        Ok(true) => match already_linked {
            Err(_) => Err(
                GenericError::UnknownError("Internal db error while trying to find competition in fantasy tournament"),
            ),
            Ok(true) => Err(GenericError::Conflict("Competition already added")),
            Ok(false) => Ok(CompetitionAddition::Link),
        },
    }
}

/// Decides how a competition is added to a fantasy tournament: a competition that is already
/// linked is refused as a conflict; a stored one is linked; one not stored yet is fetched and
/// stored first.
pub fn insert_competition_in_fantasy(competition: Result<bool, ()>, already_linked: Result<bool, ()>) -> (r: Result<
    CompetitionAddition,
    GenericError,
>)
    ensures
        r == addition_of(competition, already_linked),
{
    match competition {
        Err(_) => Err(GenericError::UnknownError("Internal error while trying to get competition")),
        Ok(false) => Ok(CompetitionAddition::FetchAndInsert),
        Ok(true) => match already_linked {
            Err(_) => Err(
                GenericError::UnknownError("Internal db error while trying to find competition in fantasy tournament"),
            ),
            Ok(true) => Err(GenericError::Conflict("Competition already added")),
            Ok(false) => Ok(CompetitionAddition::Link),
        },
    }
}

/// Decides whether a fetched competition can be linked to a fantasy tournament: it must be
/// stored and not linked yet.
pub fn insert_in_fantasy(competition: Result<bool, ()>, already_linked: Result<bool, ()>) -> (r: Result<(), GenericError>)
    ensures
        r == (match addition_of(competition, already_linked) {
            Ok(CompetitionAddition::FetchAndInsert) => Err(GenericError::NotFound("Competition not found in PDGA")),
            Ok(CompetitionAddition::Link) => Ok(()),
            Err(e) => Err(e),
        }),
{
    match insert_competition_in_fantasy(competition, already_linked) {
        Ok(CompetitionAddition::FetchAndInsert) => Err(GenericError::NotFound("Competition not found in PDGA")),
        Ok(CompetitionAddition::Link) => Ok(()),
        Err(e) => Err(e),
    }
}

/// The link of a competition to a fantasy tournament.
#[derive(Clone, Copy, Debug, PartialEq, Eq, Structural)]
pub struct CompetitionLink {
    pub competition_id: i32,
    pub fantasy_tournament_id: i32,
}

/// The link to store for a competition in a fantasy tournament.
pub fn fantasy_model(competition_id: u32, fantasy_tournament_id: u32) -> (r: CompetitionLink)
    ensures
        r.competition_id == competition_id as i32,
        r.fantasy_tournament_id == fantasy_tournament_id as i32,
{
    CompetitionLink { competition_id: competition_id as i32, fantasy_tournament_id: fantasy_tournament_id as i32 }
}

} // verus!
