use vstd::prelude::*;
use vstd::string::*;
use crate::sorting::{Keyed, sort_desc_by_key, sorted_desc};
use crate::exchange::User;
use crate::error::GenericError;

verus! {

/// A player as a user's competition scores show them.
pub struct Player {
    pub name: String,
    pub id: u32,
}

/// A player's placement after a round of a competition.
#[derive(Clone, Copy, Debug, PartialEq, Eq, Structural)]
pub struct RoundPlacement {
    pub round: i32,
    pub placement: i32,
}

/// What a user scored with one player in a competition, and where the player placed.
pub struct PlayerCompetitionScore {
    pub player: Player,
    pub score: u8,
    pub placement: u32,
}

/// A user's scores in a competition, best placement first.
pub struct CompetitionScores(pub Vec<PlayerCompetitionScore>);

impl Player {
    /// The player with their full name and PDGA number.
    pub fn from_row(first_name: &str, last_name: &str, pdga_number: i32) -> (p: Player)
        ensures
            p.name@ == first_name@ + " "@ + last_name@,
            p.id == pdga_number as u32,
    {
        let mut name = String::from_str(first_name);
        name.append(" ");
        name.append(last_name);
        Player { name, id: pdga_number as u32 }
    }
}

/// The position of the player's placement in their latest round: the last of the entries
/// with the highest round number.
pub open spec fn latest_index(rounds: Seq<RoundPlacement>) -> int
    decreases rounds.len(),
{
    if rounds.len() <= 1 {
        0
    } else {
        let prev = latest_index(rounds.drop_last());
        if rounds.last().round >= rounds[prev].round {
            rounds.len() - 1
        } else {
            prev
        }
    }
}

proof fn lemma_latest_index(rounds: Seq<RoundPlacement>)
    requires
        rounds.len() > 0,
    ensures
        0 <= latest_index(rounds) < rounds.len(),
        forall|i: int| 0 <= i < rounds.len() ==> (#[trigger] rounds[i]).round <= rounds[latest_index(rounds)].round,
        forall|i: int| latest_index(rounds) < i < rounds.len() ==> (#[trigger] rounds[i]).round < rounds[latest_index(
            rounds,
        )].round,
    decreases rounds.len(),
{
    if rounds.len() > 1 {
        let prev = rounds.drop_last();
        lemma_latest_index(prev);
        let p = latest_index(prev);
        let l = latest_index(rounds);
        assert(prev[p] == rounds[p]);
        assert forall|i: int| 0 <= i < rounds.len() implies (#[trigger] rounds[i]).round <= rounds[l].round by {
            if i < prev.len() {
                assert(prev[i] == rounds[i]);
            }
        }
        assert forall|i: int| l < i < rounds.len() implies (#[trigger] rounds[i]).round < rounds[l].round by {
            if i < prev.len() {
                assert(prev[i] == rounds[i]);
            }
        }
    }
}

/// What the score of a user with a player in a competition shows: nothing for an unknown
/// player or one without any round; else the score (as a byte, keeping its low eight bits)
/// and the placement after the latest round.
pub open spec fn competition_score_of(player: Option<Player>, score: i32, rounds: Seq<RoundPlacement>) -> Option<
    (Player, u8, u32),
> {
    match player {
        None => None,
        Some(p) => if rounds.len() == 0 {
            None
        } else {
            Some((p, score as u8, rounds[latest_index(rounds)].placement as u32))
        },
    }
}

impl PlayerCompetitionScore {
    /// The shown score for a stored score, the player it is for (if found) and the player's
    /// placements in the competition's rounds.
    pub fn from_rounds(player: Option<Player>, score: i32, rounds: &Vec<RoundPlacement>) -> (r: Option<
        PlayerCompetitionScore,
    >)
        ensures
            match (r, competition_score_of(player, score, rounds@)) {
                (None, None) => true,
                (Some(s), Some(t)) => s.player == t.0 && s.score == t.1 && s.placement == t.2,
                _ => false,
            },
    {
        match player {
            None => None,
            Some(p) => {
                if rounds.len() == 0 {
                    return None;
                }
                let mut best: usize = 0;
                let mut i: usize = 1;
                while i < rounds.len()
                    invariant
                        1 <= i <= rounds.len(),
                        best < i,
                        best == latest_index(rounds@.take(i as int)),
                    decreases rounds.len() - i,
                {
                    let ghost pre = rounds@.take(i as int);
                    let ghost now = rounds@.take(i + 1);
                    assert(now.drop_last() =~= pre);
                    proof {
                        lemma_latest_index(pre);
                    }
                    assert(pre[best as int] == rounds@[best as int]);
                    if rounds[i].round >= rounds[best].round {
                        best = i;
                    }
                    i = i + 1;
                }
                assert(rounds@.take(i as int) =~= rounds@);
                proof {
                    lemma_latest_index(rounds@);
                }
                Some(PlayerCompetitionScore { player: p, score: score as u8, placement: rounds[best].placement as u32 })
            },
        }
    }
}

impl PlayerCompetitionScore {
    /// The shown score for a stored score, from the lookups of its player and of the player's
    /// placements in the competition's rounds (made only for a found player). A failed lookup
    /// gives an unknown error.
    pub fn from_db(player: Result<Option<Player>, ()>, score: i32, rounds: &Result<Vec<RoundPlacement>, ()>) -> (r:
        Result<Option<PlayerCompetitionScore>, GenericError>)
        ensures
            match player {
                Err(_) => r == Err::<Option<PlayerCompetitionScore>, GenericError>(
                    GenericError::UnknownError(
                        "Unknown internal db error while trying to get player from competition score",
                    ),
                ),
                Ok(None) => r matches Ok(None),
                Ok(Some(p)) => match *rounds {
                    Err(_) => r == Err::<Option<PlayerCompetitionScore>, GenericError>(
                        GenericError::UnknownError("Unable to get player round scores from db"),
                    ),
                    Ok(rs) => r matches Ok(o) && match (o, competition_score_of(Some(p), score, rs@)) {
                        (None, None) => true,
                        (Some(s), Some(t)) => s.player == t.0 && s.score == t.1 && s.placement == t.2,
                        _ => false,
                    },
                },
            },
    {
        match player {
            Err(_) => Err(
                GenericError::UnknownError("Unknown internal db error while trying to get player from competition score"),
            ),
            Ok(None) => Ok(None),
            Ok(Some(p)) => match rounds {
                Err(_) => Err(GenericError::UnknownError("Unable to get player round scores from db")),
                Ok(rs) => Ok(PlayerCompetitionScore::from_rounds(Some(p), score, rs)),
            },
        }
    }
}

impl Keyed for PlayerCompetitionScore {
    /// Ordered so that the falling key is the rising placement.
    open spec fn key_of(&self) -> i128 {
        (-self.placement) as i128
    }

    fn key(&self) -> (k: i128) {
        0i128 - self.placement as i128
    }
}

/// The scores that were found, in their order.
pub open spec fn found_scores(entries: Seq<Result<Option<PlayerCompetitionScore>, GenericError>>) -> Seq<
    PlayerCompetitionScore,
>
    decreases entries.len(),
{
    if entries.len() == 0 {
        Seq::empty()
    } else {
        let rest = found_scores(entries.drop_last());
        match entries.last() {
            Ok(Some(s)) => rest.push(s),
            _ => rest,
        }
    }
}

/// The error of the first entry whose lookups failed, if any.
pub open spec fn first_error(entries: Seq<Result<Option<PlayerCompetitionScore>, GenericError>>) -> Option<
    GenericError,
>
    decreases entries.len(),
{
    if entries.len() == 0 {
        None
    } else {
        match entries[0] {
            Err(e) => Some(e),
            Ok(_) => first_error(entries.drop_first()),
        }
    }
}

/// The sum of the scores.
pub open spec fn score_total(scores: Seq<PlayerCompetitionScore>) -> int
    decreases scores.len(),
{
    if scores.len() == 0 {
        0
    } else {
        score_total(scores.drop_last()) + scores.last().score
    }
}

proof fn lemma_score_total_bound(scores: Seq<PlayerCompetitionScore>)
    ensures
        0 <= score_total(scores) <= 255 * scores.len(),
    decreases scores.len(),
{
    if scores.len() > 0 {
        lemma_score_total_bound(scores.drop_last());
    }
}

impl CompetitionScores {
    /// The scores of a user in a competition, from the lookup of the stored scores and the
    /// shown score made of each: the first error where a lookup failed, else the scores that
    /// were found, best placement first (equal placements keep their order).
    pub fn new(entries: Result<Vec<Result<Option<PlayerCompetitionScore>, GenericError>>, ()>) -> (r: Result<
        CompetitionScores,
        GenericError,
    >)
        ensures
            match entries {
                Err(_) => r == Err::<CompetitionScores, GenericError>(
                    GenericError::UnknownError("Unable to get user scores from competition"),
                ),
                Ok(es) => match first_error(es@) {
                    Some(e) => r == Err::<CompetitionScores, GenericError>(e),
                    None => r matches Ok(c) && c.0@ == sorted_desc(found_scores(es@)),
                },
            },
    {
        let ghost ent = entries;
        let mut rest = match entries {
            Ok(es) => es,
            Err(_) => {
                return Err(GenericError::UnknownError("Unable to get user scores from competition"));
            },
        };
        let mut found: Vec<PlayerCompetitionScore> = Vec::new();
        let ghost all = rest@;
        let mut taken: usize = 0;
        assert(all.len() == rest.len());
        assert(all.skip(0) =~= all);
        while rest.len() > 0
            invariant
                taken + rest@.len() == all.len(),
                all.len() <= usize::MAX,
                rest@ == all.skip(taken as int),
                first_error(all) == first_error(all.skip(taken as int)),
                ent == entries,
                ent matches Ok(es) && es@ == all,
                found@ == found_scores(all.take(taken as int)),
            decreases rest@.len(),
        {
            let next = rest.remove(0);
            assert(next == all[taken as int]);
            assert(all.skip(taken as int)[0] == all[taken as int]);
            assert(all.skip(taken as int).drop_first() =~= all.skip(taken + 1));
            assert(all.take(taken + 1).drop_last() =~= all.take(taken as int));
            match next {
                Ok(Some(s)) => found.push(s),
                Ok(None) => {},
                Err(e) => {
                    return Err(e);
                },
            }
            taken = taken + 1;
            assert(rest@ =~= all.skip(taken as int));
        }
        assert(all.take(taken as int) =~= all);
        assert(all.skip(taken as int).len() == 0);
        Ok(CompetitionScores(sort_desc_by_key(found)))
    }

    /// The sum of the scores.
    pub fn total_score(&self) -> (t: u32)
        requires
            255 * self.0.len() <= u32::MAX,
        ensures
            t == score_total(self.0@),
    {
        let mut total: u32 = 0;
        let mut i: usize = 0;
        while i < self.0.len()
            invariant
                i <= self.0.len(),
                255 * self.0.len() <= u32::MAX,
                total == score_total(self.0@.take(i as int)),
            decreases self.0.len() - i,
        {
            let ghost pre = self.0@.take(i as int);
            assert(self.0@.take(i + 1).drop_last() =~= pre);
            proof {
                lemma_score_total_bound(pre);
            }
            total = total + self.0[i].score as u32;
            i = i + 1;
        }
        assert(self.0@.take(i as int) =~= self.0@);
        total
    }
}

} // verus!

verus! {

/// The names under which a kind of per-user data is shown: the name of the combined record
/// and the name of its data field.
pub trait AttributeName {
    const NAME: &'static str;
    const FIELD_NAME: &'static str;
}

/// A user's competition scores, as the data of a per-user record.
pub struct AttributeCompetitionScores(pub CompetitionScores);

impl AttributeName for AttributeCompetitionScores {
    const NAME: &'static str = "UserWithCompetitionScores";
    const FIELD_NAME: &'static str = "CompetitionScores";
}

/// A user together with a piece of data about them.
pub struct UserDataCombination<Data: AttributeName> {
    pub user: User,
    pub data: Data,
}

impl UserDataCombination<AttributeCompetitionScores> {
    /// A user's competition scores, as a per-user record.
    pub fn new(user: User, scores: CompetitionScores) -> (r: UserDataCombination<AttributeCompetitionScores>)
        ensures
            r.user == user,
            r.data.0 == scores,
    {
        UserDataCombination { user, data: AttributeCompetitionScores(scores) }
    }
}

} // verus!
