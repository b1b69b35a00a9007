use vstd::prelude::*;
use crate::division::{CompetitionLevel, Division, StoredDivision, division_from_stored};
use crate::round::PlayerScore;
use crate::scoring::{fantasy_points, tie_fits};

verus! {

/// The points a user earns from one picked player in one competition.
#[derive(Clone, Copy, Debug, PartialEq, Eq, Structural)]
pub struct UserScore {
    pub user: i32,
    pub score: i32,
    pub competition_id: u32,
    pub pdga_num: u32,
    pub fantasy_tournament_id: u32,
    pub benched: bool,
    pub slot: u8,
    pub division: Division,
}

/// A user's pick of a player, as stored: the slot it fills, whether it is on the bench and the
/// division it is in.
#[derive(Clone, Copy, Debug, PartialEq, Eq, Structural)]
pub struct StoredPick {
    pub user: i32,
    pub pick_number: i32,
    pub benched: bool,
    pub division: StoredDivision,
}

/// A user's points from a player in a competition, as they are stored.
#[derive(Clone, Copy, Debug, PartialEq, Eq, Structural)]
pub struct UserScoreRecord {
    pub user: i32,
    pub score: i32,
    pub fantasy_tournament_id: i32,
    pub competition_id: i32,
    pub pdga_number: i32,
}

impl UserScore {
    /// The points that a player's score earns the user who picked the player.
    pub fn for_pick(
        player: &PlayerScore,
        level: CompetitionLevel,
        pick: StoredPick,
        fantasy_tournament_id: u32,
        competition_id: u32,
    ) -> (u: UserScore)
        requires
            tie_fits(player.placement as int, player.tied),
        ensures
            u.user == pick.user,
            u.score == fantasy_points(player.placement as int, player.tied, level),
            u.competition_id == competition_id,
            u.pdga_num == player.pdga_number,
            u.fantasy_tournament_id == fantasy_tournament_id,
            u.benched == pick.benched,
            u.slot == pick.pick_number as u8,
            u.division == division_from_stored(pick.division),
    {
        let score = player.get_user_score(level) as i32;
        UserScore {
            user: pick.user,
            score,
            competition_id,
            pdga_num: player.pdga_number,
            fantasy_tournament_id,
            benched: pick.benched,
            slot: pick.pick_number as u8,
            division: Division::from_stored(pick.division),
        }
    }

    /// The stored form of the score for a competition.
    pub fn into_record(self, competition_id: i32) -> (r: UserScoreRecord)
        ensures
            r == (UserScoreRecord {
                user: self.user,
                score: self.score,
                fantasy_tournament_id: self.fantasy_tournament_id as i32,
                competition_id,
                pdga_number: self.pdga_num as i32,
            }),
    {
        UserScoreRecord {
            user: self.user,
            score: self.score,
            fantasy_tournament_id: self.fantasy_tournament_id as i32,
            competition_id,
            pdga_number: self.pdga_num as i32,
        }
    }
}

/// A sequence with every run of equal neighbours cut down to its first element.
pub open spec fn dedup_runs<T>(s: Seq<T>) -> Seq<T>
    decreases s.len(),
{
    if s.len() <= 1 {
        s
    } else if s.last() == s[s.len() - 2] {
        dedup_runs(s.drop_last())
    } else {
        dedup_runs(s.drop_last()).push(s.last())
    }
}

/// The scores of one user in one division, in order.
pub open spec fn played_picks(scores: Seq<UserScore>, user: i32, division: Division) -> Seq<UserScore>
    decreases scores.len(),
{
    if scores.len() == 0 {
        Seq::empty()
    } else {
        let rest = played_picks(scores.drop_last(), user, division);
        let s = scores.last();
        if s.user == user && s.division == division {
            rest.push(s)
        } else {
            rest
        }
    }
}

/// The scores whose slot is at most `limit`.
pub open spec fn slots_within(scores: Seq<UserScore>, limit: int) -> Seq<UserScore>
    decreases scores.len(),
{
    if scores.len() == 0 {
        Seq::empty()
    } else {
        let rest = slots_within(scores.drop_last(), limit);
        if scores.last().slot as int <= limit {
            rest.push(scores.last())
        } else {
            rest
        }
    }
}

/// The slots that count when a user has `played` scoring players in a division: every slot up to
/// twice the picks allowed, less the bench size and less the players who scored.
pub open spec fn counting_limit(max_picks: int, bench_size: int, played: int) -> int {
    max_picks - (bench_size - (max_picks - played))
}

/// The counting scores of one user in the divisions `divs`, division after division.
pub open spec fn user_counting(scores: Seq<UserScore>, user: i32, divs: Seq<Division>, max_picks: int, bench_size: int) -> Seq<
    UserScore,
>
    decreases divs.len(),
{
    if divs.len() == 0 {
        Seq::empty()
    } else {
        let played = played_picks(scores, user, divs.last());
        user_counting(scores, user, divs.drop_last(), max_picks, bench_size) + slots_within(
            played,
            counting_limit(max_picks, bench_size, played.len() as int),
        )
    }
}

/// The counting scores of the users `users`, user after user.
pub open spec fn all_counting(scores: Seq<UserScore>, users: Seq<i32>, divs: Seq<Division>, max_picks: int, bench_size: int) -> Seq<
    UserScore,
>
    decreases users.len(),
{
    if users.len() == 0 {
        Seq::empty()
    } else {
        all_counting(scores, users.drop_last(), divs, max_picks, bench_size) + user_counting(
            scores,
            users.last(),
            divs,
            max_picks,
            bench_size,
        )
    }
}

/// The scores that count towards users' totals: for each user (in order of first appearance in
/// runs) and each division (likewise), the user's scores in that division whose slot is within
/// the counting limit.
pub open spec fn counting_scores(scores: Seq<UserScore>, max_picks: int, bench_size: int) -> Seq<UserScore> {
    all_counting(
        scores,
        dedup_runs(scores.map_values(|s: UserScore| s.user)),
        dedup_runs(scores.map_values(|s: UserScore| s.division)),
        max_picks,
        bench_size,
    )
}

fn dedup_users(scores: &Vec<UserScore>) -> (r: Vec<i32>)
    ensures
        r@ == dedup_runs(scores@.map_values(|s: UserScore| s.user)),
{
    let ghost all = scores@.map_values(|s: UserScore| s.user);
    let mut out: Vec<i32> = Vec::new();
    let mut i: usize = 0;
    while i < scores.len()
        invariant
            i <= scores.len(),
            all == scores@.map_values(|s: UserScore| s.user),
            out@ == dedup_runs(all.take(i as int)),
        decreases scores.len() - i,
    {
        assert(all.take(i + 1).drop_last() =~= all.take(i as int));
        if i == 0 {
            out.push(scores[i].user);
            assert(out@ =~= all.take(1));
        } else if scores[i].user != scores[i - 1].user {
            out.push(scores[i].user);
        }
        i = i + 1;
    }
    assert(all.take(i as int) =~= all);
    out
}

fn dedup_divisions(scores: &Vec<UserScore>) -> (r: Vec<Division>)
    ensures
        r@ == dedup_runs(scores@.map_values(|s: UserScore| s.division)),
{
    let ghost all = scores@.map_values(|s: UserScore| s.division);
    let mut out: Vec<Division> = Vec::new();
    let mut i: usize = 0;
    while i < scores.len()
        invariant
            i <= scores.len(),
            all == scores@.map_values(|s: UserScore| s.division),
            out@ == dedup_runs(all.take(i as int)),
        decreases scores.len() - i,
    {
        assert(all.take(i + 1).drop_last() =~= all.take(i as int));
        if i == 0 {
            out.push(scores[i].division);
            assert(out@ =~= all.take(1));
        } else if scores[i].division != scores[i - 1].division {
            out.push(scores[i].division);
        }
        i = i + 1;
    }
    assert(all.take(i as int) =~= all);
    out
}

fn picks_of(scores: &Vec<UserScore>, user: i32, division: Division) -> (r: Vec<UserScore>)
    ensures
        r@ == played_picks(scores@, user, division),
{
    let mut out: Vec<UserScore> = Vec::new();
    let mut i: usize = 0;
    while i < scores.len()
        invariant
            i <= scores.len(),
            out@ == played_picks(scores@.take(i as int), user, division),
        decreases scores.len() - i,
    {
        assert(scores@.take(i + 1).drop_last() =~= scores@.take(i as int));
        if scores[i].user == user && scores[i].division == division {
            out.push(scores[i]);
        }
        i = i + 1;
    }
    assert(scores@.take(i as int) =~= scores@);
    out
}

/// Keeps, for every user and division, the scores of the slots that count: a user whose
/// players did not all score loses as many bench slots. Users and divisions are taken in the
/// order they first appear in runs of the list.
pub fn counting_user_scores(scores: &Vec<UserScore>, max_picks: i32, bench_size: i32) -> (r: Vec<UserScore>)
    ensures
        r@ == counting_scores(scores@, max_picks as int, bench_size as int),
{
    let users = dedup_users(scores);
    let divs = dedup_divisions(scores);
    let mut out: Vec<UserScore> = Vec::new();
    let mut u: usize = 0;
    while u < users.len()
        invariant
            u <= users.len(),
            out@ == all_counting(scores@, users@.take(u as int), divs@, max_picks as int, bench_size as int),
        decreases users.len() - u,
    {
        let user = users[u];
        let ghost before = out@;
        let mut d: usize = 0;
        while d < divs.len()
            invariant
                d <= divs.len(),
                out@ == before + user_counting(scores@, user, divs@.take(d as int), max_picks as int, bench_size as int),
            decreases divs.len() - d,
        {
            let played = picks_of(scores, user, divs[d]);
            let amount = played.len();
            let limit: i128 = max_picks as i128 - (bench_size as i128 - (max_picks as i128 - amount as i128));
            let ghost mid = out@;
            let mut k: usize = 0;
            while k < played.len()
                invariant
                    k <= played.len(),
                    amount == played.len(),
                    limit == counting_limit(max_picks as int, bench_size as int, amount as int),
                    out@ == mid + slots_within(played@.take(k as int), limit as int),
                decreases played.len() - k,
            {
                assert(played@.take(k + 1).drop_last() =~= played@.take(k as int));
                if (played[k].slot as i128) <= limit {
                    out.push(played[k]);
                }
                k = k + 1;
            }
            assert(played@.take(k as int) =~= played@);
            assert(divs@.take(d + 1).drop_last() =~= divs@.take(d as int));
            d = d + 1;
        }
        assert(divs@.take(d as int) =~= divs@);
        assert(users@.take(u + 1).drop_last() =~= users@.take(u as int));
        u = u + 1;
    }
    assert(users@.take(u as int) =~= users@);
    out
}

/// The scores with only the first score of each PDGA number kept.
pub open spec fn first_per_player(scores: Seq<UserScore>) -> Seq<UserScore>
    decreases scores.len(),
{
    if scores.len() == 0 {
        Seq::empty()
    } else {
        let rest = first_per_player(scores.drop_last());
        if exists|j: int| 0 <= j < rest.len() && #[trigger] rest[j].pdga_num == scores.last().pdga_num {
            rest
        } else {
            rest.push(scores.last())
        }
    }
}

/// Keeps the first score of each player: a player scores once per competition.
pub fn unique_player_scores(scores: &Vec<UserScore>) -> (r: Vec<UserScore>)
    ensures
        r@ == first_per_player(scores@),
{
    let mut out: Vec<UserScore> = Vec::new();
    let mut i: usize = 0;
    while i < scores.len()
        invariant
            i <= scores.len(),
            out@ == first_per_player(scores@.take(i as int)),
        decreases scores.len() - i,
    {
        assert(scores@.take(i + 1).drop_last() =~= scores@.take(i as int));
        let mut seen = false;
        let mut j: usize = 0;
        while j < out.len()
            invariant
                j <= out.len(),
                i < scores.len(),
                seen == exists|t: int| 0 <= t < j && #[trigger] out@[t].pdga_num == scores@[i as int].pdga_num,
            decreases out.len() - j,
        {
            if out[j].pdga_num == scores[i].pdga_num {
                seen = true;
            }
            j = j + 1;
        }
        if !seen {
            out.push(scores[i]);
        }
        i = i + 1;
    }
    assert(scores@.take(i as int) =~= scores@);
    out
}

proof fn lemma_first_per_player(scores: Seq<UserScore>)
    ensures
        forall|a: int, b: int|
            0 <= a < b < first_per_player(scores).len() ==> (#[trigger] first_per_player(scores)[a]).pdga_num
                != (#[trigger] first_per_player(scores)[b]).pdga_num,
        forall|i: int|
            0 <= i < scores.len() ==> exists|j: int|
                0 <= j < first_per_player(scores).len() && #[trigger] first_per_player(scores)[j].pdga_num
                    == (#[trigger] scores[i]).pdga_num,
    decreases scores.len(),
{
    if scores.len() > 0 {
        let prev = scores.drop_last();
        lemma_first_per_player(prev);
        let rest = first_per_player(prev);
        let full = first_per_player(scores);
        assert(rest.len() <= full.len());
        assert(forall|j: int| 0 <= j < rest.len() ==> full[j] == rest[j]);
        assert forall|i: int| 0 <= i < scores.len() implies exists|j: int|
            0 <= j < full.len() && #[trigger] full[j].pdga_num == (#[trigger] scores[i]).pdga_num by {
            if i < scores.len() - 1 {
                assert(scores[i] == prev[i]);
                assert(exists|j: int| 0 <= j < rest.len() && #[trigger] rest[j].pdga_num == prev[i].pdga_num);
                let j = choose|j: int| 0 <= j < rest.len() && #[trigger] rest[j].pdga_num == prev[i].pdga_num;
                assert(full[j] == rest[j]);
                assert(full[j].pdga_num == scores[i].pdga_num);
            } else {
                if exists|j: int| 0 <= j < rest.len() && #[trigger] rest[j].pdga_num == scores.last().pdga_num {
                    let j = choose|j: int| 0 <= j < rest.len() && #[trigger] rest[j].pdga_num == scores.last().pdga_num;
                    assert(full[j] == rest[j]);
                    assert(full[j].pdga_num == scores[i].pdga_num);
                } else {
                    assert(full[rest.len() as int] == scores.last());
                    assert(full[rest.len() as int].pdga_num == scores[i].pdga_num);
                }
            }
        }
    }
}

/// The stored form of a score for a competition.
pub open spec fn record_of(s: UserScore, competition_id: i32) -> UserScoreRecord {
    UserScoreRecord {
        user: s.user,
        score: s.score,
        fantasy_tournament_id: s.fantasy_tournament_id as i32,
        competition_id,
        pdga_number: s.pdga_num as i32,
    }
}

/// The rows that replace a competition's stored user scores: `None` where there are no
/// scores (the stored rows stay), else one row per player, made from the player's first
/// score.
pub fn scores_to_store(scores: &Vec<UserScore>, competition_id: i32) -> (r: Option<Vec<UserScoreRecord>>)
    ensures
        scores@.len() == 0 ==> r is None,
        scores@.len() > 0 ==> (r matches Some(v) && v@ == first_per_player(scores@).map_values(
            |s: UserScore| record_of(s, competition_id),
        )),
{
    if scores.len() == 0 {
        return None;
    }
    let unique = unique_player_scores(scores);
    let mut out: Vec<UserScoreRecord> = Vec::new();
    let mut i: usize = 0;
    while i < unique.len()
        invariant
            i <= unique.len(),
            out@ == unique@.take(i as int).map_values(|s: UserScore| record_of(s, competition_id)),
        decreases unique.len() - i,
    {
        out.push(unique[i].into_record(competition_id));
        assert(out@ =~= unique@.take(i + 1).map_values(|s: UserScore| record_of(s, competition_id)));
        i = i + 1;
    }
    assert(unique@.take(i as int) =~= unique@);
    Some(out)
}

/// Whether the score at `i` is the first with its PDGA number.
pub open spec fn first_of_player(scores: Seq<UserScore>, i: int) -> bool {
    forall|k: int| 0 <= k < i ==> (#[trigger] scores[k]).pdga_num != scores[i].pdga_num
}

/// Whether a kept score is the first score of its player in the list.
pub open spec fn comes_first(scores: Seq<UserScore>, kept: UserScore) -> bool {
    exists|i: int| 0 <= i < scores.len() && scores[i] == kept && first_of_player(scores, i)
}

proof fn lemma_first_per_player_origin(scores: Seq<UserScore>)
    ensures
        forall|j: int| 0 <= j < first_per_player(scores).len() ==> comes_first(scores, #[trigger] first_per_player(scores)[j]),
    decreases scores.len(),
{
    if scores.len() > 0 {
        let prev = scores.drop_last();
        lemma_first_per_player_origin(prev);
        lemma_first_per_player(prev);
        let rest = first_per_player(prev);
        let full = first_per_player(scores);
        assert forall|j: int| 0 <= j < full.len() implies comes_first(scores, #[trigger] full[j]) by {
            if j < rest.len() {
                assert(full[j] == rest[j]);
                assert(comes_first(prev, rest[j]));
                let i = choose|i: int| 0 <= i < prev.len() && prev[i] == rest[j] && first_of_player(prev, i);
                assert(scores[i] == prev[i]);
                assert forall|k: int| 0 <= k < i implies (#[trigger] scores[k]).pdga_num != scores[i].pdga_num by {
                    assert(scores[k] == prev[k]);
                }
                assert(first_of_player(scores, i));
            } else {
                let last = (scores.len() - 1) as int;
                assert(!(exists|t: int| 0 <= t < rest.len() && #[trigger] rest[t].pdga_num == scores.last().pdga_num));
                assert(full[j] == scores[last]);
                assert forall|k: int| 0 <= k < last implies (#[trigger] scores[k]).pdga_num != scores[last].pdga_num by {
                    assert(scores[k] == prev[k]);
                    if prev[k].pdga_num == scores[last].pdga_num {
                        assert(exists|t: int| 0 <= t < rest.len() && #[trigger] rest[t].pdga_num == (#[trigger] prev[k]).pdga_num);
                        let t = choose|t: int| 0 <= t < rest.len() && #[trigger] rest[t].pdga_num == (#[trigger] prev[k]).pdga_num;
                        assert(rest[t].pdga_num == scores.last().pdga_num);
                    }
                }
                assert(first_of_player(scores, last));
            }
        }
    }
}

/// The rows that replace a competition's user scores hold one row per player who scored: no
/// two rows share a player, every player who scored has a row, and each row is made from the
/// first score of its player.
pub proof fn law_stored_scores_one_per_player(scores: Seq<UserScore>)
    ensures
        forall|a: int, b: int|
            0 <= a < b < first_per_player(scores).len() ==> (#[trigger] first_per_player(scores)[a]).pdga_num
                != (#[trigger] first_per_player(scores)[b]).pdga_num,
        forall|i: int|
            0 <= i < scores.len() ==> exists|j: int|
                0 <= j < first_per_player(scores).len() && #[trigger] first_per_player(scores)[j].pdga_num
                    == (#[trigger] scores[i]).pdga_num,
        forall|j: int| 0 <= j < first_per_player(scores).len() ==> comes_first(scores, #[trigger] first_per_player(scores)[j]),
{
    lemma_first_per_player(scores);
    lemma_first_per_player_origin(scores);
}

} // verus!

verus! {

proof fn lemma_slots_within_members(scores: Seq<UserScore>, limit: int)
    ensures
        forall|x: UserScore|
            #[trigger] slots_within(scores, limit).contains(x) <==> scores.contains(x) && x.slot as int <= limit,
    decreases scores.len(),
{
    if scores.len() > 0 {
        let prev = scores.drop_last();
        lemma_slots_within_members(prev, limit);
        let rest = slots_within(prev, limit);
        let last = scores.last();
        assert forall|x: UserScore| #[trigger] slots_within(scores, limit).contains(x) <==> scores.contains(x)
            && x.slot as int <= limit by {
            if last.slot as int <= limit {
                assert(slots_within(scores, limit) == rest.push(last));
                assert(rest.push(last)[rest.len() as int] == last);
                if rest.push(last).contains(x) && !rest.contains(x) {
                    let k = choose|k: int| 0 <= k < rest.push(last).len() && rest.push(last)[k] == x;
                    if k < rest.len() {
                        assert(rest[k] == x);
                    }
                }
                if rest.contains(x) {
                    let k = choose|k: int| 0 <= k < rest.len() && rest[k] == x;
                    assert(rest.push(last)[k] == x);
                }
            } else {
                assert(slots_within(scores, limit) == rest);
            }
            if scores.contains(x) && x.slot as int <= limit {
                let i = choose|i: int| 0 <= i < scores.len() && scores[i] == x;
                if i < prev.len() {
                    assert(prev[i] == x);
                    assert(prev.contains(x));
                } else {
                    assert(x == scores.last());
                }
            }
            if slots_within(scores, limit).contains(x) {
                if rest.contains(x) {
                    let j = choose|j: int| 0 <= j < prev.len() && prev[j] == x;
                    assert(scores[j] == x);
                } else {
                    assert(x == scores.last());
                    assert(scores[scores.len() - 1] == x);
                }
            }
        }
    }
}

/// Each picked player who did not score lets one more bench slot count. When every pick of a
/// division scored, the slots up to the picks allowed less the bench size count; every player
/// missing from the scores raises that limit by one slot. Of the scores of a division, those
/// whose slot is within the limit count, and no others.
pub proof fn law_missing_scorers_free_bench_slots(played: Seq<UserScore>, max_picks: int, bench_size: int)
    ensures
        counting_limit(max_picks, bench_size, max_picks) == max_picks - bench_size,
        forall|p: int|
            #![trigger counting_limit(max_picks, bench_size, p)]
            counting_limit(max_picks, bench_size, p) == counting_limit(max_picks, bench_size, p + 1) + 1,
        forall|x: UserScore|
            #[trigger] slots_within(played, counting_limit(max_picks, bench_size, played.len() as int)).contains(x)
                <==> played.contains(x) && x.slot as int <= max_picks - bench_size + (max_picks - played.len()),
{
    lemma_slots_within_members(played, counting_limit(max_picks, bench_size, played.len() as int));
}

} // verus!
