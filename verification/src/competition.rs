use vstd::prelude::*;
use crate::division::{Division, StoredDivision, stored_division};
use crate::error::GenericError;
use crate::round::{
    PlayerScore, RoundInformation, RoundLabel, RoundLabelInfo, RoundStatus, label_from_text, player_statuses,
    round_number_from_label, round_records, round_status_of, same_score, RoundScoreRecord,
};
use crate::sorting::{Keyed, lemma_sorted_len, sort_desc_by_key, sorted_desc};
use crate::text::lowercase_of;
use crate::time::{LocalTime, valid_time};
use crate::dates::{DateRange, local_date, range_days};

verus! {

/// Where a competition stands: pending, running in a round (0-based), or finished.
#[derive(Clone, Copy, Debug, PartialEq, Eq, Structural)]
pub enum CompetitionStatus {
    Pending,
    Active(usize),
    Finished,
}

/// The status of a competition or a round as it is stored.
#[derive(Clone, Copy, Debug, PartialEq, Eq, Structural)]
pub enum StoredCompetitionStatus {
    NotStarted,
    Running,
    Finished,
}

impl StoredCompetitionStatus {
    /// The stored status of a round status.
    pub fn from_round_status(s: RoundStatus) -> (r: StoredCompetitionStatus)
        ensures
            r == (match s {
                RoundStatus::Pending => StoredCompetitionStatus::NotStarted,
                RoundStatus::Started => StoredCompetitionStatus::Running,
                RoundStatus::Finished => StoredCompetitionStatus::Finished,
            }),
    {
        match s {
            RoundStatus::Pending => StoredCompetitionStatus::NotStarted,
            RoundStatus::Started => StoredCompetitionStatus::Running,
            RoundStatus::Finished => StoredCompetitionStatus::Finished,
        }
    }

    /// The stored status of a competition status.
    pub fn from_competition_status(s: CompetitionStatus) -> (r: StoredCompetitionStatus)
        ensures
            r == stored_status(s),
    {
        match s {
            CompetitionStatus::Pending => StoredCompetitionStatus::NotStarted,
            CompetitionStatus::Active(_) => StoredCompetitionStatus::Running,
            CompetitionStatus::Finished => StoredCompetitionStatus::Finished,
        }
    }
}

pub open spec fn stored_status(s: CompetitionStatus) -> StoredCompetitionStatus {
    match s {
        CompetitionStatus::Pending => StoredCompetitionStatus::NotStarted,
        CompetitionStatus::Active(_) => StoredCompetitionStatus::Running,
        CompetitionStatus::Finished => StoredCompetitionStatus::Finished,
    }
}

/// A competition and its rounds, in order of their numbers.
pub struct CompetitionInfo {
    pub name: String,
    pub competition_id: u32,
    pub divisions: Vec<Division>,
    pub rounds: Vec<RoundInformation>,
    pub highest_completed_round: Option<u8>,
    pub date_range: DateRange,
    pub amount_of_rounds: usize,
}

pub open spec fn status_of_round(r: RoundInformation) -> RoundStatus {
    round_status_of(r.phantom, player_statuses(r.players@))
}

pub open spec fn round_statuses(rounds: Seq<RoundInformation>) -> Seq<RoundStatus> {
    rounds.map_values(|r: RoundInformation| status_of_round(r))
}

/// The position of the first status equal to `s`, or the length when there is none.
pub open spec fn first_with(st: Seq<RoundStatus>, s: RoundStatus) -> int
    decreases st.len(),
{
    if st.len() == 0 {
        0
    } else if st[0] == s {
        0
    } else {
        1 + first_with(st.drop_first(), s)
    }
}

/// The position of the last status equal to `s`, or -1 when there is none.
pub open spec fn last_with(st: Seq<RoundStatus>, s: RoundStatus) -> int
    decreases st.len(),
{
    if st.len() == 0 {
        -1
    } else if st.last() == s {
        st.len() - 1
    } else {
        last_with(st.drop_last(), s)
    }
}

pub open spec fn all_finished(st: Seq<RoundStatus>) -> bool {
    forall|i: int| 0 <= i < st.len() ==> st[i] == RoundStatus::Finished
}

/// The status of a competition: finished when every round has finished and the competition
/// may end; otherwise running in the round before the number of the first started round;
/// otherwise running at the position of the last finished round; otherwise pending.
pub open spec fn competition_status(rounds: Seq<RoundInformation>, allowed_to_end: bool) -> CompetitionStatus {
    let st = round_statuses(rounds);
    if all_finished(st) && allowed_to_end {
        CompetitionStatus::Finished
    } else if first_with(st, RoundStatus::Started) < st.len() {
        CompetitionStatus::Active((rounds[first_with(st, RoundStatus::Started)].round_number - 1) as usize)
    } else if last_with(st, RoundStatus::Finished) >= 0 {
        CompetitionStatus::Active(last_with(st, RoundStatus::Finished) as usize)
    } else {
        CompetitionStatus::Pending
    }
}

/// What a competition's status needs: the first started round has a number.
pub open spec fn status_defined(rounds: Seq<RoundInformation>) -> bool {
    let st = round_statuses(rounds);
    first_with(st, RoundStatus::Started) < st.len() ==> rounds[first_with(st, RoundStatus::Started)].round_number
        >= 1
}

pub open spec fn finished_count(st: Seq<RoundStatus>) -> nat
    decreases st.len(),
{
    if st.len() == 0 {
        0
    } else {
        finished_count(st.drop_last()) + if st.last() == RoundStatus::Finished { 1nat } else { 0nat }
    }
}

/// The position of the current round: for a finished competition the last finished one,
/// for a running one the round it runs in, and 0 for a pending one.
pub open spec fn current_round_of(rounds: Seq<RoundInformation>, allowed_to_end: bool) -> int {
    match competition_status(rounds, allowed_to_end) {
        CompetitionStatus::Finished => finished_count(round_statuses(rounds)) - 1,
        CompetitionStatus::Active(r) => r as int,
        CompetitionStatus::Pending => 0,
    }
}

proof fn lemma_first_with(st: Seq<RoundStatus>, s: RoundStatus)
    ensures
        0 <= first_with(st, s) <= st.len(),
        first_with(st, s) < st.len() ==> st[first_with(st, s)] == s,
        forall|j: int| 0 <= j < first_with(st, s) ==> st[j] != s,
    decreases st.len(),
{
    if st.len() > 0 && st[0] != s {
        lemma_first_with(st.drop_first(), s);
        assert forall|j: int| 0 <= j < first_with(st, s) implies st[j] != s by {
            if j > 0 {
                assert(st[j] == st.drop_first()[j - 1]);
            }
        }
    }
}

proof fn lemma_last_with(st: Seq<RoundStatus>, s: RoundStatus)
    ensures
        -1 <= last_with(st, s) < st.len(),
        last_with(st, s) >= 0 ==> st[last_with(st, s)] == s,
        forall|j: int| last_with(st, s) < j < st.len() ==> st[j] != s,
    decreases st.len(),
{
    if st.len() > 0 && st.last() != s {
        lemma_last_with(st.drop_last(), s);
        assert forall|j: int| last_with(st, s) < j < st.len() implies st[j] != s by {
            if j < st.len() - 1 {
                assert(st[j] == st.drop_last()[j]);
            }
        }
    }
}

proof fn lemma_all_finished_count(st: Seq<RoundStatus>)
    requires
        all_finished(st),
    ensures
        finished_count(st) == st.len(),
    decreases st.len(),
{
    if st.len() > 0 {
        lemma_all_finished_count(st.drop_last());
    }
}

proof fn lemma_finished_count_bound(st: Seq<RoundStatus>)
    ensures
        finished_count(st) <= st.len(),
    decreases st.len(),
{
    if st.len() > 0 {
        lemma_finished_count_bound(st.drop_last());
    }
}

/// A competition counts as finished only when every round has finished and it may end.
pub proof fn law_finished_only_when_all_rounds_finished(rounds: Seq<RoundInformation>, allowed_to_end: bool)
    ensures
        competition_status(rounds, allowed_to_end) == CompetitionStatus::Finished <==> all_finished(
            round_statuses(rounds),
        ) && allowed_to_end,
{
}

/// A competition in which no round has started or finished is pending, unless it has no
/// rounds at all and may end.
pub proof fn law_pending_until_a_round_moves(rounds: Seq<RoundInformation>, allowed_to_end: bool)
    requires
        forall|i: int| 0 <= i < rounds.len() ==> #[trigger] status_of_round(rounds[i]) == RoundStatus::Pending,
        rounds.len() > 0 || !allowed_to_end,
    ensures
        competition_status(rounds, allowed_to_end) == CompetitionStatus::Pending,
{
    let st = round_statuses(rounds);
    lemma_first_with(st, RoundStatus::Started);
    lemma_last_with(st, RoundStatus::Finished);
    if rounds.len() > 0 {
        assert(st[0] == RoundStatus::Pending);
    }
    if first_with(st, RoundStatus::Started) < st.len() {
        assert(st[first_with(st, RoundStatus::Started)] == status_of_round(rounds[first_with(st, RoundStatus::Started)]));
    }
    if last_with(st, RoundStatus::Finished) >= 0 {
        assert(st[last_with(st, RoundStatus::Finished)] == status_of_round(rounds[last_with(st, RoundStatus::Finished)]));
    }
}

/// A running competition that has a started round runs in the round before the first
/// started round's number.
pub proof fn law_running_round_is_first_started(rounds: Seq<RoundInformation>, allowed_to_end: bool, i: int)
    requires
        0 <= i < rounds.len(),
        status_of_round(rounds[i]) == RoundStatus::Started,
        forall|j: int| 0 <= j < i ==> #[trigger] status_of_round(rounds[j]) != RoundStatus::Started,
    ensures
        competition_status(rounds, allowed_to_end) == CompetitionStatus::Active((rounds[i].round_number - 1) as usize),
{
    let st = round_statuses(rounds);
    lemma_first_with(st, RoundStatus::Started);
    assert(st[i] == RoundStatus::Started);
    assert(!all_finished(st));
    if first_with(st, RoundStatus::Started) < i {
        let k = first_with(st, RoundStatus::Started);
        assert(st[k] == status_of_round(rounds[k]));
    }
    if first_with(st, RoundStatus::Started) > i {
        assert(st[i] != RoundStatus::Started);
    }
}

impl CompetitionInfo {
    /// The status of every round, in order.
    pub fn round_statuses(&self) -> (st: Vec<RoundStatus>)
        ensures
            st@ == round_statuses(self.rounds@),
    {
        let mut st: Vec<RoundStatus> = Vec::new();
        let mut i: usize = 0;
        while i < self.rounds.len()
            invariant
                i <= self.rounds.len(),
                st@ == round_statuses(self.rounds@.take(i as int)),
            decreases self.rounds.len() - i,
        {
            st.push(self.rounds[i].status());
            assert(round_statuses(self.rounds@.take(i + 1)) =~= round_statuses(self.rounds@.take(i as int)).push(
                status_of_round(self.rounds@[i as int]),
            ));
            i = i + 1;
        }
        assert(self.rounds@.take(i as int) =~= self.rounds@);
        st
    }

    /// The status of the competition, given whether it may already count as ended.
    pub fn status(&self, allowed_to_end: bool) -> (s: CompetitionStatus)
        requires
            status_defined(self.rounds@),
        ensures
            s == competition_status(self.rounds@, allowed_to_end),
    {
        let st = self.round_statuses();
        let ghost sts = st@;
        proof {
            lemma_first_with(sts, RoundStatus::Started);
            lemma_last_with(sts, RoundStatus::Finished);
        }
        let mut all_done = true;
        let mut i: usize = 0;
        while i < st.len()
            invariant
                i <= st.len(),
                all_done == (forall|j: int| 0 <= j < i ==> sts[j] == RoundStatus::Finished),
                sts == st@,
            decreases st.len() - i,
        {
            if st[i] != RoundStatus::Finished {
                all_done = false;
            }
            i = i + 1;
        }
        if all_done && allowed_to_end {
            return CompetitionStatus::Finished;
        }
        let mut k: usize = 0;
        while k < st.len()
            invariant
                k <= st.len(),
                sts == st@,
                sts == round_statuses(self.rounds@),
                self.rounds.len() == st.len(),
                forall|j: int| 0 <= j < k ==> sts[j] != RoundStatus::Started,
                0 <= first_with(sts, RoundStatus::Started) <= sts.len(),
                first_with(sts, RoundStatus::Started) < sts.len() ==> sts[first_with(sts, RoundStatus::Started)]
                    == RoundStatus::Started,
                forall|j: int| 0 <= j < first_with(sts, RoundStatus::Started) ==> sts[j] != RoundStatus::Started,
                status_defined(self.rounds@),
            decreases st.len() - k,
        {
            if st[k] == RoundStatus::Started {
                assert(first_with(sts, RoundStatus::Started) == k);
                return CompetitionStatus::Active(self.rounds[k].round_number - 1);
            }
            k = k + 1;
        }
        assert(first_with(sts, RoundStatus::Started) == sts.len());
        assert(!(all_finished(sts) && allowed_to_end)) by {
            if all_finished(sts) && allowed_to_end {
                assert(all_done);
            }
        }
        let mut j: usize = st.len();
        while j > 0
            invariant
                j <= st.len(),
                sts == st@,
                sts == round_statuses(self.rounds@),
                !(all_finished(sts) && allowed_to_end),
                first_with(sts, RoundStatus::Started) == sts.len(),
                forall|t: int| j <= t < sts.len() ==> sts[t] != RoundStatus::Finished,
                -1 <= last_with(sts, RoundStatus::Finished) < sts.len(),
                last_with(sts, RoundStatus::Finished) >= 0 ==> sts[last_with(sts, RoundStatus::Finished)]
                    == RoundStatus::Finished,
                forall|t: int| last_with(sts, RoundStatus::Finished) < t < sts.len() ==> sts[t] != RoundStatus::Finished,
            decreases j,
        {
            if st[j - 1] == RoundStatus::Finished {
                assert(last_with(sts, RoundStatus::Finished) == j - 1);
                return CompetitionStatus::Active(j - 1);
            }
            j = j - 1;
        }
        assert(last_with(sts, RoundStatus::Finished) == -1);
        CompetitionStatus::Pending
    }

    /// The position of the current round.
    pub fn current_round(&self, allowed_to_end: bool) -> (c: usize)
        requires
            status_defined(self.rounds@),
            competition_status(self.rounds@, allowed_to_end) == CompetitionStatus::Finished ==> self.rounds@.len()
                > 0,
        ensures
            c == current_round_of(self.rounds@, allowed_to_end),
    {
        let st = self.round_statuses();
        let mut highest: usize = 0;
        let mut i: usize = 0;
        while i < st.len()
            invariant
                i <= st.len(),
                highest == finished_count(st@.take(i as int)),
                highest <= i,
            decreases st.len() - i,
        {
            assert(st@.take(i + 1).drop_last() =~= st@.take(i as int));
            if st[i] == RoundStatus::Finished {
                highest = highest + 1;
            }
            i = i + 1;
        }
        assert(st@.take(i as int) =~= st@);
        match self.status(allowed_to_end) {
            CompetitionStatus::Finished => {
                proof {
                    lemma_all_finished_count(st@);
                }
                highest - 1
            },
            CompetitionStatus::Active(round) => round,
            CompetitionStatus::Pending => 0,
        }
    }
}

/// The scores without repeats: of a run of equal scores only the first is kept.
pub open spec fn dedup_scores(s: Seq<PlayerScore>) -> Seq<PlayerScore>
    decreases s.len(),
{
    if s.len() <= 1 {
        s
    } else if same_score(s.last(), s[s.len() - 2]) {
        dedup_scores(s.drop_last())
    } else {
        dedup_scores(s.drop_last()).push(s.last())
    }
}

/// A player's score, replaced by the last score in `replacements` with the same PDGA number.
pub open spec fn replaced_score(p: PlayerScore, replacements: Seq<PlayerScore>) -> PlayerScore
    decreases replacements.len(),
{
    if replacements.len() == 0 {
        p
    } else if replacements.last().pdga_number == p.pdga_number {
        replacements.last()
    } else {
        replaced_score(p, replacements.drop_last())
    }
}

/// Some score in `replacements` belongs to the player with PDGA number `pdga`.
pub open spec fn has_score_of(replacements: Seq<PlayerScore>, pdga: u32) -> bool {
    exists|j: int| 0 <= j < replacements.len() && (#[trigger] replacements[j]).pdga_number == pdga
}

/// `replacements[j]` is the last score in `replacements` of the player with PDGA number `pdga`.
pub open spec fn last_score_of(replacements: Seq<PlayerScore>, pdga: u32, j: int) -> bool {
    &&& 0 <= j < replacements.len()
    &&& replacements[j].pdga_number == pdga
    &&& forall|k: int| j < k < replacements.len() ==> (#[trigger] replacements[k]).pdga_number != pdga
}

/// `s` is the last score in `replacements` of the player with PDGA number `pdga`.
pub open spec fn is_last_score_of(replacements: Seq<PlayerScore>, pdga: u32, s: PlayerScore) -> bool {
    exists|j: int| #[trigger] last_score_of(replacements, pdga, j) && s == replacements[j]
}

/// A score is replaced by the player's own last score among the replacements, and kept as it
/// is when the player has none there.
pub proof fn law_replacement_is_players_last_score(p: PlayerScore, replacements: Seq<PlayerScore>)
    ensures
        has_score_of(replacements, p.pdga_number) ==> is_last_score_of(
            replacements,
            p.pdga_number,
            replaced_score(p, replacements),
        ),
        !has_score_of(replacements, p.pdga_number) ==> replaced_score(p, replacements) == p,
    decreases replacements.len(),
{
    if replacements.len() > 0 {
        let n = replacements.len() - 1;
        let prev = replacements.drop_last();
        assert(replacements[n] == replacements.last());
        if replacements.last().pdga_number == p.pdga_number {
            assert(last_score_of(replacements, p.pdga_number, n));
            assert(is_last_score_of(replacements, p.pdga_number, replaced_score(p, replacements)));
        } else {
            law_replacement_is_players_last_score(p, prev);
            assert forall|j: int| 0 <= j < prev.len() implies #[trigger] prev[j] == replacements[j] by {}
            if has_score_of(replacements, p.pdga_number) {
                let w = choose|j: int| 0 <= j < replacements.len() && (#[trigger] replacements[j]).pdga_number
                    == p.pdga_number;
                assert(prev[w] == replacements[w]);
                assert(has_score_of(prev, p.pdga_number));
                let j = choose|j: int| #[trigger] last_score_of(prev, p.pdga_number, j) && replaced_score(p, prev)
                    == prev[j];
                assert(replaced_score(p, replacements) == prev[j]);
                assert forall|k: int| j < k < replacements.len() implies (#[trigger] replacements[k]).pdga_number
                    != p.pdga_number by {
                    if k < n {
                        assert(prev[k] == replacements[k]);
                    }
                }
                assert(last_score_of(replacements, p.pdga_number, j));
                assert(is_last_score_of(replacements, p.pdga_number, replaced_score(p, replacements)));
            } else {
                if has_score_of(prev, p.pdga_number) {
                    let w = choose|j: int| 0 <= j < prev.len() && (#[trigger] prev[j]).pdga_number == p.pdga_number;
                    assert(replacements[w] == prev[w]);
                }
            }
        }
    }
}

/// The scores that count for the current round: those of the current round, or, when it is a
/// playoff, those of the round before it with each playoff player's score taken from the
/// playoff.
pub open spec fn current_scores(rounds: Seq<RoundInformation>, current: int) -> Seq<PlayerScore> {
    let round = rounds[current];
    if round.label.label == RoundLabel::Playoff {
        dedup_scores(rounds[current - 1].players@).map_values(|p: PlayerScore| replaced_score(p, round.players@))
    } else {
        dedup_scores(round.players@)
    }
}

/// In a playoff, the scores that count are those of the round before it, one per player, in
/// its order; the score of a player who played the playoff is that player's last playoff
/// score, and a player who did not play it keeps the score of the round before.
pub proof fn law_playoff_players_get_playoff_scores(rounds: Seq<RoundInformation>, current: int)
    requires
        1 <= current < rounds.len(),
        rounds[current].label.label == RoundLabel::Playoff,
    ensures
        current_scores(rounds, current).len() == dedup_scores(rounds[current - 1].players@).len(),
        forall|i: int|
            #![trigger current_scores(rounds, current)[i]]
            0 <= i < dedup_scores(rounds[current - 1].players@).len() ==> current_scores(rounds, current)[i].pdga_number
                == dedup_scores(rounds[current - 1].players@)[i].pdga_number,
        forall|i: int|
            #![trigger current_scores(rounds, current)[i]]
            0 <= i < dedup_scores(rounds[current - 1].players@).len() && has_score_of(
                rounds[current].players@,
                dedup_scores(rounds[current - 1].players@)[i].pdga_number,
            ) ==> is_last_score_of(
                rounds[current].players@,
                dedup_scores(rounds[current - 1].players@)[i].pdga_number,
                current_scores(rounds, current)[i],
            ),
        forall|i: int|
            #![trigger current_scores(rounds, current)[i]]
            0 <= i < dedup_scores(rounds[current - 1].players@).len() && !has_score_of(
                rounds[current].players@,
                dedup_scores(rounds[current - 1].players@)[i].pdga_number,
            ) ==> current_scores(rounds, current)[i] == dedup_scores(rounds[current - 1].players@)[i],
{
    let base = dedup_scores(rounds[current - 1].players@);
    let playoff = rounds[current].players@;
    let counted = current_scores(rounds, current);
    assert forall|i: int| 0 <= i < base.len() implies #[trigger] counted[i] == replaced_score(base[i], playoff)
        && counted[i].pdga_number == base[i].pdga_number && (has_score_of(playoff, base[i].pdga_number)
        ==> is_last_score_of(playoff, base[i].pdga_number, counted[i]))
        && (!has_score_of(playoff, base[i].pdga_number) ==> counted[i] == base[i]) by {
        law_replacement_is_players_last_score(base[i], playoff);
        if has_score_of(playoff, base[i].pdga_number) {
            let j = choose|j: int| #[trigger] last_score_of(playoff, base[i].pdga_number, j)
                && replaced_score(base[i], playoff) == playoff[j];
            assert(counted[i].pdga_number == base[i].pdga_number);
            assert(is_last_score_of(playoff, base[i].pdga_number, counted[i]));
        }
    }
}

/// The scores that a list of references points to.
pub open spec fn score_values(s: Seq<&PlayerScore>) -> Seq<PlayerScore> {
    s.map_values(|p: &PlayerScore| *p)
}

fn dedup_score_refs(s: &Vec<PlayerScore>) -> (r: Vec<&PlayerScore>)
    ensures
        score_values(r@) == dedup_scores(s@),
{
    let mut out: Vec<&PlayerScore> = Vec::new();
    let mut i: usize = 0;
    while i < s.len()
        invariant
            i <= s.len(),
            score_values(out@) == dedup_scores(s@.take(i as int)),
        decreases s.len() - i,
    {
        let ghost pre = s@.take(i + 1);
        assert(pre.drop_last() =~= s@.take(i as int));
        let ghost before = out@;
        if i == 0 {
            out.push(&s[i]);
            assert(score_values(out@) =~= pre);
        } else if !s[i].equals(&s[i - 1]) {
            out.push(&s[i]);
            assert(score_values(out@) =~= score_values(before).push(s@[i as int]));
        }
        i = i + 1;
    }
    assert(s@.take(i as int) =~= s@);
    out
}

fn replace_score<'a>(p: &'a PlayerScore, replacements: &'a Vec<PlayerScore>) -> (r: &'a PlayerScore)
    ensures
        *r == replaced_score(*p, replacements@),
{
    let mut cur = p;
    let mut j: usize = 0;
    while j < replacements.len()
        invariant
            j <= replacements.len(),
            *cur == replaced_score(*p, replacements@.take(j as int)),
            cur.pdga_number == p.pdga_number,
        decreases replacements.len() - j,
    {
        assert(replacements@.take(j + 1).drop_last() =~= replacements@.take(j as int));
        if replacements[j].pdga_number == cur.pdga_number {
            cur = &replacements[j];
        }
        j = j + 1;
    }
    assert(replacements@.take(j as int) =~= replacements@);
    cur
}

impl CompetitionInfo {
    /// The scores that count for the competition's current round; "not found" when there is no
    /// round at the current position.
    pub fn get_current_player_scores(&self, allowed_to_end: bool) -> (r: Result<Vec<&PlayerScore>, GenericError>)
        requires
            status_defined(self.rounds@),
            competition_status(self.rounds@, allowed_to_end) == CompetitionStatus::Finished ==> self.rounds@.len()
                > 0,
            ({
                let c = current_round_of(self.rounds@, allowed_to_end);
                0 <= c < self.rounds@.len() && self.rounds@[c].label.label == RoundLabel::Playoff ==> c >= 1
            }),
        ensures
            ({
                let c = current_round_of(self.rounds@, allowed_to_end);
                if 0 <= c < self.rounds@.len() {
                    r matches Ok(v) && score_values(v@) == current_scores(self.rounds@, c)
                } else {
                    r == Err::<Vec<&PlayerScore>, GenericError>(GenericError::NotFound("Unable to find current round"))
                }
            }),
    {
        let current = self.current_round(allowed_to_end);
        if current >= self.rounds.len() {
            return Err(GenericError::NotFound("Unable to find current round"));
        }
        let round = &self.rounds[current];
        if round.label.label == RoundLabel::Playoff {
            let base = dedup_score_refs(&self.rounds[current - 1].players);
            let mut out: Vec<&PlayerScore> = Vec::new();
            let mut i: usize = 0;
            while i < base.len()
                invariant
                    i <= base.len(),
                    score_values(out@) == score_values(base@).take(i as int).map_values(
                        |p: PlayerScore| replaced_score(p, round.players@),
                    ),
                decreases base.len() - i,
            {
                let ghost before = out@;
                out.push(replace_score(base[i], &round.players));
                assert(score_values(out@) =~= score_values(before).push(replaced_score(*base@[i as int], round.players@)));
                assert(score_values(base@).take(i + 1).map_values(|p: PlayerScore| replaced_score(p, round.players@))
                    =~= score_values(base@).take(i as int).map_values(|p: PlayerScore| replaced_score(p, round.players@)).push(
                    replaced_score(*base@[i as int], round.players@),
                ));
                i = i + 1;
            }
            assert(score_values(base@).take(i as int) =~= score_values(base@));
            Ok(out)
        } else {
            Ok(dedup_score_refs(&round.players))
        }
    }
}

} // verus!

verus! {

/// A round of a competition as the results service lists it: its number and label text.
pub struct ApiRoundLabelInfo {
    pub round_number: usize,
    pub label: String,
}

impl RoundLabelInfo {
    /// A listed round's number and label.
    pub fn from_api(info: &ApiRoundLabelInfo) -> (r: RoundLabelInfo)
        ensures
            r.round_number == info.round_number,
            r.label == label_from_text(lowercase_of(info.label@), info.round_number),
    {
        RoundLabelInfo { round_number: info.round_number, label: RoundLabel::from_text(info.label.as_str(), info.round_number) }
    }
}

impl Keyed for RoundLabelInfo {
    /// Ordered so that the falling key is the rising round number.
    open spec fn key_of(&self) -> i128 {
        (-self.round_number) as i128
    }

    fn key(&self) -> (k: i128) {
        0i128 - self.round_number as i128
    }
}

impl Keyed for RoundInformation {
    /// Ordered so that the falling key is the rising round number.
    open spec fn key_of(&self) -> i128 {
        (-self.round_number) as i128
    }

    fn key(&self) -> (k: i128) {
        0i128 - self.round_number as i128
    }
}

/// The rounds of a competition's listing, in order of their numbers (equal numbers keep
/// their order).
pub fn sorted_round_labels(labels: &Vec<ApiRoundLabelInfo>) -> (r: Vec<RoundLabelInfo>)
    ensures
        r@.len() == labels@.len(),
        r@ == sorted_desc(
            Seq::new(
                labels@.len(),
                |i: int|
                    RoundLabelInfo {
                        round_number: labels@[i].round_number,
                        label: label_from_text(lowercase_of(labels@[i].label@), labels@[i].round_number),
                    },
            ),
        ),
{
    let ghost expected = Seq::new(
        labels@.len(),
        |i: int|
            RoundLabelInfo {
                round_number: labels@[i].round_number,
                label: label_from_text(lowercase_of(labels@[i].label@), labels@[i].round_number),
            },
    );
    let mut infos: Vec<RoundLabelInfo> = Vec::new();
    let mut i: usize = 0;
    while i < labels.len()
        invariant
            i <= labels.len(),
            infos@ == expected.take(i as int),
            expected.len() == labels@.len(),
            forall|k: int|
                0 <= k < labels@.len() ==> #[trigger] expected[k] == (RoundLabelInfo {
                    round_number: labels@[k].round_number,
                    label: label_from_text(lowercase_of(labels@[k].label@), labels@[k].round_number),
                }),
        decreases labels.len() - i,
    {
        let info = RoundLabelInfo::from_api(&labels[i]);
        assert(info == expected[i as int]);
        infos.push(info);
        assert(infos@ =~= expected.take(i + 1));
        i = i + 1;
    }
    assert(infos@ =~= expected);
    proof {
        lemma_sorted_len(expected);
    }
    sort_desc_by_key(infos)
}

/// The known divisions of a competition, in order, with repeats next to each other merged.
pub open spec fn known_divisions(raw: Seq<Division>) -> Seq<Division>
    decreases raw.len(),
{
    if raw.len() == 0 {
        Seq::empty()
    } else {
        let rest = known_divisions(raw.drop_last());
        if raw.last() == Division::Unknown {
            rest
        } else if rest.len() > 0 && rest.last() == raw.last() {
            rest
        } else {
            rest.push(raw.last())
        }
    }
}

/// The known divisions of a competition's listing, repeats next to each other merged.
pub fn competition_divisions(raw: &Vec<Division>) -> (r: Vec<Division>)
    ensures
        r@ == known_divisions(raw@),
{
    let mut out: Vec<Division> = Vec::new();
    let mut i: usize = 0;
    while i < raw.len()
        invariant
            i <= raw.len(),
            out@ == known_divisions(raw@.take(i as int)),
        decreases raw.len() - i,
    {
        assert(raw@.take(i + 1).drop_last() =~= raw@.take(i as int));
        let d = raw[i];
        if d != Division::Unknown {
            let repeat = out.len() > 0 && out[out.len() - 1] == d;
            if !repeat {
                out.push(d);
            }
        }
        i = i + 1;
    }
    assert(raw@.take(i as int) =~= raw@);
    out
}

/// Whether a round is the placeholder for a listed round whose results could not be had.
pub open spec fn is_phantom_round(r: RoundInformation, label: RoundLabelInfo, competition_id: usize, total_rounds: usize) -> bool {
    &&& r.holes@.len() == 0
    &&& r.players@.len() == 0
    &&& r.course_length == 0
    &&& r.round_number == round_number_from_label(label, total_rounds as int)
    &&& r.label == label
    &&& r.competition_id == competition_id
    &&& r.divs@.len() == 0
    &&& r.phantom
}

/// Whether `rounds` stand for the listed rounds in their order: a fetched round where its
/// results were had, else a placeholder.
pub open spec fn listed_rounds(
    rounds: Seq<RoundInformation>,
    labels: Seq<RoundLabelInfo>,
    fetched: Seq<Option<RoundInformation>>,
    competition_id: usize,
) -> bool {
    &&& rounds.len() == labels.len()
    &&& forall|i: int|
        0 <= i < rounds.len() ==> match #[trigger] fetched[i] {
            Some(f) => rounds[i] == f,
            None => is_phantom_round(rounds[i], labels[i], competition_id, labels.len() as usize),
        }
}

impl CompetitionInfo {
    /// A competition from its listing: its name, its known divisions (without unknown ones and
    /// repeats next to each other), its days, and its rounds in order of their numbers (equal
    /// numbers keep their order) with the results fetched for each listed round, or a
    /// placeholder where they could not be had.
    pub fn from_web(
        name: String,
        competition_id: u32,
        raw_divisions: &Vec<Division>,
        labels: Vec<RoundLabelInfo>,
        fetched: Vec<Option<RoundInformation>>,
        highest_completed_round: Option<u8>,
        date_range: DateRange,
    ) -> (r: CompetitionInfo)
        requires
            fetched@.len() == labels@.len(),
            forall|i: int|
                0 <= i < fetched@.len() ==> (#[trigger] fetched@[i] matches Some(f) ==> f.label == labels@[i]
                    && f.round_number == round_number_from_label(labels@[i], labels@.len() as int)),
        ensures
            r.name == name,
            r.competition_id == competition_id,
            r.divisions@ == known_divisions(raw_divisions@),
            r.highest_completed_round == highest_completed_round,
            r.date_range == date_range,
            r.amount_of_rounds == labels@.len(),
            exists|listed: Seq<RoundInformation>|
                listed_rounds(listed, labels@, fetched@, competition_id as usize) && r.rounds@ == sorted_desc(
                    listed,
                ),
            r.rounds@.len() == labels@.len(),
            forall|i: int|
                0 <= i < r.rounds@.len() ==> (#[trigger] r.rounds@[i]).round_number == round_number_from_label(
                    r.rounds@[i].label,
                    labels@.len() as int,
                ),
            forall|a: int, b: int|
                0 <= a < b < r.rounds@.len() ==> (#[trigger] r.rounds@[a]).round_number <= (
                #[trigger] r.rounds@[b]).round_number,
    {
        let total = labels.len();
        let mut rounds: Vec<RoundInformation> = Vec::new();
        let mut rest = fetched;
        let ghost all = rest@;
        let mut i: usize = 0;
        while rest.len() > 0
            invariant
                i + rest@.len() == all.len(),
                all.len() == labels@.len(),
                total == labels@.len(),
                rest@ == all.skip(i as int),
                rounds@.len() == i,
                forall|k: int|
                    0 <= k < i ==> match #[trigger] all[k] {
                        Some(f) => rounds@[k] == f,
                        None => is_phantom_round(rounds@[k], labels@[k], competition_id as usize, total),
                    },
                forall|k: int|
                    0 <= k < all.len() ==> (#[trigger] all[k] matches Some(f) ==> f.label == labels@[k]
                        && f.round_number == round_number_from_label(labels@[k], labels@.len() as int)),
                forall|k: int|
                    0 <= k < i ==> (#[trigger] rounds@[k]).round_number == round_number_from_label(
                        rounds@[k].label,
                        total as int,
                    ),
            decreases rest@.len(),
        {
            let next = rest.remove(0);
            assert(next == all[i as int]);
            let label = labels[i];
            match next {
                Some(round) => rounds.push(round),
                None => rounds.push(RoundInformation::phantom(label, competition_id as usize, total)),
            }
            i = i + 1;
            assert(rest@ =~= all.skip(i as int));
        }
        let ghost listed = rounds@;
        assert(listed_rounds(listed, labels@, all, competition_id as usize));
        let amount = rounds.len();
        proof {
            crate::sorting::law_sort_is_stable_and_falling(listed);
        }
        let sorted = sort_desc_by_key(rounds);
        proof {
            let order = crate::sorting::by_key(crate::sorting::keys_of(listed));
            assert forall|k: int| 0 <= k < sorted@.len() implies (#[trigger] sorted@[k]).round_number
                == round_number_from_label(sorted@[k].label, labels@.len() as int) by {
                assert(sorted@[k] == listed[order[k]]);
                assert(0 <= order[k] < listed.len());
            }
            assert forall|a: int, b: int| 0 <= a < b < sorted@.len() implies (#[trigger] sorted@[a]).round_number
                <= (#[trigger] sorted@[b]).round_number by {
                assert(sorted@[a].key_of() >= sorted@[b].key_of());
            }
        }
        CompetitionInfo {
            name,
            competition_id,
            divisions: competition_divisions(raw_divisions),
            rounds: sorted,
            highest_completed_round,
            date_range,
            amount_of_rounds: amount,
        }
    }
}

/// The round scores a competition stores: those of every round that is not pending, round
/// after round, leaving out those equal to what `stored` already holds.
pub open spec fn saved_round_records(rounds: Seq<RoundInformation>, competition_id: u32, stored: Seq<RoundScoreRecord>) -> Seq<
    RoundScoreRecord,
>
    decreases rounds.len(),
{
    if rounds.len() == 0 {
        Seq::empty()
    } else {
        let rest = saved_round_records(rounds.drop_last(), competition_id, stored);
        let r = rounds.last();
        if status_of_round(r) != RoundStatus::Pending {
            rest + round_records(r.players@, r.round_number as i32, competition_id as i32, stored)
        } else {
            rest
        }
    }
}

impl CompetitionInfo {
    /// The round scores to store for the competition: those of its rounds that are not
    /// pending, except those equal to the scores already `stored` for the competition.
    pub fn round_scores_to_save(&self, stored: &Vec<RoundScoreRecord>) -> (r: Vec<RoundScoreRecord>)
        ensures
            r@ == saved_round_records(self.rounds@, self.competition_id, stored@),
    {
        let mut out: Vec<RoundScoreRecord> = Vec::new();
        let mut i: usize = 0;
        while i < self.rounds.len()
            invariant
                i <= self.rounds.len(),
                out@ == saved_round_records(self.rounds@.take(i as int), self.competition_id, stored@),
            decreases self.rounds.len() - i,
        {
            assert(self.rounds@.take(i + 1).drop_last() =~= self.rounds@.take(i as int));
            let round = &self.rounds[i];
            if round.status() != RoundStatus::Pending {
                let recs = round.all_player_round_scores(round.round_number as i32, self.competition_id as i32, stored);
                let ghost before = out@;
                let mut k: usize = 0;
                while k < recs.len()
                    invariant
                        k <= recs.len(),
                        out@ == before + recs@.take(k as int),
                    decreases recs.len() - k,
                {
                    out.push(recs[k]);
                    assert(out@ =~= before + recs@.take(k + 1));
                    k = k + 1;
                }
                assert(recs@.take(k as int) =~= recs@);
            }
            i = i + 1;
        }
        assert(self.rounds@.take(i as int) =~= self.rounds@);
        out
    }
}

/// A round's number and the date it is stored with.
#[derive(Clone, Copy, Debug, PartialEq, Eq, Structural)]
pub struct RoundDate {
    pub round_number: usize,
    pub date: LocalTime,
}

impl Keyed for RoundDate {
    /// Ordered so that the falling key is the rising round number.
    open spec fn key_of(&self) -> i128 {
        (-self.round_number) as i128
    }

    fn key(&self) -> (k: i128) {
        0i128 - self.round_number as i128
    }
}

/// The date of a round: the competition day of its number, or the last day where there are
/// fewer days.
pub open spec fn date_for(times: Seq<LocalTime>, round_number: usize) -> LocalTime {
    if round_number - 1 < times.len() {
        times[round_number - 1]
    } else {
        times.last()
    }
}

/// The rounds' numbers and dates, in their order.
pub open spec fn dated_rounds(rounds: Seq<RoundInformation>, times: Seq<LocalTime>) -> Seq<RoundDate> {
    Seq::new(
        rounds.len(),
        |i: int| RoundDate { round_number: rounds[i].round_number, date: date_for(times, rounds[i].round_number) },
    )
}

/// The dates the rounds are stored with, given the competition's days, in order of round
/// numbers (equal numbers keep their order).
pub fn round_dates(rounds: &Vec<RoundInformation>, times: &Vec<LocalTime>) -> (r: Vec<RoundDate>)
    requires
        times@.len() > 0,
        forall|i: int| 0 <= i < rounds@.len() ==> #[trigger] rounds@[i].round_number >= 1,
    ensures
        r@ == sorted_desc(dated_rounds(rounds@, times@)),
{
    let ghost expected = dated_rounds(rounds@, times@);
    let mut out: Vec<RoundDate> = Vec::new();
    let mut i: usize = 0;
    while i < rounds.len()
        invariant
            i <= rounds.len(),
            times@.len() > 0,
            forall|k: int| 0 <= k < rounds@.len() ==> #[trigger] rounds@[k].round_number >= 1,
            expected == dated_rounds(rounds@, times@),
            out@ == expected.take(i as int),
        decreases rounds.len() - i,
    {
        let n = rounds[i].round_number;
        let d = RoundDate { round_number: n, date: round_date(times, n) };
        out.push(d);
        assert(out@ =~= expected.take(i + 1));
        i = i + 1;
    }
    assert(out@ =~= expected);
    sort_desc_by_key(out)
}

impl CompetitionInfo {
    /// The date of the competition's first day on its own clock (days since 1970-01-01).
    pub fn start_date(&self) -> (d: i64)
        requires
            valid_time(self.date_range.start),
        ensures
            d == local_date(self.date_range.start),
    {
        self.date_range.start_date()
    }

    /// The dates the rounds are stored with, in order of round numbers; `None` where there is
    /// a round but the competition has no day, or a round is numbered 0 (there storing them
    /// fails).
    pub fn rounds_with_dates(&self) -> (r: Option<Vec<RoundDate>>)
        requires
            valid_time(self.date_range.start),
            valid_time(self.date_range.end),
        ensures
            match r {
                Some(v) => v@ == (if self.rounds@.len() == 0 {
                    Seq::empty()
                } else {
                    sorted_desc(dated_rounds(self.rounds@, range_days(self.date_range)))
                }),
                None => self.rounds@.len() > 0 && (range_days(self.date_range).len() == 0 || exists|i: int|
                    0 <= i < self.rounds@.len() && #[trigger] self.rounds@[i].round_number == 0),
            },
    {
        if self.rounds.len() == 0 {
            return Some(Vec::new());
        }
        let times = self.date_range.date_times();
        if times.len() == 0 {
            return None;
        }
        let mut i: usize = 0;
        while i < self.rounds.len()
            invariant
                i <= self.rounds.len(),
                forall|k: int| 0 <= k < i ==> #[trigger] self.rounds@[k].round_number >= 1,
            decreases self.rounds.len() - i,
        {
            if self.rounds[i].round_number == 0 {
                return None;
            }
            i = i + 1;
        }
        Some(round_dates(&self.rounds, &times))
    }
}

/// The date a round is stored with: the competition day of its number, or the last day
/// where the competition has fewer days than the round's number.
pub fn round_date(times: &Vec<LocalTime>, round_number: usize) -> (r: LocalTime)
    requires
        times@.len() > 0,
        round_number >= 1,
    ensures
        r == (if round_number - 1 < times@.len() {
            times@[round_number - 1]
        } else {
            times@.last()
        }),
{
    if round_number - 1 < times.len() {
        times[round_number - 1]
    } else {
        times[times.len() - 1]
    }
}

} // verus!

verus! {

/// A player as stored.
pub struct PlayerRow {
    pub pdga_number: i32,
    pub first_name: String,
    pub last_name: String,
    pub avatar: Option<String>,
}

/// A player's division in a fantasy tournament, as stored.
#[derive(Clone, Copy, Debug, PartialEq, Eq, Structural)]
pub struct PlayerDivisionRow {
    pub player_pdga_number: i32,
    pub fantasy_tournament_id: i32,
    pub division: StoredDivision,
}

/// A player's division in a competition, as stored.
#[derive(Clone, Copy, Debug, PartialEq, Eq, Structural)]
pub struct PlayerInCompetitionRow {
    pub pdga_number: i32,
    pub competition_id: i32,
    pub division: StoredDivision,
}

/// The players of all rounds, round after round.
pub open spec fn all_round_players(rounds: Seq<RoundInformation>) -> Seq<PlayerScore>
    decreases rounds.len(),
{
    if rounds.len() == 0 {
        Seq::empty()
    } else {
        all_round_players(rounds.drop_last()) + rounds.last().players@
    }
}

/// Whether a stored player row is that of a player's score.
pub open spec fn is_player_row(row: PlayerRow, p: PlayerScore) -> bool {
    &&& row.pdga_number == p.pdga_number as i32
    &&& row.first_name == p.first_name
    &&& row.last_name == p.last_name
    &&& row.avatar == p.avatar
}

fn player_row(p: &PlayerScore) -> (row: PlayerRow)
    ensures
        is_player_row(row, *p),
{
    PlayerRow {
        pdga_number: p.pdga_number as i32,
        first_name: p.first_name.clone(),
        last_name: p.last_name.clone(),
        avatar: match &p.avatar {
            Some(a) => Some(a.clone()),
            None => None,
        },
    }
}

impl CompetitionInfo {
    /// The stored rows of the players of all rounds, round after round.
    pub fn player_rows(&self) -> (r: Vec<PlayerRow>)
        ensures
            r@.len() == all_round_players(self.rounds@).len(),
            forall|k: int| 0 <= k < r@.len() ==> is_player_row(#[trigger] r@[k], all_round_players(self.rounds@)[k]),
    {
        let mut out: Vec<PlayerRow> = Vec::new();
        let mut i: usize = 0;
        while i < self.rounds.len()
            invariant
                i <= self.rounds.len(),
                out@.len() == all_round_players(self.rounds@.take(i as int)).len(),
                forall|k: int|
                    0 <= k < out@.len() ==> is_player_row(
                        #[trigger] out@[k],
                        all_round_players(self.rounds@.take(i as int))[k],
                    ),
            decreases self.rounds.len() - i,
        {
            assert(self.rounds@.take(i + 1).drop_last() =~= self.rounds@.take(i as int));
            let ghost before = all_round_players(self.rounds@.take(i as int));
            let players = &self.rounds[i].players;
            let mut j: usize = 0;
            while j < players.len()
                invariant
                    j <= players.len(),
                    out@.len() == before.len() + j,
                    forall|k: int| 0 <= k < before.len() ==> is_player_row(#[trigger] out@[k], before[k]),
                    forall|k: int| 0 <= k < j ==> is_player_row(#[trigger] out@[before.len() + k], players@[k]),
                decreases players.len() - j,
            {
                out.push(player_row(&players[j]));
                j = j + 1;
            }
            let ghost now = all_round_players(self.rounds@.take(i + 1));
            assert(now == before + players@);
            assert forall|k: int| 0 <= k < out@.len() implies is_player_row(#[trigger] out@[k], now[k]) by {
                if k >= before.len() {
                    assert(out@[before.len() + (k - before.len())] == out@[k]);
                }
            }
            i = i + 1;
        }
        assert(self.rounds@.take(i as int) =~= self.rounds@);
        out
    }

    /// The stored divisions in a fantasy tournament of the players of all rounds, round after
    /// round.
    pub fn player_division_rows(&self, fantasy_tournament_id: i32) -> (r: Vec<PlayerDivisionRow>)
        ensures
            r@ == all_round_players(self.rounds@).map_values(
                |p: PlayerScore|
                    PlayerDivisionRow {
                        player_pdga_number: p.pdga_number as i32,
                        fantasy_tournament_id,
                        division: stored_division(p.division),
                    },
            ),
    {
        let mut out: Vec<PlayerDivisionRow> = Vec::new();
        let mut i: usize = 0;
        while i < self.rounds.len()
            invariant
                i <= self.rounds.len(),
                out@ == all_round_players(self.rounds@.take(i as int)).map_values(
                    |p: PlayerScore|
                        PlayerDivisionRow {
                            player_pdga_number: p.pdga_number as i32,
                            fantasy_tournament_id,
                            division: stored_division(p.division),
                        },
                ),
            decreases self.rounds.len() - i,
        {
            assert(self.rounds@.take(i + 1).drop_last() =~= self.rounds@.take(i as int));
            let ghost before = out@;
            let players = &self.rounds[i].players;
            let mut j: usize = 0;
            while j < players.len()
                invariant
                    j <= players.len(),
                    out@ == before + players@.take(j as int).map_values(
                        |p: PlayerScore|
                            PlayerDivisionRow {
                                player_pdga_number: p.pdga_number as i32,
                                fantasy_tournament_id,
                                division: stored_division(p.division),
                            },
                    ),
                decreases players.len() - j,
            {
                let p = &players[j];
                out.push(
                    PlayerDivisionRow {
                        player_pdga_number: p.pdga_number as i32,
                        fantasy_tournament_id,
                        division: p.division.to_stored(),
                    },
                );
                assert(out@ =~= before + players@.take(j + 1).map_values(
                    |p: PlayerScore|
                        PlayerDivisionRow {
                            player_pdga_number: p.pdga_number as i32,
                            fantasy_tournament_id,
                            division: stored_division(p.division),
                        },
                ));
                j = j + 1;
            }
            assert(players@.take(j as int) =~= players@);
            assert(out@ =~= all_round_players(self.rounds@.take(i + 1)).map_values(
                |p: PlayerScore|
                    PlayerDivisionRow {
                        player_pdga_number: p.pdga_number as i32,
                        fantasy_tournament_id,
                        division: stored_division(p.division),
                    },
            ));
            i = i + 1;
        }
        assert(self.rounds@.take(i as int) =~= self.rounds@);
        out
    }

    /// The stored divisions in the competition of the players of all rounds, round after
    /// round.
    pub fn players_in_competition(&self) -> (r: Vec<PlayerInCompetitionRow>)
        ensures
            r@ == all_round_players(self.rounds@).map_values(
                |p: PlayerScore|
                    PlayerInCompetitionRow {
                        pdga_number: p.pdga_number as i32,
                        competition_id: self.competition_id as i32,
                        division: stored_division(p.division),
                    },
            ),
    {
        let divs = self.player_division_rows(1);
        let mut out: Vec<PlayerInCompetitionRow> = Vec::new();
        let mut i: usize = 0;
        while i < divs.len()
            invariant
                i <= divs.len(),
                out@ == divs@.take(i as int).map_values(
                    |d: PlayerDivisionRow|
                        PlayerInCompetitionRow {
                            pdga_number: d.player_pdga_number,
                            competition_id: self.competition_id as i32,
                            division: d.division,
                        },
                ),
            decreases divs.len() - i,
        {
            out.push(
                PlayerInCompetitionRow {
                    pdga_number: divs[i].player_pdga_number,
                    competition_id: self.competition_id as i32,
                    division: divs[i].division,
                },
            );
            assert(out@ =~= divs@.take(i + 1).map_values(
                |d: PlayerDivisionRow|
                    PlayerInCompetitionRow {
                        pdga_number: d.player_pdga_number,
                        competition_id: self.competition_id as i32,
                        division: d.division,
                    },
            ));
            i = i + 1;
        }
        assert(divs@.take(i as int) =~= divs@);
        assert(out@ =~= all_round_players(self.rounds@).map_values(
            |p: PlayerScore|
                PlayerInCompetitionRow {
                    pdga_number: p.pdga_number as i32,
                    competition_id: self.competition_id as i32,
                    division: stored_division(p.division),
                },
        ));
        out
    }
}

} // verus!
