use vstd::prelude::*;
use vstd::string::*;
use crate::division::{CompetitionLevel, Division, StoredDivision, stored_division};
use crate::error::GenericError;
use crate::scoring::{Tied, fantasy_points, tie_fits, user_score};
use crate::text::{all_ascii, ascii_lower, contains_run, contains_text, lowercase_of, parse_byte, parsed_byte, str_equal, to_lowercase};

verus! {

/// Where a player stands in a round.
#[derive(Clone, Copy, Debug, PartialEq, Eq, Structural)]
pub enum PlayerStatus {
    Pending,
    Started,
    Finished,
    DidNotFinish,
    DidNotStart,
}

/// Where a round stands.
#[derive(Clone, Copy, Debug, PartialEq, Eq, Structural)]
pub enum RoundStatus {
    Pending,
    Started,
    Finished,
}

pub open spec fn troubled(s: PlayerStatus) -> bool {
    s == PlayerStatus::DidNotFinish || s == PlayerStatus::DidNotStart || s == PlayerStatus::Pending
}

impl PlayerStatus {
    /// A player is troubled while pending, or when they did not start or did not finish.
    pub fn is_troubled(&self) -> (r: bool)
        ensures
            r == troubled(*self),
    {
        match self {
            PlayerStatus::DidNotFinish | PlayerStatus::DidNotStart | PlayerStatus::Pending => true,
            _ => false,
        }
    }
}

/// The status of a player from the flags of the results service: a started player has
/// finished or is playing; one who has not started counts as not finishing when the service
/// marks them finished or gives no valid score (the value 255).
pub open spec fn status_from_flags(started: bool, finished: bool, throws: u8) -> PlayerStatus {
    if started {
        if finished {
            PlayerStatus::Finished
        } else {
            PlayerStatus::Started
        }
    } else if finished || throws == 255 {
        PlayerStatus::DidNotFinish
    } else {
        PlayerStatus::Pending
    }
}

/// A unit of length of a course layout.
#[derive(Clone, Copy, Debug, PartialEq, Eq, Structural)]
pub enum Unit {
    Meters,
    Feet,
}

/// One hole of a layout.
#[derive(Clone, Copy, Debug, PartialEq, Eq, Structural)]
pub struct Hole {
    pub par: u32,
    pub hole_number: u32,
    pub length: Option<u32>,
}

/// A length in feet in whole meters, 0.3048 m to the foot, rounded to nearest with halves up.
pub open spec fn feet_to_meters(feet: int) -> int {
    (381 * feet + 625) / 1250
}

pub open spec fn fixed_length(length: Option<u32>, unit: Option<Unit>) -> Option<u32> {
    match (unit, length) {
        (Some(Unit::Feet), Some(l)) => Some(feet_to_meters(l as int) as u32),
        (Some(Unit::Meters), Some(l)) => Some(l),
        _ => None,
    }
}

fn feet_in_meters(feet: u32) -> (m: u32)
    ensures
        m == feet_to_meters(feet as int),
{
    let v: u64 = (381 * (feet as u64) + 625) / 1250;
    assert(v <= feet);
    v as u32
}

/// A hole length in meters: lengths in feet are converted, lengths without a unit are dropped.
pub fn fix_length(length: Option<u32>, unit: Option<Unit>) -> (r: Option<u32>)
    ensures
        r == fixed_length(length, unit),
{
    match (unit, length) {
        (Some(Unit::Feet), Some(length)) => Some(feet_in_meters(length)),
        (Some(Unit::Meters), Some(length)) => Some(length),
        _ => None,
    }
}

pub open spec fn course_length_spec(length: Option<u32>, unit: Option<Unit>) -> u32 {
    let l = match length {
        Some(l) => l,
        None => 0u32,
    };
    match unit {
        Some(Unit::Feet) => feet_to_meters(l as int) as u32,
        Some(Unit::Meters) => l,
        None => 0,
    }
}

/// The length of a whole course in meters; a missing length counts as 0, and a course
/// without a unit has length 0.
pub fn course_length(length: Option<u32>, unit: Option<Unit>) -> (r: u32)
    ensures
        r == course_length_spec(length, unit),
{
    let l = match length {
        Some(l) => l,
        None => 0,
    };
    match unit {
        Some(Unit::Feet) => feet_in_meters(l),
        Some(Unit::Meters) => l,
        None => 0,
    }
}

/// Lengths come out in meters. A length given in meters is kept as it is; a length given in
/// feet becomes the whole number of meters nearest to it at 0.3048 m to the foot (halves
/// up); a length without a unit counts for nothing. A missing course length counts as 0,
/// a missing hole length stays missing.
pub proof fn law_lengths_in_meters(length: Option<u32>)
    ensures
        course_length_spec(length, Some(Unit::Meters)) == (match length {
            Some(l) => l,
            None => 0u32,
        }),
        fixed_length(length, Some(Unit::Meters)) == length,
        course_length_spec(length, None) == 0,
        fixed_length(length, None) is None,
        ({
            let feet: int = match length {
                Some(l) => l as int,
                None => 0,
            };
            let m: int = course_length_spec(length, Some(Unit::Feet)) as int;
            1250 * m - 625 <= 381 * feet < 1250 * m + 625
        }),
        fixed_length(length, Some(Unit::Feet)) is Some <==> length is Some,
        fixed_length(length, Some(Unit::Feet)) matches Some(m) ==> 1250 * m - 625 <= 381 * length->0
            < 1250 * m + 625,
{
    let feet: int = match length {
        Some(l) => l as int,
        None => 0,
    };
    let q: int = (381 * feet + 625) / 1250;
    assert(0 <= q <= feet) by {
        assert(0 <= 381 * feet + 625);
    }
    assert(1250 * q <= 381 * feet + 625 < 1250 * q + 1250);
    assert(q as u32 == q);
}

/// A scalar of the results service's records, as its JSON gives it: a negative integer, a
/// non-negative one, or text.
pub enum ApiScalar {
    Signed(i64),
    Unsigned(u64),
    Text(String),
}

/// A count read leniently: an integer above 255 or below 0 counts as 255, and so does text
/// that is not a byte in decimal.
pub open spec fn flexible_value(v: ApiScalar) -> u8 {
    match v {
        ApiScalar::Signed(n) => if 0 <= n <= 255 {
            n as u8
        } else {
            255
        },
        ApiScalar::Unsigned(n) => if n <= 255 {
            n as u8
        } else {
            255
        },
        ApiScalar::Text(t) => match parsed_byte(t@) {
            Some(b) => b,
            None => 255,
        },
    }
}

/// Reads a count that the service gives as a number or as text.
pub fn flexible_number(v: &ApiScalar) -> (r: u8)
    ensures
        r == flexible_value(*v),
{
    match v {
        ApiScalar::Signed(n) => if 0 <= *n && *n <= 255 {
            *n as u8
        } else {
            255
        },
        ApiScalar::Unsigned(n) => if *n <= 255 {
            *n as u8
        } else {
            255
        },
        ApiScalar::Text(t) => match parse_byte(t.as_str()) {
            Some(b) => b,
            None => 255,
        },
    }
}

/// Reads a flag that the service gives as a number: 1 is true, any other number false; text
/// is refused.
pub fn bool_from_int(v: &ApiScalar) -> (r: Option<bool>)
    ensures
        r == (match *v {
            ApiScalar::Signed(n) => Some(n == 1),
            ApiScalar::Unsigned(n) => Some(n == 1),
            ApiScalar::Text(_) => None::<bool>,
        }),
{
    match v {
        ApiScalar::Signed(n) => Some(*n == 1),
        ApiScalar::Unsigned(n) => Some(*n == 1),
        ApiScalar::Text(_) => None,
    }
}

/// A player's line in a round, as the results service reports it.
pub struct ApiPlayer {
    pub pdga_number: u32,
    pub first_name: String,
    pub last_name: String,
    pub name: String,
    pub avatar: Option<String>,
    pub division: Division,
    pub round_to_par: i16,
    pub player_started_round: bool,
    pub player_finished_round: bool,
    pub running_place: Option<u16>,
    pub throws: u8,
    pub hole_scores: Vec<String>,
}

/// A player's score in a round.
pub struct PlayerScore {
    pub pdga_number: u32,
    pub hole_scores: Vec<u8>,
    pub throws: u8,
    pub round_to_par: i16,
    pub placement: u16,
    pub started: PlayerStatus,
    pub division: Division,
    pub name: String,
    pub first_name: String,
    pub last_name: String,
    pub avatar: Option<String>,
    pub tied: Tied,
}

/// The site that avatar paths are relative to.
pub open spec fn avatar_site() -> Seq<char> {
    "https://www.pdga.com"@
}

/// The hole scores that read as bytes, in order; the others are left out.
pub open spec fn parsed_hole_scores(texts: Seq<Seq<char>>) -> Seq<u8>
    decreases texts.len(),
{
    if texts.len() == 0 {
        Seq::empty()
    } else {
        let rest = parsed_hole_scores(texts.drop_last());
        match parsed_byte(texts.last()) {
            Some(b) => rest.push(b),
            None => rest,
        }
    }
}

pub open spec fn string_views(v: Seq<String>) -> Seq<Seq<char>> {
    v.map_values(|s: String| s@)
}

pub open spec fn placement_of(api: ApiPlayer) -> u16 {
    match api.running_place {
        Some(p) => p,
        None => 0,
    }
}

/// Whether `p` is the score that a reported line gives, with the tie count `tied`.
pub open spec fn is_score_of(p: PlayerScore, api: ApiPlayer, tied: Tied) -> bool {
    &&& p.pdga_number == api.pdga_number
    &&& p.throws == api.throws
    &&& p.round_to_par == api.round_to_par
    &&& p.hole_scores@ == parsed_hole_scores(string_views(api.hole_scores@))
    &&& p.placement == placement_of(api)
    &&& p.started == status_from_flags(api.player_started_round, api.player_finished_round, api.throws)
    &&& p.division == api.division
    &&& p.name@ == api.name@
    &&& p.first_name@ == api.first_name@
    &&& p.last_name@ == api.last_name@
    &&& (match (p.avatar, api.avatar) {
        (Some(a), Some(b)) => a@ == avatar_site() + b@,
        (None, None) => true,
        _ => false,
    })
    &&& p.tied == tied
}

fn copy_string(s: &String) -> (r: String)
    ensures
        r@ == s@,
{
    String::from_str(s.as_str())
}

impl PlayerStatus {
    /// The status of a reported line.
    pub fn from_api(api: &ApiPlayer) -> (s: PlayerStatus)
        ensures
            s == status_from_flags(api.player_started_round, api.player_finished_round, api.throws),
    {
        if api.player_started_round {
            if api.player_finished_round {
                PlayerStatus::Finished
            } else {
                PlayerStatus::Started
            }
        } else if api.player_finished_round || api.throws == 255 {
            PlayerStatus::DidNotFinish
        } else {
            PlayerStatus::Pending
        }
    }
}

/// The hole scores that read as bytes; the others are dropped.
pub fn parse_hole_scores(texts: &Vec<String>) -> (r: Vec<u8>)
    ensures
        r@ == parsed_hole_scores(string_views(texts@)),
{
    let mut out: Vec<u8> = Vec::new();
    let mut i: usize = 0;
    while i < texts.len()
        invariant
            i <= texts.len(),
            out@ == parsed_hole_scores(string_views(texts@.take(i as int))),
        decreases texts.len() - i,
    {
        let ghost before = texts@.take(i as int);
        assert(string_views(texts@.take(i + 1)).drop_last() =~= string_views(before));
        assert(string_views(texts@.take(i + 1)).last() == texts@[i as int]@);
        match parse_byte(texts[i].as_str()) {
            Some(b) => out.push(b),
            None => {},
        }
        i = i + 1;
    }
    assert(texts@.take(texts.len() as int) =~= texts@);
    out
}

impl PlayerScore {
    /// The score of a reported line, given how many others share its placement.
    pub fn from_api(api: &ApiPlayer, tied: Tied) -> (p: PlayerScore)
        ensures
            is_score_of(p, *api, tied),
    {
        let status = PlayerStatus::from_api(api);
        let avatar = match &api.avatar {
            Some(a) => {
                let mut full = String::from_str("https://www.pdga.com");
                full.append(a.as_str());
                Some(full)
            },
            None => None,
        };
        proof {
            reveal_strlit("https://www.pdga.com");
        }
        PlayerScore {
            pdga_number: api.pdga_number,
            throws: api.throws,
            round_to_par: api.round_to_par,
            hole_scores: parse_hole_scores(&api.hole_scores),
            placement: match api.running_place {
                Some(p) => p,
                None => 0,
            },
            started: status,
            division: api.division,
            name: copy_string(&api.name),
            first_name: copy_string(&api.first_name),
            last_name: copy_string(&api.last_name),
            avatar,
            tied,
        }
    }
}

/// The number of other players (by PDGA number) who share a player's reported placement.
pub open spec fn ties_among(player: ApiPlayer, scores: Seq<ApiPlayer>) -> nat
    decreases scores.len(),
{
    if scores.len() == 0 {
        0
    } else {
        let s = scores.last();
        ties_among(player, scores.drop_last()) + if s.running_place == player.running_place
            && s.pdga_number != player.pdga_number {
            1nat
        } else {
            0nat
        }
    }
}

pub open spec fn tie_of(count: nat) -> Tied {
    if count == 0 {
        Tied::NotTied
    } else {
        Tied::Tied(count as usize)
    }
}

/// How many others share a player's placement among the scores of a division.
pub fn count_ties(player: &ApiPlayer, scores: &Vec<ApiPlayer>) -> (t: Tied)
    ensures
        t == tie_of(ties_among(*player, scores@)),
{
    let mut count: usize = 0;
    let mut i: usize = 0;
    while i < scores.len()
        invariant
            i <= scores.len(),
            count == ties_among(*player, scores@.take(i as int)),
            count <= i,
        decreases scores.len() - i,
    {
        assert(scores@.take(i + 1).drop_last() =~= scores@.take(i as int));
        if scores[i].running_place == player.running_place && scores[i].pdga_number != player.pdga_number {
            count = count + 1;
        }
        i = i + 1;
    }
    assert(scores@.take(scores.len() as int) =~= scores@);
    if count == 0 {
        Tied::NotTied
    } else {
        Tied::Tied(count)
    }
}

/// How a round is labelled by the results service.
#[derive(Clone, Copy, Debug, PartialEq, Eq, Structural)]
pub enum RoundLabel {
    Final,
    Playoff,
    Round(usize),
    Other,
}

/// A round's 1-based number and its label; a number inside the label may differ from it.
#[derive(Clone, Copy, Debug, PartialEq, Eq, Structural)]
pub struct RoundLabelInfo {
    pub round_number: usize,
    pub label: RoundLabel,
}

/// The kind of a round as it is stored.
#[derive(Clone, Copy, Debug, PartialEq, Eq, Structural)]
pub enum RoundType {
    Final,
    Playoff,
    Round,
    Unknown,
}

/// The label that a round's label text names: any text that contains "round" (ignoring case)
/// is a numbered round, "final"/"finals" a final, "playoff"/"playoffs" a playoff.
pub open spec fn label_from_text(lower: Seq<char>, number: usize) -> RoundLabel {
    if contains_run(lower, "round"@) {
        RoundLabel::Round(number)
    } else if lower == "finals"@ || lower == "final"@ {
        RoundLabel::Final
    } else if lower == "playoff"@ || lower == "playoffs"@ {
        RoundLabel::Playoff
    } else {
        RoundLabel::Other
    }
}

impl RoundLabel {
    /// The label of a round from its label text and number.
    pub fn from_text(text: &str, number: usize) -> (l: RoundLabel)
        ensures
            l == label_from_text(lowercase_of(text@), number),
            all_ascii(text@) ==> l == label_from_text(text@.map_values(|c: char| ascii_lower(c)), number),
    {
        let lower = to_lowercase(text);
        RoundLabel::from_lowercase(lower.as_str(), number)
    }

    /// The label of a round from its label text, already in lowercase, and its number.
    pub fn from_lowercase(lower: &str, number: usize) -> (l: RoundLabel)
        ensures
            l == label_from_text(lower@, number),
    {
        if contains_text(lower, "round") {
            RoundLabel::Round(number)
        } else if str_equal(lower, "finals") || str_equal(lower, "final") {
            RoundLabel::Final
        } else if str_equal(lower, "playoff") || str_equal(lower, "playoffs") {
            RoundLabel::Playoff
        } else {
            RoundLabel::Other
        }
    }

    /// The label a stored round kind reads back as; plain and unknown rounds read as other.
    pub fn from_round_type(t: RoundType) -> (l: RoundLabel)
        ensures
            l == (match t {
                RoundType::Final => RoundLabel::Final,
                RoundType::Playoff => RoundLabel::Playoff,
                _ => RoundLabel::Other,
            }),
    {
        match t {
            RoundType::Final => RoundLabel::Final,
            RoundType::Playoff => RoundLabel::Playoff,
            RoundType::Unknown | RoundType::Round => RoundLabel::Other,
        }
    }
}

pub open spec fn round_number_from_label(info: RoundLabelInfo, total_rounds: int) -> int {
    match info.label {
        RoundLabel::Final => total_rounds,
        RoundLabel::Playoff => total_rounds - 1,
        RoundLabel::Round(r) => r as int,
        RoundLabel::Other => info.round_number as int,
    }
}

impl RoundLabelInfo {
    /// The place of a round in the competition: a final is the last round, a playoff the one
    /// before it, a numbered round its number, and any other round keeps its own number.
    pub fn get_round_number_from_label(&self, total_rounds: usize) -> (n: usize)
        requires
            self.label == RoundLabel::Playoff ==> total_rounds >= 1,
        ensures
            n == round_number_from_label(*self, total_rounds as int),
    {
        match self.label {
            RoundLabel::Final => total_rounds,
            RoundLabel::Playoff => total_rounds - 1,
            RoundLabel::Round(round) => round,
            RoundLabel::Other => self.round_number,
        }
    }

    /// The stored kind of the round.
    pub fn round_type(&self) -> (t: RoundType)
        ensures
            t == (match self.label {
                RoundLabel::Final => RoundType::Final,
                RoundLabel::Playoff => RoundType::Playoff,
                RoundLabel::Round(_) => RoundType::Round,
                RoundLabel::Other => RoundType::Unknown,
            }),
    {
        match self.label {
            RoundLabel::Final => RoundType::Final,
            RoundLabel::Playoff => RoundType::Playoff,
            RoundLabel::Round(_) => RoundType::Round,
            RoundLabel::Other => RoundType::Unknown,
        }
    }
}

} // verus!

verus! {

pub open spec fn active_count(s: Seq<PlayerStatus>) -> nat
    decreases s.len(),
{
    if s.len() == 0 {
        0
    } else {
        active_count(s.drop_last()) + if troubled(s.last()) { 0nat } else { 1nat }
    }
}

pub open spec fn status_count(s: Seq<PlayerStatus>, which: PlayerStatus) -> nat
    decreases s.len(),
{
    if s.len() == 0 {
        0
    } else {
        status_count(s.drop_last(), which) + if s.last() == which { 1nat } else { 0nat }
    }
}

/// The status of a round from the statuses of its players. Only players who are not troubled
/// count: with none of them (or for a placeholder round) the round is pending; it is finished
/// when all of them, or at least half of them (rounded down), have finished; otherwise it has
/// started as soon as one of them has started or finished.
pub open spec fn round_status_of(phantom: bool, s: Seq<PlayerStatus>) -> RoundStatus {
    let active = active_count(s);
    let finished = status_count(s, PlayerStatus::Finished);
    let started = status_count(s, PlayerStatus::Started);
    if phantom || active == 0 {
        RoundStatus::Pending
    } else if finished == active || finished >= active / 2 {
        RoundStatus::Finished
    } else if started + finished > 0 {
        RoundStatus::Started
    } else {
        RoundStatus::Pending
    }
}

/// The layout of a course in a round: its holes, its length and the unit they are given in.
pub struct Layout {
    pub holes: Vec<Hole>,
    pub length: Option<u32>,
    pub unit: Option<Unit>,
}

/// One division's results for a round, as fetched.
pub struct RoundFromApi {
    pub layouts: Vec<Layout>,
    pub scores: Vec<ApiPlayer>,
    pub div: Division,
}

/// A round of a competition, with the scores of every division that was fetched for it.
pub struct RoundInformation {
    pub holes: Vec<Hole>,
    pub players: Vec<PlayerScore>,
    pub course_length: u32,
    pub round_number: usize,
    pub competition_id: usize,
    pub divs: Vec<Division>,
    pub label: RoundLabelInfo,
    pub phantom: bool,
}

pub open spec fn player_statuses(players: Seq<PlayerScore>) -> Seq<PlayerStatus> {
    players.map_values(|p: PlayerScore| p.started)
}

/// The reported lines of all divisions, division after division.
pub open spec fn round_entries(divs: Seq<RoundFromApi>) -> Seq<ApiPlayer>
    decreases divs.len(),
{
    if divs.len() == 0 {
        Seq::empty()
    } else {
        round_entries(divs.drop_last()) + divs.last().scores@
    }
}

pub open spec fn division_ties(scores: Seq<ApiPlayer>) -> Seq<Tied> {
    scores.map_values(|s: ApiPlayer| tie_of(ties_among(s, scores)))
}

/// The tie counts of those lines, each counted within its own division.
pub open spec fn round_entry_ties(divs: Seq<RoundFromApi>) -> Seq<Tied>
    decreases divs.len(),
{
    if divs.len() == 0 {
        Seq::empty()
    } else {
        round_entry_ties(divs.drop_last()) + division_ties(divs.last().scores@)
    }
}

pub open spec fn fixed_hole(h: Hole, unit: Option<Unit>) -> Hole {
    Hole { par: h.par, hole_number: h.hole_number, length: fixed_length(h.length, unit) }
}

/// Whether `scores` are the scores of the lines `entries` with tie counts `ties`, in order.
pub open spec fn scores_of(scores: Seq<PlayerScore>, entries: Seq<ApiPlayer>, ties: Seq<Tied>) -> bool {
    &&& scores.len() == entries.len()
    &&& ties.len() == entries.len()
    &&& forall|i: int| 0 <= i < scores.len() ==> is_score_of(#[trigger] scores[i], entries[i], ties[i])
}

/// Whether `r` is the round built from fetched divisions: the layout of the first division
/// gives the holes (lengths in meters) and the course length, every reported line of every
/// division becomes a player score, and the round number comes from the label.
pub open spec fn assembled_round(
    r: RoundInformation,
    divs: Seq<RoundFromApi>,
    competition_id: usize,
    label: RoundLabelInfo,
    total_rounds: usize,
) -> bool {
    let layout = divs[0].layouts@[0];
    &&& r.holes@ == layout.holes@.map_values(|h: Hole| fixed_hole(h, layout.unit))
    &&& r.course_length == course_length_spec(layout.length, layout.unit)
    &&& scores_of(r.players@, round_entries(divs), round_entry_ties(divs))
    &&& r.round_number == round_number_from_label(label, total_rounds as int)
    &&& r.competition_id == competition_id
    &&& r.divs@ == divs.map_values(|d: RoundFromApi| d.div)
    &&& r.label == label
    &&& !r.phantom
}

proof fn lemma_entries_len(divs: Seq<RoundFromApi>)
    ensures
        round_entries(divs).len() == round_entry_ties(divs).len(),
    decreases divs.len(),
{
    if divs.len() > 0 {
        lemma_entries_len(divs.drop_last());
    }
}

impl RoundInformation {
    /// A placeholder for a round whose results could not be had: no holes, no players.
    pub fn phantom(label: RoundLabelInfo, competition_id: usize, total_rounds: usize) -> (r: RoundInformation)
        requires
            label.label == RoundLabel::Playoff ==> total_rounds >= 1,
        ensures
            r.holes@.len() == 0,
            r.players@.len() == 0,
            r.course_length == 0,
            r.round_number == round_number_from_label(label, total_rounds as int),
            r.label == label,
            r.competition_id == competition_id,
            r.divs@.len() == 0,
            r.phantom,
    {
        RoundInformation {
            holes: Vec::new(),
            players: Vec::new(),
            course_length: 0,
            round_number: label.get_round_number_from_label(total_rounds),
            label,
            competition_id,
            divs: Vec::new(),
            phantom: true,
        }
    }

    /// The round's status from its players' statuses.
    pub fn status(&self) -> (s: RoundStatus)
        ensures
            s == round_status_of(self.phantom, player_statuses(self.players@)),
    {
        let ghost st = player_statuses(self.players@);
        let mut active: usize = 0;
        let mut finished: usize = 0;
        let mut started: usize = 0;
        let mut i: usize = 0;
        while i < self.players.len()
            invariant
                i <= self.players.len(),
                st == player_statuses(self.players@),
                active == active_count(st.take(i as int)),
                finished == status_count(st.take(i as int), PlayerStatus::Finished),
                started == status_count(st.take(i as int), PlayerStatus::Started),
                active <= i,
                finished <= i,
                started <= i,
            decreases self.players.len() - i,
        {
            assert(st.take(i + 1).drop_last() =~= st.take(i as int));
            assert(st.take(i + 1).last() == self.players@[i as int].started);
            let s = self.players[i].started;
            if !s.is_troubled() {
                active = active + 1;
            }
            if s == PlayerStatus::Finished {
                finished = finished + 1;
            }
            if s == PlayerStatus::Started {
                started = started + 1;
            }
            i = i + 1;
        }
        assert(st.take(i as int) =~= st);
        if self.phantom || active == 0 {
            RoundStatus::Pending
        } else if finished == active || finished >= active / 2 {
            RoundStatus::Finished
        } else if started > 0 || finished > 0 {
            RoundStatus::Started
        } else {
            RoundStatus::Pending
        }
    }

    /// Builds a round from the divisions fetched for it. Every reported player is kept.
    pub fn from_divisions(
        divs: &Vec<RoundFromApi>,
        competition_id: usize,
        label: RoundLabelInfo,
        total_rounds: usize,
    ) -> (r: RoundInformation)
        requires
            divs@.len() > 0,
            divs@[0].layouts@.len() > 0,
            label.label == RoundLabel::Playoff ==> total_rounds >= 1,
        ensures
            assembled_round(r, divs@, competition_id, label, total_rounds),
    {
        let layout = &divs[0].layouts[0];
        let mut holes: Vec<Hole> = Vec::new();
        let mut h: usize = 0;
        while h < layout.holes.len()
            invariant
                h <= layout.holes.len(),
                holes@ == layout.holes@.take(h as int).map_values(|x: Hole| fixed_hole(x, layout.unit)),
            decreases layout.holes.len() - h,
        {
            let hole = layout.holes[h];
            holes.push(Hole {
                par: hole.par,
                hole_number: hole.hole_number,
                length: fix_length(hole.length, layout.unit),
            });
            assert(layout.holes@.take(h + 1).map_values(|x: Hole| fixed_hole(x, layout.unit)) =~= layout.holes@.take(
                h as int,
            ).map_values(|x: Hole| fixed_hole(x, layout.unit)).push(fixed_hole(hole, layout.unit)));
            h = h + 1;
        }
        assert(layout.holes@.take(h as int) =~= layout.holes@);

        let mut players: Vec<PlayerScore> = Vec::new();
        let mut divisions: Vec<Division> = Vec::new();
        let mut d: usize = 0;
        while d < divs.len()
            invariant
                d <= divs.len(),
                scores_of(players@, round_entries(divs@.take(d as int)), round_entry_ties(divs@.take(d as int))),
                divisions@ == divs@.take(d as int).map_values(|x: RoundFromApi| x.div),
            decreases divs.len() - d,
        {
            let div = &divs[d];
            let ghost before = players@;
            let ghost prev_entries = round_entries(divs@.take(d as int));
            let ghost prev_ties = round_entry_ties(divs@.take(d as int));
            let mut k: usize = 0;
            while k < div.scores.len()
                invariant
                    k <= div.scores.len(),
                    players@.len() == before.len() + k,
                    players@.take(before.len() as int) == before,
                    before.len() == prev_entries.len(),
                    prev_ties.len() == prev_entries.len(),
                    forall|i: int| 0 <= i < before.len() ==> is_score_of(#[trigger] players@[i], prev_entries[i], prev_ties[i]),
                    forall|j: int|
                        0 <= j < k ==> is_score_of(
                            #[trigger] players@[before.len() + j],
                            div.scores@[j],
                            division_ties(div.scores@)[j],
                        ),
                decreases div.scores.len() - k,
            {
                let entry = &div.scores[k];
                let tied = count_ties(entry, &div.scores);
                let score = PlayerScore::from_api(entry, tied);
                players.push(score);
                k = k + 1;
            }
            let ghost now_entries = round_entries(divs@.take(d + 1));
            let ghost now_ties = round_entry_ties(divs@.take(d + 1));
            assert(divs@.take(d + 1).drop_last() =~= divs@.take(d as int));
            assert(now_entries == prev_entries + div.scores@);
            assert(now_ties == prev_ties + division_ties(div.scores@));
            assert forall|i: int| 0 <= i < players@.len() implies is_score_of(#[trigger] players@[i], now_entries[i], now_ties[i]) by {
                if i >= before.len() {
                    let j = i - before.len();
                    assert(players@[before.len() + j] == players@[i]);
                }
            }
            divisions.push(div.div);
            assert(divs@.take(d + 1).map_values(|x: RoundFromApi| x.div) =~= divs@.take(d as int).map_values(
                |x: RoundFromApi| x.div,
            ).push(div.div));
            d = d + 1;
        }
        assert(divs@.take(d as int) =~= divs@);
        RoundInformation {
            holes,
            players,
            course_length: course_length(layout.length, layout.unit),
            round_number: label.get_round_number_from_label(total_rounds),
            competition_id,
            divs: divisions,
            label,
            phantom: false,
        }
    }
}

} // verus!

verus! {

/// The divisions that were fetched, in order.
pub open spec fn fetched_divisions(outcomes: Seq<Result<RoundFromApi, GenericError>>) -> Seq<RoundFromApi>
    decreases outcomes.len(),
{
    if outcomes.len() == 0 {
        Seq::empty()
    } else {
        let rest = fetched_divisions(outcomes.drop_last());
        match outcomes.last() {
            Ok(d) => rest.push(d),
            Err(_) => rest,
        }
    }
}

/// The error of the last division that could not be fetched.
pub open spec fn last_fetch_error(outcomes: Seq<Result<RoundFromApi, GenericError>>) -> Option<GenericError>
    decreases outcomes.len(),
{
    if outcomes.len() == 0 {
        None
    } else {
        match outcomes.last() {
            Err(e) => Some(e),
            Ok(_) => last_fetch_error(outcomes.drop_last()),
        }
    }
}

/// The answer when no division of a round could be had.
pub open spec fn no_division_error() -> GenericError {
    GenericError::NotFound("No round found containing any divisions supported by Rustling Chains")
}

impl RoundInformation {
    /// Builds a round from the outcome of fetching each of its divisions. When no division
    /// could be had, the error of the last failed fetch is returned, or "not found" when
    /// nothing was asked for.
    pub fn new(
        outcomes: Vec<Result<RoundFromApi, GenericError>>,
        competition_id: usize,
        label: RoundLabelInfo,
        total_rounds: usize,
    ) -> (r: Result<RoundInformation, GenericError>)
        requires
            fetched_divisions(outcomes@).len() > 0 ==> fetched_divisions(outcomes@)[0].layouts@.len() > 0,
            label.label == RoundLabel::Playoff ==> total_rounds >= 1,
        ensures
            fetched_divisions(outcomes@).len() == 0 ==> r == Err::<RoundInformation, GenericError>(
                match last_fetch_error(outcomes@) {
                    Some(e) => e,
                    None => no_division_error(),
                },
            ),
            fetched_divisions(outcomes@).len() > 0 ==> (r matches Ok(round) && assembled_round(
                round,
                fetched_divisions(outcomes@),
                competition_id,
                label,
                total_rounds,
            )),
    {
        let ghost all = outcomes@;
        assert(all.len() == outcomes.len());
        let mut rest = outcomes;
        let mut divs: Vec<RoundFromApi> = Vec::new();
        let mut error: Option<GenericError> = None;
        let mut taken: usize = 0;
        while rest.len() > 0
            invariant
                taken + rest@.len() == all.len(),
                all.len() <= usize::MAX,
                rest@ == all.skip(taken as int),
                divs@ == fetched_divisions(all.take(taken as int)),
                error == last_fetch_error(all.take(taken as int)),
            decreases rest@.len(),
        {
            let next = rest.remove(0);
            assert(all.take(taken + 1).drop_last() =~= all.take(taken as int));
            assert(all.take(taken + 1).last() == next);
            match next {
                Ok(d) => divs.push(d),
                Err(e) => error = Some(e),
            }
            taken = taken + 1;
            assert(rest@ =~= all.skip(taken as int));
        }
        assert(all.take(taken as int) =~= all);
        if divs.len() == 0 {
            match error {
                Some(e) => Err(e),
                None => Err(GenericError::NotFound(
                    "No round found containing any divisions supported by Rustling Chains",
                )),
            }
        } else {
            Ok(RoundInformation::from_divisions(&divs, competition_id, label, total_rounds))
        }
    }
}

/// A placeholder round is always pending, and so is a round in which no player is playing,
/// has finished or has been scored.
pub proof fn law_round_pending_without_active_players(phantom: bool, s: Seq<PlayerStatus>)
    requires
        phantom || active_count(s) == 0,
    ensures
        round_status_of(phantom, s) == RoundStatus::Pending,
{
}

proof fn lemma_counts_bounded(s: Seq<PlayerStatus>)
    ensures
        status_count(s, PlayerStatus::Finished) + status_count(s, PlayerStatus::Started) == active_count(s),
    decreases s.len(),
{
    if s.len() > 0 {
        lemma_counts_bounded(s.drop_last());
    }
}

/// A round that is not a placeholder and has an active player is never pending: it is
/// finished once at least half of its active players (rounded down) have finished, and
/// started otherwise.
pub proof fn law_round_with_active_players(s: Seq<PlayerStatus>)
    requires
        active_count(s) > 0,
    ensures
        round_status_of(false, s) != RoundStatus::Pending,
        round_status_of(false, s) == RoundStatus::Finished <==> status_count(s, PlayerStatus::Finished)
            >= active_count(s) / 2,
{
    lemma_counts_bounded(s);
}

} // verus!

verus! {

/// A player's throws and placement in one round, as they are stored.
#[derive(Clone, Copy, Debug, PartialEq, Eq, Structural)]
pub struct RoundScoreRecord {
    pub pdga_number: i32,
    pub competition_id: i32,
    pub round: i32,
    pub throws: i32,
    pub division: StoredDivision,
    pub placement: i32,
}

/// The throws and placement already stored for a player in a round: those of the first stored
/// record with the player's number and the round, if there is one.
pub open spec fn stored_score(stored: Seq<RoundScoreRecord>, pdga_number: i32, round: i32) -> Option<(i32, i32)>
    decreases stored.len(),
{
    if stored.len() == 0 {
        None
    } else if stored[0].pdga_number == pdga_number && stored[0].round == round {
        Some((stored[0].throws, stored[0].placement))
    } else {
        stored_score(stored.drop_first(), pdga_number, round)
    }
}

/// The record to store for a player's score in a round: one exactly where the score changed,
/// that is where the stored throws and placement differ from it (or none are stored).
pub open spec fn round_record_of(
    p: PlayerScore,
    round: i32,
    competition_id: i32,
    division: Division,
    prev: Option<(i32, i32)>,
) -> Option<RoundScoreRecord> {
    if prev != Some((p.throws as i32, p.placement as i32)) {
        Some(
            RoundScoreRecord {
                pdga_number: p.pdga_number as i32,
                competition_id,
                round,
                throws: p.throws as i32,
                division: stored_division(division),
                placement: p.placement as i32,
            },
        )
    } else {
        None
    }
}

/// Whether two scores are equal in every field.
pub open spec fn same_score(a: PlayerScore, b: PlayerScore) -> bool {
    &&& a.pdga_number == b.pdga_number
    &&& a.hole_scores@ == b.hole_scores@
    &&& a.throws == b.throws
    &&& a.round_to_par == b.round_to_par
    &&& a.placement == b.placement
    &&& a.started == b.started
    &&& a.division == b.division
    &&& a.name@ == b.name@
    &&& a.first_name@ == b.first_name@
    &&& a.last_name@ == b.last_name@
    &&& (match (a.avatar, b.avatar) {
        (Some(x), Some(y)) => x@ == y@,
        (None, None) => true,
        _ => false,
    })
    &&& a.tied == b.tied
}

fn same_bytes(a: &Vec<u8>, b: &Vec<u8>) -> (r: bool)
    ensures
        r == (a@ == b@),
{
    if a.len() != b.len() {
        return false;
    }
    let mut i: usize = 0;
    while i < a.len()
        invariant
            a.len() == b.len(),
            i <= a.len(),
            forall|j: int| 0 <= j < i ==> a@[j] == b@[j],
        decreases a.len() - i,
    {
        if a[i] != b[i] {
            return false;
        }
        i = i + 1;
    }
    assert(a@ =~= b@);
    true
}

impl PlayerScore {
    /// Whether two scores are equal in every field.
    pub fn equals(&self, other: &PlayerScore) -> (r: bool)
        ensures
            r == same_score(*self, *other),
    {
        let avatars = match (&self.avatar, &other.avatar) {
            (Some(x), Some(y)) => x.eq(y),
            (None, None) => true,
            _ => false,
        };
        self.pdga_number == other.pdga_number && same_bytes(&self.hole_scores, &other.hole_scores)
            && self.throws == other.throws && self.round_to_par == other.round_to_par
            && self.placement == other.placement && self.started == other.started
            && self.division == other.division && self.name == other.name
            && self.first_name == other.first_name && self.last_name == other.last_name && avatars
            && self.tied == other.tied
    }

    /// The fantasy points this score earns in a competition of the given level.
    pub fn get_user_score(&self, level: CompetitionLevel) -> (score: u16)
        requires
            tie_fits(self.placement as int, self.tied),
        ensures
            score == fantasy_points(self.placement as int, self.tied, level),
    {
        user_score(self.placement, self.tied, level)
    }

    /// The round score to store when it changed: `Some` exactly where it differs from the
    /// throws and placement already stored (`prev`), or nothing is stored.
    pub fn round_score_record(&self, round: i32, competition_id: i32, division: Division, prev: Option<(i32, i32)>) -> (r:
        Option<RoundScoreRecord>)
        ensures
            r == round_record_of(*self, round, competition_id, division, prev),
    {
        let unchanged = match prev {
            Some((throws, placement)) => throws == self.throws as i32 && placement == self.placement as i32,
            None => false,
        };
        if !unchanged {
            Some(
                RoundScoreRecord {
                    pdga_number: self.pdga_number as i32,
                    competition_id,
                    round,
                    throws: self.throws as i32,
                    division: division.to_stored(),
                    placement: self.placement as i32,
                },
            )
        } else {
            None
        }
    }
}

/// Whether a player has started or finished the round: only their scores are stored.
pub open spec fn playing(s: PlayerStatus) -> bool {
    s == PlayerStatus::Started || s == PlayerStatus::Finished
}

/// The round scores to store for the players of a round who have started or finished it,
/// leaving out those equal to what `stored` already holds.
pub open spec fn round_records(players: Seq<PlayerScore>, round: i32, competition_id: i32, stored: Seq<RoundScoreRecord>) -> Seq<
    RoundScoreRecord,
>
    decreases players.len(),
{
    if players.len() == 0 {
        Seq::empty()
    } else {
        let rest = round_records(players.drop_last(), round, competition_id, stored);
        let p = players.last();
        if playing(p.started) {
            match round_record_of(p, round, competition_id, p.division, stored_score(stored, p.pdga_number as i32, round)) {
                Some(rec) => rest.push(rec),
                None => rest,
            }
        } else {
            rest
        }
    }
}

/// Looks up the throws and placement stored for a player in a round.
pub fn find_stored_score(stored: &Vec<RoundScoreRecord>, pdga_number: i32, round: i32) -> (r: Option<(i32, i32)>)
    ensures
        r == stored_score(stored@, pdga_number, round),
{
    let mut i: usize = 0;
    assert(stored@.skip(0) =~= stored@);
    while i < stored.len()
        invariant
            i <= stored.len(),
            stored_score(stored@, pdga_number, round) == stored_score(stored@.skip(i as int), pdga_number, round),
        decreases stored.len() - i,
    {
        assert(stored@.skip(i as int).drop_first() =~= stored@.skip(i + 1));
        assert(stored@.skip(i as int)[0] == stored@[i as int]);
        if stored[i].pdga_number == pdga_number && stored[i].round == round {
            return Some((stored[i].throws, stored[i].placement));
        }
        i = i + 1;
    }
    assert(stored@.skip(i as int).len() == 0);
    None
}

impl RoundInformation {
    /// The round scores to store for every player of the round who has started or finished
    /// it, except those equal to what `stored` already holds.
    pub fn all_player_round_scores(&self, round: i32, competition_id: i32, stored: &Vec<RoundScoreRecord>) -> (r: Vec<
        RoundScoreRecord,
    >)
        ensures
            r@ == round_records(self.players@, round, competition_id, stored@),
    {
        let mut out: Vec<RoundScoreRecord> = Vec::new();
        let mut i: usize = 0;
        while i < self.players.len()
            invariant
                i <= self.players.len(),
                out@ == round_records(self.players@.take(i as int), round, competition_id, stored@),
            decreases self.players.len() - i,
        {
            assert(self.players@.take(i + 1).drop_last() =~= self.players@.take(i as int));
            let p = &self.players[i];
            if p.started == PlayerStatus::Started || p.started == PlayerStatus::Finished {
                let prev = find_stored_score(stored, p.pdga_number as i32, round);
                match p.round_score_record(round, competition_id, p.division, prev) {
                    Some(rec) => out.push(rec),
                    None => {},
                }
            }
            i = i + 1;
        }
        assert(self.players@.take(i as int) =~= self.players@);
        out
    }
}

} // verus!

verus! {

/// A player's line in a round in the results service's older round format.
pub struct PlayerInRound {
    pub pdga_number: i32,
    pub name: String,
    pub hole_scores: Vec<u32>,
    pub round_score: u32,
    pub round_to_par: i32,
}

/// A player's score in a round in the older round format.
pub struct RoundLineScore {
    pub pdga_number: i32,
    pub hole_scores: Vec<u32>,
    pub round_score: u32,
    pub round_to_par: i32,
}

impl From<PlayerInRound> for RoundLineScore {
    fn from(p: PlayerInRound) -> (r: RoundLineScore) {
        RoundLineScore {
            pdga_number: p.pdga_number,
            hole_scores: p.hole_scores,
            round_score: p.round_score,
            round_to_par: p.round_to_par,
        }
    }
}

impl vstd::std_specs::convert::FromSpecImpl<PlayerInRound> for RoundLineScore {
    open spec fn obeys_from_spec() -> bool {
        true
    }

    open spec fn from_spec(p: PlayerInRound) -> RoundLineScore {
        RoundLineScore {
            pdga_number: p.pdga_number,
            hole_scores: p.hole_scores,
            round_score: p.round_score,
            round_to_par: p.round_to_par,
        }
    }
}

} // verus!
