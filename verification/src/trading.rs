use vstd::prelude::*;
use crate::division::Division;
use crate::error::{GenericError, PlayerError};

verus! {

/// A pick as a user submits it: a player for a slot.
pub struct FantasyPick {
    pub slot: i32,
    pub pdga_number: i32,
    pub name: Option<String>,
    pub benched: bool,
}

/// A stored pick of one user, in one tournament and one division.
#[derive(Clone, Copy, Debug, PartialEq, Eq, Structural)]
pub struct PickRow {
    pub id: i32,
    pub slot: i32,
    pub player: i32,
    pub benched: bool,
}

/// A new pick to be stored, before it has an id.
#[derive(Clone, Copy, Debug, PartialEq, Eq, Structural)]
pub struct NewPick {
    pub slot: i32,
    pub player: i32,
    pub benched: bool,
}

/// The entry that a change of picks leaves in the trade log.
#[derive(Clone, Copy, Debug, PartialEq, Eq, Structural)]
pub struct TradeRecord {
    pub player: i32,
    pub slot: i32,
    pub is_local_swap: bool,
    pub other_player: Option<i32>,
    pub other_slot: Option<i32>,
}

/// What submitting a pick does to a user's picks in a division.
#[derive(Clone, Copy, Debug, PartialEq, Eq, Structural)]
pub enum PickChange {
    /// The player already fills the slot: nothing changes and nothing is logged.
    Unchanged,
    /// The player moves from another slot into an occupied slot: the player who had the slot
    /// takes the player's old slot. `updated` is the old pick, now holding the other player;
    /// `removed` is the id of the pick that held the slot, and `inserted` the new pick, which
    /// takes over that id.
    Swap { updated: PickRow, removed: i32, inserted: PickRow, trade: TradeRecord },
    /// The player moves from another slot into a free slot.
    Move { updated: PickRow, trade: TradeRecord },
    /// The player is new to the user's picks and the slot is free.
    Insert { new_pick: NewPick, trade: TradeRecord },
    /// The player is new to the user's picks and replaces the player in the slot.
    Replace { updated: PickRow, trade: TradeRecord },
}

/// The position of the first pick holding a player, or the number of picks.
pub open spec fn position_of_player(picks: Seq<PickRow>, player: i32) -> int
    decreases picks.len(),
{
    if picks.len() == 0 {
        0
    } else if picks[0].player == player {
        0
    } else {
        1 + position_of_player(picks.drop_first(), player)
    }
}

/// The position of the first pick in a slot, or the number of picks.
pub open spec fn position_of_slot(picks: Seq<PickRow>, slot: i32) -> int
    decreases picks.len(),
{
    if picks.len() == 0 {
        0
    } else if picks[0].slot == slot {
        0
    } else {
        1 + position_of_slot(picks.drop_first(), slot)
    }
}

/// A pick goes to the bench when its slot lies past the bench limit.
pub open spec fn benched_at(slot: i32, bench_limit: i32) -> bool {
    slot > bench_limit
}

/// The change that putting `player` into `slot` makes to a user's picks in a division.
pub open spec fn pick_change(picks: Seq<PickRow>, slot: i32, player: i32, bench_limit: i32) -> PickChange {
    let p = position_of_player(picks, player);
    let o = position_of_slot(picks, slot);
    let has_prev = p < picks.len();
    let has_other = o < picks.len();
    if has_prev && has_other {
        let prev = picks[p];
        let other = picks[o];
        if prev.slot != slot {
            PickChange::Swap {
                updated: PickRow { player: other.player, ..prev },
                removed: other.id,
                inserted: PickRow { id: other.id, slot, player, benched: benched_at(slot, bench_limit) },
                trade: TradeRecord {
                    player,
                    slot,
                    is_local_swap: true,
                    other_player: Some(other.player),
                    other_slot: Some(prev.slot),
                },
            }
        } else {
            PickChange::Unchanged
        }
    } else if has_prev {
        let prev = picks[p];
        if prev.slot != slot {
            PickChange::Move {
                updated: PickRow { slot, ..prev },
                trade: TradeRecord {
                    player,
                    slot,
                    is_local_swap: false,
                    other_player: None,
                    other_slot: Some(prev.slot),
                },
            }
        } else {
            PickChange::Unchanged
        }
    } else if has_other {
        let other = picks[o];
        PickChange::Replace {
            updated: PickRow { player, ..other },
            trade: TradeRecord {
                player,
                slot,
                is_local_swap: false,
                other_player: Some(other.player),
                other_slot: Some(other.slot),
            },
        }
    } else {
        PickChange::Insert {
            new_pick: NewPick { slot, player, benched: benched_at(slot, bench_limit) },
            trade: TradeRecord { player, slot, is_local_swap: false, other_player: None, other_slot: None },
        }
    }
}

fn find_player(picks: &Vec<PickRow>, player: i32) -> (r: usize)
    ensures
        r == position_of_player(picks@, player),
{
    let ghost s = picks@;
    assert(s.skip(0) =~= s);
    let mut i: usize = 0;
    while i < picks.len()
        invariant
            i <= picks.len(),
            s == picks@,
            position_of_player(s, player) == i + position_of_player(s.skip(i as int), player),
        decreases picks.len() - i,
    {
        assert(s.skip(i as int).drop_first() =~= s.skip(i + 1));
        if picks[i].player == player {
            return i;
        }
        i = i + 1;
    }
    i
}

fn find_slot(picks: &Vec<PickRow>, slot: i32) -> (r: usize)
    ensures
        r == position_of_slot(picks@, slot),
{
    let ghost s = picks@;
    assert(s.skip(0) =~= s);
    let mut i: usize = 0;
    while i < picks.len()
        invariant
            i <= picks.len(),
            s == picks@,
            position_of_slot(s, slot) == i + position_of_slot(s.skip(i as int), slot),
        decreases picks.len() - i,
    {
        assert(s.skip(i as int).drop_first() =~= s.skip(i + 1));
        if picks[i].slot == slot {
            return i;
        }
        i = i + 1;
    }
    i
}

impl FantasyPick {
    /// Whether the pick's slot lies on the bench.
    pub fn is_benched(&self, bench_limit: i32) -> (r: bool)
        ensures
            r == benched_at(self.slot, bench_limit),
    {
        self.slot > bench_limit
    }

    /// The change that this pick makes to the user's picks in its division, given where the
    /// bench starts.
    pub fn plan_change(&self, picks: &Vec<PickRow>, bench_limit: i32) -> (c: PickChange)
        ensures
            c == pick_change(picks@, self.slot, self.pdga_number, bench_limit),
    {
        let p = find_player(picks, self.pdga_number);
        let o = find_slot(picks, self.slot);
        let slot = self.slot;
        let player = self.pdga_number;
        if p < picks.len() && o < picks.len() {
            let prev = picks[p];
            let other = picks[o];
            if prev.slot != slot {
                PickChange::Swap {
                    updated: PickRow { id: prev.id, slot: prev.slot, player: other.player, benched: prev.benched },
                    removed: other.id,
                    inserted: PickRow { id: other.id, slot, player, benched: self.is_benched(bench_limit) },
                    trade: TradeRecord {
                        player,
                        slot,
                        is_local_swap: true,
                        other_player: Some(other.player),
                        other_slot: Some(prev.slot),
                    },
                }
            } else {
                PickChange::Unchanged
            }
        } else if p < picks.len() {
            let prev = picks[p];
            if prev.slot != slot {
                PickChange::Move {
                    updated: PickRow { id: prev.id, slot, player: prev.player, benched: prev.benched },
                    trade: TradeRecord { player, slot, is_local_swap: false, other_player: None, other_slot: Some(prev.slot) },
                }
            } else {
                PickChange::Unchanged
            }
        } else if o < picks.len() {
            let other = picks[o];
            PickChange::Replace {
                updated: PickRow { id: other.id, slot: other.slot, player, benched: other.benched },
                trade: TradeRecord {
                    player,
                    slot,
                    is_local_swap: false,
                    other_player: Some(other.player),
                    other_slot: Some(other.slot),
                },
            }
        } else {
            PickChange::Insert {
                new_pick: NewPick { slot, player, benched: self.is_benched(bench_limit) },
                trade: TradeRecord { player, slot, is_local_swap: false, other_player: None, other_slot: None },
            }
        }
    }
}

/// The slot past which picks sit on the bench: the picks allowed less the bench size.
pub fn bench_limit(max_picks_per_user: i32, bench_size: i32) -> (r: i32)
    requires
        i32::MIN <= max_picks_per_user - bench_size <= i32::MAX,
    ensures
        r == max_picks_per_user - bench_size,
{
    max_picks_per_user - bench_size
}

/// What is known of a player's division in a tournament.
#[derive(Clone, Copy, Debug, PartialEq, Eq, Structural)]
pub enum DivisionLookup {
    /// The lookup itself failed.
    Failed,
    /// The player has no division in the tournament.
    Missing,
    /// The player's division in the tournament.
    Found(Division),
}

pub open spec fn resolved_division(in_tournament: DivisionLookup, elsewhere: Option<Division>, requested: Division) -> Result<
    Division,
    GenericError,
> {
    let found = match in_tournament {
        DivisionLookup::Failed => None,
        DivisionLookup::Missing => elsewhere,
        DivisionLookup::Found(d) => Some(d),
    };
    match found {
        None => Err(GenericError::UnknownError("Unable to get player division")),
        Some(d) => if d == requested {
            Ok(d)
        } else {
            Err(GenericError::Conflict("Player division does not match division"))
        },
    }
}

/// The division a pick goes into: the player's division in the tournament, or else the first
/// division stored for the player anywhere; it must be the division the pick was made for.
pub fn resolve_pick_division(in_tournament: DivisionLookup, elsewhere: Option<Division>, requested: Division) -> (r: Result<
    Division,
    GenericError,
>)
    ensures
        r == resolved_division(in_tournament, elsewhere, requested),
{
    let found = match in_tournament {
        DivisionLookup::Failed => None,
        DivisionLookup::Missing => elsewhere,
        DivisionLookup::Found(d) => Some(d),
    };
    match found {
        None => Err(GenericError::UnknownError("Unable to get player division")),
        Some(d) => {
            if d == requested {
                Ok(d)
            } else {
                Err(GenericError::Conflict("Player division does not match division"))
            }
        },
    }
}

impl FantasyPick {
    /// The division a submitted pick goes into: an unknown player is refused, and otherwise the
    /// division is resolved as for any pick.
    pub fn change_or_insert(
        &self,
        player_exists: bool,
        in_tournament: DivisionLookup,
        elsewhere: Option<Division>,
        requested: Division,
    ) -> (r: Result<Division, GenericError>)
        ensures
            r == (if !player_exists {
                Err(GenericError::NotFound("Player not found in tournament"))
            } else {
                resolved_division(in_tournament, elsewhere, requested)
            }),
    {
        if !player_exists {
            return Err(GenericError::from(PlayerError::NotFound));
        }
        resolve_pick_division(in_tournament, elsewhere, requested)
    }
}

impl FantasyPick {
    /// The change a pick makes, given the lookup of the user's picks in its division: a failed
    /// lookup gives "unable to insert pick".
    pub fn change_from_lookup(&self, picks: &Result<Vec<PickRow>, ()>, bench_limit: i32) -> (r: Result<
        PickChange,
        GenericError,
    >)
        ensures
            match *picks {
                Ok(rows) => r == Ok::<PickChange, GenericError>(
                    pick_change(rows@, self.slot, self.pdga_number, bench_limit),
                ),
                Err(_) => r == Err::<PickChange, GenericError>(GenericError::UnknownError("Unable to insert pick")),
            },
    {
        match picks {
            Ok(rows) => Ok(self.plan_change(rows, bench_limit)),
            Err(_) => Err(pick_write_error()),
        }
    }
}

/// The error of a pick change whose lookup or write in the database failed.
pub fn pick_write_error() -> (e: GenericError)
    ensures
        e == GenericError::UnknownError("Unable to insert pick"),
{
    GenericError::UnknownError("Unable to insert pick")
}

} // verus!

verus! {

/// The picks after a pick of `player` for `slot` is applied; a newly stored pick gets `new_id`.
pub open spec fn picks_after(picks: Seq<PickRow>, slot: i32, player: i32, bench_limit: i32, new_id: i32) -> Seq<PickRow> {
    let p = position_of_player(picks, player);
    let o = position_of_slot(picks, slot);
    match pick_change(picks, slot, player, bench_limit) {
        PickChange::Unchanged => picks,
        PickChange::Swap { updated, inserted, .. } => picks.update(p, updated).remove(o).push(inserted),
        PickChange::Move { updated, .. } => picks.update(p, updated),
        PickChange::Replace { updated, .. } => picks.update(o, updated),
        PickChange::Insert { new_pick, .. } => picks.push(
            PickRow { id: new_id, slot: new_pick.slot, player: new_pick.player, benched: new_pick.benched },
        ),
    }
}

/// No two picks share a slot, and no two share a player.
pub open spec fn picks_consistent(picks: Seq<PickRow>) -> bool {
    &&& forall|a: int, b: int| 0 <= a < b < picks.len() ==> (#[trigger] picks[a]).slot != (#[trigger] picks[b]).slot
    &&& forall|a: int, b: int| 0 <= a < b < picks.len() ==> (#[trigger] picks[a]).player != (#[trigger] picks[b]).player
}

proof fn lemma_position_of_player(picks: Seq<PickRow>, player: i32)
    ensures
        0 <= position_of_player(picks, player) <= picks.len(),
        position_of_player(picks, player) < picks.len() ==> picks[position_of_player(picks, player)].player == player,
        forall|j: int| 0 <= j < position_of_player(picks, player) ==> (#[trigger] picks[j]).player != player,
    decreases picks.len(),
{
    if picks.len() > 0 && picks[0].player != player {
        lemma_position_of_player(picks.drop_first(), player);
        assert forall|j: int| 0 <= j < position_of_player(picks, player) implies (#[trigger] picks[j]).player != player by {
            if j > 0 {
                assert(picks[j] == picks.drop_first()[j - 1]);
            }
        }
    }
}

proof fn lemma_position_of_slot(picks: Seq<PickRow>, slot: i32)
    ensures
        0 <= position_of_slot(picks, slot) <= picks.len(),
        position_of_slot(picks, slot) < picks.len() ==> picks[position_of_slot(picks, slot)].slot == slot,
        forall|j: int| 0 <= j < position_of_slot(picks, slot) ==> (#[trigger] picks[j]).slot != slot,
    decreases picks.len(),
{
    if picks.len() > 0 && picks[0].slot != slot {
        lemma_position_of_slot(picks.drop_first(), slot);
        assert forall|j: int| 0 <= j < position_of_slot(picks, slot) implies (#[trigger] picks[j]).slot != slot by {
            if j > 0 {
                assert(picks[j] == picks.drop_first()[j - 1]);
            }
        }
    }
}

/// The bench holds the last slots of a user's picks. With `max_picks` picks allowed, of which
/// `bench_size` on the bench, the bench limit is `max_picks - bench_size` and a pick sits on
/// the bench exactly when its slot lies past it: the last starting slot is no bench slot and
/// the slot after it is. A pick that enters a free slot, or takes a slot over in a swap, is
/// benched by that rule.
pub proof fn law_bench_holds_the_last_slots(
    max_picks: i32,
    bench_size: i32,
    limit: i32,
    slot: i32,
    picks: Seq<PickRow>,
    player: i32,
)
    requires
        limit == max_picks - bench_size,
    ensures
        !benched_at(limit, limit),
        limit < i32::MAX ==> benched_at((limit + 1) as i32, limit),
        benched_at(slot, limit) <==> max_picks - bench_size < slot,
        pick_change(picks, slot, player, limit) matches PickChange::Insert { new_pick, .. } ==> (new_pick.benched
            <==> max_picks - bench_size < slot),
        pick_change(picks, slot, player, limit) matches PickChange::Swap { inserted, .. } ==> (inserted.benched
            <==> max_picks - bench_size < slot),
{
}

/// After a pick is applied the player fills the slot, and picks without shared slots or
/// players stay so.
pub proof fn law_pick_fills_slot_and_keeps_picks_consistent(
    picks: Seq<PickRow>,
    slot: i32,
    player: i32,
    bench_limit: i32,
    new_id: i32,
)
    requires
        picks_consistent(picks),
    ensures
        exists|k: int|
            0 <= k < picks_after(picks, slot, player, bench_limit, new_id).len() && (#[trigger] picks_after(
                picks,
                slot,
                player,
                bench_limit,
                new_id,
            )[k]).slot == slot && picks_after(picks, slot, player, bench_limit, new_id)[k].player == player,
        picks_consistent(picks_after(picks, slot, player, bench_limit, new_id)),
{
    lemma_position_of_player(picks, player);
    lemma_position_of_slot(picks, slot);
    let p = position_of_player(picks, player);
    let o = position_of_slot(picks, slot);
    let after = picks_after(picks, slot, player, bench_limit, new_id);
    let n = picks.len() as int;
    // A player or slot found later than its first position does not occur at all, by
    // consistency.
    assert forall|j: int| 0 <= j < n && picks[j].player == player implies j == p by {
        if j < p {
        } else if j > p {
            assert(picks[p].player == player);
        }
    }
    assert forall|j: int| 0 <= j < n && picks[j].slot == slot implies j == o by {
        if j < o {
        } else if j > o {
            assert(picks[o].slot == slot);
        }
    }
    if p < n && o < n {
        if picks[p].slot != slot {
            assert(p != o);
            let prev = picks[p];
            let other = picks[o];
            let upd = picks.update(p, PickRow { player: other.player, ..prev });
            let rem = upd.remove(o);
            let ins = PickRow { id: other.id, slot, player, benched: benched_at(slot, bench_limit) };
            assert(after == rem.push(ins));
            assert(after[rem.len() as int] == ins);
            assert forall|a: int| 0 <= a < rem.len() implies #[trigger] rem[a] == (if a < o { upd[a] } else { upd[a + 1] }) by {}
            assert forall|a: int, b: int| 0 <= a < b < after.len() implies (#[trigger] after[a]).slot != (#[trigger] after[b]).slot
                && after[a].player != after[b].player by {
                let ia = if a < o { a } else { a + 1 };
                if b == rem.len() {
                    assert(after[a] == upd[ia]);
                    assert(ia != o);
                    if ia == p {
                        assert(after[a].player == other.player);
                        assert(o != p);
                    } else {
                        assert(after[a] == picks[ia]);
                    }
                } else {
                    let ib = if b < o { b } else { b + 1 };
                    assert(after[a] == upd[ia]);
                    assert(after[b] == upd[ib]);
                    assert(ia < ib);
                    if ia == p {
                        assert(after[b] == picks[ib]);
                        assert(picks[o].player != picks[ib].player);
                        assert(picks[p].slot != picks[ib].slot);
                    } else if ib == p {
                        assert(after[a] == picks[ia]);
                        assert(picks[o].player != picks[ia].player);
                        assert(picks[p].slot != picks[ia].slot);
                    } else {
                        assert(after[a] == picks[ia]);
                        assert(after[b] == picks[ib]);
                    }
                }
            }
            assert(after[rem.len() as int].slot == slot);
        } else {
            assert(after == picks);
            assert(after[p].slot == slot);
        }
    } else if p < n {
        let prev = picks[p];
        if prev.slot != slot {
            assert(after == picks.update(p, PickRow { slot, ..prev }));
            assert(after[p].slot == slot);
        } else {
            assert(after[p].slot == slot);
        }
    } else if o < n {
        let other = picks[o];
        assert(after == picks.update(o, PickRow { player, ..other }));
        assert(after[o].player == player);
    } else {
        assert(after[n].slot == slot);
    }
}

} // verus!
