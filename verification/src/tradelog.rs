use vstd::prelude::*;
use vstd::string::*;
use std::collections::HashMap;
use crate::sorting::{Keyed, lemma_sorted_len, sort_desc_by_key, sorted_desc};
use crate::text::{append_decimal, append_signed, decimal_int, decimal_nat};
use crate::time::{LocalTime, format_timestamp, formatted_timestamp, valid_time};

verus! {

broadcast use vstd::std_specs::hash::group_hash_axioms;

/// A row of the trade log as it is stored: who changed which slot to which player, what that
/// did to another player, and when (the instant, and the fraction of its second in
/// nanoseconds).
#[derive(Clone, Copy, Debug, PartialEq, Eq, Structural)]
pub struct StoredTrade {
    pub user: i32,
    pub player: i32,
    pub slot: i32,
    pub is_local_swap: bool,
    pub other_player: Option<i32>,
    pub other_slot: Option<i32>,
    pub timestamp: LocalTime,
    pub nanos: u32,
}

/// The kind of swap that a trade was.
#[derive(Clone, Copy, Debug, PartialEq, Eq, Structural)]
pub enum PlayerTradingSwapType {
    /// Two of the user's own picks changed slots.
    Local { other_slot: usize, other_player: i32 },
    /// A player from the tournament took the place of one of the user's picks.
    Tournament { other_player: i32 },
}

/// What a trade did.
#[derive(Clone, Copy, Debug, PartialEq, Eq, Structural)]
pub enum PlayerTradingAction {
    Add,
    Swap(PlayerTradingSwapType),
}

/// One trade, ready to be shown.
#[derive(Clone, Copy, Debug, PartialEq, Eq, Structural)]
pub struct PlayerTradeLog {
    pub user: i32,
    pub player: i32,
    pub slot: usize,
    pub action: PlayerTradingAction,
    pub timestamp: LocalTime,
}

/// The trades of a tournament, newest first.
pub struct PlayerTradesLog(pub Vec<PlayerTradeLog>);

/// The other player of a swap.
pub open spec fn swap_player(swap: PlayerTradingSwapType) -> i32 {
    match swap {
        PlayerTradingSwapType::Local { other_player, .. } => other_player,
        PlayerTradingSwapType::Tournament { other_player } => other_player,
    }
}

impl PlayerTradingSwapType {
    /// The other player of the swap.
    pub fn get_player(&self) -> (p: i32)
        ensures
            p == swap_player(*self),
    {
        match self {
            PlayerTradingSwapType::Local { other_player, .. } => *other_player,
            PlayerTradingSwapType::Tournament { other_player } => *other_player,
        }
    }
}

/// Whether a stored row can be read: a local swap names both the other slot and the other
/// player.
pub open spec fn readable_trade(t: StoredTrade) -> bool {
    t.is_local_swap ==> t.other_slot.is_some() && t.other_player.is_some()
}

/// What a stored row says: a local swap when it is marked as one, else a swap with a player
/// of the tournament when it names another player, else an addition.
pub open spec fn log_of(t: StoredTrade) -> PlayerTradeLog {
    PlayerTradeLog {
        user: t.user,
        player: t.player,
        slot: t.slot as usize,
        action: if t.is_local_swap {
            PlayerTradingAction::Swap(
                PlayerTradingSwapType::Local {
                    other_slot: t.other_slot.unwrap() as usize,
                    other_player: t.other_player.unwrap(),
                },
            )
        } else if t.other_player.is_some() {
            PlayerTradingAction::Swap(PlayerTradingSwapType::Tournament { other_player: t.other_player.unwrap() })
        } else {
            PlayerTradingAction::Add
        },
        timestamp: t.timestamp,
    }
}

/// The players that a trade names: its player, then the other player of a swap.
pub open spec fn players_of(log: PlayerTradeLog) -> Seq<i32> {
    match log.action {
        PlayerTradingAction::Add => seq![log.player],
        PlayerTradingAction::Swap(swap) => seq![log.player, swap_player(swap)],
    }
}

/// The name under which an id is shown: its name where one is known, else the id in decimal.
pub open spec fn label(names: Map<i32, String>, id: i32) -> Seq<char> {
    if names.contains_key(id) {
        names[id]@
    } else {
        decimal_int(id as int)
    }
}

/// The words for what a trade did.
pub open spec fn action_text(log: PlayerTradeLog, players: Map<i32, String>) -> Seq<char> {
    let player = label(players, log.player);
    match log.action {
        PlayerTradingAction::Add => "Added "@ + player + " to slot "@ + decimal_nat(log.slot as nat),
        PlayerTradingAction::Swap(PlayerTradingSwapType::Local { other_slot, other_player }) => "Swapped "@
            + player + " with "@ + label(players, other_player) + " (slots "@ + decimal_nat(log.slot as nat)
            + " and "@ + decimal_nat(other_slot as nat) + ")"@,
        PlayerTradingAction::Swap(PlayerTradingSwapType::Tournament { other_player }) => "Swapped "@ + player
            + " in slot "@ + decimal_nat(log.slot as nat) + " with "@ + label(players, other_player),
    }
}

/// The line shown for a trade: `user: action - At date time`.
pub open spec fn trade_message(log: PlayerTradeLog, users: Map<i32, String>, players: Map<i32, String>) -> Seq<
    char,
> {
    label(users, log.user) + ": "@ + action_text(log, players) + " - At "@ + formatted_timestamp(
        log.timestamp.utc_seconds,
        log.timestamp.offset_seconds,
    )
}

/// Appends the name of an id: its name where the map knows one, else the id in decimal.
fn append_label(s: &mut String, names: &HashMap<i32, String>, id: i32)
    ensures
        final(s)@ == old(s)@ + label(names@, id),
{
    match names.get(&id) {
        Some(name) => {
            s.append(name.as_str());
        },
        None => {
            append_signed(s, id as i64);
        },
    }
}

impl PlayerTradeLog {
    /// Reads a stored row.
    pub fn from_stored(trade: StoredTrade) -> (log: PlayerTradeLog)
        requires
            readable_trade(trade),
        ensures
            log == log_of(trade),
    {
        let action = if trade.is_local_swap {
            PlayerTradingAction::Swap(
                PlayerTradingSwapType::Local {
                    other_slot: trade.other_slot.unwrap() as usize,
                    other_player: trade.other_player.unwrap(),
                },
            )
        } else {
            match trade.other_player {
                Some(other_player) => PlayerTradingAction::Swap(PlayerTradingSwapType::Tournament { other_player }),
                None => PlayerTradingAction::Add,
            }
        };
        PlayerTradeLog {
            user: trade.user,
            player: trade.player,
            slot: trade.slot as usize,
            action,
            timestamp: trade.timestamp,
        }
    }

    /// The players that the trade names: its player, then the other player of a swap.
    pub fn players(&self) -> (r: Vec<i32>)
        ensures
            r@ == players_of(*self),
    {
        let mut out = vec![self.player];
        if let PlayerTradingAction::Swap(swap) = &self.action {
            out.push(swap.get_player());
        }
        out
    }

    /// The line shown for the trade, with the names that are known for users and players.
    pub fn into_external_formatting(self, users: &HashMap<i32, String>, players: &HashMap<i32, String>) -> (r:
        String)
        requires
            valid_time(self.timestamp),
        ensures
            r@ == trade_message(self, users@, players@),
    {
        let stamp = format_timestamp(self.timestamp);
        self.line_with_stamp(users, players, stamp.as_str())
    }

    /// The line shown for the trade, given how its time is written.
    pub fn line_with_stamp(&self, users: &HashMap<i32, String>, players: &HashMap<i32, String>, stamp: &str) -> (r:
        String)
        ensures
            r@ == label(users@, self.user) + ": "@ + action_text(*self, players@) + " - At "@ + stamp@,
    {
        let mut s = String::new();
        append_label(&mut s, users, self.user);
        s.append(": ");
        let ghost head = s@;
        match self.action {
            PlayerTradingAction::Add => {
                s.append("Added ");
                append_label(&mut s, players, self.player);
                s.append(" to slot ");
                append_decimal(&mut s, self.slot as u64);
            },
            PlayerTradingAction::Swap(PlayerTradingSwapType::Local { other_slot, other_player }) => {
                s.append("Swapped ");
                append_label(&mut s, players, self.player);
                s.append(" with ");
                append_label(&mut s, players, other_player);
                s.append(" (slots ");
                append_decimal(&mut s, self.slot as u64);
                s.append(" and ");
                append_decimal(&mut s, other_slot as u64);
                s.append(")");
            },
            PlayerTradingAction::Swap(PlayerTradingSwapType::Tournament { other_player }) => {
                s.append("Swapped ");
                append_label(&mut s, players, self.player);
                s.append(" in slot ");
                append_decimal(&mut s, self.slot as u64);
                s.append(" with ");
                append_label(&mut s, players, other_player);
            },
        }
        assert(s@ =~= head + action_text(*self, players@));
        s.append(" - At ");
        s.append(stamp);
        s
    }
}

impl Keyed for StoredTrade {
    /// The instant as one number that orders as (second, fraction) does.
    open spec fn key_of(&self) -> i128 {
        (self.timestamp.utc_seconds * 4_294_967_296 + self.nanos) as i128
    }

    fn key(&self) -> (k: i128) {
        self.timestamp.utc_seconds as i128 * 4_294_967_296i128 + self.nanos as i128
    }
}

/// The trades, newest first; trades at the same instant keep their order.
pub open spec fn newest_first(trades: Seq<StoredTrade>) -> Seq<PlayerTradeLog> {
    sorted_desc(trades).map_values(|t: StoredTrade| log_of(t))
}

/// The users that the trades name, with repeats next to each other merged.
pub open spec fn users_to_look_up(logs: Seq<PlayerTradeLog>) -> Seq<i32> {
    merge_runs(logs.map_values(|l: PlayerTradeLog| l.user))
}

/// The players that the trades name, in order, with repeats next to each other merged.
pub open spec fn players_to_look_up(logs: Seq<PlayerTradeLog>) -> Seq<i32> {
    merge_runs(all_players(logs))
}

/// The players that the trades name, in order.
pub open spec fn all_players(logs: Seq<PlayerTradeLog>) -> Seq<i32>
    decreases logs.len(),
{
    if logs.len() == 0 {
        Seq::empty()
    } else {
        all_players(logs.drop_last()) + players_of(logs.last())
    }
}

/// A sequence with each run of equal neighbours cut to one item.
pub open spec fn merge_runs(s: Seq<i32>) -> Seq<i32>
    decreases s.len(),
{
    if s.len() == 0 {
        Seq::empty()
    } else {
        let rest = merge_runs(s.drop_last());
        if s.len() >= 2 && s[s.len() - 2] == s.last() {
            rest
        } else {
            rest.push(s.last())
        }
    }
}

/// Appends `items` to `out`, skipping an item equal to the one before it in the whole sequence.
fn push_merged(out: &mut Vec<i32>, seen: Ghost<Seq<i32>>, items: &Vec<i32>)
    requires
        old(out)@ == merge_runs(seen@),
    ensures
        final(out)@ == merge_runs(seen@ + items@),
{
    let ghost start = seen@;
    let mut last: Option<i32> = if out.len() > 0 { Some(out[out.len() - 1]) } else { None };
    proof {
        lemma_merge_runs_last(start);
    }
    let mut i: usize = 0;
    while i < items.len()
        invariant
            i <= items.len(),
            out@ == merge_runs(start + items@.take(i as int)),
            last == (if (start + items@.take(i as int)).len() == 0 {
                None
            } else {
                Some((start + items@.take(i as int)).last())
            }),
        decreases items.len() - i,
    {
        let ghost before = start + items@.take(i as int);
        let ghost after = start + items@.take(i + 1);
        assert(after.drop_last() =~= before);
        proof {
            lemma_merge_runs_last(before);
        }
        let item = items[i];
        let repeat = match last {
            Some(prev) => prev == item,
            None => false,
        };
        if !repeat {
            out.push(item);
        }
        last = Some(item);
        i = i + 1;
    }
    assert(items@.take(items.len() as int) =~= items@);
}

/// Merging runs keeps the last item, and the result is empty only for an empty sequence.
proof fn lemma_merge_runs_last(s: Seq<i32>)
    ensures
        s.len() == 0 <==> merge_runs(s).len() == 0,
        s.len() > 0 ==> merge_runs(s).last() == s.last(),
    decreases s.len(),
{
    if s.len() > 0 {
        lemma_merge_runs_last(s.drop_last());
    }
}

impl PlayerTradesLog {
    /// The trades of a tournament as stored, newest first; trades at the same instant keep
    /// their order.
    pub fn get(trades: Vec<StoredTrade>) -> (r: PlayerTradesLog)
        requires
            forall|i: int| 0 <= i < trades.len() ==> readable_trade(#[trigger] trades[i]),
        ensures
            r.0@ == newest_first(trades@),
    {
        let ghost all = trades@;
        proof {
            lemma_sorted_len(all);
            crate::sorting::lemma_by_key_indices(crate::sorting::keys_of(all));
        }
        let sorted = sort_desc_by_key(trades);
        assert forall|i: int| 0 <= i < sorted.len() implies readable_trade(#[trigger] sorted@[i]) by {
            let k = crate::sorting::by_key(crate::sorting::keys_of(all))[i];
            assert(sorted@[i] == all[k]);
        }
        let mut out: Vec<PlayerTradeLog> = Vec::new();
        let mut i: usize = 0;
        while i < sorted.len()
            invariant
                i <= sorted.len(),
                sorted@ == sorted_desc(all),
                forall|j: int| 0 <= j < sorted.len() ==> readable_trade(#[trigger] sorted@[j]),
                out@ == sorted@.take(i as int).map_values(|t: StoredTrade| log_of(t)),
            decreases sorted.len() - i,
        {
            out.push(PlayerTradeLog::from_stored(sorted[i]));
            i = i + 1;
            assert(out@ =~= sorted@.take(i as int).map_values(|t: StoredTrade| log_of(t)));
        }
        assert(sorted@.take(i as int) =~= sorted@);
        PlayerTradesLog(out)
    }

    /// The users and the players whose names the lines need, each with repeats next to each
    /// other merged.
    pub fn names_to_look_up(&self) -> (r: (Vec<i32>, Vec<i32>))
        ensures
            r.0@ == users_to_look_up(self.0@),
            r.1@ == players_to_look_up(self.0@),
    {
        let logs = &self.0;
        let mut users: Vec<i32> = Vec::new();
        let mut players: Vec<i32> = Vec::new();
        let mut i: usize = 0;
        while i < logs.len()
            invariant
                i <= logs.len(),
                users@ == users_to_look_up(logs@.take(i as int)),
                players@ == players_to_look_up(logs@.take(i as int)),
            decreases logs.len() - i,
        {
            let ghost before = logs@.take(i as int);
            let ghost after = logs@.take(i + 1);
            assert(after.drop_last() =~= before);
            let ghost user_ids = before.map_values(|l: PlayerTradeLog| l.user);
            let one = vec![logs[i].user];
            assert(user_ids + one@ =~= after.map_values(|l: PlayerTradeLog| l.user));
            push_merged(&mut users, Ghost(user_ids), &one);
            let named = logs[i].players();
            assert(all_players(after) == all_players(before) + players_of(logs@[i as int]));
            push_merged(&mut players, Ghost(all_players(before)), &named);
            i = i + 1;
        }
        assert(logs@.take(i as int) =~= logs@);
        (users, players)
    }

    /// The lines shown for the trades, in order, with the names that are known.
    pub fn into_formatting(self, users: &HashMap<i32, String>, players: &HashMap<i32, String>) -> (r: Vec<
        String,
    >)
        requires
            forall|i: int| 0 <= i < self.0.len() ==> valid_time(#[trigger] self.0@[i].timestamp),
        ensures
            r.len() == self.0.len(),
            forall|i: int| 0 <= i < r.len() ==> #[trigger] r@[i]@ == trade_message(self.0@[i], users@, players@),
    {
        let logs = self.0;
        let mut out: Vec<String> = Vec::new();
        let mut i: usize = 0;
        while i < logs.len()
            invariant
                i <= logs.len(),
                out.len() == i,
                forall|j: int| 0 <= j < logs.len() ==> valid_time(#[trigger] logs@[j].timestamp),
                forall|j: int| 0 <= j < i ==> #[trigger] out@[j]@ == trade_message(logs@[j], users@, players@),
            decreases logs.len() - i,
        {
            out.push(logs[i].into_external_formatting(users, players));
            i = i + 1;
        }
        out
    }
}

/// A player's name as shown: first name, a space, last name.
pub fn full_name(first_name: &str, last_name: &str) -> (r: String)
    ensures
        r@ == first_name@ + " "@ + last_name@,
{
    let mut s = String::from_str(first_name);
    s.append(" ");
    s.append(last_name);
    s
}

} // verus!
