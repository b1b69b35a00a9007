use std::collections::HashMap;

use rustling_chains::division::Division;
use rustling_chains::error::GenericError;
use rustling_chains::time::LocalTime;
use rustling_chains::tradelog::{
    full_name, PlayerTradeLog, PlayerTradesLog, PlayerTradingAction, PlayerTradingSwapType, StoredTrade,
};
use rustling_chains::trading::{bench_limit, resolve_pick_division, DivisionLookup, FantasyPick, PickChange, PickRow};

// 2024-03-17 15:00 UTC, shown at +01:00.
const STAMP: LocalTime = LocalTime { utc_seconds: 1_710_687_600, offset_seconds: 3_600 };

fn trade(user: i32, player: i32, slot: i32, local: bool, other_player: Option<i32>, other_slot: Option<i32>, at: i64, nanos: u32) -> StoredTrade {
    StoredTrade {
        user,
        player,
        slot,
        is_local_swap: local,
        other_player,
        other_slot,
        timestamp: LocalTime { utc_seconds: at, offset_seconds: 3_600 },
        nanos,
    }
}

fn names() -> (HashMap<i32, String>, HashMap<i32, String>) {
    let mut users = HashMap::new();
    users.insert(1, "anna".to_string());
    let mut players = HashMap::new();
    players.insert(10, "Paul McBeth".to_string());
    players.insert(11, "Ricky Wysocki".to_string());
    (users, players)
}

#[test]
fn stored_rows_read_as_actions() {
    let add = PlayerTradeLog::from_stored(trade(1, 10, 2, false, None, None, 0, 0));
    assert_eq!(add.action, PlayerTradingAction::Add);
    let swap = PlayerTradeLog::from_stored(trade(1, 10, 2, true, Some(11), Some(4), 0, 0));
    assert_eq!(swap.action, PlayerTradingAction::Swap(PlayerTradingSwapType::Local { other_slot: 4, other_player: 11 }));
    let replace = PlayerTradeLog::from_stored(trade(1, 10, 2, false, Some(11), Some(2), 0, 0));
    assert_eq!(replace.action, PlayerTradingAction::Swap(PlayerTradingSwapType::Tournament { other_player: 11 }));
    assert_eq!(swap.players(), vec![10, 11]);
    assert_eq!(add.players(), vec![10]);
    assert_eq!(PlayerTradingSwapType::Tournament { other_player: 11 }.get_player(), 11);
}

#[test]
fn trade_lines_name_users_and_players() {
    let (users, players) = names();
    let add = PlayerTradeLog { user: 1, player: 10, slot: 3, action: PlayerTradingAction::Add, timestamp: STAMP };
    assert_eq!(add.into_external_formatting(&users, &players), "anna: Added Paul McBeth to slot 3 - At 2024-03-17 16:00:00");
    let local = PlayerTradeLog {
        user: 2,
        player: 10,
        slot: 1,
        action: PlayerTradingAction::Swap(PlayerTradingSwapType::Local { other_slot: 5, other_player: 12 }),
        timestamp: STAMP,
    };
    assert_eq!(
        local.into_external_formatting(&users, &players),
        "2: Swapped Paul McBeth with 12 (slots 1 and 5) - At 2024-03-17 16:00:00"
    );
    let tour = PlayerTradeLog {
        user: -7,
        player: 11,
        slot: 2,
        action: PlayerTradingAction::Swap(PlayerTradingSwapType::Tournament { other_player: 10 }),
        timestamp: STAMP,
    };
    assert_eq!(
        tour.into_external_formatting(&users, &players),
        "-7: Swapped Ricky Wysocki in slot 2 with Paul McBeth - At 2024-03-17 16:00:00"
    );
}

#[test]
fn trades_come_newest_first() {
    let log = PlayerTradesLog::get(vec![
        trade(1, 10, 1, false, None, None, 100, 0),
        trade(1, 11, 2, false, None, None, 300, 0),
        trade(2, 12, 3, false, None, None, 100, 5),
        trade(2, 13, 4, false, None, None, 300, 0),
    ]);
    assert_eq!(log.0.iter().map(|t| t.player).collect::<Vec<_>>(), vec![11, 13, 12, 10]);
    let (users, players) = log.names_to_look_up();
    assert_eq!(users, vec![1, 2, 1]);
    assert_eq!(players, vec![11, 13, 12, 10]);
    let (u, p) = names();
    let lines = log.into_formatting(&u, &p);
    assert_eq!(lines.len(), 4);
    assert_eq!(lines[0], "anna: Added Ricky Wysocki to slot 2 - At 1970-01-01 01:05:00");
}

#[test]
fn player_names_join_first_and_last() {
    assert_eq!(full_name("Paul", "McBeth"), "Paul McBeth");
}

#[test]
fn picks_plan_their_change() {
    let picks = vec![
        PickRow { id: 1, slot: 1, player: 10, benched: false },
        PickRow { id: 2, slot: 2, player: 11, benched: false },
    ];
    let limit = bench_limit(6, 2);
    assert_eq!(limit, 4);
    let same = FantasyPick { slot: 1, pdga_number: 10, name: None, benched: false };
    assert_eq!(same.plan_change(&picks, limit), PickChange::Unchanged);
    let swap = FantasyPick { slot: 2, pdga_number: 10, name: None, benched: false };
    match swap.plan_change(&picks, limit) {
        PickChange::Swap { updated, removed, inserted, trade } => {
            assert_eq!(updated, PickRow { id: 1, slot: 1, player: 11, benched: false });
            assert_eq!(removed, 2);
            assert_eq!(inserted, PickRow { id: 2, slot: 2, player: 10, benched: false });
            assert!(trade.is_local_swap);
            assert_eq!(trade.other_slot, Some(1));
        }
        other => panic!("expected a swap, got {:?}", other),
    }
    let bench = FantasyPick { slot: 5, pdga_number: 12, name: None, benched: false };
    assert!(bench.is_benched(limit));
    match bench.plan_change(&picks, limit) {
        PickChange::Insert { new_pick, trade } => {
            assert!(new_pick.benched);
            assert_eq!(trade.other_player, None);
        }
        other => panic!("expected an insert, got {:?}", other),
    }
}

#[test]
fn pick_divisions_must_match() {
    assert_eq!(resolve_pick_division(DivisionLookup::Found(Division::MPO), None, Division::MPO), Ok(Division::MPO));
    assert_eq!(
        resolve_pick_division(DivisionLookup::Missing, Some(Division::FPO), Division::MPO),
        Err(GenericError::Conflict("Player division does not match division"))
    );
    assert_eq!(
        resolve_pick_division(DivisionLookup::Failed, Some(Division::MPO), Division::MPO),
        Err(GenericError::UnknownError("Unable to get player division"))
    );
    let pick = FantasyPick { slot: 1, pdga_number: 10, name: None, benched: false };
    assert_eq!(
        pick.change_or_insert(false, DivisionLookup::Found(Division::MPO), None, Division::MPO),
        Err(GenericError::NotFound("Player not found in tournament"))
    );
    assert_eq!(pick.change_or_insert(true, DivisionLookup::Found(Division::MPO), None, Division::MPO), Ok(Division::MPO));
}

#[test]
fn trade_line_with_a_given_stamp() {
    let (users, players) = names();
    let add = PlayerTradeLog { user: 1, player: 11, slot: 12, action: PlayerTradingAction::Add, timestamp: STAMP };
    assert_eq!(add.line_with_stamp(&users, &players, "then"), "anna: Added Ricky Wysocki to slot 12 - At then");
}

#[test]
fn pick_changes_from_lookups() {
    let pick = FantasyPick { slot: 1, pdga_number: 10, name: None, benched: false };
    assert_eq!(pick.change_from_lookup(&Err(()), 4), Err(GenericError::UnknownError("Unable to insert pick")));
    let rows = vec![PickRow { id: 1, slot: 1, player: 10, benched: false }];
    assert_eq!(pick.change_from_lookup(&Ok(rows), 4), Ok(PickChange::Unchanged));
    assert_eq!(rustling_chains::trading::pick_write_error(), GenericError::UnknownError("Unable to insert pick"));
}
