use poolstats::cache::{CacheStore, CachedAtx, CachedRegistration};
use poolstats::chain::{
    ChainAtx, ChainStore, InnerAtxInfo, InnerKey, LocalStore, PoetRegistration,
};
use poolstats::poolstats::{AtxInfo, Item, Key, Registeration};
use poolstats::rpc::RpcError;
use poolstats::sync::{
    get_range, next, run_pass, SyncAction, SyncEvent, SyncState, PAGE_SIZE, SYNC_INTERVAL_SECS,
};
use poolstats::window::{compute_window, WindowView};
use poolstats::DBHandler;

fn registration(round: &str) -> Registeration {
    Registeration { address: "poet".to_string(), round_id: round.to_string(), round_end: 10 }
}

fn ledger_atx(pubkey: Vec<u8>, epoch: i64, units: i64) -> ChainAtx {
    ChainAtx {
        pubkey,
        atx: InnerAtxInfo {
            epoch,
            atx_id: vec![0xa0, epoch as u8],
            effective_num_units: units,
            coinbase: vec![0xc0],
        },
    }
}

/// Nodes 0..`nodes`, each with `units` units; those whose number is a multiple
/// of `every` are registered for round "4" and active in epoch 4.
fn pool(nodes: u16, units: i64, every: u16) -> DBHandler {
    let mut initial_post = vec![];
    let mut poet_registration = vec![];
    let mut atxs = vec![];
    let mut n: u16 = 0;
    while n < nodes {
        let id = vec![(n / 256) as u8, (n % 256) as u8];
        initial_post.push(InnerKey { id: id.clone(), num_units: units });
        if n % every == 0 {
            poet_registration.push(PoetRegistration { id: id.clone(), registeration: registration("4") });
            atxs.push(ledger_atx(id, 4, units + 1));
        }
        n += 1;
    }
    DBHandler::new(
        ChainStore { atxs },
        LocalStore { initial_post, poet_registration },
        CacheStore::new(),
    )
}

#[test]
fn defaults_of_the_pass() {
    assert_eq!(PAGE_SIZE, 50);
    assert_eq!(SYNC_INTERVAL_SECS, 30 * 60);
}

#[test]
fn a_span_is_cut_into_groups() {
    assert_eq!(get_range(0..100, 50), vec![0..49, 50..99]);
    assert_eq!(get_range(0..101, 50), vec![0..49, 50..99, 100..101]);
    assert_eq!(get_range(0..1, 50), vec![0..1]);
    assert_eq!(get_range(0..50, 50), vec![0..49]);
    assert_eq!(get_range(0..3, 1), vec![0..0, 1..1, 2..2]);
    assert_eq!(get_range(7..20, 5), vec![7..11, 12..16, 17..20]);
}

#[test]
fn an_empty_span_has_no_groups() {
    assert_eq!(get_range(0..0, 50), vec![]);
    assert_eq!(get_range(5..3, 50), vec![]);
    assert_eq!(get_range(-3..-3, 1), vec![]);
}

#[test]
fn groups_near_the_ends_of_the_number_type() {
    assert_eq!(get_range(i64::MAX - 3..i64::MAX, 2), vec![
        i64::MAX - 3..i64::MAX - 2,
        i64::MAX - 1..i64::MAX,
    ]);
    assert_eq!(get_range(i64::MIN..i64::MAX, i64::MAX), vec![
        i64::MIN..-2,
        -1..i64::MAX - 2,
        i64::MAX - 1..i64::MAX,
    ]);
    assert_eq!(get_range(0..i64::MAX, i64::MAX), vec![0..i64::MAX - 1]);
}

#[test]
fn a_pass_counts_each_registered_node_once() {
    let mut db = pool(120, 3, 3);
    let clock = Ok(compute_window(5, 5 * 4032));
    assert_eq!(run_pass(&mut db, &clock), SyncEvent::PassDone);
    assert_eq!(db.count_registered("4".to_string()), 40);
    assert_eq!(db.registered_num_units("4".to_string()), Ok(120));
    assert_eq!(db.count_activated(4), 40);
    assert_eq!(db.actived_num_units(4), Ok(160));
    assert_eq!(db.count_registered("5".to_string()), 0);
    assert_eq!(db.count_activated(5), 0);
}

#[test]
fn a_pass_run_again_changes_nothing() {
    let mut db = pool(120, 3, 3);
    let clock = Ok(compute_window(5, 5 * 4032));
    run_pass(&mut db, &clock);
    let registrations = db.poolstats.registration_rows();
    let activations = db.poolstats.activation_rows();
    let mut n = 0;
    while n < 3 {
        assert_eq!(run_pass(&mut db, &clock), SyncEvent::PassDone);
        assert_eq!(db.poolstats.registration_rows(), registrations);
        assert_eq!(db.poolstats.activation_rows(), activations);
        assert_eq!(db.poolstats.aggregate_registered(&"4".to_string()), Item {
            count: 40,
            num_units: 120,
        });
        n += 1;
    }
}

#[test]
fn a_pass_covers_the_last_page() {
    let mut db = pool(101, 1, 1);
    run_pass(&mut db, &Ok(compute_window(5, 0)));
    assert_eq!(db.count_registered("4".to_string()), 101);
    let rows = db.poolstats.registration_rows();
    assert_eq!(rows[0], CachedRegistration {
        id: "0000".to_string(),
        round_id: "4".to_string(),
        num_unit: 1,
    });
    assert_eq!(rows[100], CachedRegistration {
        id: "0064".to_string(),
        round_id: "4".to_string(),
        num_unit: 1,
    });
}

#[test]
fn a_pass_with_odd_page_sizes_covers_all_keys() {
    for page_size in [1, 7, 50, 119, 120, 121, i64::MAX] {
        let mut db = pool(120, 3, 3);
        db.sync_pass(&compute_window(5, 0), page_size);
        assert_eq!(db.count_registered("4".to_string()), 40);
        assert_eq!(db.count_activated(4), 40);
    }
}

#[test]
fn several_ledger_rows_for_a_node_give_one_row() {
    let mut db = pool(4, 2, 1);
    db.local.poet_registration.push(PoetRegistration {
        id: vec![0, 1],
        registeration: Registeration {
            address: "other".to_string(),
            round_id: "4".to_string(),
            round_end: 99,
        },
    });
    db.chain.atxs.push(ledger_atx(vec![0, 1], 4, 50));
    run_pass(&mut db, &Ok(compute_window(5, 0)));
    assert_eq!(db.count_registered("4".to_string()), 4);
    assert_eq!(db.count_activated(4), 4);
    assert_eq!(db.actived_num_units(4), Ok(12));
}

#[test]
fn a_key_committed_twice_gives_one_row_with_the_later_units() {
    let mut db = pool(2, 5, 1);
    db.local.initial_post.push(InnerKey { id: vec![0, 0], num_units: 9 });
    run_pass(&mut db, &Ok(compute_window(5, 0)));
    assert_eq!(db.count_registered("4".to_string()), 2);
    assert_eq!(db.registered_num_units("4".to_string()), Ok(14));
    run_pass(&mut db, &Ok(compute_window(5, 0)));
    assert_eq!(db.registered_num_units("4".to_string()), Ok(14));
}

#[test]
fn the_next_round_and_epoch_are_tracked_after_the_boundary() {
    let mut db = pool(3, 2, 1);
    db.local.poet_registration.push(PoetRegistration { id: vec![0, 2], registeration: registration("5") });
    db.chain.atxs.push(ledger_atx(vec![0, 1], 5, 8));
    let before = Ok(compute_window(5, 5 * 4032 + 2879));
    run_pass(&mut db, &before);
    assert_eq!(db.count_registered("5".to_string()), 0);
    assert_eq!(db.count_activated(5), 0);
    let after = Ok(compute_window(5, 5 * 4032 + 2880));
    run_pass(&mut db, &after);
    assert_eq!(db.count_registered("4".to_string()), 3);
    assert_eq!(db.count_registered("5".to_string()), 1);
    assert_eq!(db.registered_num_units("5".to_string()), Ok(2));
    assert_eq!(db.count_activated(5), 1);
    assert_eq!(db.actived_num_units(5), Ok(8));
    assert_eq!(
        db.get_atxs_by_id("0001".to_string(), 5),
        Some(AtxInfo {
            epoch: 5,
            atx_id: "a005".to_string(),
            effective_num_units: 8,
            coinbase: "c0".to_string(),
        })
    );
}

#[test]
fn a_node_without_registration_still_gets_its_activation() {
    let mut db = pool(2, 2, 5);
    db.chain.atxs.push(ledger_atx(vec![0, 1], 4, 8));
    run_pass(&mut db, &Ok(compute_window(5, 0)));
    assert_eq!(db.count_registered("4".to_string()), 1);
    assert_eq!(db.count_activated(4), 2);
    assert_eq!(
        db.poolstats.activation_rows()[1],
        CachedAtx {
            id: "0001".to_string(),
            num_unit: 2,
            atx: AtxInfo {
                epoch: 4,
                atx_id: "a004".to_string(),
                effective_num_units: 8,
                coinbase: "c0".to_string(),
            },
        }
    );
}

#[test]
fn one_unreadable_key_of_fifty_does_not_stop_the_others() {
    let mut db = pool(50, 1, 1);
    let mut keys = db.get_init_keys(50, 0);
    assert_eq!(keys.len(), 50);
    keys[17] = Key { id: "not hexadecimal".to_string(), num_units: 1 };
    let window = compute_window(5, 0);
    db.sync_keys(&window, &keys);
    assert_eq!(db.count_registered("4".to_string()), 49);
    assert_eq!(db.count_activated(4), 49);
    let rows = db.poolstats.registration_rows();
    assert_eq!(rows[16].id, "0010");
    assert_eq!(rows[17].id, "0012");
    assert_eq!(rows[48].id, "0031");
}

#[test]
fn one_key_is_brought_up_to_date() {
    let mut db = pool(3, 4, 1);
    let window = compute_window(5, 0);
    db.sync_key(&window, &Key { id: "0002".to_string(), num_units: 4 });
    assert_eq!(
        db.poolstats.registration_rows(),
        vec![CachedRegistration { id: "0002".to_string(), round_id: "4".to_string(), num_unit: 4 }]
    );
    assert_eq!(db.count_activated(4), 1);
    db.sync_key(&window, &Key { id: "0009".to_string(), num_units: 4 });
    db.sync_key(&window, &Key { id: "9".to_string(), num_units: 4 });
    assert_eq!(db.count_registered("4".to_string()), 1);
    assert_eq!(db.count_activated(4), 1);
}

#[test]
fn a_failed_clock_gives_the_pass_up() {
    let mut db = pool(10, 1, 1);
    let clock: Result<WindowView, RpcError> = Err(RpcError { message: "unreachable".to_string() });
    assert_eq!(run_pass(&mut db, &clock), SyncEvent::ClockFailed);
    assert_eq!(db.poolstats.registration_rows(), vec![]);
    assert_eq!(db.poolstats.activation_rows(), vec![]);
}

#[test]
fn a_pass_leaves_the_read_stores_alone() {
    let mut db = pool(60, 1, 2);
    run_pass(&mut db, &Ok(compute_window(5, 5 * 4032 + 2880)));
    assert_eq!(db.local, pool(60, 1, 2).local);
    assert_eq!(db.chain, pool(60, 1, 2).chain);
}

#[test]
fn the_task_runs_sleeps_and_is_idle_again() {
    let sleep = SyncAction::Sleep { seconds: 1800 };
    assert_eq!(next(SyncState::Idle, SyncEvent::Tick), (SyncState::Running, SyncAction::RunPass));
    assert_eq!(next(SyncState::Running, SyncEvent::PassDone), (SyncState::Sleeping, sleep));
    assert_eq!(next(SyncState::Running, SyncEvent::ClockFailed), (SyncState::Sleeping, sleep));
    assert_eq!(next(SyncState::Sleeping, SyncEvent::Woke), (SyncState::Idle, SyncAction::Wait));
}

#[test]
fn the_task_ignores_what_does_not_fit_its_state() {
    for state in [SyncState::Running, SyncState::Sleeping] {
        assert_eq!(next(state, SyncEvent::Tick), (state, SyncAction::Wait));
    }
    for event in [SyncEvent::ClockFailed, SyncEvent::PassDone, SyncEvent::Woke] {
        assert_eq!(next(SyncState::Idle, event), (SyncState::Idle, SyncAction::Wait));
    }
    for event in [SyncEvent::Tick, SyncEvent::ClockFailed, SyncEvent::PassDone] {
        assert_eq!(next(SyncState::Sleeping, event), (SyncState::Sleeping, SyncAction::Wait));
    }
    assert_eq!(next(SyncState::Running, SyncEvent::Woke), (SyncState::Running, SyncAction::Wait));
}
