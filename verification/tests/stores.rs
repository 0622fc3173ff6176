use poolstats::cache::{CacheStore, CachedAtx, CachedRegistration, StoreError};
use poolstats::chain::{
    ChainAtx, ChainStore, InnerAtxInfo, InnerKey, LocalStore, PoetRegistration,
};
use poolstats::poolstats::{AtxInfo, Item, Key, NodeInfo, Registeration};
use poolstats::DBHandler;

fn registration(round: &str, end: u32) -> Registeration {
    Registeration { address: "poet.example:5000".to_string(), round_id: round.to_string(), round_end: end }
}

fn activation(epoch: i64, units: i64) -> AtxInfo {
    AtxInfo {
        epoch,
        atx_id: "a1".to_string(),
        effective_num_units: units,
        coinbase: "c0".to_string(),
    }
}

fn sample() -> DBHandler {
    let local = LocalStore {
        initial_post: vec![
            InnerKey { id: vec![0x01, 0xab], num_units: 4 },
            InnerKey { id: vec![0x02], num_units: 7 },
            InnerKey { id: vec![0xff, 0x00, 0x10], num_units: 9 },
        ],
        poet_registration: vec![
            PoetRegistration { id: vec![0x02], registeration: registration("4", 100) },
            PoetRegistration { id: vec![0x01, 0xab], registeration: registration("4", 101) },
            PoetRegistration { id: vec![0x02], registeration: registration("5", 200) },
            PoetRegistration { id: vec![0x02], registeration: registration("4", 102) },
        ],
    };
    let chain = ChainStore {
        atxs: vec![
            ChainAtx {
                pubkey: vec![0x02],
                atx: InnerAtxInfo {
                    epoch: 4,
                    atx_id: vec![0xde, 0xad],
                    effective_num_units: 6,
                    coinbase: vec![0xbe, 0xef],
                },
            },
            ChainAtx {
                pubkey: vec![0x02],
                atx: InnerAtxInfo {
                    epoch: 4,
                    atx_id: vec![0x00],
                    effective_num_units: 1,
                    coinbase: vec![],
                },
            },
        ],
    };
    DBHandler::new(chain, local, CacheStore::new())
}

#[test]
fn activation_identifiers_are_written_in_lowercase_hexadecimal() {
    let row = InnerAtxInfo {
        epoch: 3,
        atx_id: vec![0x01, 0xff, 0x0a],
        effective_num_units: 12,
        coinbase: vec![0xAB, 0xCD],
    };
    assert_eq!(
        row.to_atx(),
        AtxInfo {
            epoch: 3,
            atx_id: "01ff0a".to_string(),
            effective_num_units: 12,
            coinbase: "abcd".to_string(),
        }
    );
}

#[test]
fn empty_identifiers_give_empty_text() {
    let row = InnerAtxInfo { epoch: 0, atx_id: vec![], effective_num_units: 0, coinbase: vec![] };
    let atx = row.to_atx();
    assert_eq!(atx.atx_id, "");
    assert_eq!(atx.coinbase, "");
    assert!(atx.empty());
}

#[test]
fn the_default_activation_is_the_empty_one() {
    let atx = AtxInfo::default();
    assert_eq!(
        atx,
        AtxInfo { epoch: 0, atx_id: String::new(), effective_num_units: 0, coinbase: String::new() }
    );
    assert!(atx.empty());
    assert!(!activation(4, 1).empty());
}

#[test]
fn item_and_node_builders_keep_their_arguments() {
    assert_eq!(Item::new(3, 40), Item { count: 3, num_units: 40 });
    let node = NodeInfo::new("0a".to_string(), 5, vec![registration("4", 1)], activation(4, 2));
    assert_eq!(node.id, "0a");
    assert_eq!(node.num_units, 5);
    assert_eq!(node.registerations, vec![registration("4", 1)]);
    assert_eq!(node.atx, activation(4, 2));
}

#[test]
fn copies_are_equal_to_what_they_copy() {
    let key = Key { id: "01ab".to_string(), num_units: 4 };
    assert_eq!(key.clone(), key);
    assert_eq!(registration("4", 9).clone(), registration("4", 9));
    assert_eq!(activation(4, 9).clone(), activation(4, 9));
}

#[test]
fn keys_are_paged_in_the_order_of_the_records() {
    let db = sample();
    assert_eq!(
        db.get_init_keys(2, 0),
        vec![
            Key { id: "01ab".to_string(), num_units: 4 },
            Key { id: "02".to_string(), num_units: 7 },
        ]
    );
    assert_eq!(db.get_init_keys(2, 2), vec![Key { id: "ff0010".to_string(), num_units: 9 }]);
    assert_eq!(db.get_init_keys(50, 1).len(), 2);
}

#[test]
fn pages_beyond_the_records_are_empty() {
    let db = sample();
    assert_eq!(db.get_init_keys(2, 3), vec![]);
    assert_eq!(db.get_init_keys(2, 99), vec![]);
    assert_eq!(db.get_init_keys(0, 0), vec![]);
    assert_eq!(db.get_init_keys(i64::MAX, i64::MAX), vec![]);
}

#[test]
fn a_negative_limit_lifts_the_bound_and_a_negative_offset_counts_as_zero() {
    let db = sample();
    assert_eq!(db.get_init_keys(-1, 1).len(), 2);
    assert_eq!(db.get_init_keys(1, -5), vec![Key { id: "01ab".to_string(), num_units: 4 }]);
    assert_eq!(db.get_init_keys(i64::MIN, i64::MIN).len(), 3);
}

#[test]
fn committed_keys_are_counted_and_summed() {
    let db = sample();
    assert_eq!(db.count_initialzed(), 3);
    assert_eq!(db.inited_num_units(), Ok(20));
    let none = DBHandler::new(
        ChainStore { atxs: vec![] },
        LocalStore { initial_post: vec![], poet_registration: vec![] },
        CacheStore::new(),
    );
    assert_eq!(none.count_initialzed(), 0);
    assert_eq!(none.inited_num_units(), Ok(0));
}

#[test]
fn a_sum_of_committed_units_out_of_range_is_an_error() {
    let local = LocalStore {
        initial_post: vec![
            InnerKey { id: vec![1], num_units: i64::MAX },
            InnerKey { id: vec![2], num_units: 1 },
        ],
        poet_registration: vec![],
    };
    let db = DBHandler::new(ChainStore { atxs: vec![] }, local, CacheStore::new());
    assert_eq!(db.inited_num_units(), Err(StoreError::Overflow));
    let low = LocalStore {
        initial_post: vec![
            InnerKey { id: vec![1], num_units: i64::MIN },
            InnerKey { id: vec![2], num_units: -1 },
            InnerKey { id: vec![3], num_units: 1 },
        ],
        poet_registration: vec![],
    };
    let db = DBHandler::new(ChainStore { atxs: vec![] }, low, CacheStore::new());
    assert_eq!(db.inited_num_units(), Ok(i64::MIN));
}

#[test]
fn registrations_are_found_by_node_and_round() {
    let db = sample();
    assert_eq!(
        db.get_chain_registerations_by_id("02".to_string(), "4".to_string()),
        Ok(vec![registration("4", 100), registration("4", 102)])
    );
    assert_eq!(
        db.get_chain_registerations_by_id("02".to_string(), "5".to_string()),
        Ok(vec![registration("5", 200)])
    );
    assert_eq!(
        db.get_chain_registerations_by_id("01ab".to_string(), "4".to_string()),
        Ok(vec![registration("4", 101)])
    );
}

#[test]
fn a_node_without_registration_is_no_error() {
    let db = sample();
    assert_eq!(db.get_chain_registerations_by_id("01ab".to_string(), "5".to_string()), Ok(vec![]));
    assert_eq!(db.get_chain_registerations_by_id("0777".to_string(), "4".to_string()), Ok(vec![]));
    assert_eq!(db.get_chain_registerations_by_id("".to_string(), "4".to_string()), Ok(vec![]));
}

#[test]
fn identifiers_are_read_in_either_case() {
    let db = sample();
    assert_eq!(
        db.get_chain_registerations_by_id("01AB".to_string(), "4".to_string()),
        Ok(vec![registration("4", 101)])
    );
    assert_eq!(
        db.get_chain_registerations_by_id("01aB".to_string(), "4".to_string()),
        Ok(vec![registration("4", 101)])
    );
}

#[test]
fn identifiers_that_are_not_hexadecimal_are_refused() {
    let db = sample();
    for bad in ["2", "012", "zz", "0g", "02 ", "\u{e9}\u{e9}", "0\u{661}"] {
        assert_eq!(
            db.get_chain_registerations_by_id(bad.to_string(), "4".to_string()),
            Err(StoreError::Malformed)
        );
        assert_eq!(db.get_chain_atxs_by_id(bad.to_string(), 4), Err(StoreError::Malformed));
    }
}

#[test]
fn the_first_activation_of_a_node_and_epoch_is_found() {
    let db = sample();
    assert_eq!(
        db.get_chain_atxs_by_id("02".to_string(), 4),
        Ok(Some(AtxInfo {
            epoch: 4,
            atx_id: "dead".to_string(),
            effective_num_units: 6,
            coinbase: "beef".to_string(),
        }))
    );
    assert_eq!(db.get_chain_atxs_by_id("02".to_string(), 5), Ok(None));
    assert_eq!(db.get_chain_atxs_by_id("01ab".to_string(), 4), Ok(None));
}

#[test]
fn a_new_store_is_empty() {
    let cache = CacheStore::new();
    assert_eq!(cache.registration_rows(), vec![]);
    assert_eq!(cache.activation_rows(), vec![]);
    assert_eq!(cache.count_registered(&"4".to_string()), 0);
    assert_eq!(cache.registered_num_units(&"4".to_string()), Ok(0));
    assert_eq!(cache.count_activated(4), 0);
    assert_eq!(cache.actived_num_units(4), Ok(0));
    assert_eq!(cache.aggregate_registered(&"4".to_string()), Item { count: 0, num_units: 0 });
    assert_eq!(cache.aggregate_activated(4), Item { count: 0, num_units: 0 });
    assert_eq!(cache.lookup_activation_cached(&"02".to_string(), 4), None);
}

#[test]
fn a_registration_written_twice_is_kept_once() {
    let mut cache = CacheStore::new();
    cache.upsert_registration("02".to_string(), 7, registration("4", 100));
    cache.upsert_registration("02".to_string(), 7, registration("4", 100));
    assert_eq!(cache.count_registered(&"4".to_string()), 1);
    assert_eq!(cache.registered_num_units(&"4".to_string()), Ok(7));
    assert_eq!(
        cache.registration_rows(),
        vec![CachedRegistration { id: "02".to_string(), round_id: "4".to_string(), num_unit: 7 }]
    );
}

#[test]
fn a_registration_written_again_takes_the_new_units() {
    let mut cache = CacheStore::new();
    cache.upsert_registration("02".to_string(), 7, registration("4", 100));
    cache.upsert_registration("01".to_string(), 1, registration("4", 100));
    cache.upsert_registration("02".to_string(), 9, registration("4", 555));
    assert_eq!(
        cache.registration_rows(),
        vec![
            CachedRegistration { id: "02".to_string(), round_id: "4".to_string(), num_unit: 9 },
            CachedRegistration { id: "01".to_string(), round_id: "4".to_string(), num_unit: 1 },
        ]
    );
    assert_eq!(cache.aggregate_registered(&"4".to_string()), Item { count: 2, num_units: 10 });
}

#[test]
fn registrations_of_other_rounds_are_rows_of_their_own() {
    let mut cache = CacheStore::new();
    cache.upsert_registration("02".to_string(), 7, registration("4", 100));
    cache.upsert_registration("02".to_string(), 7, registration("5", 100));
    cache.upsert_registration("03".to_string(), 2, registration("5", 100));
    assert_eq!(cache.count_registered(&"4".to_string()), 1);
    assert_eq!(cache.count_registered(&"5".to_string()), 2);
    assert_eq!(cache.registered_num_units(&"5".to_string()), Ok(9));
    assert_eq!(cache.count_registered(&"6".to_string()), 0);
    assert_eq!(cache.activation_rows(), vec![]);
}

#[test]
fn an_activation_written_twice_is_kept_once() {
    let mut cache = CacheStore::new();
    cache.upsert_activation("02".to_string(), 7, activation(4, 6));
    cache.upsert_activation("02".to_string(), 7, activation(4, 6));
    cache.upsert_activation("02".to_string(), 8, activation(5, 3));
    assert_eq!(cache.count_activated(4), 1);
    assert_eq!(cache.actived_num_units(4), Ok(6));
    assert_eq!(cache.aggregate_activated(5), Item { count: 1, num_units: 3 });
    assert_eq!(
        cache.activation_rows(),
        vec![
            CachedAtx { id: "02".to_string(), num_unit: 7, atx: activation(4, 6) },
            CachedAtx { id: "02".to_string(), num_unit: 8, atx: activation(5, 3) },
        ]
    );
    assert_eq!(cache.registration_rows(), vec![]);
}

#[test]
fn an_activation_written_again_takes_the_new_record() {
    let mut cache = CacheStore::new();
    cache.upsert_activation("02".to_string(), 7, activation(4, 6));
    cache.upsert_activation("02".to_string(), 9, activation(4, 11));
    assert_eq!(cache.lookup_activation_cached(&"02".to_string(), 4), Some(activation(4, 11)));
    assert_eq!(cache.aggregate_activated(4), Item { count: 1, num_units: 11 });
    assert_eq!(cache.lookup_activation_cached(&"02".to_string(), 5), None);
    assert_eq!(cache.lookup_activation_cached(&"03".to_string(), 4), None);
}

#[test]
fn a_sum_out_of_range_is_an_error_and_shown_as_zero() {
    let mut cache = CacheStore::new();
    cache.upsert_registration("01".to_string(), i64::MAX, registration("4", 1));
    cache.upsert_registration("02".to_string(), i64::MAX, registration("4", 1));
    assert_eq!(cache.registered_num_units(&"4".to_string()), Err(StoreError::Overflow));
    assert_eq!(cache.aggregate_registered(&"4".to_string()), Item { count: 2, num_units: 0 });
    cache.upsert_activation("01".to_string(), 1, activation(4, i64::MIN));
    cache.upsert_activation("02".to_string(), 1, activation(4, -1));
    assert_eq!(cache.actived_num_units(4), Err(StoreError::Overflow));
    assert_eq!(cache.aggregate_activated(4), Item { count: 2, num_units: 0 });
}

#[test]
fn the_handler_writes_to_the_derived_store_only() {
    let mut db = sample();
    db.save_poet("02".to_string(), 7, registration("4", 100));
    db.save_poet("02".to_string(), 8, registration("4", 100));
    db.save_atx("02".to_string(), 7, activation(4, 6));
    assert_eq!(db.count_registered("4".to_string()), 1);
    assert_eq!(db.registered_num_units("4".to_string()), Ok(8));
    assert_eq!(db.count_activated(4), 1);
    assert_eq!(db.actived_num_units(4), Ok(6));
    assert_eq!(db.get_atxs_by_id("02".to_string(), 4), Some(activation(4, 6)));
    assert_eq!(db.get_atxs_by_id("02".to_string(), 3), None);
    assert_eq!(db.local, sample().local);
    assert_eq!(db.chain, sample().chain);
}
