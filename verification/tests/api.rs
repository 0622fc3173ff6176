use poolstats::cache::CacheStore;
use poolstats::chain::{ChainStore, InnerKey, LocalStore, PoetRegistration};
use poolstats::poolstats::{
    get_nodes_info, overview_handler, AtxInfo, GeneralItem, GeneralRequest, Item, NodeInfo,
    Overview, Registeration,
};
use poolstats::rpc::{RpcError, RpcHandler};
use poolstats::window::{compute_window, WindowView};
use poolstats::{DBHandler, Shared};

fn registration(round: &str, end: u32) -> Registeration {
    Registeration { address: "poet".to_string(), round_id: round.to_string(), round_end: end }
}

fn activation(epoch: i64, units: i64) -> AtxInfo {
    AtxInfo { epoch, atx_id: "aa".to_string(), effective_num_units: units, coinbase: "cc".to_string() }
}

fn keys(count: u8, units: i64) -> Vec<InnerKey> {
    let mut rows = vec![];
    let mut n: u8 = 0;
    while n < count {
        rows.push(InnerKey { id: vec![n], num_units: units });
        n += 1;
    }
    rows
}

fn no_clock() -> Result<WindowView, RpcError> {
    Err(RpcError { message: "unreachable".to_string() })
}

const NONE: Item = Item { count: 0, num_units: 0 };

#[test]
fn overview_shows_the_committed_keys_and_the_cached_registrations() {
    let mut cache = CacheStore::new();
    let mut n = 0;
    while n < 80 {
        cache.upsert_registration(format!("{:02x}", n), 11, registration("4", 1));
        n += 1;
    }
    let local = LocalStore { initial_post: keys(100, 50), poet_registration: vec![] };
    let db = DBHandler::new(ChainStore { atxs: vec![] }, local, cache);
    let shared = Shared::new(db, RpcHandler::new("node:9092".to_string()));
    let overview = overview_handler(&shared, &Ok(compute_window(5, 5 * 4032)));
    assert_eq!(overview.init_posted, Item { count: 100, num_units: 5000 });
    assert_eq!(overview.registerd.current, Item { count: 80, num_units: 880 });
    assert_eq!(overview.registerd.next, NONE);
    assert_eq!(overview.actived, GeneralItem { current: NONE, next: NONE });
}

#[test]
fn overview_shows_current_and_next_after_the_boundary() {
    let mut cache = CacheStore::new();
    cache.upsert_registration("00".to_string(), 3, registration("4", 1));
    cache.upsert_registration("01".to_string(), 4, registration("4", 1));
    cache.upsert_registration("01".to_string(), 4, registration("5", 1));
    cache.upsert_registration("02".to_string(), 9, registration("6", 1));
    cache.upsert_activation("00".to_string(), 3, activation(4, 2));
    cache.upsert_activation("00".to_string(), 3, activation(5, 7));
    cache.upsert_activation("01".to_string(), 4, activation(5, 8));
    cache.upsert_activation("01".to_string(), 4, activation(3, 100));
    let local = LocalStore { initial_post: keys(3, 5), poet_registration: vec![] };
    let shared = Shared::new(
        DBHandler::new(ChainStore { atxs: vec![] }, local, cache),
        RpcHandler::new("node:9092".to_string()),
    );
    let expected = Overview {
        init_posted: Item { count: 3, num_units: 15 },
        registerd: GeneralItem {
            current: Item { count: 2, num_units: 7 },
            next: Item { count: 1, num_units: 4 },
        },
        actived: GeneralItem {
            current: Item { count: 1, num_units: 2 },
            next: Item { count: 2, num_units: 15 },
        },
    };
    assert_eq!(overview_handler(&shared, &Ok(compute_window(5, 5 * 4032 + 2880))), expected);
    let before = overview_handler(&shared, &Ok(compute_window(5, 5 * 4032 + 2879)));
    assert_eq!(before.registerd, GeneralItem { current: Item { count: 2, num_units: 7 }, next: NONE });
    assert_eq!(before.actived, GeneralItem { current: Item { count: 1, num_units: 2 }, next: NONE });
}

#[test]
fn overview_without_a_clock_shows_zeros_for_what_depends_on_it() {
    let mut cache = CacheStore::new();
    cache.upsert_registration("00".to_string(), 3, registration("4", 1));
    cache.upsert_activation("00".to_string(), 3, activation(4, 2));
    let local = LocalStore { initial_post: keys(2, 6), poet_registration: vec![] };
    let shared = Shared::new(
        DBHandler::new(ChainStore { atxs: vec![] }, local, cache),
        RpcHandler::new("node:9092".to_string()),
    );
    assert_eq!(
        overview_handler(&shared, &no_clock()),
        Overview {
            init_posted: Item { count: 2, num_units: 12 },
            registerd: GeneralItem { current: NONE, next: NONE },
            actived: GeneralItem { current: NONE, next: NONE },
        }
    );
}

#[test]
fn overview_shows_zero_units_where_the_sum_is_out_of_range() {
    let local = LocalStore {
        initial_post: vec![
            InnerKey { id: vec![1], num_units: i64::MAX },
            InnerKey { id: vec![2], num_units: i64::MAX },
        ],
        poet_registration: vec![],
    };
    let shared = Shared::new(
        DBHandler::new(ChainStore { atxs: vec![] }, local, CacheStore::new()),
        RpcHandler::new("node:9092".to_string()),
    );
    let overview = overview_handler(&shared, &Ok(compute_window(5, 0)));
    assert_eq!(overview.init_posted, Item { count: 2, num_units: 0 });
}

fn two_nodes() -> std::sync::Arc<Shared> {
    let local = LocalStore {
        initial_post: vec![
            InnerKey { id: vec![0xb2], num_units: 8 },
            InnerKey { id: vec![0xa1], num_units: 5 },
        ],
        poet_registration: vec![
            PoetRegistration { id: vec![0xa1], registeration: registration("4", 30) },
            PoetRegistration { id: vec![0xb2], registeration: registration("5", 40) },
            PoetRegistration { id: vec![0xa1], registeration: registration("4", 31) },
        ],
    };
    let mut cache = CacheStore::new();
    cache.upsert_activation("a1".to_string(), 5, activation(4, 3));
    cache.upsert_activation("b2".to_string(), 8, activation(5, 6));
    Shared::new(
        DBHandler::new(ChainStore { atxs: vec![] }, local, cache),
        RpcHandler::new("node:9092".to_string()),
    )
}

#[test]
fn nodes_are_listed_in_the_order_of_the_page() {
    let shared = two_nodes();
    let clock = Ok(compute_window(5, 5 * 4032 + 2880));
    let nodes = get_nodes_info(&shared, GeneralRequest { limit: 2, offset: 0 }, &clock);
    assert_eq!(
        nodes,
        vec![
            NodeInfo {
                id: "b2".to_string(),
                num_units: 8,
                registerations: vec![],
                atx: AtxInfo::default(),
            },
            NodeInfo {
                id: "a1".to_string(),
                num_units: 5,
                registerations: vec![registration("4", 30), registration("4", 31)],
                atx: activation(4, 3),
            },
        ]
    );
    assert_eq!(nodes[0].atx.epoch, 0);
    assert!(nodes[0].atx.empty());
}

#[test]
fn nodes_are_paged() {
    let shared = two_nodes();
    let clock = Ok(compute_window(5, 0));
    let second = get_nodes_info(&shared, GeneralRequest { limit: 1, offset: 1 }, &clock);
    assert_eq!(second.len(), 1);
    assert_eq!(second[0].id, "a1");
    assert_eq!(get_nodes_info(&shared, GeneralRequest { limit: 5, offset: 2 }, &clock), vec![]);
    assert_eq!(get_nodes_info(&shared, GeneralRequest { limit: 0, offset: 0 }, &clock), vec![]);
    assert_eq!(get_nodes_info(&shared, GeneralRequest { limit: -1, offset: -1 }, &clock).len(), 2);
}

#[test]
fn nodes_without_a_clock_are_listed_bare() {
    let shared = two_nodes();
    let nodes = get_nodes_info(&shared, GeneralRequest { limit: 2, offset: 0 }, &no_clock());
    assert_eq!(
        nodes,
        vec![
            NodeInfo {
                id: "b2".to_string(),
                num_units: 8,
                registerations: vec![],
                atx: AtxInfo::default(),
            },
            NodeInfo {
                id: "a1".to_string(),
                num_units: 5,
                registerations: vec![],
                atx: AtxInfo::default(),
            },
        ]
    );
}

#[test]
fn shared_keeps_its_parts() {
    let shared = two_nodes();
    assert_eq!(shared.rpc_handler.endpoint, "node:9092");
    assert_eq!(shared.db_handler.count_initialzed(), 2);
}
