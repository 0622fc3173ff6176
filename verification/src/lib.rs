//! Reconciliation core of a proof-of-space pool monitor: the committed keys of
//! the pool are matched against ledger registrations and activations, mirrored
//! into a derived store, and summarised for dashboards.

use std::sync::Arc;
use vstd::prelude::*;

pub mod cache;
pub mod chain;
pub mod decimal;
pub mod hexcodec;
pub mod keyed;
pub mod laws;
pub mod poolstats;
pub mod rpc;
pub mod sync;
pub mod window;

use cache::{CacheStore, CacheView};
use chain::{ChainStore, ChainView, LocalStore, LocalView};
use rpc::RpcHandler;

verus! {

/// The three stores that the monitor works on: the ledger's activations, the
/// pool's own records of committed keys and round registrations, and the
/// derived store. The first two are only read.
#[derive(Debug)]
pub struct DBHandler {
    pub chain: ChainStore,
    pub local: LocalStore,
    pub poolstats: CacheStore,
}

/// The three stores as contracts speak of them.
pub struct DBView {
    pub chain: ChainView,
    pub local: LocalView,
    pub poolstats: CacheView,
}

impl View for DBHandler {
    type V = DBView;

    open spec fn view(&self) -> DBView {
        DBView { chain: self.chain@, local: self.local@, poolstats: self.poolstats@ }
    }
}

impl DBHandler {
    /// The derived store holds no node twice for a round or an epoch, and the
    /// committed keys are few enough to be counted.
    pub open spec fn wf(&self) -> bool {
        &&& self.poolstats.wf()
        &&& self.local@.initial_post.len() <= i64::MAX
    }

    pub fn new(chain: ChainStore, local: LocalStore, poolstats: CacheStore) -> (handler: Self)
        ensures
            handler.chain == chain,
            handler.local == local,
            handler.poolstats == poolstats,
    {
        DBHandler { chain, local, poolstats }
    }
}

/// What the background pass and the request handlers work on together.
#[derive(Debug)]
pub struct Shared {
    pub db_handler: DBHandler,
    pub rpc_handler: RpcHandler,
}

impl Shared {
    pub fn new(db_handler: DBHandler, rpc_handler: RpcHandler) -> (shared: Arc<Self>)
        ensures
            shared.db_handler == db_handler,
            shared.rpc_handler == rpc_handler,
    {
        Arc::new(Shared { db_handler, rpc_handler })
    }
}

} // verus!
