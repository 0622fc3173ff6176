//! The records that the pool monitor works on and reports.

use vstd::prelude::*;
use crate::cache::{
    activation_key, checked_units, clamp_count, registration_key, ActivationRow, RegistrationRow,
    StoreError,
};
use crate::cache::{aggregate_of, or_zero, CacheView};
use crate::chain::{allocated_units, every_key, page_of, registrations_of, source_keys};
use crate::hexcodec::{hex_bytes, is_hex_text};
use crate::keyed::{total_of, upsert};
use crate::rpc::RpcError;
use crate::window::{Window, WindowView};
use crate::{DBHandler, DBView, Shared};

verus! {

/// The views of a sequence of values, element by element.
pub open spec fn view_all<T: View>(items: Seq<T>) -> Seq<T::V> {
    items.map_values(|item: T| item@)
}

/// The paging request of the per-node listing.
#[derive(Debug, Clone, Copy, PartialEq, Eq, Structural)]
pub struct GeneralRequest {
    pub limit: i64,
    pub offset: i64,
}

/// A committed key: the node's identifier in hexadecimal and the storage units
/// allocated to it at initialization.
#[derive(Debug, PartialEq)]
pub struct Key {
    pub id: String,
    pub num_units: i64,
}

/// A committed key as contracts speak of it.
pub struct KeyView {
    pub id: Seq<char>,
    pub num_units: i64,
}

impl View for Key {
    type V = KeyView;

    open spec fn view(&self) -> KeyView {
        KeyView { id: self.id@, num_units: self.num_units }
    }
}

impl Clone for Key {
    fn clone(&self) -> (copy: Self)
        ensures
            copy@ == self@,
    {
        Key { id: self.id.clone(), num_units: self.num_units }
    }
}

/// A node's registration for one round, as the ledger records it.
#[derive(Debug, PartialEq)]
pub struct Registeration {
    pub address: String,
    pub round_id: String,
    pub round_end: u32,
}

/// A registration as contracts speak of it.
pub struct RegisterationView {
    pub address: Seq<char>,
    pub round_id: Seq<char>,
    pub round_end: u32,
}

impl View for Registeration {
    type V = RegisterationView;

    open spec fn view(&self) -> RegisterationView {
        RegisterationView {
            address: self.address@,
            round_id: self.round_id@,
            round_end: self.round_end,
        }
    }
}

impl Clone for Registeration {
    fn clone(&self) -> (copy: Self)
        ensures
            copy@ == self@,
    {
        Registeration {
            address: self.address.clone(),
            round_id: self.round_id.clone(),
            round_end: self.round_end,
        }
    }
}

/// A node's activation for one epoch, with identifiers in hexadecimal.
#[derive(Debug, PartialEq)]
pub struct AtxInfo {
    pub epoch: i64,
    pub atx_id: String,
    pub effective_num_units: i64,
    pub coinbase: String,
}

/// An activation as contracts speak of it.
pub struct AtxInfoView {
    pub epoch: i64,
    pub atx_id: Seq<char>,
    pub effective_num_units: i64,
    pub coinbase: Seq<char>,
}

impl View for AtxInfo {
    type V = AtxInfoView;

    open spec fn view(&self) -> AtxInfoView {
        AtxInfoView {
            epoch: self.epoch,
            atx_id: self.atx_id@,
            effective_num_units: self.effective_num_units,
            coinbase: self.coinbase@,
        }
    }
}

impl Clone for AtxInfo {
    fn clone(&self) -> (copy: Self)
        ensures
            copy@ == self@,
    {
        AtxInfo {
            epoch: self.epoch,
            atx_id: self.atx_id.clone(),
            effective_num_units: self.effective_num_units,
            coinbase: self.coinbase.clone(),
        }
    }
}

/// The record shown for a node without an activation: epoch zero, no units,
/// empty identifiers.
pub open spec fn empty_atx() -> AtxInfoView {
    AtxInfoView {
        epoch: 0,
        atx_id: Seq::empty(),
        effective_num_units: 0,
        coinbase: Seq::empty(),
    }
}

impl AtxInfo {
    /// Whether this is the placeholder of a missing activation: epoch zero marks it.
    pub fn empty(&self) -> (none: bool)
        ensures
            none == (self.epoch == 0),
    {
        self.epoch == 0
    }
}

impl Default for AtxInfo {
    fn default() -> (atx: Self)
        ensures
            atx@ == empty_atx(),
    {
        AtxInfo { epoch: 0, atx_id: String::new(), effective_num_units: 0, coinbase: String::new() }
    }
}

/// One line of the per-node listing.
#[derive(Debug, PartialEq)]
pub struct NodeInfo {
    pub id: String,
    pub num_units: i64,
    pub registerations: Vec<Registeration>,
    pub atx: AtxInfo,
}

/// A line of the listing as contracts speak of it.
pub struct NodeInfoView {
    pub id: Seq<char>,
    pub num_units: i64,
    pub registerations: Seq<RegisterationView>,
    pub atx: AtxInfoView,
}

impl View for NodeInfo {
    type V = NodeInfoView;

    open spec fn view(&self) -> NodeInfoView {
        NodeInfoView {
            id: self.id@,
            num_units: self.num_units,
            registerations: view_all(self.registerations@),
            atx: self.atx@,
        }
    }
}

impl NodeInfo {
    pub fn new(id: String, num_units: i64, registerations: Vec<Registeration>, atx: AtxInfo) -> (node:
        Self)
        ensures
            node.id == id,
            node.num_units == num_units,
            node.registerations == registerations,
            node.atx == atx,
    {
        NodeInfo { id, num_units, registerations, atx }
    }
}

/// A number of nodes and the storage units they stand for.
#[derive(Debug, Clone, Copy, PartialEq, Eq, Structural)]
pub struct Item {
    pub count: i64,
    pub num_units: i64,
}

impl Item {
    pub fn new(count: i64, num_units: i64) -> (item: Self)
        ensures
            item == (Item { count, num_units }),
    {
        Item { count, num_units }
    }
}

/// An aggregate for the running round or epoch and for the one that follows.
#[derive(Debug, Clone, Copy, PartialEq, Eq, Structural)]
pub struct GeneralItem {
    pub current: Item,
    pub next: Item,
}

/// The pool at a glance: what was committed, what is registered, what is active.
#[derive(Debug, Clone, Copy, PartialEq, Eq, Structural)]
pub struct Overview {
    pub init_posted: Item,
    pub registerd: GeneralItem,
    pub actived: GeneralItem,
}

impl DBHandler {
    /// Keeps the registration of node `id` for the round that `poet` names,
    /// with the units the node has committed. The node's row for that round
    /// is written over if there is one; the two other stores are not touched.
    pub fn save_poet(&mut self, id: String, num_unit: i64, poet: Registeration)
        requires
            old(self).wf(),
        ensures
            final(self).wf(),
            final(self).chain == old(self).chain,
            final(self).local == old(self).local,
            final(self)@.poolstats.activations == old(self)@.poolstats.activations,
            final(self)@.poolstats.registrations == upsert(
                old(self)@.poolstats.registrations,
                registration_key(),
                RegistrationRow { id: id@, round_id: poet.round_id@, num_unit },
            ),
    {
        self.poolstats.upsert_registration(id, num_unit, poet)
    }

    /// Keeps the activation of node `id` for the epoch that `atx` names, with
    /// the units the node has committed. The node's row for that epoch is
    /// written over if there is one; the two other stores are not touched.
    pub fn save_atx(&mut self, id: String, num_unit: i64, atx: AtxInfo)
        requires
            old(self).wf(),
        ensures
            final(self).wf(),
            final(self).chain == old(self).chain,
            final(self).local == old(self).local,
            final(self)@.poolstats.registrations == old(self)@.poolstats.registrations,
            final(self)@.poolstats.activations == upsert(
                old(self)@.poolstats.activations,
                activation_key(),
                ActivationRow { id: id@, num_unit, atx: atx@ },
            ),
    {
        self.poolstats.upsert_activation(id, num_unit, atx)
    }

    /// The number of nodes that the derived store holds as active in `epoch`.
    pub fn count_activated(&self, epoch: i64) -> (count: i64)
        ensures
            count == clamp_count(self@.poolstats.activated_count(epoch)),
    {
        self.poolstats.count_activated(epoch)
    }

    /// The units in effect for those nodes, unless the sum is out of range.
    pub fn actived_num_units(&self, epoch: i64) -> (units: Result<i64, StoreError>)
        ensures
            units == checked_units(self@.poolstats.activated_units(epoch)),
    {
        self.poolstats.actived_num_units(epoch)
    }

    /// The number of nodes that the derived store holds as registered for `round_id`.
    pub fn count_registered(&self, round_id: String) -> (count: i64)
        ensures
            count == clamp_count(self@.poolstats.registered_count(round_id@)),
    {
        self.poolstats.count_registered(&round_id)
    }

    /// The units committed by those nodes, unless the sum is out of range.
    pub fn registered_num_units(&self, round_id: String) -> (units: Result<i64, StoreError>)
        ensures
            units == checked_units(self@.poolstats.registered_units(round_id@)),
    {
        self.poolstats.registered_num_units(&round_id)
    }

    /// The activation that the derived store holds for node `id` and `epoch`,
    /// if any.
    pub fn get_atxs_by_id(&self, id: String, epoch: i64) -> (atx: Option<AtxInfo>)
        ensures
            match atx {
                Some(info) => self@.poolstats.activation_of(id@, epoch) == Some(info@),
                None => self@.poolstats.activation_of(id@, epoch) is None,
            },
    {
        self.poolstats.lookup_activation_cached(&id, epoch)
    }
}

/// The window of a clock reading, where the reading gave one.
pub open spec fn window_of(clock: Result<WindowView, RpcError>) -> Option<Window> {
    match clock {
        Ok(window) => Some(window@),
        Err(_) => None,
    }
}

/// The aggregate shown where nothing can be said.
pub open spec fn no_item() -> Item {
    Item { count: 0, num_units: 0 }
}

/// What is shown of the registrations of `round`.
pub open spec fn registered_item(cache: CacheView, round: Seq<char>) -> Item {
    aggregate_of(cache.registered_count(round), cache.registered_units(round))
}

/// What is shown of the activations of `epoch`.
pub open spec fn activated_item(cache: CacheView, epoch: i64) -> Item {
    aggregate_of(cache.activated_count(epoch), cache.activated_units(epoch))
}

/// The pool at a glance. The committed keys are counted in the pool's own
/// records. Registrations and activations are taken from the derived store,
/// for the running round and epoch of the window and for the next ones where
/// the window has them; without a window, and for a next round or epoch that
/// the window does not have, zeros are shown.
pub open spec fn overview_of(db: DBView, window: Option<Window>) -> Overview {
    Overview {
        init_posted: aggregate_of(
            db.local.initial_post.len(),
            total_of(db.local.initial_post, every_key(), allocated_units()),
        ),
        registerd: match window {
            Some(w) => GeneralItem {
                current: registered_item(db.poolstats, w.current_round),
                next: match w.next_round {
                    Some(round) => registered_item(db.poolstats, round),
                    None => no_item(),
                },
            },
            None => GeneralItem { current: no_item(), next: no_item() },
        },
        actived: match window {
            Some(w) => GeneralItem {
                current: activated_item(db.poolstats, w.current_epoch_for_activation),
                next: match w.next_epoch {
                    Some(epoch) => activated_item(db.poolstats, epoch),
                    None => no_item(),
                },
            },
            None => GeneralItem { current: no_item(), next: no_item() },
        },
    }
}

/// Answers the question for the overview, given what the clock said. A clock
/// that failed does not fail the answer: what depends on it is shown as zero.
pub fn overview_handler(shared: &Shared, clock: &Result<WindowView, RpcError>) -> (overview:
    Overview)
    ensures
        overview == overview_of(shared.db_handler@, window_of(*clock)),
{
    let db = &shared.db_handler;
    let init_posted_count = db.count_initialzed();
    let init_posted_num_units = or_zero(db.inited_num_units());
    let none = Item::new(0, 0);
    let (registerd, actived) = match clock {
        Ok(window) => {
            let registered = db.poolstats.aggregate_registered(&window.current_round);
            let next_registered = match &window.next_round {
                Some(round) => db.poolstats.aggregate_registered(round),
                None => none,
            };
            let activated = db.poolstats.aggregate_activated(window.current_epoch_for_activation);
            let next_activated = match window.next_epoch {
                Some(epoch) => db.poolstats.aggregate_activated(epoch),
                None => none,
            };
            (
                GeneralItem { current: registered, next: next_registered },
                GeneralItem { current: activated, next: next_activated },
            )
        },
        Err(_) => (
            GeneralItem { current: none, next: none },
            GeneralItem { current: none, next: none },
        ),
    };
    Overview {
        init_posted: Item::new(init_posted_count, init_posted_num_units),
        registerd,
        actived,
    }
}

/// The line shown for a committed key. The registrations are those that the
/// pool has recorded for the node and the running round, all of them, in the
/// order of the records; the activation is the one that the derived store
/// holds for the node and the running epoch. Without a window, or for a key
/// whose identifier cannot be read, no registrations are shown; without a
/// window or an activation in the derived store, the empty activation is shown.
pub open spec fn node_info_of(db: DBView, window: Option<Window>, key: KeyView) -> NodeInfoView {
    NodeInfoView {
        id: key.id,
        num_units: key.num_units,
        registerations: match window {
            Some(w) => if is_hex_text(key.id) {
                registrations_of(db.local.poet_registration, hex_bytes(key.id), w.current_round)
            } else {
                Seq::empty()
            },
            None => Seq::empty(),
        },
        atx: match window {
            Some(w) => match db.poolstats.activation_of(key.id, w.current_epoch_for_activation) {
                Some(atx) => atx,
                None => empty_atx(),
            },
            None => empty_atx(),
        },
    }
}

/// The lines shown for the page that `req` asks for.
pub open spec fn nodes_info_of(db: DBView, window: Option<Window>, req: GeneralRequest) -> Seq<
    NodeInfoView,
> {
    page_of(source_keys(db.local), req.limit, req.offset).map_values(
        |key: KeyView| node_info_of(db, window, key),
    )
}

/// Answers the question for a page of nodes, given what the clock said: one
/// line for each committed key of the page, in the order of the page.
pub fn get_nodes_info(shared: &Shared, req: GeneralRequest, clock: &Result<WindowView, RpcError>) -> (nodes:
    Vec<NodeInfo>)
    ensures
        view_all(nodes@) == nodes_info_of(shared.db_handler@, window_of(*clock), req),
{
    let db = &shared.db_handler;
    let GeneralRequest { limit, offset } = req;
    let ids = db.get_init_keys(limit, offset);
    let ghost window = window_of(*clock);
    let ghost page = view_all(ids@);
    let mut result: Vec<NodeInfo> = Vec::new();
    let mut at: usize = 0;
    while at < ids.len()
        invariant
            at <= ids.len(),
            page == view_all(ids@),
            window == window_of(*clock),
            db == &shared.db_handler,
            result.len() == at,
            forall|i: int|
                0 <= i < at ==> (#[trigger] result[i])@ == node_info_of(db@, window, page[i]),
        decreases ids.len() - at,
    {
        let key = &ids[at];
        assert(page[at as int] == key@);
        let registerations: Vec<Registeration> = match clock {
            Ok(w) => match db.get_chain_registerations_by_id(
                key.id.clone(),
                w.current_round.clone(),
            ) {
                Ok(found) => found,
                Err(_) => Vec::new(),
            },
            Err(_) => Vec::new(),
        };
        let atx: AtxInfo = match clock {
            Ok(w) => match db.get_atxs_by_id(key.id.clone(), w.current_epoch_for_activation) {
                Some(found) => found,
                None => AtxInfo::default(),
            },
            Err(_) => AtxInfo::default(),
        };
        let node = NodeInfo::new(key.id.clone(), key.num_units, registerations, atx);
        proof {
            assert(view_all(node.registerations@) =~= node_info_of(
                db@,
                window,
                key@,
            ).registerations);
            assert(node@ == node_info_of(db@, window, key@));
        }
        result.push(node);
        at = at + 1;
    }
    assert(view_all(result@) =~= nodes_info_of(db@, window, req));
    result
}

} // verus!
