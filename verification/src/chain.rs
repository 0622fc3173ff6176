//! The two stores that are only read: the pool's record of committed keys and
//! round registrations, and the ledger's record of activations.

use vstd::prelude::*;
use crate::cache::{checked_units, clamp, clamp_count, narrow, StoreError};
use crate::hexcodec::{decode_text, encode_bytes, hex_bytes, hex_text, is_hex_text};
use crate::keyed::{has_key, is_first, lemma_first_unique, lemma_position, position, total_of};
use crate::poolstats::{view_all, AtxInfo, AtxInfoView, Key, KeyView, Registeration, RegisterationView};
use crate::DBHandler;

verus! {

/// A committed key as the pool records it: the node's identifier in bytes and
/// the units allocated to it.
#[derive(Debug, PartialEq)]
pub struct InnerKey {
    pub id: Vec<u8>,
    pub num_units: i64,
}

/// A record of a committed key as contracts speak of it.
pub struct InnerKeyView {
    pub id: Seq<u8>,
    pub num_units: i64,
}

impl View for InnerKey {
    type V = InnerKeyView;

    open spec fn view(&self) -> InnerKeyView {
        InnerKeyView { id: self.id@, num_units: self.num_units }
    }
}

/// An activation as the ledger records it, with identifiers in bytes.
#[derive(Debug, PartialEq)]
pub struct InnerAtxInfo {
    pub epoch: i64,
    pub atx_id: Vec<u8>,
    pub effective_num_units: i64,
    pub coinbase: Vec<u8>,
}

/// A ledger activation as contracts speak of it.
pub struct InnerAtxInfoView {
    pub epoch: i64,
    pub atx_id: Seq<u8>,
    pub effective_num_units: i64,
    pub coinbase: Seq<u8>,
}

impl View for InnerAtxInfo {
    type V = InnerAtxInfoView;

    open spec fn view(&self) -> InnerAtxInfoView {
        InnerAtxInfoView {
            epoch: self.epoch,
            atx_id: self.atx_id@,
            effective_num_units: self.effective_num_units,
            coinbase: self.coinbase@,
        }
    }
}

/// The activation with its identifiers written in hexadecimal.
pub open spec fn atx_of(row: InnerAtxInfoView) -> AtxInfoView {
    AtxInfoView {
        epoch: row.epoch,
        atx_id: hex_text(row.atx_id),
        effective_num_units: row.effective_num_units,
        coinbase: hex_text(row.coinbase),
    }
}

impl InnerAtxInfo {
    /// Writes the identifiers in hexadecimal; epoch and units stay as they are.
    pub fn to_atx(self) -> (atx: AtxInfo)
        ensures
            atx@ == atx_of(self@),
    {
        let InnerAtxInfo { epoch, atx_id, effective_num_units, coinbase } = self;
        AtxInfo {
            atx_id: encode_bytes(&atx_id),
            effective_num_units,
            epoch,
            coinbase: encode_bytes(&coinbase),
        }
    }
}

/// A node's registration for a round, as the pool recorded it from the ledger.
#[derive(Debug, PartialEq)]
pub struct PoetRegistration {
    pub id: Vec<u8>,
    pub registeration: Registeration,
}

/// A recorded registration as contracts speak of it.
pub struct PoetRegistrationView {
    pub id: Seq<u8>,
    pub registeration: RegisterationView,
}

impl View for PoetRegistration {
    type V = PoetRegistrationView;

    open spec fn view(&self) -> PoetRegistrationView {
        PoetRegistrationView { id: self.id@, registeration: self.registeration@ }
    }
}

/// A node's activation for an epoch, as the ledger holds it.
#[derive(Debug, PartialEq)]
pub struct ChainAtx {
    pub pubkey: Vec<u8>,
    pub atx: InnerAtxInfo,
}

/// A ledger row as contracts speak of it.
pub struct ChainAtxView {
    pub pubkey: Seq<u8>,
    pub atx: InnerAtxInfoView,
}

impl View for ChainAtx {
    type V = ChainAtxView;

    open spec fn view(&self) -> ChainAtxView {
        ChainAtxView { pubkey: self.pubkey@, atx: self.atx@ }
    }
}

/// The pool's own records, in the order in which they are kept.
#[derive(Debug, PartialEq)]
pub struct LocalStore {
    pub initial_post: Vec<InnerKey>,
    pub poet_registration: Vec<PoetRegistration>,
}

/// The pool's records as contracts speak of them.
pub struct LocalView {
    pub initial_post: Seq<InnerKeyView>,
    pub poet_registration: Seq<PoetRegistrationView>,
}

impl View for LocalStore {
    type V = LocalView;

    open spec fn view(&self) -> LocalView {
        LocalView {
            initial_post: view_all(self.initial_post@),
            poet_registration: view_all(self.poet_registration@),
        }
    }
}

/// The ledger's activations, in the order in which they are kept.
#[derive(Debug, PartialEq)]
pub struct ChainStore {
    pub atxs: Vec<ChainAtx>,
}

/// The ledger's activations as contracts speak of them.
pub struct ChainView {
    pub atxs: Seq<ChainAtxView>,
}

impl View for ChainStore {
    type V = ChainView;

    open spec fn view(&self) -> ChainView {
        ChainView { atxs: view_all(self.atxs@) }
    }
}

/// The key that is handed out for a record: the identifier in hexadecimal.
pub open spec fn key_of(row: InnerKeyView) -> KeyView {
    KeyView { id: hex_text(row.id), num_units: row.num_units }
}

/// All committed keys, in the order of the records.
pub open spec fn source_keys(local: LocalView) -> Seq<KeyView> {
    local.initial_post.map_values(|row: InnerKeyView| key_of(row))
}

/// Where a page starts among `len` records: a negative offset counts as zero,
/// one beyond the end as the end.
pub open spec fn page_start(len: nat, offset: i64) -> int {
    if offset < 0 {
        0
    } else if offset > len {
        len as int
    } else {
        offset as int
    }
}

/// Where a page ends among `len` records: `limit` records after its start or at
/// the end of the records, whichever comes first; a negative limit is no limit.
pub open spec fn page_end(len: nat, limit: i64, offset: i64) -> int {
    if limit < 0 || page_start(len, offset) + limit > len {
        len as int
    } else {
        page_start(len, offset) + limit
    }
}

/// The page of `keys` that `limit` and `offset` ask for.
pub open spec fn page_of(keys: Seq<KeyView>, limit: i64, offset: i64) -> Seq<KeyView> {
    keys.subrange(page_start(keys.len(), offset), page_end(keys.len(), limit, offset))
}

/// Picks every record.
pub open spec fn every_key() -> spec_fn(InnerKeyView) -> bool {
    |row: InnerKeyView| true
}

/// The units of a record.
pub open spec fn allocated_units() -> spec_fn(InnerKeyView) -> int {
    |row: InnerKeyView| row.num_units as int
}

/// The registrations recorded for node `id` and `round`, in the order of the records.
pub open spec fn registrations_of(
    rows: Seq<PoetRegistrationView>,
    id: Seq<u8>,
    round: Seq<char>,
) -> Seq<RegisterationView>
    decreases rows.len(),
{
    if rows.len() == 0 {
        Seq::empty()
    } else if rows.last().id == id && rows.last().registeration.round_id == round {
        registrations_of(rows.drop_last(), id, round).push(rows.last().registeration)
    } else {
        registrations_of(rows.drop_last(), id, round)
    }
}

/// An activation is looked for by its node and epoch.
pub open spec fn chain_key() -> spec_fn(ChainAtxView) -> (Seq<u8>, i64) {
    |row: ChainAtxView| (row.pubkey, row.atx.epoch)
}

/// The activation that the ledger holds for node `pubkey` and `epoch`: of
/// several, the first in the order of the records.
pub open spec fn activation_of(rows: Seq<ChainAtxView>, pubkey: Seq<u8>, epoch: i64) -> Option<
    AtxInfoView,
> {
    if has_key(rows, chain_key(), (pubkey, epoch)) {
        Some(atx_of(rows[position(rows, chain_key(), (pubkey, epoch))].atx))
    } else {
        None
    }
}

fn same_bytes(a: &Vec<u8>, b: &Vec<u8>) -> (same: bool)
    ensures
        same == (a@ == b@),
{
    let same = *a == *b;
    assert(same == (a@ =~= b@));
    same
}

impl DBHandler {
    /// A page of the committed keys, in the order of the records. A negative
    /// `offset` counts as zero, a negative `limit` lifts the bound.
    pub fn get_init_keys(&self, limit: i64, offset: i64) -> (keys: Vec<Key>)
        ensures
            view_all(keys@) == page_of(source_keys(self.local@), limit, offset),
    {
        let len: usize = self.local.initial_post.len();
        let start: usize = if offset < 0 {
            0
        } else if offset as u64 > len as u64 {
            len
        } else {
            offset as usize
        };
        let end: usize = if limit < 0 || start as u128 + limit as u128 > len as u128 {
            len
        } else {
            start + limit as usize
        };
        let ghost all = source_keys(self.local@);
        let mut keys: Vec<Key> = Vec::new();
        let mut at: usize = start;
        while at < end
            invariant
                start <= at <= end <= len,
                len == self.local.initial_post.len(),
                all == source_keys(self.local@),
                all.len() == len,
                view_all(keys@) == all.subrange(start as int, at as int),
            decreases end - at,
        {
            let row = &self.local.initial_post[at];
            let key = Key { id: encode_bytes(&row.id), num_units: row.num_units };
            proof {
                assert(self.local@.initial_post[at as int] == row@);
                assert(key@ == all[at as int]);
                assert(view_all(keys@.push(key)) =~= view_all(keys@).push(key@));
                assert(all.subrange(start as int, at as int).push(all[at as int]) =~= all.subrange(
                    start as int,
                    at + 1,
                ));
            }
            keys.push(key);
            at = at + 1;
        }
        keys
    }

    /// The number of committed keys.
    pub fn count_initialzed(&self) -> (count: i64)
        ensures
            count == clamp_count(self.local@.initial_post.len()),
    {
        clamp(self.local.initial_post.len())
    }

    /// The units of all committed keys together, unless the sum is out of range.
    pub fn inited_num_units(&self) -> (units: Result<i64, StoreError>)
        ensures
            units == checked_units(
                total_of(self.local@.initial_post, every_key(), allocated_units()),
            ),
    {
        let ghost rows = self.local@.initial_post;
        let mut total: i128 = 0;
        let mut at: usize = 0;
        while at < self.local.initial_post.len()
            invariant
                at <= self.local.initial_post.len(),
                rows == self.local@.initial_post,
                rows.len() == self.local.initial_post.len(),
                total == total_of(rows.take(at as int), every_key(), allocated_units()),
                -(at * 0x8000_0000_0000_0000) <= total <= at * 0x8000_0000_0000_0000,
            decreases self.local.initial_post.len() - at,
        {
            let row = &self.local.initial_post[at];
            proof {
                assert(rows.take(at + 1).drop_last() =~= rows.take(at as int));
                assert(rows.take(at + 1).last() == row@);
            }
            total = total + row.num_units as i128;
            at = at + 1;
        }
        assert(rows.take(at as int) =~= rows);
        narrow(total)
    }

    /// The registrations recorded for node `id` and round `round_id`, in the
    /// order of the records. An `id` that is not hexadecimal text names no
    /// node and is refused.
    pub fn get_chain_registerations_by_id(&self, id: String, round_id: String) -> (found: Result<
        Vec<Registeration>,
        StoreError,
    >)
        ensures
            match found {
                Ok(registrations) => is_hex_text(id@) && view_all(registrations@)
                    == registrations_of(self.local@.poet_registration, hex_bytes(id@), round_id@),
                Err(e) => e == StoreError::Malformed && !is_hex_text(id@),
            },
    {
        let node = match decode_text(&id) {
            Ok(bytes) => bytes,
            Err(_) => {
                return Err(StoreError::Malformed);
            },
        };
        let ghost rows = self.local@.poet_registration;
        let mut registrations: Vec<Registeration> = Vec::new();
        let mut at: usize = 0;
        while at < self.local.poet_registration.len()
            invariant
                at <= self.local.poet_registration.len(),
                rows == self.local@.poet_registration,
                rows.len() == self.local.poet_registration.len(),
                view_all(registrations@) == registrations_of(rows.take(at as int), node@, round_id@),
            decreases self.local.poet_registration.len() - at,
        {
            let row = &self.local.poet_registration[at];
            proof {
                assert(rows.take(at + 1).drop_last() =~= rows.take(at as int));
                assert(rows.take(at + 1).last() == row@);
            }
            if same_bytes(&row.id, &node) && row.registeration.round_id == round_id {
                let copy = row.registeration.clone();
                proof {
                    assert(view_all(registrations@.push(copy)) =~= view_all(registrations@).push(
                        copy@,
                    ));
                }
                registrations.push(copy);
            }
            at = at + 1;
        }
        assert(rows.take(at as int) =~= rows);
        Ok(registrations)
    }

    /// The activation that the ledger holds for node `id` and `epoch`, if
    /// any, with its identifiers in hexadecimal. An `id` that is not
    /// hexadecimal text names no node and is refused.
    pub fn get_chain_atxs_by_id(&self, id: String, epoch: i64) -> (found: Result<
        Option<AtxInfo>,
        StoreError,
    >)
        ensures
            match found {
                Ok(Some(atx)) => is_hex_text(id@) && activation_of(
                    self.chain@.atxs,
                    hex_bytes(id@),
                    epoch,
                ) == Some(atx@),
                Ok(None) => is_hex_text(id@) && activation_of(
                    self.chain@.atxs,
                    hex_bytes(id@),
                    epoch,
                ) is None,
                Err(e) => e == StoreError::Malformed && !is_hex_text(id@),
            },
    {
        let node = match decode_text(&id) {
            Ok(bytes) => bytes,
            Err(_) => {
                return Err(StoreError::Malformed);
            },
        };
        let ghost rows = self.chain@.atxs;
        let ghost key = (node@, epoch);
        let mut at: usize = 0;
        while at < self.chain.atxs.len()
            invariant
                at <= self.chain.atxs.len(),
                rows == self.chain@.atxs,
                rows.len() == self.chain.atxs.len(),
                key == (node@, epoch),
                is_hex_text(id@),
                node@ == hex_bytes(id@),
                forall|j: int| 0 <= j < at ==> (chain_key())(#[trigger] rows[j]) != key,
            decreases self.chain.atxs.len() - at,
        {
            let row = &self.chain.atxs[at];
            assert(rows[at as int] == row@);
            if same_bytes(&row.pubkey, &node) && row.atx.epoch == epoch {
                proof {
                    assert(is_first(rows, chain_key(), key, at as int));
                    assert(has_key(rows, chain_key(), key));
                    lemma_position(rows, chain_key(), key);
                    lemma_first_unique(
                        rows,
                        chain_key(),
                        key,
                        at as int,
                        position(rows, chain_key(), key),
                    );
                }
                let atx = AtxInfo {
                    atx_id: encode_bytes(&row.atx.atx_id),
                    effective_num_units: row.atx.effective_num_units,
                    epoch: row.atx.epoch,
                    coinbase: encode_bytes(&row.atx.coinbase),
                };
                proof {
                    assert(atx@ == atx_of(row@.atx));
                    assert(activation_of(rows, node@, epoch) == Some(atx@));
                }
                return Ok(Some(atx));
            }
            at = at + 1;
        }
        Ok(None)
    }
}

} // verus!
