//! The derived store: what the pool knows of its nodes' registrations and
//! activations, one row for each node and round, one for each node and epoch.
//!
//! Rows are written over, never added twice and never removed, so a pass that
//! is run again leaves the store as it was.

use vstd::prelude::*;
use crate::keyed::{
    count_of, distinct_keys, has_key, is_first, lemma_first_unique, lemma_position, lemma_upsert,
    total_of, upsert,
};
use crate::poolstats::{view_all, AtxInfo, AtxInfoView, Item, Registeration};

verus! {

/// Why a store could not answer.
#[derive(Debug, Clone, Copy, PartialEq, Eq, Structural)]
pub enum StoreError {
    /// The identifier is not hexadecimal text of even length.
    Malformed,
    /// The sum does not fit the number type of the answer.
    Overflow,
}

/// A node's registration for a round as the store keeps it: the node, the
/// round, and the units the node had committed when the row was written.
#[derive(Debug, PartialEq)]
pub struct CachedRegistration {
    pub id: String,
    pub round_id: String,
    pub num_unit: i64,
}

/// A kept registration as contracts speak of it.
pub struct RegistrationRow {
    pub id: Seq<char>,
    pub round_id: Seq<char>,
    pub num_unit: i64,
}

impl View for CachedRegistration {
    type V = RegistrationRow;

    open spec fn view(&self) -> RegistrationRow {
        RegistrationRow { id: self.id@, round_id: self.round_id@, num_unit: self.num_unit }
    }
}

/// A node's activation for an epoch as the store keeps it.
#[derive(Debug, PartialEq)]
pub struct CachedAtx {
    pub id: String,
    pub num_unit: i64,
    pub atx: AtxInfo,
}

/// A kept activation as contracts speak of it.
pub struct ActivationRow {
    pub id: Seq<char>,
    pub num_unit: i64,
    pub atx: AtxInfoView,
}

impl View for CachedAtx {
    type V = ActivationRow;

    open spec fn view(&self) -> ActivationRow {
        ActivationRow { id: self.id@, num_unit: self.num_unit, atx: self.atx@ }
    }
}

/// A registration is found by its node and round.
pub open spec fn registration_key() -> spec_fn(RegistrationRow) -> (Seq<char>, Seq<char>) {
    |row: RegistrationRow| (row.id, row.round_id)
}

/// An activation is found by its node and epoch.
pub open spec fn activation_key() -> spec_fn(ActivationRow) -> (Seq<char>, i64) {
    |row: ActivationRow| (row.id, row.atx.epoch)
}

/// Picks the registrations of one round.
pub open spec fn in_round(round: Seq<char>) -> spec_fn(RegistrationRow) -> bool {
    |row: RegistrationRow| row.round_id == round
}

/// Picks the activations of one epoch.
pub open spec fn in_epoch(epoch: i64) -> spec_fn(ActivationRow) -> bool {
    |row: ActivationRow| row.atx.epoch == epoch
}

/// The units that a registration row stands for.
pub open spec fn committed_units() -> spec_fn(RegistrationRow) -> int {
    |row: RegistrationRow| row.num_unit as int
}

/// The units that an activation row stands for.
pub open spec fn effective_units() -> spec_fn(ActivationRow) -> int {
    |row: ActivationRow| row.atx.effective_num_units as int
}

/// A count as a number of the answer's type: counts beyond its range are
/// reported as the largest number.
pub open spec fn clamp_count(n: nat) -> i64 {
    if n > i64::MAX {
        i64::MAX
    } else {
        n as i64
    }
}

/// A sum as a number of the answer's type, where it is one.
pub open spec fn checked_units(total: int) -> Result<i64, StoreError> {
    if i64::MIN <= total <= i64::MAX {
        Ok(total as i64)
    } else {
        Err(StoreError::Overflow)
    }
}

/// The aggregate that is reported for a count and a sum: a sum that cannot be
/// given is reported as zero.
pub open spec fn aggregate_of(count: nat, total: int) -> Item {
    Item {
        count: clamp_count(count),
        num_units: match checked_units(total) {
            Ok(units) => units,
            Err(_) => 0,
        },
    }
}

/// The rows of the derived store, in the order in which they are kept.
pub struct CacheView {
    pub registrations: Seq<RegistrationRow>,
    pub activations: Seq<ActivationRow>,
}

impl CacheView {
    /// The number of nodes registered for `round`.
    pub open spec fn registered_count(self, round: Seq<char>) -> nat {
        count_of(self.registrations, in_round(round))
    }

    /// The units committed by the nodes registered for `round`.
    pub open spec fn registered_units(self, round: Seq<char>) -> int {
        total_of(self.registrations, in_round(round), committed_units())
    }

    /// The number of nodes active in `epoch`.
    pub open spec fn activated_count(self, epoch: i64) -> nat {
        count_of(self.activations, in_epoch(epoch))
    }

    /// The units in effect for the nodes active in `epoch`.
    pub open spec fn activated_units(self, epoch: i64) -> int {
        total_of(self.activations, in_epoch(epoch), effective_units())
    }

    /// The activation kept for a node and an epoch, where there is one.
    pub open spec fn activation_of(self, id: Seq<char>, epoch: i64) -> Option<AtxInfoView> {
        if has_key(self.activations, activation_key(), (id, epoch)) {
            Some(
                self.activations[crate::keyed::position(
                    self.activations,
                    activation_key(),
                    (id, epoch),
                )].atx,
            )
        } else {
            None
        }
    }

    /// No node has two rows for a round, nor two for an epoch.
    pub open spec fn wf(self) -> bool {
        &&& distinct_keys(self.registrations, registration_key())
        &&& distinct_keys(self.activations, activation_key())
    }
}

/// The derived store.
#[derive(Debug)]
pub struct CacheStore {
    poet_registration: Vec<CachedRegistration>,
    atxs: Vec<CachedAtx>,
}

impl View for CacheStore {
    type V = CacheView;

    closed spec fn view(&self) -> CacheView {
        CacheView {
            registrations: view_all(self.poet_registration@),
            activations: view_all(self.atxs@),
        }
    }
}

impl CacheStore {
    /// No node has two rows for a round, nor two for an epoch.
    pub open spec fn wf(&self) -> bool {
        self@.wf()
    }

    /// A store without rows.
    pub fn new() -> (store: Self)
        ensures
            store.wf(),
            store@.registrations.len() == 0,
            store@.activations.len() == 0,
    {
        CacheStore { poet_registration: Vec::new(), atxs: Vec::new() }
    }

    /// The registrations kept, in the order in which their nodes and rounds
    /// were first written.
    pub fn registration_rows(&self) -> (rows: Vec<CachedRegistration>)
        ensures
            view_all(rows@) == self@.registrations,
    {
        let mut rows: Vec<CachedRegistration> = Vec::new();
        let mut at: usize = 0;
        while at < self.poet_registration.len()
            invariant
                at <= self.poet_registration.len(),
                view_all(rows@) == self@.registrations.take(at as int),
            decreases self.poet_registration.len() - at,
        {
            let row = &self.poet_registration[at];
            let copy = CachedRegistration {
                id: row.id.clone(),
                round_id: row.round_id.clone(),
                num_unit: row.num_unit,
            };
            proof {
                assert(self@.registrations[at as int] == copy@);
                assert(view_all(rows@.push(copy)) =~= view_all(rows@).push(copy@));
                assert(self@.registrations.take(at as int).push(copy@)
                    =~= self@.registrations.take(at + 1));
            }
            rows.push(copy);
            at = at + 1;
        }
        assert(self@.registrations.take(at as int) =~= self@.registrations);
        rows
    }

    /// The activations kept, in the order in which their nodes and epochs
    /// were first written.
    pub fn activation_rows(&self) -> (rows: Vec<CachedAtx>)
        ensures
            view_all(rows@) == self@.activations,
    {
        let mut rows: Vec<CachedAtx> = Vec::new();
        let mut at: usize = 0;
        while at < self.atxs.len()
            invariant
                at <= self.atxs.len(),
                view_all(rows@) == self@.activations.take(at as int),
            decreases self.atxs.len() - at,
        {
            let row = &self.atxs[at];
            let copy = CachedAtx { id: row.id.clone(), num_unit: row.num_unit, atx: row.atx.clone() };
            proof {
                assert(self@.activations[at as int] == copy@);
                assert(view_all(rows@.push(copy)) =~= view_all(rows@).push(copy@));
                assert(self@.activations.take(at as int).push(copy@) =~= self@.activations.take(
                    at + 1,
                ));
            }
            rows.push(copy);
            at = at + 1;
        }
        assert(self@.activations.take(at as int) =~= self@.activations);
        rows
    }

    fn find_registration(&self, id: &String, round_id: &String) -> (found: Option<usize>)
        ensures
            match found {
                Some(at) => is_first(
                    self@.registrations,
                    registration_key(),
                    (id@, round_id@),
                    at as int,
                ),
                None => !has_key(self@.registrations, registration_key(), (id@, round_id@)),
            },
    {
        let mut at: usize = 0;
        while at < self.poet_registration.len()
            invariant
                at <= self.poet_registration.len(),
                forall|j: int|
                    0 <= j < at ==> (registration_key())(#[trigger] self@.registrations[j]) != (
                        id@,
                        round_id@,
                    ),
            decreases self.poet_registration.len() - at,
        {
            let row = &self.poet_registration[at];
            if row.id == *id && row.round_id == *round_id {
                assert(self@.registrations[at as int] == row@);
                return Some(at);
            }
            assert(self@.registrations[at as int] == row@);
            at = at + 1;
        }
        None
    }

    fn find_activation(&self, id: &String, epoch: i64) -> (found: Option<usize>)
        ensures
            match found {
                Some(at) => is_first(self@.activations, activation_key(), (id@, epoch), at as int),
                None => !has_key(self@.activations, activation_key(), (id@, epoch)),
            },
    {
        let mut at: usize = 0;
        while at < self.atxs.len()
            invariant
                at <= self.atxs.len(),
                forall|j: int|
                    0 <= j < at ==> (activation_key())(#[trigger] self@.activations[j]) != (
                        id@,
                        epoch,
                    ),
            decreases self.atxs.len() - at,
        {
            let row = &self.atxs[at];
            if row.id == *id && row.atx.epoch == epoch {
                assert(self@.activations[at as int] == row@);
                return Some(at);
            }
            assert(self@.activations[at as int] == row@);
            at = at + 1;
        }
        None
    }

    /// Writes the registration of node `node_id` for the round that
    /// `registration` names, with the units the node has committed: over the
    /// row of that node and round where there is one, as a new row otherwise.
    pub fn upsert_registration(&mut self, node_id: String, units: i64, registration: Registeration)
        requires
            old(self).wf(),
        ensures
            final(self).wf(),
            final(self)@.registrations == upsert(
                old(self)@.registrations,
                registration_key(),
                RegistrationRow {
                    id: node_id@,
                    round_id: registration.round_id@,
                    num_unit: units,
                },
            ),
            final(self)@.activations == old(self)@.activations,
    {
        let ghost before = self@.registrations;
        let ghost key = (node_id@, registration.round_id@);
        let found = self.find_registration(&node_id, &registration.round_id);
        let row = CachedRegistration { id: node_id, round_id: registration.round_id, num_unit: units };
        proof {
            lemma_upsert(before, registration_key(), row@);
        }
        match found {
            Some(at) => {
                proof {
                    assert(has_key(before, registration_key(), key));
                    lemma_position(before, registration_key(), key);
                    lemma_first_unique(
                        before,
                        registration_key(),
                        key,
                        at as int,
                        crate::keyed::position(before, registration_key(), key),
                    );
                }
                self.poet_registration.set(at, row);
                assert(self@.registrations =~= before.update(at as int, row@));
            },
            None => {
                self.poet_registration.push(row);
                assert(self@.registrations =~= before.push(row@));
            },
        }
    }

    /// Writes the activation of node `node_id` for the epoch that `atx` names,
    /// with the units the node has committed: over the row of that node and
    /// epoch where there is one, as a new row otherwise.
    pub fn upsert_activation(&mut self, node_id: String, units: i64, atx: AtxInfo)
        requires
            old(self).wf(),
        ensures
            final(self).wf(),
            final(self)@.activations == upsert(
                old(self)@.activations,
                activation_key(),
                ActivationRow { id: node_id@, num_unit: units, atx: atx@ },
            ),
            final(self)@.registrations == old(self)@.registrations,
    {
        let ghost before = self@.activations;
        let ghost key = (node_id@, atx.epoch);
        let found = self.find_activation(&node_id, atx.epoch);
        let row = CachedAtx { id: node_id, num_unit: units, atx };
        proof {
            lemma_upsert(before, activation_key(), row@);
        }
        match found {
            Some(at) => {
                proof {
                    assert(has_key(before, activation_key(), key));
                    lemma_position(before, activation_key(), key);
                    lemma_first_unique(
                        before,
                        activation_key(),
                        key,
                        at as int,
                        crate::keyed::position(before, activation_key(), key),
                    );
                }
                self.atxs.set(at, row);
                assert(self@.activations =~= before.update(at as int, row@));
            },
            None => {
                self.atxs.push(row);
                assert(self@.activations =~= before.push(row@));
            },
        }
    }

    fn tally_registered(&self, round_id: &String) -> (tally: (usize, i128))
        ensures
            tally.0 == self@.registered_count(round_id@),
            tally.1 == self@.registered_units(round_id@),
    {
        let ghost rows = self@.registrations;
        let mut count: usize = 0;
        let mut total: i128 = 0;
        let mut at: usize = 0;
        while at < self.poet_registration.len()
            invariant
                at <= self.poet_registration.len(),
                rows == self@.registrations,
                rows.len() == self.poet_registration.len(),
                count <= at,
                count == count_of(rows.take(at as int), in_round(round_id@)),
                total == total_of(rows.take(at as int), in_round(round_id@), committed_units()),
                -(at * 0x8000_0000_0000_0000) <= total <= at * 0x8000_0000_0000_0000,
            decreases self.poet_registration.len() - at,
        {
            let row = &self.poet_registration[at];
            proof {
                assert(rows.take(at + 1).drop_last() =~= rows.take(at as int));
                assert(rows.take(at + 1).last() == row@);
            }
            if row.round_id == *round_id {
                count = count + 1;
                total = total + row.num_unit as i128;
            }
            at = at + 1;
        }
        assert(rows.take(at as int) =~= rows);
        (count, total)
    }

    fn tally_activated(&self, epoch: i64) -> (tally: (usize, i128))
        ensures
            tally.0 == self@.activated_count(epoch),
            tally.1 == self@.activated_units(epoch),
    {
        let ghost rows = self@.activations;
        let mut count: usize = 0;
        let mut total: i128 = 0;
        let mut at: usize = 0;
        while at < self.atxs.len()
            invariant
                at <= self.atxs.len(),
                rows == self@.activations,
                rows.len() == self.atxs.len(),
                count <= at,
                count == count_of(rows.take(at as int), in_epoch(epoch)),
                total == total_of(rows.take(at as int), in_epoch(epoch), effective_units()),
                -(at * 0x8000_0000_0000_0000) <= total <= at * 0x8000_0000_0000_0000,
            decreases self.atxs.len() - at,
        {
            let row = &self.atxs[at];
            proof {
                assert(rows.take(at + 1).drop_last() =~= rows.take(at as int));
                assert(rows.take(at + 1).last() == row@);
            }
            if row.atx.epoch == epoch {
                count = count + 1;
                total = total + row.atx.effective_num_units as i128;
            }
            at = at + 1;
        }
        assert(rows.take(at as int) =~= rows);
        (count, total)
    }

    /// The number of nodes registered for `round_id`.
    pub fn count_registered(&self, round_id: &String) -> (count: i64)
        ensures
            count == clamp_count(self@.registered_count(round_id@)),
    {
        clamp(self.tally_registered(round_id).0)
    }

    /// The units committed by the nodes registered for `round_id`, unless the
    /// sum is out of range.
    pub fn registered_num_units(&self, round_id: &String) -> (units: Result<i64, StoreError>)
        ensures
            units == checked_units(self@.registered_units(round_id@)),
    {
        narrow(self.tally_registered(round_id).1)
    }

    /// The number of nodes active in `epoch`.
    pub fn count_activated(&self, epoch: i64) -> (count: i64)
        ensures
            count == clamp_count(self@.activated_count(epoch)),
    {
        clamp(self.tally_activated(epoch).0)
    }

    /// The units in effect for the nodes active in `epoch`, unless the sum is
    /// out of range.
    pub fn actived_num_units(&self, epoch: i64) -> (units: Result<i64, StoreError>)
        ensures
            units == checked_units(self@.activated_units(epoch)),
    {
        narrow(self.tally_activated(epoch).1)
    }

    /// How many nodes are registered for `round_id`, and with how many units.
    pub fn aggregate_registered(&self, round_id: &String) -> (item: Item)
        ensures
            item == aggregate_of(
                self@.registered_count(round_id@),
                self@.registered_units(round_id@),
            ),
    {
        let tally = self.tally_registered(round_id);
        Item::new(clamp(tally.0), or_zero(narrow(tally.1)))
    }

    /// How many nodes are active in `epoch`, and with how many units.
    pub fn aggregate_activated(&self, epoch: i64) -> (item: Item)
        ensures
            item == aggregate_of(self@.activated_count(epoch), self@.activated_units(epoch)),
    {
        let tally = self.tally_activated(epoch);
        Item::new(clamp(tally.0), or_zero(narrow(tally.1)))
    }

    /// The activation kept for node `id` and `epoch`, if there is one.
    pub fn lookup_activation_cached(&self, id: &String, epoch: i64) -> (atx: Option<AtxInfo>)
        ensures
            match atx {
                Some(info) => self@.activation_of(id@, epoch) == Some(info@),
                None => self@.activation_of(id@, epoch) is None,
            },
    {
        match self.find_activation(id, epoch) {
            Some(at) => {
                proof {
                    let key = (id@, epoch);
                    assert(has_key(self@.activations, activation_key(), key));
                    lemma_position(self@.activations, activation_key(), key);
                    lemma_first_unique(
                        self@.activations,
                        activation_key(),
                        key,
                        at as int,
                        crate::keyed::position(self@.activations, activation_key(), key),
                    );
                }
                Some(self.atxs[at].atx.clone())
            },
            None => None,
        }
    }
}

pub(crate) fn clamp(count: usize) -> (clamped: i64)
    ensures
        clamped == clamp_count(count as nat),
{
    let wide: u64 = count as u64;
    if wide > 0x7fff_ffff_ffff_ffff {
        i64::MAX
    } else {
        wide as i64
    }
}

pub(crate) fn narrow(total: i128) -> (units: Result<i64, StoreError>)
    ensures
        units == checked_units(total as int),
{
    if total < i64::MIN as i128 || total > i64::MAX as i128 {
        Err(StoreError::Overflow)
    } else {
        Ok(total as i64)
    }
}

/// The sum that is shown where a sum may be missing: zero in place of a
/// missing one.
pub fn or_zero(units: Result<i64, StoreError>) -> (shown: i64)
    ensures
        shown == match units {
            Ok(n) => n,
            Err(_) => 0,
        },
{
    match units {
        Ok(n) => n,
        Err(_) => 0,
    }
}

} // verus!
