//! The pass that brings the derived store up to date with the ledger: every
//! committed key, page by page, is looked up in the ledger for the rounds and
//! epochs of the window, and what is found is written to the derived store.

use std::ops::Range;
use vstd::prelude::*;
use crate::cache::{activation_key, registration_key, ActivationRow, CacheView, RegistrationRow};
use crate::chain::{activation_of, registrations_of, source_keys, ChainView, LocalView};
use crate::hexcodec::{hex_bytes, is_hex_text};
use crate::keyed::{lemma_upsert_all_append, lemma_upsert_all_one, upsert_all};
use crate::poolstats::{view_all, Key, KeyView};
use crate::rpc::RpcError;
use crate::window::{Window, WindowView};
use crate::{DBHandler, DBView};

verus! {

/// The number of keys that a pass reads at a time.
pub const PAGE_SIZE: i64 = 50;

/// The seconds between the end of a pass and the start of the next.
pub const SYNC_INTERVAL_SECS: u64 = 1800;

/// Whether `n` steps of `batch` are just enough to get from `start` to `end`.
pub open spec fn steps_cover(n: int, start: int, end: int, batch: int) -> bool {
    if end <= start {
        n == 0
    } else {
        n >= 1 && start + (n - 1) * batch < end <= start + n * batch
    }
}

/// Cuts `input` into groups of `batch` numbers. Each group starts `batch`
/// after the one before; a group's end is its last number, but never more
/// than the end of `input`.
pub fn get_range(input: Range<i64>, batch: i64) -> (groups: Vec<Range<i64>>)
    requires
        batch >= 1,
    ensures
        steps_cover(groups.len() as int, input.start as int, input.end as int, batch as int),
        forall|i: int|
            0 <= i < groups.len() ==> (#[trigger] groups[i]).start == input.start + i * batch,
        forall|i: int|
            0 <= i < groups.len() ==> (#[trigger] groups[i]).end == if groups[i].start + batch - 1
                < input.end {
                groups[i].start + batch - 1
            } else {
                input.end as int
            },
{
    let end: i64 = input.end;
    let mut result: Vec<Range<i64>> = Vec::new();
    let mut start: i64 = input.start;
    let mut more: bool = start < end;
    assert(0 * batch == 0) by (nonlinear_arith);
    while more
        invariant
            batch >= 1,
            end == input.end,
            more ==> start < end && start == input.start + result.len() * batch,
            !more ==> steps_cover(result.len() as int, input.start as int, end as int, batch as int),
            forall|i: int|
                0 <= i < result.len() ==> (#[trigger] result[i]).start == input.start + i * batch,
            forall|i: int|
                0 <= i < result.len() ==> (#[trigger] result[i]).end == if result[i].start + batch
                    - 1 < end {
                    result[i].start + batch - 1
                } else {
                    end as int
                },
        decreases (if more { end - start } else { 0 }),
    {
        let last: i64 = if (start as i128) + (batch as i128) - 1 < end as i128 {
            start + batch - 1
        } else {
            end
        };
        let ghost n = result.len() as int;
        assert((n + 1) * batch == n * batch + batch) by (nonlinear_arith);
        result.push(start..last);
        if (start as i128) + (batch as i128) < end as i128 {
            start = start + batch;
        } else {
            more = false;
        }
    }
    result
}

/// A found row as a batch of one, nothing found as an empty batch.
pub open spec fn written<R>(found: Option<R>) -> Seq<R> {
    match found {
        Some(row) => seq![row],
        None => Seq::empty(),
    }
}

/// The row that a pass writes for `key` and `round`: none where the key's
/// identifier is not hexadecimal text or the pool has recorded no
/// registration of the node for the round; otherwise the node, the round of
/// the first registration recorded, and the units of the key.
pub open spec fn registration_found(local: LocalView, key: KeyView, round: Seq<char>) -> Option<
    RegistrationRow,
> {
    if is_hex_text(key.id) && registrations_of(
        local.poet_registration,
        hex_bytes(key.id),
        round,
    ).len() > 0 {
        Some(
            RegistrationRow {
                id: key.id,
                round_id: registrations_of(
                    local.poet_registration,
                    hex_bytes(key.id),
                    round,
                )[0].round_id,
                num_unit: key.num_units,
            },
        )
    } else {
        None
    }
}

/// The row that a pass writes for `key` and `epoch`: none where the key's
/// identifier is not hexadecimal text or the ledger holds no activation of
/// the node for the epoch; otherwise the node, the units of the key, and the
/// activation.
pub open spec fn activation_found(chain: ChainView, key: KeyView, epoch: i64) -> Option<
    ActivationRow,
> {
    if is_hex_text(key.id) {
        match activation_of(chain.atxs, hex_bytes(key.id), epoch) {
            Some(atx) => Some(ActivationRow { id: key.id, num_unit: key.num_units, atx }),
            None => None,
        }
    } else {
        None
    }
}

/// The registrations that a pass writes for one key: for the running round,
/// then for the next round where the window has one.
pub open spec fn key_registrations(local: LocalView, window: Window, key: KeyView) -> Seq<
    RegistrationRow,
> {
    written(registration_found(local, key, window.current_round)) + match window.next_round {
        Some(round) => written(registration_found(local, key, round)),
        None => Seq::empty(),
    }
}

/// The activations that a pass writes for one key: for the running epoch,
/// then for the next epoch where the window has one.
pub open spec fn key_activations(chain: ChainView, window: Window, key: KeyView) -> Seq<
    ActivationRow,
> {
    written(activation_found(chain, key, window.current_epoch_for_activation))
        + match window.next_epoch {
        Some(epoch) => written(activation_found(chain, key, epoch)),
        None => Seq::empty(),
    }
}

/// The registrations that a pass writes for `keys`, key after key.
pub open spec fn pass_registrations(local: LocalView, window: Window, keys: Seq<KeyView>) -> Seq<
    RegistrationRow,
>
    decreases keys.len(),
{
    if keys.len() == 0 {
        Seq::empty()
    } else {
        pass_registrations(local, window, keys.drop_last()) + key_registrations(
            local,
            window,
            keys.last(),
        )
    }
}

/// The activations that a pass writes for `keys`, key after key.
pub open spec fn pass_activations(chain: ChainView, window: Window, keys: Seq<KeyView>) -> Seq<
    ActivationRow,
>
    decreases keys.len(),
{
    if keys.len() == 0 {
        Seq::empty()
    } else {
        pass_activations(chain, window, keys.drop_last()) + key_activations(
            chain,
            window,
            keys.last(),
        )
    }
}

/// The stores after a pass with `window`: the derived store with the rows of
/// the pass written to it, the two other stores as they were.
pub open spec fn after_pass(db: DBView, window: Window) -> DBView {
    DBView {
        chain: db.chain,
        local: db.local,
        poolstats: CacheView {
            registrations: upsert_all(
                db.poolstats.registrations,
                registration_key(),
                pass_registrations(db.local, window, source_keys(db.local)),
            ),
            activations: upsert_all(
                db.poolstats.activations,
                activation_key(),
                pass_activations(db.chain, window, source_keys(db.local)),
            ),
        },
    }
}

/// What a pass writes for two runs of keys is what it writes for the first,
/// then what it writes for the second.
pub proof fn lemma_pass_concat(
    local: LocalView,
    chain: ChainView,
    window: Window,
    first: Seq<KeyView>,
    second: Seq<KeyView>,
)
    ensures
        pass_registrations(local, window, first + second) == pass_registrations(
            local,
            window,
            first,
        ) + pass_registrations(local, window, second),
        pass_activations(chain, window, first + second) == pass_activations(chain, window, first)
            + pass_activations(chain, window, second),
    decreases second.len(),
{
    if second.len() == 0 {
        assert(first + second =~= first);
        assert(pass_registrations(local, window, first) + Seq::<RegistrationRow>::empty()
            =~= pass_registrations(local, window, first));
        assert(pass_activations(chain, window, first) + Seq::<ActivationRow>::empty()
            =~= pass_activations(chain, window, first));
    } else {
        assert((first + second).drop_last() =~= first + second.drop_last());
        assert((first + second).last() == second.last());
        lemma_pass_concat(local, chain, window, first, second.drop_last());
        let r1 = pass_registrations(local, window, first);
        let r2 = pass_registrations(local, window, second.drop_last());
        let r3 = key_registrations(local, window, second.last());
        assert((r1 + r2) + r3 =~= r1 + (r2 + r3));
        let a1 = pass_activations(chain, window, first);
        let a2 = pass_activations(chain, window, second.drop_last());
        let a3 = key_activations(chain, window, second.last());
        assert((a1 + a2) + a3 =~= a1 + (a2 + a3));
    }
}

impl DBHandler {
    fn sync_registration(&mut self, key: &Key, round: &String)
        requires
            old(self).wf(),
        ensures
            final(self).wf(),
            final(self).chain == old(self).chain,
            final(self).local == old(self).local,
            final(self)@.poolstats.activations == old(self)@.poolstats.activations,
            final(self)@.poolstats.registrations == upsert_all(
                old(self)@.poolstats.registrations,
                registration_key(),
                written(registration_found(old(self).local@, key@, round@)),
            ),
    {
        let ghost rows = self@.poolstats.registrations;
        let ghost found = registration_found(self.local@, key@, round@);
        proof {
            if found is Some {
                lemma_upsert_all_one(rows, registration_key(), found->Some_0);
            } else {
                assert(written(found).len() == 0);
            }
        }
        match self.get_chain_registerations_by_id(key.id.clone(), round.clone()) {
            Ok(registrations) => {
                if registrations.len() > 0 {
                    let first = registrations[0].clone();
                    assert(first@ == view_all(registrations@)[0]);
                    self.save_poet(key.id.clone(), key.num_units, first);
                }
            },
            Err(_) => {},
        }
    }

    fn sync_activation(&mut self, key: &Key, epoch: i64)
        requires
            old(self).wf(),
        ensures
            final(self).wf(),
            final(self).chain == old(self).chain,
            final(self).local == old(self).local,
            final(self)@.poolstats.registrations == old(self)@.poolstats.registrations,
            final(self)@.poolstats.activations == upsert_all(
                old(self)@.poolstats.activations,
                activation_key(),
                written(activation_found(old(self).chain@, key@, epoch)),
            ),
    {
        let ghost rows = self@.poolstats.activations;
        let ghost found = activation_found(self.chain@, key@, epoch);
        proof {
            if found is Some {
                lemma_upsert_all_one(rows, activation_key(), found->Some_0);
            } else {
                assert(written(found).len() == 0);
            }
        }
        match self.get_chain_atxs_by_id(key.id.clone(), epoch) {
            Ok(Some(atx)) => {
                self.save_atx(key.id.clone(), key.num_units, atx);
            },
            Ok(None) => {},
            Err(_) => {},
        }
    }

    /// Brings the derived store up to date for one key. The pool's record of
    /// registrations is asked for the running round and the ledger for the
    /// running epoch, then both for the next round and epoch where the window
    /// has them; whatever is found is written to the derived store. A key
    /// whose identifier cannot be read is passed over.
    pub fn sync_key(&mut self, window: &WindowView, key: &Key)
        requires
            old(self).wf(),
        ensures
            final(self).wf(),
            final(self).chain == old(self).chain,
            final(self).local == old(self).local,
            final(self)@.poolstats.registrations == upsert_all(
                old(self)@.poolstats.registrations,
                registration_key(),
                key_registrations(old(self).local@, window@, key@),
            ),
            final(self)@.poolstats.activations == upsert_all(
                old(self)@.poolstats.activations,
                activation_key(),
                key_activations(old(self).chain@, window@, key@),
            ),
    {
        let ghost regs = self@.poolstats.registrations;
        let ghost acts = self@.poolstats.activations;
        let ghost local = self.local@;
        let ghost chain = self.chain@;
        let ghost r1 = written(registration_found(local, key@, window@.current_round));
        let ghost a1 = written(activation_found(chain, key@, window@.current_epoch_for_activation));
        self.sync_registration(key, &window.current_round);
        self.sync_activation(key, window.current_epoch_for_activation);
        match &window.next_round {
            Some(round) => {
                proof {
                    lemma_upsert_all_append(
                        regs,
                        registration_key(),
                        r1,
                        written(registration_found(local, key@, round@)),
                    );
                }
                self.sync_registration(key, round);
            },
            None => {
                assert(r1 + Seq::<RegistrationRow>::empty() =~= r1);
            },
        }
        match window.next_epoch {
            Some(epoch) => {
                proof {
                    lemma_upsert_all_append(
                        acts,
                        activation_key(),
                        a1,
                        written(activation_found(chain, key@, epoch)),
                    );
                }
                self.sync_activation(key, epoch);
            },
            None => {
                assert(a1 + Seq::<ActivationRow>::empty() =~= a1);
            },
        }
    }

    /// Brings the derived store up to date for the keys of one page, in their order.
    pub fn sync_keys(&mut self, window: &WindowView, keys: &Vec<Key>)
        requires
            old(self).wf(),
        ensures
            final(self).wf(),
            final(self).chain == old(self).chain,
            final(self).local == old(self).local,
            final(self)@.poolstats.registrations == upsert_all(
                old(self)@.poolstats.registrations,
                registration_key(),
                pass_registrations(old(self).local@, window@, view_all(keys@)),
            ),
            final(self)@.poolstats.activations == upsert_all(
                old(self)@.poolstats.activations,
                activation_key(),
                pass_activations(old(self).chain@, window@, view_all(keys@)),
            ),
    {
        let ghost regs = self@.poolstats.registrations;
        let ghost acts = self@.poolstats.activations;
        let ghost local = self.local@;
        let ghost chain = self.chain@;
        let ghost all = view_all(keys@);
        let ghost chain_store = self.chain;
        let ghost local_store = self.local;
        let mut at: usize = 0;
        while at < keys.len()
            invariant
                at <= keys.len(),
                all == view_all(keys@),
                self.wf(),
                self.chain == chain_store,
                self.local == local_store,
                local == self.local@,
                chain == self.chain@,
                self@.poolstats.registrations == upsert_all(
                    regs,
                    registration_key(),
                    pass_registrations(local, window@, all.take(at as int)),
                ),
                self@.poolstats.activations == upsert_all(
                    acts,
                    activation_key(),
                    pass_activations(chain, window@, all.take(at as int)),
                ),
            decreases keys.len() - at,
        {
            let key = &keys[at];
            proof {
                assert(all.take(at + 1).drop_last() =~= all.take(at as int));
                assert(all.take(at + 1).last() == key@);
                lemma_upsert_all_append(
                    regs,
                    registration_key(),
                    pass_registrations(local, window@, all.take(at as int)),
                    key_registrations(local, window@, key@),
                );
                lemma_upsert_all_append(
                    acts,
                    activation_key(),
                    pass_activations(chain, window@, all.take(at as int)),
                    key_activations(chain, window@, key@),
                );
            }
            self.sync_key(window, key);
            at = at + 1;
        }
        assert(all.take(at as int) =~= all);
    }

    /// One pass over all committed keys, read in pages of `page_size`: the
    /// derived store is brought up to date for every key, in the order of the
    /// pool's records. The two other stores are left as they are.
    pub fn sync_pass(&mut self, window: &WindowView, page_size: i64)
        requires
            old(self).wf(),
            page_size >= 1,
        ensures
            final(self).wf(),
            final(self).chain == old(self).chain,
            final(self).local == old(self).local,
            final(self)@ == after_pass(old(self)@, window@),
    {
        let ghost regs = self@.poolstats.registrations;
        let ghost acts = self@.poolstats.activations;
        let ghost local = self.local@;
        let ghost chain = self.chain@;
        let ghost all = source_keys(self.local@);
        let ghost chain_store = self.chain;
        let ghost local_store = self.local;
        let count: i64 = self.count_initialzed();
        let groups: Vec<Range<i64>> = get_range(0..count, page_size);
        let ghost n = groups.len() as int;
        let mut at: usize = 0;
        let ghost mut done: int = 0;
        proof {
            assert(0 * page_size == 0) by (nonlinear_arith);
            assert(all.take(0) =~= Seq::<KeyView>::empty());
        }
        while at < groups.len()
            invariant
                at <= groups.len(),
                n == groups.len(),
                page_size >= 1,
                count == all.len(),
                steps_cover(n, 0, count as int, page_size as int),
                forall|i: int| 0 <= i < groups.len() ==> (#[trigger] groups[i]).start == 0 + i * page_size,
                done == if at * page_size < count {
                    at * page_size
                } else {
                    count as int
                },
                self.wf(),
                self.chain == chain_store,
                self.local == local_store,
                local == self.local@,
                chain == self.chain@,
                all == source_keys(local),
                self@.poolstats.registrations == upsert_all(
                    regs,
                    registration_key(),
                    pass_registrations(local, window@, all.take(done)),
                ),
                self@.poolstats.activations == upsert_all(
                    acts,
                    activation_key(),
                    pass_activations(chain, window@, all.take(done)),
                ),
            decreases groups.len() - at,
        {
            let start: i64 = groups[at].start;
            let ghost next: int = if start + page_size < count {
                start + page_size
            } else {
                count as int
            };
            proof {
                assert(at * page_size <= (n - 1) * page_size) by (nonlinear_arith)
                    requires
                        at <= n - 1,
                        page_size >= 1,
                ;
                assert((at + 1) * page_size == at * page_size + page_size) by (nonlinear_arith);
                assert(start == done);
            }
            let keys: Vec<Key> = self.get_init_keys(page_size, start);
            proof {
                let page = view_all(keys@);
                assert(page == all.subrange(done, next));
                assert(all.take(done) + page =~= all.take(next));
                lemma_pass_concat(local, chain, window@, all.take(done), page);
                lemma_upsert_all_append(
                    regs,
                    registration_key(),
                    pass_registrations(local, window@, all.take(done)),
                    pass_registrations(local, window@, page),
                );
                lemma_upsert_all_append(
                    acts,
                    activation_key(),
                    pass_activations(chain, window@, all.take(done)),
                    pass_activations(chain, window@, page),
                );
            }
            self.sync_keys(window, &keys);
            at = at + 1;
            proof {
                done = next;
            }
        }
        proof {
            assert(n * page_size == (n - 1) * page_size + page_size) by (nonlinear_arith);
            assert(done == count);
            assert(all.take(done) =~= all);
        }
    }
}

/// Where the background task stands.
#[derive(Debug, Clone, Copy, PartialEq, Eq, Structural)]
pub enum SyncState {
    /// Nothing is going on; a pass may start.
    Idle,
    /// A pass is under way.
    Running,
    /// The last pass is over and the next is not yet due.
    Sleeping,
}

/// What has happened since the task last decided.
#[derive(Debug, Clone, Copy, PartialEq, Eq, Structural)]
pub enum SyncEvent {
    /// A pass is asked for.
    Tick,
    /// The node did not tell the epoch and layer; the pass was given up.
    ClockFailed,
    /// The pass went over all keys.
    PassDone,
    /// The time between two passes is over.
    Woke,
}

/// What the task is to do next.
#[derive(Debug, Clone, Copy, PartialEq, Eq, Structural)]
pub enum SyncAction {
    /// Read the clock and run a pass.
    RunPass,
    /// Let `seconds` go by.
    Sleep { seconds: u64 },
    /// Nothing.
    Wait,
}

/// The decisions of the background task. A pass starts only from `Idle`, so
/// no two passes overlap; whether a pass went through or was given up, the
/// task then sleeps for the same time; after that it is idle again.
pub open spec fn transition(state: SyncState, event: SyncEvent) -> (SyncState, SyncAction) {
    match (state, event) {
        (SyncState::Idle, SyncEvent::Tick) => (SyncState::Running, SyncAction::RunPass),
        (SyncState::Running, SyncEvent::ClockFailed) => (
            SyncState::Sleeping,
            SyncAction::Sleep { seconds: SYNC_INTERVAL_SECS },
        ),
        (SyncState::Running, SyncEvent::PassDone) => (
            SyncState::Sleeping,
            SyncAction::Sleep { seconds: SYNC_INTERVAL_SECS },
        ),
        (SyncState::Sleeping, SyncEvent::Woke) => (SyncState::Idle, SyncAction::Wait),
        _ => (state, SyncAction::Wait),
    }
}

/// Decides what the background task does on `event` in `state`.
pub fn next(state: SyncState, event: SyncEvent) -> (decision: (SyncState, SyncAction))
    ensures
        decision == transition(state, event),
{
    match state {
        SyncState::Idle => match event {
            SyncEvent::Tick => (SyncState::Running, SyncAction::RunPass),
            _ => (state, SyncAction::Wait),
        },
        SyncState::Running => match event {
            SyncEvent::ClockFailed => (
                SyncState::Sleeping,
                SyncAction::Sleep { seconds: SYNC_INTERVAL_SECS },
            ),
            SyncEvent::PassDone => (
                SyncState::Sleeping,
                SyncAction::Sleep { seconds: SYNC_INTERVAL_SECS },
            ),
            _ => (state, SyncAction::Wait),
        },
        SyncState::Sleeping => match event {
            SyncEvent::Woke => (SyncState::Idle, SyncAction::Wait),
            _ => (state, SyncAction::Wait),
        },
    }
}

/// Runs one pass on what the clock said. Without a window the pass is given
/// up and nothing is written; with one, all committed keys are gone through
/// in pages of `PAGE_SIZE`.
pub fn run_pass(db: &mut DBHandler, clock: &Result<WindowView, RpcError>) -> (event: SyncEvent)
    requires
        old(db).wf(),
    ensures
        final(db).wf(),
        final(db).chain == old(db).chain,
        final(db).local == old(db).local,
        match clock {
            Ok(window) => event == SyncEvent::PassDone && final(db)@ == after_pass(
                old(db)@,
                window@,
            ),
            Err(_) => event == SyncEvent::ClockFailed && final(db)@ == old(db)@,
        },
{
    match clock {
        Ok(window) => {
            db.sync_pass(window, PAGE_SIZE);
            SyncEvent::PassDone
        },
        Err(_) => SyncEvent::ClockFailed,
    }
}

} // verus!
