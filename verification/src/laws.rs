//! What holds of the monitor as a whole: of passes that are run again, of the
//! count that is reported after a pass, of keys that cannot be read, and of
//! the background task.

use vstd::prelude::*;
use crate::cache::{
    activation_key, in_epoch, in_round, registration_key, ActivationRow, CacheView,
    RegistrationRow,
};
use crate::chain::{
    activation_of, chain_key, registrations_of, source_keys, ChainAtxView, ChainView, LocalView,
    PoetRegistrationView,
};
use crate::decimal::lemma_decimal_text_injective;
use crate::hexcodec::{hex_bytes, is_hex_text, lemma_hex_round_trip, lemma_hex_text_injective};
use crate::keyed::{
    firsts_with, has_key, lemma_count_firsts, lemma_has_key_concat, lemma_latest_in,
    lemma_position, lemma_upsert_all, lemma_upsert_all_idempotent, upsert_all,
};
use crate::poolstats::KeyView;
use crate::sync::{
    activation_found, after_pass, key_activations, key_registrations, lemma_pass_concat,
    pass_activations, pass_registrations, registration_found, transition, written, SyncAction,
    SyncEvent, SyncState, SYNC_INTERVAL_SECS,
};
use crate::window::{window_at, Window};
use crate::DBView;

verus! {

/// The stores after `n` passes with the same window.
pub open spec fn after_passes(db: DBView, window: Window, n: nat) -> DBView
    decreases n,
{
    if n == 0 {
        db
    } else {
        after_pass(after_passes(db, window, (n - 1) as nat), window)
    }
}

/// Whether a pass with `window` looks for registrations of `round`.
pub open spec fn tracks(window: Window, round: Seq<char>) -> bool {
    round == window.current_round || window.next_round == Some(round)
}

/// The nodes that a table of registrations holds for `round`.
pub open spec fn nodes_in(rows: Seq<RegistrationRow>, round: Seq<char>) -> Set<Seq<char>> {
    firsts_with(rows, registration_key(), round)
}

/// The nodes that a table of activations holds for `epoch`.
pub open spec fn active_in(rows: Seq<ActivationRow>, epoch: i64) -> Set<Seq<char>> {
    firsts_with(rows, activation_key(), epoch)
}

/// The nodes among the committed keys for which the pool has recorded a
/// registration for `round`.
pub open spec fn registered_nodes(local: LocalView, round: Seq<char>) -> Set<Seq<char>> {
    Set::new(
        |id: Seq<char>|
            exists|i: int|
                0 <= i < source_keys(local).len() && (#[trigger] source_keys(local)[i]).id == id
                    && registration_found(local, source_keys(local)[i], round) is Some,
    )
}

/// A pass that is run again on the same records and with the same window
/// leaves the derived store as the first run left it, row for row; and a pass
/// keeps the derived store free of repeated nodes.
pub proof fn law_resync_changes_nothing(db: DBView, window: Window)
    requires
        db.poolstats.wf(),
    ensures
        after_pass(db, window).poolstats.wf(),
        after_pass(after_pass(db, window), window) == after_pass(db, window),
{
    let keys = source_keys(db.local);
    let registrations = pass_registrations(db.local, window, keys);
    let activations = pass_activations(db.chain, window, keys);
    lemma_upsert_all(db.poolstats.registrations, registration_key(), registrations);
    lemma_upsert_all(db.poolstats.activations, activation_key(), activations);
    lemma_upsert_all_idempotent(db.poolstats.registrations, registration_key(), registrations);
    lemma_upsert_all_idempotent(
        db.poolstats.activations,
        activation_key(),
        activations,
    );
}

/// Any number of passes, one at least, leaves the stores as one pass does.
pub proof fn law_passes_settle(db: DBView, window: Window, n: nat)
    requires
        db.poolstats.wf(),
        n >= 1,
    ensures
        after_passes(db, window, n) == after_pass(db, window),
    decreases n,
{
    if n == 1 {
        assert(after_passes(db, window, 0) == db);
    } else {
        law_passes_settle(db, window, (n - 1) as nat);
        law_resync_changes_nothing(db, window);
    }
}

/// Every registration found for a node and a round is one of that round.
pub proof fn lemma_registrations_round(rows: Seq<PoetRegistrationView>, id: Seq<u8>, round: Seq<char>)
    ensures
        forall|i: int|
            0 <= i < registrations_of(rows, id, round).len() ==> (#[trigger] registrations_of(
                rows,
                id,
                round,
            )[i]).round_id == round,
    decreases rows.len(),
{
    if rows.len() > 0 {
        lemma_registrations_round(rows.drop_last(), id, round);
        let found = registrations_of(rows, id, round);
        let earlier = registrations_of(rows.drop_last(), id, round);
        assert forall|i: int| 0 <= i < found.len() implies (#[trigger] found[i]).round_id
            == round by {
            if i < earlier.len() {
                assert(found[i] == earlier[i]);
            }
        }
    }
}

/// A pass writes a registration for a node and a round exactly where it
/// looks for that round and one of the committed keys of the node has a
/// registration recorded for it.
pub proof fn lemma_pass_keys(
    local: LocalView,
    window: Window,
    keys: Seq<KeyView>,
    id: Seq<char>,
    round: Seq<char>,
)
    ensures
        has_key(pass_registrations(local, window, keys), registration_key(), (id, round)) <==> (
        tracks(window, round) && exists|i: int|
            0 <= i < keys.len() && (#[trigger] keys[i]).id == id && registration_found(
                local,
                keys[i],
                round,
            ) is Some),
    decreases keys.len(),
{
    let k = (id, round);
    let f = registration_key();
    if keys.len() == 0 {
        assert(!has_key(pass_registrations(local, window, keys), f, k));
    } else {
        let init = keys.drop_last();
        let last = keys.last();
        lemma_pass_keys(local, window, init, id, round);
        let head = pass_registrations(local, window, init);
        let tail = key_registrations(local, window, last);
        lemma_has_key_concat(head, tail, f, k);
        let now = written(registration_found(local, last, window.current_round));
        let then = match window.next_round {
            Some(r) => written(registration_found(local, last, r)),
            None => Seq::empty(),
        };
        lemma_has_key_concat(now, then, f, k);
        if is_hex_text(last.id) {
            lemma_registrations_round(
                local.poet_registration,
                hex_bytes(last.id),
                window.current_round,
            );
            if window.next_round is Some {
                lemma_registrations_round(
                    local.poet_registration,
                    hex_bytes(last.id),
                    window.next_round->Some_0,
                );
            }
        }
        let here = last.id == id && tracks(window, round) && registration_found(
            local,
            last,
            round,
        ) is Some;
        assert(has_key(tail, f, k) <==> here) by {
            if has_key(now, f, k) {
                let i = choose|i: int| 0 <= i < now.len() && f(#[trigger] now[i]) == k;
                assert(now[i] == registration_found(local, last, window.current_round)->Some_0);
            }
            if has_key(then, f, k) {
                let i = choose|i: int| 0 <= i < then.len() && f(#[trigger] then[i]) == k;
                assert(then[i] == registration_found(
                    local,
                    last,
                    window.next_round->Some_0,
                )->Some_0);
            }
            if here {
                if round == window.current_round {
                    assert(f(now[0]) == k);
                } else {
                    assert(f(then[0]) == k);
                }
            }
        }
        let before = exists|i: int|
            0 <= i < init.len() && (#[trigger] init[i]).id == id && registration_found(
                local,
                init[i],
                round,
            ) is Some;
        let all = exists|i: int|
            0 <= i < keys.len() && (#[trigger] keys[i]).id == id && registration_found(
                local,
                keys[i],
                round,
            ) is Some;
        assert(all <==> (before || (last.id == id && registration_found(local, last, round) is Some)))
            by {
            if all {
                let i = choose|i: int|
                    0 <= i < keys.len() && (#[trigger] keys[i]).id == id && registration_found(
                        local,
                        keys[i],
                        round,
                    ) is Some;
                if i < init.len() {
                    assert(init[i] == keys[i]);
                }
            }
            if before {
                let i = choose|i: int|
                    0 <= i < init.len() && (#[trigger] init[i]).id == id && registration_found(
                        local,
                        init[i],
                        round,
                    ) is Some;
                assert(keys[i] == init[i]);
            }
            if last.id == id && registration_found(local, last, round) is Some {
                assert(keys[keys.len() - 1] == last);
            }
        }
    }
}

/// After a pass, and after any number of passes, the count reported for a
/// round that the window tracks is the number of distinct nodes, among the
/// committed keys, for which a registration for that round is recorded,
/// provided that the derived store held no other node for the round before.
pub proof fn law_registered_count(db: DBView, window: Window, round: Seq<char>, n: nat)
    requires
        db.poolstats.wf(),
        tracks(window, round),
        nodes_in(db.poolstats.registrations, round).subset_of(registered_nodes(db.local, round)),
        n >= 1,
    ensures
        registered_nodes(db.local, round).finite(),
        after_pass(db, window).poolstats.registered_count(round) == registered_nodes(
            db.local,
            round,
        ).len(),
        after_passes(db, window, n).poolstats.registered_count(round) == registered_nodes(
            db.local,
            round,
        ).len(),
{
    let keys = source_keys(db.local);
    let batch = pass_registrations(db.local, window, keys);
    let before = db.poolstats.registrations;
    let after = after_pass(db, window).poolstats.registrations;
    lemma_upsert_all(before, registration_key(), batch);
    lemma_count_firsts(after, registration_key(), round, in_round(round));
    assert forall|id: Seq<char>|
        nodes_in(after, round).contains(id) <==> registered_nodes(db.local, round).contains(
            id,
        ) by {
        lemma_pass_keys(db.local, window, keys, id, round);
        if nodes_in(before, round).contains(id) {
            assert(registered_nodes(db.local, round).contains(id));
        }
    }
    assert(nodes_in(after, round) =~= registered_nodes(db.local, round));
    law_passes_settle(db, window, n);
}

/// Whether a pass with `window` looks for activations of `epoch`.
pub open spec fn tracks_epoch(window: Window, epoch: i64) -> bool {
    epoch == window.current_epoch_for_activation || window.next_epoch == Some(epoch)
}

/// The nodes among the committed keys for which the ledger holds an
/// activation for `epoch`.
pub open spec fn active_nodes(db: DBView, epoch: i64) -> Set<Seq<char>> {
    Set::new(
        |id: Seq<char>|
            exists|i: int|
                0 <= i < source_keys(db.local).len() && (#[trigger] source_keys(db.local)[i]).id
                    == id && activation_found(db.chain, source_keys(db.local)[i], epoch) is Some,
    )
}

/// An activation found for a node and an epoch is one of that epoch.
pub proof fn lemma_activation_epoch(rows: Seq<ChainAtxView>, pubkey: Seq<u8>, epoch: i64)
    ensures
        activation_of(rows, pubkey, epoch) matches Some(atx) ==> atx.epoch == epoch,
{
    if has_key(rows, chain_key(), (pubkey, epoch)) {
        lemma_position(rows, chain_key(), (pubkey, epoch));
    }
}

/// A pass writes an activation for a node and an epoch exactly where it looks
/// for that epoch and the ledger holds an activation for one of the committed
/// keys of the node.
pub proof fn lemma_pass_activation_keys(
    chain: ChainView,
    window: Window,
    keys: Seq<KeyView>,
    id: Seq<char>,
    epoch: i64,
)
    ensures
        has_key(pass_activations(chain, window, keys), activation_key(), (id, epoch)) <==> (
        tracks_epoch(window, epoch) && exists|i: int|
            0 <= i < keys.len() && (#[trigger] keys[i]).id == id && activation_found(
                chain,
                keys[i],
                epoch,
            ) is Some),
    decreases keys.len(),
{
    let k = (id, epoch);
    let f = activation_key();
    if keys.len() == 0 {
        assert(!has_key(pass_activations(chain, window, keys), f, k));
    } else {
        let init = keys.drop_last();
        let last = keys.last();
        lemma_pass_activation_keys(chain, window, init, id, epoch);
        let head = pass_activations(chain, window, init);
        let tail = key_activations(chain, window, last);
        lemma_has_key_concat(head, tail, f, k);
        let now = written(activation_found(chain, last, window.current_epoch_for_activation));
        let then = match window.next_epoch {
            Some(e) => written(activation_found(chain, last, e)),
            None => Seq::empty(),
        };
        lemma_has_key_concat(now, then, f, k);
        if is_hex_text(last.id) {
            lemma_activation_epoch(
                chain.atxs,
                hex_bytes(last.id),
                window.current_epoch_for_activation,
            );
            if window.next_epoch is Some {
                lemma_activation_epoch(chain.atxs, hex_bytes(last.id), window.next_epoch->Some_0);
            }
        }
        let here = last.id == id && tracks_epoch(window, epoch) && activation_found(
            chain,
            last,
            epoch,
        ) is Some;
        assert(has_key(tail, f, k) <==> here) by {
            if has_key(now, f, k) {
                let i = choose|i: int| 0 <= i < now.len() && f(#[trigger] now[i]) == k;
                assert(now[i] == activation_found(
                    chain,
                    last,
                    window.current_epoch_for_activation,
                )->Some_0);
            }
            if has_key(then, f, k) {
                let i = choose|i: int| 0 <= i < then.len() && f(#[trigger] then[i]) == k;
                assert(then[i] == activation_found(chain, last, window.next_epoch->Some_0)->Some_0);
            }
            if here {
                if epoch == window.current_epoch_for_activation {
                    assert(f(now[0]) == k);
                } else {
                    assert(f(then[0]) == k);
                }
            }
        }
        let before = exists|i: int|
            0 <= i < init.len() && (#[trigger] init[i]).id == id && activation_found(
                chain,
                init[i],
                epoch,
            ) is Some;
        let all = exists|i: int|
            0 <= i < keys.len() && (#[trigger] keys[i]).id == id && activation_found(
                chain,
                keys[i],
                epoch,
            ) is Some;
        assert(all <==> (before || (last.id == id && activation_found(chain, last, epoch) is Some)))
            by {
            if all {
                let i = choose|i: int|
                    0 <= i < keys.len() && (#[trigger] keys[i]).id == id && activation_found(
                        chain,
                        keys[i],
                        epoch,
                    ) is Some;
                if i < init.len() {
                    assert(init[i] == keys[i]);
                }
            }
            if before {
                let i = choose|i: int|
                    0 <= i < init.len() && (#[trigger] init[i]).id == id && activation_found(
                        chain,
                        init[i],
                        epoch,
                    ) is Some;
                assert(keys[i] == init[i]);
            }
            if last.id == id && activation_found(chain, last, epoch) is Some {
                assert(keys[keys.len() - 1] == last);
            }
        }
    }
}

/// After a pass, and after any number of passes, the count reported for an
/// epoch that the window tracks is the number of distinct nodes, among the
/// committed keys, for which the ledger holds an activation for that epoch,
/// provided that the derived store held no other node for the epoch before.
pub proof fn law_activated_count(db: DBView, window: Window, epoch: i64, n: nat)
    requires
        db.poolstats.wf(),
        tracks_epoch(window, epoch),
        active_in(db.poolstats.activations, epoch).subset_of(active_nodes(db, epoch)),
        n >= 1,
    ensures
        active_nodes(db, epoch).finite(),
        after_pass(db, window).poolstats.activated_count(epoch) == active_nodes(db, epoch).len(),
        after_passes(db, window, n).poolstats.activated_count(epoch) == active_nodes(
            db,
            epoch,
        ).len(),
{
    let keys = source_keys(db.local);
    let batch = pass_activations(db.chain, window, keys);
    let before = db.poolstats.activations;
    let after = after_pass(db, window).poolstats.activations;
    lemma_upsert_all(before, activation_key(), batch);
    lemma_count_firsts(after, activation_key(), epoch, in_epoch(epoch));
    assert forall|id: Seq<char>|
        active_in(after, epoch).contains(id) <==> active_nodes(db, epoch).contains(id) by {
        lemma_pass_activation_keys(db.chain, window, keys, id, epoch);
        if active_in(before, epoch).contains(id) {
            assert(active_nodes(db, epoch).contains(id));
        }
    }
    assert(active_in(after, epoch) =~= active_nodes(db, epoch));
    law_passes_settle(db, window, n);
}

/// Whether a registration row is what the records give for one of the
/// committed keys: the node of the key, a round for which the pool has
/// recorded a registration of the node, and the units of the key.
pub open spec fn registration_backed(local: LocalView, row: RegistrationRow) -> bool {
    exists|i: int|
        0 <= i < source_keys(local).len() && registration_found(
            local,
            #[trigger] source_keys(local)[i],
            row.round_id,
        ) == Some(row)
}

/// Whether an activation row is what the records give for one of the
/// committed keys: the node and units of the key, and the activation that the
/// ledger holds for the node and the row's epoch.
pub open spec fn activation_backed(db: DBView, row: ActivationRow) -> bool {
    exists|i: int|
        0 <= i < source_keys(db.local).len() && activation_found(
            db.chain,
            #[trigger] source_keys(db.local)[i],
            row.atx.epoch,
        ) == Some(row)
}

/// Whether every row of the derived store is borne out by the records.
pub open spec fn store_backed(db: DBView) -> bool {
    &&& forall|j: int|
        0 <= j < db.poolstats.registrations.len() ==> registration_backed(
            db.local,
            #[trigger] db.poolstats.registrations[j],
        )
    &&& forall|j: int|
        0 <= j < db.poolstats.activations.len() ==> activation_backed(
            db,
            #[trigger] db.poolstats.activations[j],
        )
}

proof fn lemma_pass_registration_rows(local: LocalView, window: Window, keys: Seq<KeyView>, j: int)
    requires
        0 <= j < pass_registrations(local, window, keys).len(),
    ensures
        exists|i: int|
            0 <= i < keys.len() && registration_found(
                local,
                #[trigger] keys[i],
                pass_registrations(local, window, keys)[j].round_id,
            ) == Some(pass_registrations(local, window, keys)[j]),
    decreases keys.len(),
{
    let init = keys.drop_last();
    let last = keys.last();
    let head = pass_registrations(local, window, init);
    let row = pass_registrations(local, window, keys)[j];
    if j < head.len() {
        lemma_pass_registration_rows(local, window, init, j);
        let i = choose|i: int|
            0 <= i < init.len() && registration_found(local, #[trigger] init[i], head[j].round_id)
                == Some(head[j]);
        assert(keys[i] == init[i]);
    } else {
        if is_hex_text(last.id) {
            lemma_registrations_round(
                local.poet_registration,
                hex_bytes(last.id),
                window.current_round,
            );
            if window.next_round is Some {
                lemma_registrations_round(
                    local.poet_registration,
                    hex_bytes(last.id),
                    window.next_round->Some_0,
                );
            }
        }
        assert(registration_found(local, keys[keys.len() - 1], row.round_id) == Some(row));
    }
}

proof fn lemma_pass_activation_rows(chain: ChainView, window: Window, keys: Seq<KeyView>, j: int)
    requires
        0 <= j < pass_activations(chain, window, keys).len(),
    ensures
        exists|i: int|
            0 <= i < keys.len() && activation_found(
                chain,
                #[trigger] keys[i],
                pass_activations(chain, window, keys)[j].atx.epoch,
            ) == Some(pass_activations(chain, window, keys)[j]),
    decreases keys.len(),
{
    let init = keys.drop_last();
    let last = keys.last();
    let head = pass_activations(chain, window, init);
    let row = pass_activations(chain, window, keys)[j];
    if j < head.len() {
        lemma_pass_activation_rows(chain, window, init, j);
        let i = choose|i: int|
            0 <= i < init.len() && activation_found(chain, #[trigger] init[i], head[j].atx.epoch)
                == Some(head[j]);
        assert(keys[i] == init[i]);
    } else {
        if is_hex_text(last.id) {
            lemma_activation_epoch(
                chain.atxs,
                hex_bytes(last.id),
                window.current_epoch_for_activation,
            );
            if window.next_epoch is Some {
                lemma_activation_epoch(chain.atxs, hex_bytes(last.id), window.next_epoch->Some_0);
            }
        }
        assert(activation_found(chain, keys[keys.len() - 1], row.atx.epoch) == Some(row));
    }
}

/// A pass writes only what the records bear out: if every row of the derived
/// store is what the records give for a committed key, so is every row after
/// a pass.
pub proof fn law_pass_keeps_store_backed(db: DBView, window: Window)
    requires
        db.poolstats.wf(),
        store_backed(db),
    ensures
        store_backed(after_pass(db, window)),
{
    let keys = source_keys(db.local);
    let after = after_pass(db, window);
    let registrations = pass_registrations(db.local, window, keys);
    let activations = pass_activations(db.chain, window, keys);
    lemma_upsert_all(db.poolstats.registrations, registration_key(), registrations);
    lemma_upsert_all(db.poolstats.activations, activation_key(), activations);
    assert forall|j: int| 0 <= j < after.poolstats.registrations.len() implies registration_backed(
        after.local,
        #[trigger] after.poolstats.registrations[j],
    ) by {
        let row = after.poolstats.registrations[j];
        let k = (registration_key())(row);
        if has_key(registrations, registration_key(), k) {
            let at = lemma_latest_in(registrations, registration_key(), k);
            lemma_pass_registration_rows(db.local, window, keys, at);
        } else {
            assert(row == db.poolstats.registrations[j]);
        }
    }
    assert forall|j: int| 0 <= j < after.poolstats.activations.len() implies activation_backed(
        after,
        #[trigger] after.poolstats.activations[j],
    ) by {
        let row = after.poolstats.activations[j];
        let k = (activation_key())(row);
        if has_key(activations, activation_key(), k) {
            let at = lemma_latest_in(activations, activation_key(), k);
            lemma_pass_activation_rows(db.chain, window, keys, at);
        } else {
            assert(row == db.poolstats.activations[j]);
            assert(activation_backed(db, row));
        }
    }
}

/// After a pass nothing that it looked for is missing: every committed key
/// with a registration recorded for a tracked round has its node kept for the
/// round, and every one with an activation in the ledger for a tracked epoch
/// has its node kept for the epoch.
pub proof fn law_pass_misses_nothing(db: DBView, window: Window, i: int)
    requires
        db.poolstats.wf(),
        0 <= i < source_keys(db.local).len(),
    ensures
        forall|round: Seq<char>|
            tracks(window, round) && registration_found(db.local, source_keys(db.local)[i], round)
                is Some ==> #[trigger] has_key(
                after_pass(db, window).poolstats.registrations,
                registration_key(),
                (source_keys(db.local)[i].id, round),
            ),
        forall|epoch: i64|
            tracks_epoch(window, epoch) && activation_found(
                db.chain,
                source_keys(db.local)[i],
                epoch,
            ) is Some ==> #[trigger] has_key(
                after_pass(db, window).poolstats.activations,
                activation_key(),
                (source_keys(db.local)[i].id, epoch),
            ),
{
    let keys = source_keys(db.local);
    let id = keys[i].id;
    lemma_upsert_all(
        db.poolstats.registrations,
        registration_key(),
        pass_registrations(db.local, window, keys),
    );
    lemma_upsert_all(
        db.poolstats.activations,
        activation_key(),
        pass_activations(db.chain, window, keys),
    );
    assert forall|round: Seq<char>|
        tracks(window, round) && registration_found(db.local, keys[i], round) is Some implies #[trigger] has_key(
        after_pass(db, window).poolstats.registrations,
        registration_key(),
        (id, round),
    ) by {
        lemma_pass_keys(db.local, window, keys, id, round);
    }
    assert forall|epoch: i64|
        tracks_epoch(window, epoch) && activation_found(db.chain, keys[i], epoch)
            is Some implies #[trigger] has_key(
        after_pass(db, window).poolstats.activations,
        activation_key(),
        (id, epoch),
    ) by {
        lemma_pass_activation_keys(db.chain, window, keys, id, epoch);
    }
}

/// A key whose identifier cannot be read takes nothing away from the other
/// keys of its page: the pass writes for them what it writes without it.
pub proof fn law_unreadable_key_is_passed_over(
    local: LocalView,
    chain: ChainView,
    window: Window,
    before: Seq<KeyView>,
    bad: KeyView,
    after: Seq<KeyView>,
)
    requires
        !is_hex_text(bad.id),
    ensures
        pass_registrations(local, window, before + seq![bad] + after) == pass_registrations(
            local,
            window,
            before + after,
        ),
        pass_activations(chain, window, before + seq![bad] + after) == pass_activations(
            chain,
            window,
            before + after,
        ),
{
    let one = seq![bad];
    lemma_pass_concat(local, chain, window, before + one, after);
    lemma_pass_concat(local, chain, window, before, one);
    lemma_pass_concat(local, chain, window, before, after);
    assert(one.drop_last() =~= Seq::<KeyView>::empty());
    assert(pass_registrations(local, window, one.drop_last()).len() == 0);
    assert(pass_activations(chain, window, one.drop_last()).len() == 0);
    assert(key_registrations(local, window, bad).len() == 0);
    assert(key_activations(chain, window, bad).len() == 0);
    assert(pass_registrations(local, window, one) =~= Seq::empty());
    assert(pass_activations(chain, window, one) =~= Seq::empty());
    assert(pass_registrations(local, window, before) + Seq::empty() =~= pass_registrations(
        local,
        window,
        before,
    ));
    assert(pass_activations(chain, window, before) + Seq::empty() =~= pass_activations(
        chain,
        window,
        before,
    ));
}

/// A pass that has come only part of the way leaves a derived store that is
/// as sound as a finished one: after any number of the rows that the pass
/// writes, no node is kept twice for a round or an epoch. Whoever reads the
/// store between two writes reads whole rows of such a store.
pub proof fn law_partial_pass_is_sound(db: DBView, window: Window, written_r: int, written_a: int)
    requires
        db.poolstats.wf(),
        0 <= written_r <= pass_registrations(db.local, window, source_keys(db.local)).len(),
        0 <= written_a <= pass_activations(db.chain, window, source_keys(db.local)).len(),
    ensures
        (CacheView {
            registrations: upsert_all(
                db.poolstats.registrations,
                registration_key(),
                pass_registrations(db.local, window, source_keys(db.local)).take(written_r),
            ),
            activations: upsert_all(
                db.poolstats.activations,
                activation_key(),
                pass_activations(db.chain, window, source_keys(db.local)).take(written_a),
            ),
        }).wf(),
{
    lemma_upsert_all(
        db.poolstats.registrations,
        registration_key(),
        pass_registrations(db.local, window, source_keys(db.local)).take(written_r),
    );
    lemma_upsert_all(
        db.poolstats.activations,
        activation_key(),
        pass_activations(db.chain, window, source_keys(db.local)).take(written_a),
    );
}

/// The next round is never the running round, so what a pass writes for the
/// one is not written over by what it writes for the other.
pub proof fn law_rounds_differ(epoch: i64, layer: i64)
    ensures
        window_at(epoch, layer).next_round != Some(window_at(epoch, layer).current_round),
{
    if window_at(epoch, layer).next_round == Some(window_at(epoch, layer).current_round) {
        lemma_decimal_text_injective(epoch as int, epoch - 1);
    }
}

/// Every committed key can be looked up: its identifier is read back as the
/// bytes of its record, so a pass finds for it what the records hold for
/// those bytes; and two committed keys have the same identifier only where
/// their records have the same bytes.
pub proof fn law_committed_keys_are_read(db: DBView, i: int, j: int, round: Seq<char>, epoch: i64)
    requires
        0 <= i < db.local.initial_post.len(),
        0 <= j < db.local.initial_post.len(),
    ensures
        is_hex_text(source_keys(db.local)[i].id),
        hex_bytes(source_keys(db.local)[i].id) == db.local.initial_post[i].id,
        registration_found(db.local, source_keys(db.local)[i], round) is Some
            <==> registrations_of(
            db.local.poet_registration,
            db.local.initial_post[i].id,
            round,
        ).len() > 0,
        activation_found(db.chain, source_keys(db.local)[i], epoch) is Some <==> activation_of(
            db.chain.atxs,
            db.local.initial_post[i].id,
            epoch,
        ) is Some,
        source_keys(db.local)[i].id == source_keys(db.local)[j].id <==> db.local.initial_post[i].id
            == db.local.initial_post[j].id,
{
    lemma_hex_round_trip(db.local.initial_post[i].id);
    if source_keys(db.local)[i].id == source_keys(db.local)[j].id {
        lemma_hex_text_injective(db.local.initial_post[i].id, db.local.initial_post[j].id);
    }
}

/// The background task goes from idle to running to sleeping and back to
/// idle, sleeps the same time after a pass that went through as after one
/// that was given up, and starts no pass while one is running.
pub proof fn law_task_cycle()
    ensures
        transition(SyncState::Idle, SyncEvent::Tick) == (SyncState::Running, SyncAction::RunPass),
        transition(SyncState::Running, SyncEvent::PassDone) == (
            SyncState::Sleeping,
            SyncAction::Sleep { seconds: SYNC_INTERVAL_SECS },
        ),
        transition(SyncState::Running, SyncEvent::ClockFailed) == transition(
            SyncState::Running,
            SyncEvent::PassDone,
        ),
        transition(SyncState::Sleeping, SyncEvent::Woke) == (SyncState::Idle, SyncAction::Wait),
        forall|state: SyncState|
            state != SyncState::Idle ==> #[trigger] transition(state, SyncEvent::Tick) == (
                state,
                SyncAction::Wait,
            ),
{
}

} // verus!
