//! Rows that are found by a key, and what it means to write a row over the
//! one that has its key.
//!
//! A table here is a sequence of rows and a function that gives each row its
//! key. Writing a row replaces the row with the same key where there is one,
//! and adds the row at the end where there is none, so a table in which no
//! key occurs twice stays such a table.

use vstd::prelude::*;

verus! {

/// Whether some row of the table has the key `k`.
pub open spec fn has_key<R, K>(rows: Seq<R>, key: spec_fn(R) -> K, k: K) -> bool {
    exists|i: int| 0 <= i < rows.len() && key(#[trigger] rows[i]) == k
}

/// Whether `i` is the place of the first row with the key `k`.
pub open spec fn is_first<R, K>(rows: Seq<R>, key: spec_fn(R) -> K, k: K, i: int) -> bool {
    &&& 0 <= i < rows.len()
    &&& key(rows[i]) == k
    &&& forall|j: int| 0 <= j < i ==> key(#[trigger] rows[j]) != k
}

/// The place of the first row with the key `k`, where there is one.
pub open spec fn position<R, K>(rows: Seq<R>, key: spec_fn(R) -> K, k: K) -> int {
    choose|i: int| is_first(rows, key, k, i)
}

/// No key occurs in two rows.
pub open spec fn distinct_keys<R, K>(rows: Seq<R>, key: spec_fn(R) -> K) -> bool {
    forall|i: int, j: int|
        0 <= i < j < rows.len() ==> key(#[trigger] rows[i]) != key(#[trigger] rows[j])
}

/// The table after `row` was written: over the first row with its key, or at the end.
pub open spec fn upsert<R, K>(rows: Seq<R>, key: spec_fn(R) -> K, row: R) -> Seq<R> {
    if has_key(rows, key, key(row)) {
        rows.update(position(rows, key, key(row)), row)
    } else {
        rows.push(row)
    }
}

/// The table after the rows of `batch` were written one after the other.
pub open spec fn upsert_all<R, K>(rows: Seq<R>, key: spec_fn(R) -> K, batch: Seq<R>) -> Seq<R>
    decreases batch.len(),
{
    if batch.len() == 0 {
        rows
    } else {
        upsert(upsert_all(rows, key, batch.drop_last()), key, batch.last())
    }
}

/// The last row of `batch` with the key `k`, where there is one.
pub open spec fn latest<R, K>(batch: Seq<R>, key: spec_fn(R) -> K, k: K) -> R
    decreases batch.len(),
{
    if batch.len() == 0 {
        arbitrary()
    } else if key(batch.last()) == k {
        batch.last()
    } else {
        latest(batch.drop_last(), key, k)
    }
}

proof fn lemma_first_exists<R, K>(rows: Seq<R>, key: spec_fn(R) -> K, k: K, at: int)
    requires
        0 <= at < rows.len(),
        key(rows[at]) == k,
    ensures
        exists|i: int| is_first(rows, key, k, i),
    decreases at,
{
    if forall|j: int| 0 <= j < at ==> key(#[trigger] rows[j]) != k {
        assert(is_first(rows, key, k, at));
    } else {
        let j = choose|j: int| 0 <= j < at && key(#[trigger] rows[j]) == k;
        lemma_first_exists(rows, key, k, j);
    }
}

/// Where a key occurs, `position` names its first row.
pub proof fn lemma_position<R, K>(rows: Seq<R>, key: spec_fn(R) -> K, k: K)
    requires
        has_key(rows, key, k),
    ensures
        is_first(rows, key, k, position(rows, key, k)),
{
    let at = choose|i: int| 0 <= i < rows.len() && key(#[trigger] rows[i]) == k;
    lemma_first_exists(rows, key, k, at);
}

/// What writing one row does to a table without repeated keys.
pub proof fn lemma_upsert<R, K>(rows: Seq<R>, key: spec_fn(R) -> K, row: R)
    requires
        distinct_keys(rows, key),
    ensures
        distinct_keys(upsert(rows, key, row), key),
        has_key(upsert(rows, key, row), key, key(row)),
        upsert(rows, key, row).len() == rows.len() + if has_key(rows, key, key(row)) {
            0int
        } else {
            1int
        },
        forall|i: int|
            0 <= i < rows.len() ==> key(#[trigger] upsert(rows, key, row)[i]) == key(rows[i]),
        forall|i: int|
            0 <= i < rows.len() && key(rows[i]) != key(row) ==> #[trigger] upsert(
                rows,
                key,
                row,
            )[i] == rows[i],
        forall|i: int|
            0 <= i < upsert(rows, key, row).len() && key(#[trigger] upsert(rows, key, row)[i])
                == key(row) ==> upsert(rows, key, row)[i] == row,
        forall|k: K|
            has_key(upsert(rows, key, row), key, k) <==> (has_key(rows, key, k) || k == key(row)),
{
    let after = upsert(rows, key, row);
    let k0 = key(row);
    if has_key(rows, key, k0) {
        lemma_position(rows, key, k0);
        let p = position(rows, key, k0);
        assert(after[p] == row);
        assert forall|i: int, j: int| 0 <= i < j < after.len() implies key(#[trigger] after[i])
            != key(#[trigger] after[j]) by {
            assert(key(rows[i]) != key(rows[j]));
        }
        assert forall|i: int| 0 <= i < after.len() && key(#[trigger] after[i]) == k0 implies after[i]
            == row by {
            if i != p {
                if i < p {
                    assert(key(rows[i]) != key(rows[p]));
                } else {
                    assert(key(rows[p]) != key(rows[i]));
                }
            }
        }
        assert forall|k: K| has_key(after, key, k) <==> (has_key(rows, key, k) || k == k0) by {
            if has_key(after, key, k) {
                let i = choose|i: int| 0 <= i < after.len() && key(#[trigger] after[i]) == k;
                assert(key(rows[i]) == k);
            }
            if has_key(rows, key, k) {
                let i = choose|i: int| 0 <= i < rows.len() && key(#[trigger] rows[i]) == k;
                assert(key(after[i]) == k);
            }
            if k == k0 {
                assert(key(after[p]) == k);
            }
        }
    } else {
        let last = rows.len() as int;
        assert(after[last] == row);
        assert forall|i: int, j: int| 0 <= i < j < after.len() implies key(#[trigger] after[i])
            != key(#[trigger] after[j]) by {
            if j < last {
                assert(key(rows[i]) != key(rows[j]));
            } else {
                assert(after[i] == rows[i]);
            }
        }
        assert forall|i: int| 0 <= i < after.len() && key(#[trigger] after[i]) == k0 implies after[i]
            == row by {
            if i < last {
                assert(after[i] == rows[i]);
            }
        }
        assert forall|k: K| has_key(after, key, k) <==> (has_key(rows, key, k) || k == k0) by {
            if has_key(after, key, k) {
                let i = choose|i: int| 0 <= i < after.len() && key(#[trigger] after[i]) == k;
                if i < last {
                    assert(after[i] == rows[i]);
                }
            }
            if has_key(rows, key, k) {
                let i = choose|i: int| 0 <= i < rows.len() && key(#[trigger] rows[i]) == k;
                assert(after[i] == rows[i]);
            }
            if k == k0 {
                assert(key(after[last]) == k);
            }
        }
    }
}

/// Writing two batches one after the other is writing them as one.
pub proof fn lemma_upsert_all_append<R, K>(
    rows: Seq<R>,
    key: spec_fn(R) -> K,
    first: Seq<R>,
    second: Seq<R>,
)
    ensures
        upsert_all(rows, key, first + second) == upsert_all(
            upsert_all(rows, key, first),
            key,
            second,
        ),
    decreases second.len(),
{
    if second.len() == 0 {
        assert(first + second =~= first);
    } else {
        assert((first + second).drop_last() =~= first + second.drop_last());
        assert((first + second).last() == second.last());
        lemma_upsert_all_append(rows, key, first, second.drop_last());
    }
}

/// Writing a batch of one row is writing the row.
pub proof fn lemma_upsert_all_one<R, K>(rows: Seq<R>, key: spec_fn(R) -> K, row: R)
    ensures
        upsert_all(rows, key, seq![row]) == upsert(rows, key, row),
{
    let batch = seq![row];
    assert(batch.drop_last() =~= Seq::<R>::empty());
    assert(upsert_all(rows, key, batch.drop_last()) == rows);
}

/// What writing a batch does to a table without repeated keys: the rows that
/// were there keep their places and their keys; a row whose key the batch
/// holds is the last row of the batch with that key; every other row is as it
/// was; and the keys are those of the table and of the batch.
pub proof fn lemma_upsert_all<R, K>(rows: Seq<R>, key: spec_fn(R) -> K, batch: Seq<R>)
    requires
        distinct_keys(rows, key),
    ensures
        distinct_keys(upsert_all(rows, key, batch), key),
        upsert_all(rows, key, batch).len() >= rows.len(),
        forall|i: int|
            0 <= i < rows.len() ==> key(#[trigger] upsert_all(rows, key, batch)[i]) == key(rows[i]),
        forall|k: K|
            has_key(upsert_all(rows, key, batch), key, k) <==> (has_key(rows, key, k) || has_key(
                batch,
                key,
                k,
            )),
        forall|i: int|
            0 <= i < upsert_all(rows, key, batch).len() ==> #[trigger] upsert_all(
                rows,
                key,
                batch,
            )[i] == if has_key(batch, key, key(upsert_all(rows, key, batch)[i])) {
                latest(batch, key, key(upsert_all(rows, key, batch)[i]))
            } else {
                rows[i]
            },
        forall|i: int|
            0 <= i < upsert_all(rows, key, batch).len() && !has_key(
                batch,
                key,
                key(#[trigger] upsert_all(rows, key, batch)[i]),
            ) ==> i < rows.len(),
        (forall|k: K| has_key(batch, key, k) ==> has_key(rows, key, k)) ==> upsert_all(
            rows,
            key,
            batch,
        ).len() == rows.len(),
    decreases batch.len(),
{
    let after = upsert_all(rows, key, batch);
    if batch.len() == 0 {
        assert forall|k: K| !has_key(batch, key, k) by {}
    } else {
        let init = batch.drop_last();
        let row = batch.last();
        let mid = upsert_all(rows, key, init);
        lemma_upsert_all(rows, key, init);
        lemma_upsert(mid, key, row);
        assert(after == upsert(mid, key, row));
        assert forall|k: K| has_key(batch, key, k) <==> (has_key(init, key, k) || k == key(row)) by {
            if has_key(batch, key, k) {
                let i = choose|i: int| 0 <= i < batch.len() && key(#[trigger] batch[i]) == k;
                if i < init.len() {
                    assert(init[i] == batch[i]);
                }
            }
            if has_key(init, key, k) {
                let i = choose|i: int| 0 <= i < init.len() && key(#[trigger] init[i]) == k;
                assert(batch[i] == init[i]);
            }
            if k == key(row) {
                assert(key(batch[batch.len() - 1]) == k);
            }
        }
        assert forall|i: int| 0 <= i < rows.len() implies key(#[trigger] after[i]) == key(
            rows[i],
        ) by {
            assert(key(mid[i]) == key(rows[i]));
        }
        assert forall|i: int| 0 <= i < after.len() implies #[trigger] after[i] == if has_key(
            batch,
            key,
            key(after[i]),
        ) {
            latest(batch, key, key(after[i]))
        } else {
            rows[i]
        } by {
            let k = key(after[i]);
            if k == key(row) {
                assert(after[i] == row);
            } else {
                assert(i < mid.len());
                assert(after[i] == mid[i]);
                assert(key(mid[i]) == k);
                assert(latest(batch, key, k) == latest(init, key, k));
            }
        }
        assert forall|i: int|
            0 <= i < after.len() && !has_key(batch, key, key(#[trigger] after[i])) implies i
            < rows.len() by {
            let k = key(after[i]);
            assert(k != key(row));
            assert(i < mid.len());
            assert(key(mid[i]) == k);
        }
        if forall|k: K| has_key(batch, key, k) ==> has_key(rows, key, k) {
            assert forall|k: K| has_key(init, key, k) implies has_key(rows, key, k) by {
                assert(has_key(batch, key, k));
            }
            assert(has_key(batch, key, key(row)));
            assert(has_key(mid, key, key(row)));
        }
    }
}

/// Writing a batch a second time changes nothing.
pub proof fn lemma_upsert_all_idempotent<R, K>(rows: Seq<R>, key: spec_fn(R) -> K, batch: Seq<R>)
    requires
        distinct_keys(rows, key),
    ensures
        upsert_all(upsert_all(rows, key, batch), key, batch) == upsert_all(rows, key, batch),
{
    let once = upsert_all(rows, key, batch);
    let twice = upsert_all(once, key, batch);
    lemma_upsert_all(rows, key, batch);
    lemma_upsert_all(once, key, batch);
    assert(twice.len() == once.len());
    assert forall|i: int| 0 <= i < once.len() implies twice[i] == once[i] by {
        assert(key(twice[i]) == key(once[i]));
    }
    assert(twice =~= once);
}

/// A key has one first row.
pub proof fn lemma_first_unique<R, K>(rows: Seq<R>, key: spec_fn(R) -> K, k: K, i: int, j: int)
    requires
        is_first(rows, key, k, i),
        is_first(rows, key, k, j),
    ensures
        i == j,
{
    if i < j {
        assert(key(rows[i]) != k);
    } else if j < i {
        assert(key(rows[j]) != k);
    }
}

/// How many rows of the table are picked.
pub open spec fn count_of<R>(rows: Seq<R>, pick: spec_fn(R) -> bool) -> nat
    decreases rows.len(),
{
    if rows.len() == 0 {
        0
    } else {
        count_of(rows.drop_last(), pick) + if pick(rows.last()) {
            1nat
        } else {
            0nat
        }
    }
}

/// The sum of `amount` over the picked rows of the table.
pub open spec fn total_of<R>(rows: Seq<R>, pick: spec_fn(R) -> bool, amount: spec_fn(R) -> int) -> int
    decreases rows.len(),
{
    if rows.len() == 0 {
        0
    } else {
        total_of(rows.drop_last(), pick, amount) + if pick(rows.last()) {
            amount(rows.last())
        } else {
            0int
        }
    }
}

/// A key occurs in two tables put together where it occurs in one of them.
pub proof fn lemma_has_key_concat<R, K>(first: Seq<R>, second: Seq<R>, key: spec_fn(R) -> K, k: K)
    ensures
        has_key(first + second, key, k) <==> (has_key(first, key, k) || has_key(second, key, k)),
{
    let both = first + second;
    if has_key(both, key, k) {
        let i = choose|i: int| 0 <= i < both.len() && key(#[trigger] both[i]) == k;
        if i < first.len() {
            assert(key(first[i]) == k);
        } else {
            assert(key(second[i - first.len()]) == k);
        }
    }
    if has_key(first, key, k) {
        let i = choose|i: int| 0 <= i < first.len() && key(#[trigger] first[i]) == k;
        assert(key(both[i]) == k);
    }
    if has_key(second, key, k) {
        let i = choose|i: int| 0 <= i < second.len() && key(#[trigger] second[i]) == k;
        assert(key(both[first.len() + i]) == k);
    }
}

/// Where a key occurs in a batch, the last row with it is a row of the batch.
pub proof fn lemma_latest_in<R, K>(batch: Seq<R>, key: spec_fn(R) -> K, k: K) -> (at: int)
    requires
        has_key(batch, key, k),
    ensures
        0 <= at < batch.len(),
        batch[at] == latest(batch, key, k),
        key(batch[at]) == k,
    decreases batch.len(),
{
    if key(batch.last()) == k {
        batch.len() - 1
    } else {
        let i = choose|i: int| 0 <= i < batch.len() && key(#[trigger] batch[i]) == k;
        assert(batch.drop_last()[i] == batch[i]);
        let at = lemma_latest_in(batch.drop_last(), key, k);
        assert(batch.drop_last()[at] == batch[at]);
        at
    }
}

/// For keys made of two parts: the first parts of the keys whose second part is `second`.
pub open spec fn firsts_with<R, A, B>(rows: Seq<R>, key: spec_fn(R) -> (A, B), second: B) -> Set<A> {
    Set::new(|first: A| has_key(rows, key, (first, second)))
}

/// In a table without repeated keys, the rows whose key has the second part
/// `second` are as many as the first parts that go with it.
pub proof fn lemma_count_firsts<R, A, B>(
    rows: Seq<R>,
    key: spec_fn(R) -> (A, B),
    second: B,
    pick: spec_fn(R) -> bool,
)
    requires
        distinct_keys(rows, key),
        forall|row: R| #[trigger] pick(row) == (key(row).1 == second),
    ensures
        firsts_with(rows, key, second).finite(),
        firsts_with(rows, key, second).len() == count_of(rows, pick),
    decreases rows.len(),
{
    if rows.len() == 0 {
        assert(firsts_with(rows, key, second) =~= Set::<A>::empty());
    } else {
        let init = rows.drop_last();
        let last = rows.last();
        assert forall|i: int, j: int| 0 <= i < j < init.len() implies key(#[trigger] init[i]) != key(
            #[trigger] init[j],
        ) by {
            assert(init[i] == rows[i] && init[j] == rows[j]);
        }
        lemma_count_firsts(init, key, second, pick);
        assert(rows =~= init + seq![last]);
        assert forall|first: A|
            has_key(rows, key, (first, second)) <==> (has_key(init, key, (first, second)) || key(
                last,
            ) == (first, second)) by {
            lemma_has_key_concat(init, seq![last], key, (first, second));
            if has_key(seq![last], key, (first, second)) {
                let i = choose|i: int|
                    0 <= i < seq![last].len() && key(#[trigger] seq![last][i]) == (first, second);
                assert(seq![last][i] == last);
            }
            if key(last) == (first, second) {
                assert(key(seq![last][0]) == (first, second));
            }
        }
        if key(last).1 == second {
            let first = key(last).0;
            if has_key(init, key, (first, second)) {
                let i = choose|i: int| 0 <= i < init.len() && key(#[trigger] init[i]) == (
                    first,
                    second,
                );
                assert(key(rows[i]) != key(rows[rows.len() - 1]));
            }
            assert(firsts_with(rows, key, second) =~= firsts_with(init, key, second).insert(first));
        } else {
            assert(firsts_with(rows, key, second) =~= firsts_with(init, key, second));
        }
    }
}

} // verus!
