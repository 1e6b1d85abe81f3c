//! Rows of a table read as a map from key to value.
//!
//! A table is a sequence of rows in which no key occurs twice. The lemmas of
//! this module say what pushing, replacing and removing a row does to the map
//! that the rows stand for.
use vstd::prelude::*;

verus! {

/// Some row of `rows` has the key `k`.
pub open spec fn has_key<R, K>(rows: Seq<R>, key: spec_fn(R) -> K, k: K) -> bool {
    exists|i: int| 0 <= i < rows.len() && #[trigger] key(rows[i]) == k
}

/// The index of a row with the key `k`.
pub open spec fn index_of<R, K>(rows: Seq<R>, key: spec_fn(R) -> K, k: K) -> int {
    choose|i: int| 0 <= i < rows.len() && #[trigger] key(rows[i]) == k
}

/// No two rows have the same key.
pub open spec fn unique_keys<R, K>(rows: Seq<R>, key: spec_fn(R) -> K) -> bool {
    forall|i: int, j: int|
        0 <= i < rows.len() && 0 <= j < rows.len() && #[trigger] key(rows[i]) == #[trigger] key(
            rows[j],
        ) ==> i == j
}

/// The map from each row's key to its value.
pub open spec fn as_map<R, K, V>(rows: Seq<R>, key: spec_fn(R) -> K, val: spec_fn(R) -> V) -> Map<
    K,
    V,
> {
    Map::new(|k: K| has_key(rows, key, k), |k: K| val(rows[index_of(rows, key, k)]))
}

/// What the map holds at the key of row `i`.
pub proof fn lemma_row<R, K, V>(
    rows: Seq<R>,
    key: spec_fn(R) -> K,
    val: spec_fn(R) -> V,
    i: int,
)
    requires
        unique_keys(rows, key),
        0 <= i < rows.len(),
    ensures
        as_map(rows, key, val).contains_key(key(rows[i])),
        as_map(rows, key, val)[key(rows[i])] == val(rows[i]),
        index_of(rows, key, key(rows[i])) == i,
{
    let k = key(rows[i]);
    assert(has_key(rows, key, k));
    let j = index_of(rows, key, k);
    assert(0 <= j < rows.len() && key(rows[j]) == k);
}

/// A key that the map holds belongs to some row.
pub proof fn lemma_find<R, K, V>(
    rows: Seq<R>,
    key: spec_fn(R) -> K,
    val: spec_fn(R) -> V,
    k: K,
) -> (i: int)
    requires
        as_map(rows, key, val).contains_key(k),
    ensures
        0 <= i < rows.len(),
        key(rows[i]) == k,
        as_map(rows, key, val)[k] == val(rows[i]),
        i == index_of(rows, key, k),
{
    assert(has_key(rows, key, k));
    index_of(rows, key, k)
}

/// No row has the key `k` iff the map does not hold it.
pub proof fn lemma_absent<R, K, V>(
    rows: Seq<R>,
    key: spec_fn(R) -> K,
    val: spec_fn(R) -> V,
    k: K,
)
    ensures
        as_map(rows, key, val).contains_key(k) <==> has_key(rows, key, k),
        (forall|i: int| 0 <= i < rows.len() ==> #[trigger] key(rows[i]) != k) ==> !as_map(
            rows,
            key,
            val,
        ).contains_key(k),
{
}

/// The empty table is the empty map.
pub proof fn lemma_empty<R, K, V>(key: spec_fn(R) -> K, val: spec_fn(R) -> V)
    ensures
        unique_keys(Seq::<R>::empty(), key),
        as_map(Seq::<R>::empty(), key, val) == Map::<K, V>::empty(),
{
    assert(as_map(Seq::<R>::empty(), key, val) =~= Map::<K, V>::empty());
}

/// Pushing a row with a new key inserts it into the map.
pub proof fn lemma_push<R, K, V>(
    rows: Seq<R>,
    key: spec_fn(R) -> K,
    val: spec_fn(R) -> V,
    r: R,
)
    requires
        unique_keys(rows, key),
        !has_key(rows, key, key(r)),
    ensures
        unique_keys(rows.push(r), key),
        as_map(rows.push(r), key, val) == as_map(rows, key, val).insert(key(r), val(r)),
{
    let ext = rows.push(r);
    let n = rows.len() as int;
    assert forall|i: int, j: int|
        0 <= i < ext.len() && 0 <= j < ext.len() && #[trigger] key(ext[i]) == #[trigger] key(
            ext[j],
        ) implies i == j by {
        if i < n && j < n {
            assert(ext[i] == rows[i] && ext[j] == rows[j]);
        } else if i < n {
            assert(ext[i] == rows[i]);
            assert(key(rows[i]) == key(r));
        } else if j < n {
            assert(ext[j] == rows[j]);
            assert(key(rows[j]) == key(r));
        }
    }
    let a = as_map(ext, key, val);
    let b = as_map(rows, key, val).insert(key(r), val(r));
    assert forall|k: K| a.contains_key(k) <==> b.contains_key(k) by {
        if a.contains_key(k) {
            let i = lemma_find(ext, key, val, k);
            if i < n {
                assert(ext[i] == rows[i]);
                assert(has_key(rows, key, k));
            }
        }
        if b.contains_key(k) {
            if k == key(r) {
                assert(key(ext[n]) == k);
            } else {
                let i = lemma_find(rows, key, val, k);
                assert(ext[i] == rows[i]);
                assert(key(ext[i]) == k);
            }
        }
    }
    assert forall|k: K| a.contains_key(k) implies a[k] == b[k] by {
        let i = lemma_find(ext, key, val, k);
        if i < n {
            assert(ext[i] == rows[i]);
            lemma_row(rows, key, val, i);
        } else {
            assert(ext[i] == r);
        }
    }
    assert(a =~= b);
}

/// Replacing row `i` by a row with the same key replaces its value in the map.
pub proof fn lemma_update<R, K, V>(
    rows: Seq<R>,
    key: spec_fn(R) -> K,
    val: spec_fn(R) -> V,
    i: int,
    r: R,
)
    requires
        unique_keys(rows, key),
        0 <= i < rows.len(),
        key(r) == key(rows[i]),
    ensures
        unique_keys(rows.update(i, r), key),
        as_map(rows.update(i, r), key, val) == as_map(rows, key, val).insert(key(r), val(r)),
{
    let upd = rows.update(i, r);
    assert forall|a: int, b: int|
        0 <= a < upd.len() && 0 <= b < upd.len() && #[trigger] key(upd[a]) == #[trigger] key(
            upd[b],
        ) implies a == b by {
        assert(key(upd[a]) == key(rows[a]));
        assert(key(upd[b]) == key(rows[b]));
    }
    let ma = as_map(upd, key, val);
    let mb = as_map(rows, key, val).insert(key(r), val(r));
    assert forall|k: K| ma.contains_key(k) <==> mb.contains_key(k) by {
        if ma.contains_key(k) {
            let j = lemma_find(upd, key, val, k);
            assert(key(upd[j]) == key(rows[j]));
            assert(has_key(rows, key, k));
        }
        if mb.contains_key(k) {
            if k == key(r) {
                assert(key(upd[i]) == k);
            } else {
                let j = lemma_find(rows, key, val, k);
                assert(key(upd[j]) == k);
            }
        }
    }
    assert forall|k: K| ma.contains_key(k) implies ma[k] == mb[k] by {
        let j = lemma_find(upd, key, val, k);
        if j != i {
            assert(upd[j] == rows[j]);
            lemma_row(rows, key, val, j);
        }
    }
    assert(ma =~= mb);
}

/// Removing row `i` removes its key from the map.
pub proof fn lemma_remove<R, K, V>(
    rows: Seq<R>,
    key: spec_fn(R) -> K,
    val: spec_fn(R) -> V,
    i: int,
)
    requires
        unique_keys(rows, key),
        0 <= i < rows.len(),
    ensures
        unique_keys(rows.remove(i), key),
        as_map(rows.remove(i), key, val) == as_map(rows, key, val).remove(key(rows[i])),
{
    let rem = rows.remove(i);
    assert forall|a: int| 0 <= a < rem.len() implies #[trigger] rem[a] == rows[if a < i {
        a
    } else {
        a + 1
    }] by {}
    assert forall|a: int, b: int|
        0 <= a < rem.len() && 0 <= b < rem.len() && #[trigger] key(rem[a]) == #[trigger] key(
            rem[b],
        ) implies a == b by {
        let a2 = if a < i { a } else { a + 1 };
        let b2 = if b < i { b } else { b + 1 };
        assert(rem[a] == rows[a2] && rem[b] == rows[b2]);
        assert(key(rows[a2]) == key(rows[b2]));
    }
    let ma = as_map(rem, key, val);
    let mb = as_map(rows, key, val).remove(key(rows[i]));
    assert forall|k: K| ma.contains_key(k) <==> mb.contains_key(k) by {
        if ma.contains_key(k) {
            let j = lemma_find(rem, key, val, k);
            let j2 = if j < i { j } else { j + 1 };
            assert(rem[j] == rows[j2]);
            assert(key(rows[j2]) == k);
            assert(has_key(rows, key, k));
        }
        if mb.contains_key(k) {
            let j = lemma_find(rows, key, val, k);
            let j2 = if j < i { j } else { j - 1 };
            assert(rem[j2] == rows[j]);
            assert(key(rem[j2]) == k);
        }
    }
    assert forall|k: K| ma.contains_key(k) implies ma[k] == mb[k] by {
        let j = lemma_find(rem, key, val, k);
        let j2 = if j < i { j } else { j + 1 };
        assert(rem[j] == rows[j2]);
        lemma_row(rows, key, val, j2);
    }
    assert(ma =~= mb);
}

/// The map of a table has as many keys as the table has rows.
pub proof fn lemma_len<R, K, V>(rows: Seq<R>, key: spec_fn(R) -> K, val: spec_fn(R) -> V)
    requires
        unique_keys(rows, key),
    ensures
        as_map(rows, key, val).dom().finite(),
        as_map(rows, key, val).dom().len() == rows.len(),
    decreases rows.len(),
{
    if rows.len() == 0 {
        assert(as_map(rows, key, val).dom() =~= Set::<K>::empty());
    } else {
        let n = rows.len() - 1;
        let init = rows.drop_last();
        let r = rows[n];
        assert(rows =~= init.push(r));
        assert forall|i: int, j: int|
            0 <= i < init.len() && 0 <= j < init.len() && #[trigger] key(init[i]) == #[trigger] key(
                init[j],
            ) implies i == j by {
            assert(init[i] == rows[i] && init[j] == rows[j]);
        }
        if has_key(init, key, key(r)) {
            let i = choose|i: int| 0 <= i < init.len() && #[trigger] key(init[i]) == key(r);
            assert(init[i] == rows[i]);
            assert(key(rows[i]) == key(rows[n]));
        }
        lemma_len(init, key, val);
        lemma_push(init, key, val, r);
        assert(as_map(rows, key, val).dom() =~= as_map(init, key, val).dom().insert(key(r)));
    }
}

} // verus!
