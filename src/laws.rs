//! Laws that hold across calls of the store's operations, stated over the
//! spec functions that the operations' own contracts use.

use vstd::prelude::*;
use crate::table::{
    has_key, index_of, inserted_if_absent, keys_unique, lemma_index_of_unique, lookup, removed,
    upserted, RowView,
};

verus! {

/// Exactly one row of `s` has key `k`.
pub open spec fn single_row(s: Seq<RowView>, k: Seq<char>) -> bool {
    &&& has_key(s, k)
    &&& forall|i: int, j: int|
        0 <= i < s.len() && 0 <= j < s.len() && s[i].0 == k && s[j].0 == k ==> i == j
}

/// The rows after registering `ids[n]` at `paths[n]` for each `n` in turn,
/// each with insert-or-ignore, starting from `s`.
pub open spec fn registered_all(s: Seq<RowView>, ids: Seq<Seq<char>>, paths: Seq<Seq<char>>) -> Seq<RowView>
    decreases ids.len(),
{
    if ids.len() == 0 {
        s
    } else {
        inserted_if_absent(
            registered_all(s, ids.drop_last(), paths),
            ids.last(),
            paths[ids.len() - 1],
        )
    }
}

/// Insert-or-overwrite keeps keys unique and leaves `k` holding `v`.
proof fn lemma_upserted(s: Seq<RowView>, k: Seq<char>, v: Seq<char>)
    requires
        keys_unique(s),
    ensures
        keys_unique(upserted(s, k, v)),
        lookup(upserted(s, k, v), k) == Some(v),
{
    let t = upserted(s, k, v);
    if has_key(s, k) {
        let i = index_of(s, k);
        assert(s[i].0 == k);
        assert(keys_unique(t));
        lemma_index_of_unique(t, i);
    } else {
        assert(keys_unique(t));
        lemma_index_of_unique(t, s.len() as int);
    }
}

/// Insert-or-ignore keeps keys unique; an absent key is added with `v`, a
/// present one keeps its row.
proof fn lemma_inserted_if_absent(s: Seq<RowView>, k: Seq<char>, v: Seq<char>)
    requires
        keys_unique(s),
    ensures
        keys_unique(inserted_if_absent(s, k, v)),
        has_key(inserted_if_absent(s, k, v), k),
        !has_key(s, k) ==> lookup(inserted_if_absent(s, k, v), k) == Some(v),
        !has_key(s, k) ==> inserted_if_absent(s, k, v).len() == s.len() + 1,
        has_key(s, k) ==> inserted_if_absent(s, k, v) == s,
        forall|x: Seq<char>| x != k ==> (has_key(inserted_if_absent(s, k, v), x) <==> has_key(s, x)),
{
    let t = inserted_if_absent(s, k, v);
    if !has_key(s, k) {
        assert(keys_unique(t));
        lemma_index_of_unique(t, s.len() as int);
        assert forall|x: Seq<char>| x != k implies (has_key(t, x) <==> has_key(s, x)) by {
            if has_key(t, x) {
                let i = index_of(t, x);
                assert(t[i].0 == x);
                assert(i < s.len());
                assert(s[i].0 == x);
            }
            if has_key(s, x) {
                let i = index_of(s, x);
                assert(t[i].0 == x);
            }
        }
    }
}

/// After a setting is written, reading it back gives the value written.
pub proof fn lemma_update_then_get(s: Seq<RowView>, key: Seq<char>, value: Seq<char>)
    requires
        keys_unique(s),
    ensures
        lookup(upserted(s, key, value), key) == Some(value),
{
    lemma_upserted(s, key, value);
}

/// Writing a setting twice leaves the second value, held by one row only:
/// the second write overwrites, it does not add a row.
pub proof fn lemma_update_twice(s: Seq<RowView>, key: Seq<char>, value1: Seq<char>, value2: Seq<char>)
    requires
        keys_unique(s),
    ensures
        lookup(upserted(upserted(s, key, value1), key, value2), key) == Some(value2),
        single_row(upserted(upserted(s, key, value1), key, value2), key),
{
    lemma_upserted(s, key, value1);
    let t = upserted(s, key, value1);
    lemma_upserted(t, key, value2);
    let u = upserted(t, key, value2);
    let i = index_of(u, key);
    assert(u[i].0 == key);
}

/// Deleting an unknown setting changes nothing: the key stays absent.
pub proof fn lemma_delete_unknown(s: Seq<RowView>, key: Seq<char>)
    requires
        keys_unique(s),
        lookup(s, key) is None,
    ensures
        removed(s, key) == s,
        lookup(removed(s, key), key) is None,
{
}

/// Registering an id twice keeps the first path: the second registration is
/// ignored, unlike a second write of a setting.
pub proof fn lemma_first_registration_wins(
    s: Seq<RowView>,
    id: Seq<char>,
    path1: Seq<char>,
    path2: Seq<char>,
)
    requires
        keys_unique(s),
        lookup(s, id) is None,
    ensures
        lookup(inserted_if_absent(inserted_if_absent(s, id, path1), id, path2), id) == Some(path1),
{
    lemma_inserted_if_absent(s, id, path1);
    lemma_inserted_if_absent(inserted_if_absent(s, id, path1), id, path2);
}

/// Registering an id that is already registered leaves the count as it was.
pub proof fn lemma_reregister_keeps_count(s: Seq<RowView>, id: Seq<char>, path: Seq<char>)
    requires
        keys_unique(s),
        has_key(s, id),
    ensures
        inserted_if_absent(s, id, path).len() == s.len(),
{
}

/// Registering distinct ids on an empty registry: the ids are exactly those
/// registered, and the count is their number.
proof fn lemma_registered_distinct(ids: Seq<Seq<char>>, paths: Seq<Seq<char>>)
    requires
        ids.no_duplicates(),
        paths.len() >= ids.len(),
    ensures
        keys_unique(registered_all(Seq::empty(), ids, paths)),
        registered_all(Seq::empty(), ids, paths).len() == ids.len(),
        forall|x: Seq<char>| has_key(registered_all(Seq::empty(), ids, paths), x) <==> ids.contains(x),
    decreases ids.len(),
{
    let e = Seq::<RowView>::empty();
    if ids.len() == 0 {
        assert forall|x: Seq<char>| has_key(e, x) <==> ids.contains(x) by {}
    } else {
        let front = ids.drop_last();
        assert(front.no_duplicates());
        lemma_registered_distinct(front, paths);
        let t = registered_all(e, front, paths);
        let k = ids.last();
        assert(!front.contains(k)) by {
            if front.contains(k) {
                let j = choose|j: int| 0 <= j < front.len() && front[j] == k;
                assert(ids[j] == ids[ids.len() - 1]);
            }
        }
        lemma_inserted_if_absent(t, k, paths[ids.len() - 1]);
        assert forall|x: Seq<char>|
            has_key(registered_all(e, ids, paths), x) <==> ids.contains(x) by {
            if x != k {
                assert(ids.contains(x) ==> front.contains(x)) by {
                    if ids.contains(x) {
                        let j = choose|j: int| 0 <= j < ids.len() && ids[j] == x;
                        assert(front[j] == x);
                    }
                }
                assert(front.contains(x) ==> ids.contains(x)) by {
                    if front.contains(x) {
                        let j = choose|j: int| 0 <= j < front.len() && front[j] == x;
                        assert(ids[j] == x);
                    }
                }
            } else {
                assert(ids[ids.len() - 1] == x);
            }
        }
    }
}

/// After registering `n` distinct ids on an empty registry, the registry
/// holds `n` engines.
pub proof fn lemma_count_after_distinct(ids: Seq<Seq<char>>, paths: Seq<Seq<char>>)
    requires
        ids.no_duplicates(),
        paths.len() == ids.len(),
    ensures
        registered_all(Seq::empty(), ids, paths).len() == ids.len(),
{
    lemma_registered_distinct(ids, paths);
}

} // verus!
