//! Spec-level association sequences: the hub's registry, its presence set and
//! the login correlator all hold their entries in insertion order and are
//! specified as the finite map those entries denote. The lemmas here relate
//! the sequence operations the executable code performs (push, update in
//! place, remove at an index) to `insert` and `remove` on the denoted map.

use vstd::prelude::*;

verus! {

/// The map denoted by an association sequence of (key, value) pairs; a later
/// pair with the same key wins.
pub open spec fn map_of<V>(rows: Seq<(Seq<char>, V)>) -> Map<Seq<char>, V>
    decreases rows.len(),
{
    if rows.len() == 0 {
        Map::empty()
    } else {
        map_of(rows.drop_last()).insert(rows.last().0, rows.last().1)
    }
}

/// Some pair of `rows` carries the key `k`.
pub open spec fn has_key<V>(rows: Seq<(Seq<char>, V)>, k: Seq<char>) -> bool {
    exists|i: int| 0 <= i < rows.len() && rows[i].0 == k
}

/// No two pairs of `rows` share a key.
pub open spec fn distinct_keys<V>(rows: Seq<(Seq<char>, V)>) -> bool {
    forall|i: int, j: int| 0 <= i < j < rows.len() ==> rows[i].0 != rows[j].0
}

/// The domain of the denoted map is exactly the set of keys of the rows.
pub proof fn lemma_dom<V>(rows: Seq<(Seq<char>, V)>)
    ensures
        forall|k: Seq<char>| #[trigger] map_of(rows).dom().contains(k) <==> has_key(rows, k),
    decreases rows.len(),
{
    if rows.len() > 0 {
        lemma_dom(rows.drop_last());
        assert forall|k: Seq<char>| #[trigger] map_of(rows).dom().contains(k) <==> has_key(
            rows,
            k,
        ) by {
            if map_of(rows).dom().contains(k) {
                if k == rows.last().0 {
                    assert(rows[rows.len() - 1].0 == k);
                } else {
                    assert(map_of(rows.drop_last()).dom().contains(k));
                    assert(has_key(rows.drop_last(), k));
                    let i = choose|i: int| 0 <= i < rows.drop_last().len() && rows.drop_last()[i].0
                        == k;
                    assert(rows.drop_last()[i] == rows[i]);
                    assert(rows[i].0 == k);
                }
            }
            if has_key(rows, k) {
                let i = choose|i: int| 0 <= i < rows.len() && rows[i].0 == k;
                if i < rows.len() - 1 {
                    assert(rows.drop_last()[i].0 == k);
                    assert(has_key(rows.drop_last(), k));
                    assert(map_of(rows.drop_last()).dom().contains(k));
                    assert(map_of(rows).dom().contains(k));
                } else {
                    assert(k == rows.last().0);
                    assert(map_of(rows).dom().contains(k));
                }
            }
        }
    }
}

/// On distinct keys, the denoted map sends each row's key to that row's value.
pub proof fn lemma_index<V>(rows: Seq<(Seq<char>, V)>, i: int)
    requires
        distinct_keys(rows),
        0 <= i < rows.len(),
    ensures
        map_of(rows).dom().contains(rows[i].0),
        map_of(rows)[rows[i].0] == rows[i].1,
    decreases rows.len(),
{
    if i < rows.len() - 1 {
        assert(distinct_keys(rows.drop_last())) by {
            assert forall|p: int, q: int|
                0 <= p < q < rows.drop_last().len() implies rows.drop_last()[p].0
                != rows.drop_last()[q].0 by {
                assert(rows[p].0 != rows[q].0);
            }
        }
        lemma_index(rows.drop_last(), i);
        assert(rows.drop_last()[i] == rows[i]);
        assert(rows[i].0 != rows.last().0);
    }
}

/// Appending a pair inserts its binding.
pub proof fn lemma_push<V>(rows: Seq<(Seq<char>, V)>, k: Seq<char>, v: V)
    ensures
        map_of(rows.push((k, v))) == map_of(rows).insert(k, v),
{
    assert(rows.push((k, v)).drop_last() =~= rows);
}

/// A key no row carries is outside the denoted map, and removing it changes
/// nothing.
pub proof fn lemma_absent<V>(rows: Seq<(Seq<char>, V)>, k: Seq<char>)
    requires
        !has_key(rows, k),
    ensures
        !map_of(rows).dom().contains(k),
        map_of(rows).remove(k) == map_of(rows),
{
    lemma_dom(rows);
    assert(map_of(rows).remove(k) =~= map_of(rows));
}

/// Overwriting the value at index `i` in place inserts the new binding.
pub proof fn lemma_update<V>(rows: Seq<(Seq<char>, V)>, i: int, v: V)
    requires
        distinct_keys(rows),
        0 <= i < rows.len(),
    ensures
        map_of(rows.update(i, (rows[i].0, v))) == map_of(rows).insert(rows[i].0, v),
    decreases rows.len(),
{
    let updated = rows.update(i, (rows[i].0, v));
    if i == rows.len() - 1 {
        assert(updated.drop_last() =~= rows.drop_last());
        assert(map_of(updated) =~= map_of(rows).insert(rows[i].0, v));
    } else {
        assert(distinct_keys(rows.drop_last())) by {
            assert forall|p: int, q: int|
                0 <= p < q < rows.drop_last().len() implies rows.drop_last()[p].0
                != rows.drop_last()[q].0 by {
                assert(rows[p].0 != rows[q].0);
            }
        }
        assert(updated.drop_last() =~= rows.drop_last().update(i, (rows[i].0, v)));
        assert(rows.drop_last()[i] == rows[i]);
        lemma_update(rows.drop_last(), i, v);
        assert(rows[i].0 != rows.last().0);
        assert(map_of(updated) =~= map_of(rows).insert(rows[i].0, v));
    }
}

/// Removing the row at index `i` removes its binding.
pub proof fn lemma_remove<V>(rows: Seq<(Seq<char>, V)>, i: int)
    requires
        distinct_keys(rows),
        0 <= i < rows.len(),
    ensures
        map_of(rows.remove(i)) == map_of(rows).remove(rows[i].0),
    decreases rows.len(),
{
    if i == rows.len() - 1 {
        assert(rows.remove(i) =~= rows.drop_last());
        assert(!has_key(rows.drop_last(), rows[i].0)) by {
            if has_key(rows.drop_last(), rows[i].0) {
                let j = choose|j: int|
                    0 <= j < rows.drop_last().len() && rows.drop_last()[j].0 == rows[i].0;
                assert(rows[j].0 == rows[i].0);
            }
        }
        lemma_absent(rows.drop_last(), rows[i].0);
        assert(map_of(rows.remove(i)) =~= map_of(rows).remove(rows[i].0));
    } else {
        assert(distinct_keys(rows.drop_last())) by {
            assert forall|p: int, q: int|
                0 <= p < q < rows.drop_last().len() implies rows.drop_last()[p].0
                != rows.drop_last()[q].0 by {
                assert(rows[p].0 != rows[q].0);
            }
        }
        assert(rows.drop_last()[i] == rows[i]);
        lemma_remove(rows.drop_last(), i);
        assert(rows.remove(i).drop_last() =~= rows.drop_last().remove(i));
        assert(rows.remove(i).last() == rows.last());
        assert(rows[i].0 != rows.last().0);
        assert(map_of(rows.remove(i)) =~= map_of(rows).remove(rows[i].0));
    }
}

} // verus!
