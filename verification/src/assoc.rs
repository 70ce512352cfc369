//! Lists of key-value pairs in which no key occurs twice, and the maps they
//! stand for. The storages keep their indexes in such lists.
use vstd::prelude::*;

verus! {

/// The map that a list of pairs stands for: a later pair for a key replaces
/// an earlier one.
pub open spec fn map_of<K, V>(entries: Seq<(K, V)>) -> Map<K, V>
    decreases entries.len(),
{
    if entries.len() == 0 {
        Map::empty()
    } else {
        map_of(entries.drop_last()).insert(entries.last().0, entries.last().1)
    }
}

/// No key occurs twice.
pub open spec fn keys_unique<K, V>(entries: Seq<(K, V)>) -> bool {
    forall|i: int, j: int|
        0 <= i < j < entries.len() ==> #[trigger] entries[i].0 != #[trigger] entries[j].0
}

/// In a list without repeated keys, every pair is in the map and every key
/// of the map comes from a pair.
pub proof fn lemma_map_of_unique<K, V>(entries: Seq<(K, V)>)
    requires
        keys_unique(entries),
    ensures
        forall|i: int|
            0 <= i < entries.len() ==> #[trigger] map_of(entries).contains_key(entries[i].0)
                && map_of(entries)[entries[i].0] == entries[i].1,
        forall|k: K|
            #[trigger] map_of(entries).contains_key(k) ==> exists|i: int|
                0 <= i < entries.len() && #[trigger] entries[i].0 == k,
    decreases entries.len(),
{
    if entries.len() > 0 {
        let init = entries.drop_last();
        assert(keys_unique(init)) by {
            assert forall|i: int, j: int| 0 <= i < j < init.len() implies #[trigger] init[i].0
                != #[trigger] init[j].0 by {
                assert(init[i] == entries[i] && init[j] == entries[j]);
            }
        }
        lemma_map_of_unique(init);
        let last = entries.last();
        assert(!map_of(init).contains_key(last.0)) by {
            if map_of(init).contains_key(last.0) {
                let i = choose|i: int| 0 <= i < init.len() && #[trigger] init[i].0 == last.0;
                assert(entries[i].0 == entries[entries.len() - 1].0);
            }
        }
        assert forall|i: int| 0 <= i < entries.len() implies #[trigger] map_of(
            entries,
        ).contains_key(entries[i].0) && map_of(entries)[entries[i].0] == entries[i].1 by {
            if i < entries.len() - 1 {
                assert(init[i] == entries[i]);
                assert(entries[i].0 != entries[entries.len() - 1].0);
            }
        }
        assert forall|k: K| #[trigger] map_of(entries).contains_key(k) implies exists|i: int|
            0 <= i < entries.len() && #[trigger] entries[i].0 == k by {
            if k != last.0 {
                assert(map_of(init).contains_key(k));
                let i = choose|i: int| 0 <= i < init.len() && #[trigger] init[i].0 == k;
                assert(entries[i] == init[i]);
            } else {
                assert(entries[entries.len() - 1].0 == k);
            }
        }
    }
}

/// A key that no pair has is not in the map.
pub proof fn lemma_absent<K, V>(entries: Seq<(K, V)>, k: K)
    requires
        forall|j: int| 0 <= j < entries.len() ==> #[trigger] entries[j].0 != k,
    ensures
        !map_of(entries).contains_key(k),
        map_of(entries).remove(k) == map_of(entries),
    decreases entries.len(),
{
    if entries.len() > 0 {
        let init = entries.drop_last();
        assert forall|j: int| 0 <= j < init.len() implies #[trigger] init[j].0 != k by {
            assert(init[j] == entries[j]);
        }
        lemma_absent(init, k);
        assert(entries[entries.len() - 1].0 != k);
    }
    assert(map_of(entries).remove(k) =~= map_of(entries));
}

/// Appending a pair for a new key keeps keys unique and inserts the pair.
pub proof fn lemma_push_new<K, V>(entries: Seq<(K, V)>, k: K, v: V)
    requires
        keys_unique(entries),
        forall|j: int| 0 <= j < entries.len() ==> #[trigger] entries[j].0 != k,
    ensures
        keys_unique(entries.push((k, v))),
        map_of(entries.push((k, v))) == map_of(entries).insert(k, v),
{
    let after = entries.push((k, v));
    assert(after.drop_last() =~= entries);
    assert forall|a: int, b: int| 0 <= a < b < after.len() implies #[trigger] after[a].0
        != #[trigger] after[b].0 by {
        assert(after[a] == entries[a]);
        if b < entries.len() {
            assert(after[b] == entries[b]);
        }
    }
}

/// Replacing the value of a pair keeps keys unique and updates the map.
pub proof fn lemma_set_existing<K, V>(entries: Seq<(K, V)>, i: int, k: K, v: V)
    requires
        keys_unique(entries),
        0 <= i < entries.len(),
        entries[i].0 == k,
    ensures
        keys_unique(entries.update(i, (k, v))),
        map_of(entries.update(i, (k, v))) == map_of(entries).insert(k, v),
{
    let after = entries.update(i, (k, v));
    assert forall|a: int, b: int| 0 <= a < b < after.len() implies #[trigger] after[a].0
        != #[trigger] after[b].0 by {
        assert(entries[a].0 != entries[b].0);
    }
    lemma_map_of_unique(entries);
    lemma_map_of_unique(after);
    assert forall|key: K| #[trigger] map_of(after).contains_key(key) implies map_of(
        entries,
    ).insert(k, v).contains_key(key) by {
        let j = choose|j: int| 0 <= j < after.len() && #[trigger] after[j].0 == key;
        if j != i {
            assert(after[j] == entries[j]);
            assert(map_of(entries).contains_key(entries[j].0));
        }
    }
    assert forall|key: K| #[trigger] map_of(entries).insert(k, v).contains_key(key) implies map_of(
        after,
    ).contains_key(key) && map_of(after)[key] == map_of(entries).insert(k, v)[key] by {
        if key == k {
            assert(after[i].0 == key);
            assert(map_of(after).contains_key(after[i].0));
        } else {
            let j = choose|j: int| 0 <= j < entries.len() && #[trigger] entries[j].0 == key;
            assert(j != i);
            assert(after[j] == entries[j]);
            assert(map_of(entries).contains_key(entries[j].0));
            assert(map_of(after).contains_key(after[j].0));
        }
    }
    assert(map_of(after) =~= map_of(entries).insert(k, v));
}

/// Removing a pair by moving the last pair into its place keeps keys unique
/// and removes its key from the map.
pub proof fn lemma_swap_remove<K, V>(entries: Seq<(K, V)>, i: int)
    requires
        keys_unique(entries),
        0 <= i < entries.len(),
    ensures
        keys_unique(entries.update(i, entries.last()).drop_last()),
        map_of(entries.update(i, entries.last()).drop_last()) == map_of(entries).remove(
            entries[i].0,
        ),
{
    let after = entries.update(i, entries.last()).drop_last();
    let n = entries.len();
    assert forall|a: int, b: int| 0 <= a < b < after.len() implies #[trigger] after[a].0
        != #[trigger] after[b].0 by {
        let ia = if a == i {
            n - 1
        } else {
            a
        };
        let ib = if b == i {
            n - 1
        } else {
            b
        };
        assert(after[a] == entries[ia]);
        assert(after[b] == entries[ib]);
        if ia < ib {
            assert(entries[ia].0 != entries[ib].0);
        } else {
            assert(entries[ib].0 != entries[ia].0);
        }
    }
    lemma_map_of_unique(entries);
    lemma_map_of_unique(after);
    let k = entries[i].0;
    assert forall|key: K| #[trigger] map_of(after).contains_key(key) implies map_of(
        entries,
    ).remove(k).contains_key(key) && map_of(after)[key] == map_of(entries)[key] by {
        let j = choose|j: int| 0 <= j < after.len() && #[trigger] after[j].0 == key;
        let ij = if j == i {
            n - 1
        } else {
            j
        };
        assert(after[j] == entries[ij]);
        assert(map_of(entries).contains_key(entries[ij].0));
        assert(map_of(after).contains_key(after[j].0));
        if ij < i {
            assert(entries[ij].0 != entries[i].0);
        } else if ij > i {
            assert(entries[i].0 != entries[ij].0);
        }
    }
    assert forall|key: K| #[trigger] map_of(entries).remove(k).contains_key(key) implies map_of(
        after,
    ).contains_key(key) by {
        let j = choose|j: int| 0 <= j < entries.len() && #[trigger] entries[j].0 == key;
        let aj = if j == n - 1 {
            i
        } else {
            j
        };
        assert(j != i);
        assert(after[aj] == entries[j]);
        assert(map_of(after).contains_key(after[aj].0));
    }
    assert(map_of(after) =~= map_of(entries).remove(k));
}

} // verus!
