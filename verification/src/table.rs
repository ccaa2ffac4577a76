//! Tables as association lists.
//!
//! A table is a vector of `(key, value)` entries. A key is looked up by its
//! text; the first entry that carries it counts. Tables built by this crate
//! never hold a key twice, which [`distinct_keys`] states.
//!
//! The specifications speak of a table as a sequence of `(text, value)`
//! pairs; [`by_text`] gives that sequence for the entries of a vector.

use vstd::prelude::*;

verus! {

/// The entries with each key replaced by its text.
pub open spec fn by_text<V>(entries: Seq<(String, V)>) -> Seq<(Seq<char>, V)> {
    Seq::new(entries.len(), |i: int| (entries[i].0@, entries[i].1))
}

/// Some entry of `entries` is stored under `key`.
pub open spec fn has_key<V>(entries: Seq<(Seq<char>, V)>, key: Seq<char>) -> bool {
    exists|i: int| 0 <= i < entries.len() && (#[trigger] entries[i]).0 == key
}

/// Entry `i` is the first one stored under `key`.
pub open spec fn is_first<V>(entries: Seq<(Seq<char>, V)>, key: Seq<char>, i: int) -> bool {
    &&& 0 <= i < entries.len()
    &&& entries[i].0 == key
    &&& forall|j: int| 0 <= j < i ==> (#[trigger] entries[j]).0 != key
}

/// The position of the first entry stored under `key`; arbitrary when there
/// is none.
pub open spec fn first_index<V>(entries: Seq<(Seq<char>, V)>, key: Seq<char>) -> int {
    choose|i: int| is_first(entries, key, i)
}

/// What a lookup of `key` finds.
pub open spec fn value_of<V>(entries: Seq<(Seq<char>, V)>, key: Seq<char>) -> Option<V> {
    if has_key(entries, key) {
        Some(entries[first_index(entries, key)].1)
    } else {
        None
    }
}

/// No key occurs twice.
pub open spec fn distinct_keys<V>(entries: Seq<(Seq<char>, V)>) -> bool {
    forall|i: int, j: int|
        0 <= i < j < entries.len() ==> (#[trigger] entries[i]).0 != (#[trigger] entries[j]).0
}

/// The keys in entry order.
pub open spec fn keys<V>(entries: Seq<(Seq<char>, V)>) -> Seq<Seq<char>> {
    Seq::new(entries.len(), |i: int| entries[i].0)
}

/// The table as a mathematical map from key to value.
pub open spec fn as_map<V>(entries: Seq<(Seq<char>, V)>) -> Map<Seq<char>, V> {
    Map::new(
        |k: Seq<char>| has_key(entries, k),
        |k: Seq<char>| entries[first_index(entries, k)].1,
    )
}

/// The table after `value` has been stored under `key`, as a map stores it:
/// the first entry under the key gets the new value and keeps its place;
/// without such an entry a new one is appended.
pub open spec fn with_entry<V>(entries: Seq<(Seq<char>, V)>, key: Seq<char>, value: V) -> Seq<
    (Seq<char>, V),
> {
    if has_key(entries, key) {
        entries.update(first_index(entries, key), (key, value))
    } else {
        entries.push((key, value))
    }
}

/// A key that is present has a first entry, and `first_index` names it.
pub proof fn lemma_first_index<V>(entries: Seq<(Seq<char>, V)>, key: Seq<char>)
    requires
        has_key(entries, key),
    ensures
        is_first(entries, key, first_index(entries, key)),
{
    let i = choose|i: int| 0 <= i < entries.len() && (#[trigger] entries[i]).0 == key;
    lemma_first_below(entries, key, i);
}

proof fn lemma_first_below<V>(entries: Seq<(Seq<char>, V)>, key: Seq<char>, i: int)
    requires
        0 <= i < entries.len(),
        entries[i].0 == key,
    ensures
        exists|f: int| is_first(entries, key, f),
    decreases i,
{
    if forall|j: int| 0 <= j < i ==> (#[trigger] entries[j]).0 != key {
        assert(is_first(entries, key, i));
    } else {
        let j = choose|j: int| 0 <= j < i && (#[trigger] entries[j]).0 == key;
        lemma_first_below(entries, key, j);
    }
}

/// There is only one first entry.
pub proof fn lemma_first_unique<V>(entries: Seq<(Seq<char>, V)>, key: Seq<char>, i: int, j: int)
    requires
        is_first(entries, key, i),
        is_first(entries, key, j),
    ensures
        i == j,
{
    if i < j {
        assert(entries[i].0 == key);
    } else if j < i {
        assert(entries[j].0 == key);
    }
}

/// In a table without repeated keys every entry is the first of its key.
pub proof fn lemma_distinct_first<V>(entries: Seq<(Seq<char>, V)>, i: int)
    requires
        distinct_keys(entries),
        0 <= i < entries.len(),
    ensures
        is_first(entries, entries[i].0, i),
        has_key(entries, entries[i].0),
        first_index(entries, entries[i].0) == i,
        value_of(entries, entries[i].0) == Some(entries[i].1),
{
    assert(is_first(entries, entries[i].0, i));
    lemma_first_index(entries, entries[i].0);
    lemma_first_unique(entries, entries[i].0, i, first_index(entries, entries[i].0));
}

/// Storing a value keeps the keys distinct and changes the map at that key
/// only.
pub proof fn lemma_with_entry<V>(entries: Seq<(Seq<char>, V)>, key: Seq<char>, value: V)
    ensures
        distinct_keys(entries) ==> distinct_keys(with_entry(entries, key, value)),
        as_map(with_entry(entries, key, value)) == as_map(entries).insert(key, value),
        has_key(entries, key) ==> keys(with_entry(entries, key, value)) == keys(entries),
        !has_key(entries, key) ==> keys(with_entry(entries, key, value)) == keys(entries).push(
            key,
        ),
{
    let after = with_entry(entries, key, value);
    let n = entries.len() as int;
    if has_key(entries, key) {
        lemma_first_index(entries, key);
        let i = first_index(entries, key);
        assert(keys(after) =~= keys(entries));
        assert forall|k: Seq<char>| has_key(after, k) == has_key(entries, k) by {
            if has_key(entries, k) {
                let j = choose|j: int| 0 <= j < entries.len() && (#[trigger] entries[j]).0 == k;
                assert(after[j].0 == k);
            }
            if has_key(after, k) {
                let j = choose|j: int| 0 <= j < after.len() && (#[trigger] after[j]).0 == k;
                assert(entries[j].0 == k);
            }
        }
        assert forall|k: Seq<char>, f: int| is_first(after, k, f) == is_first(entries, k, f) by {
            if is_first(entries, k, f) {
                assert forall|j: int| 0 <= j < f implies (#[trigger] after[j]).0 != k by {
                    assert(entries[j].0 != k);
                }
            }
            if is_first(after, k, f) {
                assert forall|j: int| 0 <= j < f implies (#[trigger] entries[j]).0 != k by {
                    assert(after[j].0 != k);
                }
            }
        }
        assert forall|k: Seq<char>| has_key(after, k) implies #[trigger] as_map(after)[k]
            == as_map(entries).insert(key, value)[k] by {
            lemma_first_index(after, k);
            lemma_first_index(entries, k);
            let f = first_index(after, k);
            lemma_first_unique(entries, k, f, first_index(entries, k));
            if k == key {
                lemma_first_unique(entries, k, f, i);
            }
        }
        assert(as_map(after) =~= as_map(entries).insert(key, value));
        if distinct_keys(entries) {
            assert forall|a: int, b: int| 0 <= a < b < after.len() implies (#[trigger] after[a]).0
                != (#[trigger] after[b]).0 by {
                assert(entries[a].0 != entries[b].0);
            }
        }
    } else {
        assert(keys(after) =~= keys(entries).push(key));
        assert(after[n].0 == key);
        assert forall|k: Seq<char>| has_key(after, k) == (has_key(entries, k) || k == key) by {
            if has_key(entries, k) {
                let j = choose|j: int| 0 <= j < entries.len() && (#[trigger] entries[j]).0 == k;
                assert(after[j].0 == k);
            }
            if has_key(after, k) {
                let j = choose|j: int| 0 <= j < after.len() && (#[trigger] after[j]).0 == k;
                if j < n {
                    assert(entries[j].0 == k);
                }
            }
        }
        assert forall|k: Seq<char>| has_key(after, k) implies #[trigger] as_map(after)[k]
            == as_map(entries).insert(key, value)[k] by {
            lemma_first_index(after, k);
            let f = first_index(after, k);
            if k == key {
                if f < n {
                    assert(entries[f].0 == k);
                }
            } else {
                lemma_first_index(entries, k);
                let g = first_index(entries, k);
                assert(is_first(after, k, g)) by {
                    assert(after[g] == entries[g]);
                    assert forall|j: int| 0 <= j < g implies (#[trigger] after[j]).0 != k by {
                        assert(entries[j].0 != k);
                    }
                }
                lemma_first_unique(after, k, f, g);
            }
        }
        assert(as_map(after) =~= as_map(entries).insert(key, value));
        if distinct_keys(entries) {
            assert forall|a: int, b: int| 0 <= a < b < after.len() implies (#[trigger] after[a]).0
                != (#[trigger] after[b]).0 by {
                if b < n {
                    assert(entries[a].0 != entries[b].0);
                } else {
                    assert(entries[a].0 != key);
                }
            }
        }
    }
}

/// Looks `key` up: the position of its first entry, or `None` when no entry
/// carries it.
pub fn find<V>(entries: &Vec<(String, V)>, key: &String) -> (found: Option<usize>)
    ensures
        match found {
            Some(i) => is_first(by_text(entries@), key@, i as int),
            None => !has_key(by_text(entries@), key@),
        },
{
    let mut i: usize = 0;
    while i < entries.len()
        invariant
            i <= entries.len(),
            forall|j: int| 0 <= j < i ==> (#[trigger] by_text(entries@)[j]).0 != key@,
        decreases entries.len() - i,
    {
        if entries[i].0 == *key {
            assert(by_text(entries@)[i as int].0 == key@);
            return Some(i);
        }
        assert(by_text(entries@)[i as int].0 != key@);
        i += 1;
    }
    None
}

/// Stores `value` under `key`, as a map does: the first entry that carries
/// the key gets the new value and keeps its place; without such an entry a
/// new one is appended.
pub fn put<V>(entries: &mut Vec<(String, V)>, key: String, value: V)
    ensures
        by_text(final(entries)@) == with_entry(by_text(old(entries)@), key@, value),
{
    let ghost before = by_text(entries@);
    match find(entries, &key) {
        Some(i) => {
            proof {
                lemma_first_index(before, key@);
                lemma_first_unique(before, key@, i as int, first_index(before, key@));
            }
            entries[i].1 = value;
            assert(by_text(entries@) =~= before.update(i as int, (key@, value)));
        },
        None => {
            entries.push((key, value));
            assert(by_text(entries@) =~= before.push((key@, value)));
        },
    }
}

} // verus!
