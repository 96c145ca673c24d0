//! Lists of entries, each a title with a value, read as maps.

use vstd::prelude::*;

verus! {

/// The titles of the entries, in order.
pub open spec fn keys_of<V>(entries: Seq<(Seq<char>, V)>) -> Seq<Seq<char>> {
    entries.map_values(|e: (Seq<char>, V)| e.0)
}

/// Whether no two entries have the same title.
pub open spec fn distinct_keys<V>(entries: Seq<(Seq<char>, V)>) -> bool {
    forall|i: int, j: int|
        0 <= i < j < entries.len() ==> (#[trigger] entries[i]).0 != (#[trigger] entries[j]).0
}

/// Whether some entry has the title `key`.
pub open spec fn has_key<V>(entries: Seq<(Seq<char>, V)>, key: Seq<char>) -> bool {
    exists|i: int| 0 <= i < entries.len() && (#[trigger] entries[i]).0 == key
}

/// The place of an entry with the title `key`, where there is one.
pub open spec fn place_of<V>(entries: Seq<(Seq<char>, V)>, key: Seq<char>) -> int {
    choose|i: int| 0 <= i < entries.len() && (#[trigger] entries[i]).0 == key
}

/// The value listed under `key`.
pub open spec fn value_of<V>(entries: Seq<(Seq<char>, V)>, key: Seq<char>) -> Option<V> {
    if has_key(entries, key) {
        Some(entries[place_of(entries, key)].1)
    } else {
        None
    }
}

/// The entries with `value` under `key`: in the place where `key` stood, or
/// else at the end.
pub open spec fn put<V>(entries: Seq<(Seq<char>, V)>, key: Seq<char>, value: V) -> Seq<
    (Seq<char>, V),
> {
    if has_key(entries, key) {
        entries.update(place_of(entries, key), (key, value))
    } else {
        entries.push((key, value))
    }
}

/// Among distinct titles, the entry at `i` is the one found under its title.
pub proof fn lemma_place<V>(entries: Seq<(Seq<char>, V)>, i: int)
    requires
        distinct_keys(entries),
        0 <= i < entries.len(),
    ensures
        has_key(entries, entries[i].0),
        place_of(entries, entries[i].0) == i,
        value_of(entries, entries[i].0) == Some(entries[i].1),
{
    let j = place_of(entries, entries[i].0);
    assert(entries[j].0 == entries[i].0);
}

/// `put` keeps the titles distinct, and afterwards `key` leads to `value`
/// and every other title to what it led to before.
pub proof fn lemma_put<V>(entries: Seq<(Seq<char>, V)>, key: Seq<char>, value: V)
    requires
        distinct_keys(entries),
    ensures
        distinct_keys(put(entries, key, value)),
        value_of(put(entries, key, value), key) == Some(value),
        forall|other: Seq<char>|
            other != key ==> #[trigger] value_of(put(entries, key, value), other) == value_of(
                entries,
                other,
            ),
{
    let after = put(entries, key, value);
    if has_key(entries, key) {
        let p = place_of(entries, key);
        assert forall|i: int, j: int| 0 <= i < j < after.len() implies (#[trigger] after[i]).0 != (
        #[trigger] after[j]).0 by {
            assert(entries[i].0 != entries[j].0);
        }
        lemma_place(after, p);
        assert forall|other: Seq<char>| other != key implies #[trigger] value_of(after, other)
            == value_of(entries, other) by {
            if has_key(entries, other) {
                let q = place_of(entries, other);
                assert(after[q] == entries[q]);
                lemma_place(after, q);
            } else if has_key(after, other) {
                let q = place_of(after, other);
                assert(entries[q].0 == other);
            }
        }
    } else {
        let n = entries.len() as int;
        assert forall|i: int, j: int| 0 <= i < j < after.len() implies (#[trigger] after[i]).0 != (
        #[trigger] after[j]).0 by {
            if j < n {
                assert(entries[i].0 != entries[j].0);
            } else {
                assert(after[i] == entries[i]);
            }
        }
        lemma_place(after, n);
        assert forall|other: Seq<char>| other != key implies #[trigger] value_of(after, other)
            == value_of(entries, other) by {
            if has_key(entries, other) {
                let q = place_of(entries, other);
                assert(after[q] == entries[q]);
                lemma_place(after, q);
            } else if has_key(after, other) {
                let q = place_of(after, other);
                assert(entries[q].0 == other);
            }
        }
    }
}

/// `put` changes one entry or adds one: every entry afterwards is the new
/// one or one that was there before, in its place.
pub proof fn lemma_put_entries<V>(entries: Seq<(Seq<char>, V)>, key: Seq<char>, value: V)
    ensures
        has_key(put(entries, key, value), key),
        forall|i: int|
            0 <= i < put(entries, key, value).len() ==> {
                ||| (#[trigger] put(entries, key, value)[i]) == (key, value)
                ||| (i < entries.len() && put(entries, key, value)[i] == entries[i])
            },
        forall|i: int|
            0 <= i < entries.len() ==> {
                ||| (#[trigger] entries[i]).0 == key
                ||| put(entries, key, value)[i] == entries[i]
            },
        put(entries, key, value).len() >= entries.len(),
{
    let after = put(entries, key, value);
    if has_key(entries, key) {
        let p = place_of(entries, key);
        assert(after[p].0 == key);
    } else {
        assert(after[entries.len() as int].0 == key);
    }
}

} // verus!
