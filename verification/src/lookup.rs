//! Lists of entries under text keys, searched from the front.

use vstd::prelude::*;

verus! {

/// The index of the first entry with the key `key`; the number of entries
/// if there is none.
pub open spec fn key_position<T>(entries: Seq<(Seq<char>, T)>, key: Seq<char>) -> int
    decreases entries.len(),
{
    if entries.len() == 0 {
        0
    } else if entries[0].0 == key {
        0
    } else {
        1 + key_position(entries.drop_first(), key)
    }
}

/// What the first entry with the key `key` holds.
pub open spec fn lookup<T>(entries: Seq<(Seq<char>, T)>, key: Seq<char>) -> Option<T> {
    let at = key_position(entries, key);
    if 0 <= at < entries.len() {
        Some(entries[at].1)
    } else {
        None
    }
}

/// No two entries have the same key.
pub open spec fn distinct_keys<T>(entries: Seq<(Seq<char>, T)>) -> bool {
    forall|i: int, j: int|
        0 <= i < j < entries.len() ==> (#[trigger] entries[i]).0 != (#[trigger] entries[j]).0
}

/// Where the key is found, it is found at an entry that holds it, and no
/// earlier entry does.
pub proof fn lemma_key_position<T>(entries: Seq<(Seq<char>, T)>, key: Seq<char>)
    ensures
        0 <= key_position(entries, key) <= entries.len(),
        key_position(entries, key) < entries.len() ==> entries[key_position(entries, key)].0 == key,
        forall|i: int| 0 <= i < key_position(entries, key) ==> (#[trigger] entries[i]).0 != key,
    decreases entries.len(),
{
    if entries.len() > 0 && entries[0].0 != key {
        let rest = entries.drop_first();
        lemma_key_position(rest, key);
        assert forall|i: int| 0 <= i < key_position(entries, key) implies (#[trigger] entries[i]).0
            != key by {
            if i > 0 {
                assert(entries[i] == rest[i - 1]);
            }
        }
    }
}

/// The first index that holds the key is its position.
pub proof fn lemma_key_position_is<T>(entries: Seq<(Seq<char>, T)>, key: Seq<char>, at: int)
    requires
        0 <= at <= entries.len(),
        forall|i: int| 0 <= i < at ==> (#[trigger] entries[i]).0 != key,
        at < entries.len() ==> entries[at].0 == key,
    ensures
        key_position(entries, key) == at,
    decreases entries.len(),
{
    if entries.len() > 0 {
        if at == 0 {
        } else {
            assert(entries[0].0 != key);
            let rest = entries.drop_first();
            assert forall|i: int| 0 <= i < at - 1 implies (#[trigger] rest[i]).0 != key by {
                assert(rest[i] == entries[i + 1]);
            }
            lemma_key_position_is(rest, key, at - 1);
        }
    }
}

/// Replacing the value of one entry changes no lookup of another key.
pub proof fn lemma_update_keeps_others<T>(
    entries: Seq<(Seq<char>, T)>,
    at: int,
    value: T,
    other: Seq<char>,
)
    requires
        0 <= at < entries.len(),
        other != entries[at].0,
    ensures
        lookup(entries.update(at, (entries[at].0, value)), other) == lookup(entries, other),
{
    let after = entries.update(at, (entries[at].0, value));
    lemma_key_position(entries, other);
    let p = key_position(entries, other);
    assert forall|i: int| 0 <= i < p implies (#[trigger] after[i]).0 != other by {
        assert(after[i].0 == entries[i].0);
    }
    if p < entries.len() {
        assert(p != at);
        assert(after[p] == entries[p]);
    }
    lemma_key_position_is(after, other, p);
}

/// Appending an entry changes no lookup of another key.
pub proof fn lemma_push_keeps_others<T>(
    entries: Seq<(Seq<char>, T)>,
    key: Seq<char>,
    value: T,
    other: Seq<char>,
)
    requires
        other != key,
    ensures
        lookup(entries.push((key, value)), other) == lookup(entries, other),
{
    let after = entries.push((key, value));
    lemma_key_position(entries, other);
    let p = key_position(entries, other);
    assert forall|i: int| 0 <= i < p implies (#[trigger] after[i]).0 != other by {
        assert(after[i] == entries[i]);
    }
    if p < entries.len() {
        assert(after[p] == entries[p]);
        lemma_key_position_is(after, other, p);
    } else {
        lemma_key_position_is(after, other, p + 1);
    }
}

} // verus!
