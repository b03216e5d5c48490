//! Tables: values by text keys, in the order in which the keys came.

use crate::search;
use vstd::prelude::*;

verus! {

/// The entries with this key.
pub open spec fn keyed<V>(entries: Seq<(Seq<char>, V)>, key: Seq<char>) -> spec_fn(int) -> bool {
    |i: int| entries[i].0 == key
}

/// The index of the first entry with this key, if there is one.
pub open spec fn index_of<V>(entries: Seq<(Seq<char>, V)>, key: Seq<char>) -> Option<int> {
    search::first_where(entries.len() as int, keyed(entries, key))
}

/// The value of a key, if there is one.
pub open spec fn lookup<V>(entries: Seq<(Seq<char>, V)>, key: Seq<char>) -> Option<V> {
    match index_of(entries, key) {
        Some(i) => Some(entries[i].1),
        None => None,
    }
}

/// The table with another value for a key: in the place of the old one, or at the end where
/// there was none.
pub open spec fn put<V>(entries: Seq<(Seq<char>, V)>, key: Seq<char>, value: V) -> Seq<
    (Seq<char>, V),
> {
    match index_of(entries, key) {
        Some(i) => entries.update(i, (key, value)),
        None => entries.push((key, value)),
    }
}

/// What was put under a key is found there, and nothing changes under any other key.
pub proof fn lemma_lookup_put<V>(
    entries: Seq<(Seq<char>, V)>,
    key: Seq<char>,
    value: V,
    other: Seq<char>,
)
    ensures
        lookup(put(entries, key, value), key) == Some(value),
        other != key ==> lookup(put(entries, key, value), other) == lookup(entries, other),
{
    let after = put(entries, key, value);
    let n = entries.len() as int;
    let m = after.len() as int;
    search::lemma_first_where(n, keyed(entries, key));
    let i = match index_of(entries, key) {
        Some(i) => i,
        None => n,
    };
    assert(after[i] == (key, value));
    assert forall|j: int| 0 <= j < i implies !#[trigger] keyed(after, key)(j) by {
        assert(!keyed(entries, key)(j));
    }
    search::lemma_first_where_is(m, keyed(after, key), i);
    if other != key {
        search::lemma_first_where(n, keyed(entries, other));
        search::lemma_first_where(m, keyed(after, other));
        match index_of(entries, other) {
            Some(k) => {
                assert(k != i);
                assert forall|j: int| 0 <= j < k implies !#[trigger] keyed(after, other)(j) by {
                    assert(!keyed(entries, other)(j));
                }
                search::lemma_first_where_is(m, keyed(after, other), k);
            },
            None => {
                assert forall|j: int| 0 <= j < m implies !#[trigger] keyed(after, other)(j) by {
                    if j < n {
                        assert(!keyed(entries, other)(j));
                    }
                }
            },
        }
    }
}

/// Putting a value under a key that is there keeps every key in its place; a new key goes to
/// the end.
pub proof fn lemma_put_keeps_order<V>(entries: Seq<(Seq<char>, V)>, key: Seq<char>, value: V)
    ensures
        entries.len() <= put(entries, key, value).len() <= entries.len() + 1,
        forall|i: int|
            0 <= i < entries.len() ==> (#[trigger] put(entries, key, value)[i]).0 == entries[i].0,
        put(entries, key, value).len() == entries.len() <==> lookup(entries, key) is Some,
        lookup(entries, key) is None ==> put(entries, key, value).last() == (key, value),
{
    search::lemma_first_where(entries.len() as int, keyed(entries, key));
}

} // verus!
