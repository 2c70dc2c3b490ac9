//! String-keyed association lists: the lookup relation shared by the
//! route table and the store model, with the lemmas that track it
//! through finds, removals and appends.

use vstd::prelude::*;

verus! {

/// First-match lookup in an association list keyed by strings.
pub open spec fn assoc_lookup<V>(entries: Seq<(String, V)>, key: Seq<char>) -> Option<V>
    decreases entries.len(),
{
    if entries.len() == 0 {
        None
    } else if entries[0].0@ == key {
        Some(entries[0].1)
    } else {
        assoc_lookup(entries.drop_first(), key)
    }
}

/// Each key appears at most once.
pub open spec fn assoc_unique<V>(entries: Seq<(String, V)>) -> bool {
    forall|x: int, y: int|
        0 <= x < y < entries.len() ==> (#[trigger] entries[x]).0@ != (#[trigger] entries[y]).0@
}

/// Lookup over a concatenation: the left part wins when it has the key.
pub(crate) proof fn lemma_assoc_concat<V>(a: Seq<(String, V)>, b: Seq<(String, V)>, key: Seq<char>)
    ensures
        assoc_lookup(a + b, key) == if assoc_lookup(a, key) is Some {
            assoc_lookup(a, key)
        } else {
            assoc_lookup(b, key)
        },
    decreases a.len(),
{
    if a.len() == 0 {
        assert(a + b =~= b);
    } else {
        assert((a + b)[0] == a[0]);
        assert((a + b).drop_first() =~= a.drop_first() + b);
        lemma_assoc_concat(a.drop_first(), b, key);
    }
}

/// Lookup in a one-entry list.
pub(crate) proof fn lemma_assoc_single<V>(entry: (String, V), key: Seq<char>)
    ensures
        assoc_lookup(seq![entry], key) == if entry.0@ == key {
            Some(entry.1)
        } else {
            None::<V>
        },
{
    let single = seq![entry];
    assert(single[0] == entry);
    assert(single.drop_first() =~= Seq::<(String, V)>::empty());
    if entry.0@ != key {
        lemma_assoc_none(single.drop_first(), key);
        assert(assoc_lookup(single, key) == assoc_lookup(single.drop_first(), key));
    }
}

/// When no entry carries the key, the lookup misses.
pub(crate) proof fn lemma_assoc_none<V>(entries: Seq<(String, V)>, key: Seq<char>)
    requires
        forall|j: int| 0 <= j < entries.len() ==> (#[trigger] entries[j]).0@ != key,
    ensures
        assoc_lookup(entries, key) is None,
    decreases entries.len(),
{
    if entries.len() > 0 {
        lemma_assoc_none(entries.drop_first(), key);
    }
}

/// The first entry carrying the key decides the lookup.
pub(crate) proof fn lemma_assoc_found_at<V>(entries: Seq<(String, V)>, i: int, key: Seq<char>)
    requires
        0 <= i < entries.len(),
        entries[i].0@ == key,
        forall|j: int| 0 <= j < i ==> (#[trigger] entries[j]).0@ != key,
    ensures
        assoc_lookup(entries, key) == Some(entries[i].1),
    decreases i,
{
    if i > 0 {
        lemma_assoc_found_at(entries.drop_first(), i - 1, key);
    }
}

/// Removing the entry found for a key and appending a replacement
/// updates that key's lookup alone, and keeps keys unique.
pub(crate) proof fn lemma_assoc_update_found<V>(
    before: Seq<(String, V)>,
    after: Seq<(String, V)>,
    i: int,
    key: Seq<char>,
    value: V,
)
    requires
        0 <= i < before.len(),
        before[i].0@ == key,
        forall|j: int| 0 <= j < i ==> (#[trigger] before[j]).0@ != key,
        assoc_unique(before),
        after.len() == before.len(),
        after.last().0@ == key,
        after.last().1 == value,
        after.drop_last() == before.remove(i),
    ensures
        assoc_unique(after),
        assoc_lookup(after, key) == Some(value),
        assoc_lookup(before, key) == Some(before[i].1),
        forall|other: Seq<char>|
            other != key ==> #[trigger] assoc_lookup(after, other) == assoc_lookup(before, other),
{
    let head = before.subrange(0, i);
    let tail = before.subrange(i + 1, before.len() as int);
    let found = seq![before[i]];
    let appended = seq![after.last()];
    assert(before =~= head + (found + tail));
    assert(before.remove(i) =~= head + tail);
    assert(after =~= (head + tail) + appended);

    assert forall|x: int, y: int| 0 <= x < y < after.len() implies (#[trigger] after[x]).0@ != (
    #[trigger] after[y]).0@ by {
        if y < after.len() - 1 {
            assert(after[x] == before.remove(i)[x]);
            assert(after[y] == before.remove(i)[y]);
        } else {
            assert(after[x] == before.remove(i)[x]);
            if x < i {
                assert(before.remove(i)[x] == before[x]);
            } else {
                assert(before.remove(i)[x] == before[x + 1]);
            }
        }
    }

    assert forall|j: int| 0 <= j < tail.len() implies (#[trigger] tail[j]).0@ != key by {
        assert(before[i].0@ != before[i + 1 + j].0@);
    }

    lemma_assoc_none(head, key);
    lemma_assoc_none(tail, key);
    lemma_assoc_concat(head, found + tail, key);
    lemma_assoc_concat(found, tail, key);
    lemma_assoc_single(before[i], key);
    assert(assoc_lookup(before, key) == Some(before[i].1));

    lemma_assoc_concat(head + tail, appended, key);
    lemma_assoc_concat(head, tail, key);
    lemma_assoc_single(after.last(), key);
    assert(assoc_lookup(after, key) == Some(after.last().1));

    assert forall|other: Seq<char>| other != key implies #[trigger] assoc_lookup(after, other)
        == assoc_lookup(before, other) by {
        lemma_assoc_concat(head + tail, appended, other);
        lemma_assoc_concat(head, tail, other);
        lemma_assoc_concat(head, found + tail, other);
        lemma_assoc_concat(found, tail, other);
        lemma_assoc_single(after.last(), other);
        lemma_assoc_single(before[i], other);
    }
}

/// Appending an entry under a key no other entry carries updates that
/// key's lookup alone, and keeps keys unique.
pub(crate) proof fn lemma_assoc_update_fresh<V>(
    before: Seq<(String, V)>,
    after: Seq<(String, V)>,
    key: Seq<char>,
    value: V,
)
    requires
        forall|j: int| 0 <= j < before.len() ==> (#[trigger] before[j]).0@ != key,
        assoc_unique(before),
        after.len() == before.len() + 1,
        after.last().0@ == key,
        after.last().1 == value,
        after.drop_last() == before,
    ensures
        assoc_unique(after),
        assoc_lookup(after, key) == Some(value),
        assoc_lookup(before, key) is None,
        forall|other: Seq<char>|
            other != key ==> #[trigger] assoc_lookup(after, other) == assoc_lookup(before, other),
{
    let appended = seq![after.last()];
    assert(after =~= before + appended);
    assert forall|x: int, y: int| 0 <= x < y < after.len() implies (#[trigger] after[x]).0@ != (
    #[trigger] after[y]).0@ by {
        if y < after.len() - 1 {
            assert(after[x] == before[x]);
            assert(after[y] == before[y]);
        } else {
            assert(after[x] == before[x]);
        }
    }
    lemma_assoc_none(before, key);
    lemma_assoc_concat(before, appended, key);
    lemma_assoc_single(after.last(), key);
    assert(assoc_lookup(after, key) == Some(after.last().1));
    assert forall|other: Seq<char>| other != key implies #[trigger] assoc_lookup(after, other)
        == assoc_lookup(before, other) by {
        lemma_assoc_concat(before, appended, other);
        lemma_assoc_single(after.last(), other);
    }
}

/// The position of the entry carrying the key, if any.
pub(crate) fn assoc_find<V>(entries: &Vec<(String, V)>, key: &String) -> (position: Option<usize>)
    ensures
        match position {
            Some(i) => i < entries@.len() && entries@[i as int].0@ == key@ && forall|j: int|
                0 <= j < i ==> (#[trigger] entries@[j]).0@ != key@,
            None => forall|j: int|
                0 <= j < entries@.len() ==> (#[trigger] entries@[j]).0@ != key@,
        },
{
    let mut i: usize = 0;
    while i < entries.len()
        invariant
            0 <= i <= entries@.len(),
            forall|j: int| 0 <= j < i ==> (#[trigger] entries@[j]).0@ != key@,
        decreases entries@.len() - i,
    {
        if entries[i].0 == *key {
            return Some(i);
        }
        i += 1;
    }
    None
}

} // verus!
