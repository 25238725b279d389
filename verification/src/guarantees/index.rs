//! The index in memory.
use vstd::prelude::*;

use crate::keydir::{Keydir, KeydirEntry, SharedKeydir};

verus! {

/// A new index holds nothing.
pub proof fn law_an_index_begins_empty(
    keydir: Keydir,
    default_keydir: Keydir,
    shared: SharedKeydir,
    key: Seq<u8>,
)
    requires
        call_ensures(Keydir::new, (), keydir),
        call_ensures(<Keydir as Default>::default, (), default_keydir),
        call_ensures(<SharedKeydir as Default>::default, (), shared),
    ensures
        !keydir@.contains_key(key),
        !default_keydir@.contains_key(key),
        !shared@.contains_key(key),
{
}

/// A key is found just if it is there, with its entry.
pub proof fn law_an_index_finds_its_keys(keydir: Keydir, key: &[u8], entry: Option<KeydirEntry>)
    requires
        call_ensures(Keydir::get, (&keydir, key), entry),
    ensures
        entry is Some <==> keydir@.contains_key(key@),
        entry is Some ==> entry->0 == keydir@[key@],
{
}

/// What is stored under a key is found there, and all other keys are as they were.
pub proof fn law_an_insert_is_for_one_key(
    keydir: &mut Keydir,
    key: &[u8],
    entry: KeydirEntry,
    other: Seq<u8>,
)
    requires
        call_ensures(Keydir::insert, (keydir, key, entry), ()),
    ensures
        final(keydir)@.contains_key(key@),
        final(keydir)@[key@] == entry,
        other != key@ ==> final(keydir)@.contains_key(other) == old(keydir)@.contains_key(other),
        other != key@ && old(keydir)@.contains_key(other) ==> final(keydir)@[other] == old(
            keydir,
        )@[other],
{
}

/// A key that is removed is not found any more, what was stored under it is given back, and all
/// other keys are as they were.
pub proof fn law_a_remove_is_for_one_key(
    keydir: &mut Keydir,
    key: &[u8],
    entry: Option<KeydirEntry>,
    other: Seq<u8>,
)
    requires
        call_ensures(Keydir::remove, (keydir, key), entry),
    ensures
        !final(keydir)@.contains_key(key@),
        entry is Some <==> old(keydir)@.contains_key(key@),
        entry is Some ==> entry->0 == old(keydir)@[key@],
        other != key@ ==> final(keydir)@.contains_key(other) == old(keydir)@.contains_key(other),
        other != key@ && old(keydir)@.contains_key(other) ==> final(keydir)@[other] == old(
            keydir,
        )@[other],
{
}

/// A key is repointed just if it still has the entry that is expected. Else nothing changes, so
/// that a newer write stays.
pub proof fn law_a_repoint_yields_to_a_newer_write(
    keydir: &mut Keydir,
    key: &[u8],
    expected: KeydirEntry,
    new: KeydirEntry,
    repointed: bool,
)
    requires
        call_ensures(Keydir::cas_repoint, (keydir, key, expected, new), repointed),
    ensures
        repointed <==> old(keydir)@.contains_key(key@) && old(keydir)@[key@] == expected,
        repointed ==> final(keydir)@ == old(keydir)@.insert(key@, new),
        !repointed ==> final(keydir)@ == old(keydir)@,
{
}

/// How many keys there are is counted.
pub proof fn law_an_index_counts_its_keys(keydir: Keydir, n: usize, is_empty: bool, key: Seq<u8>)
    requires
        call_ensures(Keydir::len, (&keydir,), n),
        call_ensures(Keydir::is_empty, (&keydir,), is_empty),
    ensures
        n == keydir@.dom().len(),
        is_empty <==> n == 0,
        keydir@.contains_key(key) ==> n > 0 && !is_empty,
{
}

/// Going over an index visits every key once, with its entry.
pub proof fn law_an_index_visits_every_key(keydir: Keydir, entries: Vec<(&[u8], &KeydirEntry)>)
    requires
        call_ensures(Keydir::iter, (&keydir,), entries),
    ensures
        forall|i: int|
            0 <= i < entries@.len() ==> keydir@.contains_key((#[trigger] entries@[i]).0@)
                && keydir@[entries@[i].0@] == *entries@[i].1,
        forall|key: Seq<u8>| #[trigger]
            keydir@.contains_key(key) ==> exists|i: int|
                0 <= i < entries@.len() && (#[trigger] entries@[i]).0@ == key,
        forall|i: int, j: int|
            0 <= i < j < entries@.len() ==> (#[trigger] entries@[i]).0@ != (
            #[trigger] entries@[j]).0@,
{
    let listed = entries@.map_values(|e: (&[u8], &KeydirEntry)| (e.0@, *e.1));
    assert forall|i: int| 0 <= i < entries@.len() implies keydir@.contains_key(
        (#[trigger] entries@[i]).0@,
    ) && keydir@[entries@[i].0@] == *entries@[i].1 by {
        assert(listed[i] == (entries@[i].0@, *entries@[i].1));
    }
    assert forall|key: Seq<u8>| #[trigger] keydir@.contains_key(key) implies exists|i: int|
        0 <= i < entries@.len() && (#[trigger] entries@[i]).0@ == key by {
        let i = choose|i: int| 0 <= i < listed.len() && (#[trigger] listed[i]).0 == key;
        assert(entries@[i].0@ == key);
    }
    assert forall|i: int, j: int| 0 <= i < j < entries@.len() implies (#[trigger] entries@[i]).0@
        != (#[trigger] entries@[j]).0@ by {
        assert(listed[i].0 != listed[j].0);
    }
}

/// The index that the engine holds does all of this as the index in it does.
pub proof fn law_a_shared_index_is_the_index_in_it(
    inner: Keydir,
    made: SharedKeydir,
    shared: &mut SharedKeydir,
    key: &[u8],
    found: Option<KeydirEntry>,
    entry: KeydirEntry,
)
    requires
        call_ensures(SharedKeydir::new, (inner,), made),
        call_ensures(SharedKeydir::get, (&made, key), found),
        call_ensures(SharedKeydir::insert, (shared, key, entry), ()),
    ensures
        made@ == inner@,
        found is Some <==> made@.contains_key(key@),
        found is Some ==> found->0 == made@[key@],
        final(shared)@ == old(shared)@.insert(key@, entry),
{
}

/// The same of taking out a key.
pub proof fn law_a_shared_index_removes_one_key(
    shared: &mut SharedKeydir,
    key: &[u8],
    entry: Option<KeydirEntry>,
)
    requires
        call_ensures(SharedKeydir::remove, (shared, key), entry),
    ensures
        final(shared)@ == old(shared)@.remove(key@),
        entry is Some <==> old(shared)@.contains_key(key@),
        entry is Some ==> entry->0 == old(shared)@[key@],
{
}

/// The same of repointing, and of counting.
pub proof fn law_a_shared_index_repoints_and_counts(
    shared: &mut SharedKeydir,
    key: &[u8],
    expected: KeydirEntry,
    new: KeydirEntry,
    repointed: bool,
    counted: SharedKeydir,
    n: usize,
    is_empty: bool,
)
    requires
        call_ensures(SharedKeydir::cas_repoint, (shared, key, expected, new), repointed),
        call_ensures(SharedKeydir::len, (&counted,), n),
        call_ensures(SharedKeydir::is_empty, (&counted,), is_empty),
    ensures
        repointed <==> old(shared)@.contains_key(key@) && old(shared)@[key@] == expected,
        repointed ==> final(shared)@ == old(shared)@.insert(key@, new),
        !repointed ==> final(shared)@ == old(shared)@,
        n == counted@.dom().len(),
        is_empty <==> n == 0,
{
}

/// A snapshot of an index has every key once, with its entry.
pub proof fn law_a_shared_index_is_copied(
    shared: SharedKeydir,
    entries: Vec<(Vec<u8>, KeydirEntry)>,
)
    requires
        call_ensures(SharedKeydir::snapshot, (&shared,), entries),
    ensures
        super::engine::are_all_pairs(entries@, shared@),
{
    super::engine::lemma_all_pairs(entries@, shared@);
}

} // verus!
