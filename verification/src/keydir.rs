//! In-memory index that maps each live key to the place of its newest value on disk.
use vstd::prelude::*;

verus! {

/// Place of one key's newest value: which data file, and where in it.
#[derive(Clone, Copy, Debug, PartialEq, Eq, Structural)]
pub struct KeydirEntry {
    pub file_id: u32,
    pub value_size: u32,
    /// Position of the value bytes, past the header and the key.
    pub value_pos: u64,
    pub timestamp: u32,
}

/// What an index holds: each live key, by its bytes, with its entry.
pub type KeydirView = Map<Seq<u8>, KeydirEntry>;

/// `ahash::RandomState`, the hasher that each map seeds for itself.
#[verifier::external_type_specification]
#[verifier::external_body]
pub struct ExRandomState(ahash::RandomState);

/// `ahash::AHashMap`, the hash map with that hasher.
#[verifier::external_type_specification]
#[verifier::external_body]
#[verifier::reject_recursive_types(K)]
#[verifier::reject_recursive_types(V)]
#[verifier::reject_recursive_types(S)]
pub struct ExAHashMap<K, V, S>(ahash::AHashMap<K, V, S>);

/// What a map holds: each key, by its bytes, with the entry stored under it.
pub uninterp spec fn map_contents(map: ahash::AHashMap<Box<[u8]>, KeydirEntry>) -> KeydirView;

/// Calls `AHashMap::new`. Claimed of it: the new map holds nothing.
#[verifier::external_body]
fn map_new() -> (fresh: ahash::AHashMap<Box<[u8]>, KeydirEntry>)
    ensures
        map_contents(fresh) == KeydirView::empty(),
{
    ahash::AHashMap::new()
}

/// Calls `AHashMap::get`. Claimed of it: it gives the entry stored under the key's bytes, if
/// there is one.
#[verifier::external_body]
fn map_get(map: &ahash::AHashMap<Box<[u8]>, KeydirEntry>, key: &[u8]) -> (entry: Option<
    KeydirEntry,
>)
    ensures
        entry == if map_contents(*map).contains_key(key@) {
            Some(map_contents(*map)[key@])
        } else {
            None
        },
{
    map.get(key).copied()
}

/// Calls `AHashMap::insert`. Claimed of it: the entry is stored under the key's bytes, in place
/// of an earlier one, and nothing else changes.
#[verifier::external_body]
fn map_insert(map: &mut ahash::AHashMap<Box<[u8]>, KeydirEntry>, key: &[u8], entry: KeydirEntry)
    ensures
        map_contents(*final(map)) == map_contents(*old(map)).insert(key@, entry),
{
    map.insert(Box::from(key), entry);
}

/// Calls `AHashMap::remove`. Claimed of it: whatever was stored under the key's bytes is taken
/// out and given back, and nothing else changes.
#[verifier::external_body]
fn map_remove(map: &mut ahash::AHashMap<Box<[u8]>, KeydirEntry>, key: &[u8]) -> (entry: Option<
    KeydirEntry,
>)
    ensures
        map_contents(*final(map)) == map_contents(*old(map)).remove(key@),
        entry == if map_contents(*old(map)).contains_key(key@) {
            Some(map_contents(*old(map))[key@])
        } else {
            None
        },
{
    map.remove(key)
}

/// Calls `HashMap::len`, which `AHashMap` derefs to. Claimed of it: it counts the keys, and
/// is zero just where there is none.
#[verifier::external_body]
fn map_len(map: &ahash::AHashMap<Box<[u8]>, KeydirEntry>) -> (n: usize)
    ensures
        n == map_contents(*map).dom().len(),
        (n == 0) == (map_contents(*map) == KeydirView::empty()),
{
    map.len()
}

/// Calls `HashMap::iter`, which `AHashMap` derefs to. Claimed of it: it visits every key once,
/// with the entry stored under it. The order is left open.
#[verifier::external_body]
fn map_entries(map: &ahash::AHashMap<Box<[u8]>, KeydirEntry>) -> (entries: Vec<(&[u8], &KeydirEntry)>)
    ensures
        lists(entries@.map_values(|e: (&[u8], &KeydirEntry)| (e.0@, *e.1)), map_contents(*map)),
{
    map.iter().map(|(key, entry)| (key.as_ref(), entry)).collect()
}

/// Whether `entries` holds every key of `contents` once, with its entry, and nothing else.
pub open spec fn lists(
    entries: Seq<(Seq<u8>, KeydirEntry)>,
    contents: KeydirView,
) -> bool {
    &&& forall|i: int|
        0 <= i < entries.len() ==> contents.contains_key((#[trigger] entries[i]).0)
            && contents[entries[i].0] == entries[i].1
    &&& forall|key: Seq<u8>| #[trigger]
        contents.contains_key(key) ==> exists|i: int|
            0 <= i < entries.len() && (#[trigger] entries[i]).0 == key
    &&& forall|i: int, j: int|
        0 <= i < j < entries.len() ==> (#[trigger] entries[i]).0 != (#[trigger] entries[j]).0
}

/// The index itself, for a single owner.
pub struct Keydir {
    map: ahash::AHashMap<Box<[u8]>, KeydirEntry>,
}

impl View for Keydir {
    type V = KeydirView;

    closed spec fn view(&self) -> KeydirView {
        map_contents(self.map)
    }
}

impl Default for Keydir {
    fn default() -> (keydir: Keydir)
        ensures
            keydir@ == KeydirView::empty(),
    {
        Keydir::new()
    }
}

impl Keydir {
    pub fn new() -> (keydir: Keydir)
        ensures
            keydir@ == KeydirView::empty(),
    {
        Keydir { map: map_new() }
    }

    pub fn get(&self, key: &[u8]) -> (entry: Option<KeydirEntry>)
        ensures
            entry == lookup(self@, key@),
    {
        map_get(&self.map, key)
    }

    /// Stores `entry` under `key`, in place of an earlier one: the last write wins.
    pub fn insert(&mut self, key: &[u8], entry: KeydirEntry)
        ensures
            final(self)@ == old(self)@.insert(key@, entry),
    {
        map_insert(&mut self.map, key, entry);
    }

    pub fn remove(&mut self, key: &[u8]) -> (entry: Option<KeydirEntry>)
        ensures
            final(self)@ == old(self)@.remove(key@),
            entry == lookup(old(self)@, key@),
    {
        map_remove(&mut self.map, key)
    }

    pub fn len(&self) -> (n: usize)
        ensures
            n == self@.dom().len(),
            (n == 0) == (self@ == KeydirView::empty()),
    {
        map_len(&self.map)
    }

    pub fn is_empty(&self) -> (b: bool)
        ensures
            b == (self@ == KeydirView::empty()),
    {
        map_len(&self.map) == 0
    }

    /// Every key with its entry, once each, in no particular order.
    pub fn iter(&self) -> (entries: Vec<(&[u8], &KeydirEntry)>)
        ensures
            lists(entries@.map_values(|e: (&[u8], &KeydirEntry)| (e.0@, *e.1)), self@),
    {
        map_entries(&self.map)
    }

    /// Stores `new` under `key` only where `expected_old` is stored there now. Says whether it
    /// did.
    pub fn cas_repoint(
        &mut self,
        key: &[u8],
        expected_old: KeydirEntry,
        new: KeydirEntry,
    ) -> (repointed: bool)
        ensures
            repointed == (lookup(old(self)@, key@) == Some(expected_old)),
            final(self)@ == repoint(old(self)@, key@, expected_old, new),
    {
        if let Some(entry) = self.get(key) {
            if entry == expected_old {
                self.insert(key, new);
                return true;
            }
        }
        false
    }
}

/// The entry stored under `key`, if there is one.
pub open spec fn lookup(contents: KeydirView, key: Seq<u8>) -> Option<KeydirEntry> {
    if contents.contains_key(key) {
        Some(contents[key])
    } else {
        None
    }
}

/// `contents` with `new` in the place of `expected_old` under `key`, and unchanged where another
/// entry or none stands there.
pub open spec fn repoint(
    contents: KeydirView,
    key: Seq<u8>,
    expected_old: KeydirEntry,
    new: KeydirEntry,
) -> KeydirView {
    if lookup(contents, key) == Some(expected_old) {
        contents.insert(key, new)
    } else {
        contents
    }
}

/// The index as the engine holds it. Reads take a shared borrow and writes an exclusive one, so
/// that no reader sees half a write.
pub struct SharedKeydir(Keydir);

impl View for SharedKeydir {
    type V = KeydirView;

    closed spec fn view(&self) -> KeydirView {
        self.0@
    }
}

impl Default for SharedKeydir {
    fn default() -> (shared: SharedKeydir)
        ensures
            shared@ == KeydirView::empty(),
    {
        SharedKeydir(Keydir::new())
    }
}

impl SharedKeydir {
    pub fn new(keydir: Keydir) -> (shared: SharedKeydir)
        ensures
            shared@ == keydir@,
    {
        SharedKeydir(keydir)
    }

    pub fn get(&self, key: &[u8]) -> (entry: Option<KeydirEntry>)
        ensures
            entry == lookup(self@, key@),
    {
        self.0.get(key)
    }

    pub fn insert(&mut self, key: &[u8], entry: KeydirEntry)
        ensures
            final(self)@ == old(self)@.insert(key@, entry),
    {
        self.0.insert(key, entry);
    }

    pub fn remove(&mut self, key: &[u8]) -> (entry: Option<KeydirEntry>)
        ensures
            final(self)@ == old(self)@.remove(key@),
            entry == lookup(old(self)@, key@),
    {
        self.0.remove(key)
    }

    pub fn len(&self) -> (n: usize)
        ensures
            n == self@.dom().len(),
            (n == 0) == (self@ == KeydirView::empty()),
    {
        self.0.len()
    }

    pub fn is_empty(&self) -> (b: bool)
        ensures
            b == (self@ == KeydirView::empty()),
    {
        self.0.is_empty()
    }

    pub fn cas_repoint(
        &mut self,
        key: &[u8],
        expected_old: KeydirEntry,
        new: KeydirEntry,
    ) -> (repointed: bool)
        ensures
            repointed == (lookup(old(self)@, key@) == Some(expected_old)),
            final(self)@ == repoint(old(self)@, key@, expected_old, new),
    {
        self.0.cas_repoint(key, expected_old, new)
    }

    /// Copy of every key with its entry, once each, in no particular order.
    pub fn snapshot(&self) -> (entries: Vec<(Vec<u8>, KeydirEntry)>)
        ensures
            lists(snapshot_view(entries@), self@),
    {
        let borrowed = self.0.iter();
        let ghost listed = borrowed@.map_values(|e: (&[u8], &KeydirEntry)| (e.0@, *e.1));
        let mut entries: Vec<(Vec<u8>, KeydirEntry)> = Vec::new();
        let mut i: usize = 0;
        while i < borrowed.len()
            invariant
                i <= borrowed@.len(),
                entries@.len() == i,
                listed == borrowed@.map_values(|e: (&[u8], &KeydirEntry)| (e.0@, *e.1)),
                forall|j: int| 0 <= j < i ==> snapshot_view(entries@)[j] == listed[j],
            decreases borrowed@.len() - i,
        {
            let (key, entry) = borrowed[i];
            entries.push((vstd::slice::slice_to_vec(key), *entry));
            i += 1;
        }
        assert(snapshot_view(entries@) =~= listed);
        entries
    }
}

/// The keys, by their bytes, and entries of a snapshot.
pub open spec fn snapshot_view(entries: Seq<(Vec<u8>, KeydirEntry)>) -> Seq<
    (Seq<u8>, KeydirEntry),
> {
    entries.map_values(|e: (Vec<u8>, KeydirEntry)| (e.0@, e.1))
}

} // verus!
