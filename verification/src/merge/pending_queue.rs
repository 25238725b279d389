//! Keys that were copied into a merge output and wait to be repointed to it.
use vstd::prelude::*;

use crate::format::Entry;
use crate::keydir::KeydirEntry;

verus! {

/// A key whose entry is to become `new`, provided that it still is `old`.
#[verifier::ext_equal]
pub struct Repoint {
    pub key: Seq<u8>,
    pub old: KeydirEntry,
    pub new: KeydirEntry,
}

/// The keys that wait, each with its old and its new entry, first to last.
#[derive(Debug)]
pub struct PendingQueue(Vec<(Vec<u8>, KeydirEntry, KeydirEntry)>);

/// What a run of waiting keys holds.
pub open spec fn repoints_view(items: Seq<(Vec<u8>, KeydirEntry, KeydirEntry)>) -> Seq<Repoint> {
    items.map_values(
        |r: (Vec<u8>, KeydirEntry, KeydirEntry)| Repoint { key: r.0@, old: r.1, new: r.2 },
    )
}

impl View for PendingQueue {
    type V = Seq<Repoint>;

    closed spec fn view(&self) -> Seq<Repoint> {
        repoints_view(self.0@)
    }
}

impl PendingQueue {
    pub fn new() -> (queue: PendingQueue)
        ensures
            queue@ == Seq::<Repoint>::empty(),
    {
        let queue = PendingQueue(Vec::new());
        assert(queue@ =~= Seq::<Repoint>::empty());
        queue
    }

    pub fn push(&mut self, entry: (Vec<u8>, KeydirEntry, KeydirEntry))
        ensures
            final(self)@ == old(self)@.push(
                Repoint { key: entry.0@, old: entry.1, new: entry.2 },
            ),
    {
        self.0.push(entry);
        assert(self@ =~= old(self)@.push(Repoint { key: entry.0@, old: entry.1, new: entry.2 }));
    }

    /// Adds the key of an entry that was copied from one file and place to another.
    pub fn queue(
        &mut self,
        entry: Entry,
        file_id: u32,
        new_file_id: u32,
        entry_value_pos: u64,
        new_value_pos: u64,
    )
        ensures
            final(self)@ == old(self)@.push(
                Repoint {
                    key: entry.key@,
                    old: KeydirEntry {
                        file_id,
                        value_size: entry.header.value_size,
                        value_pos: entry_value_pos,
                        timestamp: entry.header.timestamp,
                    },
                    new: KeydirEntry {
                        file_id: new_file_id,
                        value_size: entry.header.value_size,
                        value_pos: new_value_pos,
                        timestamp: entry.header.timestamp,
                    },
                },
            ),
    {
        let timestamp = entry.header.timestamp;
        let value_size = entry.header.value_size;
        self.push(
            (
                entry.key,
                KeydirEntry { file_id, value_size, value_pos: entry_value_pos, timestamp },
                KeydirEntry {
                    file_id: new_file_id,
                    value_size,
                    value_pos: new_value_pos,
                    timestamp,
                },
            ),
        );
    }

    /// Takes out all keys that wait.
    pub fn drain(&mut self) -> (items: Vec<(Vec<u8>, KeydirEntry, KeydirEntry)>)
        ensures
            repoints_view(items@) == old(self)@,
            final(self)@ == Seq::<Repoint>::empty(),
    {
        let mut items: Vec<(Vec<u8>, KeydirEntry, KeydirEntry)> = Vec::new();
        std::mem::swap(&mut items, &mut self.0);
        assert(self@ =~= Seq::<Repoint>::empty());
        items
    }

    pub fn len(&self) -> (n: usize)
        ensures
            n == self@.len(),
    {
        self.0.len()
    }

    pub fn is_empty(&self) -> (b: bool)
        ensures
            b == (self@.len() == 0),
    {
        self.0.len() == 0
    }
}

} // verus!
