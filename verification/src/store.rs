//! What a datastore holds, as a map from keys to values, and that `put`, `delete`, rotation,
//! recovery and merge treat it as such a map.
//!
//! The disk is modelled as a run of data files in ascending order of their ids.
use vstd::prelude::*;

use crate::datafile::ActiveView;
use crate::engine::EngineView;
use crate::format::{HEADER_SIZE, MAX_KEY_LEN};
use crate::keydir::{KeydirEntry, KeydirView};
use crate::recovery::{FileImage, KeyEvent};

verus! {

/// The last of a run of changes that is about `key`: the entry that it gives the key, or `None`
/// where it removes the key.
pub open spec fn last_for(events: Seq<KeyEvent>, key: Seq<u8>) -> Option<Option<KeydirEntry>>
    decreases events.len(),
{
    if events.len() == 0 {
        None
    } else if events.last().key == key {
        Some(events.last().entry)
    } else {
        last_for(events.drop_last(), key)
    }
}

/// The last write wins: of a run of changes, the last that is about a key decides.
pub proof fn law_last_write_wins(contents: KeydirView, events: Seq<KeyEvent>, key: Seq<u8>)
    ensures
        crate::keydir::lookup(crate::recovery::apply_events(contents, events), key) == match last_for(
            events,
            key,
        ) {
            Some(entry) => entry,
            None => crate::keydir::lookup(contents, key),
        },
    decreases events.len(),
{
    if events.len() > 0 {
        law_last_write_wins(contents, events.drop_last(), key);
    }
}

/// Of two runs, the second decides about the keys that it is about.
pub proof fn lemma_last_concat(first: Seq<KeyEvent>, second: Seq<KeyEvent>, key: Seq<u8>)
    ensures
        last_for(first + second, key) == if last_for(second, key) is Some {
            last_for(second, key)
        } else {
            last_for(first, key)
        },
    decreases second.len(),
{
    if second.len() == 0 {
        assert(first + second =~= first);
    } else {
        assert((first + second).drop_last() =~= first + second.drop_last());
        lemma_last_concat(first, second.drop_last(), key);
    }
}

/// Where the last change about a key stands.
pub proof fn lemma_last_index(events: Seq<KeyEvent>, key: Seq<u8>) -> (at: int)
    requires
        last_for(events, key) is Some,
    ensures
        0 <= at < events.len(),
        events[at].key == key,
        last_for(events, key) == Some(events[at].entry),
        forall|i: int| at < i < events.len() ==> (#[trigger] events[i]).key != key,
    decreases events.len(),
{
    if events.last().key == key {
        events.len() - 1
    } else {
        let at = lemma_last_index(events.drop_last(), key);
        assert forall|i: int| at < i < events.len() implies (#[trigger] events[i]).key != key by {
            if i < events.len() - 1 {
                assert(events.drop_last()[i] == events[i]);
            }
        }
        at
    }
}

/// A run with a change about a key has a last one.
pub proof fn lemma_last_exists(events: Seq<KeyEvent>, at: int)
    requires
        0 <= at < events.len(),
    ensures
        last_for(events, events[at].key) is Some,
    decreases events.len(),
{
    if events.last().key != events[at].key {
        assert(events.drop_last()[at] == events[at]);
        lemma_last_exists(events.drop_last(), at);
    }
}

/// A data file on disk.
#[verifier::ext_equal]
pub struct DiskFile {
    pub file_id: u32,
    /// The bytes that readers see.
    pub data: Seq<u8>,
    /// Bytes that were appended and are still in a buffer.
    pub buffered: Seq<u8>,
    /// The bytes of the hint file, if there is one.
    pub hint: Option<Seq<u8>>,
}

/// What recovery reads of a file.
pub open spec fn image_of(file: DiskFile) -> FileImage {
    FileImage {
        file_id: file.file_id,
        hint: match file.hint {
            Some(bytes) => Some((bytes, file.data.len() as u64)),
            None => None,
        },
        data: file.data,
    }
}

/// What recovery reads of all files.
pub open spec fn images(disk: Seq<DiskFile>) -> Seq<FileImage> {
    disk.map_values(|file: DiskFile| image_of(file))
}

/// The index that recovery makes of the files.
pub open spec fn recovered(disk: Seq<DiskFile>) -> KeydirView {
    crate::recovery::apply_events(
        KeydirView::empty(),
        crate::recovery::disk_events(images(disk)),
    )
}

/// The changes that the entries of a file make.
pub open spec fn data_events(file: DiskFile) -> Seq<KeyEvent> {
    crate::recovery::entry_events(file.file_id, crate::scan::scan_entries(file.data, 0))
}

/// Whether a hint file that recovery would trust says what its data file says.
pub open spec fn hint_agrees(file: DiskFile) -> bool {
    crate::recovery::image_events(image_of(file)) == data_events(file)
}

/// Whether the files come in ascending order of their ids.
pub open spec fn ids_ascend(disk: Seq<DiskFile>) -> bool {
    forall|i: int, j: int| 0 <= i < j < disk.len() ==> disk[i].file_id < disk[j].file_id
}

/// Which of the files has the given id.
pub open spec fn index_of(disk: Seq<DiskFile>, file_id: u32) -> int {
    choose|i: int| 0 <= i < disk.len() && (#[trigger] disk[i]).file_id == file_id
}

/// The bytes that an entry of the index points to.
pub open spec fn value_at(disk: Seq<DiskFile>, entry: KeydirEntry) -> Seq<u8> {
    disk[index_of(disk, entry.file_id)].data.subrange(
        entry.value_pos as int,
        entry.value_pos + entry.value_size,
    )
}

/// What a datastore holds: each key of the index, with the value that it points to.
pub open spec fn contents(disk: Seq<DiskFile>, keydir: KeydirView) -> Map<Seq<u8>, Seq<u8>> {
    Map::new(|key: Seq<u8>| keydir.contains_key(key), |key: Seq<u8>| value_at(disk, keydir[key]))
}

/// Whether the index is what recovery would make of the files.
pub open spec fn is_current(disk: Seq<DiskFile>, keydir: KeydirView) -> bool {
    &&& ids_ascend(disk)
    &&& forall|i: int|
        0 <= i < disk.len() ==> hint_agrees(#[trigger] disk[i]) && disk[i].data.len() <= u64::MAX
            && disk[i].buffered.len() == 0
    &&& keydir == recovered(disk)
}

/// Whether an engine and the disk are in step: the index is current, the active file is the last
/// one and ends where an entry ends, and the next file id is above all others.
pub open spec fn in_step(state: EngineView, disk: Seq<DiskFile>) -> bool {
    &&& is_current(disk, state.keydir)
    &&& forall|i: int| 0 <= i < disk.len() ==> (#[trigger] disk[i]).file_id < state.next_file_id
    &&& state.is_read_write == (state.active is Some)
    &&& state.active is Some ==> is_active(disk, state.active->0)
}

/// Whether the last file is the one that is appended to.
pub open spec fn is_active(disk: Seq<DiskFile>, active: ActiveView) -> bool {
    &&& disk.len() > 0
    &&& disk.last().file_id == active.file_id
    &&& disk.last().data.len() == active.offset
    &&& disk.last().hint is None
    &&& crate::scan::ends_clean(disk.last().data)
}

/// The last change about a key in all files.
pub open spec fn disk_last(disk: Seq<DiskFile>, key: Seq<u8>) -> Option<Option<KeydirEntry>>
    decreases disk.len(),
{
    if disk.len() == 0 {
        None
    } else if last_for(data_events(disk.last()), key) is Some {
        last_for(data_events(disk.last()), key)
    } else {
        disk_last(disk.drop_last(), key)
    }
}

/// Recovery finds for each key what the last change about it in all files says.
pub proof fn lemma_recovered_lookup(disk: Seq<DiskFile>, key: Seq<u8>)
    requires
        forall|i: int| 0 <= i < disk.len() ==> hint_agrees(#[trigger] disk[i]),
    ensures
        last_for(crate::recovery::disk_events(images(disk)), key) == disk_last(disk, key),
        crate::keydir::lookup(recovered(disk), key) == match disk_last(disk, key) {
            Some(entry) => entry,
            None => None,
        },
    decreases disk.len(),
{
    let events = crate::recovery::disk_events(images(disk));
    law_last_write_wins(KeydirView::empty(), events, key);
    if disk.len() > 0 {
        let rest = disk.drop_last();
        assert forall|i: int| 0 <= i < rest.len() implies hint_agrees(#[trigger] rest[i]) by {
            assert(rest[i] == disk[i]);
        }
        lemma_recovered_lookup(rest, key);
        assert(images(disk).drop_last() =~= images(rest));
        assert(images(disk).last() == image_of(disk.last()));
        assert(hint_agrees(disk[disk.len() - 1]));
        lemma_last_concat(
            crate::recovery::disk_events(images(rest)),
            data_events(disk.last()),
            key,
        );
    }
}

/// Where the last change about a key stands: in which file, and which entry of it.
pub proof fn lemma_disk_last_place(disk: Seq<DiskFile>, key: Seq<u8>) -> (place: (int, int))
    requires
        disk_last(disk, key) is Some,
    ensures
        0 <= place.0 < disk.len(),
        0 <= place.1 < crate::scan::scan_entries(disk[place.0].data, 0).len(),
        ({
            let found = crate::scan::scan_entries(disk[place.0].data, 0)[place.1];
            let event = crate::recovery::entry_event(disk[place.0].file_id, found.0, found.1);
            &&& found.1.key == key
            &&& disk_last(disk, key) == Some(event.entry)
        }),
        last_for(data_events(disk[place.0]), key) == disk_last(disk, key),
        forall|i: int|
            place.0 < i < disk.len() ==> last_for(data_events(#[trigger] disk[i]), key) is None,
    decreases disk.len(),
{
    let last = disk.len() - 1;
    if last_for(data_events(disk.last()), key) is Some {
        let at = lemma_last_index(data_events(disk.last()), key);
        (last, at)
    } else {
        let rest = disk.drop_last();
        let place = lemma_disk_last_place(rest, key);
        assert forall|i: int| place.0 < i < disk.len() implies last_for(
            data_events(#[trigger] disk[i]),
            key,
        ) is None by {
            if i < last {
                assert(rest[i] == disk[i]);
            }
        }
        place
    }
}

/// A file is found by its id.
pub proof fn lemma_index_of(disk: Seq<DiskFile>, i: int)
    requires
        ids_ascend(disk),
        0 <= i < disk.len(),
    ensures
        index_of(disk, disk[i].file_id) == i,
{
    let found = index_of(disk, disk[i].file_id);
    assert(0 <= found < disk.len() && disk[found].file_id == disk[i].file_id);
}

/// A key of a current index points to the value of an entry with that key.
pub proof fn lemma_anchored(disk: Seq<DiskFile>, keydir: KeydirView, key: Seq<u8>) -> (place: (int, int))
    requires
        is_current(disk, keydir),
        keydir.contains_key(key),
    ensures
        0 <= place.0 < disk.len(),
        0 <= place.1 < crate::scan::scan_entries(disk[place.0].data, 0).len(),
        ({
            let (pos, entry) = crate::scan::scan_entries(disk[place.0].data, 0)[place.1];
            &&& entry.key == key
            &&& !entry.header.tombstone
            &&& crate::recovery::entry_event(disk[place.0].file_id, pos, entry).entry == Some(
                keydir[key],
            )
            &&& crate::scan::is_sound(entry)
            &&& keydir[key].value_pos == pos + HEADER_SIZE + entry.key.len()
            &&& keydir[key].value_pos + keydir[key].value_size <= disk[place.0].data.len()
            &&& value_at(disk, keydir[key]) == entry.value
            &&& disk_last(disk, key) == Some(Some(keydir[key]))
        }),
        keydir[key].file_id == disk[place.0].file_id,
        index_of(disk, keydir[key].file_id) == place.0,
        last_for(data_events(disk[place.0]), key) == Some(Some(keydir[key])),
        forall|i: int|
            place.0 < i < disk.len() ==> last_for(data_events(#[trigger] disk[i]), key) is None,
{
    lemma_recovered_lookup(disk, key);
    let place = lemma_disk_last_place(disk, key);
    let file = disk[place.0];
    let (pos, entry) = crate::scan::scan_entries(file.data, 0)[place.1];
    crate::scan::lemma_scan_layout(file.data, 0);
    assert(crate::scan::is_sound(crate::scan::scan_entries(file.data, 0)[place.1].1));
    lemma_index_of(disk, place.0);
    place
}

/// Making the last file of a run longer, by an entry, adds this entry's change.
proof fn lemma_append_event(
    disk: Seq<DiskFile>,
    key: Seq<u8>,
    value: Seq<u8>,
    tombstone: bool,
    timestamp: u32,
)
    requires
        disk.len() > 0,
        disk.last().hint is None,
        crate::scan::ends_clean(disk.last().data),
        key.len() <= MAX_KEY_LEN,
        value.len() <= u32::MAX,
    ensures
        ({
            let entry = crate::format::entry::entry_of(key, value, tombstone, timestamp);
            let longer = with_appended(disk, key, value, tombstone, timestamp);
            &&& recovered(longer) == crate::recovery::apply_event(
                recovered(disk),
                crate::recovery::entry_event(
                    disk.last().file_id,
                    disk.last().data.len(),
                    entry,
                ),
            )
            &&& hint_agrees(longer.last())
            &&& crate::scan::ends_clean(longer.last().data)
            &&& longer.last().data.len() == disk.last().data.len() + HEADER_SIZE + key.len()
                + value.len()
        }),
{
    let longer = with_appended(disk, key, value, tombstone, timestamp);
    let entry = crate::format::entry::entry_of(key, value, tombstone, timestamp);
    let old_file = disk.last();
    let new_file = longer.last();
    let event = crate::recovery::entry_event(old_file.file_id, old_file.data.len(), entry);
    crate::scan::law_append_adds_one_entry(old_file.data, key, value, tombstone, timestamp);
    crate::format::entry::law_entry_round_trip(key, value, tombstone, timestamp, Seq::empty());
    assert(data_events(new_file) =~= data_events(old_file).push(event));
    assert(images(longer).drop_last() =~= images(disk).drop_last());
    assert(images(longer).last() == image_of(new_file));
    assert(images(disk).last() == image_of(old_file));
    let before = crate::recovery::disk_events(images(disk).drop_last());
    let all = before + data_events(old_file);
    assert(crate::recovery::disk_events(images(longer)) =~= all.push(event));
    assert(crate::recovery::disk_events(images(disk)) =~= all);
    assert(all.push(event).drop_last() =~= all);
}

/// The disk after an entry was appended to the last file and flushed.
pub open spec fn with_appended(
    disk: Seq<DiskFile>,
    key: Seq<u8>,
    value: Seq<u8>,
    tombstone: bool,
    timestamp: u32,
) -> Seq<DiskFile> {
    disk.drop_last().push(
        DiskFile {
            data: disk.last().data + crate::format::entry::entry_bytes(
                key,
                value,
                tombstone,
                timestamp,
            ),
            ..disk.last()
        },
    )
}

/// Values stay where they are when the last file becomes longer.
proof fn lemma_values_stay(
    disk: Seq<DiskFile>,
    keydir: KeydirView,
    key: Seq<u8>,
    value: Seq<u8>,
    tombstone: bool,
    timestamp: u32,
    other: Seq<u8>,
)
    requires
        is_current(disk, keydir),
        disk.len() > 0,
        keydir.contains_key(other),
    ensures
        value_at(with_appended(disk, key, value, tombstone, timestamp), keydir[other]) == value_at(
            disk,
            keydir[other],
        ),
{
    let longer = with_appended(disk, key, value, tombstone, timestamp);
    let place = lemma_anchored(disk, keydir, other);
    let i = place.0;
    assert(ids_ascend(longer));
    lemma_index_of(longer, i);
    assert(longer[i].file_id == disk[i].file_id);
    let entry = keydir[other];
    assert(longer[i].data.subrange(entry.value_pos as int, entry.value_pos + entry.value_size)
        =~= disk[i].data.subrange(entry.value_pos as int, entry.value_pos + entry.value_size));
}

/// An engine that recorded an append and made the entry's change to its index stays in step.
proof fn lemma_append_keeps_step(
    state: EngineView,
    disk: Seq<DiskFile>,
    key: Seq<u8>,
    value: Seq<u8>,
    tombstone: bool,
    timestamp: u32,
    after: EngineView,
)
    requires
        in_step(state, disk),
        state.is_read_write,
        key.len() <= MAX_KEY_LEN,
        value.len() <= u32::MAX,
        state.active->0.offset + HEADER_SIZE + key.len() + value.len() <= u64::MAX,
        after.keydir == crate::recovery::apply_event(
            state.keydir,
            crate::recovery::entry_event(
                disk.last().file_id,
                disk.last().data.len(),
                crate::format::entry::entry_of(key, value, tombstone, timestamp),
            ),
        ),
        after.active == Some(
            ActiveView {
                file_id: state.active->0.file_id,
                offset: (state.active->0.offset + HEADER_SIZE + key.len() + value.len()) as u64,
            },
        ),
        after.next_file_id == state.next_file_id,
        after.is_read_write,
    ensures
        in_step(after, with_appended(disk, key, value, tombstone, timestamp)),
{
    let longer = with_appended(disk, key, value, tombstone, timestamp);
    lemma_append_event(disk, key, value, tombstone, timestamp);
    assert forall|i: int| 0 <= i < longer.len() implies hint_agrees(#[trigger] longer[i])
        && longer[i].data.len() <= u64::MAX && longer[i].buffered.len() == 0 by {
        if i < longer.len() - 1 {
            assert(longer[i] == disk[i]);
        } else {
            assert(disk[i].buffered.len() == 0);
        }
    }
    assert forall|i: int| 0 <= i < longer.len() implies (#[trigger] longer[i]).file_id
        < after.next_file_id by {
        assert(disk[i].file_id < state.next_file_id);
    }
}

/// The value of an entry that was appended stands where the entry says.
proof fn lemma_appended_value(
    disk: Seq<DiskFile>,
    key: Seq<u8>,
    value: Seq<u8>,
    timestamp: u32,
    entry: KeydirEntry,
)
    requires
        ids_ascend(disk),
        disk.len() > 0,
        key.len() <= MAX_KEY_LEN,
        value.len() <= u32::MAX,
        entry.file_id == disk.last().file_id,
        entry.value_pos == disk.last().data.len() + HEADER_SIZE + key.len(),
        entry.value_size == value.len(),
    ensures
        value_at(with_appended(disk, key, value, false, timestamp), entry) == value,
{
    let longer = with_appended(disk, key, value, false, timestamp);
    let whole = crate::format::entry::entry_bytes(key, value, false, timestamp);
    crate::format::entry::law_entry_round_trip(key, value, false, timestamp, Seq::empty());
    assert(ids_ascend(longer));
    lemma_index_of(longer, longer.len() - 1);
    assert(whole.subrange(HEADER_SIZE + key.len(), whole.len() as int) =~= value);
    assert(longer.last().data.subrange(
        entry.value_pos as int,
        entry.value_pos + entry.value_size,
    ) =~= value);
}

/// The state after a `put` that appended its entry, and was published.
pub open spec fn after_put(
    state: EngineView,
    key: Seq<u8>,
    value: Seq<u8>,
    timestamp: u32,
) -> EngineView {
    let active = state.active->0;
    let total_len = crate::format::entry::entry_bytes(key, value, false, timestamp).len();
    let appended = crate::engine::after_append(state, total_len);
    EngineView {
        keydir: state.keydir.insert(
            key,
            crate::engine::written_entry(
                active.file_id,
                (active.offset + total_len - value.len()) as u64,
                value,
                timestamp,
            ),
        ),
        ..appended
    }
}

/// What a `put` does to the state, in terms of the entry that it appends.
proof fn lemma_put_state(
    state: EngineView,
    disk: Seq<DiskFile>,
    key: Seq<u8>,
    value: Seq<u8>,
    timestamp: u32,
)
    requires
        in_step(state, disk),
        state.is_read_write,
        key.len() <= MAX_KEY_LEN,
        value.len() <= u32::MAX,
        state.active->0.offset + HEADER_SIZE + key.len() + value.len() <= u64::MAX,
    ensures
        ({
            let after = after_put(state, key, value, timestamp);
            let entry = crate::format::entry::entry_of(key, value, false, timestamp);
            let event = crate::recovery::entry_event(
                disk.last().file_id,
                disk.last().data.len(),
                entry,
            );
            let written = after.keydir[key];
            &&& event.entry == Some(written)
            &&& written.file_id == disk.last().file_id
            &&& written.value_pos == disk.last().data.len() + HEADER_SIZE + key.len()
            &&& written.value_size == value.len()
            &&& after.keydir == state.keydir.insert(key, written)
            &&& after.active == Some(
                ActiveView {
                    file_id: state.active->0.file_id,
                    offset: (state.active->0.offset + HEADER_SIZE + key.len() + value.len()) as u64,
                },
            )
            &&& after.next_file_id == state.next_file_id
            &&& after.is_read_write
        }),
{
    crate::format::entry::law_entry_round_trip(key, value, false, timestamp, Seq::empty());
    let written = after_put(state, key, value, timestamp).keydir[key];
    assert(value.len() % 0x1_0000_0000 == value.len());
    assert(written.value_size == value.len());
}

/// A `put` stores the value under the key and changes nothing else, and leaves the engine and the
/// disk in step. What is not covered: a value of which the 32-bit length field cannot hold the
/// length.
pub proof fn law_put_stores_the_value(
    state: EngineView,
    disk: Seq<DiskFile>,
    key: Seq<u8>,
    value: Seq<u8>,
    timestamp: u32,
)
    requires
        in_step(state, disk),
        state.is_read_write,
        key.len() <= MAX_KEY_LEN,
        value.len() <= u32::MAX,
        state.active->0.offset + HEADER_SIZE + key.len() + value.len() <= u64::MAX,
    ensures
        ({
            let longer = with_appended(disk, key, value, false, timestamp);
            let after = after_put(state, key, value, timestamp);
            &&& in_step(after, longer)
            &&& contents(longer, after.keydir) == contents(disk, state.keydir).insert(key, value)
        }),
{
    let longer = with_appended(disk, key, value, false, timestamp);
    let after = after_put(state, key, value, timestamp);
    lemma_put_state(state, disk, key, value, timestamp);
    lemma_append_keeps_step(state, disk, key, value, false, timestamp, after);
    lemma_appended_value(disk, key, value, timestamp, after.keydir[key]);
    assert forall|other: Seq<u8>| other != key && #[trigger] state.keydir.contains_key(
        other,
    ) implies value_at(longer, state.keydir[other]) == value_at(disk, state.keydir[other]) by {
        lemma_values_stay(disk, state.keydir, key, value, false, timestamp, other);
    }
    assert(contents(longer, after.keydir) =~= contents(disk, state.keydir).insert(key, value));
}

/// The state after a `delete` that appended its tombstone, and was published.
pub open spec fn after_delete(state: EngineView, key: Seq<u8>, timestamp: u32) -> EngineView {
    let total_len = crate::format::entry::entry_bytes(key, Seq::empty(), true, timestamp).len();
    EngineView {
        keydir: state.keydir.remove(key),
        ..crate::engine::after_append(state, total_len)
    }
}

/// A `delete` removes the key and changes nothing else, and leaves the engine and the disk in
/// step.
pub proof fn law_delete_removes_the_key(
    state: EngineView,
    disk: Seq<DiskFile>,
    key: Seq<u8>,
    timestamp: u32,
)
    requires
        in_step(state, disk),
        state.is_read_write,
        key.len() <= MAX_KEY_LEN,
        state.active->0.offset + HEADER_SIZE + key.len() <= u64::MAX,
    ensures
        ({
            let longer = with_appended(disk, key, Seq::empty(), true, timestamp);
            let after = after_delete(state, key, timestamp);
            &&& in_step(after, longer)
            &&& contents(longer, after.keydir) == contents(disk, state.keydir).remove(key)
        }),
{
    let none = Seq::<u8>::empty();
    let longer = with_appended(disk, key, none, true, timestamp);
    let after = after_delete(state, key, timestamp);
    crate::format::entry::law_entry_round_trip(key, none, true, timestamp, none);
    lemma_append_keeps_step(state, disk, key, none, true, timestamp, after);
    assert forall|other: Seq<u8>| other != key && #[trigger] state.keydir.contains_key(
        other,
    ) implies value_at(longer, state.keydir[other]) == value_at(disk, state.keydir[other]) by {
        lemma_values_stay(disk, state.keydir, key, none, true, timestamp, other);
    }
    assert(contents(longer, after.keydir) =~= contents(disk, state.keydir).remove(key));
}

/// A read gives back what the last write of the key wrote, whatever was written to other keys.
pub proof fn law_read_gives_back_the_write(
    state: EngineView,
    disk: Seq<DiskFile>,
    key: Seq<u8>,
    value: Seq<u8>,
    timestamp: u32,
    other: Seq<u8>,
)
    requires
        in_step(state, disk),
        state.is_read_write,
        key.len() <= MAX_KEY_LEN,
        value.len() <= u32::MAX,
        state.active->0.offset + HEADER_SIZE + key.len() + value.len() <= u64::MAX,
    ensures
        ({
            let longer = with_appended(disk, key, value, false, timestamp);
            let after = after_put(state, key, value, timestamp).keydir;
            let place = crate::keydir::lookup(after, other);
            if other == key {
                place is Some && value_at(longer, place->0) == value
            } else {
                place == crate::keydir::lookup(state.keydir, other) && (place is Some ==> value_at(
                    longer,
                    place->0,
                ) == value_at(disk, place->0))
            }
        }),
{
    let longer = with_appended(disk, key, value, false, timestamp);
    let after = after_put(state, key, value, timestamp);
    law_put_stores_the_value(state, disk, key, value, timestamp);
    if other == key {
        assert(contents(longer, after.keydir)[key] == value);
    } else if state.keydir.contains_key(other) {
        lemma_values_stay(disk, state.keydir, key, value, false, timestamp, other);
    }
}

/// Whatever the index points to can be read: the file is there and long enough. A key is found
/// just where the datastore holds it.
pub proof fn law_located_values_can_be_read(state: EngineView, disk: Seq<DiskFile>, key: Seq<u8>)
    requires
        in_step(state, disk),
    ensures
        (crate::keydir::lookup(state.keydir, key) is Some) == contents(
            disk,
            state.keydir,
        ).contains_key(key),
        state.keydir.contains_key(key) ==> ({
            let entry = state.keydir[key];
            let i = index_of(disk, entry.file_id);
            &&& 0 <= i < disk.len()
            &&& disk[i].file_id == entry.file_id
            &&& entry.value_pos + entry.value_size <= disk[i].data.len()
        }),
{
    if state.keydir.contains_key(key) {
        let place = lemma_anchored(disk, state.keydir, key);
    }
}

/// A new data file with nothing in it.
pub open spec fn new_file(file_id: u32) -> DiskFile {
    DiskFile { file_id, data: Seq::empty(), buffered: Seq::empty(), hint: None }
}

/// A new file with the highest id of all changes nothing.
pub proof fn lemma_new_file_changes_nothing(disk: Seq<DiskFile>, keydir: KeydirView, file_id: u32)
    requires
        is_current(disk, keydir),
        forall|i: int| 0 <= i < disk.len() ==> (#[trigger] disk[i]).file_id < file_id,
    ensures
        is_current(disk.push(new_file(file_id)), keydir),
        contents(disk.push(new_file(file_id)), keydir) == contents(disk, keydir),
        crate::scan::ends_clean(new_file(file_id).data),
{
    let file = new_file(file_id);
    let longer = disk.push(file);
    assert(data_events(file) =~= Seq::empty());
    assert(images(longer).drop_last() =~= images(disk));
    assert(crate::recovery::disk_events(images(longer)) =~= crate::recovery::disk_events(
        images(disk),
    ));
    assert forall|i: int| 0 <= i < longer.len() implies hint_agrees(#[trigger] longer[i])
        && longer[i].data.len() <= u64::MAX && longer[i].buffered.len() == 0 by {
        if i < disk.len() {
            assert(longer[i] == disk[i]);
        }
    }
    assert forall|key: Seq<u8>| #[trigger] keydir.contains_key(key) implies value_at(
        longer,
        keydir[key],
    ) == value_at(disk, keydir[key]) by {
        let place = lemma_anchored(disk, keydir, key);
        assert(longer[place.0] == disk[place.0]);
        lemma_index_of(longer, place.0);
    }
    assert(contents(longer, keydir) =~= contents(disk, keydir));
}

/// The state after the active file was closed and a new one took its place.
pub open spec fn after_rotation(state: EngineView) -> EngineView {
    crate::engine::after_finish_rotation(
        crate::engine::after_begin_rotation(state),
        state.next_file_id,
        0,
    )
}

/// Rotation changes nothing of what the datastore holds, and leaves the engine and the disk in
/// step.
pub proof fn law_rotation_keeps_contents(state: EngineView, disk: Seq<DiskFile>)
    requires
        in_step(state, disk),
        state.is_read_write,
        state.next_file_id < u32::MAX,
    ensures
        in_step(after_rotation(state), disk.push(new_file(state.next_file_id))),
        contents(disk.push(new_file(state.next_file_id)), after_rotation(state).keydir) == contents(
            disk,
            state.keydir,
        ),
{
    let longer = disk.push(new_file(state.next_file_id));
    lemma_new_file_changes_nothing(disk, state.keydir, state.next_file_id);
    assert forall|i: int| 0 <= i < longer.len() implies (#[trigger] longer[i]).file_id
        < after_rotation(state).next_file_id by {
        if i < disk.len() {
            assert(longer[i] == disk[i]);
        }
    }
}

/// The ids of all files.
pub open spec fn file_ids(disk: Seq<DiskFile>) -> Seq<u32> {
    disk.map_values(|file: DiskFile| file.file_id)
}

/// The lengths of all files, by id.
pub open spec fn file_lengths(disk: Seq<DiskFile>) -> Seq<(u32, u64)> {
    disk.map_values(|file: DiskFile| (file.file_id, file.data.len() as u64))
}

/// The files after a datastore was opened: for writing, there is a new one to append to.
pub open spec fn opened_disk(disk: Seq<DiskFile>, is_read_write: bool) -> Seq<DiskFile> {
    if is_read_write {
        disk.push(new_file(crate::engine::first_active_id(file_ids(disk))))
    } else {
        disk
    }
}

/// Reopening a datastore recovers the index that it had, and so all that it held. The new engine
/// and the disk are in step.
pub proof fn law_reopen_recovers_everything(
    disk: Seq<DiskFile>,
    keydir: KeydirView,
    reopened: EngineView,
)
    requires
        is_current(disk, keydir),
        disk.len() > 0 ==> disk.last().file_id < u32::MAX - 1,
        reopened.keydir == crate::recovery::apply_events(
            KeydirView::empty(),
            crate::recovery::disk_events(images(disk)),
        ),
        reopened.active == if reopened.is_read_write {
            Some(
                ActiveView {
                    file_id: crate::engine::first_active_id(file_ids(disk)),
                    offset: 0,
                },
            )
        } else {
            None
        },
        reopened.next_file_id == crate::engine::first_active_id(file_ids(disk)) + 1,
    ensures
        reopened.keydir == keydir,
        in_step(reopened, opened_disk(disk, reopened.is_read_write)),
        contents(opened_disk(disk, reopened.is_read_write), reopened.keydir) == contents(
            disk,
            keydir,
        ),
{
    let first = crate::engine::first_active_id(file_ids(disk));
    let after = opened_disk(disk, reopened.is_read_write);
    assert forall|i: int| 0 <= i < disk.len() implies (#[trigger] disk[i]).file_id < first by {
        assert(file_ids(disk).last() == disk.last().file_id);
        if i < disk.len() - 1 {
            assert(disk[i].file_id < disk[disk.len() - 1].file_id);
        }
    }
    lemma_new_file_changes_nothing(disk, keydir, first);
    assert forall|i: int| 0 <= i < after.len() implies (#[trigger] after[i]).file_id
        < reopened.next_file_id by {
        if i < disk.len() {
            assert(after[i] == disk[i]);
        }
    }
}

/// The disk after a crash cut off an append to the last file.
pub open spec fn with_torn_append(
    disk: Seq<DiskFile>,
    key: Seq<u8>,
    value: Seq<u8>,
    tombstone: bool,
    timestamp: u32,
    cut: int,
) -> Seq<DiskFile> {
    disk.drop_last().push(
        DiskFile {
            data: disk.last().data + crate::format::entry::entry_bytes(
                key,
                value,
                tombstone,
                timestamp,
            ).take(cut),
            ..disk.last()
        },
    )
}

/// A crash that cuts off an append anywhere costs just that append: all that was written before
/// is recovered.
pub proof fn law_crash_costs_only_the_torn_append(
    state: EngineView,
    disk: Seq<DiskFile>,
    key: Seq<u8>,
    value: Seq<u8>,
    tombstone: bool,
    timestamp: u32,
    cut: int,
)
    requires
        in_step(state, disk),
        state.is_read_write,
        key.len() <= MAX_KEY_LEN,
        value.len() <= u32::MAX,
        state.active->0.offset + HEADER_SIZE + key.len() + value.len() <= u64::MAX,
        0 <= cut < crate::format::entry::entry_bytes(key, value, tombstone, timestamp).len(),
    ensures
        is_current(with_torn_append(disk, key, value, tombstone, timestamp, cut), state.keydir),
        contents(
            with_torn_append(disk, key, value, tombstone, timestamp, cut),
            state.keydir,
        ) == contents(disk, state.keydir),
{
    let torn = with_torn_append(disk, key, value, tombstone, timestamp, cut);
    let keydir = state.keydir;
    let whole = crate::format::entry::entry_bytes(key, value, tombstone, timestamp);
    crate::format::entry::law_entry_round_trip(key, value, tombstone, timestamp, Seq::empty());
    crate::scan::law_torn_append_is_dropped(
        disk.last().data,
        key,
        value,
        tombstone,
        timestamp,
        cut,
    );
    assert(data_events(torn.last()) == data_events(disk.last()));
    assert(images(torn).drop_last() =~= images(disk).drop_last());
    assert(images(torn).last() == image_of(torn.last()));
    assert(images(disk).last() == image_of(disk.last()));
    assert(crate::recovery::image_events(image_of(torn.last()))
        == crate::recovery::image_events(image_of(disk.last())));
    assert forall|i: int| 0 <= i < torn.len() implies hint_agrees(#[trigger] torn[i])
        && torn[i].data.len() <= u64::MAX && torn[i].buffered.len() == 0 by {
        if i < torn.len() - 1 {
            assert(torn[i] == disk[i]);
        } else {
            assert(disk[i].buffered.len() == 0);
        }
    }
    assert forall|other: Seq<u8>| #[trigger] keydir.contains_key(other) implies value_at(
        torn,
        keydir[other],
    ) == value_at(disk, keydir[other]) by {
        let place = lemma_anchored(disk, keydir, other);
        let i = place.0;
        let entry = keydir[other];
        assert(torn[i].file_id == disk[i].file_id);
        lemma_index_of(torn, i);
        assert(torn[i].data.subrange(entry.value_pos as int, entry.value_pos + entry.value_size)
            =~= disk[i].data.subrange(
            entry.value_pos as int,
            entry.value_pos + entry.value_size,
        ));
    }
    assert(contents(torn, keydir) =~= contents(disk, keydir));
}

} // verus!
