//! That a merge keeps what a datastore holds: for readers, at every step of it, and for recovery,
//! wherever it is interrupted.
//!
//! The steps of a merge are run on a model of the disk, in which appended bytes stay in a buffer
//! until they are flushed.
use vstd::prelude::*;

use super::output_writer::{MergeStepView, OutputView};
use super::pending_queue::Repoint;
use super::{Copying, MergeView};
use crate::datafile::ActiveView;
use crate::format::entry::EntryView;
use crate::format::hint::{HintReadView, HintView};
use crate::format::{EntryHeader, HEADER_SIZE, HINT_HEADER_SIZE, MAX_KEY_LEN};
use crate::keydir::{KeydirEntry, KeydirView};
use crate::recovery::{HintProblem, KeyEvent};
use crate::store::DiskFile;

verus! {

/// The disk and the index.
#[verifier::ext_equal]
pub struct World {
    pub disk: Seq<DiskFile>,
    pub keydir: KeydirView,
}

/// A file after its buffer was flushed.
pub open spec fn flushed(file: DiskFile) -> DiskFile {
    DiskFile { data: file.data + file.buffered, buffered: Seq::empty(), ..file }
}

/// The disk with a change to the file with the given id.
pub open spec fn update_file(
    disk: Seq<DiskFile>,
    file_id: u32,
    change: spec_fn(DiskFile) -> DiskFile,
) -> Seq<DiskFile> {
    disk.map_values(
        |file: DiskFile|
            if file.file_id == file_id {
                change(file)
            } else {
                file
            },
    )
}

/// What carrying out one step of a merge does.
pub open spec fn run_step(world: World, step: MergeStepView) -> World {
    match step {
        MergeStepView::Create { file_id } => World {
            disk: world.disk.push(crate::store::new_file(file_id)),
            ..world
        },
        MergeStepView::Append { file_id, bytes } => World {
            disk: update_file(
                world.disk,
                file_id,
                |file: DiskFile| DiskFile { buffered: file.buffered + bytes, ..file },
            ),
            ..world
        },
        MergeStepView::Flush { file_id } => World {
            disk: update_file(world.disk, file_id, |file: DiskFile| flushed(file)),
            ..world
        },
        MergeStepView::Finish { file_id, hint } => World {
            disk: update_file(
                world.disk,
                file_id,
                |file: DiskFile| DiskFile { hint: Some(hint), ..flushed(file) },
            ),
            ..world
        },
        MergeStepView::Repoint(items) => World {
            keydir: super::repoint_all(world.keydir, items),
            ..world
        },
        MergeStepView::Remove { file_id } => World {
            disk: world.disk.filter(|file: DiskFile| file.file_id != file_id),
            ..world
        },
    }
}

/// What carrying out a run of steps does.
pub open spec fn run_steps(world: World, steps: Seq<MergeStepView>) -> World
    decreases steps.len(),
{
    if steps.len() == 0 {
        world
    } else {
        run_step(run_steps(world, steps.drop_last()), steps.last())
    }
}

pub proof fn lemma_run_concat(world: World, first: Seq<MergeStepView>, second: Seq<MergeStepView>)
    ensures
        run_steps(world, first + second) == run_steps(run_steps(world, first), second),
    decreases second.len(),
{
    if second.len() == 0 {
        assert(first + second =~= first);
    } else {
        assert((first + second).drop_last() =~= first + second.drop_last());
        lemma_run_concat(world, first, second.drop_last());
    }
}

/// A change to the last file changes just this one.
pub proof fn lemma_update_last(
    disk: Seq<DiskFile>,
    change: spec_fn(DiskFile) -> DiskFile,
)
    requires
        crate::store::ids_ascend(disk),
        disk.len() > 0,
    ensures
        update_file(disk, disk.last().file_id, change) == disk.drop_last().push(change(disk.last())),
{
    let last = disk.len() - 1;
    let updated = update_file(disk, disk.last().file_id, change);
    assert forall|i: int| 0 <= i < disk.len() implies #[trigger] updated[i]
        == disk.drop_last().push(change(disk.last()))[i] by {
        if i < last {
            assert(disk[i].file_id < disk[last].file_id);
        }
    }
    assert(updated =~= disk.drop_last().push(change(disk.last())));
}

/// What is merged: the files and the index when the merge began. The last file is the active one,
/// and all others are inputs.
#[verifier::ext_equal]
pub struct Base {
    pub disk: Seq<DiskFile>,
    pub keydir: KeydirView,
}

impl Base {
    /// Whether the index is current.
    pub open spec fn wf(self) -> bool {
        &&& crate::store::is_current(self.disk, self.keydir)
        &&& self.disk.len() > 0
    }

    /// Id of the active file.
    pub open spec fn active_id(self) -> u32 {
        self.disk.last().file_id
    }

    /// What the datastore holds.
    pub open spec fn contents(self) -> Map<Seq<u8>, Seq<u8>> {
        crate::store::contents(self.disk, self.keydir)
    }
}

/// Whether an entry is a copy of the live entry of its key, which stands in an input file.
pub open spec fn is_copy(base: Base, entry: EntryView) -> bool {
    &&& !entry.header.tombstone
    &&& base.keydir.contains_key(entry.key)
    &&& base.keydir[entry.key].file_id < base.active_id()
    &&& entry.value == crate::store::value_at(base.disk, base.keydir[entry.key])
}

/// Whether all entries of a file are copies of live entries.
pub open spec fn holds_copies(base: Base, data: Seq<u8>) -> bool {
    forall|j: int|
        0 <= j < crate::scan::scan_entries(data, 0).len() ==> is_copy(
            base,
            (#[trigger] crate::scan::scan_entries(data, 0)[j]).1,
        )
}

/// Whether an entry of the index points to one of the entries of a file.
pub open spec fn points_into(file: DiskFile, key: Seq<u8>, entry: KeydirEntry) -> bool {
    exists|j: int|
        0 <= j < crate::store::data_events(file).len() && #[trigger] crate::store::data_events(
            file,
        )[j] == (KeyEvent { key, entry: Some(entry) })
}

/// Whether a key is where it was, or points to a copy in an output file that readers see.
pub open spec fn is_kept(base: Base, disk: Seq<DiskFile>, key: Seq<u8>, entry: KeydirEntry) -> bool {
    ||| entry == base.keydir[key]
    ||| exists|i: int|
        base.disk.len() <= i < disk.len() && points_into(#[trigger] disk[i], key, entry)
}

/// Whether what is in the buffer of an output file is copies of live entries too, and the file
/// has no hint file before the buffer is flushed.
pub open spec fn buffer_is_sound(base: Base, file: DiskFile) -> bool {
    &&& holds_copies(base, flushed(file).data)
    &&& flushed(file).data.len() <= u64::MAX
    &&& file.buffered.len() > 0 ==> file.hint is None
}

/// Whether the old files are all there, the output files hold copies of live entries only, and
/// every key is where it was or points to a copy.
pub open spec fn keeps(base: Base, world: World) -> bool {
    &&& world.disk.len() >= base.disk.len()
    &&& world.disk.take(base.disk.len() as int) == base.disk
    &&& crate::store::ids_ascend(world.disk)
    &&& forall|i: int|
        base.disk.len() <= i < world.disk.len() ==> crate::store::hint_agrees(
            #[trigger] world.disk[i],
        ) && holds_copies(base, world.disk[i].data) && world.disk[i].data.len() <= u64::MAX
            && crate::scan::ends_clean(world.disk[i].data) && buffer_is_sound(base, world.disk[i])
    &&& forall|key: Seq<u8>| #[trigger]
        world.keydir.contains_key(key) == base.keydir.contains_key(key)
    &&& forall|key: Seq<u8>| #[trigger]
        world.keydir.contains_key(key) ==> is_kept(base, world.disk, key, world.keydir[key])
}

/// Whether readers and recovery find all that the datastore held.
pub open spec fn is_intact(base: Base, world: World) -> bool {
    &&& crate::store::contents(world.disk, world.keydir) == base.contents()
    &&& crate::store::contents(world.disk, crate::store::recovered(world.disk)) == base.contents()
}

/// The value of an entry of an output file is that of the live entry.
proof fn lemma_copy_value(base: Base, disk: Seq<DiskFile>, i: int, key: Seq<u8>, entry: KeydirEntry)
    requires
        crate::store::ids_ascend(disk),
        0 <= i < disk.len(),
        holds_copies(base, disk[i].data),
        disk[i].data.len() <= u64::MAX,
        points_into(disk[i], key, entry),
    ensures
        base.keydir.contains_key(key),
        crate::store::value_at(disk, entry) == crate::store::value_at(base.disk, base.keydir[key]),
{
    let file = disk[i];
    let entries = crate::scan::scan_entries(file.data, 0);
    let j = choose|j: int|
        0 <= j < crate::store::data_events(file).len() && #[trigger] crate::store::data_events(
            file,
        )[j] == (KeyEvent { key, entry: Some(entry) });
    let (pos, found) = entries[j];
    crate::scan::lemma_scan_layout(file.data, 0);
    assert(crate::scan::is_sound(crate::scan::scan_entries(file.data, 0)[j].1));
    assert(is_copy(base, crate::scan::scan_entries(file.data, 0)[j].1));
    assert(crate::store::data_events(file)[j] == crate::recovery::entry_event(
        file.file_id,
        pos,
        found,
    ));
    crate::store::lemma_index_of(disk, i);
}

/// A key that is where it was has the value that it had.
proof fn lemma_old_value(base: Base, disk: Seq<DiskFile>, key: Seq<u8>)
    requires
        base.wf(),
        crate::store::ids_ascend(disk),
        disk.len() >= base.disk.len(),
        disk.take(base.disk.len() as int) == base.disk,
        base.keydir.contains_key(key),
    ensures
        crate::store::value_at(disk, base.keydir[key]) == crate::store::value_at(
            base.disk,
            base.keydir[key],
        ),
{
    let place = crate::store::lemma_anchored(base.disk, base.keydir, key);
    assert(disk.take(base.disk.len() as int)[place.0] == disk[place.0]);
    crate::store::lemma_index_of(disk, place.0);
}

/// Whether all that recovery takes from a file stands in it. A hint file may say less than its
/// data file.
pub open spec fn image_stands(file: DiskFile) -> bool {
    forall|j: int|
        0 <= j < crate::recovery::image_events(crate::store::image_of(file)).len()
            ==> crate::store::data_events(file).contains(
            #[trigger] crate::recovery::image_events(crate::store::image_of(file))[j],
        )
}

/// Whether the old files are all there, and the rest hold copies of live entries only.
pub open spec fn is_recoverable(base: Base, disk: Seq<DiskFile>) -> bool {
    &&& disk.len() >= base.disk.len()
    &&& disk.take(base.disk.len() as int) == base.disk
    &&& crate::store::ids_ascend(disk)
    &&& forall|i: int|
        base.disk.len() <= i < disk.len() ==> image_stands(#[trigger] disk[i]) && holds_copies(
            base,
            disk[i].data,
        ) && disk[i].data.len() <= u64::MAX
}

/// What recovery takes from a run of files.
pub open spec fn image_run(files: Seq<DiskFile>) -> Seq<KeyEvent>
    decreases files.len(),
{
    if files.len() == 0 {
        Seq::empty()
    } else {
        image_run(files.drop_last()) + crate::recovery::image_events(
            crate::store::image_of(files.last()),
        )
    }
}

proof fn lemma_events_with_run(disk: Seq<DiskFile>, files: Seq<DiskFile>)
    ensures
        crate::recovery::disk_events(crate::store::images(disk + files))
            == crate::recovery::disk_events(crate::store::images(disk)) + image_run(files),
    decreases files.len(),
{
    let old_events = crate::recovery::disk_events(crate::store::images(disk));
    if files.len() == 0 {
        assert(disk + files =~= disk);
        assert(old_events + image_run(files) =~= old_events);
    } else {
        let rest = files.drop_last();
        let all = crate::store::images(disk + files);
        lemma_events_with_run(disk, rest);
        assert(all.drop_last() =~= crate::store::images(disk + rest));
        assert(all.last() == crate::store::image_of(files.last()));
        let last = crate::recovery::image_events(crate::store::image_of(files.last()));
        assert(old_events + (image_run(rest) + last) =~= (old_events + image_run(rest)) + last);
    }
}

/// Which file, and what in it, has the last change about a key that recovery takes.
proof fn lemma_run_place(files: Seq<DiskFile>, key: Seq<u8>) -> (place: (int, int))
    requires
        crate::store::last_for(image_run(files), key) is Some,
    ensures
        0 <= place.0 < files.len(),
        ({
            let events = crate::recovery::image_events(crate::store::image_of(files[place.0]));
            &&& 0 <= place.1 < events.len()
            &&& events[place.1].key == key
            &&& crate::store::last_for(image_run(files), key) == Some(events[place.1].entry)
        }),
    decreases files.len(),
{
    let rest = files.drop_last();
    let last = crate::recovery::image_events(crate::store::image_of(files.last()));
    crate::store::lemma_last_concat(image_run(rest), last, key);
    if crate::store::last_for(last, key) is Some {
        (files.len() - 1, crate::store::lemma_last_index(last, key))
    } else {
        let place = lemma_run_place(rest, key);
        assert(rest[place.0] == files[place.0]);
        place
    }
}

/// What recovery finds for a key has the value that the key had, and there is no such key
/// otherwise.
proof fn lemma_recovered_value(base: Base, disk: Seq<DiskFile>, key: Seq<u8>)
    requires
        base.wf(),
        is_recoverable(base, disk),
    ensures
        ({
            let found = crate::keydir::lookup(crate::store::recovered(disk), key);
            &&& (found is Some) == base.keydir.contains_key(key)
            &&& found is Some ==> crate::store::value_at(disk, found->0) == crate::store::value_at(
                base.disk,
                base.keydir[key],
            )
        }),
{
    let n = base.disk.len() as int;
    let files = disk.skip(n);
    assert(base.disk + files =~= disk) by {
        assert(disk.take(n) + disk.skip(n) =~= disk);
    }
    lemma_events_with_run(base.disk, files);
    crate::recovery::lemma_apply_concat(
        KeydirView::empty(),
        crate::recovery::disk_events(crate::store::images(base.disk)),
        image_run(files),
    );
    crate::store::law_last_write_wins(base.keydir, image_run(files), key);
    if crate::store::last_for(image_run(files), key) is Some {
        let place = lemma_run_place(files, key);
        let file = disk[n + place.0];
        assert(files[place.0] == file);
        assert(image_stands(disk[n + place.0]));
        let event = crate::recovery::image_events(crate::store::image_of(file))[place.1];
        let events = crate::store::data_events(file);
        assert(events.contains(event));
        let j = choose|j: int| 0 <= j < events.len() && events[j] == event;
        let (pos, found) = crate::scan::scan_entries(file.data, 0)[j];
        assert(is_copy(base, crate::scan::scan_entries(file.data, 0)[j].1));
        assert(events[j] == crate::recovery::entry_event(file.file_id, pos, found));
        assert(events[j] == (KeyEvent { key, entry: Some(event.entry->0) }));
        assert(points_into(file, key, event.entry->0));
        lemma_copy_value(base, disk, n + place.0, key, event.entry->0);
    } else if base.keydir.contains_key(key) {
        lemma_old_value(base, disk, key);
    }
}

/// Where the old files are there and the rest are copies, recovery finds all that there was.
pub proof fn lemma_recoverable(base: Base, disk: Seq<DiskFile>)
    requires
        base.wf(),
        is_recoverable(base, disk),
    ensures
        crate::store::contents(disk, crate::store::recovered(disk)) == base.contents(),
{
    let recovered = crate::store::recovered(disk);
    assert forall|key: Seq<u8>| #[trigger] recovered.contains_key(key) == base.keydir.contains_key(
        key,
    ) by {
        lemma_recovered_value(base, disk, key);
    }
    assert forall|key: Seq<u8>| #[trigger] recovered.contains_key(key) implies crate::store::value_at(
        disk,
        recovered[key],
    ) == crate::store::value_at(base.disk, base.keydir[key]) by {
        lemma_recovered_value(base, disk, key);
    }
    assert(crate::store::contents(disk, recovered) =~= base.contents());
}

/// Where every key is where it was or points to a copy, readers find all that there was.
pub proof fn lemma_readable(base: Base, disk: Seq<DiskFile>, keydir: KeydirView)
    requires
        base.wf(),
        is_recoverable(base, disk),
        forall|key: Seq<u8>| #[trigger]
            keydir.contains_key(key) == base.keydir.contains_key(key),
        forall|key: Seq<u8>| #[trigger]
            keydir.contains_key(key) ==> is_kept(base, disk, key, keydir[key]),
    ensures
        crate::store::contents(disk, keydir) == base.contents(),
{
    assert forall|key: Seq<u8>| #[trigger] keydir.contains_key(key) implies crate::store::value_at(
        disk,
        keydir[key],
    ) == crate::store::value_at(base.disk, base.keydir[key]) by {
        let entry = keydir[key];
        assert(is_kept(base, disk, key, entry));
        if entry == base.keydir[key] {
            lemma_old_value(base, disk, key);
        } else {
            let i = choose|i: int|
                base.disk.len() <= i < disk.len() && points_into(#[trigger] disk[i], key, entry);
            lemma_copy_value(base, disk, i, key, entry);
        }
    }
    assert(crate::store::contents(disk, keydir) =~= base.contents());
}

/// A file whose hint file agrees with it gives recovery what stands in it.
pub proof fn lemma_agreeing_image_stands(file: DiskFile)
    requires
        crate::store::hint_agrees(file),
    ensures
        image_stands(file),
{
    let events = crate::store::data_events(file);
    assert forall|j: int|
        0 <= j < crate::recovery::image_events(
            crate::store::image_of(file),
        ).len() implies events.contains(
        #[trigger] crate::recovery::image_events(crate::store::image_of(file))[j],
    ) by {
        assert(events[j] == crate::recovery::image_events(crate::store::image_of(file))[j]);
    }
}

pub proof fn lemma_keeps_is_recoverable(base: Base, world: World)
    requires
        keeps(base, world),
    ensures
        is_recoverable(base, world.disk),
{
    assert forall|i: int| base.disk.len() <= i < world.disk.len() implies image_stands(
        #[trigger] world.disk[i],
    ) by {
        lemma_agreeing_image_stands(world.disk[i]);
    }
}

/// Where the old files are there and the rest are copies, nothing is lost.
pub proof fn lemma_keeps_is_intact(base: Base, world: World)
    requires
        base.wf(),
        keeps(base, world),
    ensures
        is_intact(base, world),
{
    lemma_keeps_is_recoverable(base, world);
    lemma_readable(base, world.disk, world.keydir);
    lemma_recoverable(base, world.disk);
}

/// What follows a whole hint record does not change how it is read.
pub proof fn lemma_parse_hint_extend(bytes: Seq<u8>, more: Seq<u8>)
    requires
        crate::format::hint::parse_hint(bytes) is Some,
        crate::format::hint::parse_hint(bytes) != Some(HintReadView::Truncated),
    ensures
        crate::format::hint::parse_hint(bytes + more) == crate::format::hint::parse_hint(bytes),
        0 < crate::format::hint::hint_read_len(bytes) <= bytes.len(),
        crate::format::hint::hint_read_len(bytes + more) == crate::format::hint::hint_read_len(
            bytes,
        ),
{
    let all = bytes + more;
    let header = crate::format::hint::hint_header_of(bytes);
    let total_len = HINT_HEADER_SIZE + header.key_size;
    assert(crate::format::hint::hint_header_of(all) == header);
    assert(crate::format::u64_at(all, 12) == crate::format::u64_at(bytes, 12));
    assert(all.subrange(HINT_HEADER_SIZE as int, total_len) =~= bytes.subrange(
        HINT_HEADER_SIZE as int,
        total_len,
    ));
}

/// The records of two runs, one after the other.
proof fn lemma_hint_records_concat(first: Seq<u8>, second: Seq<u8>, data_file_len: u64)
    requires
        crate::recovery::hint_records(first, data_file_len) is Ok,
        crate::recovery::hint_records(second, data_file_len) is Ok,
    ensures
        crate::recovery::hint_records(first + second, data_file_len) == Ok::<
            Seq<HintView>,
            HintProblem,
        >(
            crate::recovery::hint_records(first, data_file_len)->Ok_0
                + crate::recovery::hint_records(second, data_file_len)->Ok_0,
        ),
    decreases first.len(),
{
    let tail = crate::recovery::hint_records(second, data_file_len)->Ok_0;
    match crate::format::hint::parse_hint(first) {
        None => {
            assert(first + second =~= second);
            assert(Seq::<HintView>::empty() + tail =~= tail);
        },
        Some(HintReadView::Truncated) => {},
        Some(HintReadView::Complete(hint)) => {
            let len = crate::format::hint::hint_read_len(first) as int;
            let rest = first.skip(len);
            lemma_parse_hint_extend(first, second);
            assert((first + second).skip(len) =~= rest + second);
            lemma_hint_records_concat(rest, second, data_file_len);
            let middle = crate::recovery::hint_records(rest, data_file_len)->Ok_0;
            assert(seq![hint] + (middle + tail) =~= (seq![hint] + middle) + tail);
        },
    }
}

/// Whether hint records say what the given changes say, for a data file of `len` bytes or more.
pub open spec fn hints_match(
    content: Seq<u8>,
    file_id: u32,
    events: Seq<KeyEvent>,
    len: nat,
) -> bool {
    forall|data_file_len: u64|
        data_file_len >= len ==> hints_match_at(content, file_id, events, data_file_len)
}

/// Whether hint records say what the given changes say, for a data file of a given length.
pub open spec fn hints_match_at(
    content: Seq<u8>,
    file_id: u32,
    events: Seq<KeyEvent>,
    data_file_len: u64,
) -> bool {
    &&& crate::recovery::hint_records(content, data_file_len) is Ok
    &&& crate::recovery::hint_events(
        file_id,
        crate::recovery::hint_records(content, data_file_len)->Ok_0,
    ) == events
}

/// One more record says one change more.
proof fn lemma_hints_match_push(
    content: Seq<u8>,
    file_id: u32,
    events: Seq<KeyEvent>,
    len: nat,
    key: Seq<u8>,
    header: EntryHeader,
    value_pos: u64,
)
    requires
        hints_match(content, file_id, events, len),
        header.key_size == key.len(),
        header.key_size <= MAX_KEY_LEN,
        !header.tombstone,
        len <= value_pos + header.value_size,
        value_pos + header.value_size <= u64::MAX,
    ensures
        hints_match(
            content + crate::format::hint::hint_bytes(key, header, value_pos),
            file_id,
            events.push(
                KeyEvent {
                    key,
                    entry: Some(
                        KeydirEntry {
                            file_id,
                            value_size: header.value_size,
                            value_pos,
                            timestamp: header.timestamp,
                        },
                    ),
                },
            ),
            (value_pos + header.value_size) as nat,
        ),
{
    let record = crate::format::hint::hint_bytes(key, header, value_pos);
    let hint = HintView { header, value_pos, key };
    let none = Seq::<u8>::empty();
    let event = crate::recovery::hint_event(file_id, hint);
    crate::format::hint::law_hint_round_trip(key, header, value_pos, none);
    assert(record + none =~= record);
    assert(record.skip(record.len() as int) =~= none);
    assert forall|data_file_len: u64| data_file_len >= value_pos + header.value_size implies hints_match_at(
        content + record,
        file_id,
        events.push(event),
        data_file_len,
    ) by {
        assert(hints_match_at(content, file_id, events, data_file_len));
        assert(crate::recovery::hint_records(none, data_file_len) == Ok::<
            Seq<HintView>,
            HintProblem,
        >(Seq::empty()));
        assert(seq![hint] + Seq::<HintView>::empty() =~= seq![hint]);
        assert(crate::recovery::hint_records(record, data_file_len) == Ok::<
            Seq<HintView>,
            HintProblem,
        >(seq![hint]));
        lemma_hint_records_concat(content, record, data_file_len);
        let before = crate::recovery::hint_records(content, data_file_len)->Ok_0;
        assert(crate::recovery::hint_events(file_id, before + seq![hint]) =~= events.push(event));
    }
}

/// A finished hint file whose records say what its data file says agrees with it.
proof fn lemma_finished_hint_agrees(file: DiskFile, content: Seq<u8>)
    requires
        file.data.len() <= u64::MAX,
        hints_match(content, file.file_id, crate::store::data_events(file), file.data.len()),
        file.hint == Some(crate::format::hint::hint_file_bytes(content)),
    ensures
        crate::store::hint_agrees(file),
{
    crate::format::hint::law_finished_hint_file_is_valid(content);
    assert(hints_match_at(
        content,
        file.file_id,
        crate::store::data_events(file),
        file.data.len() as u64,
    ));
}

/// The output files.
pub open spec fn outputs(base: Base, disk: Seq<DiskFile>) -> Seq<DiskFile> {
    disk.skip(base.disk.len() as int)
}

/// The changes that output files make once they are flushed.
pub open spec fn output_events(files: Seq<DiskFile>) -> Seq<KeyEvent>
    decreases files.len(),
{
    if files.len() == 0 {
        Seq::empty()
    } else {
        output_events(files.drop_last()) + crate::store::data_events(flushed(files.last()))
    }
}

/// Which output file has the last change about a key.
pub proof fn lemma_output_event_place(files: Seq<DiskFile>, key: Seq<u8>) -> (i: int)
    requires
        crate::store::last_for(output_events(files), key) is Some,
    ensures
        0 <= i < files.len(),
        crate::store::last_for(crate::store::data_events(flushed(files[i])), key)
            == crate::store::last_for(output_events(files), key),
    decreases files.len(),
{
    let rest = files.drop_last();
    let last = crate::store::data_events(flushed(files.last()));
    crate::store::lemma_last_concat(output_events(rest), last, key);
    if crate::store::last_for(last, key) is Some {
        files.len() - 1
    } else {
        lemma_output_event_place(rest, key)
    }
}

/// Flushing adds changes after those that readers saw.
proof fn lemma_flush_extends(file: DiskFile)
    requires
        crate::scan::ends_clean(file.data),
    ensures
        crate::store::data_events(file).len() <= crate::store::data_events(flushed(file)).len(),
        forall|j: int|
            0 <= j < crate::store::data_events(file).len() ==> #[trigger] crate::store::data_events(
                flushed(file),
            )[j] == crate::store::data_events(file)[j],
{
    crate::scan::lemma_scan_concat(file.data, file.buffered, 0, true);
}

/// The disk with another last file.
pub open spec fn with_last(disk: Seq<DiskFile>, file: DiskFile) -> Seq<DiskFile> {
    disk.drop_last().push(file)
}

/// Bytes in a buffer concern neither readers nor recovery.
proof fn lemma_append_keeps(base: Base, world: World, buffered: Seq<u8>)
    requires
        base.wf(),
        keeps(base, world),
        world.disk.len() > base.disk.len(),
        buffer_is_sound(base, DiskFile { buffered, ..world.disk.last() }),
    ensures
        keeps(
            base,
            World {
                disk: with_last(world.disk, DiskFile { buffered, ..world.disk.last() }),
                ..world
            },
        ),
{
    let file = DiskFile { buffered, ..world.disk.last() };
    let disk = with_last(world.disk, file);
    let n = base.disk.len() as int;
    assert(disk.take(n) =~= world.disk.take(n));
    assert forall|i: int| n <= i < disk.len() implies crate::store::hint_agrees(#[trigger] disk[i])
        && holds_copies(base, disk[i].data) && disk[i].data.len() <= u64::MAX
        && crate::scan::ends_clean(disk[i].data) && buffer_is_sound(base, disk[i]) by {
        assert(crate::store::hint_agrees(world.disk[i]));
        assert(disk[i].data == world.disk[i].data);
        assert(crate::store::data_events(disk[i]) == crate::store::data_events(world.disk[i]));
    }
    assert forall|key: Seq<u8>| #[trigger] world.keydir.contains_key(key) implies is_kept(
        base,
        disk,
        key,
        world.keydir[key],
    ) by {
        let entry = world.keydir[key];
        assert(is_kept(base, world.disk, key, entry));
        if entry != base.keydir[key] {
            let i = choose|i: int|
                n <= i < world.disk.len() && points_into(#[trigger] world.disk[i], key, entry);
            assert(crate::store::data_events(disk[i]) == crate::store::data_events(world.disk[i]));
            assert(points_into(disk[i], key, entry));
        }
    }
}

/// Flushing copies concerns neither readers nor recovery, with or without a hint file that
/// agrees.
proof fn lemma_flush_keeps(base: Base, world: World, hint: Option<Seq<u8>>)
    requires
        base.wf(),
        keeps(base, world),
        world.disk.len() > base.disk.len(),
        crate::scan::ends_clean(flushed(world.disk.last()).data),
        holds_copies(base, flushed(world.disk.last()).data),
        flushed(world.disk.last()).data.len() <= u64::MAX,
        crate::store::hint_agrees(DiskFile { hint, ..flushed(world.disk.last()) }),
    ensures
        keeps(
            base,
            World {
                disk: with_last(world.disk, DiskFile { hint, ..flushed(world.disk.last()) }),
                ..world
            },
        ),
{
    let file = DiskFile { hint, ..flushed(world.disk.last()) };
    let disk = with_last(world.disk, file);
    let n = base.disk.len() as int;
    let last = disk.len() - 1;
    assert(disk.take(n) =~= world.disk.take(n));
    assert forall|i: int| n <= i < disk.len() implies crate::store::hint_agrees(#[trigger] disk[i])
        && holds_copies(base, disk[i].data) && disk[i].data.len() <= u64::MAX
        && crate::scan::ends_clean(disk[i].data) && buffer_is_sound(base, disk[i]) by {
        if i < last {
            assert(disk[i] == world.disk[i]);
        }
    }
    assert forall|key: Seq<u8>| #[trigger] world.keydir.contains_key(key) implies is_kept(
        base,
        disk,
        key,
        world.keydir[key],
    ) by {
        let entry = world.keydir[key];
        assert(is_kept(base, world.disk, key, entry));
        if entry != base.keydir[key] {
            let i = choose|i: int|
                n <= i < world.disk.len() && points_into(#[trigger] world.disk[i], key, entry);
            if i < last {
                assert(disk[i] == world.disk[i]);
            } else {
                lemma_flush_extends(world.disk.last());
                let events = crate::store::data_events(world.disk.last());
                let j = choose|j: int|
                    0 <= j < events.len() && #[trigger] events[j] == (KeyEvent {
                        key,
                        entry: Some(entry),
                    });
                assert(crate::store::data_events(file)[j] == events[j]) by {
                    assert(crate::store::data_events(flushed(world.disk.last()))[j] == events[j]);
                }
            }
            assert(points_into(disk[i], key, entry));
        }
    }
}

/// A new output file concerns neither readers nor recovery.
pub proof fn lemma_create_keeps(base: Base, world: World, file_id: u32)
    requires
        base.wf(),
        keeps(base, world),
        forall|i: int| 0 <= i < world.disk.len() ==> (#[trigger] world.disk[i]).file_id < file_id,
    ensures
        keeps(base, World { disk: world.disk.push(crate::store::new_file(file_id)), ..world }),
{
    let file = crate::store::new_file(file_id);
    let disk = world.disk.push(file);
    let n = base.disk.len() as int;
    assert(disk.take(n) =~= world.disk.take(n));
    assert(crate::scan::scan_entries(file.data, 0).len() == 0);
    assert forall|i: int| n <= i < disk.len() implies crate::store::hint_agrees(#[trigger] disk[i])
        && holds_copies(base, disk[i].data) && disk[i].data.len() <= u64::MAX
        && crate::scan::ends_clean(disk[i].data) && buffer_is_sound(base, disk[i]) by {
        if i < world.disk.len() {
            assert(disk[i] == world.disk[i]);
        }
    }
    assert forall|key: Seq<u8>| #[trigger] world.keydir.contains_key(key) implies is_kept(
        base,
        disk,
        key,
        world.keydir[key],
    ) by {
        let entry = world.keydir[key];
        assert(is_kept(base, world.disk, key, entry));
        if entry != base.keydir[key] {
            let i = choose|i: int|
                n <= i < world.disk.len() && points_into(#[trigger] world.disk[i], key, entry);
            assert(disk[i] == world.disk[i]);
        }
    }
}

/// Whether nothing is in a buffer.
pub open spec fn all_flushed(disk: Seq<DiskFile>) -> bool {
    forall|i: int| 0 <= i < disk.len() ==> (#[trigger] disk[i]).buffered.len() == 0
}

/// Repointing keys to copies that were flushed concerns neither readers nor recovery.
pub proof fn lemma_repoint_keeps(base: Base, world: World, keydir: KeydirView)
    requires
        base.wf(),
        keeps(base, world),
        all_flushed(world.disk),
        keydir == crate::recovery::apply_events(
            base.keydir,
            output_events(outputs(base, world.disk)),
        ),
    ensures
        keeps(base, World { keydir, ..world }),
{
    let n = base.disk.len() as int;
    let files = outputs(base, world.disk);
    let events = output_events(files);
    assert forall|key: Seq<u8>| #[trigger] keydir.contains_key(key) == base.keydir.contains_key(key)
        && (keydir.contains_key(key) ==> is_kept(base, world.disk, key, keydir[key])) by {
        crate::store::law_last_write_wins(base.keydir, events, key);
        if crate::store::last_for(events, key) is Some {
            let i = lemma_output_event_place(files, key);
            let file = world.disk[n + i];
            assert(files[i] == file);
            assert(flushed(file) =~= file);
            let j = crate::store::lemma_last_index(crate::store::data_events(file), key);
            let (pos, found) = crate::scan::scan_entries(file.data, 0)[j];
            assert(is_copy(base, crate::scan::scan_entries(file.data, 0)[j].1));
            assert(crate::store::data_events(file)[j] == crate::recovery::entry_event(
                file.file_id,
                pos,
                found,
            ));
            assert(crate::store::data_events(file)[j] == (KeyEvent {
                key,
                entry: Some(keydir[key]),
            }));
            assert(points_into(world.disk[n + i], key, keydir[key]));
        }
    }
}

/// Whether the value of a key stands in an input file that was copied, or in the part of file
/// number `at` before `limit`.
pub open spec fn is_behind(base: Base, entry: KeydirEntry, at: int, limit: nat) -> bool {
    ||| entry.file_id < base.disk[at].file_id
    ||| entry.file_id == base.disk[at].file_id && entry.value_pos < limit
}

/// Whether the last output file is as the merge has it.
pub open spec fn is_current_output(base: Base, file: DiskFile, output: OutputView) -> bool {
    &&& file.file_id == output.data.file_id
    &&& super::output_writer::is_new(output.existing, output.data.file_id)
    &&& file.hint is None
    &&& flushed(file).data.len() == output.data.offset
    &&& crate::scan::ends_clean(flushed(file).data)
    &&& holds_copies(base, flushed(file).data)
    &&& hints_match(
        output.hints,
        file.file_id,
        crate::store::data_events(flushed(file)),
        output.data.offset as nat,
    )
}

/// Whether exactly the keys that the merge has passed were copied.
pub open spec fn is_complete(base: Base, disk: Seq<DiskFile>, at: int, limit: nat) -> bool {
    forall|key: Seq<u8>|
        (#[trigger] crate::store::last_for(output_events(outputs(base, disk)), key) is Some) == (
        base.keydir.contains_key(key) && is_behind(base, base.keydir[key], at, limit))
}

/// Whether no two changes are about one key.
pub open spec fn keys_differ(events: Seq<KeyEvent>) -> bool {
    forall|i: int, j: int|
        0 <= i < j < events.len() ==> (#[trigger] events[i]).key != (#[trigger] events[j]).key
}

/// State of a merge that has copied the files before number `at`, and of that file the entries
/// whose values stand before `limit`: readers and recovery lose nothing, and once the keys that
/// wait are repointed, every copied key points to its copy.
pub open spec fn is_merging(
    base: Base,
    world: World,
    merge: MergeView,
    next_file_id: u32,
    at: int,
    limit: nat,
) -> bool {
    &&& base.wf()
    &&& 0 <= at < base.disk.len()
    &&& keeps(base, world)
    &&& world.disk.len() > base.disk.len()
    &&& is_current_output(base, world.disk.last(), merge.output)
    &&& world.disk.last().file_id == merge.highest_output_id
    &&& world.disk.last().file_id < next_file_id
    &&& all_flushed(world.disk.drop_last())
    &&& super::repoint_all(world.keydir, merge.pending) == crate::recovery::apply_events(
        base.keydir,
        output_events(outputs(base, world.disk)),
    )
    &&& is_complete(base, world.disk, at, limit)
    &&& keys_differ(output_events(outputs(base, world.disk)))
}

/// The output files of a disk with another last file.
pub proof fn lemma_outputs_with_last(base: Base, disk: Seq<DiskFile>, file: DiskFile)
    requires
        disk.len() > base.disk.len(),
    ensures
        outputs(base, with_last(disk, file)) == outputs(base, disk).drop_last().push(file),
        outputs(base, disk).len() > 0,
        outputs(base, disk).last() == disk.last(),
        output_events(outputs(base, with_last(disk, file))) == output_events(
            outputs(base, disk).drop_last(),
        ) + crate::store::data_events(flushed(file)),
        output_events(outputs(base, disk)) == output_events(outputs(base, disk).drop_last())
            + crate::store::data_events(flushed(disk.last())),
{
    let files = outputs(base, disk);
    assert(outputs(base, with_last(disk, file)) =~= files.drop_last().push(file));
    assert(files.drop_last().push(file).drop_last() =~= files.drop_last());
}

/// What appending a copy does to the entries of the current output file.
proof fn lemma_append_copy(base: Base, file: DiskFile, entry: EntryView)
    requires
        crate::scan::ends_clean(flushed(file).data),
        holds_copies(base, flushed(file).data),
        crate::scan::is_sound(entry),
        is_copy(base, entry),
    ensures
        ({
            let bytes = crate::format::entry::entry_bytes(
                entry.key,
                entry.value,
                false,
                entry.header.timestamp,
            );
            let longer = DiskFile { buffered: file.buffered + bytes, ..file };
            &&& bytes.len() == crate::scan::entry_len(entry)
            &&& flushed(longer).data == flushed(file).data + bytes
            &&& crate::store::data_events(flushed(longer)) == crate::store::data_events(
                flushed(file),
            ).push(
                crate::recovery::entry_event(file.file_id, flushed(file).data.len(), entry),
            )
            &&& crate::scan::ends_clean(flushed(longer).data)
            &&& holds_copies(base, flushed(longer).data)
        }),
{
    let key = entry.key;
    let value = entry.value;
    let timestamp = entry.header.timestamp;
    let bytes = crate::format::entry::entry_bytes(key, value, false, timestamp);
    let longer = DiskFile { buffered: file.buffered + bytes, ..file };
    let before = flushed(file).data;
    crate::format::entry::law_entry_round_trip(key, value, false, timestamp, Seq::empty());
    assert(crate::format::entry::entry_of(key, value, false, timestamp) == entry);
    assert(flushed(longer).data =~= before + bytes);
    crate::scan::law_append_adds_one_entry(before, key, value, false, timestamp);
    let event = crate::recovery::entry_event(file.file_id, before.len(), entry);
    assert(crate::store::data_events(flushed(longer)) =~= crate::store::data_events(
        flushed(file),
    ).push(event));
    let entries = crate::scan::scan_entries(before, 0);
    let longer_entries = crate::scan::scan_entries(flushed(longer).data, 0);
    assert forall|j: int| 0 <= j < longer_entries.len() implies is_copy(
        base,
        (#[trigger] longer_entries[j]).1,
    ) by {
        if j < entries.len() {
            assert(longer_entries[j] == entries[j]);
        }
    }
}

/// What appending a copy does to the current output file.
proof fn lemma_append_to_output(base: Base, file: DiskFile, output: OutputView, entry: EntryView)
    requires
        is_current_output(base, file, output),
        crate::scan::is_sound(entry),
        is_copy(base, entry),
        output.data.offset + crate::scan::entry_len(entry) <= u64::MAX,
    ensures
        ({
            let bytes = crate::format::entry::entry_bytes(
                entry.key,
                entry.value,
                false,
                entry.header.timestamp,
            );
            let longer = DiskFile { buffered: file.buffered + bytes, ..file };
            let offset = (output.data.offset + bytes.len()) as u64;
            let value_pos = (offset - entry.value.len()) as u64;
            let event = KeyEvent {
                key: entry.key,
                entry: Some(
                    KeydirEntry {
                        file_id: file.file_id,
                        value_size: entry.header.value_size,
                        value_pos,
                        timestamp: entry.header.timestamp,
                    },
                ),
            };
            &&& bytes.len() == crate::scan::entry_len(entry)
            &&& crate::store::data_events(flushed(longer)) == crate::store::data_events(
                flushed(file),
            ).push(event)
            &&& is_current_output(
                base,
                longer,
                OutputView {
                    data: ActiveView { file_id: output.data.file_id, offset },
                    hints: output.hints + crate::format::hint::hint_bytes(
                        entry.key,
                        entry.header,
                        value_pos,
                    ),
                    ..output
                },
            )
        }),
{
    let len = crate::scan::entry_len(entry);
    let value_pos = (output.data.offset + len - entry.value.len()) as u64;
    lemma_append_copy(base, file, entry);
    lemma_hints_match_push(
        output.hints,
        file.file_id,
        crate::store::data_events(flushed(file)),
        output.data.offset as nat,
        entry.key,
        entry.header,
        value_pos,
    );
    assert(value_pos == crate::recovery::value_pos_of(flushed(file).data.len(), entry.header));
}

/// The state of a merge after a copy was appended and is still in the buffer.
pub open spec fn appended_merge(
    merge: MergeView,
    file_id: u32,
    pos: nat,
    entry: EntryView,
) -> MergeView {
    let total_len = crate::format::entry::entry_bytes(
        entry.key,
        entry.value,
        false,
        entry.header.timestamp,
    ).len();
    let offset = (merge.output.data.offset + total_len) as u64;
    let value_pos = (offset - entry.value.len()) as u64;
    MergeView {
        output: OutputView {
            data: ActiveView { file_id: merge.output.data.file_id, offset },
            hints: merge.output.hints + crate::format::hint::hint_bytes(
                entry.key,
                entry.header,
                value_pos,
            ),
            unflushed: merge.output.unflushed + 1,
            ..merge.output
        },
        pending: merge.pending.push(
            super::repoint_of(file_id, pos, entry, merge.output.data.file_id, value_pos),
        ),
        ..merge
    }
}

/// Appending the copy of a live entry keeps a merge going.
proof fn lemma_copy_appended(
    base: Base,
    world: World,
    merge: MergeView,
    next_file_id: u32,
    at: int,
    limit: nat,
    pos: nat,
    entry: EntryView,
)
    requires
        is_merging(base, world, merge, next_file_id, at, limit),
        crate::scan::is_sound(entry),
        is_copy(base, entry),
        base.keydir[entry.key] == super::repoint_of(
            base.disk[at].file_id,
            pos,
            entry,
            0,
            0,
        ).old,
        limit <= base.keydir[entry.key].value_pos,
        forall|key: Seq<u8>| #[trigger]
            base.keydir.contains_key(key) && base.keydir[key].file_id == base.disk[at].file_id
                && limit <= base.keydir[key].value_pos <= base.keydir[entry.key].value_pos ==> key
                == entry.key,
        merge.output.data.offset + crate::scan::entry_len(entry) <= u64::MAX,
    ensures
        ({
            let bytes = crate::format::entry::entry_bytes(
                entry.key,
                entry.value,
                false,
                entry.header.timestamp,
            );
            let step = MergeStepView::Append { file_id: merge.output.data.file_id, bytes };
            is_merging(
                base,
                run_step(world, step),
                appended_merge(merge, base.disk[at].file_id, pos, entry),
                next_file_id,
                at,
                base.keydir[entry.key].value_pos as nat + 1,
            )
        }),
{
    let bytes = crate::format::entry::entry_bytes(
        entry.key,
        entry.value,
        false,
        entry.header.timestamp,
    );
    let file = world.disk.last();
    let longer = DiskFile { buffered: file.buffered + bytes, ..file };
    let step = MergeStepView::Append { file_id: file.file_id, bytes };
    let after = run_step(world, step);
    let merged = appended_merge(merge, base.disk[at].file_id, pos, entry);
    let old_place = base.keydir[entry.key];
    let repoint = merged.pending.last();
    let event = KeyEvent { key: entry.key, entry: Some(repoint.new) };
    let events = output_events(outputs(base, world.disk));
    lemma_append_to_output(base, file, merge.output, entry);
    lemma_update_last(
        world.disk,
        |f: DiskFile| DiskFile { buffered: f.buffered + bytes, ..f },
    );
    assert(after.disk == with_last(world.disk, longer));
    lemma_append_keeps(base, world, longer.buffered);
    lemma_outputs_with_last(base, world.disk, longer);
    assert(output_events(outputs(base, after.disk)) =~= events.push(event));
    assert(events.push(event).drop_last() =~= events);
    // The key was not copied before, so the index that the merge is heading for still has its old
    // entry.
    assert(!is_behind(base, old_place, at, limit));
    assert(crate::store::last_for(events, entry.key) is None);
    crate::store::law_last_write_wins(base.keydir, events, entry.key);
    assert forall|i: int| 0 <= i < events.len() implies (#[trigger] events[i]).key != entry.key by {
        if events[i].key == entry.key {
            crate::store::lemma_last_exists(events, i);
        }
    }
    assert(keys_differ(events.push(event)));
    assert(merged.pending.drop_last() =~= merge.pending);
    assert(crate::keydir::lookup(
        super::repoint_all(world.keydir, merge.pending),
        entry.key,
    ) == Some(repoint.old));
    assert(super::repoint_all(after.keydir, merged.pending) == crate::recovery::apply_events(
        base.keydir,
        events.push(event),
    ));
    assert forall|key: Seq<u8>|
        (#[trigger] crate::store::last_for(output_events(outputs(base, after.disk)), key) is Some)
            == (base.keydir.contains_key(key) && is_behind(
            base,
            base.keydir[key],
            at,
            old_place.value_pos as nat + 1,
        )) by {
        assert((crate::store::last_for(events, key) is Some) == (base.keydir.contains_key(key)
            && is_behind(base, base.keydir[key], at, limit)));
    }
    assert(after.disk.drop_last() =~= world.disk.drop_last());
}

/// Flushing twice does what flushing once does.
proof fn lemma_flushed_twice(file: DiskFile)
    ensures
        flushed(flushed(file)) == flushed(file),
        flushed(file).buffered.len() == 0,
{
    assert(flushed(flushed(file)) =~= flushed(file));
}

/// Flushing the current output file, with or without a hint file, keeps a merge going. After it,
/// nothing is in a buffer.
pub proof fn lemma_flush_current(
    base: Base,
    world: World,
    merge: MergeView,
    next_file_id: u32,
    at: int,
    limit: nat,
    hint: Option<Seq<u8>>,
)
    requires
        is_merging(base, world, merge, next_file_id, at, limit),
        hint is None || hint == Some(crate::format::hint::hint_file_bytes(merge.output.hints)),
    ensures
        ({
            let file = DiskFile { hint, ..flushed(world.disk.last()) };
            let after = World { disk: with_last(world.disk, file), ..world };
            &&& keeps(base, after)
            &&& all_flushed(after.disk)
            &&& output_events(outputs(base, after.disk)) == output_events(outputs(base, world.disk))
            &&& hint is None ==> is_current_output(base, file, merge.output)
        }),
{
    let file = DiskFile { hint, ..flushed(world.disk.last()) };
    let after = World { disk: with_last(world.disk, file), ..world };
    lemma_flushed_twice(world.disk.last());
    assert(crate::store::data_events(file) == crate::store::data_events(
        flushed(world.disk.last()),
    ));
    if hint is Some {
        lemma_finished_hint_agrees(file, merge.output.hints);
    }
    lemma_flush_keeps(base, world, hint);
    lemma_outputs_with_last(base, world.disk, file);
    assert(flushed(file) =~= file);
    assert forall|i: int| 0 <= i < after.disk.len() implies (
    #[trigger] after.disk[i]).buffered.len() == 0 by {
        if i < after.disk.len() - 1 {
            assert(world.disk.drop_last()[i] == after.disk[i]);
        }
    }
}

/// What flushing a batch and repointing its keys does.
proof fn lemma_flush_batch(
    base: Base,
    world: World,
    merge: MergeView,
    next_file_id: u32,
    at: int,
    limit: nat,
)
    requires
        is_merging(base, world, merge, next_file_id, at, limit),
    ensures
        ({
            let first = run_step(
                world,
                MergeStepView::Flush { file_id: merge.output.data.file_id },
            );
            let second = run_step(first, MergeStepView::Repoint(merge.pending));
            let output = OutputView { unflushed: 0, ..merge.output };
            let after = MergeView { output, pending: Seq::empty(), ..merge };
            &&& keeps(base, first)
            &&& is_merging(base, second, after, next_file_id, at, limit)
        }),
{
    let first = run_step(world, MergeStepView::Flush { file_id: merge.output.data.file_id });
    let second = run_step(first, MergeStepView::Repoint(merge.pending));
    let file = flushed(world.disk.last());
    lemma_update_last(world.disk, |f: DiskFile| flushed(f));
    assert(file == (DiskFile { hint: None, ..file }));
    assert(first.disk == with_last(world.disk, file));
    lemma_flush_current(base, world, merge, next_file_id, at, limit, None);
    lemma_repoint_keeps(base, first, second.keydir);
    assert(super::repoint_all(second.keydir, Seq::empty()) == second.keydir);
    assert(second.disk.drop_last() =~= world.disk.drop_last());
}

/// A new output file is as the merge has it.
pub proof fn lemma_fresh_output(base: Base, fresh: DiskFile, output: OutputView)
    requires
        fresh == crate::store::new_file(output.data.file_id),
        output == super::output_writer::fresh_output(
            output.data.file_id,
            output.max_file_size,
            output.existing,
        ),
        super::output_writer::is_new(output.existing, output.data.file_id),
    ensures
        is_current_output(base, fresh, output),
        crate::store::data_events(flushed(fresh)).len() == 0,
        flushed(fresh) == fresh,
{
    super::output_writer::lemma_new_file_is_empty(output.existing, output.data.file_id);
    assert(flushed(fresh) =~= fresh);
    assert(crate::scan::ends_clean(fresh.data));
    assert(crate::scan::scan_entries(fresh.data, 0).len() == 0);
    assert(crate::store::data_events(fresh) =~= Seq::empty());
    assert forall|data_file_len: u64| hints_match_at(
        Seq::empty(),
        fresh.file_id,
        Seq::empty(),
        data_file_len,
    ) by {
        assert(crate::recovery::hint_events(fresh.file_id, Seq::empty()) =~= Seq::empty());
    }
}

/// What finishing an output file, starting the next one and repointing the keys does.
proof fn lemma_rotate_output(
    base: Base,
    world: World,
    merge: MergeView,
    next_file_id: u32,
    at: int,
    limit: nat,
)
    requires
        is_merging(base, world, merge, next_file_id, at, limit),
        next_file_id < u32::MAX,
    ensures
        ({
            let hint = crate::format::hint::hint_file_bytes(merge.output.hints);
            let first = run_step(
                world,
                MergeStepView::Finish { file_id: merge.output.data.file_id, hint },
            );
            let second = run_step(first, MergeStepView::Create { file_id: next_file_id });
            let third = run_step(second, MergeStepView::Repoint(merge.pending));
            let after = MergeView {
                output: super::output_writer::fresh_output(
                    next_file_id,
                    merge.output.max_file_size,
                    merge.output.existing,
                ),
                pending: Seq::empty(),
                highest_output_id: next_file_id,
                ..merge
            };
            &&& keeps(base, first)
            &&& keeps(base, second)
            &&& is_merging(base, third, after, (next_file_id + 1) as u32, at, limit)
        }),
{
    let hint = crate::format::hint::hint_file_bytes(merge.output.hints);
    let first = run_step(
        world,
        MergeStepView::Finish { file_id: merge.output.data.file_id, hint },
    );
    let second = run_step(first, MergeStepView::Create { file_id: next_file_id });
    let third = run_step(second, MergeStepView::Repoint(merge.pending));
    let file = DiskFile { hint: Some(hint), ..flushed(world.disk.last()) };
    let fresh = crate::store::new_file(next_file_id);
    lemma_update_last(world.disk, |f: DiskFile| DiskFile { hint: Some(hint), ..flushed(f) });
    assert(first.disk == with_last(world.disk, file));
    lemma_flush_current(base, world, merge, next_file_id, at, limit, Some(hint));
    assert forall|i: int| 0 <= i < first.disk.len() implies (#[trigger] first.disk[i]).file_id
        < next_file_id by {
        if i < first.disk.len() - 1 {
            assert(first.disk[i].file_id < first.disk[first.disk.len() - 1].file_id);
        }
    }
    lemma_create_keeps(base, first, next_file_id);
    assert(flushed(fresh) =~= fresh);
    assert(crate::store::data_events(fresh) =~= Seq::empty());
    assert(outputs(base, second.disk) =~= outputs(base, first.disk).push(fresh));
    assert(outputs(base, second.disk).drop_last() =~= outputs(base, first.disk));
    assert(output_events(outputs(base, second.disk)) =~= output_events(
        outputs(base, first.disk),
    ));
    lemma_repoint_keeps(base, second, third.keydir);
    assert(super::repoint_all(third.keydir, Seq::empty()) == third.keydir);
    assert(third.disk.drop_last() =~= first.disk);
    super::output_writer::lemma_next_file_is_new(
        merge.output.existing,
        merge.output.data.file_id,
        next_file_id,
    );
    lemma_fresh_output(
        base,
        fresh,
        super::output_writer::fresh_output(
            next_file_id,
            merge.output.max_file_size,
            merge.output.existing,
        ),
    );
}

pub proof fn lemma_run_push(world: World, steps: Seq<MergeStepView>, step: MergeStepView)
    ensures
        run_steps(world, steps.push(step)) == run_step(run_steps(world, steps), step),
{
    assert(steps.push(step).drop_last() =~= steps);
}

/// The step that comes after the first `n`, if there is one.
pub open spec fn step_after(steps: Seq<MergeStepView>, n: int) -> Option<MergeStepView> {
    if n < steps.len() {
        Some(steps[n])
    } else {
        None
    }
}

/// Whether nothing is lost after any number of the steps, and every file is finished with a hint
/// file that says what it says.
pub open spec fn keeps_throughout(base: Base, world: World, steps: Seq<MergeStepView>) -> bool {
    forall|n: int|
        0 <= n <= steps.len() ==> keeps_at(
            base,
            run_steps(world, #[trigger] steps.take(n)),
            step_after(steps, n),
        )
}

/// Whether nothing is lost before a step.
pub open spec fn keeps_at(base: Base, world: World, next: Option<MergeStepView>) -> bool {
    &&& keeps(base, world)
    &&& world.disk.len() > base.disk.len()
    &&& next is Some ==> super::crash::finish_is_sound(world, next->0)
}

pub proof fn lemma_throughout_push(
    base: Base,
    world: World,
    steps: Seq<MergeStepView>,
    step: MergeStepView,
)
    requires
        keeps_throughout(base, world, steps),
        super::crash::finish_is_sound(run_steps(world, steps), step),
        keeps(base, run_step(run_steps(world, steps), step)),
        run_step(run_steps(world, steps), step).disk.len() > base.disk.len(),
    ensures
        keeps_throughout(base, world, steps.push(step)),
        run_steps(world, steps.push(step)) == run_step(run_steps(world, steps), step),
{
    let longer = steps.push(step);
    lemma_run_push(world, steps, step);
    assert forall|n: int| 0 <= n <= longer.len() implies keeps_at(
        base,
        run_steps(world, #[trigger] longer.take(n)),
        step_after(longer, n),
    ) by {
        if n <= steps.len() {
            assert(longer.take(n) =~= steps.take(n));
            assert(keeps_at(base, run_steps(world, steps.take(n)), step_after(steps, n)));
            if n == steps.len() {
                assert(steps.take(n) =~= steps);
            }
        } else {
            assert(longer.take(n) =~= longer);
        }
    }
}

proof fn lemma_throughout_concat(
    base: Base,
    world: World,
    first: Seq<MergeStepView>,
    second: Seq<MergeStepView>,
)
    requires
        keeps_throughout(base, world, first),
        keeps_throughout(base, run_steps(world, first), second),
    ensures
        keeps_throughout(base, world, first + second),
        run_steps(world, first + second) == run_steps(run_steps(world, first), second),
{
    lemma_run_concat(world, first, second);
    let all = first + second;
    assert forall|n: int| 0 <= n <= all.len() implies keeps_at(
        base,
        run_steps(world, #[trigger] all.take(n)),
        step_after(all, n),
    ) by {
        if n < first.len() {
            assert(all.take(n) =~= first.take(n));
            assert(keeps_at(base, run_steps(world, first.take(n)), step_after(first, n)));
        } else {
            let m = n - first.len();
            assert(keeps_at(
                base,
                run_steps(run_steps(world, first), second.take(m)),
                step_after(second, m),
            ));
            assert(all.take(n) =~= first + second.take(m));
            lemma_run_concat(world, first, second.take(m));
        }
    }
}

/// The hint file that a merge has noted for the current output file says what that says.
pub proof fn lemma_finish_is_sound(base: Base, file: DiskFile, output: OutputView)
    requires
        is_current_output(base, file, output),
    ensures
        super::crash::is_hint_for(
            flushed(file),
            crate::format::hint::hint_file_bytes(output.hints),
        ),
{
}

/// The steps that copying one live entry adds.
pub open spec fn live_steps(
    merge: MergeView,
    next_file_id: u32,
    file_id: u32,
    pos: nat,
    entry: EntryView,
) -> Seq<MergeStepView> {
    let w = super::output_writer::write_entry(merge.output, next_file_id, entry);
    let pending = merge.pending.push(
        super::repoint_of(file_id, pos, entry, w.file_id, w.value_pos),
    );
    if w.flushed {
        w.steps.push(MergeStepView::Repoint(pending))
    } else {
        w.steps
    }
}

proof fn lemma_throughout_none(base: Base, world: World)
    requires
        keeps(base, world),
        world.disk.len() > base.disk.len(),
    ensures
        keeps_throughout(base, world, Seq::empty()),
        run_steps(world, Seq::empty()) == world,
{
    let none = Seq::<MergeStepView>::empty();
    assert forall|n: int| 0 <= n <= none.len() implies keeps_at(
        base,
        run_steps(world, #[trigger] none.take(n)),
        step_after(none, n),
    ) by {
        assert(none.take(n) =~= none);
    }
}

/// Nothing is lost while an output file is finished, the next one started and the keys repointed.
proof fn lemma_rotate_steps(
    base: Base,
    world: World,
    merge: MergeView,
    next_file_id: u32,
    at: int,
    limit: nat,
) -> (steps: Seq<MergeStepView>)
    requires
        is_merging(base, world, merge, next_file_id, at, limit),
        next_file_id < u32::MAX,
    ensures
        steps == seq![
            MergeStepView::Finish {
                file_id: merge.output.data.file_id,
                hint: crate::format::hint::hint_file_bytes(merge.output.hints),
            },
            MergeStepView::Create { file_id: next_file_id },
            MergeStepView::Repoint(merge.pending),
        ],
        keeps_throughout(base, world, steps),
        ({
            let output = super::output_writer::fresh_output(
                next_file_id,
                merge.output.max_file_size,
                merge.output.existing,
            );
            let after = MergeView {
                output,
                pending: Seq::empty(),
                highest_output_id: next_file_id,
                ..merge
            };
            &&& is_merging(
                base,
                run_steps(world, steps),
                after,
                (next_file_id + 1) as u32,
                at,
                limit,
            )
            &&& output.data.offset == 0
        }),
{
    let none = Seq::<MergeStepView>::empty();
    let hint = crate::format::hint::hint_file_bytes(merge.output.hints);
    let finish = MergeStepView::Finish { file_id: merge.output.data.file_id, hint };
    let create = MergeStepView::Create { file_id: next_file_id };
    let repoint = MergeStepView::Repoint(merge.pending);
    let existing = merge.output.existing;
    super::output_writer::lemma_next_file_is_new(
        existing,
        merge.output.data.file_id,
        next_file_id,
    );
    super::output_writer::lemma_new_file_is_empty(existing, next_file_id);
    lemma_rotate_output(base, world, merge, next_file_id, at, limit);
    lemma_finish_is_sound(base, world.disk.last(), merge.output);
    lemma_throughout_none(base, world);
    lemma_throughout_push(base, world, none, finish);
    lemma_throughout_push(base, world, none.push(finish), create);
    lemma_throughout_push(base, world, none.push(finish).push(create), repoint);
    let steps = none.push(finish).push(create).push(repoint);
    assert(steps =~= seq![finish, create, repoint]);
    steps
}

/// Nothing is lost while an output file is flushed and the keys repointed.
proof fn lemma_flush_steps(
    base: Base,
    world: World,
    merge: MergeView,
    next_file_id: u32,
    at: int,
    limit: nat,
) -> (steps: Seq<MergeStepView>)
    requires
        is_merging(base, world, merge, next_file_id, at, limit),
    ensures
        steps == seq![
            MergeStepView::Flush { file_id: merge.output.data.file_id },
            MergeStepView::Repoint(merge.pending),
        ],
        keeps_throughout(base, world, steps),
        is_merging(
            base,
            run_steps(world, steps),
            MergeView {
                output: OutputView { unflushed: 0, ..merge.output },
                pending: Seq::empty(),
                ..merge
            },
            next_file_id,
            at,
            limit,
        ),
{
    let none = Seq::<MergeStepView>::empty();
    let flush = MergeStepView::Flush { file_id: merge.output.data.file_id };
    let repoint = MergeStepView::Repoint(merge.pending);
    lemma_flush_batch(base, world, merge, next_file_id, at, limit);
    lemma_throughout_none(base, world);
    lemma_throughout_push(base, world, none, flush);
    lemma_throughout_push(base, world, none.push(flush), repoint);
    let steps = none.push(flush).push(repoint);
    assert(steps =~= seq![flush, repoint]);
    steps
}

/// The steps after the append of a copy, if the output file is full then or a batch is complete.
pub open spec fn steps_after_append(merge: MergeView, next_file_id: u32) -> Seq<MergeStepView> {
    let file_id = merge.output.data.file_id;
    if merge.output.data.offset >= merge.output.max_file_size {
        seq![
            MergeStepView::Finish {
                file_id,
                hint: crate::format::hint::hint_file_bytes(merge.output.hints),
            },
            MergeStepView::Create { file_id: next_file_id },
            MergeStepView::Repoint(merge.pending),
        ]
    } else if merge.output.unflushed >= super::output_writer::MERGE_FLUSH_BATCH_SIZE {
        seq![MergeStepView::Flush { file_id }, MergeStepView::Repoint(merge.pending)]
    } else {
        Seq::empty()
    }
}

/// The merge after those steps.
pub open spec fn merge_after_append(merge: MergeView, next_file_id: u32) -> MergeView {
    if merge.output.data.offset >= merge.output.max_file_size {
        MergeView {
            output: super::output_writer::fresh_output(
                next_file_id,
                merge.output.max_file_size,
                merge.output.existing,
            ),
            pending: Seq::empty(),
            highest_output_id: next_file_id,
            ..merge
        }
    } else if merge.output.unflushed >= super::output_writer::MERGE_FLUSH_BATCH_SIZE {
        MergeView {
            output: OutputView { unflushed: 0, ..merge.output },
            pending: Seq::empty(),
            ..merge
        }
    } else {
        merge
    }
}

/// Copying a live entry is an append and what comes after it.
proof fn lemma_copy_is_append_and_more(c: Copying, file_id: u32, pos: nat, entry: EntryView)
    requires
        c.merge.output.data.file_id == c.merge.highest_output_id,
        c.merge.highest_output_id < c.next_file_id,
        super::fills_output(c.merge.output, entry) ==> c.next_file_id < u32::MAX,
    ensures
        ({
            let bytes = crate::format::entry::entry_bytes(
                entry.key,
                entry.value,
                false,
                entry.header.timestamp,
            );
            let append = MergeStepView::Append { file_id: c.merge.output.data.file_id, bytes };
            let after = super::copy_live(c, file_id, pos, entry);
            let steps = live_steps(c.merge, c.next_file_id, file_id, pos, entry);
            let appended = appended_merge(c.merge, file_id, pos, entry);
            &&& steps == seq![append] + steps_after_append(appended, c.next_file_id)
            &&& after.steps == c.steps + steps
            &&& after.merge == merge_after_append(appended, c.next_file_id)
            &&& after.next_file_id == c.next_file_id + if super::fills_output(
                c.merge.output,
                entry,
            ) {
                1int
            } else {
                0
            }
        }),
{
    let bytes = crate::format::entry::entry_bytes(
        entry.key,
        entry.value,
        false,
        entry.header.timestamp,
    );
    let append = MergeStepView::Append { file_id: c.merge.output.data.file_id, bytes };
    let after = super::copy_live(c, file_id, pos, entry);
    let steps = live_steps(c.merge, c.next_file_id, file_id, pos, entry);
    let appended = appended_merge(c.merge, file_id, pos, entry);
    assert(steps =~= seq![append] + steps_after_append(appended, c.next_file_id));
    assert(after.steps =~= c.steps + steps);
    assert(after.merge =~= merge_after_append(appended, c.next_file_id));
}

/// What comes after the append of a copy keeps a merge going, and nothing is lost at any step.
proof fn lemma_after_append(
    base: Base,
    world: World,
    merge: MergeView,
    next_file_id: u32,
    at: int,
    limit: nat,
)
    requires
        is_merging(base, world, merge, next_file_id, at, limit),
        merge.output.data.offset >= merge.output.max_file_size ==> next_file_id < u32::MAX,
    ensures
        ({
            let steps = steps_after_append(merge, next_file_id);
            let after = merge_after_append(merge, next_file_id);
            let is_full = merge.output.data.offset >= merge.output.max_file_size;
            let next = if is_full {
                (next_file_id + 1) as u32
            } else {
                next_file_id
            };
            &&& keeps_throughout(base, world, steps)
            &&& is_merging(base, run_steps(world, steps), after, next, at, limit)
            &&& after.output.data.offset <= merge.output.data.offset
        }),
{
    if merge.output.data.offset >= merge.output.max_file_size {
        lemma_rotate_steps(base, world, merge, next_file_id, at, limit);
    } else if merge.output.unflushed >= super::output_writer::MERGE_FLUSH_BATCH_SIZE {
        lemma_flush_steps(base, world, merge, next_file_id, at, limit);
    } else {
        lemma_throughout_none(base, world);
    }
}

/// Copying a live entry keeps a merge going, and nothing is lost at any step of it.
proof fn lemma_copy_live(
    base: Base,
    world: World,
    c: Copying,
    at: int,
    limit: nat,
    pos: nat,
    entry: EntryView,
)
    requires
        is_merging(base, world, c.merge, c.next_file_id, at, limit),
        super::fills_output(c.merge.output, entry) ==> c.next_file_id < u32::MAX,
        crate::scan::is_sound(entry),
        is_copy(base, entry),
        base.keydir[entry.key] == super::repoint_of(base.disk[at].file_id, pos, entry, 0, 0).old,
        limit <= base.keydir[entry.key].value_pos,
        forall|key: Seq<u8>| #[trigger]
            base.keydir.contains_key(key) && base.keydir[key].file_id == base.disk[at].file_id
                && limit <= base.keydir[key].value_pos <= base.keydir[entry.key].value_pos ==> key
                == entry.key,
        c.merge.output.data.offset + crate::scan::entry_len(entry) <= u64::MAX,
    ensures
        ({
            let file_id = base.disk[at].file_id;
            let after = super::copy_live(c, file_id, pos, entry);
            let steps = live_steps(c.merge, c.next_file_id, file_id, pos, entry);
            &&& after.steps == c.steps + steps
            &&& keeps_throughout(base, world, steps)
            &&& is_merging(
                base,
                run_steps(world, steps),
                after.merge,
                after.next_file_id,
                at,
                base.keydir[entry.key].value_pos as nat + 1,
            )
            &&& after.next_file_id == c.next_file_id + if super::fills_output(
                c.merge.output,
                entry,
            ) {
                1int
            } else {
                0
            }
            &&& after.merge.output.data.offset <= c.merge.output.data.offset
                + crate::scan::entry_len(entry)
        }),
{
    let file_id = base.disk[at].file_id;
    let bytes = crate::format::entry::entry_bytes(
        entry.key,
        entry.value,
        false,
        entry.header.timestamp,
    );
    let append = MergeStepView::Append { file_id: c.merge.output.data.file_id, bytes };
    let none = Seq::<MergeStepView>::empty();
    let appended = appended_merge(c.merge, file_id, pos, entry);
    let rest = steps_after_append(appended, c.next_file_id);
    lemma_append_to_output(base, world.disk.last(), c.merge.output, entry);
    lemma_copy_appended(base, world, c.merge, c.next_file_id, at, limit, pos, entry);
    lemma_after_append(
        base,
        run_step(world, append),
        appended,
        c.next_file_id,
        at,
        base.keydir[entry.key].value_pos as nat + 1,
    );
    lemma_copy_is_append_and_more(c, file_id, pos, entry);
    lemma_throughout_none(base, world);
    lemma_throughout_push(base, world, none, append);
    lemma_throughout_concat(base, world, none.push(append), rest);
    assert(none.push(append) =~= seq![append]);
}

/// Where the values of the first `j` entries of a file end being, as a limit for [`is_behind`].
pub open spec fn limit_after(entries: Seq<(nat, EntryView)>, j: int) -> nat {
    if j <= 0 {
        0
    } else {
        crate::recovery::value_pos_of(entries[j - 1].0, entries[j - 1].1.header) as nat + 1
    }
}

/// How far into a file its first `j` entries reach.
pub open spec fn reach_after(entries: Seq<(nat, EntryView)>, j: int) -> nat {
    if j <= 0 {
        0
    } else {
        entries[j - 1].0 + crate::scan::entry_len(entries[j - 1].1)
    }
}

/// A change that readers see in an output file is among the changes of the output files.
proof fn lemma_seen_copy_is_output(files: Seq<DiskFile>, i: int, key: Seq<u8>, entry: KeydirEntry)
    requires
        0 <= i < files.len(),
        crate::scan::ends_clean(files[i].data),
        points_into(files[i], key, entry),
    ensures
        crate::store::last_for(output_events(files), key) is Some,
    decreases files.len(),
{
    let rest = files.drop_last();
    let last = crate::store::data_events(flushed(files.last()));
    crate::store::lemma_last_concat(output_events(rest), last, key);
    if i < files.len() - 1 {
        assert(rest[i] == files[i]);
        lemma_seen_copy_is_output(rest, i, key, entry);
    } else {
        let events = crate::store::data_events(files[i]);
        let j = choose|j: int|
            0 <= j < events.len() && #[trigger] events[j] == (KeyEvent { key, entry: Some(entry) });
        lemma_flush_extends(files[i]);
        assert(last[j] == events[j]);
        crate::store::lemma_last_exists(last, j);
    }
}

/// A key whose value stands in an input file that the merge has not passed is still where it was.
proof fn lemma_not_moved(
    base: Base,
    world: World,
    merge: MergeView,
    next_file_id: u32,
    at: int,
    key: Seq<u8>,
)
    requires
        is_merging(base, world, merge, next_file_id, at, 0),
        base.keydir.contains_key(key),
        base.keydir[key].file_id >= base.disk[at].file_id,
    ensures
        world.keydir.contains_key(key),
        world.keydir[key] == base.keydir[key],
{
    let n = base.disk.len() as int;
    let entry = world.keydir[key];
    assert(world.keydir.contains_key(key) == base.keydir.contains_key(key));
    assert(is_kept(base, world.disk, key, entry));
    if entry != base.keydir[key] {
        let i = choose|i: int|
            n <= i < world.disk.len() && points_into(#[trigger] world.disk[i], key, entry);
        let files = outputs(base, world.disk);
        assert(files[i - n] == world.disk[i]);
        assert(crate::scan::ends_clean(world.disk[i].data));
        lemma_seen_copy_is_output(files, i - n, key, entry);
        assert(!is_behind(base, base.keydir[key], at, 0));
    }
}

/// Every place that the index points to in a file is that of one of its entries, with that key.
proof fn lemma_entry_at(base: Base, at: int, key: Seq<u8>) -> (j: int)
    requires
        base.wf(),
        0 <= at < base.disk.len(),
        base.keydir.contains_key(key),
        base.keydir[key].file_id == base.disk[at].file_id,
    ensures
        ({
            let entries = crate::scan::scan_entries(base.disk[at].data, 0);
            &&& 0 <= j < entries.len()
            &&& entries[j].1.key == key
            &&& !entries[j].1.header.tombstone
            &&& base.keydir[key].value_pos == crate::recovery::value_pos_of(
                entries[j].0,
                entries[j].1.header,
            )
            &&& base.keydir[key] == super::repoint_of(
                base.disk[at].file_id,
                entries[j].0,
                entries[j].1,
                0,
                0,
            ).old
            &&& entries[j].1.value == crate::store::value_at(base.disk, base.keydir[key])
        }),
{
    let place = crate::store::lemma_anchored(base.disk, base.keydir, key);
    crate::store::lemma_index_of(base.disk, at);
    place.1
}

/// The values of later entries stand later.
proof fn lemma_value_pos_order(data: Seq<u8>, i: int, j: int)
    requires
        data.len() <= u64::MAX,
        0 <= i < crate::scan::scan_entries(data, 0).len(),
        0 <= j < crate::scan::scan_entries(data, 0).len(),
    ensures
        ({
            let entries = crate::scan::scan_entries(data, 0);
            let at_i = crate::recovery::value_pos_of(entries[i].0, entries[i].1.header);
            let at_j = crate::recovery::value_pos_of(entries[j].0, entries[j].1.header);
            &&& (i < j) == (at_i < at_j)
            &&& at_i == entries[i].0 + HEADER_SIZE + entries[i].1.key.len()
            &&& crate::scan::is_sound(entries[i].1)
            &&& entries[i].0 + crate::scan::entry_len(entries[i].1) <= data.len()
        }),
{
    crate::scan::lemma_scan_layout(data, 0);
    let entries = crate::scan::scan_entries(data, 0);
    assert(crate::scan::is_sound(crate::scan::scan_entries(data, 0)[i].1));
    assert(crate::scan::is_sound(crate::scan::scan_entries(data, 0)[j].1));
}

/// The steps of copying do not depend on those before them.
pub proof fn lemma_copy_entries_frame(
    c: Copying,
    before: Seq<MergeStepView>,
    keydir: KeydirView,
    file_id: u32,
    entries: Seq<(nat, EntryView)>,
)
    requires
        c.steps.len() == 0,
    ensures
        ({
            let plain = super::copy_entries(c, keydir, file_id, entries);
            let framed = super::copy_entries(
                Copying { steps: before, ..c },
                keydir,
                file_id,
                entries,
            );
            &&& framed.merge == plain.merge
            &&& framed.next_file_id == plain.next_file_id
            &&& framed.steps == before + plain.steps
        }),
    decreases entries.len(),
{
    if entries.len() == 0 {
        assert(before + c.steps =~= before);
    } else {
        let rest = entries.drop_last();
        let (pos, entry) = entries.last();
        lemma_copy_entries_frame(c, before, keydir, file_id, rest);
        let plain = super::copy_entries(c, keydir, file_id, rest);
        let steps = live_steps(plain.merge, plain.next_file_id, file_id, pos, entry);
        assert(before + (plain.steps + steps) =~= (before + plain.steps) + steps);
    }
}

/// Passing an entry that is not live keeps a merge going.
proof fn lemma_pass_dead_entry(
    base: Base,
    start: World,
    start_merge: MergeView,
    start_next: u32,
    world: World,
    merge: MergeView,
    next_file_id: u32,
    at: int,
    j: int,
)
    requires
        is_merging(base, start, start_merge, start_next, at, 0),
        0 <= j < crate::scan::scan_entries(base.disk[at].data, 0).len(),
        is_merging(
            base,
            world,
            merge,
            next_file_id,
            at,
            limit_after(crate::scan::scan_entries(base.disk[at].data, 0), j),
        ),
        !super::is_live(
            start.keydir,
            base.disk[at].file_id,
            crate::scan::scan_entries(base.disk[at].data, 0)[j].0,
            crate::scan::scan_entries(base.disk[at].data, 0)[j].1,
        ),
    ensures
        is_merging(
            base,
            world,
            merge,
            next_file_id,
            at,
            limit_after(crate::scan::scan_entries(base.disk[at].data, 0), j + 1),
        ),
{
    let data = base.disk[at].data;
    let entries = crate::scan::scan_entries(data, 0);
    let before = limit_after(entries, j);
    let after = limit_after(entries, j + 1);
    assert forall|key: Seq<u8>| #[trigger] base.keydir.contains_key(key) implies is_behind(
        base,
        base.keydir[key],
        at,
        before,
    ) == is_behind(base, base.keydir[key], at, after) by {
        if base.keydir[key].file_id == base.disk[at].file_id {
            let k = lemma_entry_at(base, at, key);
            lemma_value_pos_order(data, k, j);
            lemma_value_pos_order(data, j, k);
            if j > 0 {
                lemma_value_pos_order(data, j - 1, j);
                lemma_value_pos_order(data, j - 1, k);
                lemma_value_pos_order(data, k, j - 1);
            }
            lemma_not_moved(base, start, start_merge, start_next, at, key);
        }
    }
}

/// The entry that a key of the index points to is a copy's original, and no other key points
/// between it and the entry before it.
proof fn lemma_live_entry(
    base: Base,
    start: World,
    merge: MergeView,
    next_file_id: u32,
    at: int,
    j: int,
)
    requires
        is_merging(base, start, merge, next_file_id, at, 0),
        at < base.disk.len() - 1,
        0 <= j < crate::scan::scan_entries(base.disk[at].data, 0).len(),
        super::is_live(
            start.keydir,
            base.disk[at].file_id,
            crate::scan::scan_entries(base.disk[at].data, 0)[j].0,
            crate::scan::scan_entries(base.disk[at].data, 0)[j].1,
        ),
    ensures
        ({
            let entries = crate::scan::scan_entries(base.disk[at].data, 0);
            let (pos, entry) = entries[j];
            let limit = limit_after(entries, j);
            &&& crate::scan::is_sound(entry)
            &&& is_copy(base, entry)
            &&& base.keydir[entry.key] == super::repoint_of(
                base.disk[at].file_id,
                pos,
                entry,
                0,
                0,
            ).old
            &&& limit <= base.keydir[entry.key].value_pos
            &&& forall|key: Seq<u8>| #[trigger]
                base.keydir.contains_key(key) && base.keydir[key].file_id == base.disk[at].file_id
                    && limit <= base.keydir[key].value_pos <= base.keydir[entry.key].value_pos
                    ==> key == entry.key
        }),
{
    let n = base.disk.len() as int;
    let data = base.disk[at].data;
    let entries = crate::scan::scan_entries(data, 0);
    let (pos, entry) = entries[j];
    let limit = limit_after(entries, j);
    let key = entry.key;
    assert(base.disk[at].file_id < base.disk[n - 1].file_id);
    assert(start.keydir.contains_key(key) == base.keydir.contains_key(key));
    assert(is_kept(base, start.disk, key, start.keydir[key]));
    if start.keydir[key] != base.keydir[key] {
        let i = choose|i: int|
            n <= i < start.disk.len() && points_into(
                #[trigger] start.disk[i],
                key,
                start.keydir[key],
            );
        assert(start.disk.take(n)[at] == start.disk[at]);
        assert(start.disk[at].file_id < start.disk[i].file_id);
        assert(false);
    }
    let k = lemma_entry_at(base, at, key);
    lemma_value_pos_order(data, k, j);
    lemma_value_pos_order(data, j, k);
    if j > 0 {
        lemma_value_pos_order(data, j - 1, j);
    }
    assert forall|other: Seq<u8>| #[trigger]
        base.keydir.contains_key(other) && base.keydir[other].file_id == base.disk[at].file_id
            && limit <= base.keydir[other].value_pos <= base.keydir[key].value_pos implies other
        == key by {
        let m = lemma_entry_at(base, at, other);
        lemma_value_pos_order(data, m, j);
        lemma_value_pos_order(data, j, m);
        if j > 0 {
            lemma_value_pos_order(data, j - 1, m);
            lemma_value_pos_order(data, m, j - 1);
        }
    }
}

/// Copying the first `j` entries of an input file keeps a merge going, and nothing is lost at any
/// step of it.
proof fn lemma_copy_prefix(base: Base, world: World, c: Copying, at: int, j: int)
    requires
        is_merging(base, world, c.merge, c.next_file_id, at, 0),
        c.steps.len() == 0,
        at < base.disk.len() - 1,
        c.merge.output.data.offset + base.disk[at].data.len() <= u64::MAX,
        c.next_file_id + super::rotations(
            c,
            world.keydir,
            base.disk[at].file_id,
            crate::scan::scan_entries(base.disk[at].data, 0),
        ) <= u32::MAX,
        0 <= j <= crate::scan::scan_entries(base.disk[at].data, 0).len(),
    ensures
        ({
            let data = base.disk[at].data;
            let entries = crate::scan::scan_entries(data, 0);
            let after = super::copy_entries(
                c,
                world.keydir,
                base.disk[at].file_id,
                entries.take(j),
            );
            &&& keeps_throughout(base, world, after.steps)
            &&& is_merging(
                base,
                run_steps(world, after.steps),
                after.merge,
                after.next_file_id,
                at,
                limit_after(entries, j),
            )
            &&& after.next_file_id == c.next_file_id + super::rotations(
                c,
                world.keydir,
                base.disk[at].file_id,
                entries.take(j),
            )
            &&& after.merge.output.data.offset <= c.merge.output.data.offset + reach_after(entries, j)
            &&& reach_after(entries, j) <= data.len()
        }),
    decreases j,
{
    let data = base.disk[at].data;
    let file_id = base.disk[at].file_id;
    let entries = crate::scan::scan_entries(data, 0);
    if j == 0 {
        assert(entries.take(0) =~= Seq::empty());
        assert forall|n: int| 0 <= n <= c.steps.len() implies keeps_at(
            base,
            run_steps(world, #[trigger] c.steps.take(n)),
            step_after(c.steps, n),
        ) by {
            assert(c.steps.take(n).len() == 0);
        }
    } else {
        lemma_copy_prefix(base, world, c, at, j - 1);
        let before = super::copy_entries(c, world.keydir, file_id, entries.take(j - 1));
        let reached = run_steps(world, before.steps);
        let (pos, entry) = entries[j - 1];
        assert(entries.take(j).drop_last() =~= entries.take(j - 1));
        assert(entries.take(j).last() == entries[j - 1]);
        lemma_value_pos_order(data, j - 1, j - 1);
        assert(reach_after(entries, j - 1) <= pos) by {
            if j > 1 {
                crate::scan::lemma_scan_layout(data, 0);
                let e = crate::scan::scan_entries(data, 0);
                assert(e[j - 2].0 + crate::scan::entry_len(e[j - 2].1) <= e[j - 1].0);
            }
        }
        super::lemma_rotations_grow(c, world.keydir, file_id, entries, j);
        if super::is_live(world.keydir, file_id, pos, entry) {
            lemma_live_entry(base, world, c.merge, c.next_file_id, at, j - 1);
            lemma_copy_live(base, reached, before, at, limit_after(entries, j - 1), pos, entry);
            let steps = live_steps(before.merge, before.next_file_id, file_id, pos, entry);
            lemma_throughout_concat(base, world, before.steps, steps);
        } else {
            lemma_pass_dead_entry(
                base,
                world,
                c.merge,
                c.next_file_id,
                reached,
                before.merge,
                before.next_file_id,
                at,
                j - 1,
            );
        }
    }
}

/// Copying an input file keeps a merge going. Wherever it is interrupted, and whatever part of a
/// buffer or of a hint file has reached the disk by then, readers and recovery find all that the
/// datastore held.
pub proof fn law_copying_a_file_loses_nothing(
    base: Base,
    world: World,
    merge: MergeView,
    next_file_id: u32,
    at: int,
    before: Seq<MergeStepView>,
)
    requires
        is_merging(base, world, merge, next_file_id, at, 0),
        at < base.disk.len() - 1,
        merge.output.data.offset + base.disk[at].data.len() <= u64::MAX,
        next_file_id + super::rotations(
            Copying { merge, next_file_id, steps: Seq::empty() },
            world.keydir,
            base.disk[at].file_id,
            crate::scan::scan_entries(base.disk[at].data, 0),
        ) <= u32::MAX,
    ensures
        ({
            let entries = crate::scan::scan_entries(base.disk[at].data, 0);
            let after = super::copy_entries(
                Copying { merge, next_file_id, steps: before },
                world.keydir,
                base.disk[at].file_id,
                entries,
            );
            let steps = after.steps.skip(before.len() as int);
            &&& after.steps == before + steps
            &&& is_merging(
                base,
                run_steps(world, steps),
                super::file_copied(after.merge),
                after.next_file_id,
                at + 1,
                0,
            )
            &&& forall|n: int|
                0 <= n <= steps.len() ==> super::crash::survives(
                    base,
                    run_steps(world, #[trigger] steps.take(n)),
                    step_after(steps, n),
                )
            &&& after.next_file_id == next_file_id + super::rotations(
                Copying { merge, next_file_id, steps: Seq::empty() },
                world.keydir,
                base.disk[at].file_id,
                entries,
            )
            &&& after.merge.output.data.offset <= merge.output.data.offset
                + base.disk[at].data.len()
        }),
{
    let data = base.disk[at].data;
    let file_id = base.disk[at].file_id;
    let entries = crate::scan::scan_entries(data, 0);
    let c = Copying { merge, next_file_id, steps: Seq::empty() };
    let plain = super::copy_entries(c, world.keydir, file_id, entries);
    let framed = super::copy_entries(
        Copying { merge, next_file_id, steps: before },
        world.keydir,
        file_id,
        entries,
    );
    let count = entries.len() as int;
    lemma_copy_prefix(base, world, c, at, count);
    assert(entries.take(count) =~= entries);
    lemma_copy_entries_frame(c, before, world.keydir, file_id, entries);
    assert(framed.steps.skip(before.len() as int) =~= plain.steps);
    let reached = run_steps(world, plain.steps);
    assert forall|key: Seq<u8>| #[trigger] base.keydir.contains_key(key) implies is_behind(
        base,
        base.keydir[key],
        at,
        limit_after(entries, count),
    ) == is_behind(base, base.keydir[key], at + 1, 0) by {
        let place = crate::store::lemma_anchored(base.disk, base.keydir, key);
        if place.0 == at {
            let k = lemma_entry_at(base, at, key);
            lemma_value_pos_order(data, k, count - 1);
            lemma_value_pos_order(data, count - 1, k);
        } else if place.0 < at {
            assert(base.disk[place.0].file_id < base.disk[at].file_id);
            assert(base.disk[at].file_id < base.disk[at + 1].file_id);
        } else {
            assert(base.disk[at].file_id < base.disk[place.0].file_id);
            if place.0 > at + 1 {
                assert(base.disk[at + 1].file_id < base.disk[place.0].file_id);
            }
        }
    }
    assert forall|n: int| 0 <= n <= plain.steps.len() implies super::crash::survives(
        base,
        run_steps(world, #[trigger] plain.steps.take(n)),
        step_after(plain.steps, n),
    ) by {
        super::crash::lemma_survives(
            base,
            run_steps(world, plain.steps.take(n)),
            step_after(plain.steps, n),
        );
    }
}

} // verus!
