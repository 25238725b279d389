//! What a crash may leave of a merge, and that recovery then finds all that there was.
//!
//! Bytes in a buffer may reach their file at any time, and in part. A hint file is written after
//! its data file was made durable, and may be cut off anywhere.
use vstd::prelude::*;

use super::compaction::{Base, World};
use super::output_writer::MergeStepView;
use crate::format::hint::HintReadView;
use crate::keydir::KeydirEntry;
use crate::recovery::KeyEvent;
use crate::store::DiskFile;

verus! {

/// A file after the first `k` bytes of its buffer reached it.
pub open spec fn spilled(file: DiskFile, k: int) -> DiskFile {
    DiskFile { data: file.data + file.buffered.take(k), buffered: file.buffered.skip(k), ..file }
}

/// A file that was flushed, and of whose hint file the first `m` bytes were written.
pub open spec fn half_finished(file: DiskFile, hint: Seq<u8>, m: int) -> DiskFile {
    DiskFile { hint: Some(hint.take(m)), ..super::compaction::flushed(file) }
}

/// Whether a crash may leave these files before the step that is to come next is done: any part
/// of the last file's buffer may have reached it, and if the step finishes the file, any part of
/// its hint file may have been written.
pub open spec fn may_be_left(
    world: World,
    next: Option<MergeStepView>,
    found: Seq<DiskFile>,
) -> bool {
    let last = world.disk.last();
    ||| exists|k: int|
        0 <= k <= last.buffered.len() && found == super::compaction::with_last(
            world.disk,
            #[trigger] spilled(last, k),
        )
    ||| next matches Some(MergeStepView::Finish { hint, .. }) && exists|m: int|
        0 <= m <= hint.len() && found == super::compaction::with_last(
            world.disk,
            #[trigger] half_finished(last, hint, m),
        )
}

/// Whether readers and recovery find all that the datastore held, and do so whatever a crash
/// leaves.
pub open spec fn survives(base: Base, world: World, next: Option<MergeStepView>) -> bool {
    &&& super::compaction::is_intact(base, world)
    &&& forall|found: Seq<DiskFile>| #[trigger]
        may_be_left(world, next, found) ==> crate::store::contents(found, world.keydir)
            == base.contents() && crate::store::contents(found, crate::store::recovered(found))
            == base.contents()
}

/// Whether a hint file says what its data file says.
pub open spec fn is_hint_for(file: DiskFile, hint: Seq<u8>) -> bool {
    exists|content: Seq<u8>|
        hint == #[trigger] crate::format::hint::hint_file_bytes(content)
            && super::compaction::hints_match(
            content,
            file.file_id,
            crate::store::data_events(file),
            file.data.len(),
        )
}

/// Whether a step that finishes a file finishes the last one, with a hint file that says what the
/// data file says.
pub open spec fn finish_is_sound(world: World, step: MergeStepView) -> bool {
    step matches MergeStepView::Finish { file_id, hint } ==> file_id
        == world.disk.last().file_id && is_hint_for(
        super::compaction::flushed(world.disk.last()),
        hint,
    )
}

/// The records in the first bytes of a run are its first records.
proof fn lemma_hint_records_prefix(content: Seq<u8>, p: int, data_file_len: u64)
    requires
        0 <= p <= content.len(),
        crate::recovery::hint_records(content, data_file_len) is Ok,
        crate::recovery::hint_records(content.take(p), data_file_len) is Ok,
    ensures
        ({
            let part = crate::recovery::hint_records(content.take(p), data_file_len)->Ok_0;
            let all = crate::recovery::hint_records(content, data_file_len)->Ok_0;
            &&& part.len() <= all.len()
            &&& forall|j: int| 0 <= j < part.len() ==> #[trigger] part[j] == all[j]
        }),
    decreases content.len(),
{
    let first = content.take(p);
    assert(first + content.skip(p) =~= content);
    match crate::format::hint::parse_hint(first) {
        None => {},
        Some(HintReadView::Truncated) => {},
        Some(HintReadView::Complete(hint)) => {
            let len = crate::format::hint::hint_read_len(first) as int;
            super::compaction::lemma_parse_hint_extend(first, content.skip(p));
            assert(first.skip(len) =~= content.skip(len).take(p - len));
            lemma_hint_records_prefix(content.skip(len), p - len, data_file_len);
            let part = crate::recovery::hint_records(first, data_file_len)->Ok_0;
            let all = crate::recovery::hint_records(content, data_file_len)->Ok_0;
            let tail = crate::recovery::hint_records(first.skip(len), data_file_len)->Ok_0;
            let rest = crate::recovery::hint_records(content.skip(len), data_file_len)->Ok_0;
            assert(part == seq![hint] + tail);
            assert(all == seq![hint] + rest);
            assert forall|j: int| 0 <= j < part.len() implies #[trigger] part[j] == all[j] by {
                if j > 0 {
                    assert(part[j] == tail[j - 1]);
                    assert(all[j] == rest[j - 1]);
                }
            }
        },
    }
}

/// A hint file that is cut off gives recovery nothing that does not stand in the data file, even
/// if the checksum happens to be right.
proof fn lemma_cut_hint_stands(file: DiskFile, hint: Seq<u8>, m: int)
    requires
        file.data.len() <= u64::MAX,
        is_hint_for(file, hint),
        0 <= m <= hint.len(),
        file.hint == Some(hint.take(m)),
    ensures
        super::compaction::image_stands(file),
{
    let content = choose|content: Seq<u8>|
        hint == #[trigger] crate::format::hint::hint_file_bytes(content)
            && super::compaction::hints_match(
            content,
            file.file_id,
            crate::store::data_events(file),
            file.data.len(),
        );
    let len = file.data.len() as u64;
    let events = crate::store::data_events(file);
    let image = crate::store::image_of(file);
    let taken = crate::recovery::image_events(image);
    assert(super::compaction::hints_match_at(content, file.file_id, events, len));
    match crate::recovery::trusted_hints(image.hint) {
        None => {
            assert forall|j: int| 0 <= j < taken.len() implies events.contains(
                #[trigger] taken[j],
            ) by {
                assert(events[j] == taken[j]);
            }
        },
        Some(records) => {
            let p = m - crate::format::HINT_TRAILER_SIZE;
            assert(hint.take(m).take(p) =~= content.take(p));
            lemma_hint_records_prefix(content, p, len);
            let all = crate::recovery::hint_records(content, len)->Ok_0;
            assert forall|j: int| 0 <= j < taken.len() implies events.contains(
                #[trigger] taken[j],
            ) by {
                assert(records[j] == all[j]);
                assert(events[j] == taken[j]);
            }
        },
    }
}

/// A key that points to a copy in a file still does when the file becomes longer.
proof fn lemma_points_into_longer(
    file: DiskFile,
    longer: DiskFile,
    key: Seq<u8>,
    entry: KeydirEntry,
)
    requires
        super::compaction::points_into(file, key, entry),
        longer.file_id == file.file_id,
        file.data.len() <= longer.data.len(),
        longer.data.take(file.data.len() as int) == file.data,
    ensures
        super::compaction::points_into(longer, key, entry),
{
    crate::scan::lemma_scan_prefix(longer.data, file.data.len() as int, 0);
    let events = crate::store::data_events(file);
    let j = choose|j: int|
        0 <= j < events.len() && #[trigger] events[j] == (KeyEvent { key, entry: Some(entry) });
    assert(crate::scan::scan_entries(longer.data.take(file.data.len() as int), 0)[j]
        == crate::scan::scan_entries(longer.data, 0)[j]);
    assert(crate::store::data_events(longer)[j] == events[j]);
}

/// With another last file that holds copies only, and holds what the last file held, nothing is
/// lost.
proof fn lemma_other_last(base: Base, world: World, file: DiskFile)
    requires
        base.wf(),
        super::compaction::keeps(base, world),
        world.disk.len() > base.disk.len(),
        file.file_id == world.disk.last().file_id,
        world.disk.last().data.len() <= file.data.len(),
        file.data.take(world.disk.last().data.len() as int) == world.disk.last().data,
        super::compaction::holds_copies(base, file.data),
        file.data.len() <= u64::MAX,
        super::compaction::image_stands(file),
    ensures
        ({
            let found = super::compaction::with_last(world.disk, file);
            &&& crate::store::contents(found, world.keydir) == base.contents()
            &&& crate::store::contents(found, crate::store::recovered(found)) == base.contents()
        }),
{
    let n = base.disk.len() as int;
    let found = super::compaction::with_last(world.disk, file);
    let last = found.len() - 1;
    super::compaction::lemma_keeps_is_recoverable(base, world);
    assert(found.take(n) =~= world.disk.take(n));
    assert forall|i: int| n <= i < found.len() implies super::compaction::image_stands(
        #[trigger] found[i],
    ) && super::compaction::holds_copies(base, found[i].data) && found[i].data.len()
        <= u64::MAX by {
        if i < last {
            assert(found[i] == world.disk[i]);
        }
    }
    assert forall|key: Seq<u8>| #[trigger] world.keydir.contains_key(
        key,
    ) implies super::compaction::is_kept(base, found, key, world.keydir[key]) by {
        let entry = world.keydir[key];
        assert(super::compaction::is_kept(base, world.disk, key, entry));
        if entry != base.keydir[key] {
            let i = choose|i: int|
                n <= i < world.disk.len() && super::compaction::points_into(
                    #[trigger] world.disk[i],
                    key,
                    entry,
                );
            if i < last {
                assert(found[i] == world.disk[i]);
            } else {
                lemma_points_into_longer(world.disk[i], file, key, entry);
                assert(found[i] == file);
            }
            assert(super::compaction::points_into(found[i], key, entry));
        }
    }
    super::compaction::lemma_readable(base, found, world.keydir);
    super::compaction::lemma_recoverable(base, found);
}

/// The first bytes of a file that holds copies hold copies.
proof fn lemma_part_holds_copies(base: Base, data: Seq<u8>, n: int)
    requires
        super::compaction::holds_copies(base, data),
        0 <= n <= data.len(),
    ensures
        super::compaction::holds_copies(base, data.take(n)),
{
    crate::scan::lemma_scan_prefix(data, n, 0);
    assert forall|j: int|
        0 <= j < crate::scan::scan_entries(
            data.take(n),
            0,
        ).len() implies super::compaction::is_copy(
        base,
        (#[trigger] crate::scan::scan_entries(data.take(n), 0)[j]).1,
    ) by {
        assert(super::compaction::is_copy(base, crate::scan::scan_entries(data, 0)[j].1));
    }
}

/// Any part of the buffer may reach the file.
proof fn lemma_spill_survives(base: Base, world: World, k: int)
    requires
        base.wf(),
        super::compaction::keeps(base, world),
        world.disk.len() > base.disk.len(),
        0 <= k <= world.disk.last().buffered.len(),
    ensures
        ({
            let found = super::compaction::with_last(world.disk, spilled(world.disk.last(), k));
            &&& crate::store::contents(found, world.keydir) == base.contents()
            &&& crate::store::contents(found, crate::store::recovered(found)) == base.contents()
        }),
{
    let last = world.disk[world.disk.len() - 1];
    let file = spilled(last, k);
    let whole = super::compaction::flushed(last);
    assert(super::compaction::buffer_is_sound(base, last));
    assert(crate::store::hint_agrees(last));
    assert(file.data =~= whole.data.take(last.data.len() + k));
    lemma_part_holds_copies(base, whole.data, last.data.len() + k);
    assert(file.data.take(last.data.len() as int) =~= last.data);
    if last.buffered.len() == 0 {
        assert(file =~= last);
    } else {
        assert(crate::store::hint_agrees(file));
    }
    super::compaction::lemma_agreeing_image_stands(file);
    lemma_other_last(base, world, file);
}

/// Any part of a hint file may have been written.
proof fn lemma_half_finish_survives(base: Base, world: World, hint: Seq<u8>, m: int)
    requires
        base.wf(),
        super::compaction::keeps(base, world),
        world.disk.len() > base.disk.len(),
        is_hint_for(super::compaction::flushed(world.disk.last()), hint),
        0 <= m <= hint.len(),
    ensures
        ({
            let found = super::compaction::with_last(
                world.disk,
                half_finished(world.disk.last(), hint, m),
            );
            &&& crate::store::contents(found, world.keydir) == base.contents()
            &&& crate::store::contents(found, crate::store::recovered(found)) == base.contents()
        }),
{
    let last = world.disk[world.disk.len() - 1];
    let file = half_finished(last, hint, m);
    let whole = super::compaction::flushed(last);
    assert(super::compaction::buffer_is_sound(base, last));
    assert(crate::store::data_events(file) == crate::store::data_events(whole));
    let content = choose|content: Seq<u8>|
        hint == #[trigger] crate::format::hint::hint_file_bytes(content)
            && super::compaction::hints_match(
            content,
            whole.file_id,
            crate::store::data_events(whole),
            whole.data.len(),
        );
    assert(hint == crate::format::hint::hint_file_bytes(content));
    assert(is_hint_for(file, hint));
    lemma_cut_hint_stands(file, hint, m);
    assert(file.data.take(last.data.len() as int) =~= last.data);
    lemma_other_last(base, world, file);
}

/// While a merge copies, a crash at any time loses nothing.
pub proof fn lemma_survives(base: Base, world: World, next: Option<MergeStepView>)
    requires
        base.wf(),
        super::compaction::keeps(base, world),
        world.disk.len() > base.disk.len(),
        next is Some ==> finish_is_sound(world, next->0),
    ensures
        survives(base, world, next),
{
    super::compaction::lemma_keeps_is_intact(base, world);
    let last = world.disk.last();
    assert forall|found: Seq<DiskFile>| #[trigger]
        may_be_left(world, next, found) implies crate::store::contents(found, world.keydir)
        == base.contents() && crate::store::contents(found, crate::store::recovered(found))
        == base.contents() by {
        if exists|k: int|
            0 <= k <= last.buffered.len() && found == super::compaction::with_last(
                world.disk,
                #[trigger] spilled(last, k),
            ) {
            let k = choose|k: int|
                0 <= k <= last.buffered.len() && found == super::compaction::with_last(
                    world.disk,
                    #[trigger] spilled(last, k),
                );
            lemma_spill_survives(base, world, k);
        } else {
            let hint = next->0->Finish_hint;
            let m = choose|m: int|
                0 <= m <= hint.len() && found == super::compaction::with_last(
                    world.disk,
                    #[trigger] half_finished(last, hint, m),
                );
            lemma_half_finish_survives(base, world, hint, m);
        }
    }
}

/// Where nothing is in a buffer and no file is being finished, a crash leaves the files as they
/// are.
pub proof fn lemma_flushed_survives(base: Base, world: World, next: Option<MergeStepView>)
    requires
        super::compaction::is_intact(base, world),
        world.disk.len() > 0,
        world.disk.last().buffered.len() == 0,
        next is Some ==> !(next->0 is Finish),
    ensures
        survives(base, world, next),
{
    let last = world.disk.last();
    assert forall|found: Seq<DiskFile>| #[trigger]
        may_be_left(world, next, found) implies found == world.disk by {
        let k = choose|k: int|
            0 <= k <= last.buffered.len() && found == super::compaction::with_last(
                world.disk,
                #[trigger] spilled(last, k),
            );
        assert(spilled(last, k) =~= last);
        assert(found =~= world.disk);
    }
}

} // verus!
