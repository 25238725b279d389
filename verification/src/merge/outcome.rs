//! How a merge begins and ends, and what it comes to as a whole.
use vstd::prelude::*;

use super::compaction::{Base, World};
use super::output_writer::MergeStepView;
use super::{Copying, MergeView};
use crate::engine::EngineView;
use crate::keydir::KeydirView;
use crate::recovery::KeyEvent;
use crate::store::DiskFile;

verus! {

proof fn lemma_all_inputs(ids: Seq<u32>, active_id: u32)
    requires
        forall|i: int| 0 <= i < ids.len() ==> (#[trigger] ids[i]) < active_id,
    ensures
        super::input_ids(ids, active_id) == ids,
    decreases ids.len(),
{
    if ids.len() > 0 {
        let rest = ids.drop_last();
        assert forall|i: int| 0 <= i < rest.len() implies (#[trigger] rest[i]) < active_id by {
            assert(rest[i] == ids[i]);
        }
        lemma_all_inputs(rest, active_id);
        assert(ids[ids.len() - 1] < active_id);
        assert(rest.push(ids.last()) =~= ids);
    } else {
        assert(super::input_ids(ids, active_id) =~= ids);
    }
}

/// The inputs of a merge are all files but the active one.
pub proof fn lemma_inputs(disk: Seq<DiskFile>)
    requires
        crate::store::ids_ascend(disk),
        disk.len() > 0,
    ensures
        super::input_ids(crate::store::file_ids(disk), disk.last().file_id)
            == crate::store::file_ids(disk.drop_last()),
{
    let ids = crate::store::file_ids(disk);
    let rest = crate::store::file_ids(disk.drop_last());
    assert(ids.drop_last() =~= rest);
    assert forall|i: int| 0 <= i < rest.len() implies (#[trigger] rest[i])
        < disk.last().file_id by {
        assert(disk[i].file_id < disk[disk.len() - 1].file_id);
    }
    lemma_all_inputs(rest, disk.last().file_id);
}

/// What a merge of the files on a disk begins with, or `None` if there is nothing to merge.
pub open spec fn merge_start(state: EngineView, disk: Seq<DiskFile>) -> Option<Copying> {
    crate::engine::merge_begun(
        state,
        crate::store::file_ids(disk),
        crate::store::file_lengths(disk),
    )
}

/// The first output file of a merge is new.
pub proof fn lemma_first_output_is_new(state: EngineView, disk: Seq<DiskFile>)
    requires
        crate::store::in_step(state, disk),
    ensures
        super::output_writer::is_new(crate::store::file_lengths(disk), state.next_file_id),
{
    reveal(super::output_writer::is_new);
    let existing = crate::store::file_lengths(disk);
    assert forall|i: int| 0 <= i < existing.len() implies (#[trigger] existing[i]).0
        < state.next_file_id by {
        assert(disk[i].file_id < state.next_file_id);
    }
}

/// A merge begins with nothing copied and nothing lost. Its inputs are all files but the active
/// one.
pub proof fn law_a_merge_begins_with_all_closed_files(state: EngineView, disk: Seq<DiskFile>)
    requires
        crate::store::in_step(state, disk),
        state.is_read_write,
        disk.len() >= 2,
        state.next_file_id < u32::MAX,
    ensures
        ({
            let base = Base { disk, keydir: state.keydir };
            let begun = merge_start(state, disk);
            let c = begun->0;
            let world = World { disk, keydir: state.keydir };
            &&& begun is Some
            &&& c.merge.inputs == crate::store::file_ids(disk.drop_last())
            &&& c.merge.pending.len() == 0
            &&& c.merge.output.data.offset == 0
            &&& c.next_file_id == state.next_file_id + 1
            &&& c.steps == seq![MergeStepView::Create { file_id: state.next_file_id }]
            &&& super::compaction::is_merging(
                base,
                super::compaction::run_steps(world, c.steps),
                c.merge,
                c.next_file_id,
                0,
                0,
            )
        }),
{
    let base = Base { disk, keydir: state.keydir };
    let world = World { disk, keydir: state.keydir };
    let c = merge_start(state, disk)->0;
    let fresh = crate::store::new_file(state.next_file_id);
    lemma_inputs(disk);
    assert(disk.take(disk.len() as int) =~= disk);
    assert(super::compaction::keeps(base, world)) by {
        assert forall|key: Seq<u8>| #[trigger] world.keydir.contains_key(
            key,
        ) implies super::compaction::is_kept(base, world.disk, key, world.keydir[key]) by {}
    }
    super::compaction::lemma_create_keeps(base, world, state.next_file_id);
    let none = Seq::<MergeStepView>::empty();
    let create = MergeStepView::Create { file_id: state.next_file_id };
    assert(c.steps =~= none.push(create));
    super::compaction::lemma_run_push(world, none, create);
    let begun = super::compaction::run_steps(world, c.steps);
    assert(begun.disk == disk.push(fresh));
    lemma_first_output_is_new(state, disk);
    super::compaction::lemma_fresh_output(base, fresh, c.merge.output);
    assert(super::compaction::outputs(base, begun.disk) =~= seq![fresh]);
    assert(seq![fresh].drop_last() =~= Seq::empty());
    assert(super::compaction::output_events(Seq::empty()) =~= Seq::empty());
    assert(super::compaction::output_events(seq![fresh]) =~= Seq::empty()) by {
        assert(seq![fresh].last() == fresh);
    }
    assert(super::repoint_all(begun.keydir, c.merge.pending) == begun.keydir);
    assert(begun.disk.drop_last() =~= disk);
    assert forall|key: Seq<u8>| #[trigger] base.keydir.contains_key(
        key,
    ) implies !super::compaction::is_behind(base, base.keydir[key], 0, 0) by {
        let place = crate::store::lemma_anchored(base.disk, base.keydir, key);
        if place.0 > 0 {
            assert(disk[0].file_id < disk[place.0].file_id);
        }
    }
}

/// The changes of a run of files and of output files after them.
proof fn lemma_disk_events_with_outputs(disk: Seq<DiskFile>, files: Seq<DiskFile>)
    requires
        super::compaction::all_flushed(files),
        forall|i: int| 0 <= i < files.len() ==> crate::store::hint_agrees(#[trigger] files[i]),
    ensures
        crate::recovery::disk_events(crate::store::images(disk + files))
            == crate::recovery::disk_events(crate::store::images(disk))
            + super::compaction::output_events(files),
    decreases files.len(),
{
    if files.len() == 0 {
        assert(disk + files =~= disk);
        assert(crate::recovery::disk_events(crate::store::images(disk))
            + super::compaction::output_events(files) =~= crate::recovery::disk_events(
            crate::store::images(disk),
        ));
    } else {
        let rest = files.drop_last();
        let last = files.last();
        let all = disk + files;
        assert forall|i: int| 0 <= i < rest.len() implies crate::store::hint_agrees(
            #[trigger] rest[i],
        ) && rest[i].buffered.len() == 0 by {
            assert(rest[i] == files[i]);
        }
        lemma_disk_events_with_outputs(disk, rest);
        assert(all.drop_last() =~= disk + rest);
        assert(crate::store::images(all).drop_last() =~= crate::store::images(disk + rest));
        assert(crate::store::images(all).last() == crate::store::image_of(last));
        assert(files[files.len() - 1] == last);
        assert(super::compaction::flushed(last) =~= last);
        let old_events = crate::recovery::disk_events(crate::store::images(disk));
        let events = super::compaction::output_events(rest);
        assert(old_events + (events + crate::store::data_events(last)) =~= (old_events + events)
            + crate::store::data_events(last));
    }
}

/// Removing the file with the lowest id leaves all others.
proof fn lemma_remove_first(disk: Seq<DiskFile>)
    requires
        crate::store::ids_ascend(disk),
        disk.len() > 0,
    ensures
        disk.filter(|file: DiskFile| file.file_id != disk[0].file_id) == disk.skip(1),
    decreases disk.len(),
{
    let other = |file: DiskFile| file.file_id != disk[0].file_id;
    reveal(Seq::filter);
    if disk.len() == 1 {
        assert(disk.drop_last().filter(other) =~= Seq::empty());
        assert(disk.filter(other) =~= disk.skip(1));
    } else {
        let rest = disk.drop_last();
        assert(rest[0] == disk[0]);
        lemma_remove_first(rest);
        assert(disk[0].file_id < disk[disk.len() - 1].file_id);
        assert(rest.skip(1).push(disk.last()) =~= disk.skip(1));
    }
}

/// Running the removals of the first files.
proof fn lemma_run_removals(world: World, ids: Seq<u32>, n: int)
    requires
        crate::store::ids_ascend(world.disk),
        0 <= n <= ids.len() <= world.disk.len(),
        forall|i: int| 0 <= i < ids.len() ==> (#[trigger] ids[i]) == world.disk[i].file_id,
    ensures
        super::compaction::run_steps(world, super::removals(ids).take(n)) == (World {
            disk: world.disk.skip(n),
            ..world
        }),
    decreases n,
{
    let steps = super::removals(ids);
    if n == 0 {
        assert(steps.take(0) =~= Seq::empty());
        assert(world.disk.skip(0) =~= world.disk);
    } else {
        lemma_run_removals(world, ids, n - 1);
        assert(steps.take(n).drop_last() =~= steps.take(n - 1));
        let rest = world.disk.skip(n - 1);
        assert(rest[0] == world.disk[n - 1]);
        assert(ids[n - 1] == rest[0].file_id);
        lemma_remove_first(rest);
        assert(rest.skip(1) =~= world.disk.skip(n));
    }
}

/// What the last change about a key is in the files from number `n` on.
proof fn lemma_disk_last_suffix(disk: Seq<DiskFile>, n: int, at: int, key: Seq<u8>)
    requires
        0 <= n <= disk.len(),
        0 <= at < disk.len(),
        crate::store::last_for(crate::store::data_events(disk[at]), key) is Some,
        crate::store::disk_last(disk, key) == crate::store::last_for(
            crate::store::data_events(disk[at]),
            key,
        ),
        forall|i: int|
            at < i < disk.len() ==> crate::store::last_for(
                crate::store::data_events(#[trigger] disk[i]),
                key,
            ) is None,
    ensures
        crate::store::disk_last(disk.skip(n), key) == if at >= n {
            crate::store::disk_last(disk, key)
        } else {
            None
        },
    decreases disk.len(),
{
    let tail = disk.skip(n);
    if tail.len() > 0 {
        let last = disk.len() - 1;
        assert(tail.last() == disk[last]);
        if at < last {
            let rest = disk.drop_last();
            assert(tail.drop_last() =~= rest.skip(n));
            assert(crate::store::last_for(crate::store::data_events(disk[last]), key) is None);
            assert(rest[at] == disk[at]);
            assert forall|i: int| at < i < rest.len() implies crate::store::last_for(
                crate::store::data_events(#[trigger] rest[i]),
                key,
            ) is None by {
                assert(rest[i] == disk[i]);
            }
            lemma_disk_last_suffix(rest, n, at, key);
        }
    }
}

/// Where nothing is said about a key, nothing is said in the files from number `n` on.
proof fn lemma_no_last_suffix(disk: Seq<DiskFile>, n: int, key: Seq<u8>)
    requires
        0 <= n <= disk.len(),
        crate::store::disk_last(disk, key) is None,
    ensures
        crate::store::disk_last(disk.skip(n), key) is None,
    decreases disk.len(),
{
    let tail = disk.skip(n);
    if tail.len() > 0 {
        assert(tail.last() == disk.last());
        assert(tail.drop_last() =~= disk.drop_last().skip(n));
        lemma_no_last_suffix(disk.drop_last(), n, key);
    }
}

/// Whether all live entries of the input files were copied, every copied key points to its copy,
/// and nothing is in a buffer.
pub open spec fn is_copied(base: Base, world: World) -> bool {
    let n = base.disk.len() as int;
    &&& base.wf()
    &&& super::compaction::keeps(base, world)
    &&& world.disk.len() > n
    &&& super::compaction::all_flushed(world.disk)
    &&& world.keydir == crate::recovery::apply_events(
        base.keydir,
        super::compaction::output_events(super::compaction::outputs(base, world.disk)),
    )
    &&& super::compaction::is_complete(base, world.disk, n - 1, 0)
    &&& super::compaction::keys_differ(
        super::compaction::output_events(super::compaction::outputs(base, world.disk)),
    )
}

/// Finishing the last output file and repointing the keys that wait completes the copying.
proof fn lemma_finish_copying(base: Base, world: World, merge: MergeView, next_file_id: u32)
    requires
        super::compaction::is_merging(
            base,
            world,
            merge,
            next_file_id,
            base.disk.len() - 1,
            0,
        ),
    ensures
        ({
            let finish = super::final_steps(merge)[0];
            let repoint = super::final_steps(merge)[1];
            let first = super::compaction::run_step(world, finish);
            let second = super::compaction::run_step(first, repoint);
            &&& super::compaction::keeps(base, first)
            &&& is_copied(base, second)
            &&& second.disk.last().file_id == merge.highest_output_id
            &&& second.disk.last().file_id < next_file_id
        }),
{
    let hint = crate::format::hint::hint_file_bytes(merge.output.hints);
    let finish = super::final_steps(merge)[0];
    let repoint = super::final_steps(merge)[1];
    assert(finish == (MergeStepView::Finish { file_id: merge.output.data.file_id, hint }));
    assert(repoint == MergeStepView::Repoint(merge.pending));
    let first = super::compaction::run_step(world, finish);
    let second = super::compaction::run_step(first, repoint);
    let file = DiskFile {
        hint: Some(hint),
        ..super::compaction::flushed(world.disk.last())
    };
    super::compaction::lemma_update_last(
        world.disk,
        |f: DiskFile| DiskFile { hint: Some(hint), ..super::compaction::flushed(f) },
    );
    assert(first.disk == super::compaction::with_last(world.disk, file));
    super::compaction::lemma_flush_current(
        base,
        world,
        merge,
        next_file_id,
        base.disk.len() - 1,
        0,
        Some(hint),
    );
    super::compaction::lemma_repoint_keeps(base, first, second.keydir);
}

/// The index is what recovery makes of the files.
proof fn lemma_copied_is_current(base: Base, world: World)
    requires
        is_copied(base, world),
    ensures
        crate::store::is_current(world.disk, world.keydir),
{
    let n = base.disk.len() as int;
    let files = super::compaction::outputs(base, world.disk);
    assert forall|i: int| 0 <= i < files.len() implies crate::store::hint_agrees(
        #[trigger] files[i],
    ) && files[i].buffered.len() == 0 by {
        assert(files[i] == world.disk[n + i]);
    }
    lemma_disk_events_with_outputs(base.disk, files);
    assert(base.disk + files =~= world.disk) by {
        assert(world.disk.take(n) + world.disk.skip(n) =~= world.disk);
    }
    crate::recovery::lemma_apply_concat(
        KeydirView::empty(),
        crate::recovery::disk_events(crate::store::images(base.disk)),
        super::compaction::output_events(files),
    );
    assert forall|i: int| 0 <= i < world.disk.len() implies crate::store::hint_agrees(
        #[trigger] world.disk[i],
    ) && world.disk[i].data.len() <= u64::MAX && world.disk[i].buffered.len() == 0 by {
        if i < n {
            assert(world.disk.take(n)[i] == world.disk[i]);
            assert(crate::store::hint_agrees(base.disk[i]));
        }
    }
}

/// No key points to an input file any more.
proof fn lemma_inputs_unused(base: Base, world: World, key: Seq<u8>)
    requires
        is_copied(base, world),
        world.keydir.contains_key(key),
    ensures
        world.keydir[key].file_id >= base.active_id(),
{
    let n = base.disk.len() as int;
    let files = super::compaction::outputs(base, world.disk);
    let events = super::compaction::output_events(files);
    crate::store::law_last_write_wins(base.keydir, events, key);
    if crate::store::last_for(events, key) is Some {
        let i = super::compaction::lemma_output_event_place(files, key);
        let file = world.disk[n + i];
        assert(files[i] == file);
        let j = crate::store::lemma_last_index(
            crate::store::data_events(super::compaction::flushed(file)),
            key,
        );
        assert(world.disk.take(n)[n - 1] == world.disk[n - 1]);
        assert(world.disk[n - 1].file_id < world.disk[n + i].file_id);
    } else {
        assert(!super::compaction::is_behind(base, base.keydir[key], n - 1, 0));
    }
}

/// Once all live entries were copied, the input files can be removed, oldest first: at any time
/// the index is what recovery makes of the files that are left, and nothing is lost.
proof fn lemma_removal_keeps(base: Base, world: World, m: int)
    requires
        is_copied(base, world),
        0 <= m < base.disk.len(),
    ensures
        crate::store::is_current(world.disk.skip(m), world.keydir),
        crate::store::contents(world.disk.skip(m), world.keydir) == base.contents(),
{
    let n = base.disk.len() as int;
    let disk = world.disk;
    let left = disk.skip(m);
    let keydir = world.keydir;
    lemma_copied_is_current(base, world);
    super::compaction::lemma_keeps_is_intact(base, world);
    assert forall|i: int| 0 <= i < left.len() implies crate::store::hint_agrees(#[trigger] left[i])
        && left[i].data.len() <= u64::MAX && left[i].buffered.len() == 0 by {
        assert(left[i] == disk[m + i]);
    }
    assert forall|i: int, j: int| 0 <= i < j < left.len() implies left[i].file_id
        < left[j].file_id by {
        assert(disk[m + i].file_id < disk[m + j].file_id);
    }
    assert forall|key: Seq<u8>| #[trigger]
        crate::keydir::lookup(crate::store::recovered(left), key) == crate::keydir::lookup(
            keydir,
            key,
        ) by {
        crate::store::lemma_recovered_lookup(left, key);
        crate::store::lemma_recovered_lookup(disk, key);
        if crate::store::disk_last(disk, key) is Some {
            let place = crate::store::lemma_disk_last_place(disk, key);
            lemma_disk_last_suffix(disk, m, place.0, key);
            if place.0 < m && keydir.contains_key(key) {
                let found = crate::scan::scan_entries(disk[place.0].data, 0)[place.1];
                assert(keydir[key].file_id == disk[place.0].file_id);
                assert(disk.take(n)[n - 1] == disk[n - 1]);
                assert(disk[place.0].file_id < disk[n - 1].file_id);
                lemma_inputs_unused(base, world, key);
            }
        } else {
            lemma_no_last_suffix(disk, m, key);
        }
    }
    assert(crate::store::recovered(left) =~= keydir) by {
        assert forall|key: Seq<u8>| #[trigger]
            crate::store::recovered(left).contains_key(key) == keydir.contains_key(key) && (
            keydir.contains_key(key) ==> crate::store::recovered(left)[key] == keydir[key]) by {
            assert(crate::keydir::lookup(crate::store::recovered(left), key)
                == crate::keydir::lookup(keydir, key));
        }
    }
    assert forall|key: Seq<u8>| #[trigger] keydir.contains_key(key) implies crate::store::value_at(
        left,
        keydir[key],
    ) == crate::store::value_at(disk, keydir[key]) by {
        let place = crate::store::lemma_anchored(left, keydir, key);
        assert(left[place.0] == disk[m + place.0]);
        crate::store::lemma_index_of(disk, m + place.0);
    }
    assert(crate::store::contents(left, keydir) =~= crate::store::contents(disk, keydir));
}

/// Which change of the output files an entry of one of them makes.
proof fn lemma_output_index(files: Seq<DiskFile>, i: int, j: int) -> (at: int)
    requires
        0 <= i < files.len(),
        0 <= j < crate::store::data_events(super::compaction::flushed(files[i])).len(),
    ensures
        0 <= at < super::compaction::output_events(files).len(),
        super::compaction::output_events(files)[at] == crate::store::data_events(
            super::compaction::flushed(files[i]),
        )[j],
    decreases files.len(),
{
    let rest = files.drop_last();
    if i < files.len() - 1 {
        assert(rest[i] == files[i]);
        lemma_output_index(rest, i, j)
    } else {
        super::compaction::output_events(rest).len() + j
    }
}

/// Where no two changes are about one key, each is the last about its key.
proof fn lemma_only_is_last(events: Seq<KeyEvent>, at: int)
    requires
        super::compaction::keys_differ(events),
        0 <= at < events.len(),
    ensures
        crate::store::last_for(events, events[at].key) == Some(events[at].entry),
{
    crate::store::lemma_last_exists(events, at);
    let last = crate::store::lemma_last_index(events, events[at].key);
    if last < at {
        assert(events[last].key != events[at].key);
    }
    if last > at {
        assert(events[at].key != events[last].key);
    }
}

/// Whether all entries of a file are live: the index points to each of them.
pub open spec fn is_all_live(file: DiskFile, keydir: KeydirView) -> bool {
    forall|j: int|
        0 <= j < crate::store::data_events(file).len() ==> crate::store::data_events(file)[j].entry
            is Some && crate::keydir::lookup(
            keydir,
            (#[trigger] crate::store::data_events(file)[j]).key,
        ) == crate::store::data_events(file)[j].entry
}

/// All entries of the output files are live.
proof fn lemma_outputs_all_live(base: Base, world: World, i: int)
    requires
        is_copied(base, world),
        base.disk.len() <= i < world.disk.len(),
    ensures
        is_all_live(world.disk[i], world.keydir),
{
    let n = base.disk.len() as int;
    let files = super::compaction::outputs(base, world.disk);
    let events = super::compaction::output_events(files);
    let file = world.disk[i];
    assert(files[i - n] == file);
    assert(super::compaction::flushed(file) =~= file);
    let own = crate::store::data_events(file);
    assert forall|j: int| 0 <= j < own.len() implies own[j].entry is Some && crate::keydir::lookup(
        world.keydir,
        (#[trigger] own[j]).key,
    ) == own[j].entry by {
        let at = lemma_output_index(files, i - n, j);
        lemma_only_is_last(events, at);
        crate::store::law_last_write_wins(base.keydir, events, own[j].key);
        assert(super::compaction::is_copy(
            base,
            crate::scan::scan_entries(file.data, 0)[j].1,
        ));
    }
}

/// Wherever the end of a merge is interrupted, nothing is lost.
proof fn lemma_end_survives(base: Base, world: World, merge: MergeView, next_file_id: u32)
    requires
        super::compaction::is_merging(
            base,
            world,
            merge,
            next_file_id,
            base.disk.len() - 1,
            0,
        ),
        merge.inputs == crate::store::file_ids(base.disk.drop_last()),
    ensures
        ({
            let steps = super::final_steps(merge);
            forall|n: int|
                0 <= n <= steps.len() ==> super::crash::survives(
                    base,
                    super::compaction::run_steps(world, #[trigger] steps.take(n)),
                    super::compaction::step_after(steps, n),
                )
        }),
{
    let n = base.disk.len() as int;
    let steps = super::final_steps(merge);
    let ids = merge.inputs;
    let first = super::compaction::run_step(world, steps[0]);
    let second = super::compaction::run_step(first, steps[1]);
    lemma_finish_copying(base, world, merge, next_file_id);
    super::compaction::lemma_finish_is_sound(base, world.disk.last(), merge.output);
    let none = Seq::<MergeStepView>::empty();
    let two = none.push(steps[0]).push(steps[1]);
    super::compaction::lemma_run_push(world, none, steps[0]);
    super::compaction::lemma_run_push(world, none.push(steps[0]), steps[1]);
    assert(steps =~= two + super::removals(ids));
    assert forall|i: int| 0 <= i < ids.len() implies (#[trigger] ids[i])
        == second.disk[i].file_id by {
        assert(second.disk.take(n)[i] == second.disk[i]);
    }
    assert forall|k: int| 0 <= k <= steps.len() implies super::crash::survives(
        base,
        super::compaction::run_steps(world, #[trigger] steps.take(k)),
        super::compaction::step_after(steps, k),
    ) by {
        let next = super::compaction::step_after(steps, k);
        if k == 0 {
            assert(steps.take(0) =~= none);
            super::crash::lemma_survives(base, world, next);
        } else if k == 1 {
            assert(steps.take(1) =~= none.push(steps[0]));
            super::crash::lemma_survives(base, first, next);
        } else {
            let m = k - 2;
            assert(steps.take(k) =~= two + super::removals(ids).take(m));
            super::compaction::lemma_run_concat(world, two, super::removals(ids).take(m));
            lemma_run_removals(second, ids, m);
            lemma_removal_keeps(base, second, m);
            let left = World { disk: second.disk.skip(m), ..second };
            assert(left.disk.last() == second.disk[second.disk.len() - 1]);
            assert(left.disk.last().buffered.len() == 0);
            super::crash::lemma_flushed_survives(base, left, next);
        }
    }
}

/// What stands at the end of a merge: the files after the input files, as they were when all was
/// copied.
proof fn lemma_end_of_merge(base: Base, world: World, merge: MergeView, next_file_id: u32) -> (
    copied: World)
    requires
        super::compaction::is_merging(
            base,
            world,
            merge,
            next_file_id,
            base.disk.len() - 1,
            0,
        ),
        merge.inputs == crate::store::file_ids(base.disk.drop_last()),
    ensures
        is_copied(base, copied),
        copied.disk.last().file_id == merge.highest_output_id,
        copied.disk.last().file_id < next_file_id,
        super::compaction::run_steps(world, super::final_steps(merge)) == (World {
            disk: copied.disk.skip(base.disk.len() - 1),
            ..copied
        }),
{
    let n = base.disk.len() as int;
    let steps = super::final_steps(merge);
    let ids = merge.inputs;
    let first = super::compaction::run_step(world, steps[0]);
    let second = super::compaction::run_step(first, steps[1]);
    lemma_finish_copying(base, world, merge, next_file_id);
    let none = Seq::<MergeStepView>::empty();
    let two = none.push(steps[0]).push(steps[1]);
    super::compaction::lemma_run_push(world, none, steps[0]);
    super::compaction::lemma_run_push(world, none.push(steps[0]), steps[1]);
    assert(super::compaction::run_steps(world, two) == second);
    assert(steps =~= two + super::removals(ids));
    assert forall|i: int| 0 <= i < ids.len() implies (#[trigger] ids[i])
        == second.disk[i].file_id by {
        assert(second.disk.take(n)[i] == second.disk[i]);
    }
    assert(super::removals(ids).take(n - 1) =~= super::removals(ids));
    super::compaction::lemma_run_concat(world, two, super::removals(ids));
    lemma_run_removals(second, ids, n - 1);
    second
}

/// After the rotation at the end of a merge the engine and the disk are in step.
proof fn lemma_end_in_step(base: Base, copied: World, state: EngineView)
    requires
        is_copied(base, copied),
        copied.disk.last().file_id < state.next_file_id < u32::MAX,
        state.keydir == copied.keydir,
        state.is_read_write,
    ensures
        ({
            let after = crate::store::after_rotation(state);
            let left = copied.disk.skip(base.disk.len() - 1);
            let disk = left.push(crate::store::new_file(state.next_file_id));
            &&& crate::store::in_step(after, disk)
            &&& crate::store::contents(disk, after.keydir) == base.contents()
        }),
{
    let m = base.disk.len() - 1;
    let left = copied.disk.skip(m);
    let last = copied.disk.len() - 1;
    lemma_removal_keeps(base, copied, m);
    assert forall|i: int| 0 <= i < left.len() implies (#[trigger] left[i]).file_id
        < state.next_file_id by {
        assert(left[i] == copied.disk[m + i]);
        if m + i < last {
            assert(copied.disk[m + i].file_id < copied.disk[last].file_id);
        }
    }
    crate::store::lemma_new_file_changes_nothing(left, copied.keydir, state.next_file_id);
    let disk = left.push(crate::store::new_file(state.next_file_id));
    assert forall|i: int| 0 <= i < disk.len() implies (#[trigger] disk[i]).file_id
        < crate::store::after_rotation(state).next_file_id by {
        if i < left.len() {
            assert(disk[i] == left[i]);
        }
    }
}

/// The end of a merge, once all input files were copied. Wherever it is interrupted, and whatever
/// part of a buffer or of a hint file has reached the disk by then, readers and recovery find all
/// that the datastore held. At the end the input files are gone, and what stands in the output
/// files is live to the last entry: superseded values and tombstones are left behind. With a
/// rotation, which the engine asks for, the engine and the disk are in step again, and the
/// datastore holds what it held.
pub proof fn law_the_end_of_a_merge_loses_nothing(
    base: Base,
    world: World,
    merge: MergeView,
    next_file_id: u32,
    state: EngineView,
)
    requires
        super::compaction::is_merging(
            base,
            world,
            merge,
            next_file_id,
            base.disk.len() - 1,
            0,
        ),
        merge.inputs == crate::store::file_ids(base.disk.drop_last()),
        next_file_id < u32::MAX,
        state.keydir == super::compaction::run_steps(world, super::final_steps(merge)).keydir,
        state.next_file_id == next_file_id,
        state.is_read_write,
    ensures
        ({
            let steps = super::final_steps(merge);
            let end = super::compaction::run_steps(world, steps);
            let after = crate::store::after_rotation(state);
            let disk = end.disk.push(crate::store::new_file(next_file_id));
            &&& forall|n: int|
                0 <= n <= steps.len() ==> super::crash::survives(
                    base,
                    super::compaction::run_steps(world, #[trigger] steps.take(n)),
                    super::compaction::step_after(steps, n),
                )
            &&& end.disk.len() > 1
            &&& end.disk[0] == base.disk.last()
            &&& forall|i: int|
                1 <= i < end.disk.len() ==> is_all_live(#[trigger] end.disk[i], end.keydir)
            &&& base.active_id() <= merge.highest_output_id
            &&& crate::store::in_step(after, disk)
            &&& crate::store::contents(disk, after.keydir) == base.contents()
        }),
{
    let m = base.disk.len() - 1;
    let end = super::compaction::run_steps(world, super::final_steps(merge));
    lemma_end_survives(base, world, merge, next_file_id);
    let copied = lemma_end_of_merge(base, world, merge, next_file_id);
    let last = copied.disk.len() - 1;
    assert(end.disk[0] == copied.disk[m]);
    assert(copied.disk.take(m + 1)[m] == copied.disk[m]);
    assert(copied.disk[m].file_id < copied.disk[last].file_id);
    assert forall|i: int| 1 <= i < end.disk.len() implies is_all_live(
        #[trigger] end.disk[i],
        end.keydir,
    ) by {
        assert(end.disk[i] == copied.disk[m + i]);
        lemma_outputs_all_live(base, copied, m + i);
    }
    lemma_end_in_step(base, copied, state);
}

/// Copying does not change what is merged.
proof fn lemma_inputs_stay(
    c: Copying,
    keydir: KeydirView,
    file_id: u32,
    entries: Seq<(nat, crate::format::entry::EntryView)>,
)
    ensures
        super::copy_entries(c, keydir, file_id, entries).merge.inputs == c.merge.inputs,
        super::copy_entries(c, keydir, file_id, entries).merge.copied == c.merge.copied,
    decreases entries.len(),
{
    if entries.len() > 0 {
        lemma_inputs_stay(c, keydir, file_id, entries.drop_last());
    }
}

/// Copying the first `count` input files one after the other, and carrying out the steps of each
/// before the next.
pub open spec fn copy_files(base: Base, world: World, c: Copying, count: nat) -> (World, Copying)
    decreases count,
{
    if count == 0 {
        (world, c)
    } else {
        let (reached, before) = copy_files(base, world, c, (count - 1) as nat);
        let file = base.disk[count - 1];
        let after = super::copy_entries(
            Copying { steps: Seq::empty(), ..before },
            reached.keydir,
            file.file_id,
            crate::scan::scan_entries(file.data, 0),
        );
        (
            super::compaction::run_steps(reached, after.steps),
            Copying { merge: super::file_copied(after.merge), ..after },
        )
    }
}

/// Whether a merge that copies the first `count` input files has room for it: no offset in an
/// output file is beyond a `u64`, and there is an id for every output file.
pub open spec fn has_room(base: Base, world: World, c: Copying, count: nat) -> bool
    decreases count,
{
    count > 0 ==> {
        let (reached, before) = copy_files(base, world, c, (count - 1) as nat);
        let file = base.disk[count - 1];
        &&& has_room(base, world, c, (count - 1) as nat)
        &&& before.merge.output.data.offset + file.data.len() <= u64::MAX
        &&& before.next_file_id + super::rotations(
            Copying { steps: Seq::empty(), ..before },
            reached.keydir,
            file.file_id,
            crate::scan::scan_entries(file.data, 0),
        ) <= u32::MAX
    }
}

/// Copying input files keeps a merge going.
pub proof fn lemma_copy_files(base: Base, world: World, c: Copying, count: nat)
    requires
        super::compaction::is_merging(base, world, c.merge, c.next_file_id, 0, 0),
        count < base.disk.len(),
        has_room(base, world, c, count),
    ensures
        ({
            let (reached, after) = copy_files(base, world, c, count);
            &&& super::compaction::is_merging(
                base,
                reached,
                after.merge,
                after.next_file_id,
                count as int,
                0,
            )
            &&& after.merge.inputs == c.merge.inputs
            &&& after.merge.copied == c.merge.copied + count
        }),
    decreases count,
{
    if count > 0 {
        let at = (count - 1) as nat;
        lemma_copy_files(base, world, c, at);
        let (reached, before) = copy_files(base, world, c, at);
        let file = base.disk[at as int];
        let entries = crate::scan::scan_entries(file.data, 0);
        let none = Seq::<MergeStepView>::empty();
        let start = Copying { steps: none, ..before };
        let after = super::copy_entries(start, reached.keydir, file.file_id, entries);
        super::compaction::law_copying_a_file_loses_nothing(
            base,
            reached,
            before.merge,
            before.next_file_id,
            at as int,
            none,
        );
        assert(after.steps.skip(0) =~= after.steps);
        lemma_inputs_stay(start, reached.keydir, file.file_id, entries);
    }
}

/// Whether a merge of all closed files has room for it: for the offsets in its output files, for
/// their ids, and for the id of the new active file at its end.
pub open spec fn merge_has_room(state: EngineView, disk: Seq<DiskFile>) -> bool {
    let base = Base { disk, keydir: state.keydir };
    let count = (disk.len() - 1) as nat;
    let begun = merge_start(state, disk)->0;
    let start = super::compaction::run_steps(World { disk, keydir: state.keydir }, begun.steps);
    &&& state.next_file_id < u32::MAX
    &&& has_room(base, start, begun, count)
    &&& copy_files(base, start, begun, count).1.next_file_id < u32::MAX
}

/// A whole merge, with no writes meanwhile: the datastore holds afterwards what it held before,
/// and the engine and the disk are in step again. Left out are only merges that run out of file
/// ids or of offsets in an output file.
pub proof fn law_a_merge_keeps_the_contents(state: EngineView, disk: Seq<DiskFile>)
    requires
        crate::store::in_step(state, disk),
        state.is_read_write,
        disk.len() >= 2,
        merge_has_room(state, disk),
    ensures
        ({
            let base = Base { disk, keydir: state.keydir };
            let begun = merge_start(state, disk)->0;
            let start = super::compaction::run_steps(
                World { disk, keydir: state.keydir },
                begun.steps,
            );
            let (copied, c) = copy_files(base, start, begun, (disk.len() - 1) as nat);
            let end = super::compaction::run_steps(copied, super::final_steps(c.merge));
            let after = crate::store::after_rotation(
                EngineView { keydir: end.keydir, next_file_id: c.next_file_id, ..state },
            );
            let disk_after = end.disk.push(crate::store::new_file(c.next_file_id));
            &&& crate::store::in_step(after, disk_after)
            &&& crate::store::contents(disk_after, after.keydir) == crate::store::contents(
                disk,
                state.keydir,
            )
        }),
{
    let base = Base { disk, keydir: state.keydir };
    let count = (disk.len() - 1) as nat;
    let begun = merge_start(state, disk)->0;
    let start = super::compaction::run_steps(World { disk, keydir: state.keydir }, begun.steps);
    law_a_merge_begins_with_all_closed_files(state, disk);
    lemma_copy_files(base, start, begun, count);
    let (copied, c) = copy_files(base, start, begun, count);
    let end = super::compaction::run_steps(copied, super::final_steps(c.merge));
    law_the_end_of_a_merge_loses_nothing(
        base,
        copied,
        c.merge,
        c.next_file_id,
        EngineView { keydir: end.keydir, next_file_id: c.next_file_id, ..state },
    );
}

/// A key that was written since it was copied, or deleted, keeps that newer state when the copies
/// are repointed: its entry is none of those that the merge expects.
pub proof fn law_a_newer_write_is_never_lost(
    keydir: KeydirView,
    items: Seq<super::pending_queue::Repoint>,
    key: Seq<u8>,
)
    requires
        forall|i: int|
            0 <= i < items.len() && (#[trigger] items[i]).key == key ==> crate::keydir::lookup(
                keydir,
                key,
            ) != Some(items[i].old),
    ensures
        crate::keydir::lookup(super::repoint_all(keydir, items), key) == crate::keydir::lookup(
            keydir,
            key,
        ),
    decreases items.len(),
{
    if items.len() > 0 {
        let rest = items.drop_last();
        assert forall|i: int| 0 <= i < rest.len() && (
        #[trigger] rest[i]).key == key implies crate::keydir::lookup(keydir, key) != Some(
            rest[i].old,
        ) by {
            assert(rest[i] == items[i]);
        }
        law_a_newer_write_is_never_lost(keydir, rest, key);
        assert(items[items.len() - 1] == items.last());
    }
}

} // verus!
