//! That a merge and writes may go on at the same time.
//!
//! What a merge plans for an input file depends on the index as it was then. When a step of the
//! plan is carried out, keys may have been written or deleted meanwhile. What holds all the time
//! is stated as an invariant of a merge under way. It holds when a merge begins, and it is kept by
//! planning for an input file, by a write of any key, by carrying out a step, and by ending the
//! merge, in whatever order these come.
use vstd::prelude::*;

use super::compaction::World;
use super::output_writer::MergeStepView;
use super::pending_queue::Repoint;
use super::{Copying, MergeView};
use crate::engine::EngineView;
use crate::format::entry::EntryView;
use crate::keydir::{KeydirEntry, KeydirView};
use crate::store::DiskFile;

verus! {

/// A merge under way, while writes go on.
#[verifier::ext_equal]
pub struct Underway {
    /// The files that are merged. They are closed, so nothing changes them.
    pub inputs: Seq<DiskFile>,
    /// For how many of the input files steps were planned.
    pub planned: nat,
    pub merge: MergeView,
    /// The steps that were planned and are still to be carried out.
    pub todo: Seq<MergeStepView>,
    /// The output files so far.
    pub outputs: Seq<DiskFile>,
    /// The index, which writes change too.
    pub keydir: KeydirView,
}

/// The output files and the index.
pub open spec fn world_of(u: Underway) -> World {
    World { disk: u.outputs, keydir: u.keydir }
}

/// Whether a batch has a key that is to be led away from an entry.
pub open spec fn leads_away(items: Seq<Repoint>, key: Seq<u8>, old: KeydirEntry) -> bool {
    exists|k: int|
        0 <= k < items.len() && (#[trigger] items[k]).key == key && items[k].old == old
}

/// Whether a step leads a key away from an entry.
pub open spec fn step_leads_away(step: MergeStepView, key: Seq<u8>, old: KeydirEntry) -> bool {
    match step {
        MergeStepView::Repoint(items) => leads_away(items, key, old),
        _ => false,
    }
}

/// Whether a key is still to be led away from an entry, by a step or later.
pub open spec fn is_due(
    steps: Seq<MergeStepView>,
    pending: Seq<Repoint>,
    key: Seq<u8>,
    old: KeydirEntry,
) -> bool {
    ||| leads_away(pending, key, old)
    ||| exists|n: int| 0 <= n < steps.len() && step_leads_away(#[trigger] steps[n], key, old)
}

/// Whether no step removes a file.
pub open spec fn removes_nothing(steps: Seq<MergeStepView>) -> bool {
    forall|n: int| 0 <= n < steps.len() ==> !((#[trigger] steps[n]) is Remove)
}

/// The ids of the files that steps create.
pub open spec fn created(steps: Seq<MergeStepView>) -> Seq<u32>
    decreases steps.len(),
{
    if steps.len() == 0 {
        Seq::empty()
    } else {
        let rest = created(steps.drop_last());
        match steps.last() {
            MergeStepView::Create { file_id } => rest.push(file_id),
            _ => rest,
        }
    }
}

/// Whether an entry of the index leads readers to its value: one that points into an input file
/// points to an entry there and is led away from it in time, one that points into an output file
/// points to bytes that readers see, and none points into a file that is still to be created.
pub open spec fn is_placed(u: Underway, key: Seq<u8>, entry: KeydirEntry) -> bool {
    &&& forall|i: int|
        0 <= i < u.inputs.len() && (#[trigger] u.inputs[i]).file_id == entry.file_id
            ==> super::compaction::points_into(u.inputs[i], key, entry) && (i < u.planned ==> is_due(
            u.todo,
            u.merge.pending,
            key,
            entry,
        ))
    &&& forall|i: int|
        0 <= i < u.outputs.len() && (#[trigger] u.outputs[i]).file_id == entry.file_id
            ==> super::exact_copies::reaches(u.outputs[i], entry)
    &&& !created(u.todo).contains(entry.file_id)
}

/// Whether the steps that were planned lead to exact copies, and repoint keys to these only when
/// readers see them.
pub open spec fn plan_holds(u: Underway) -> bool {
    let end = super::compaction::run_steps(world_of(u), u.todo);
    &&& crate::store::ids_ascend(u.inputs)
    &&& forall|i: int| 0 <= i < u.inputs.len() ==> (#[trigger] u.inputs[i]).data.len() <= u64::MAX
    &&& u.planned <= u.inputs.len()
    &&& removes_nothing(u.todo)
    &&& super::exact_copies::waits_for_flush(u.inputs, end, u.merge)
    &&& super::exact_copies::is_newer(u.inputs, end.disk[0])
    &&& super::exact_copies::repoints_are_exact(u.inputs, world_of(u), u.todo)
}

/// What holds of a merge under way at any time.
pub open spec fn is_safe(u: Underway) -> bool {
    &&& plan_holds(u)
    &&& forall|key: Seq<u8>| #[trigger]
        u.keydir.contains_key(key) ==> is_placed(u, key, u.keydir[key])
}

/// Steps add the files that they create after those that are there.
proof fn lemma_ids_after(world: World, steps: Seq<MergeStepView>)
    requires
        removes_nothing(steps),
    ensures
        crate::store::file_ids(super::compaction::run_steps(world, steps).disk)
            == crate::store::file_ids(world.disk) + created(steps),
    decreases steps.len(),
{
    let ids = crate::store::file_ids(world.disk);
    if steps.len() == 0 {
        assert(ids + created(steps) =~= ids);
    } else {
        let rest = steps.drop_last();
        assert forall|n: int| 0 <= n < rest.len() implies !((#[trigger] rest[n]) is Remove) by {
            assert(rest[n] == steps[n]);
        }
        lemma_ids_after(world, rest);
        let before = super::compaction::run_steps(world, rest);
        let after = super::compaction::run_step(before, steps.last());
        assert(!(steps[steps.len() - 1] is Remove));
        match steps.last() {
            MergeStepView::Create { file_id } => {
                assert(crate::store::file_ids(after.disk) =~= crate::store::file_ids(
                    before.disk,
                ).push(file_id));
                assert((ids + created(rest)).push(file_id) =~= ids + created(rest).push(file_id));
            },
            _ => {
                assert(crate::store::file_ids(after.disk) =~= crate::store::file_ids(before.disk));
            },
        }
    }
}

/// What steps do to the files does not depend on the index.
proof fn lemma_files_apart(disk: Seq<DiskFile>, one: KeydirView, other: KeydirView, steps: Seq<MergeStepView>)
    ensures
        super::compaction::run_steps(World { disk, keydir: one }, steps).disk
            == super::compaction::run_steps(World { disk, keydir: other }, steps).disk,
    decreases steps.len(),
{
    if steps.len() > 0 {
        lemma_files_apart(disk, one, other, steps.drop_last());
    }
}

proof fn lemma_created_concat(first: Seq<MergeStepView>, second: Seq<MergeStepView>)
    ensures
        created(first + second) == created(first) + created(second),
    decreases second.len(),
{
    if second.len() == 0 {
        assert(first + second =~= first);
        assert(created(first) + created(second) =~= created(first));
    } else {
        assert((first + second).drop_last() =~= first + second.drop_last());
        lemma_created_concat(first, second.drop_last());
        assert(created(first + second) =~= created(first) + created(second));
    }
}

/// The files of a merge under way come in ascending order of their ids, and all output files are
/// newer than the input files.
proof fn lemma_files_ascend(u: Underway)
    requires
        plan_holds(u),
    ensures
        crate::store::ids_ascend(u.inputs + u.outputs),
        crate::store::ids_ascend(u.outputs),
        forall|i: int|
            0 <= i < u.outputs.len() ==> super::exact_copies::is_newer(
                u.inputs,
                #[trigger] u.outputs[i],
            ),
        forall|i: int|
            0 <= i < u.outputs.len() ==> !created(u.todo).contains((#[trigger] u.outputs[i]).file_id),
{
    let end = super::compaction::run_steps(world_of(u), u.todo);
    let ids = crate::store::file_ids(u.outputs);
    let end_ids = crate::store::file_ids(end.disk);
    lemma_ids_after(world_of(u), u.todo);
    assert(end.disk.len() == end_ids.len() == ids.len() + created(u.todo).len());
    assert forall|i: int| 0 <= i < u.outputs.len() implies (#[trigger] u.outputs[i]).file_id
        == end.disk[i].file_id by {
        assert(ids[i] == u.outputs[i].file_id);
        assert(end_ids[i] == end.disk[i].file_id);
    }
    assert forall|i: int| 0 <= i < u.outputs.len() implies super::exact_copies::is_newer(
        u.inputs,
        #[trigger] u.outputs[i],
    ) by {
        if i > 0 {
            assert(end.disk[0].file_id < end.disk[i].file_id);
        }
    }
    assert forall|i: int| 0 <= i < u.outputs.len() implies !created(u.todo).contains(
        (#[trigger] u.outputs[i]).file_id,
    ) by {
        if created(u.todo).contains(u.outputs[i].file_id) {
            let k = choose|k: int|
                0 <= k < created(u.todo).len() && created(u.todo)[k] == u.outputs[i].file_id;
            let at = ids.len() + k;
            assert(end_ids[at as int] == created(u.todo)[k]);
            assert(end.disk[i].file_id < end.disk[at as int].file_id);
        }
    }
    let files = u.inputs + u.outputs;
    let n = u.inputs.len() as int;
    assert forall|i: int, j: int| 0 <= i < j < files.len() implies files[i].file_id
        < files[j].file_id by {
        if j < n {
            assert(u.inputs[i].file_id < u.inputs[j].file_id);
        } else if i < n {
            assert(super::exact_copies::is_newer(u.inputs, u.outputs[j - n]));
            assert(u.inputs[i].file_id < u.outputs[j - n].file_id);
        } else {
            assert(end.disk[i - n].file_id < end.disk[j - n].file_id);
        }
    }
}

/// Whether a file belongs to a merge, as an input or an output file.
pub open spec fn is_merged(u: Underway, file_id: u32) -> bool {
    exists|i: int|
        0 <= i < (u.inputs + u.outputs).len() && (#[trigger] (u.inputs + u.outputs)[i]).file_id
            == file_id
}

/// What readers find where an entry points, if that is in a file of the merge.
pub open spec fn read_merged(u: Underway, entry: KeydirEntry) -> Option<Seq<u8>> {
    if is_merged(u, entry.file_id) {
        Some(crate::store::value_at(u.inputs + u.outputs, entry))
    } else {
        None
    }
}

/// Whether readers find the same before and after: the same keys, each with the same value. A key
/// that points into no file of the merge keeps its entry.
pub open spec fn reads_alike(before: Underway, after: Underway) -> bool {
    forall|key: Seq<u8>| #[trigger]
        before.keydir.contains_key(key) == after.keydir.contains_key(key) && (
        before.keydir.contains_key(key) ==> reads_key_alike(
            before,
            after,
            before.keydir[key],
            after.keydir[key],
        ))
}

/// Whether readers find the same value for a key.
pub open spec fn reads_key_alike(
    before: Underway,
    after: Underway,
    old: KeydirEntry,
    new: KeydirEntry,
) -> bool {
    &&& read_merged(after, new) == read_merged(before, old)
    &&& read_merged(before, old) is None ==> new == old
}

/// Whether files only grow: each that is there stays, and none loses bytes.
pub open spec fn grows(before: Seq<DiskFile>, after: Seq<DiskFile>) -> bool {
    &&& before.len() <= after.len()
    &&& forall|i: int|
        0 <= i < before.len() ==> {
            &&& (#[trigger] after[i]).file_id == before[i].file_id
            &&& before[i].data.len() <= after[i].data.len()
            &&& after[i].data.take(before[i].data.len() as int) == before[i].data
        }
}

/// A step that does not concern the index lets the output files grow.
proof fn lemma_step_grows(world: World, step: MergeStepView)
    requires
        !(step is Remove),
    ensures
        grows(world.disk, super::compaction::run_step(world, step).disk),
{
    let after = super::compaction::run_step(world, step);
    assert forall|i: int| 0 <= i < world.disk.len() implies {
        &&& (#[trigger] after.disk[i]).file_id == world.disk[i].file_id
        &&& world.disk[i].data.len() <= after.disk[i].data.len()
        &&& after.disk[i].data.take(world.disk[i].data.len() as int) == world.disk[i].data
    } by {
        assert(after.disk[i].data.take(world.disk[i].data.len() as int) =~= world.disk[i].data);
    }
}

/// Where the value of an entry stands among the files of a merge.
proof fn lemma_value_of(u: Underway, files: Seq<DiskFile>, i: int, entry: KeydirEntry)
    requires
        crate::store::ids_ascend(u.inputs + u.outputs),
        files == u.inputs + u.outputs,
        0 <= i < files.len(),
        files[i].file_id == entry.file_id,
    ensures
        read_merged(u, entry) == Some(super::exact_copies::bytes_at(files[i], entry)),
{
    crate::store::lemma_index_of(files, i);
    assert(files[i].file_id == entry.file_id);
}

/// Readers find the same where an entry points while the output files grow.
proof fn lemma_growth_reads_alike(before: Underway, after: Underway, key: Seq<u8>, entry: KeydirEntry)
    requires
        crate::store::ids_ascend(before.inputs + before.outputs),
        crate::store::ids_ascend(after.inputs + after.outputs),
        after.inputs == before.inputs,
        grows(before.outputs, after.outputs),
        is_placed(before, key, entry),
        forall|i: int|
            before.outputs.len() <= i < after.outputs.len() ==> created(before.todo).contains(
                (#[trigger] after.outputs[i]).file_id,
            ),
    ensures
        reads_key_alike(before, after, entry, entry),
        forall|i: int|
            0 <= i < after.outputs.len() && (#[trigger] after.outputs[i]).file_id == entry.file_id
                ==> super::exact_copies::reaches(after.outputs[i], entry),
{
    let old_files = before.inputs + before.outputs;
    let files = after.inputs + after.outputs;
    let n = before.inputs.len() as int;
    assert forall|i: int|
        0 <= i < after.outputs.len() && (#[trigger] after.outputs[i]).file_id
            == entry.file_id implies super::exact_copies::reaches(after.outputs[i], entry) by {
        if i < before.outputs.len() {
            assert(super::exact_copies::reaches(before.outputs[i], entry));
        }
    }
    if is_merged(before, entry.file_id) {
        let i = choose|i: int|
            0 <= i < old_files.len() && (#[trigger] old_files[i]).file_id == entry.file_id;
        lemma_value_of(before, old_files, i, entry);
        if i >= n {
            let old_file = before.outputs[i - n];
            let file = after.outputs[i - n];
            assert(super::exact_copies::reaches(old_file, entry));
            assert forall|p: int| 0 <= p < old_file.data.len() implies file.data[p]
                == #[trigger] old_file.data[p] by {
                assert(file.data.take(old_file.data.len() as int)[p] == file.data[p]);
            }
            assert(super::exact_copies::bytes_at(file, entry)
                =~= super::exact_copies::bytes_at(old_file, entry));
            assert(files[i] == file);
        } else {
            assert(files[i] == old_files[i]);
        }
        lemma_value_of(after, files, i, entry);
    } else if is_merged(after, entry.file_id) {
        let i = choose|i: int|
            0 <= i < files.len() && (#[trigger] files[i]).file_id == entry.file_id;
        if i < n {
            assert(old_files[i] == files[i]);
        } else if i - n < before.outputs.len() {
            assert(after.outputs[i - n].file_id == before.outputs[i - n].file_id);
            assert(old_files[i].file_id == files[i].file_id);
        } else {
            assert(created(before.todo).contains(after.outputs[i - n].file_id));
        }
        assert(false);
    }
}

/// Whether a batch leads a key from one entry to another.
pub open spec fn repoints_to(
    items: Seq<Repoint>,
    key: Seq<u8>,
    old: KeydirEntry,
    new: KeydirEntry,
) -> bool {
    exists|k: int| 0 <= k < items.len() && #[trigger] items[k] == (Repoint { key, old, new })
}

/// What repointing a batch does to a key: it is led to a copy if the batch has its entry, and
/// keeps its entry otherwise.
proof fn lemma_repoint_effect(
    inputs: Seq<DiskFile>,
    outputs: Seq<DiskFile>,
    keydir: KeydirView,
    items: Seq<Repoint>,
    key: Seq<u8>,
)
    requires
        super::exact_copies::batch_is_exact(inputs, outputs, items),
    ensures
        ({
            let after = super::repoint_all(keydir, items);
            &&& after.contains_key(key) == keydir.contains_key(key)
            &&& keydir.contains_key(key) ==> if leads_away(items, key, keydir[key]) {
                repoints_to(items, key, keydir[key], after[key])
            } else {
                after[key] == keydir[key]
            }
        }),
    decreases items.len(),
{
    if items.len() > 0 {
        let rest = items.drop_last();
        let last = items.last();
        let at = items.len() - 1;
        let before = super::repoint_all(keydir, rest);
        let after = super::repoint_all(keydir, items);
        assert forall|k: int| 0 <= k < rest.len() implies super::exact_copies::is_exact_in(
            inputs,
            outputs,
            #[trigger] rest[k],
        ) by {
            assert(rest[k] == items[k]);
        }
        lemma_repoint_effect(inputs, outputs, keydir, rest, key);
        if keydir.contains_key(key) {
            let old = keydir[key];
            if leads_away(rest, key, old) {
                let k = choose|k: int|
                    0 <= k < rest.len() && #[trigger] rest[k] == (Repoint {
                        key,
                        old,
                        new: before[key],
                    });
                assert(items[k] == rest[k]);
                assert(items[k].key == key && items[k].old == old);
                // The copy stands in an output file, so nothing leads away from it.
                assert(super::exact_copies::is_exact_in(inputs, outputs, items[k]));
                assert(super::exact_copies::is_exact_in(inputs, outputs, items[at]));
                assert(last.old != before[key]);
                assert(after[key] == before[key]);
            } else if last.key == key && last.old == old {
                assert(items[at].key == key && items[at].old == old);
                assert(items[at] == (Repoint { key, old, new: after[key] }));
            } else {
                assert(!leads_away(items, key, old)) by {
                    if leads_away(items, key, old) {
                        let k = choose|k: int|
                            0 <= k < items.len() && (#[trigger] items[k]).key == key
                                && items[k].old == old;
                        assert(rest[k] == items[k]);
                    }
                }
            }
        }
    }
}

/// A merge under way after the next step was carried out.
pub open spec fn advanced(u: Underway) -> Underway {
    let world = super::compaction::run_step(world_of(u), u.todo[0]);
    Underway { todo: u.todo.skip(1), outputs: world.disk, keydir: world.keydir, ..u }
}

/// The steps that are left lead to the same output files.
proof fn lemma_advance_steps(u: Underway)
    requires
        is_safe(u),
        u.todo.len() > 0,
    ensures
        ({
            let after = advanced(u);
            &&& super::compaction::run_steps(world_of(u), u.todo) == super::compaction::run_steps(
                world_of(after),
                after.todo,
            )
            &&& removes_nothing(after.todo)
            &&& super::exact_copies::repoints_are_exact(
                u.inputs,
                world_of(after),
                after.todo,
            )
            &&& u.todo[0] matches MergeStepView::Repoint(items)
                ==> super::exact_copies::batch_is_exact(u.inputs, u.outputs, items)
            &&& created(u.todo) == created(seq![u.todo[0]]) + created(after.todo)
        }),
{
    let after = advanced(u);
    let first = seq![u.todo[0]];
    let rest = after.todo;
    let world = world_of(u);
    super::compaction::lemma_run_push(world, Seq::empty(), u.todo[0]);
    assert(first =~= Seq::empty().push(u.todo[0]));
    assert(world_of(after) == super::compaction::run_steps(world, first));
    assert(u.todo =~= first + rest);
    super::compaction::lemma_run_concat(world, first, rest);
    lemma_created_concat(first, rest);
    assert forall|n: int| 0 <= n < rest.len() implies !((#[trigger] rest[n]) is Remove) && match rest[n] {
        MergeStepView::Repoint(items) => super::exact_copies::batch_is_exact(
            u.inputs,
            super::compaction::run_steps(world_of(after), rest.take(n)).disk,
            items,
        ),
        _ => true,
    } by {
        assert(u.todo[n + 1] == rest[n]);
        assert(u.todo.take(n + 1) =~= first + rest.take(n));
        super::compaction::lemma_run_concat(world, first, rest.take(n));
    }
    assert(u.todo.take(0) =~= Seq::empty());
    assert(super::compaction::run_steps(world, u.todo.take(0)) == world);
    assert(u.todo[0] == u.todo[0]);
}

/// A step that was carried out is not due any more.
proof fn lemma_due_after_step(
    todo: Seq<MergeStepView>,
    pending: Seq<Repoint>,
    key: Seq<u8>,
    old: KeydirEntry,
)
    requires
        todo.len() > 0,
        is_due(todo, pending, key, old),
        !step_leads_away(todo[0], key, old),
    ensures
        is_due(todo.skip(1), pending, key, old),
{
    if !leads_away(pending, key, old) {
        let n = choose|n: int|
            0 <= n < todo.len() && step_leads_away(#[trigger] todo[n], key, old);
        assert(todo.skip(1)[n - 1] == todo[n]);
    }
}

/// What carrying out a step other than a repoint does.
proof fn lemma_advance_files(u: Underway)
    requires
        is_safe(u),
        u.todo.len() > 0,
        !(u.todo[0] is Repoint),
        crate::store::ids_ascend(advanced(u).inputs + advanced(u).outputs),
    ensures
        reads_alike(u, advanced(u)),
        forall|key: Seq<u8>| #[trigger]
            u.keydir.contains_key(key) ==> is_placed(advanced(u), key, u.keydir[key]),
{
    let after = advanced(u);
    let step = u.todo[0];
    lemma_files_ascend(u);
    lemma_advance_steps(u);
    assert(!(step is Remove));
    lemma_step_grows(world_of(u), step);
    assert forall|i: int|
        u.outputs.len() <= i < after.outputs.len() implies created(u.todo).contains(
        (#[trigger] after.outputs[i]).file_id,
    ) by {
        let file_id = after.outputs[i].file_id;
        assert(step == (MergeStepView::Create { file_id }));
        assert(seq![step].drop_last() =~= Seq::empty());
        assert(created(seq![step]) =~= seq![file_id]) by {
            assert(created(Seq::empty()) =~= Seq::empty());
        }
        assert(created(u.todo)[0] == file_id);
    }
    assert forall|key: Seq<u8>| #[trigger] u.keydir.contains_key(key) implies is_placed(
        after,
        key,
        u.keydir[key],
    ) && reads_key_alike(u, after, u.keydir[key], u.keydir[key]) by {
        let entry = u.keydir[key];
        assert(is_placed(u, key, entry));
        lemma_growth_reads_alike(u, after, key, entry);
        assert forall|i: int|
            0 <= i < after.inputs.len() && (#[trigger] after.inputs[i]).file_id
                == entry.file_id implies super::compaction::points_into(
            after.inputs[i],
            key,
            entry,
        ) && (i < after.planned ==> is_due(after.todo, after.merge.pending, key, entry)) by {
            assert(u.inputs[i].file_id == entry.file_id);
            if i < u.planned {
                lemma_due_after_step(u.todo, u.merge.pending, key, entry);
            }
        }
        if created(after.todo).contains(entry.file_id) {
            let k = choose|k: int|
                0 <= k < created(after.todo).len() && created(after.todo)[k] == entry.file_id;
            let at = created(seq![step]).len() + k;
            assert(created(u.todo)[at as int] == entry.file_id);
        }
    }
}

/// What repointing a key to its copy does for readers.
proof fn lemma_repointed_key(
    u: Underway,
    items: Seq<Repoint>,
    key: Seq<u8>,
    old: KeydirEntry,
    new: KeydirEntry,
)
    requires
        is_safe(u),
        super::exact_copies::batch_is_exact(u.inputs, u.outputs, items),
        repoints_to(items, key, old, new),
    ensures
        read_merged(u, old) is Some,
        read_merged(u, new) == read_merged(u, old),
        forall|i: int| 0 <= i < u.inputs.len() ==> (#[trigger] u.inputs[i]).file_id != new.file_id,
        forall|i: int|
            0 <= i < u.outputs.len() && (#[trigger] u.outputs[i]).file_id == new.file_id
                ==> super::exact_copies::reaches(u.outputs[i], new),
        !created(u.todo).contains(new.file_id),
{
    let k = choose|k: int|
        0 <= k < items.len() && #[trigger] items[k] == (Repoint { key, old, new });
    let n = u.inputs.len() as int;
    let files = u.inputs + u.outputs;
    lemma_files_ascend(u);
    assert(super::exact_copies::is_exact_in(u.inputs, u.outputs, items[k]));
    let i = choose|i: int|
        0 <= i < u.outputs.len() && super::exact_copies::is_exact(
            u.inputs,
            #[trigger] u.outputs[i],
            items[k],
        );
    let m = choose|m: int|
        0 <= m < u.inputs.len() && super::exact_copies::reaches(#[trigger] u.inputs[m], old)
            && super::exact_copies::bytes_at(u.inputs[m], old) == super::exact_copies::bytes_at(
            u.outputs[i],
            new,
        );
    assert(super::exact_copies::reaches(u.inputs[m], old));
    assert(files[m] == u.inputs[m]);
    assert(files[n + i] == u.outputs[i]);
    lemma_value_of(u, files, m, old);
    lemma_value_of(u, files, n + i, new);
    assert forall|j: int|
        0 <= j < u.outputs.len() && (#[trigger] u.outputs[j]).file_id
            == new.file_id implies super::exact_copies::reaches(u.outputs[j], new) by {
        if j < i {
            assert(u.outputs[j].file_id < u.outputs[i].file_id);
        } else if i < j {
            assert(u.outputs[i].file_id < u.outputs[j].file_id);
        }
    }
}

/// What carrying out a repoint does.
proof fn lemma_advance_index(u: Underway)
    requires
        is_safe(u),
        u.todo.len() > 0,
        u.todo[0] is Repoint,
    ensures
        reads_alike(u, advanced(u)),
        forall|key: Seq<u8>| #[trigger]
            advanced(u).keydir.contains_key(key) ==> is_placed(
                advanced(u),
                key,
                advanced(u).keydir[key],
            ),
{
    let after = advanced(u);
    let items = u.todo[0]->Repoint_0;
    lemma_advance_steps(u);
    assert(created(u.todo) =~= created(after.todo)) by {
        assert(seq![u.todo[0]].drop_last() =~= Seq::empty());
        assert(created(Seq::empty()) =~= Seq::empty());
    }
    assert forall|key: Seq<u8>| #[trigger]
        u.keydir.contains_key(key) == after.keydir.contains_key(key) && (u.keydir.contains_key(key)
            ==> reads_key_alike(u, after, u.keydir[key], after.keydir[key]) && is_placed(
            after,
            key,
            after.keydir[key],
        )) by {
        lemma_repoint_effect(u.inputs, u.outputs, u.keydir, items, key);
        if u.keydir.contains_key(key) {
            let old = u.keydir[key];
            let new = after.keydir[key];
            assert(is_placed(u, key, old));
            if leads_away(items, key, old) {
                lemma_repointed_key(u, items, key, old, new);
                assert forall|i: int|
                    0 <= i < after.inputs.len() && (#[trigger] after.inputs[i]).file_id
                        == new.file_id implies false by {
                    assert(u.inputs[i].file_id != new.file_id);
                }
            } else {
                assert forall|i: int|
                    0 <= i < after.inputs.len() && (#[trigger] after.inputs[i]).file_id
                        == new.file_id implies super::compaction::points_into(
                    after.inputs[i],
                    key,
                    new,
                ) && (i < after.planned ==> is_due(after.todo, after.merge.pending, key, new)) by {
                    assert(u.inputs[i].file_id == old.file_id);
                    if i < u.planned {
                        lemma_due_after_step(u.todo, u.merge.pending, key, old);
                    }
                }
            }
        }
    }
    assert forall|key: Seq<u8>| #[trigger] after.keydir.contains_key(key) implies is_placed(
        after,
        key,
        after.keydir[key],
    ) by {
        assert(u.keydir.contains_key(key) == after.keydir.contains_key(key));
    }
}

/// A step of a merge can be carried out at any time: readers find the same keys with the same
/// values before and after it, and what holds of a merge under way holds on.
pub proof fn law_readers_do_not_see_a_merge(u: Underway)
    requires
        is_safe(u),
        u.todo.len() > 0,
    ensures
        is_safe(advanced(u)),
        reads_alike(u, advanced(u)),
{
    let after = advanced(u);
    lemma_advance_steps(u);
    if u.todo[0] is Repoint {
        lemma_advance_index(u);
    } else {
        lemma_files_ascend(after);
        lemma_advance_files(u);
    }
}

/// A key can be written or deleted at any time while a merge is under way. What is written goes
/// to a file that is none of the merge's.
pub proof fn law_writes_may_go_on_during_a_merge(
    u: Underway,
    key: Seq<u8>,
    entry: Option<KeydirEntry>,
)
    requires
        is_safe(u),
        entry is Some ==> !is_merged(u, entry->0.file_id) && !created(u.todo).contains(
            entry->0.file_id,
        ),
    ensures
        ({
            let keydir = match entry {
                Some(e) => u.keydir.insert(key, e),
                None => u.keydir.remove(key),
            };
            let after = Underway { keydir, ..u };
            &&& is_safe(after)
            &&& crate::keydir::lookup(after.keydir, key) == entry
            &&& forall|other: Seq<u8>|
                other != key ==> #[trigger] crate::keydir::lookup(after.keydir, other)
                    == crate::keydir::lookup(u.keydir, other)
        }),
{
    let keydir = match entry {
        Some(e) => u.keydir.insert(key, e),
        None => u.keydir.remove(key),
    };
    let after = Underway { keydir, ..u };
    let files = u.inputs + u.outputs;
    lemma_files_apart(u.outputs, u.keydir, keydir, u.todo);
    assert forall|n: int| 0 <= n < u.todo.len() implies match #[trigger] u.todo[n] {
        MergeStepView::Repoint(items) => super::exact_copies::batch_is_exact(
            u.inputs,
            super::compaction::run_steps(world_of(after), u.todo.take(n)).disk,
            items,
        ),
        _ => true,
    } by {
        lemma_files_apart(u.outputs, u.keydir, keydir, u.todo.take(n));
    }
    assert forall|k: Seq<u8>| #[trigger] keydir.contains_key(k) implies is_placed(
        after,
        k,
        keydir[k],
    ) by {
        if k == key {
            let file_id = entry->0.file_id;
            assert forall|i: int| 0 <= i < after.inputs.len() implies (
            #[trigger] after.inputs[i]).file_id != file_id by {
                assert(files[i] == u.inputs[i]);
            }
            assert forall|i: int| 0 <= i < after.outputs.len() implies (
            #[trigger] after.outputs[i]).file_id != file_id by {
                assert(files[u.inputs.len() + i] == u.outputs[i]);
            }
        } else {
            assert(u.keydir.contains_key(k));
            assert(is_placed(u, k, u.keydir[k]));
            assert forall|i: int|
                0 <= i < after.inputs.len() && (#[trigger] after.inputs[i]).file_id
                    == keydir[k].file_id implies super::compaction::points_into(
                after.inputs[i],
                k,
                keydir[k],
            ) && (i < after.planned ==> is_due(
                after.todo,
                after.merge.pending,
                k,
                keydir[k],
            )) by {
                assert(u.inputs[i].file_id == keydir[k].file_id);
            }
            assert forall|i: int|
                0 <= i < after.outputs.len() && (#[trigger] after.outputs[i]).file_id
                    == keydir[k].file_id implies super::exact_copies::reaches(
                after.outputs[i],
                keydir[k],
            ) by {
                assert(u.outputs[i].file_id == keydir[k].file_id);
            }
        }
    }
}

/// Once steps were planned for all input files, all were carried out and no key waits, no key
/// points to an input file any more: these can be removed.
pub proof fn law_merged_files_are_unused_in_the_end(u: Underway, key: Seq<u8>, i: int)
    requires
        is_safe(u),
        u.planned == u.inputs.len(),
        u.todo.len() == 0,
        u.merge.pending.len() == 0,
        u.keydir.contains_key(key),
        0 <= i < u.inputs.len(),
    ensures
        u.keydir[key].file_id != u.inputs[i].file_id,
{
    assert(is_placed(u, key, u.keydir[key]));
    assert(u.inputs[i] == u.inputs[i]);
}

/// What was due before an entry was copied is due after it, and so is the copied entry's key.
proof fn lemma_due_after_copy(c: Copying, file_id: u32, pos: nat, entry: EntryView)
    requires
        super::fills_output(c.merge.output, entry) ==> c.next_file_id < u32::MAX,
    ensures
        ({
            let after = super::copy_live(c, file_id, pos, entry);
            let old = super::repoint_of(file_id, pos, entry, 0, 0).old;
            &&& is_due(after.steps, after.merge.pending, entry.key, old)
            &&& forall|key: Seq<u8>, e: KeydirEntry|
                is_due(c.steps, c.merge.pending, key, e) ==> #[trigger] is_due(
                    after.steps,
                    after.merge.pending,
                    key,
                    e,
                )
            &&& removes_nothing(c.steps) ==> removes_nothing(after.steps)
            &&& forall|k: int|
                created(c.steps).len() <= k < created(after.steps).len() ==> #[trigger] created(
                    after.steps,
                )[k] == c.next_file_id
            &&& created(c.steps).len() <= created(after.steps).len()
            &&& created(after.steps).take(created(c.steps).len() as int) == created(c.steps)
        }),
{
    let after = super::copy_live(c, file_id, pos, entry);
    let steps = super::compaction::live_steps(c.merge, c.next_file_id, file_id, pos, entry);
    let appended = super::compaction::appended_merge(c.merge, file_id, pos, entry);
    let old = super::repoint_of(file_id, pos, entry, 0, 0).old;
    super::exact_copies::lemma_live_shape(c, file_id, pos, entry);
    let count = c.merge.pending.len() as int;
    assert(appended.pending[count].key == entry.key && appended.pending[count].old == old);
    assert forall|key: Seq<u8>, e: KeydirEntry|
        leads_away(appended.pending, key, e) implies #[trigger] is_due(
        after.steps,
        after.merge.pending,
        key,
        e,
    ) by {
        if after.merge.pending.len() == 0 {
            let at = after.steps.len() - 1;
            assert(after.steps[at] == steps.last());
            assert(step_leads_away(after.steps[at], key, e));
        } else {
            assert(after.merge.pending == appended.pending);
        }
    }
    assert(leads_away(appended.pending, entry.key, old));
    assert forall|key: Seq<u8>, e: KeydirEntry|
        is_due(c.steps, c.merge.pending, key, e) implies #[trigger] is_due(
        after.steps,
        after.merge.pending,
        key,
        e,
    ) by {
        if leads_away(c.merge.pending, key, e) {
            let k = choose|k: int|
                0 <= k < c.merge.pending.len() && (#[trigger] c.merge.pending[k]).key == key
                    && c.merge.pending[k].old == e;
            assert(appended.pending[k] == c.merge.pending[k]);
            assert(leads_away(appended.pending, key, e));
        } else {
            let n = choose|n: int|
                0 <= n < c.steps.len() && step_leads_away(#[trigger] c.steps[n], key, e);
            assert(after.steps[n] == c.steps[n]);
        }
    }
    lemma_created_live(c, file_id, pos, entry);
    lemma_created_concat(c.steps, steps);
    assert(created(after.steps).take(created(c.steps).len() as int) =~= created(c.steps));
    if removes_nothing(c.steps) {
        assert forall|n: int| 0 <= n < after.steps.len() implies !((
        #[trigger] after.steps[n]) is Remove) by {
            if n < c.steps.len() {
                assert(after.steps[n] == c.steps[n]);
            } else {
                assert(after.steps[n] == steps[n - c.steps.len()]);
            }
        }
    }
}

/// Copying a live entry creates one file at most, with the next free id.
proof fn lemma_created_live(c: Copying, file_id: u32, pos: nat, entry: EntryView)
    requires
        super::fills_output(c.merge.output, entry) ==> c.next_file_id < u32::MAX,
    ensures
        ({
            let steps = super::compaction::live_steps(
                c.merge,
                c.next_file_id,
                file_id,
                pos,
                entry,
            );
            let after = super::copy_live(c, file_id, pos, entry);
            &&& created(steps) == Seq::<u32>::empty() || created(steps) == seq![c.next_file_id]
            &&& c.next_file_id <= after.next_file_id
        }),
{
    let steps = super::compaction::live_steps(c.merge, c.next_file_id, file_id, pos, entry);
    super::exact_copies::lemma_live_shape(c, file_id, pos, entry);
    reveal_with_fuel(created, 5);
    if steps.len() == 4 {
        assert(steps.drop_last().drop_last().drop_last().drop_last() =~= Seq::empty());
    }
    assert(created(steps) =~= Seq::<u32>::empty() || created(steps) =~= seq![c.next_file_id]);
}

/// Planning for the first `j` entries of the next input file.
pub open spec fn planning(u: Underway, next_file_id: u32, j: int) -> Copying {
    let file = u.inputs[u.planned as int];
    super::copy_entries(
        Copying { merge: u.merge, next_file_id, steps: u.todo },
        u.keydir,
        file.file_id,
        crate::scan::scan_entries(file.data, 0).take(j),
    )
}

/// How many output files become full while the next input file is copied.
pub open spec fn rotations_ahead(u: Underway, next_file_id: u32) -> nat {
    let file = u.inputs[u.planned as int];
    super::rotations(
        Copying { merge: u.merge, next_file_id, steps: u.todo },
        u.keydir,
        file.file_id,
        crate::scan::scan_entries(file.data, 0),
    )
}

/// Whether a plan that has got so far leads to exact copies.
pub open spec fn planning_holds(u: Underway, next_file_id: u32, j: int) -> bool {
    let entries = crate::scan::scan_entries(u.inputs[u.planned as int].data, 0);
    let after = planning(u, next_file_id, j);
    let end = super::compaction::run_steps(world_of(u), after.steps);
    &&& super::exact_copies::repoints_are_exact(u.inputs, world_of(u), after.steps)
    &&& super::exact_copies::waits_for_flush(u.inputs, end, after.merge)
    &&& end.disk.last().file_id < after.next_file_id
    &&& after.next_file_id == next_file_id + super::rotations(
        Copying { merge: u.merge, next_file_id, steps: u.todo },
        u.keydir,
        u.inputs[u.planned as int].file_id,
        entries.take(j),
    )
    &&& after.merge.output.data.offset <= u.merge.output.data.offset
        + super::compaction::reach_after(entries, j)
    &&& super::compaction::reach_after(entries, j) <= u.inputs[u.planned as int].data.len()
}

/// Whether a plan that has got so far forgets no key.
pub open spec fn planning_is_complete(u: Underway, next_file_id: u32, j: int) -> bool {
    let file = u.inputs[u.planned as int];
    let entries = crate::scan::scan_entries(file.data, 0);
    let after = planning(u, next_file_id, j);
    &&& forall|key: Seq<u8>, e: KeydirEntry|
        is_due(u.todo, u.merge.pending, key, e) ==> #[trigger] is_due(
            after.steps,
            after.merge.pending,
            key,
            e,
        )
    &&& forall|i: int|
        0 <= i < j && super::is_live(u.keydir, file.file_id, entries[i].0, entries[i].1) ==> is_due(
            after.steps,
            after.merge.pending,
            (#[trigger] entries[i]).1.key,
            super::repoint_of(file.file_id, entries[i].0, entries[i].1, 0, 0).old,
        )
    &&& removes_nothing(after.steps)
    &&& created(u.todo).len() <= created(after.steps).len()
    &&& created(after.steps).take(created(u.todo).len() as int) == created(u.todo)
    &&& forall|k: int|
        created(u.todo).len() <= k < created(after.steps).len() ==> next_file_id
            <= #[trigger] created(after.steps)[k]
}

/// Planning for a further entry.
proof fn lemma_planning_step(u: Underway, next_file_id: u32, j: int)
    requires
        plan_holds(u),
        u.planned < u.inputs.len(),
        0 < j <= crate::scan::scan_entries(u.inputs[u.planned as int].data, 0).len(),
        u.merge.output.data.offset + u.inputs[u.planned as int].data.len() <= u64::MAX,
        next_file_id + rotations_ahead(u, next_file_id) <= u32::MAX,
        planning_holds(u, next_file_id, j - 1),
    ensures
        planning_holds(u, next_file_id, j),
{
    let at = u.planned as int;
    let file = u.inputs[at];
    let entries = crate::scan::scan_entries(file.data, 0);
    let before = planning(u, next_file_id, j - 1);
    let reached = super::compaction::run_steps(world_of(u), before.steps);
    let (pos, entry) = entries[j - 1];
    assert(entries.take(j).drop_last() =~= entries.take(j - 1));
    assert(entries.take(j).last() == entries[j - 1]);
    assert(super::compaction::reach_after(entries, j - 1) <= pos && pos
        + crate::scan::entry_len(entry) <= file.data.len()) by {
        crate::scan::lemma_scan_layout(file.data, 0);
        let e = crate::scan::scan_entries(file.data, 0);
        assert(crate::scan::is_sound(e[j - 1].1));
        if j > 1 {
            assert(e[j - 2].0 + crate::scan::entry_len(e[j - 2].1) <= e[j - 1].0);
        }
    }
    super::lemma_rotations_grow(
        Copying { merge: u.merge, next_file_id, steps: u.todo },
        u.keydir,
        file.file_id,
        entries,
        j,
    );
    if super::is_live(u.keydir, file.file_id, pos, entry) {
        super::exact_copies::lemma_copy_live_exact(u.inputs, reached, before, at, j - 1);
        let steps = super::compaction::live_steps(
            before.merge,
            before.next_file_id,
            file.file_id,
            pos,
            entry,
        );
        super::exact_copies::lemma_exact_concat(u.inputs, world_of(u), before.steps, steps);
        lemma_created_live(before, file.file_id, pos, entry);
    }
}

/// Planning for a further entry forgets no key.
proof fn lemma_planning_step_completes(u: Underway, next_file_id: u32, j: int)
    requires
        u.planned < u.inputs.len(),
        0 < j <= crate::scan::scan_entries(u.inputs[u.planned as int].data, 0).len(),
        planning(u, next_file_id, j - 1).next_file_id == next_file_id + super::rotations(
            Copying { merge: u.merge, next_file_id, steps: u.todo },
            u.keydir,
            u.inputs[u.planned as int].file_id,
            crate::scan::scan_entries(u.inputs[u.planned as int].data, 0).take(j - 1),
        ),
        next_file_id + rotations_ahead(u, next_file_id) <= u32::MAX,
        planning_is_complete(u, next_file_id, j - 1),
    ensures
        planning_is_complete(u, next_file_id, j),
{
    let file = u.inputs[u.planned as int];
    let entries = crate::scan::scan_entries(file.data, 0);
    let before = planning(u, next_file_id, j - 1);
    let after = planning(u, next_file_id, j);
    let (pos, entry) = entries[j - 1];
    assert(entries.take(j).drop_last() =~= entries.take(j - 1));
    assert(entries.take(j).last() == entries[j - 1]);
    super::lemma_rotations_grow(
        Copying { merge: u.merge, next_file_id, steps: u.todo },
        u.keydir,
        file.file_id,
        entries,
        j,
    );
    if super::is_live(u.keydir, file.file_id, pos, entry) {
        lemma_due_after_copy(before, file.file_id, pos, entry);
        let n = created(u.todo).len() as int;
        let m = created(before.steps).len() as int;
        assert forall|k: int| n <= k < created(after.steps).len() implies next_file_id
            <= #[trigger] created(after.steps)[k] by {
            if k < m {
                assert(created(after.steps).take(m)[k] == created(before.steps)[k]);
            }
        }
        assert(created(after.steps).take(n) =~= created(u.todo)) by {
            assert(created(after.steps).take(n) =~= created(after.steps).take(m).take(n));
        }
        assert forall|i: int|
            0 <= i < j && super::is_live(
                u.keydir,
                file.file_id,
                entries[i].0,
                entries[i].1,
            ) implies is_due(
            after.steps,
            after.merge.pending,
            (#[trigger] entries[i]).1.key,
            super::repoint_of(file.file_id, entries[i].0, entries[i].1, 0, 0).old,
        ) by {
            if i < j - 1 {
                assert(is_due(
                    before.steps,
                    before.merge.pending,
                    entries[i].1.key,
                    super::repoint_of(file.file_id, entries[i].0, entries[i].1, 0, 0).old,
                ));
            }
        }
    }
}

proof fn lemma_planning(u: Underway, next_file_id: u32, j: int)
    requires
        plan_holds(u),
        u.planned < u.inputs.len(),
        0 <= j <= crate::scan::scan_entries(u.inputs[u.planned as int].data, 0).len(),
        u.merge.output.data.file_id < next_file_id,
        u.merge.output.data.offset + u.inputs[u.planned as int].data.len() <= u64::MAX,
        next_file_id + rotations_ahead(u, next_file_id) <= u32::MAX,
    ensures
        planning_holds(u, next_file_id, j),
        planning_is_complete(u, next_file_id, j),
    decreases j,
{
    let entries = crate::scan::scan_entries(u.inputs[u.planned as int].data, 0);
    if j == 0 {
        assert(entries.take(0) =~= Seq::empty());
        assert(created(u.todo).take(created(u.todo).len() as int) =~= created(u.todo));
    } else {
        lemma_planning(u, next_file_id, j - 1);
        lemma_planning_step(u, next_file_id, j);
        lemma_planning_step_completes(u, next_file_id, j);
    }
}

/// A merge under way after steps were planned for the next input file.
pub open spec fn planned_next(u: Underway, next_file_id: u32) -> Underway {
    let file = u.inputs[u.planned as int];
    let c = super::copy_entries(
        Copying { merge: u.merge, next_file_id, steps: u.todo },
        u.keydir,
        file.file_id,
        crate::scan::scan_entries(file.data, 0),
    );
    Underway {
        planned: u.planned + 1,
        merge: super::file_copied(c.merge),
        todo: c.steps,
        ..u
    }
}

/// The first output file stays the first.
proof fn lemma_first_output_stays(u: Underway, todo: Seq<MergeStepView>)
    requires
        plan_holds(u),
        removes_nothing(todo),
        created(u.todo).len() <= created(todo).len(),
        created(todo).take(created(u.todo).len() as int) == created(u.todo),
    ensures
        super::exact_copies::is_newer(
            u.inputs,
            super::compaction::run_steps(world_of(u), todo).disk[0],
        ),
{
    let end = super::compaction::run_steps(world_of(u), u.todo);
    let later = super::compaction::run_steps(world_of(u), todo);
    let ids = crate::store::file_ids(u.outputs);
    lemma_ids_after(world_of(u), u.todo);
    lemma_ids_after(world_of(u), todo);
    let end_ids = crate::store::file_ids(end.disk);
    let later_ids = crate::store::file_ids(later.disk);
    assert(end_ids.len() == end.disk.len() == ids.len() + created(u.todo).len());
    assert(later_ids.len() == later.disk.len() == ids.len() + created(todo).len());
    assert(end_ids[0] == end.disk[0].file_id);
    assert(later_ids[0] == later.disk[0].file_id);
    if ids.len() == 0 {
        assert(created(todo).take(created(u.todo).len() as int)[0] == created(todo)[0]);
    }
}

/// Steps can be planned for the next input file at any time, also while some planned before are
/// still to be carried out. Every key that points into the file then is planned for.
pub proof fn law_a_file_can_be_planned_for_at_any_time(u: Underway, next_file_id: u32)
    requires
        is_safe(u),
        u.planned < u.inputs.len(),
        u.merge.output.data.file_id < next_file_id,
        forall|key: Seq<u8>| #[trigger]
            u.keydir.contains_key(key) ==> u.keydir[key].file_id < next_file_id,
        u.merge.output.data.offset + u.inputs[u.planned as int].data.len() <= u64::MAX,
        next_file_id + rotations_ahead(u, next_file_id) <= u32::MAX,
    ensures
        is_safe(planned_next(u, next_file_id)),
{
    let after = planned_next(u, next_file_id);
    let at = u.planned as int;
    let file = u.inputs[at];
    let entries = crate::scan::scan_entries(file.data, 0);
    let count = entries.len() as int;
    lemma_planning(u, next_file_id, count);
    assert(entries.take(count) =~= entries);
    lemma_first_output_stays(u, after.todo);
    assert(plan_holds(after));
    assert forall|key: Seq<u8>| #[trigger] u.keydir.contains_key(key) implies is_placed(
        after,
        key,
        u.keydir[key],
    ) by {
        let entry = u.keydir[key];
        assert(is_placed(u, key, entry));
        assert forall|i: int|
            0 <= i < after.inputs.len() && (#[trigger] after.inputs[i]).file_id
                == entry.file_id implies super::compaction::points_into(
            after.inputs[i],
            key,
            entry,
        ) && (i < after.planned ==> is_due(after.todo, after.merge.pending, key, entry)) by {
            assert(u.inputs[i].file_id == entry.file_id);
            if i < at {
                assert(is_due(u.todo, u.merge.pending, key, entry));
            } else if i == at {
                let events = crate::store::data_events(file);
                let j = choose|j: int|
                    0 <= j < events.len() && #[trigger] events[j]
                        == (crate::recovery::KeyEvent { key, entry: Some(entry) });
                let (pos, found) = entries[j];
                assert(events[j] == crate::recovery::entry_event(file.file_id, pos, found));
                assert(super::is_live(u.keydir, file.file_id, pos, found));
                assert(is_due(
                    after.todo,
                    after.merge.pending,
                    entries[j].1.key,
                    super::repoint_of(file.file_id, entries[j].0, entries[j].1, 0, 0).old,
                ));
            }
        }
        assert forall|i: int|
            0 <= i < after.outputs.len() && (#[trigger] after.outputs[i]).file_id
                == entry.file_id implies super::exact_copies::reaches(after.outputs[i], entry) by {
            assert(u.outputs[i].file_id == entry.file_id);
        }
        if created(after.todo).contains(entry.file_id) {
            let k = choose|k: int|
                0 <= k < created(after.todo).len() && created(after.todo)[k] == entry.file_id;
            let n = created(u.todo).len() as int;
            if k < n {
                assert(created(after.todo).take(n)[k] == created(u.todo)[k]);
            }
        }
    }
}

/// A merge under way once its end was planned, up to the removal of the input files.
pub open spec fn planned_end(u: Underway) -> Underway {
    Underway {
        merge: MergeView { pending: Seq::empty(), ..u.merge },
        todo: u.todo + super::final_steps(u.merge).take(2),
        ..u
    }
}

/// The end of a merge can be planned at any time. After it no key waits.
pub proof fn law_the_end_can_be_planned_at_any_time(u: Underway)
    requires
        is_safe(u),
    ensures
        is_safe(planned_end(u)),
{
    let after = planned_end(u);
    let hint = crate::format::hint::hint_file_bytes(u.merge.output.hints);
    let finish = MergeStepView::Finish { file_id: u.merge.output.data.file_id, hint };
    let repoint = MergeStepView::Repoint(u.merge.pending);
    let world = world_of(u);
    let end = super::compaction::run_steps(world, u.todo);
    assert(super::final_steps(u.merge).take(2) =~= seq![finish, repoint]);
    assert(after.todo =~= u.todo.push(finish).push(repoint));
    super::exact_copies::lemma_flush_exact(u.inputs, end, u.merge, Some(hint));
    super::compaction::lemma_update_last(
        end.disk,
        |f: DiskFile| DiskFile { hint: Some(hint), ..super::compaction::flushed(f) },
    );
    super::exact_copies::lemma_exact_push(u.inputs, world, u.todo, finish);
    super::exact_copies::lemma_exact_push(u.inputs, world, u.todo.push(finish), repoint);
    assert(u.todo.push(finish).drop_last() =~= u.todo);
    assert(u.todo.push(finish).push(repoint).drop_last() =~= u.todo.push(finish));
    assert(created(after.todo) == created(u.todo)) by {
        reveal_with_fuel(created, 3);
    }
    assert(created(u.todo).take(created(u.todo).len() as int) =~= created(u.todo));
    lemma_first_output_stays(u, after.todo);
    assert(plan_holds(after));
    assert forall|key: Seq<u8>| #[trigger] u.keydir.contains_key(key) implies is_placed(
        after,
        key,
        u.keydir[key],
    ) by {
        let entry = u.keydir[key];
        assert(is_placed(u, key, entry));
        assert forall|i: int|
            0 <= i < after.inputs.len() && (#[trigger] after.inputs[i]).file_id
                == entry.file_id implies super::compaction::points_into(
            after.inputs[i],
            key,
            entry,
        ) && (i < after.planned ==> is_due(after.todo, after.merge.pending, key, entry)) by {
            assert(u.inputs[i].file_id == entry.file_id);
            if i < u.planned {
                if leads_away(u.merge.pending, key, entry) {
                    let at = after.todo.len() - 1;
                    assert(step_leads_away(after.todo[at], key, entry));
                } else {
                    let n = choose|n: int|
                        0 <= n < u.todo.len() && step_leads_away(#[trigger] u.todo[n], key, entry);
                    assert(after.todo[n] == u.todo[n]);
                }
            }
        }
        assert forall|i: int|
            0 <= i < after.outputs.len() && (#[trigger] after.outputs[i]).file_id
                == entry.file_id implies super::exact_copies::reaches(after.outputs[i], entry) by {
            assert(u.outputs[i].file_id == entry.file_id);
        }
    }
}

/// A merge that has just begun is under way.
pub proof fn law_a_merge_begins_under_way(state: EngineView, disk: Seq<DiskFile>)
    requires
        crate::store::in_step(state, disk),
        state.is_read_write,
        disk.len() >= 2,
    ensures
        ({
            let begun = super::outcome::merge_start(state, disk)->0;
            is_safe(
                Underway {
                    inputs: disk.drop_last(),
                    planned: 0,
                    merge: begun.merge,
                    todo: begun.steps,
                    outputs: Seq::empty(),
                    keydir: state.keydir,
                },
            )
        }),
{
    let begun = super::outcome::merge_start(state, disk)->0;
    let u = Underway {
        inputs: disk.drop_last(),
        planned: 0,
        merge: begun.merge,
        todo: begun.steps,
        outputs: Seq::empty(),
        keydir: state.keydir,
    };
    let create = MergeStepView::Create { file_id: state.next_file_id };
    let fresh = crate::store::new_file(state.next_file_id);
    let none = Seq::<MergeStepView>::empty();
    super::outcome::lemma_inputs(disk);
    super::outcome::lemma_first_output_is_new(state, disk);
    super::output_writer::lemma_new_file_is_empty(
        crate::store::file_lengths(disk),
        state.next_file_id,
    );
    assert(begun.steps =~= none.push(create));
    super::compaction::lemma_run_push(world_of(u), none, create);
    let end = super::compaction::run_steps(world_of(u), u.todo);
    assert(end.disk =~= seq![fresh]);
    assert(super::compaction::flushed(fresh) =~= fresh);
    assert forall|i: int| 0 <= i < u.inputs.len() implies (#[trigger] u.inputs[i]).file_id
        < fresh.file_id && u.inputs[i].data.len() <= u64::MAX by {
        assert(u.inputs[i] == disk[i]);
    }
    assert forall|i: int, j: int| 0 <= i < j < u.inputs.len() implies u.inputs[i].file_id
        < u.inputs[j].file_id by {
        assert(disk[i].file_id < disk[j].file_id);
    }
    assert(none.push(create).drop_last() =~= none);
    assert(created(u.todo) =~= seq![state.next_file_id]) by {
        assert(created(none) =~= Seq::empty());
    }
    assert forall|key: Seq<u8>| #[trigger] u.keydir.contains_key(key) implies is_placed(
        u,
        key,
        u.keydir[key],
    ) by {
        let entry = u.keydir[key];
        let place = crate::store::lemma_anchored(disk, state.keydir, key);
        assert forall|i: int|
            0 <= i < u.inputs.len() && (#[trigger] u.inputs[i]).file_id
                == entry.file_id implies super::compaction::points_into(
            u.inputs[i],
            key,
            entry,
        ) by {
            assert(u.inputs[i] == disk[i]);
            crate::store::lemma_index_of(disk, i);
            let events = crate::store::data_events(disk[i]);
            let (pos, found) = crate::scan::scan_entries(disk[i].data, 0)[place.1];
            assert(events[place.1] == crate::recovery::entry_event(disk[i].file_id, pos, found));
        }
        assert(disk[place.0].file_id < state.next_file_id);
    }
}

} // verus!
