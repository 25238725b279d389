//! That a merge repoints keys to exact copies only, and not before readers see them.
use vstd::prelude::*;

use super::compaction::World;
use super::output_writer::MergeStepView;
use super::pending_queue::Repoint;
use super::{Copying, MergeView};
use crate::format::entry::EntryView;
use crate::format::HEADER_SIZE;
use crate::keydir::KeydirEntry;
use crate::store::DiskFile;

verus! {

/// Whether a file has the bytes that an entry points to.
pub open spec fn reaches(file: DiskFile, entry: KeydirEntry) -> bool {
    file.file_id == entry.file_id && entry.value_pos + entry.value_size <= file.data.len()
}

/// The bytes of a file that an entry points to.
pub open spec fn bytes_at(file: DiskFile, entry: KeydirEntry) -> Seq<u8> {
    file.data.subrange(entry.value_pos as int, entry.value_pos + entry.value_size)
}

/// Whether a file is newer than all input files.
pub open spec fn is_newer(inputs: Seq<DiskFile>, file: DiskFile) -> bool {
    forall|i: int| 0 <= i < inputs.len() ==> (#[trigger] inputs[i]).file_id < file.file_id
}

/// Whether a repoint leads to bytes in `file` that are those in some input file that it leads
/// away from.
pub open spec fn is_exact(inputs: Seq<DiskFile>, file: DiskFile, repoint: Repoint) -> bool {
    &&& is_newer(inputs, file)
    &&& reaches(file, repoint.new)
    &&& exists|i: int|
        0 <= i < inputs.len() && reaches(#[trigger] inputs[i], repoint.old) && bytes_at(
            inputs[i],
            repoint.old,
        ) == bytes_at(file, repoint.new)
}

/// Whether a repoint leads to an exact copy that readers see in some file.
pub open spec fn is_exact_in(inputs: Seq<DiskFile>, disk: Seq<DiskFile>, repoint: Repoint) -> bool {
    exists|i: int| 0 <= i < disk.len() && is_exact(inputs, #[trigger] disk[i], repoint)
}

/// Whether all keys of a batch are repointed to exact copies that readers see.
pub open spec fn batch_is_exact(
    inputs: Seq<DiskFile>,
    disk: Seq<DiskFile>,
    items: Seq<Repoint>,
) -> bool {
    forall|k: int| 0 <= k < items.len() ==> is_exact_in(inputs, disk, #[trigger] items[k])
}

/// Whether, of a run of steps, each that repoints keys comes when their copies are exact and
/// readers see them.
pub open spec fn repoints_are_exact(
    inputs: Seq<DiskFile>,
    world: World,
    steps: Seq<MergeStepView>,
) -> bool {
    forall|n: int|
        0 <= n < steps.len() ==> match #[trigger] steps[n] {
            MergeStepView::Repoint(items) => batch_is_exact(
                inputs,
                super::compaction::run_steps(world, steps.take(n)).disk,
                items,
            ),
            _ => true,
        }
}

/// Whether the last file is the current output file, and once it is flushed, the copies of all
/// keys that wait are in it, and exact.
pub open spec fn waits_for_flush(inputs: Seq<DiskFile>, world: World, merge: MergeView) -> bool {
    let file = super::compaction::flushed(world.disk.last());
    &&& world.disk.len() > 0
    &&& crate::store::ids_ascend(world.disk)
    &&& is_newer(inputs, file)
    &&& file.file_id == merge.output.data.file_id
    &&& file.data.len() == merge.output.data.offset
    &&& super::output_writer::is_new(merge.output.existing, merge.output.data.file_id)
    &&& forall|k: int|
        0 <= k < merge.pending.len() ==> is_exact(inputs, file, #[trigger] merge.pending[k])
}

/// A longer file has the same bytes where it had them.
proof fn lemma_exact_extends(
    inputs: Seq<DiskFile>,
    file: DiskFile,
    longer: DiskFile,
    repoint: Repoint,
)
    requires
        is_exact(inputs, file, repoint),
        longer.file_id == file.file_id,
        longer.data.len() >= file.data.len(),
        longer.data.take(file.data.len() as int) == file.data,
    ensures
        is_exact(inputs, longer, repoint),
{
    let new = repoint.new;
    assert forall|p: int| 0 <= p < file.data.len() implies longer.data[p]
        == #[trigger] file.data[p] by {
        assert(longer.data.take(file.data.len() as int)[p] == longer.data[p]);
    }
    assert(bytes_at(longer, new) =~= bytes_at(file, new));
    let i = choose|i: int|
        0 <= i < inputs.len() && reaches(#[trigger] inputs[i], repoint.old) && bytes_at(
            inputs[i],
            repoint.old,
        ) == bytes_at(file, repoint.new);
    assert(reaches(inputs[i], repoint.old));
}

/// What appending a copy does: it is exact once it is flushed, as are those before it.
proof fn lemma_append_exact(
    inputs: Seq<DiskFile>,
    world: World,
    merge: MergeView,
    at: int,
    j: int,
)
    requires
        waits_for_flush(inputs, world, merge),
        0 <= at < inputs.len(),
        inputs[at].data.len() <= u64::MAX,
        0 <= j < crate::scan::scan_entries(inputs[at].data, 0).len(),
        merge.output.data.offset + crate::scan::entry_len(
            crate::scan::scan_entries(inputs[at].data, 0)[j].1,
        ) <= u64::MAX,
    ensures
        ({
            let (pos, entry) = crate::scan::scan_entries(inputs[at].data, 0)[j];
            let bytes = crate::format::entry::entry_bytes(
                entry.key,
                entry.value,
                false,
                entry.header.timestamp,
            );
            let step = MergeStepView::Append { file_id: merge.output.data.file_id, bytes };
            let after = super::compaction::run_step(world, step);
            &&& bytes.len() == crate::scan::entry_len(entry)
            &&& after.disk.last().file_id == world.disk.last().file_id
            &&& waits_for_flush(
                inputs,
                after,
                super::compaction::appended_merge(merge, inputs[at].file_id, pos, entry),
            )
        }),
{
    let data = inputs[at].data;
    let (pos, entry) = crate::scan::scan_entries(data, 0)[j];
    let bytes = crate::format::entry::entry_bytes(
        entry.key,
        entry.value,
        false,
        entry.header.timestamp,
    );
    let file = world.disk.last();
    let longer = DiskFile { buffered: file.buffered + bytes, ..file };
    let before = super::compaction::flushed(file);
    let after = super::compaction::flushed(longer);
    let step = MergeStepView::Append { file_id: file.file_id, bytes };
    let merged = super::compaction::appended_merge(merge, inputs[at].file_id, pos, entry);
    let repoint = merged.pending.last();
    crate::scan::lemma_scan_layout(data, 0);
    assert(crate::scan::is_sound(crate::scan::scan_entries(data, 0)[j].1));
    assert(crate::scan::value_stands(
        data,
        (crate::scan::scan_entries(data, 0)[j].0 - 0) as nat,
        entry,
    ));
    crate::format::entry::law_entry_round_trip(
        entry.key,
        entry.value,
        false,
        entry.header.timestamp,
        Seq::empty(),
    );
    super::compaction::lemma_update_last(
        world.disk,
        |f: DiskFile| DiskFile { buffered: f.buffered + bytes, ..f },
    );
    assert(super::compaction::run_step(world, step).disk == super::compaction::with_last(
        world.disk,
        longer,
    ));
    assert(after.data =~= before.data + bytes);
    assert(after.data.take(before.data.len() as int) =~= before.data);
    assert(is_exact(inputs, after, repoint)) by {
        assert(bytes.subrange(
            HEADER_SIZE + entry.key.len(),
            bytes.len() as int,
        ) =~= entry.value);
        assert(bytes_at(after, repoint.new) =~= entry.value);
        assert(bytes_at(inputs[at], repoint.old) =~= entry.value);
        assert(reaches(inputs[at], repoint.old));
    }
    assert forall|k: int| 0 <= k < merged.pending.len() implies is_exact(
        inputs,
        after,
        #[trigger] merged.pending[k],
    ) by {
        if k < merge.pending.len() {
            assert(merged.pending[k] == merge.pending[k]);
            lemma_exact_extends(inputs, before, after, merge.pending[k]);
        }
    }
}

pub proof fn lemma_exact_push(
    inputs: Seq<DiskFile>,
    world: World,
    steps: Seq<MergeStepView>,
    step: MergeStepView,
)
    requires
        repoints_are_exact(inputs, world, steps),
        match step {
            MergeStepView::Repoint(items) => batch_is_exact(
                inputs,
                super::compaction::run_steps(world, steps).disk,
                items,
            ),
            _ => true,
        },
    ensures
        repoints_are_exact(inputs, world, steps.push(step)),
        super::compaction::run_steps(world, steps.push(step)) == super::compaction::run_step(
            super::compaction::run_steps(world, steps),
            step,
        ),
{
    let longer = steps.push(step);
    super::compaction::lemma_run_push(world, steps, step);
    assert forall|n: int| 0 <= n < longer.len() implies match #[trigger] longer[n] {
        MergeStepView::Repoint(items) => batch_is_exact(
            inputs,
            super::compaction::run_steps(world, longer.take(n)).disk,
            items,
        ),
        _ => true,
    } by {
        assert(longer.take(n) =~= steps.take(n));
        if n < steps.len() {
            assert(longer[n] == steps[n]);
        } else {
            assert(steps.take(n) =~= steps);
        }
    }
}

pub proof fn lemma_exact_concat(
    inputs: Seq<DiskFile>,
    world: World,
    first: Seq<MergeStepView>,
    second: Seq<MergeStepView>,
)
    requires
        repoints_are_exact(inputs, world, first),
        repoints_are_exact(inputs, super::compaction::run_steps(world, first), second),
    ensures
        repoints_are_exact(inputs, world, first + second),
        super::compaction::run_steps(world, first + second) == super::compaction::run_steps(
            super::compaction::run_steps(world, first),
            second,
        ),
{
    let all = first + second;
    super::compaction::lemma_run_concat(world, first, second);
    assert forall|n: int| 0 <= n < all.len() implies match #[trigger] all[n] {
        MergeStepView::Repoint(items) => batch_is_exact(
            inputs,
            super::compaction::run_steps(world, all.take(n)).disk,
            items,
        ),
        _ => true,
    } by {
        if n < first.len() {
            assert(all[n] == first[n]);
            assert(all.take(n) =~= first.take(n));
        } else {
            let m = n - first.len();
            assert(all[n] == second[m]);
            assert(all.take(n) =~= first + second.take(m));
            super::compaction::lemma_run_concat(world, first, second.take(m));
        }
    }
}

/// Flushing makes the copies of the keys that wait visible.
pub proof fn lemma_flush_exact(
    inputs: Seq<DiskFile>,
    world: World,
    merge: MergeView,
    hint: Option<Seq<u8>>,
)
    requires
        waits_for_flush(inputs, world, merge),
    ensures
        ({
            let file = DiskFile {
                hint,
                ..super::compaction::flushed(world.disk.last())
            };
            let disk = super::compaction::with_last(world.disk, file);
            &&& batch_is_exact(inputs, disk, merge.pending)
            &&& crate::store::ids_ascend(disk)
            &&& super::compaction::flushed(file) == file
        }),
{
    let flat = super::compaction::flushed(world.disk.last());
    let file = DiskFile { hint, ..flat };
    let disk = super::compaction::with_last(world.disk, file);
    let last = disk.len() - 1;
    assert(super::compaction::flushed(file) =~= file);
    assert(file.data.take(flat.data.len() as int) =~= flat.data);
    assert forall|k: int| 0 <= k < merge.pending.len() implies is_exact_in(
        inputs,
        disk,
        #[trigger] merge.pending[k],
    ) by {
        lemma_exact_extends(inputs, flat, file, merge.pending[k]);
        assert(disk[last] == file);
        assert(is_exact(inputs, disk[last], merge.pending[k]));
    }
}

/// What flushing a batch and repointing its keys does.
proof fn lemma_flush_batch_exact(inputs: Seq<DiskFile>, world: World, merge: MergeView)
    requires
        waits_for_flush(inputs, world, merge),
    ensures
        ({
            let first = super::compaction::run_step(
                world,
                MergeStepView::Flush { file_id: merge.output.data.file_id },
            );
            let second = super::compaction::run_step(first, MergeStepView::Repoint(merge.pending));
            &&& batch_is_exact(inputs, first.disk, merge.pending)
            &&& waits_for_flush(inputs, second, MergeView { pending: Seq::empty(), ..merge })
            &&& second.disk.last().file_id == world.disk.last().file_id
        }),
{
    let last = world.disk.last();
    let file = DiskFile { hint: last.hint, ..super::compaction::flushed(last) };
    lemma_flush_exact(inputs, world, merge, last.hint);
    super::compaction::lemma_update_last(
        world.disk,
        |f: DiskFile| super::compaction::flushed(f),
    );
    assert(file == super::compaction::flushed(last));
}

/// What finishing an output file, starting the next one and repointing the keys does.
proof fn lemma_rotate_output_exact(
    inputs: Seq<DiskFile>,
    world: World,
    merge: MergeView,
    next_file_id: u32,
)
    requires
        waits_for_flush(inputs, world, merge),
        world.disk.last().file_id < next_file_id,
    ensures
        ({
            let hint = crate::format::hint::hint_file_bytes(merge.output.hints);
            let first = super::compaction::run_step(
                world,
                MergeStepView::Finish { file_id: merge.output.data.file_id, hint },
            );
            let second = super::compaction::run_step(
                first,
                MergeStepView::Create { file_id: next_file_id },
            );
            let third = super::compaction::run_step(second, MergeStepView::Repoint(merge.pending));
            &&& batch_is_exact(inputs, first.disk, merge.pending)
            &&& batch_is_exact(inputs, second.disk, merge.pending)
            &&& waits_for_flush(
                inputs,
                third,
                MergeView {
                    output: super::output_writer::fresh_output(
                        next_file_id,
                        merge.output.max_file_size,
                        merge.output.existing,
                    ),
                    pending: Seq::empty(),
                    ..merge
                },
            )
            &&& third.disk.last().file_id == next_file_id
        }),
{
    let hint = crate::format::hint::hint_file_bytes(merge.output.hints);
    let first = super::compaction::run_step(
        world,
        MergeStepView::Finish { file_id: merge.output.data.file_id, hint },
    );
    let second = super::compaction::run_step(
        first,
        MergeStepView::Create { file_id: next_file_id },
    );
    let fresh = crate::store::new_file(next_file_id);
    super::output_writer::lemma_next_file_is_new(
        merge.output.existing,
        merge.output.data.file_id,
        next_file_id,
    );
    super::output_writer::lemma_new_file_is_empty(merge.output.existing, next_file_id);
    lemma_flush_exact(inputs, world, merge, Some(hint));
    super::compaction::lemma_update_last(
        world.disk,
        |f: DiskFile| DiskFile { hint: Some(hint), ..super::compaction::flushed(f) },
    );
    lemma_batch_in_more_files(inputs, first.disk, fresh, merge.pending);
    assert(super::compaction::flushed(fresh) =~= fresh);
    assert forall|p: int, q: int| 0 <= p < q < second.disk.len() implies second.disk[p].file_id
        < second.disk[q].file_id by {
        let last = first.disk.len() - 1;
        if q <= last {
            assert(first.disk[p].file_id < first.disk[q].file_id);
        } else if p < last {
            assert(first.disk[p].file_id < first.disk[last].file_id);
        }
    }
}

/// The steps of copying a live entry after which the batch is flushed.
proof fn lemma_copy_flushed_exact(
    inputs: Seq<DiskFile>,
    world: World,
    append: MergeStepView,
    appended: MergeView,
)
    requires
        append is Append,
        waits_for_flush(inputs, super::compaction::run_step(world, append), appended),
    ensures
        ({
            let flush = MergeStepView::Flush { file_id: appended.output.data.file_id };
            let steps = seq![append, flush, MergeStepView::Repoint(appended.pending)];
            let end = super::compaction::run_steps(world, steps);
            &&& repoints_are_exact(inputs, world, steps)
            &&& waits_for_flush(inputs, end, MergeView { pending: Seq::empty(), ..appended })
            &&& end.disk.last().file_id == super::compaction::run_step(
                world,
                append,
            ).disk.last().file_id
        }),
{
    let none = Seq::<MergeStepView>::empty();
    let one = none.push(append);
    let flush = MergeStepView::Flush { file_id: appended.output.data.file_id };
    let repoint = MergeStepView::Repoint(appended.pending);
    assert(super::compaction::run_steps(world, none) == world);
    lemma_exact_push(inputs, world, none, append);
    lemma_flush_batch_exact(inputs, super::compaction::run_step(world, append), appended);
    lemma_exact_push(inputs, world, one, flush);
    lemma_exact_push(inputs, world, one.push(flush), repoint);
    assert(seq![append, flush, repoint] =~= one.push(flush).push(repoint));
}

/// The steps of copying a live entry after which the output file is full.
proof fn lemma_copy_rotated_exact(
    inputs: Seq<DiskFile>,
    world: World,
    append: MergeStepView,
    appended: MergeView,
    next_file_id: u32,
)
    requires
        append is Append,
        waits_for_flush(inputs, super::compaction::run_step(world, append), appended),
        super::compaction::run_step(world, append).disk.last().file_id < next_file_id,
    ensures
        ({
            let finish = MergeStepView::Finish {
                file_id: appended.output.data.file_id,
                hint: crate::format::hint::hint_file_bytes(appended.output.hints),
            };
            let create = MergeStepView::Create { file_id: next_file_id };
            let steps = seq![append, finish, create, MergeStepView::Repoint(appended.pending)];
            let end = super::compaction::run_steps(world, steps);
            &&& repoints_are_exact(inputs, world, steps)
            &&& waits_for_flush(
                inputs,
                end,
                MergeView {
                    output: super::output_writer::fresh_output(
                        next_file_id,
                        appended.output.max_file_size,
                        appended.output.existing,
                    ),
                    pending: Seq::empty(),
                    ..appended
                },
            )
            &&& end.disk.last().file_id == next_file_id
        }),
{
    let none = Seq::<MergeStepView>::empty();
    let one = none.push(append);
    let finish = MergeStepView::Finish {
        file_id: appended.output.data.file_id,
        hint: crate::format::hint::hint_file_bytes(appended.output.hints),
    };
    let create = MergeStepView::Create { file_id: next_file_id };
    let repoint = MergeStepView::Repoint(appended.pending);
    assert(super::compaction::run_steps(world, none) == world);
    lemma_exact_push(inputs, world, none, append);
    lemma_rotate_output_exact(
        inputs,
        super::compaction::run_step(world, append),
        appended,
        next_file_id,
    );
    lemma_exact_push(inputs, world, one, finish);
    lemma_exact_push(inputs, world, one.push(finish), create);
    lemma_exact_push(inputs, world, one.push(finish).push(create), repoint);
    assert(seq![append, finish, create, repoint] =~= one.push(finish).push(create).push(repoint));
}

/// What copying a live entry adds to the steps, and leaves the merge with.
pub proof fn lemma_live_shape(c: Copying, file_id: u32, pos: nat, entry: EntryView)
    requires
        super::fills_output(c.merge.output, entry) ==> c.next_file_id < u32::MAX,
    ensures
        ({
            let bytes = crate::format::entry::entry_bytes(
                entry.key,
                entry.value,
                false,
                entry.header.timestamp,
            );
            let output_id = c.merge.output.data.file_id;
            let appended = super::compaction::appended_merge(c.merge, file_id, pos, entry);
            let after = super::copy_live(c, file_id, pos, entry);
            let steps = super::compaction::live_steps(
                c.merge,
                c.next_file_id,
                file_id,
                pos,
                entry,
            );
            let append = MergeStepView::Append { file_id: output_id, bytes };
            let hint = crate::format::hint::hint_file_bytes(appended.output.hints);
            let finish = MergeStepView::Finish { file_id: output_id, hint };
            let create = MergeStepView::Create { file_id: c.next_file_id };
            let flush = MergeStepView::Flush { file_id: output_id };
            let repoint = MergeStepView::Repoint(appended.pending);
            &&& after.steps == c.steps + steps
            &&& if super::fills_output(c.merge.output, entry) {
                &&& steps == seq![append, finish, create, repoint]
                &&& after.merge.output == super::output_writer::fresh_output(
                    c.next_file_id,
                    c.merge.output.max_file_size,
                    c.merge.output.existing,
                )
                &&& after.merge.pending.len() == 0
                &&& after.next_file_id == c.next_file_id + 1
            } else if c.merge.output.unflushed + 1
                >= super::output_writer::MERGE_FLUSH_BATCH_SIZE {
                &&& steps == seq![append, flush, repoint]
                &&& after.merge.output.data == appended.output.data
                &&& after.merge.pending.len() == 0
                &&& after.next_file_id == c.next_file_id
            } else {
                &&& steps == seq![append]
                &&& after.merge.output.data == appended.output.data
                &&& after.merge.pending == appended.pending
                &&& after.next_file_id == c.next_file_id
            }
        }),
{
    let appended = super::compaction::appended_merge(c.merge, file_id, pos, entry);
    let after = super::copy_live(c, file_id, pos, entry);
    let steps = super::compaction::live_steps(c.merge, c.next_file_id, file_id, pos, entry);
    let bytes = crate::format::entry::entry_bytes(
        entry.key,
        entry.value,
        false,
        entry.header.timestamp,
    );
    let output_id = c.merge.output.data.file_id;
    let append = MergeStepView::Append { file_id: output_id, bytes };
    let hint = crate::format::hint::hint_file_bytes(appended.output.hints);
    let finish = MergeStepView::Finish { file_id: output_id, hint };
    let create = MergeStepView::Create { file_id: c.next_file_id };
    let flush = MergeStepView::Flush { file_id: output_id };
    let repoint = MergeStepView::Repoint(appended.pending);
    if appended.output.data.offset >= c.merge.output.max_file_size {
        assert(steps =~= seq![append, finish, create, repoint]);
    } else if c.merge.output.unflushed + 1 >= super::output_writer::MERGE_FLUSH_BATCH_SIZE {
        assert(steps =~= seq![append, flush, repoint]);
    } else {
        assert(steps =~= seq![append]);
    }
    assert(after.steps =~= c.steps + steps);
}

/// Copying a live entry repoints keys to exact copies only.
pub proof fn lemma_copy_live_exact(
    inputs: Seq<DiskFile>,
    world: World,
    c: Copying,
    at: int,
    j: int,
)
    requires
        waits_for_flush(inputs, world, c.merge),
        world.disk.last().file_id < c.next_file_id,
        super::fills_output(
            c.merge.output,
            crate::scan::scan_entries(inputs[at].data, 0)[j].1,
        ) ==> c.next_file_id < u32::MAX,
        0 <= at < inputs.len(),
        inputs[at].data.len() <= u64::MAX,
        0 <= j < crate::scan::scan_entries(inputs[at].data, 0).len(),
        c.merge.output.data.offset + crate::scan::entry_len(
            crate::scan::scan_entries(inputs[at].data, 0)[j].1,
        ) <= u64::MAX,
    ensures
        ({
            let file_id = inputs[at].file_id;
            let (pos, entry) = crate::scan::scan_entries(inputs[at].data, 0)[j];
            let after = super::copy_live(c, file_id, pos, entry);
            let steps = super::compaction::live_steps(
                c.merge,
                c.next_file_id,
                file_id,
                pos,
                entry,
            );
            let end = super::compaction::run_steps(world, steps);
            &&& after.steps == c.steps + steps
            &&& repoints_are_exact(inputs, world, steps)
            &&& waits_for_flush(inputs, end, after.merge)
            &&& end.disk.last().file_id < after.next_file_id
            &&& after.next_file_id == c.next_file_id + if super::fills_output(
                c.merge.output,
                entry,
            ) {
                1int
            } else {
                0
            }
            &&& after.merge.output.data.offset <= c.merge.output.data.offset
                + crate::scan::entry_len(entry)
        }),
{
    let file_id = inputs[at].file_id;
    let (pos, entry) = crate::scan::scan_entries(inputs[at].data, 0)[j];
    let bytes = crate::format::entry::entry_bytes(
        entry.key,
        entry.value,
        false,
        entry.header.timestamp,
    );
    let append = MergeStepView::Append { file_id: c.merge.output.data.file_id, bytes };
    let appended = super::compaction::appended_merge(c.merge, file_id, pos, entry);
    lemma_append_exact(inputs, world, c.merge, at, j);
    lemma_live_shape(c, file_id, pos, entry);
    if appended.output.data.offset >= c.merge.output.max_file_size {
        lemma_copy_rotated_exact(inputs, world, append, appended, c.next_file_id);
    } else if c.merge.output.unflushed + 1 >= super::output_writer::MERGE_FLUSH_BATCH_SIZE {
        lemma_copy_flushed_exact(inputs, world, append, appended);
    } else {
        let none = Seq::<MergeStepView>::empty();
        assert(super::compaction::run_steps(world, none) == world);
        lemma_exact_push(inputs, world, none, append);
        assert(seq![append] =~= none.push(append));
    }
}

/// One more file does not make copies less exact.
proof fn lemma_batch_in_more_files(
    inputs: Seq<DiskFile>,
    disk: Seq<DiskFile>,
    file: DiskFile,
    items: Seq<Repoint>,
)
    requires
        batch_is_exact(inputs, disk, items),
    ensures
        batch_is_exact(inputs, disk.push(file), items),
{
    let more = disk.push(file);
    assert forall|k: int| 0 <= k < items.len() implies is_exact_in(
        inputs,
        more,
        #[trigger] items[k],
    ) by {
        let i = choose|i: int|
            0 <= i < disk.len() && is_exact(inputs, #[trigger] disk[i], items[k]);
        assert(more[i] == disk[i]);
        assert(is_exact(inputs, more[i], items[k]));
    }
}

} // verus!
