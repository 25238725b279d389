//! Merge (compaction): copies the live entries of all files but the active one into fresh files,
//! each with a hint file, and then removes the old ones. Dead entries, which are superseded
//! values and tombstones, are left behind.
//!
//! A merge does no I/O of its own. It gives out steps, to be carried out in order. Writes to
//! the datastore may go on meanwhile: a key is repointed to its copy only if its entry is still
//! the one that was copied, so a newer write is never lost. Copies are flushed in batches, and a
//! key is repointed only after its copy was flushed.
//!
//! Output files draw their ids from the same counter as the active file. So that the active file
//! has the highest id of all again, as recovery needs it, the merge ends with a rotation of the
//! active file, unless it was rotated past the last output file already.
use vstd::prelude::*;

pub mod compaction;
pub mod concurrency;
pub mod crash;
pub mod exact_copies;
pub mod outcome;
pub mod output_writer;
pub mod pending_queue;

use crate::datafile::FileIdCounter;
use crate::format::entry::EntryView;
use crate::format::{read_entry, ByteReader, Entry, EntryRead, HEADER_SIZE};
use crate::keydir::{KeydirEntry, KeydirView, SharedKeydir};
use crate::scan::ScanIssue;
use output_writer::{push_step, MergeOutputWriter, MergeStep, MergeStepView, OutputView};
use pending_queue::{PendingQueue, Repoint};

verus! {

/// The ids below that of the active file.
pub open spec fn input_ids(file_ids: Seq<u32>, active_id: u32) -> Seq<u32>
    decreases file_ids.len(),
{
    if file_ids.len() == 0 {
        Seq::empty()
    } else {
        let rest = input_ids(file_ids.drop_last(), active_id);
        if file_ids.last() < active_id {
            rest.push(file_ids.last())
        } else {
            rest
        }
    }
}

/// What the entries read from a data file hold.
pub open spec fn entries_view(entries: Seq<(u64, Entry)>) -> Seq<(nat, EntryView)> {
    entries.map_values(|e: (u64, Entry)| (e.0 as nat, e.1@))
}

/// Reads all good entries of a closed data file, tombstones too, each with its offset. Of a
/// closed file even a cut-off end is reported.
pub fn read_all_entries(bytes: &[u8]) -> (read: (Vec<(u64, Entry)>, Vec<ScanIssue>))
    ensures
        entries_view(read.0@) == crate::scan::scan_entries(bytes@, 0),
        read.1@ == crate::scan::scan_issues(bytes@, 0, false),
{
    let mut r = ByteReader::new(bytes);
    let mut pos: u64 = 0;
    let mut entries: Vec<(u64, Entry)> = Vec::new();
    let mut issues: Vec<ScanIssue> = Vec::new();
    let len: usize = bytes.len();
    let ghost all = crate::scan::scan_entries(bytes@, 0);
    let ghost all_issues = crate::scan::scan_issues(bytes@, 0, false);
    assert(entries_view(entries@) + all =~= all);
    assert(issues@ + all_issues =~= all_issues);
    loop
        invariant
            pos + r.rest().len() == len,
            bytes@.len() == len,
            all == crate::scan::scan_entries(bytes@, 0),
            all_issues == crate::scan::scan_issues(bytes@, 0, false),
            entries_view(entries@) + crate::scan::scan_entries(r.rest(), pos as nat) == all,
            issues@ + crate::scan::scan_issues(r.rest(), pos as nat, false) == all_issues,
        decreases r.rest().len(),
    {
        match read_entry(&mut r) {
            None => {
                assert(entries_view(entries@) =~= all);
                assert(issues@ =~= all_issues);
                return (entries, issues);
            },
            Some(EntryRead::Truncated) => {
                issues.push(ScanIssue::Truncated { offset: pos });
                assert(entries_view(entries@) =~= all);
                assert(issues@ =~= all_issues);
                return (entries, issues);
            },
            Some(EntryRead::Complete(entry, total_len)) => {
                let ghost before = entries_view(entries@);
                let ghost found = (pos as nat, entry@);
                entries.push((pos, entry));
                proof {
                    let tail = crate::scan::scan_entries(r.rest(), (pos + total_len) as nat);
                    assert(entries_view(entries@) =~= before.push(found));
                    assert(before.push(found) + tail =~= before + (seq![found] + tail));
                }
                pos = pos + total_len;
            },
            Some(EntryRead::CrcMismatch { total_len }) => {
                let ghost before = issues@;
                let ghost issue = ScanIssue::Corrupt { offset: pos };
                issues.push(ScanIssue::Corrupt { offset: pos });
                proof {
                    let tail = crate::scan::scan_issues(r.rest(), (pos + total_len) as nat, false);
                    assert(before.push(issue) + tail =~= before + (seq![issue] + tail));
                }
                pos = pos + total_len;
            },
        }
    }
}

/// Whether an entry at offset `pos` of a file is the one that the index points to.
pub open spec fn is_live(keydir: KeydirView, file_id: u32, pos: nat, entry: EntryView) -> bool {
    &&& !entry.header.tombstone
    &&& keydir.contains_key(entry.key)
    &&& keydir[entry.key].file_id == file_id
    &&& keydir[entry.key].value_pos == crate::recovery::value_pos_of(pos, entry.header)
}

/// State of a merge.
#[verifier::ext_equal]
pub struct MergeView {
    /// The files that are merged, in ascending order.
    pub inputs: Seq<u32>,
    /// How many of them were copied.
    pub copied: nat,
    pub output: OutputView,
    /// Keys that were copied and wait to be repointed.
    pub pending: Seq<Repoint>,
    /// The highest id of an output file so far.
    pub highest_output_id: u32,
}

/// State of a merge while it copies, with the next free file id and the steps so far.
#[verifier::ext_equal]
pub struct Copying {
    pub merge: MergeView,
    pub next_file_id: u32,
    pub steps: Seq<MergeStepView>,
}

/// The old and the new entry of a copied key.
pub open spec fn repoint_of(
    file_id: u32,
    pos: nat,
    entry: EntryView,
    new_file_id: u32,
    new_value_pos: u64,
) -> Repoint {
    Repoint {
        key: entry.key,
        old: KeydirEntry {
            file_id,
            value_size: entry.header.value_size,
            value_pos: crate::recovery::value_pos_of(pos, entry.header),
            timestamp: entry.header.timestamp,
        },
        new: KeydirEntry {
            file_id: new_file_id,
            value_size: entry.header.value_size,
            value_pos: new_value_pos,
            timestamp: entry.header.timestamp,
        },
    }
}

/// Copying one live entry: it is written, and its key waits to be repointed. Once what was
/// written is visible to readers, all keys that wait are repointed.
pub open spec fn copy_live(c: Copying, file_id: u32, pos: nat, entry: EntryView) -> Copying {
    let w = output_writer::write_entry(c.merge.output, c.next_file_id, entry);
    let pending = c.merge.pending.push(repoint_of(file_id, pos, entry, w.file_id, w.value_pos));
    let current = w.output.data.file_id;
    let highest_output_id = if current > c.merge.highest_output_id {
        current
    } else {
        c.merge.highest_output_id
    };
    Copying {
        merge: MergeView {
            inputs: c.merge.inputs,
            copied: c.merge.copied,
            output: w.output,
            pending: if w.flushed {
                Seq::empty()
            } else {
                pending
            },
            highest_output_id,
        },
        next_file_id: w.next_file_id,
        steps: if w.flushed {
            c.steps + w.steps.push(MergeStepView::Repoint(pending))
        } else {
            c.steps + w.steps
        },
    }
}

/// Copying the live ones among the entries of a file, first to last.
pub open spec fn copy_entries(
    c: Copying,
    keydir: KeydirView,
    file_id: u32,
    entries: Seq<(nat, EntryView)>,
) -> Copying
    decreases entries.len(),
{
    if entries.len() == 0 {
        c
    } else {
        let before = copy_entries(c, keydir, file_id, entries.drop_last());
        let (pos, entry) = entries.last();
        if is_live(keydir, file_id, pos, entry) {
            copy_live(before, file_id, pos, entry)
        } else {
            before
        }
    }
}

/// The state of a merge once all of an input file was copied.
pub open spec fn file_copied(merge: MergeView) -> MergeView {
    MergeView { copied: merge.copied + 1, ..merge }
}

/// Whether the output file is full once an entry is copied into it.
pub open spec fn fills_output(output: OutputView, entry: EntryView) -> bool {
    (output.data.offset + crate::format::entry::entry_bytes(
        entry.key,
        entry.value,
        false,
        entry.header.timestamp,
    ).len()) as u64 >= output.max_file_size
}

/// How many output files become full, and are followed by a new one each, while the live ones
/// among the entries of a file are copied.
pub open spec fn rotations(
    c: Copying,
    keydir: KeydirView,
    file_id: u32,
    entries: Seq<(nat, EntryView)>,
) -> nat
    decreases entries.len(),
{
    if entries.len() == 0 {
        0
    } else {
        let before = copy_entries(c, keydir, file_id, entries.drop_last());
        let (pos, entry) = entries.last();
        rotations(c, keydir, file_id, entries.drop_last()) + if is_live(keydir, file_id, pos, entry)
            && fills_output(before.merge.output, entry) {
            1nat
        } else {
            0
        }
    }
}

/// The first entries of a file fill no more output files than all of them.
pub proof fn lemma_rotations_grow(
    c: Copying,
    keydir: KeydirView,
    file_id: u32,
    entries: Seq<(nat, EntryView)>,
    j: int,
)
    requires
        0 <= j <= entries.len(),
    ensures
        rotations(c, keydir, file_id, entries.take(j)) <= rotations(c, keydir, file_id, entries),
    decreases entries.len(),
{
    if j == entries.len() {
        assert(entries.take(j) =~= entries);
    } else {
        assert(entries.take(j) =~= entries.drop_last().take(j));
        lemma_rotations_grow(c, keydir, file_id, entries.drop_last(), j);
    }
}

/// A merge under way.
#[derive(Debug)]
pub struct Merge {
    inputs: Vec<u32>,
    copied: usize,
    output: MergeOutputWriter,
    pending: PendingQueue,
    highest_output_id: u32,
}

impl View for Merge {
    type V = MergeView;

    closed spec fn view(&self) -> MergeView {
        MergeView {
            inputs: self.inputs@,
            copied: self.copied as nat,
            output: self.output@,
            pending: self.pending@,
            highest_output_id: self.highest_output_id,
        }
    }
}

/// The ids below that of the active file.
fn select_inputs(file_ids: &[u32], active_id: u32) -> (inputs: Vec<u32>)
    ensures
        inputs@ == input_ids(file_ids@, active_id),
{
    let mut inputs: Vec<u32> = Vec::new();
    let mut i: usize = 0;
    while i < file_ids.len()
        invariant
            i <= file_ids@.len(),
            inputs@ == input_ids(file_ids@.take(i as int), active_id),
        decreases file_ids@.len() - i,
    {
        assert(file_ids@.take(i + 1).drop_last() =~= file_ids@.take(i as int));
        if file_ids[i] < active_id {
            inputs.push(file_ids[i]);
        }
        i += 1;
    }
    assert(file_ids@.take(i as int) =~= file_ids@);
    inputs
}

/// What copying one input file told.
#[derive(Debug)]
pub struct CopyReport {
    /// How many live entries were copied.
    pub live_entries: usize,
    /// What was found wrong in the file.
    pub issues: Vec<ScanIssue>,
}

/// How many of the entries the index points to.
pub open spec fn count_live(
    keydir: KeydirView,
    file_id: u32,
    entries: Seq<(nat, EntryView)>,
) -> nat
    decreases entries.len(),
{
    if entries.len() == 0 {
        0
    } else {
        count_live(keydir, file_id, entries.drop_last()) + if is_live(
            keydir,
            file_id,
            entries.last().0,
            entries.last().1,
        ) {
            1nat
        } else {
            0
        }
    }
}

impl Merge {
    /// Starts a merge of all files below the active one, given the ids of all data files in
    /// ascending order. `None` means that there is nothing to merge. `existing` has the lengths
    /// of data files: an output file whose id is among them is appended to.
    pub fn begin(
        file_ids: &[u32],
        active_id: u32,
        max_file_size: u64,
        existing: Vec<(u32, u64)>,
        ids: &mut FileIdCounter,
        steps: &mut Vec<MergeStep>,
    ) -> (merge: Option<Merge>)
        ensures
            input_ids(file_ids@, active_id).len() == 0 ==> merge is None && final(ids)@ == old(
                ids,
            )@ && final(steps)@ == old(steps)@,
            input_ids(file_ids@, active_id).len() > 0 ==> merge is Some && merge->0@ == (
            MergeView {
                inputs: input_ids(file_ids@, active_id),
                copied: 0,
                output: output_writer::fresh_output(old(ids)@, max_file_size, existing@),
                pending: Seq::empty(),
                highest_output_id: old(ids)@,
            }) && final(ids)@ == crate::datafile::id_after(old(ids)@) && output_writer::steps_view(
                final(steps)@,
            ) == output_writer::steps_view(old(steps)@).push(
                MergeStepView::Create { file_id: old(ids)@ },
            ),
    {
        let inputs = select_inputs(file_ids, active_id);
        if inputs.len() == 0 {
            return None;
        }
        let output = MergeOutputWriter::new(ids, max_file_size, existing, steps);
        let highest_output_id = output.current_file_id();
        Some(Merge { inputs, copied: 0, output, pending: PendingQueue::new(), highest_output_id })
    }

    /// The files that are merged, to be copied in this order.
    pub fn inputs(&self) -> (inputs: &[u32])
        ensures
            inputs@ == self@.inputs,
    {
        self.inputs.as_slice()
    }

    /// Copies one entry of an input file, unless the index points elsewhere. Says whether it was
    /// copied.
    fn copy_entry(
        self,
        file_id: u32,
        offset: u64,
        entry: Entry,
        keydir: &SharedKeydir,
        ids: &mut FileIdCounter,
        steps: &mut Vec<MergeStep>,
    ) -> (copied: (Merge, bool))
        requires
            crate::scan::is_sound(entry@),
            offset + HEADER_SIZE + entry.header.key_size <= u64::MAX,
            self@.output.data.offset + crate::scan::entry_len(entry@) <= u64::MAX,
        ensures
            copied.1 == is_live(keydir@, file_id, offset as nat, entry@),
            ({
                let before = Copying {
                    merge: self@,
                    next_file_id: old(ids)@,
                    steps: output_writer::steps_view(old(steps)@),
                };
                let after = if copied.1 {
                    copy_live(before, file_id, offset as nat, entry@)
                } else {
                    before
                };
                &&& copied.0@ == after.merge
                &&& final(ids)@ == after.next_file_id
                &&& output_writer::steps_view(final(steps)@) == after.steps
            }),
    {
        if entry.header.tombstone {
            return (self, false);
        }
        let entry_value_pos: u64 = offset + HEADER_SIZE as u64 + entry.header.key_size as u64;
        let live = match keydir.get(entry.key.as_slice()) {
            Some(kd) => kd.file_id == file_id && kd.value_pos == entry_value_pos,
            None => false,
        };
        if !live {
            return (self, false);
        }
        proof {
            crate::format::entry::law_entry_round_trip(
                entry.key@,
                entry.value@,
                false,
                entry.header.timestamp,
                Seq::empty(),
            );
        }
        let ghost steps_before = output_writer::steps_view(steps@);
        let ghost w = output_writer::write_entry(self@.output, ids@, entry@);
        let Merge { inputs, copied, output, pending, highest_output_id } = self;
        let mut pending = pending;
        let (output, new_file_id, new_value_pos, flushed) = output.write_live_entry(
            &entry,
            ids,
            steps,
        );
        let current = output.current_file_id();
        let highest_output_id: u32 = if current > highest_output_id {
            current
        } else {
            highest_output_id
        };
        pending.queue(entry, file_id, new_file_id, entry_value_pos, new_value_pos);
        if flushed {
            let items = pending.drain();
            push_step(steps, MergeStep::Repoint(items));
            assert(output_writer::steps_view(steps@) =~= steps_before + w.steps.push(
                MergeStepView::Repoint(pending_queue::repoints_view(items@)),
            ));
        }
        (Merge { inputs, copied, output, pending, highest_output_id }, true)
    }

    /// Copies the entries of the next input file, whose bytes are given, that the index points to.
    pub fn copy_file(
        self,
        file_id: u32,
        bytes: &[u8],
        keydir: &SharedKeydir,
        ids: &mut FileIdCounter,
        steps: &mut Vec<MergeStep>,
    ) -> (copied: (Merge, CopyReport))
        requires
            self@.copied < self@.inputs.len(),
            file_id == self@.inputs[self@.copied as int],
            self@.output.data.offset + bytes@.len() <= u64::MAX,
            output_writer::existing_have_room(self@.output.existing, bytes@.len()),
        ensures
            ({
                let entries = crate::scan::scan_entries(bytes@, 0);
                let c = copy_entries(
                    Copying {
                        merge: self@,
                        next_file_id: old(ids)@,
                        steps: output_writer::steps_view(old(steps)@),
                    },
                    keydir@,
                    file_id,
                    entries,
                );
                &&& copied.0@ == file_copied(c.merge)
                &&& final(ids)@ == c.next_file_id
                &&& output_writer::steps_view(final(steps)@) == c.steps
                &&& copied.1.live_entries == count_live(keydir@, file_id, entries)
                &&& copied.1.issues@ == crate::scan::scan_issues(bytes@, 0, false)
            }),
    {
        let ghost start = Copying {
            merge: self@,
            next_file_id: ids@,
            steps: output_writer::steps_view(steps@),
        };
        let len: usize = bytes.len();
        let (read, issues) = read_all_entries(bytes);
        let count: usize = read.len();
        let ghost all = entries_view(read@);
        proof {
            crate::scan::lemma_scan_layout(bytes@, 0);
            assert forall|j: int| 0 <= j < all.len() implies is_bounded(#[trigger] all[j], len as nat) by {
                assert(crate::scan::scan_entries(bytes@, 0)[j] == all[j]);
            }
            assert forall|j: int, k: int| 0 <= j < k < all.len() implies (#[trigger] all[j]).0
                + crate::scan::entry_len(all[j].1) <= (#[trigger] all[k]).0 by {
                assert(crate::scan::scan_entries(bytes@, 0)[j] == all[j]);
                assert(crate::scan::scan_entries(bytes@, 0)[k] == all[k]);
            }
        }
        let mut merge = self;
        let mut live_entries: usize = 0;
        // How far into the input file the entries before the current one reach.
        let ghost mut reached: nat = 0;
        for item in it: read
            invariant
                it.seq() == read@,
                all == entries_view(read@),
                count == all.len(),
                bytes@.len() == len,
                live_entries <= it.index(),
                live_entries == count_live(keydir@, file_id, all.take(it.index())),
                reached <= len,
                merge@.output.data.offset + (len - reached) <= u64::MAX,
                merge@.output.existing == self@.output.existing,
                merge@.inputs == self@.inputs,
                merge@.copied == self@.copied,
                self@.copied < self@.inputs.len(),
                output_writer::existing_have_room(self@.output.existing, len as nat),
                forall|j: int| it.index() <= j < all.len() ==> reached <= (#[trigger] all[j]).0,
                forall|j: int| 0 <= j < all.len() ==> is_bounded(#[trigger] all[j], len as nat),
                forall|j: int, k: int|
                    0 <= j < k < all.len() ==> (#[trigger] all[j]).0 + crate::scan::entry_len(
                        all[j].1,
                    ) <= (#[trigger] all[k]).0,
                (Copying {
                    merge: merge@,
                    next_file_id: ids@,
                    steps: output_writer::steps_view(steps@),
                }) == copy_entries(start, keydir@, file_id, all.take(it.index())),
        {
            let ghost i = it.index();
            let (offset, entry) = item;
            proof {
                assert(all[i] == (offset as nat, entry@));
                assert(all.take(i + 1).drop_last() =~= all.take(i));
                assert(all.take(i + 1).last() == all[i]);
                reached = offset as nat + crate::scan::entry_len(entry@);
                output_writer::lemma_existing_len(self@.output.existing, ids@, len as nat);
            }
            let (next, live) = merge.copy_entry(file_id, offset, entry, keydir, ids, steps);
            merge = next;
            if live {
                live_entries += 1;
            }
        }
        assert(all.take(count as int) =~= all);
        let input_count: usize = merge.inputs.len();
        assert(merge.copied < input_count);
        let merge = Merge { copied: merge.copied + 1, ..merge };
        (merge, CopyReport { live_entries, issues })
    }
}

/// The steps that remove files.
pub open spec fn removals(file_ids: Seq<u32>) -> Seq<MergeStepView> {
    file_ids.map_values(|file_id: u32| MergeStepView::Remove { file_id })
}

/// The steps that end a merge: the last output file is finished, the keys that still wait are
/// repointed, and only then the input files are removed, oldest first.
pub open spec fn final_steps(merge: MergeView) -> Seq<MergeStepView> {
    seq![
        MergeStepView::Finish {
            file_id: merge.output.data.file_id,
            hint: crate::format::hint::hint_file_bytes(merge.output.hints),
        },
        MergeStepView::Repoint(merge.pending),
    ] + removals(merge.inputs)
}

impl Merge {
    /// Ends the merge, once all input files were copied. Gives the highest id of an output file.
    pub fn finish(self, steps: &mut Vec<MergeStep>) -> (highest_output_id: u32)
        requires
            self@.copied == self@.inputs.len(),
        ensures
            highest_output_id == self@.highest_output_id,
            output_writer::steps_view(final(steps)@) == output_writer::steps_view(old(steps)@)
                + final_steps(self@),
    {
        let ghost m = self@;
        let ghost before = output_writer::steps_view(steps@);
        let Merge { inputs, output, pending, highest_output_id, .. } = self;
        let mut pending = pending;
        output.finish(steps);
        push_step(steps, MergeStep::Repoint(pending.drain()));
        let ghost ended = before + seq![
            MergeStepView::Finish {
                file_id: m.output.data.file_id,
                hint: crate::format::hint::hint_file_bytes(m.output.hints),
            },
            MergeStepView::Repoint(m.pending),
        ];
        assert(output_writer::steps_view(steps@) =~= ended + removals(inputs@.take(0)));
        let mut i: usize = 0;
        while i < inputs.len()
            invariant
                i <= inputs@.len(),
                output_writer::steps_view(steps@) == ended + removals(inputs@.take(i as int)),
            decreases inputs@.len() - i,
        {
            push_step(steps, MergeStep::Remove { file_id: inputs[i] });
            assert(output_writer::steps_view(steps@) =~= ended + removals(inputs@.take(i + 1)));
            i += 1;
        }
        proof {
            assert(inputs@.take(i as int) =~= inputs@);
            assert(ended + removals(inputs@) =~= before + final_steps(m));
        }
        highest_output_id
    }
}

/// The index after a run of repoints, first to last. Each takes effect only where the key's entry
/// still is the expected one.
pub open spec fn repoint_all(keydir: KeydirView, items: Seq<Repoint>) -> KeydirView
    decreases items.len(),
{
    if items.len() == 0 {
        keydir
    } else {
        let last = items.last();
        crate::keydir::repoint(
            repoint_all(keydir, items.drop_last()),
            last.key,
            last.old,
            last.new,
        )
    }
}

/// Repoints keys to their copies. A key that was written or deleted since it was copied keeps
/// its newer state; its copy is then dead, and goes away in the next merge.
pub fn apply_pending_repoints(
    keydir: &mut SharedKeydir,
    items: &[(Vec<u8>, KeydirEntry, KeydirEntry)],
)
    ensures
        final(keydir)@ == repoint_all(old(keydir)@, pending_queue::repoints_view(items@)),
{
    let ghost all = pending_queue::repoints_view(items@);
    let mut i: usize = 0;
    while i < items.len()
        invariant
            i <= items@.len(),
            all == pending_queue::repoints_view(items@),
            keydir@ == repoint_all(old(keydir)@, all.take(i as int)),
        decreases items@.len() - i,
    {
        let (key, expected_old, new) = &items[i];
        keydir.cas_repoint(key.as_slice(), *expected_old, *new);
        assert(all.take(i + 1).drop_last() =~= all.take(i as int));
        i += 1;
    }
    assert(all.take(i as int) =~= all);
}

/// Whether an entry read at some offset is sound and lies in a file of `len` bytes.
pub open spec fn is_bounded(found: (nat, EntryView), len: nat) -> bool {
    crate::scan::is_sound(found.1) && found.0 + crate::scan::entry_len(found.1) <= len
}

} // verus!
