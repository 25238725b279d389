//! The files that a merge writes.
use vstd::prelude::*;

use super::pending_queue::Repoint;
use crate::datafile::{ActiveFile, ActiveView, FileIdCounter};
use crate::format::entry::EntryView;
use crate::format::{encode_entry, encode_hint, finish_hint_file, push_bytes, Entry, MAX_KEY_LEN};
use crate::keydir::KeydirEntry;

verus! {

/// How many entries are written before a flush, unless a file becomes full earlier.
pub const MERGE_FLUSH_BATCH_SIZE: usize = 256;

/// What a merge asks for, to be carried out in order.
#[derive(Debug)]
pub enum MergeStep {
    /// Create an output file.
    Create { file_id: u32 },
    /// Append to an output file. The bytes may stay in a buffer.
    Append { file_id: u32, bytes: Vec<u8> },
    /// Make all that was appended to an output file visible to readers.
    Flush { file_id: u32 },
    /// Make an output file durable, and write its hint file.
    Finish { file_id: u32, hint: Vec<u8> },
    /// Repoint keys whose copies are visible to readers now.
    Repoint(Vec<(Vec<u8>, KeydirEntry, KeydirEntry)>),
    /// Remove an input file and its hint file.
    Remove { file_id: u32 },
}

/// What a [`MergeStep`] says.
#[verifier::ext_equal]
pub enum MergeStepView {
    Create { file_id: u32 },
    Append { file_id: u32, bytes: Seq<u8> },
    Flush { file_id: u32 },
    Finish { file_id: u32, hint: Seq<u8> },
    Repoint(Seq<Repoint>),
    Remove { file_id: u32 },
}

impl View for MergeStep {
    type V = MergeStepView;

    open spec fn view(&self) -> MergeStepView {
        match *self {
            MergeStep::Create { file_id } => MergeStepView::Create { file_id },
            MergeStep::Append { file_id, bytes } => MergeStepView::Append { file_id, bytes: bytes@ },
            MergeStep::Flush { file_id } => MergeStepView::Flush { file_id },
            MergeStep::Finish { file_id, hint } => MergeStepView::Finish { file_id, hint: hint@ },
            MergeStep::Repoint(items) => MergeStepView::Repoint(
                super::pending_queue::repoints_view(items@),
            ),
            MergeStep::Remove { file_id } => MergeStepView::Remove { file_id },
        }
    }
}

/// What a run of steps says.
pub open spec fn steps_view(steps: Seq<MergeStep>) -> Seq<MergeStepView> {
    steps.map_values(|s: MergeStep| s@)
}

/// Adds one step.
pub(crate) fn push_step(steps: &mut Vec<MergeStep>, step: MergeStep)
    ensures
        steps_view(final(steps)@) == steps_view(old(steps)@).push(step@),
{
    steps.push(step);
    assert(steps_view(steps@) =~= steps_view(old(steps)@).push(step@));
}

/// State of the output: the file that is written now, the records of its hint file so far, how
/// many entries were written since the last flush, and the size at which a file is full.
#[verifier::ext_equal]
pub struct OutputView {
    pub data: ActiveView,
    pub hints: Seq<u8>,
    pub unflushed: nat,
    pub max_file_size: u64,
    /// Data files that were there when the merge began, with their lengths.
    pub existing: Seq<(u32, u64)>,
}

/// The length of a data file: that of the file that was there, or else none.
pub open spec fn existing_len(existing: Seq<(u32, u64)>, file_id: u32) -> u64
    decreases existing.len(),
{
    if existing.len() == 0 {
        0
    } else if existing.last().0 == file_id {
        existing.last().1
    } else {
        existing_len(existing.drop_last(), file_id)
    }
}

/// The length of a data file: that of the file that was there, or else none.
fn find_existing_len(existing: &[(u32, u64)], file_id: u32) -> (len: u64)
    ensures
        len == existing_len(existing@, file_id),
{
    let mut at: usize = existing.len();
    assert(existing@.take(at as int) =~= existing@);
    while at > 0
        invariant
            at <= existing@.len(),
            existing_len(existing@, file_id) == existing_len(existing@.take(at as int), file_id),
        decreases at,
    {
        let ghost part = existing@.take(at as int);
        at -= 1;
        assert(part.drop_last() =~= existing@.take(at as int));
        if existing[at].0 == file_id {
            return existing[at].1;
        }
    }
    assert(existing@.take(0).len() == 0);
    0
}

/// Whether a file is newer than all data files that were there.
#[verifier::opaque]
pub open spec fn is_new(existing: Seq<(u32, u64)>, file_id: u32) -> bool {
    forall|i: int| 0 <= i < existing.len() ==> (#[trigger] existing[i]).0 < file_id
}

/// A file that is newer than all data files that were there has nothing in it.
pub proof fn lemma_new_file_is_empty(existing: Seq<(u32, u64)>, file_id: u32)
    requires
        is_new(existing, file_id),
    ensures
        existing_len(existing, file_id) == 0,
    decreases existing.len(),
{
    reveal(is_new);
    if existing.len() > 0 {
        let rest = existing.drop_last();
        assert(existing[existing.len() - 1] == existing.last());
        assert forall|i: int| 0 <= i < rest.len() implies (#[trigger] rest[i]).0 < file_id by {
            assert(rest[i] == existing[i]);
        }
        lemma_new_file_is_empty(rest, file_id);
    }
}

/// A file after one that is newer than all data files that were there is so too.
pub proof fn lemma_next_file_is_new(existing: Seq<(u32, u64)>, file_id: u32, next_id: u32)
    requires
        is_new(existing, file_id),
        file_id <= next_id,
    ensures
        is_new(existing, next_id),
{
    reveal(is_new);
}

/// Whether every data file that was there has room for `more` bytes.
pub open spec fn existing_have_room(existing: Seq<(u32, u64)>, more: nat) -> bool {
    forall|i: int| 0 <= i < existing.len() ==> (#[trigger] existing[i]).1 + more <= u64::MAX
}

/// A length is that of one of the files that were there, or none.
pub proof fn lemma_existing_len(existing: Seq<(u32, u64)>, file_id: u32, more: nat)
    requires
        existing_have_room(existing, more),
        more <= u64::MAX,
    ensures
        existing_len(existing, file_id) + more <= u64::MAX,
    decreases existing.len(),
{
    if existing.len() > 0 {
        let rest = existing.drop_last();
        assert(existing[existing.len() - 1] == existing.last());
        assert forall|i: int| 0 <= i < rest.len() implies (#[trigger] rest[i]).1 + more
            <= u64::MAX by {
            assert(rest[i] == existing[i]);
        }
        lemma_existing_len(rest, file_id, more);
    }
}

/// What writing one entry leads to.
#[verifier::ext_equal]
pub struct Written {
    pub output: OutputView,
    pub next_file_id: u32,
    pub steps: Seq<MergeStepView>,
    /// Where the entry's value is now.
    pub file_id: u32,
    pub value_pos: u64,
    /// Whether all that was written is visible to readers now.
    pub flushed: bool,
}

/// An output file that was just opened. It is new, or else it is appended to.
pub open spec fn fresh_output(
    file_id: u32,
    max_file_size: u64,
    existing: Seq<(u32, u64)>,
) -> OutputView {
    OutputView {
        data: ActiveView { file_id, offset: existing_len(existing, file_id) },
        hints: Seq::empty(),
        unflushed: 0,
        max_file_size,
        existing,
    }
}

/// Writing a live entry: it is appended, and its hint record noted. A file that is full then is
/// finished and the next one started; else, after a batch of entries, the file is flushed.
pub open spec fn write_entry(output: OutputView, next_file_id: u32, entry: EntryView) -> Written {
    let file_id = output.data.file_id;
    let bytes = crate::format::entry::entry_bytes(
        entry.key,
        entry.value,
        false,
        entry.header.timestamp,
    );
    let offset = (output.data.offset + bytes.len()) as u64;
    let value_pos = (offset - entry.value.len()) as u64;
    let hints = output.hints + crate::format::hint::hint_bytes(entry.key, entry.header, value_pos);
    let appended = seq![MergeStepView::Append { file_id, bytes }];
    let current = OutputView {
        data: ActiveView { file_id, offset },
        hints,
        unflushed: output.unflushed + 1,
        ..output
    };
    if offset >= output.max_file_size {
        Written {
            output: fresh_output(next_file_id, output.max_file_size, output.existing),
            next_file_id: crate::datafile::id_after(next_file_id),
            steps: appended + seq![
                MergeStepView::Finish { file_id, hint: crate::format::hint::hint_file_bytes(hints) },
                MergeStepView::Create { file_id: next_file_id },
            ],
            file_id,
            value_pos,
            flushed: true,
        }
    } else if output.unflushed + 1 >= MERGE_FLUSH_BATCH_SIZE {
        Written {
            output: OutputView { unflushed: 0, ..current },
            next_file_id,
            steps: appended + seq![MergeStepView::Flush { file_id }],
            file_id,
            value_pos,
            flushed: true,
        }
    } else {
        Written { output: current, next_file_id, steps: appended, file_id, value_pos, flushed: false }
    }
}

/// Writes the output of a merge: data files, each with its hint file.
#[derive(Debug)]
pub struct MergeOutputWriter {
    max_file_size: u64,
    existing: Vec<(u32, u64)>,
    current_data: ActiveFile,
    current_hint: Vec<u8>,
    /// Entries written since the last flush.
    pending_since_flush: usize,
}

impl View for MergeOutputWriter {
    type V = OutputView;

    closed spec fn view(&self) -> OutputView {
        OutputView {
            data: self.current_data@,
            hints: self.current_hint@,
            unflushed: self.pending_since_flush as nat,
            max_file_size: self.max_file_size,
            existing: self.existing@,
        }
    }
}

impl MergeOutputWriter {
    /// A writer never holds a whole batch back.
    #[verifier::type_invariant]
    spec fn batch_is_open(&self) -> bool {
        self.pending_since_flush < MERGE_FLUSH_BATCH_SIZE
    }

    /// Starts an output file. `existing` has the data files that are there already, with their
    /// lengths: if the new id is that of one of them, it is appended to.
    pub fn new(
        ids: &mut FileIdCounter,
        max_file_size: u64,
        existing: Vec<(u32, u64)>,
        steps: &mut Vec<MergeStep>,
    ) -> (writer: MergeOutputWriter)
        ensures
            writer@ == fresh_output(old(ids)@, max_file_size, existing@),
            final(ids)@ == crate::datafile::id_after(old(ids)@),
            steps_view(final(steps)@) == steps_view(old(steps)@).push(
                MergeStepView::Create { file_id: old(ids)@ },
            ),
    {
        let file_id = ids.claim();
        push_step(steps, MergeStep::Create { file_id });
        let offset = find_existing_len(existing.as_slice(), file_id);
        let writer = MergeOutputWriter {
            max_file_size,
            existing,
            current_data: ActiveFile::create(file_id, offset),
            current_hint: Vec::new(),
            pending_since_flush: 0,
        };
        assert(writer@ =~= fresh_output(old(ids)@, max_file_size, existing@));
        writer
    }

    /// Id of the file that is written now.
    pub fn current_file_id(&self) -> (file_id: u32)
        ensures
            file_id == self@.data.file_id,
    {
        self.current_data.file_id()
    }

    /// Writes one live entry and its hint record. Gives the file and the place of the value, and
    /// whether all that was written is visible to readers once the steps are carried out.
    pub fn write_live_entry(
        self,
        entry: &Entry,
        ids: &mut FileIdCounter,
        steps: &mut Vec<MergeStep>,
    ) -> (written: (MergeOutputWriter, u32, u64, bool))
        requires
            entry.key@.len() <= MAX_KEY_LEN,
            entry.header.key_size <= MAX_KEY_LEN,
            self@.data.offset + crate::format::entry::entry_bytes(
                entry.key@,
                entry.value@,
                false,
                entry.header.timestamp,
            ).len() <= u64::MAX,
        ensures
            ({
                let w = write_entry(self@, old(ids)@, entry@);
                &&& written.0@ == w.output
                &&& written.1 == w.file_id
                &&& written.2 == w.value_pos
                &&& written.3 == w.flushed
                &&& final(ids)@ == w.next_file_id
                &&& steps_view(final(steps)@) == steps_view(old(steps)@) + w.steps
            }),
    {
        proof {
            use_type_invariant(&self);
        }
        let ghost w = write_entry(self@, ids@, entry@);
        let MergeOutputWriter {
            max_file_size,
            existing,
            current_data,
            current_hint,
            pending_since_flush,
        } = self;
        let mut data = current_data;
        let mut hints = current_hint;
        let encoded = encode_entry(
            entry.key.as_slice(),
            entry.value.as_slice(),
            false,
            entry.header.timestamp,
        );
        let (file_id, value_pos, _total_len) = data.append(&encoded);
        push_step(steps, MergeStep::Append { file_id, bytes: encoded.into_bytes() });
        let hint = encode_hint(entry.key.as_slice(), &entry.header, value_pos);
        push_bytes(&mut hints, hint.as_bytes());
        if data.len() >= max_file_size {
            push_step(steps, MergeStep::Finish { file_id, hint: finish_hint_file(hints) });
            let writer = MergeOutputWriter::new(ids, max_file_size, existing, steps);
            assert(steps_view(steps@) =~= steps_view(old(steps)@) + w.steps);
            (writer, file_id, value_pos, true)
        } else if pending_since_flush + 1 >= MERGE_FLUSH_BATCH_SIZE {
            push_step(steps, MergeStep::Flush { file_id });
            let writer = MergeOutputWriter {
                max_file_size,
                existing,
                current_data: data,
                current_hint: hints,
                pending_since_flush: 0,
            };
            assert(writer@ =~= w.output);
            assert(steps_view(steps@) =~= steps_view(old(steps)@) + w.steps);
            (writer, file_id, value_pos, true)
        } else {
            let writer = MergeOutputWriter {
                max_file_size,
                existing,
                current_data: data,
                current_hint: hints,
                pending_since_flush: pending_since_flush + 1,
            };
            assert(writer@ =~= w.output);
            assert(steps_view(steps@) =~= steps_view(old(steps)@) + w.steps);
            (writer, file_id, value_pos, false)
        }
    }

    /// Finishes the last output file.
    pub fn finish(self, steps: &mut Vec<MergeStep>)
        ensures
            steps_view(final(steps)@) == steps_view(old(steps)@).push(
                MergeStepView::Finish {
                    file_id: self@.data.file_id,
                    hint: crate::format::hint::hint_file_bytes(self@.hints),
                },
            ),
    {
        let file_id = self.current_data.file_id();
        push_step(steps, MergeStep::Finish { file_id, hint: finish_hint_file(self.current_hint) });
    }
}

} // verus!
