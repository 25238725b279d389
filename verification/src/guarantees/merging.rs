//! Merge: what is merged, what is copied, and what is asked for.
use vstd::prelude::*;

use super::format::{has_right_crc, is_cut_entry, is_whole_entry, key_len_at};
use super::recovery::{entry_in, is_hint_file, nothing_cut};
use super::writes::next_id;
use super::{eight_bytes, four_bytes};
use crate::datafile::FileIdCounter;
use crate::format::entry::EntryView;
use crate::keydir::{KeydirEntry, KeydirView, SharedKeydir};
use crate::merge::output_writer::{MergeOutputWriter, MergeStep};
use crate::merge::pending_queue::{PendingQueue, Repoint};
use crate::merge::{CopyReport, Merge};
use crate::scan::ScanIssue;
use crate::{Engine, Error};

verus! {

/// Whether these are the keys that wait, in order, each with its old and its new entry.
pub open spec fn are_repoints(
    items: Seq<(Vec<u8>, KeydirEntry, KeydirEntry)>,
    pending: Seq<Repoint>,
) -> bool {
    &&& items.len() == pending.len()
    &&& forall|i: int|
        0 <= i < items.len() ==> (#[trigger] items[i]).0@ == pending[i].key && items[i].1
            == pending[i].old && items[i].2 == pending[i].new
}

/// Whether two steps ask for the same.
pub open spec fn same_step(a: MergeStep, b: MergeStep) -> bool {
    match (a, b) {
        (MergeStep::Create { file_id: x }, MergeStep::Create { file_id: y }) => x == y,
        (
            MergeStep::Append { file_id: x, bytes: p },
            MergeStep::Append { file_id: y, bytes: q },
        ) => x == y && p@ == q@,
        (MergeStep::Flush { file_id: x }, MergeStep::Flush { file_id: y }) => x == y,
        (
            MergeStep::Finish { file_id: x, hint: p },
            MergeStep::Finish { file_id: y, hint: q },
        ) => x == y && p@ == q@,
        (MergeStep::Repoint(x), MergeStep::Repoint(y)) => x@.len() == y@.len() && forall|i: int|
            0 <= i < x@.len() ==> (#[trigger] x@[i]).0@ == y@[i].0@ && x@[i].1 == y@[i].1 && x@[i].2
                == y@[i].2,
        (MergeStep::Remove { file_id: x }, MergeStep::Remove { file_id: y }) => x == y,
        _ => false,
    }
}

/// Whether steps go on from others: these come first, and are the same.
pub open spec fn goes_on_from(steps: Seq<MergeStep>, before: Seq<MergeStep>) -> bool {
    &&& before.len() <= steps.len()
    &&& forall|i: int| 0 <= i < before.len() ==> same_step(#[trigger] before[i], steps[i])
}

proof fn lemma_same_step(a: MergeStep, b: MergeStep)
    requires
        a@ == b@,
    ensures
        same_step(a, b),
{
    if let MergeStep::Repoint(x) = a {
        if let MergeStep::Repoint(y) = b {
            let p = crate::merge::pending_queue::repoints_view(x@);
            let q = crate::merge::pending_queue::repoints_view(y@);
            assert(p == q);
            assert(p.len() == x@.len() && q.len() == y@.len());
            assert forall|i: int| 0 <= i < x@.len() implies (#[trigger] x@[i]).0@ == y@[i].0@
                && x@[i].1 == y@[i].1 && x@[i].2 == y@[i].2 by {
                assert(p[i] == q[i]);
            }
        }
    }
}

proof fn lemma_goes_on(
    steps: Seq<MergeStep>,
    before: Seq<MergeStep>,
    more: Seq<crate::merge::output_writer::MergeStepView>,
)
    requires
        crate::merge::output_writer::steps_view(steps)
            == crate::merge::output_writer::steps_view(before) + more,
    ensures
        goes_on_from(steps, before),
        steps.len() == before.len() + more.len(),
        forall|i: int|
            0 <= i < more.len() ==> (#[trigger] steps[before.len() + i])@ == more[i],
{
    let all = crate::merge::output_writer::steps_view(steps);
    let old_steps = crate::merge::output_writer::steps_view(before);
    assert(all.len() == steps.len() && old_steps.len() == before.len());
    assert forall|i: int| 0 <= i < before.len() implies same_step(
        #[trigger] before[i],
        steps[i],
    ) by {
        assert(all[i] == old_steps[i]);
        lemma_same_step(before[i], steps[i]);
    }
    assert forall|i: int| 0 <= i < more.len() implies (#[trigger] steps[before.len() + i])@
        == more[i] by {
        assert(all[before.len() + i] == more[i]);
    }
}

proof fn lemma_repoint_items(
    items: Seq<(Vec<u8>, KeydirEntry, KeydirEntry)>,
    pending: Seq<Repoint>,
)
    requires
        crate::merge::pending_queue::repoints_view(items) == pending,
    ensures
        are_repoints(items, pending),
{
    let view = crate::merge::pending_queue::repoints_view(items);
    assert(view.len() == items.len());
    assert forall|i: int| 0 <= i < items.len() implies (#[trigger] items[i]).0@ == pending[i].key
        && items[i].1 == pending[i].old && items[i].2 == pending[i].new by {
        assert(view[i] == pending[i]);
    }
}

/// The length of a file that may have been there: the one that is listed for it last, or none.
pub open spec fn is_listed_len(existing: Seq<(u32, u64)>, file_id: u32, len: u64) -> bool {
    ||| len == 0 && forall|i: int| 0 <= i < existing.len() ==> (#[trigger] existing[i]).0 != file_id
    ||| exists|i: int|
        0 <= i < existing.len() && #[trigger] existing[i] == (file_id, len) && forall|j: int|
            i < j < existing.len() ==> (#[trigger] existing[j]).0 != file_id
}

proof fn lemma_listed_len(existing: Seq<(u32, u64)>, file_id: u32)
    ensures
        is_listed_len(
            existing,
            file_id,
            crate::merge::output_writer::existing_len(existing, file_id),
        ),
    decreases existing.len(),
{
    if existing.len() > 0 {
        let last = existing.len() - 1;
        let rest = existing.drop_last();
        assert(existing[last] == existing.last());
        if existing.last().0 != file_id {
            lemma_listed_len(rest, file_id);
            let len = crate::merge::output_writer::existing_len(rest, file_id);
            if exists|i: int|
                0 <= i < rest.len() && #[trigger] rest[i] == (file_id, len) && forall|j: int|
                    i < j < rest.len() ==> (#[trigger] rest[j]).0 != file_id {
                let i = choose|i: int|
                    0 <= i < rest.len() && #[trigger] rest[i] == (file_id, len) && forall|j: int|
                        i < j < rest.len() ==> (#[trigger] rest[j]).0 != file_id;
                assert(existing[i] == (file_id, len));
                assert forall|j: int| i < j < existing.len() implies (#[trigger] existing[j]).0
                    != file_id by {
                    if j < last {
                        assert(rest[j] == existing[j]);
                    }
                }
            } else {
                assert forall|i: int| 0 <= i < existing.len() implies (#[trigger] existing[i]).0
                    != file_id by {
                    if i < last {
                        assert(rest[i] == existing[i]);
                    }
                }
            }
        }
    }
}

proof fn lemma_inputs_are_filtered(file_ids: Seq<u32>, active_id: u32)
    ensures
        crate::merge::input_ids(file_ids, active_id) == file_ids.filter(|id: u32| id < active_id),
    decreases file_ids.len(),
{
    reveal(Seq::filter);
    if file_ids.len() > 0 {
        lemma_inputs_are_filtered(file_ids.drop_last(), active_id);
    }
}

/// Whether a merge has just begun: nothing was copied, and the first output file is asked for.
pub open spec fn has_begun(
    merge: Merge,
    inputs: Seq<u32>,
    first_id: u32,
    max_file_size: u64,
    existing: Seq<(u32, u64)>,
) -> bool {
    let m = merge@;
    &&& m.inputs == inputs
    &&& m.copied == 0
    &&& m.pending.len() == 0
    &&& m.highest_output_id == first_id
    &&& m.output.data.file_id == first_id
    &&& is_listed_len(existing, first_id, m.output.data.offset)
    &&& m.output.hints.len() == 0
    &&& m.output.unflushed == 0
    &&& m.output.max_file_size == max_file_size
    &&& m.output.existing == existing
}

/// A merge is begun of all files below the active one, in their order, and of no others. If there
/// is none, nothing is begun and nothing asked for.
pub proof fn law_a_merge_takes_all_files_below_the_active_one(
    file_ids: &[u32],
    active_id: u32,
    max_file_size: u64,
    existing: Vec<(u32, u64)>,
    ids: &mut FileIdCounter,
    steps: &mut Vec<MergeStep>,
    merge: Option<Merge>,
)
    requires
        call_ensures(
            Merge::begin,
            (file_ids, active_id, max_file_size, existing, ids, steps),
            merge,
        ),
    ensures
        ({
            let inputs = file_ids@.filter(|id: u32| id < active_id);
            let n = old(steps)@.len() as int;
            &&& merge is Some <==> inputs.len() > 0
            &&& merge is None ==> final(ids)@ == old(ids)@ && final(steps)@ == old(steps)@
            &&& merge is Some ==> {
                &&& has_begun(merge->0, inputs, old(ids)@, max_file_size, existing@)
                &&& final(ids)@ == next_id(old(ids)@)
                &&& goes_on_from(final(steps)@, old(steps)@)
                &&& final(steps)@.len() == n + 1
                &&& final(steps)@[n] == (MergeStep::Create { file_id: old(ids)@ })
            }
        }),
{
    lemma_inputs_are_filtered(file_ids@, active_id);
    lemma_listed_len(existing@, old(ids)@);
    if merge is Some {
        let create = crate::merge::output_writer::MergeStepView::Create { file_id: old(ids)@ };
        let before = crate::merge::output_writer::steps_view(old(steps)@);
        assert(before.push(create) =~= before + seq![create]);
        lemma_goes_on(final(steps)@, old(steps)@, seq![create]);
        assert(final(steps)@[old(steps)@.len() + 0int]@ == create);
    }
}

/// The engine begins a merge of all files below its active one. It is refused on a handle that
/// takes no writes, and changes nothing of the engine but the next id.
pub proof fn law_the_engine_merges_all_closed_files(
    engine: &mut Engine,
    file_ids: &[u32],
    existing: Vec<(u32, u64)>,
    steps: &mut Vec<MergeStep>,
    merge: Result<Option<Merge>, Error>,
)
    requires
        call_ensures(Engine::begin_merge, (engine, file_ids, existing, steps), merge),
    ensures
        ({
            let before = old(engine)@;
            let after = final(engine)@;
            let writable = before.is_read_write && before.active is Some;
            let active_id = before.active->0.file_id;
            let inputs = file_ids@.filter(|id: u32| id < active_id);
            let n = old(steps)@.len() as int;
            &&& merge is Err <==> !writable
            &&& merge is Err ==> merge->Err_0 is ReadOnly && after == before
            &&& merge is Ok ==> (merge->Ok_0 is Some <==> inputs.len() > 0)
            &&& merge is Err || merge->Ok_0 is None ==> after == before && final(steps)@ == old(
                steps,
            )@
            &&& merge is Ok && merge->Ok_0 is Some ==> {
                &&& has_begun(
                    merge->Ok_0->0,
                    inputs,
                    before.next_file_id,
                    before.max_file_size,
                    existing@,
                )
                &&& after.next_file_id == next_id(before.next_file_id)
                &&& after.keydir == before.keydir
                &&& after.active == before.active
                &&& after.commits == before.commits
                &&& super::writes::same_settings(before, after)
                &&& goes_on_from(final(steps)@, old(steps)@)
                &&& final(steps)@.len() == n + 1
                &&& final(steps)@[n] == (MergeStep::Create { file_id: before.next_file_id })
            }
        }),
{
    let before = old(engine)@;
    if before.is_read_write && before.active is Some {
        lemma_inputs_are_filtered(file_ids@, before.active->0.file_id);
        lemma_listed_len(existing@, before.next_file_id);
        if merge is Ok && merge->Ok_0 is Some {
            let create = crate::merge::output_writer::MergeStepView::Create {
                file_id: before.next_file_id,
            };
            lemma_goes_on(final(steps)@, old(steps)@, seq![create]);
            assert(final(steps)@[old(steps)@.len() + 0int]@ == create);
        }
    }
}

/// A merge tells its inputs, in order.
pub proof fn law_a_merge_tells_its_inputs(merge: Merge, inputs: &[u32])
    requires
        call_ensures(Merge::inputs, (&merge,), inputs),
    ensures
        inputs@ == merge@.inputs,
{
}

/// Whether a good entry at offset `pos` of a file is live: it is no tombstone, and the index points
/// to its value.
pub open spec fn is_live_block(
    keydir: KeydirView,
    file_id: u32,
    pos: nat,
    block: Seq<u8>,
) -> bool {
    let key = block.subrange(16, 16 + key_len_at(block, 8));
    &&& four_bytes(block, 8) < 0x8000_0000
    &&& keydir.contains_key(key)
    &&& keydir[key].file_id == file_id
    &&& keydir[key].value_pos == pos + 16 + key_len_at(block, 8)
}

/// Whether hints go on from others with just the record of an entry whose value stands at
/// `value_pos`.
pub open spec fn notes_block(
    hints: Seq<u8>,
    before: Seq<u8>,
    block: Seq<u8>,
    value_pos: int,
) -> bool {
    let n = before.len() as int;
    let record = hints.skip(n);
    &&& hints.len() == n + 20 + key_len_at(block, 8)
    &&& hints.take(n) == before
    &&& four_bytes(record, 0) == four_bytes(block, 4)
    &&& four_bytes(record, 4) == key_len_at(block, 8)
    &&& four_bytes(record, 8) == four_bytes(block, 12)
    &&& eight_bytes(record, 12) == value_pos
    &&& record.skip(20) == block.subrange(16, 16 + key_len_at(block, 8))
}

proof fn lemma_bytes_back(bytes: Seq<u8>, at: int)
    requires
        0 <= at,
        at + 4 <= bytes.len(),
    ensures
        0 <= four_bytes(bytes, at) < 0x1_0000_0000,
        crate::format::le_u32(four_bytes(bytes, at) as u32) == bytes.subrange(at, at + 4),
{
    let x = four_bytes(bytes, at) as u32;
    let (a, b, c, d) = (bytes[at], bytes[at + 1], bytes[at + 2], bytes[at + 3]);
    assert(x == a + 0x100 * b + 0x1_0000 * c + 0x100_0000 * d);
    assert(x % 256 == a);
    assert(x / 256 == b + 0x100 * c + 0x1_0000 * d);
    assert(x / 256 % 256 == b);
    assert(x / 65536 == c + 0x100 * d);
    assert(x / 65536 % 256 == c);
    assert(x / 16777216 == d);
    assert(crate::format::le_u32(x) =~= bytes.subrange(at, at + 4));
}

proof fn lemma_parts(block: Seq<u8>, key_len: int)
    requires
        0 <= key_len,
        16 + key_len <= block.len(),
    ensures
        block == block.subrange(0, 4) + block.skip(4),
        block.skip(4) == block.subrange(4, 8) + block.subrange(8, 12) + block.subrange(12, 16)
            + block.subrange(16, 16 + key_len) + block.skip(16 + key_len),
{
    assert(block =~= block.subrange(0, 4) + block.skip(4));
    assert(block.skip(4) =~= block.subrange(4, 8) + block.subrange(8, 12) + block.subrange(12, 16)
        + block.subrange(16, 16 + key_len) + block.skip(16 + key_len));
}

/// A good entry that is no tombstone is encoded as it stands.
proof fn lemma_copied_bytes(block: Seq<u8>)
    requires
        is_whole_entry(block),
        has_right_crc(block),
        four_bytes(block, 8) < 0x8000_0000,
    ensures
        crate::format::entry::entry_bytes(
            entry_in(block).key,
            entry_in(block).value,
            false,
            entry_in(block).header.timestamp,
        ) == block,
{
    let entry = entry_in(block);
    let key_len = key_len_at(block, 8);
    lemma_bytes_back(block, 0);
    lemma_bytes_back(block, 4);
    lemma_bytes_back(block, 8);
    lemma_bytes_back(block, 12);
    lemma_parts(block, key_len);
    assert(entry.key == block.subrange(16, 16 + key_len));
    assert(entry.value == block.skip(16 + key_len));
    assert(entry.key.len() as u32 == four_bytes(block, 8) as u32);
    assert((entry.value.len() % 0x1_0000_0000) as u32 == four_bytes(block, 12) as u32);
}

proof fn lemma_hint_fields(key: Seq<u8>, header: crate::format::EntryHeader, value_pos: u64)
    requires
        !header.tombstone,
    ensures
        ({
            let record = crate::format::hint::hint_bytes(key, header, value_pos);
            &&& record.len() == 20 + key.len()
            &&& four_bytes(record, 0) == header.timestamp
            &&& four_bytes(record, 4) == header.key_size
            &&& four_bytes(record, 8) == header.value_size
            &&& eight_bytes(record, 12) == value_pos
            &&& record.skip(20) == key
        }),
{
    let record = crate::format::hint::hint_bytes(key, header, value_pos);
    let low = (value_pos % 0x1_0000_0000) as u32;
    let high = (value_pos / 0x1_0000_0000) as u32;
    assert(record.subrange(0, 4) =~= crate::format::le_u32(header.timestamp));
    assert(record.subrange(4, 8) =~= crate::format::le_u32(header.key_size));
    assert(record.subrange(8, 12) =~= crate::format::le_u32(header.value_size));
    assert(record.subrange(12, 16) =~= crate::format::le_u32(low));
    assert(record.subrange(16, 20) =~= crate::format::le_u32(high));
    assert(record.skip(20) =~= key);
    lemma_field(record, 0, header.timestamp);
    lemma_field(record, 4, header.key_size);
    lemma_field(record, 8, header.value_size);
    lemma_field(record, 12, low);
    lemma_field(record, 16, high);
}

proof fn lemma_field(bytes: Seq<u8>, at: int, x: u32)
    requires
        0 <= at,
        at + 4 <= bytes.len(),
        bytes.subrange(at, at + 4) == crate::format::le_u32(x),
    ensures
        four_bytes(bytes, at) == x,
{
    super::format::lemma_le(x);
    assert(four_bytes(bytes, at) == four_bytes(bytes.subrange(at, at + 4), 0));
}

proof fn lemma_noted(before: Seq<u8>, block: Seq<u8>, value_pos: u64)
    requires
        is_whole_entry(block),
        four_bytes(block, 8) < 0x8000_0000,
    ensures
        notes_block(
            before + crate::format::hint::hint_bytes(
                entry_in(block).key,
                entry_in(block).header,
                value_pos,
            ),
            before,
            block,
            value_pos as int,
        ),
{
    let entry = entry_in(block);
    let record = crate::format::hint::hint_bytes(entry.key, entry.header, value_pos);
    let hints = before + record;
    let n = before.len() as int;
    lemma_hint_fields(entry.key, entry.header, value_pos);
    assert(hints.skip(n) =~= record);
    assert(hints.take(n) =~= before);
}

/// A file with nothing in it is copied by doing nothing.
pub proof fn law_an_empty_file_is_copied_by_doing_nothing(
    merge: Merge,
    file_id: u32,
    bytes: &[u8],
    keydir: &SharedKeydir,
    ids: &mut FileIdCounter,
    steps: &mut Vec<MergeStep>,
    copied: (Merge, CopyReport),
)
    requires
        call_ensures(Merge::copy_file, (merge, file_id, bytes, keydir, ids, steps), copied),
        bytes@.len() == 0,
    ensures
        copied.0@.copied == merge@.copied + 1,
        copied.0@.inputs == merge@.inputs,
        copied.0@.output == merge@.output,
        copied.0@.pending == merge@.pending,
        copied.0@.highest_output_id == merge@.highest_output_id,
        final(ids)@ == old(ids)@,
        goes_on_from(final(steps)@, old(steps)@),
        final(steps)@.len() == old(steps)@.len(),
        copied.1.live_entries == 0,
        copied.1.issues@.len() == 0,
{
    super::recovery::lemma_block(bytes@, 0, false);
    let before = crate::merge::output_writer::steps_view(old(steps)@);
    assert(before + Seq::empty() =~= before);
    lemma_goes_on(final(steps)@, old(steps)@, Seq::empty());
}

/// Whether a merge that has copied `block` has come from `before` to `after` as it is to. The copy
/// is the entry byte for byte, at the end of the output file, with a hint record that says where
/// its value stands. An output file that is as long as the limit then, or longer, is finished with
/// its hints, and a new one is asked for. After that, or after a batch of 256, all keys that wait
/// are repointed, once their copies are visible; else the key waits.
pub open spec fn has_copied(
    before: Merge,
    next_before: u32,
    steps_before: Seq<MergeStep>,
    file_id: u32,
    pos: nat,
    block: Seq<u8>,
    after: Merge,
    next_after: u32,
    steps: Seq<MergeStep>,
) -> bool {
    let b = before@;
    let a = after@;
    let o = b.output;
    let n = steps_before.len() as int;
    let end = o.data.offset + block.len();
    let size = four_bytes(block, 12);
    let is_full = end >= o.max_file_size;
    let is_batch = o.unflushed + 1 >= 256;
    let moved = Repoint {
        key: block.subrange(16, 16 + key_len_at(block, 8)),
        old: KeydirEntry {
            file_id,
            value_size: size as u32,
            value_pos: (pos + 16 + key_len_at(block, 8)) as u64,
            timestamp: four_bytes(block, 4) as u32,
        },
        new: KeydirEntry {
            file_id: o.data.file_id,
            value_size: size as u32,
            value_pos: (end - size) as u64,
            timestamp: four_bytes(block, 4) as u32,
        },
    };
    let waiting = b.pending.push(moved);
    &&& a.inputs == b.inputs
    &&& a.copied == b.copied
    &&& a.output.max_file_size == o.max_file_size
    &&& a.output.existing == o.existing
    &&& goes_on_from(steps, steps_before)
    &&& steps.len() == n + if is_full {
        4int
    } else if is_batch {
        3
    } else {
        1
    }
    &&& steps[n] matches MergeStep::Append { file_id, bytes } && file_id == o.data.file_id && bytes@
        == block
    &&& is_full ==> {
        &&& steps[n + 1] matches MergeStep::Finish { file_id, hint } && file_id == o.data.file_id
            && exists|hints: Seq<u8>| #[trigger]
            is_hint_file(hint@, hints) && notes_block(hints, o.hints, block, end - size)
        &&& steps[n + 2] == (MergeStep::Create { file_id: next_before })
        &&& steps[n + 3] matches MergeStep::Repoint(items) && are_repoints(items@, waiting)
        &&& next_after == next_id(next_before)
        &&& a.output.data.file_id == next_before
        &&& is_listed_len(o.existing, next_before, a.output.data.offset)
        &&& a.output.hints.len() == 0
        &&& a.output.unflushed == 0
        &&& a.pending.len() == 0
        &&& a.highest_output_id == if next_before > b.highest_output_id {
            next_before
        } else {
            b.highest_output_id
        }
    }
    &&& !is_full ==> {
        &&& next_after == next_before
        &&& a.output.data.file_id == o.data.file_id
        &&& a.output.data.offset == end
        &&& notes_block(a.output.hints, o.hints, block, end - size)
        &&& a.output.unflushed == if is_batch {
            0
        } else {
            o.unflushed + 1
        }
        &&& a.pending == if is_batch {
            Seq::empty()
        } else {
            waiting
        }
        &&& a.highest_output_id == if o.data.file_id > b.highest_output_id {
            o.data.file_id
        } else {
            b.highest_output_id
        }
        &&& is_batch ==> {
            &&& steps[n + 1] == (MergeStep::Flush { file_id: o.data.file_id })
            &&& steps[n + 2] matches MergeStep::Repoint(items) && are_repoints(items@, waiting)
        }
    }
}

/// One more block at the end of an input file in which nothing is cut off. If it is a good entry
/// that is live, it is copied. Else nothing is done for it: superseded values, tombstones, damaged
/// entries and an end that is cut off are left behind, and the damage is reported.
pub proof fn law_a_merge_copies_what_is_live(
    merge: Merge,
    file_id: u32,
    keydir: &SharedKeydir,
    first: &[u8],
    some_ids: &mut FileIdCounter,
    some_steps: &mut Vec<MergeStep>,
    some: (Merge, CopyReport),
    block: Seq<u8>,
    whole: &[u8],
    ids: &mut FileIdCounter,
    steps: &mut Vec<MergeStep>,
    copied: (Merge, CopyReport),
)
    requires
        call_ensures(
            Merge::copy_file,
            (merge, file_id, first, keydir, some_ids, some_steps),
            some,
        ),
        nothing_cut(some.1.issues@),
        whole@ == first@ + block,
        whole@.len() <= usize::MAX,
        old(ids)@ == old(some_ids)@,
        old(steps)@ == old(some_steps)@,
        call_ensures(Merge::copy_file, (merge, file_id, whole, keydir, ids, steps), copied),
        some.0@.output.data.offset + block.len() <= u64::MAX,
    ensures
        ({
            let is_good = is_whole_entry(block) && has_right_crc(block);
            let is_copied = is_good && is_live_block(keydir@, file_id, first@.len(), block);
            let is_block = block.len() == 0 || is_cut_entry(block) || is_whole_entry(block);
            &&& is_block && !is_copied ==> {
                &&& copied.0@ == some.0@
                &&& final(ids)@ == final(some_ids)@
                &&& goes_on_from(final(steps)@, final(some_steps)@)
                &&& final(steps)@.len() == final(some_steps)@.len()
                &&& copied.1.live_entries == some.1.live_entries
            }
            &&& is_copied ==> {
                &&& copied.1.live_entries == some.1.live_entries + 1
                &&& has_copied(
                    some.0,
                    final(some_ids)@,
                    final(some_steps)@,
                    file_id,
                    first@.len(),
                    block,
                    copied.0,
                    final(ids)@,
                    final(steps)@,
                )
            }
            &&& block.len() == 0 || is_good ==> copied.1.issues@ == some.1.issues@
            &&& is_cut_entry(block) ==> copied.1.issues@ == some.1.issues@.push(
                ScanIssue::Truncated { offset: first@.len() as u64 },
            )
            &&& is_whole_entry(block) && !has_right_crc(block) ==> copied.1.issues@
                == some.1.issues@.push(ScanIssue::Corrupt { offset: first@.len() as u64 })
        }),
{
    let at = first@.len();
    super::recovery::lemma_clean(first@, 0, false);
    super::recovery::lemma_block(block, at, false);
    crate::scan::lemma_scan_concat(first@, block, 0, false);
    let issues = some.1.issues@;
    assert(issues + Seq::empty() =~= issues);
    assert(issues + seq![ScanIssue::Truncated { offset: at as u64 }] =~= issues.push(
        ScanIssue::Truncated { offset: at as u64 },
    ));
    assert(issues + seq![ScanIssue::Corrupt { offset: at as u64 }] =~= issues.push(
        ScanIssue::Corrupt { offset: at as u64 },
    ));
    let entries = crate::scan::scan_entries(first@, 0);
    let start = crate::merge::Copying {
        merge: merge@,
        next_file_id: old(ids)@,
        steps: crate::merge::output_writer::steps_view(old(steps)@),
    };
    let c = crate::merge::copy_entries(start, keydir@, file_id, entries);
    let old_steps = crate::merge::output_writer::steps_view(final(some_steps)@);
    assert(old_steps + Seq::empty() =~= old_steps);
    if is_whole_entry(block) && has_right_crc(block) {
        let entry = entry_in(block);
        let all = entries + seq![(at, entry)];
        assert(all.drop_last() =~= entries);
        assert(all.last() == (at, entry));
        if is_live_block(keydir@, file_id, at, block) {
            lemma_copy(
                c,
                file_id,
                at,
                block,
                some.0,
                final(some_steps)@,
                copied.0,
                final(ids)@,
                final(steps)@,
            );
        } else {
            lemma_goes_on(final(steps)@, final(some_steps)@, Seq::empty());
        }
    } else if block.len() == 0 || is_cut_entry(block) || is_whole_entry(block) {
        assert(entries + Seq::<(nat, EntryView)>::empty() =~= entries);
        lemma_goes_on(final(steps)@, final(some_steps)@, Seq::empty());
    }
}

#[verifier::rlimit(40)]
proof fn lemma_copy(
    c: crate::merge::Copying,
    file_id: u32,
    pos: nat,
    block: Seq<u8>,
    before: Merge,
    steps_before: Seq<MergeStep>,
    after: Merge,
    next_after: u32,
    steps: Seq<MergeStep>,
)
    requires
        is_whole_entry(block),
        has_right_crc(block),
        four_bytes(block, 8) < 0x8000_0000,
        before@ == crate::merge::file_copied(c.merge),
        c.steps == crate::merge::output_writer::steps_view(steps_before),
        c.merge.output.data.offset + block.len() <= u64::MAX,
        ({
            let d = crate::merge::copy_live(c, file_id, pos, entry_in(block));
            &&& after@ == crate::merge::file_copied(d.merge)
            &&& next_after == d.next_file_id
            &&& crate::merge::output_writer::steps_view(steps) == d.steps
        }),
    ensures
        has_copied(
            before,
            c.next_file_id,
            steps_before,
            file_id,
            pos,
            block,
            after,
            next_after,
            steps,
        ),
{
    let entry = entry_in(block);
    let o = c.merge.output;
    let end = o.data.offset + block.len();
    let size = four_bytes(block, 12);
    let n = steps_before.len() as int;
    lemma_copied_bytes(block);
    lemma_bytes_back(block, 4);
    lemma_bytes_back(block, 12);
    lemma_listed_len(o.existing, c.next_file_id);
    let value_pos = (end - size) as u64;
    lemma_noted(o.hints, block, value_pos);
    let w = crate::merge::output_writer::write_entry(o, c.next_file_id, entry);
    let moved = crate::merge::repoint_of(file_id, pos, entry, w.file_id, w.value_pos);
    let waiting = c.merge.pending.push(moved);
    let repoint = crate::merge::output_writer::MergeStepView::Repoint(waiting);
    let more = if w.flushed {
        w.steps.push(repoint)
    } else {
        w.steps
    };
    lemma_goes_on(steps, steps_before, more);
    assert(steps[n + 0]@ == more[0]);
    if end >= o.max_file_size {
        assert(steps[n + 1]@ == more[1]);
        assert(steps[n + 2]@ == more[2]);
        assert(steps[n + 3]@ == more[3]);
        let hints = o.hints + crate::format::hint::hint_bytes(entry.key, entry.header, value_pos);
        if let MergeStep::Finish { file_id: id, hint } = steps[n + 1] {
            assert(hint@ == crate::format::hint::hint_file_bytes(hints));
            let crc = crate::format::crc32(hints);
            super::format::lemma_le(crc);
            assert(hint@.take(hints.len() as int) =~= hints);
            assert(hint@.subrange(hints.len() as int, hints.len() as int + 4)
                =~= crate::format::le_u32(crc));
            assert(four_bytes(hint@, hints.len() as int) == four_bytes(
                hint@.subrange(hints.len() as int, hints.len() as int + 4),
                0,
            ));
            assert(is_hint_file(hint@, hints));
        }
        if let MergeStep::Repoint(items) = steps[n + 3] {
            lemma_repoint_items(items@, waiting);
        }
    } else if o.unflushed + 1 >= 256 {
        assert(steps[n + 1]@ == more[1]);
        assert(steps[n + 2]@ == more[2]);
        if let MergeStep::Repoint(items) = steps[n + 2] {
            lemma_repoint_items(items@, waiting);
        }
    }
}

/// The engine copies a file as the merge does with the engine's index and ids, and changes nothing
/// of itself but the next id. A plan leaves even that to be taken.
pub proof fn law_the_engine_copies_as_the_merge_does(
    merge: Merge,
    file_id: u32,
    bytes: &[u8],
    keydir: &SharedKeydir,
    ids: &mut FileIdCounter,
    steps: &mut Vec<MergeStep>,
    copied: (Merge, CopyReport),
    planner: Engine,
    plan_steps: &mut Vec<MergeStep>,
    planned: (Merge, CopyReport, crate::engine::PlannedIds),
    engine: &mut Engine,
    engine_steps: &mut Vec<MergeStep>,
    by_engine: (Merge, CopyReport),
)
    requires
        call_ensures(Merge::copy_file, (merge, file_id, bytes, keydir, ids, steps), copied),
        planner@ == old(engine)@,
        keydir@ == planner@.keydir,
        old(ids)@ == planner@.next_file_id,
        old(plan_steps)@ == old(steps)@,
        old(engine_steps)@ == old(steps)@,
        call_ensures(
            Engine::plan_copy,
            (&planner, merge, file_id, bytes, plan_steps),
            planned,
        ),
        call_ensures(
            Engine::copy_file,
            (engine, merge, file_id, bytes, engine_steps),
            by_engine,
        ),
    ensures
        planned.0@ == copied.0@,
        planned.1.live_entries == copied.1.live_entries,
        planned.1.issues@ == copied.1.issues@,
        planned.2@.0 == planner@.next_file_id,
        planned.2@.1 == final(ids)@,
        goes_on_from(final(plan_steps)@, final(steps)@),
        final(plan_steps)@.len() == final(steps)@.len(),
        by_engine.0@ == copied.0@,
        by_engine.1.live_entries == copied.1.live_entries,
        by_engine.1.issues@ == copied.1.issues@,
        final(engine)@.next_file_id == final(ids)@,
        final(engine)@.keydir == old(engine)@.keydir,
        final(engine)@.active == old(engine)@.active,
        final(engine)@.commits == old(engine)@.commits,
        super::writes::same_settings(old(engine)@, final(engine)@),
        goes_on_from(final(engine_steps)@, final(steps)@),
        final(engine_steps)@.len() == final(steps)@.len(),
{
    let done = crate::merge::output_writer::steps_view(final(steps)@);
    assert(done + Seq::empty() =~= done);
    lemma_goes_on(final(plan_steps)@, final(steps)@, Seq::empty());
    lemma_goes_on(final(engine_steps)@, final(steps)@, Seq::empty());
}

/// Ids that were planned for are taken, and nothing else changes.
pub proof fn law_planned_ids_are_taken(engine: &mut Engine, planned: crate::engine::PlannedIds)
    requires
        call_ensures(Engine::take_ids, (engine, planned), ()),
    ensures
        final(engine)@.next_file_id == planned@.1,
        final(engine)@.keydir == old(engine)@.keydir,
        final(engine)@.active == old(engine)@.active,
        final(engine)@.commits == old(engine)@.commits,
        super::writes::same_settings(old(engine)@, final(engine)@),
{
}

/// A merge ends by finishing its last output file with its hints, then repointing the keys that
/// still wait, and only then removing its inputs, all of them and nothing else, oldest first.
pub proof fn law_a_merge_removes_its_inputs_last(
    merge: Merge,
    steps: &mut Vec<MergeStep>,
    highest_output_id: u32,
)
    requires
        call_ensures(Merge::finish, (merge, steps), highest_output_id),
    ensures
        ({
            let n = old(steps)@.len() as int;
            let asked = final(steps)@;
            &&& highest_output_id == merge@.highest_output_id
            &&& goes_on_from(asked, old(steps)@)
            &&& asked.len() == n + 2 + merge@.inputs.len()
            &&& asked[n] matches MergeStep::Finish { file_id, hint } && file_id
                == merge@.output.data.file_id && is_hint_file(hint@, merge@.output.hints)
            &&& asked[n + 1] matches MergeStep::Repoint(items) && are_repoints(
                items@,
                merge@.pending,
            )
            &&& forall|i: int|
                0 <= i < merge@.inputs.len() ==> asked[n + 2 + i] == (MergeStep::Remove {
                    file_id: #[trigger] merge@.inputs[i],
                })
        }),
{
    let n = old(steps)@.len() as int;
    let asked = final(steps)@;
    let more = crate::merge::final_steps(merge@);
    let hints = merge@.output.hints;
    lemma_goes_on(asked, old(steps)@, more);
    assert(asked[n + 0]@ == more[0]);
    assert(asked[n + 1]@ == more[1]);
    if let MergeStep::Finish { file_id, hint } = asked[n] {
        assert(hint@ == crate::format::hint::hint_file_bytes(hints));
        let end = hints.len() as int;
        super::format::lemma_le(crate::format::crc32(hints));
        assert(hint@.take(end) =~= hints);
        assert(hint@.subrange(end, end + 4) =~= crate::format::le_u32(crate::format::crc32(hints)));
        assert(four_bytes(hint@, end) == four_bytes(hint@.subrange(end, end + 4), 0));
    }
    if let MergeStep::Repoint(items) = asked[n + 1] {
        lemma_repoint_items(items@, merge@.pending);
    }
    assert forall|i: int| 0 <= i < merge@.inputs.len() implies asked[n + 2 + i] == (
    MergeStep::Remove { file_id: #[trigger] merge@.inputs[i] }) by {
        assert(asked[n + (2 + i)]@ == more[2 + i]);
        assert(more[2 + i] == crate::merge::removals(merge@.inputs)[i]);
    }
}

/// Repointing no key changes nothing. One more key to be repointed changes that key just if it
/// still has its old entry by then, and no other.
pub proof fn law_keys_are_repointed_one_after_another(
    none: &[(Vec<u8>, KeydirEntry, KeydirEntry)],
    untouched: &mut SharedKeydir,
    first: &[(Vec<u8>, KeydirEntry, KeydirEntry)],
    begun: &mut SharedKeydir,
    more: (Vec<u8>, KeydirEntry, KeydirEntry),
    all: &[(Vec<u8>, KeydirEntry, KeydirEntry)],
    keydir: &mut SharedKeydir,
)
    requires
        none@.len() == 0,
        call_ensures(crate::merge::apply_pending_repoints, (untouched, none), ()),
        call_ensures(crate::merge::apply_pending_repoints, (begun, first), ()),
        all@ == first@.push(more),
        old(keydir)@ == old(begun)@,
        call_ensures(crate::merge::apply_pending_repoints, (keydir, all), ()),
    ensures
        final(untouched)@ == old(untouched)@,
        final(keydir)@ == if final(begun)@.contains_key(more.0@) && final(begun)@[more.0@]
            == more.1 {
            final(begun)@.insert(more.0@, more.2)
        } else {
            final(begun)@
        },
{
    let before = crate::merge::pending_queue::repoints_view(first@);
    let items = crate::merge::pending_queue::repoints_view(all@);
    let last = Repoint { key: more.0@, old: more.1, new: more.2 };
    assert(items =~= before.push(last));
    assert(items.drop_last() =~= before);
    assert(crate::merge::pending_queue::repoints_view(none@) =~= Seq::empty());
}

/// The engine repoints keys in its index so, and changes nothing else.
pub proof fn law_the_engine_repoints_keys_in_its_index(
    engine: &mut Engine,
    items: &[(Vec<u8>, KeydirEntry, KeydirEntry)],
    keydir: &mut SharedKeydir,
)
    requires
        call_ensures(Engine::apply_repoints, (engine, items), ()),
        old(keydir)@ == old(engine)@.keydir,
        call_ensures(crate::merge::apply_pending_repoints, (keydir, items), ()),
    ensures
        final(engine)@.keydir == final(keydir)@,
        final(engine)@.active == old(engine)@.active,
        final(engine)@.next_file_id == old(engine)@.next_file_id,
        final(engine)@.commits == old(engine)@.commits,
        super::writes::same_settings(old(engine)@, final(engine)@),
{
}

/// Keys that wait are kept in the order in which they came, and are all taken out at once.
pub proof fn law_waiting_keys_are_kept_in_order(
    made: PendingQueue,
    queue: &mut PendingQueue,
    item: (Vec<u8>, KeydirEntry, KeydirEntry),
    drained: &mut PendingQueue,
    items: Vec<(Vec<u8>, KeydirEntry, KeydirEntry)>,
    counted: PendingQueue,
    n: usize,
    is_empty: bool,
)
    requires
        call_ensures(PendingQueue::new, (), made),
        call_ensures(PendingQueue::push, (queue, item), ()),
        call_ensures(PendingQueue::drain, (drained,), items),
        call_ensures(PendingQueue::len, (&counted,), n),
        call_ensures(PendingQueue::is_empty, (&counted,), is_empty),
    ensures
        made@.len() == 0,
        final(queue)@ == old(queue)@.push(Repoint { key: item.0@, old: item.1, new: item.2 }),
        are_repoints(items@, old(drained)@),
        final(drained)@.len() == 0,
        n == counted@.len(),
        is_empty <==> counted@.len() == 0,
{
    lemma_repoint_items(items@, old(drained)@);
}

/// A copied key waits with its old and its new place, and with the value size and the timestamp of
/// its entry in both.
pub proof fn law_a_copied_key_waits_with_both_places(
    queue: &mut PendingQueue,
    entry: crate::format::Entry,
    file_id: u32,
    new_file_id: u32,
    value_pos: u64,
    new_value_pos: u64,
)
    requires
        call_ensures(
            PendingQueue::queue,
            (queue, entry, file_id, new_file_id, value_pos, new_value_pos),
            (),
        ),
    ensures
        final(queue)@.len() == old(queue)@.len() + 1,
        final(queue)@.drop_last() == old(queue)@,
        ({
            let last = final(queue)@.last();
            &&& last.key == entry.key@
            &&& last.old.file_id == file_id && last.old.value_pos == value_pos
            &&& last.new.file_id == new_file_id && last.new.value_pos == new_value_pos
            &&& last.old.value_size == entry.header.value_size
            &&& last.new.value_size == entry.header.value_size
            &&& last.old.timestamp == entry.header.timestamp
            &&& last.new.timestamp == entry.header.timestamp
        }),
{
    assert(final(queue)@.drop_last() =~= old(queue)@);
}

/// An output file begins where a file with its id ends, if one was there, and is asked for. It ends
/// with its hints.
pub proof fn law_an_output_file_begins_and_ends(
    ids: &mut FileIdCounter,
    max_file_size: u64,
    existing: Vec<(u32, u64)>,
    steps: &mut Vec<MergeStep>,
    writer: MergeOutputWriter,
    told_id: u32,
    last: MergeOutputWriter,
    end_steps: &mut Vec<MergeStep>,
)
    requires
        call_ensures(MergeOutputWriter::new, (ids, max_file_size, existing, steps), writer),
        call_ensures(MergeOutputWriter::current_file_id, (&writer,), told_id),
        call_ensures(MergeOutputWriter::finish, (last, end_steps), ()),
    ensures
        writer@.data.file_id == old(ids)@,
        told_id == old(ids)@,
        is_listed_len(existing@, old(ids)@, writer@.data.offset),
        writer@.hints.len() == 0,
        writer@.unflushed == 0,
        writer@.max_file_size == max_file_size,
        writer@.existing == existing@,
        final(ids)@ == next_id(old(ids)@),
        goes_on_from(final(steps)@, old(steps)@),
        final(steps)@.len() == old(steps)@.len() + 1,
        final(steps)@.last() == (MergeStep::Create { file_id: old(ids)@ }),
        goes_on_from(final(end_steps)@, old(end_steps)@),
        final(end_steps)@.len() == old(end_steps)@.len() + 1,
        final(end_steps)@.last() matches MergeStep::Finish { file_id, hint } && file_id
            == last@.data.file_id && is_hint_file(hint@, last@.hints),
{
    lemma_listed_len(existing@, old(ids)@);
    let create = crate::merge::output_writer::MergeStepView::Create { file_id: old(ids)@ };
    let before = crate::merge::output_writer::steps_view(old(steps)@);
    assert(before.push(create) =~= before + seq![create]);
    lemma_goes_on(final(steps)@, old(steps)@, seq![create]);
    assert(final(steps)@[old(steps)@.len() + 0int]@ == create);
    let hints = last@.hints;
    let finish = crate::merge::output_writer::MergeStepView::Finish {
        file_id: last@.data.file_id,
        hint: crate::format::hint::hint_file_bytes(hints),
    };
    let so_far = crate::merge::output_writer::steps_view(old(end_steps)@);
    assert(so_far.push(finish) =~= so_far + seq![finish]);
    lemma_goes_on(final(end_steps)@, old(end_steps)@, seq![finish]);
    assert(final(end_steps)@[old(end_steps)@.len() + 0int]@ == finish);
    if let MergeStep::Finish { file_id, hint } = final(end_steps)@.last() {
        assert(hint@ == crate::format::hint::hint_file_bytes(hints));
        let end = hints.len() as int;
        super::format::lemma_le(crate::format::crc32(hints));
        assert(hint@.take(end) =~= hints);
        assert(hint@.subrange(end, end + 4) =~= crate::format::le_u32(crate::format::crc32(hints)));
        assert(four_bytes(hint@, end) == four_bytes(hint@.subrange(end, end + 4), 0));
    }
}

/// A live entry is written at the end of the output file, with its key, value and timestamp, and is
/// found at the place that is told. A file that is as long as the limit then, or longer, is
/// finished and the next one begun, and a batch of 256 is flushed: only then is all that was
/// written visible.
pub proof fn law_a_live_entry_is_written_at_the_end(
    writer: MergeOutputWriter,
    entry: crate::format::Entry,
    ids: &mut FileIdCounter,
    steps: &mut Vec<MergeStep>,
    written: (MergeOutputWriter, u32, u64, bool),
)
    requires
        call_ensures(MergeOutputWriter::write_live_entry, (writer, &entry, ids, steps), written),
        entry.key@.len() <= 0x7fff_ffff,
        writer@.data.offset + 16 + entry.key@.len() + entry.value@.len() <= u64::MAX,
    ensures
        ({
            let before = writer@;
            let after = written.0@;
            let end = before.data.offset + 16 + entry.key@.len() + entry.value@.len();
            let is_full = end >= before.max_file_size;
            let is_batch = before.unflushed + 1 >= 256;
            let n = old(steps)@.len() as int;
            &&& written.1 == before.data.file_id
            &&& written.2 == before.data.offset + 16 + entry.key@.len()
            &&& written.3 <==> is_full || is_batch
            &&& after.max_file_size == before.max_file_size
            &&& after.existing == before.existing
            &&& goes_on_from(final(steps)@, old(steps)@)
            &&& final(steps)@[n] matches MergeStep::Append { file_id, bytes } && file_id
                == before.data.file_id && super::format::is_entry(
                bytes@,
                entry.key@,
                entry.value@,
                false,
                entry.header.timestamp,
            )
            &&& is_full ==> {
                &&& final(steps)@.len() == n + 3
                &&& final(steps)@[n + 1] matches MergeStep::Finish { file_id, .. } && file_id
                    == before.data.file_id
                &&& final(steps)@[n + 2] == (MergeStep::Create { file_id: old(ids)@ })
                &&& after.data.file_id == old(ids)@
                &&& after.hints.len() == 0
                &&& after.unflushed == 0
                &&& final(ids)@ == next_id(old(ids)@)
            }
            &&& !is_full ==> {
                &&& final(steps)@.len() == n + if is_batch {
                    2int
                } else {
                    1
                }
                &&& is_batch ==> final(steps)@[n + 1] == (MergeStep::Flush {
                    file_id: before.data.file_id,
                })
                &&& after.data.file_id == before.data.file_id
                &&& after.data.offset == end
                &&& after.unflushed == if is_batch {
                    0
                } else {
                    before.unflushed + 1
                }
                &&& final(ids)@ == old(ids)@
            }
        }),
{
    super::format::lemma_is_entry(entry.key@, entry.value@, false, entry.header.timestamp);
    let n = old(steps)@.len() as int;
    let w = crate::merge::output_writer::write_entry(writer@, old(ids)@, entry@);
    lemma_goes_on(final(steps)@, old(steps)@, w.steps);
    assert(final(steps)@[n + 0]@ == w.steps[0]);
    if w.steps.len() > 1 {
        assert(final(steps)@[n + 1]@ == w.steps[1]);
    }
    if w.steps.len() > 2 {
        assert(final(steps)@[n + 2]@ == w.steps[2]);
    }
}

} // verus!
