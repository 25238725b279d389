//! Rebuilding the index.
//!
//! A file is a run of blocks. What is said here of one more block at its end, and of no block at
//! all, says what becomes of every file.
use vstd::prelude::*;

use super::format::{has_right_crc, is_cut_entry, is_cut_hint, is_whole_entry, key_len_at};
use super::{eight_bytes, four_bytes};
use crate::format::entry::{EntryReadView, EntryView};
use crate::format::hint::{HintReadView, HintView};
use crate::format::Entry;
use crate::keydir::{Keydir, KeydirEntry, KeydirView};
use crate::recovery::{FileImage, HintProblem, KeyEvent, RecoveryWarning};
use crate::scan::ScanIssue;

verus! {

/// Whether no entry was found to be cut off.
pub open spec fn nothing_cut(issues: Seq<ScanIssue>) -> bool {
    forall|i: int| 0 <= i < issues.len() ==> !((#[trigger] issues[i]) is Truncated)
}

/// An index after a good entry that stands at offset `pos` of a file: a value is found behind the
/// header and the key, and a tombstone removes its key.
pub open spec fn with_block(
    keydir: KeydirView,
    file_id: u32,
    pos: nat,
    block: Seq<u8>,
) -> KeydirView {
    let key = block.subrange(16, 16 + key_len_at(block, 8));
    if four_bytes(block, 8) >= 0x8000_0000 {
        keydir.remove(key)
    } else {
        keydir.insert(
            key,
            KeydirEntry {
                file_id,
                value_size: four_bytes(block, 12) as u32,
                value_pos: (pos + 16 + key_len_at(block, 8)) as u64,
                timestamp: four_bytes(block, 4) as u32,
            },
        )
    }
}

pub proof fn lemma_clean(bytes: Seq<u8>, pos: nat, is_last: bool)
    requires
        nothing_cut(crate::scan::scan_issues(bytes, pos, false)),
    ensures
        crate::scan::ends_clean(bytes),
        crate::scan::scan_issues(bytes, pos, is_last) == crate::scan::scan_issues(
            bytes,
            pos,
            false,
        ),
    decreases bytes.len(),
{
    let issues = crate::scan::scan_issues(bytes, pos, false);
    match crate::format::entry::parse_entry(bytes) {
        None => {},
        Some(EntryReadView::Truncated) => {
            assert(issues[0] is Truncated);
        },
        Some(EntryReadView::Complete(_, total_len)) => {
            lemma_clean(bytes.skip(total_len as int), pos + total_len, is_last);
        },
        Some(EntryReadView::CrcMismatch { total_len }) => {
            let rest = crate::scan::scan_issues(
                bytes.skip(total_len as int),
                pos + total_len,
                false,
            );
            assert forall|i: int| 0 <= i < rest.len() implies !((#[trigger] rest[i])
                is Truncated) by {
                assert(issues[i + 1] == rest[i]);
            }
            lemma_clean(bytes.skip(total_len as int), pos + total_len, is_last);
        },
    }
}

/// The entry that a good block holds.
pub open spec fn entry_in(block: Seq<u8>) -> EntryView {
    EntryView {
        header: crate::format::EntryHeader {
            timestamp: four_bytes(block, 4) as u32,
            key_size: key_len_at(block, 8) as u32,
            value_size: four_bytes(block, 12) as u32,
            tombstone: four_bytes(block, 8) >= 0x8000_0000,
        },
        key: block.subrange(16, 16 + key_len_at(block, 8)),
        value: block.skip(16 + key_len_at(block, 8)),
    }
}

pub proof fn lemma_block(block: Seq<u8>, pos: nat, is_last: bool)
    ensures
        block.len() == 0 ==> crate::scan::scan_entries(block, pos) == Seq::<
            (nat, EntryView),
        >::empty() && crate::scan::scan_issues(block, pos, is_last) == Seq::<ScanIssue>::empty(),
        is_cut_entry(block) ==> crate::scan::scan_entries(block, pos) == Seq::<
            (nat, EntryView),
        >::empty() && crate::scan::scan_issues(block, pos, is_last) == if is_last {
            Seq::<ScanIssue>::empty()
        } else {
            seq![ScanIssue::Truncated { offset: pos as u64 }]
        },
        is_whole_entry(block) && !has_right_crc(block) ==> crate::scan::scan_entries(block, pos)
            == Seq::<(nat, EntryView)>::empty() && crate::scan::scan_issues(block, pos, is_last)
            == seq![ScanIssue::Corrupt { offset: pos as u64 }],
        is_whole_entry(block) && has_right_crc(block) ==> crate::scan::scan_entries(block, pos)
            == seq![(pos, entry_in(block))] && crate::scan::scan_issues(block, pos, is_last)
            == Seq::<ScanIssue>::empty(),
{
    let none = Seq::<u8>::empty();
    if is_whole_entry(block) {
        let len = block.len() as int;
        assert(block.subrange(4, len) =~= block.skip(4));
        assert(block.subrange(16 + key_len_at(block, 8), len) =~= block.skip(
            16 + key_len_at(block, 8),
        ));
        assert(block.skip(len) =~= none);
        assert(crate::scan::scan_entries(none, pos + block.len()) =~= Seq::empty());
        assert(crate::scan::scan_issues(none, pos + block.len(), is_last) =~= Seq::empty());
        assert(crate::scan::scan_entries(block, pos) =~= if has_right_crc(block) {
            seq![(pos, entry_in(block))]
        } else {
            Seq::empty()
        });
        assert(crate::scan::scan_issues(block, pos, is_last) =~= if has_right_crc(block) {
            Seq::empty()
        } else {
            seq![ScanIssue::Corrupt { offset: pos as u64 }]
        });
    }
}

/// A scan of a data file with nothing in it finds nothing.
pub proof fn law_an_empty_file_says_nothing(
    bytes: &[u8],
    file_id: u32,
    is_last: bool,
    keydir: &mut Keydir,
    issues: Vec<ScanIssue>,
)
    requires
        call_ensures(
            crate::recovery::scan_data_file,
            (bytes, file_id, is_last, keydir),
            issues,
        ),
        bytes@.len() == 0,
    ensures
        final(keydir)@ == old(keydir)@,
        issues@.len() == 0,
{
    lemma_block(bytes@, 0, is_last);
    let events = crate::recovery::entry_events(
        file_id,
        crate::scan::scan_entries(bytes@, 0),
    );
    assert(events =~= Seq::empty());
}

/// One more block at the end of a data file in which nothing is cut off. A good entry is put into
/// the index, on top of all before it, or takes its key out if it is a tombstone. One with a wrong
/// CRC32 is reported and changes nothing. An end that is cut off changes nothing, and is reported
/// unless it is that of the last file.
pub proof fn law_a_scan_takes_one_block_after_another(
    first: &[u8],
    file_id: u32,
    begun: &mut Keydir,
    found: Vec<ScanIssue>,
    whole: &[u8],
    block: Seq<u8>,
    is_last: bool,
    keydir: &mut Keydir,
    issues: Vec<ScanIssue>,
)
    requires
        call_ensures(crate::recovery::scan_data_file, (first, file_id, false, begun), found),
        nothing_cut(found@),
        whole@ == first@ + block,
        whole@.len() <= usize::MAX,
        old(keydir)@ == old(begun)@,
        call_ensures(
            crate::recovery::scan_data_file,
            (whole, file_id, is_last, keydir),
            issues,
        ),
    ensures
        block.len() == 0 ==> final(keydir)@ == final(begun)@ && issues@ == found@,
        is_cut_entry(block) ==> final(keydir)@ == final(begun)@ && issues@ == if is_last {
            found@
        } else {
            found@.push(ScanIssue::Truncated { offset: first@.len() as u64 })
        },
        is_whole_entry(block) && !has_right_crc(block) ==> final(keydir)@ == final(begun)@
            && issues@ == found@.push(ScanIssue::Corrupt { offset: first@.len() as u64 }),
        is_whole_entry(block) && has_right_crc(block) ==> final(keydir)@ == with_block(
            final(begun)@,
            file_id,
            first@.len(),
            block,
        ) && issues@ == found@,
{
    let at = first@.len();
    lemma_clean(first@, 0, is_last);
    lemma_block(block, at, is_last);
    crate::scan::lemma_scan_concat(first@, block, 0, is_last);
    let before = crate::scan::scan_entries(first@, 0);
    let more = crate::scan::scan_entries(block, at);
    let events = crate::recovery::entry_events(file_id, before);
    let added = crate::recovery::entry_events(file_id, more);
    assert(crate::recovery::entry_events(file_id, before + more) =~= events + added);
    crate::recovery::lemma_apply_concat(old(keydir)@, events, added);
    if is_whole_entry(block) && has_right_crc(block) {
        let event = crate::recovery::entry_event(file_id, at, entry_in(block));
        assert(added =~= seq![event]);
        assert(added.drop_last() =~= Seq::empty());
        assert(crate::recovery::apply_events(final(begun)@, added.drop_last()) == final(begun)@);
        assert(crate::recovery::apply_events(final(begun)@, added)
            == crate::recovery::apply_event(final(begun)@, event));
    } else if block.len() == 0 || is_cut_entry(block) || is_whole_entry(block) {
        assert(added =~= Seq::empty());
    }
    assert(found@ + Seq::empty() =~= found@);
    assert(found@ + seq![ScanIssue::Truncated { offset: at as u64 }] =~= found@.push(
        ScanIssue::Truncated { offset: at as u64 },
    ));
    assert(found@ + seq![ScanIssue::Corrupt { offset: at as u64 }] =~= found@.push(
        ScanIssue::Corrupt { offset: at as u64 },
    ));
}

/// Reading all entries of a closed file with nothing in it gives none.
pub proof fn law_an_empty_file_has_no_entries(
    bytes: &[u8],
    read: (Vec<(u64, Entry)>, Vec<ScanIssue>),
)
    requires
        call_ensures(crate::merge::read_all_entries, (bytes,), read),
        bytes@.len() == 0,
    ensures
        read.0@.len() == 0,
        read.1@.len() == 0,
{
    lemma_block(bytes@, 0, false);
    assert(crate::merge::entries_view(read.0@).len() == read.0@.len());
}

/// One more block at the end of a closed file in which nothing is cut off: a good entry is read
/// with its offset, a tombstone too, and all else is reported.
pub proof fn law_all_entries_are_read_one_after_another(
    first: &[u8],
    before: (Vec<(u64, Entry)>, Vec<ScanIssue>),
    whole: &[u8],
    block: Seq<u8>,
    read: (Vec<(u64, Entry)>, Vec<ScanIssue>),
)
    requires
        call_ensures(crate::merge::read_all_entries, (first,), before),
        nothing_cut(before.1@),
        whole@ == first@ + block,
        whole@.len() <= usize::MAX,
        call_ensures(crate::merge::read_all_entries, (whole,), read),
    ensures
        ({
            let at = first@.len();
            let n = before.0@.len() as int;
            &&& forall|i: int|
                0 <= i < n ==> i < read.0@.len() && (#[trigger] read.0@[i]).0 == before.0@[i].0
                    && read.0@[i].1@ == before.0@[i].1@
            &&& block.len() == 0 || is_cut_entry(block) || is_whole_entry(block) && !has_right_crc(
                block,
            ) ==> read.0@.len() == n
            &&& block.len() == 0 ==> read.1@ == before.1@
            &&& is_cut_entry(block) ==> read.1@ == before.1@.push(
                ScanIssue::Truncated { offset: at as u64 },
            )
            &&& is_whole_entry(block) && !has_right_crc(block) ==> read.1@ == before.1@.push(
                ScanIssue::Corrupt { offset: at as u64 },
            )
            &&& is_whole_entry(block) && has_right_crc(block) ==> read.0@.len() == n + 1
                && read.0@[n].0 == at && read.0@[n].1@ == entry_in(block) && read.1@ == before.1@
        }),
{
    let at = first@.len();
    lemma_clean(first@, 0, false);
    lemma_block(block, at, false);
    crate::scan::lemma_scan_concat(first@, block, 0, false);
    let old_view = crate::merge::entries_view(before.0@);
    let new_view = crate::merge::entries_view(read.0@);
    let n = before.0@.len() as int;
    assert(old_view.len() == n);
    assert(new_view.len() == read.0@.len());
    assert forall|i: int| 0 <= i < n implies i < read.0@.len() && (#[trigger] read.0@[i]).0
        == before.0@[i].0 && read.0@[i].1@ == before.0@[i].1@ by {
        assert(new_view[i] == old_view[i]);
    }
    if is_whole_entry(block) && has_right_crc(block) {
        assert(new_view[n] == (at, entry_in(block)));
    }
    assert(before.1@ + Seq::empty() =~= before.1@);
    assert(before.1@ + seq![ScanIssue::Truncated { offset: at as u64 }] =~= before.1@.push(
        ScanIssue::Truncated { offset: at as u64 },
    ));
    assert(before.1@ + seq![ScanIssue::Corrupt { offset: at as u64 }] =~= before.1@.push(
        ScanIssue::Corrupt { offset: at as u64 },
    ));
}

/// Whether a hint file is these records and then their CRC32.
pub open spec fn is_hint_file(bytes: Seq<u8>, content: Seq<u8>) -> bool {
    &&& bytes.len() == content.len() + 4
    &&& bytes.take(content.len() as int) == content
    &&& four_bytes(bytes, content.len() as int) == crate::format::crc32(content)
}

proof fn lemma_hint_file(bytes: Seq<u8>)
    ensures
        crate::format::hint::verified_content(bytes) is Some <==> exists|content: Seq<u8>|
            is_hint_file(bytes, content),
        forall|content: Seq<u8>| #[trigger]
            is_hint_file(bytes, content) ==> crate::format::hint::verified_content(bytes) == Some(
                content,
            ),
        crate::format::hint::verified_content(bytes) is Some ==> is_hint_file(
            bytes,
            crate::format::hint::verified_content(bytes)->0,
        ),
{
    if crate::format::hint::verified_content(bytes) is Some {
        assert(is_hint_file(bytes, crate::format::hint::verified_content(bytes)->0));
    }
}

/// A hint file that does not end with the CRC32 of its records is not trusted, and changes nothing.
pub proof fn law_a_hint_file_without_its_crc_is_not_used(
    bytes: &[u8],
    file_id: u32,
    data_file_len: u64,
    keydir: &mut Keydir,
    outcome: Result<(), HintProblem>,
)
    requires
        call_ensures(
            crate::recovery::try_scan_hint_file,
            (bytes, file_id, data_file_len, keydir),
            outcome,
        ),
    ensures
        outcome is Err ==> final(keydir)@ == old(keydir)@,
        outcome == Err::<(), HintProblem>(HintProblem::Checksum) <==> !(exists|content: Seq<u8>|
            is_hint_file(bytes@, content)),
{
    lemma_hint_file(bytes@);
    if crate::format::hint::verified_content(bytes@) is Some {
        lemma_problem(crate::format::hint::verified_content(bytes@)->0, data_file_len);
    }
}

proof fn lemma_problem(content: Seq<u8>, data_file_len: u64)
    ensures
        crate::recovery::hint_records(content, data_file_len) is Err
            ==> crate::recovery::hint_records(content, data_file_len)->Err_0
            != HintProblem::Checksum,
    decreases content.len(),
{
    match crate::format::hint::parse_hint(content) {
        Some(HintReadView::Complete(hint)) => {
            lemma_problem(
                content.skip(crate::format::hint::hint_read_len(content) as int),
                data_file_len,
            );
        },
        _ => {},
    }
}

/// A hint file with no records is trusted and changes nothing.
pub proof fn law_an_empty_hint_file_says_nothing(
    bytes: &[u8],
    file_id: u32,
    data_file_len: u64,
    keydir: &mut Keydir,
    outcome: Result<(), HintProblem>,
)
    requires
        call_ensures(
            crate::recovery::try_scan_hint_file,
            (bytes, file_id, data_file_len, keydir),
            outcome,
        ),
        is_hint_file(bytes@, Seq::empty()),
    ensures
        outcome is Ok,
        final(keydir)@ == old(keydir)@,
{
    lemma_hint_file(bytes@);
    assert(crate::recovery::hint_events(file_id, Seq::empty()) =~= Seq::empty());
}

proof fn lemma_records_concat(first: Seq<u8>, more: Seq<u8>, data_file_len: u64)
    ensures
        (match crate::recovery::hint_records(first, data_file_len) {
            Ok(hints) => crate::recovery::hint_records(first + more, data_file_len)
                == match crate::recovery::hint_records(more, data_file_len) {
                Ok(rest) => Ok::<Seq<HintView>, HintProblem>(hints + rest),
                Err(problem) => Err(problem),
            },
            Err(problem) => problem is OutOfBounds ==> crate::recovery::hint_records(
                first + more,
                data_file_len,
            ) == Err::<Seq<HintView>, HintProblem>(problem),
        }),
    decreases first.len(),
{
    match crate::format::hint::parse_hint(first) {
        None => {
            assert(first + more =~= more);
            if let Ok(rest) = crate::recovery::hint_records(more, data_file_len) {
                assert(Seq::<HintView>::empty() + rest =~= rest);
            }
        },
        Some(HintReadView::Truncated) => {},
        Some(HintReadView::Complete(hint)) => {
            let len = crate::format::hint::hint_read_len(first) as int;
            crate::merge::compaction::lemma_parse_hint_extend(first, more);
            assert((first + more).skip(len) =~= first.skip(len) + more);
            lemma_records_concat(first.skip(len), more, data_file_len);
            if let Ok(hints) = crate::recovery::hint_records(first.skip(len), data_file_len) {
                if let Ok(rest) = crate::recovery::hint_records(more, data_file_len) {
                    assert(seq![hint] + (hints + rest) =~= (seq![hint] + hints) + rest);
                }
            }
        },
    }
}

/// Whether the value that a hint record points to ends past the end of its data file, where an end
/// past the last offset there is counts as that.
pub open spec fn points_past(record: Seq<u8>, data_file_len: u64) -> bool {
    let end = eight_bytes(record, 12) + four_bytes(record, 8);
    end > data_file_len && data_file_len < u64::MAX
}

/// An index after a hint record.
pub open spec fn with_record(keydir: KeydirView, file_id: u32, record: Seq<u8>) -> KeydirView {
    if four_bytes(record, 4) >= 0x8000_0000 {
        keydir.remove(record.skip(20))
    } else {
        keydir.insert(
            record.skip(20),
            KeydirEntry {
                file_id,
                value_size: four_bytes(record, 8) as u32,
                value_pos: eight_bytes(record, 12) as u64,
                timestamp: four_bytes(record, 0) as u32,
            },
        )
    }
}

/// Whether a block of bytes is as long as a hint record with its header is to be.
pub open spec fn is_whole_hint(block: Seq<u8>) -> bool {
    block.len() >= 20 && block.len() == 20 + key_len_at(block, 4)
}

/// One more record at the end of a hint file that is good. A whole record that points into the data
/// file is put into the index, on top of all before it, or takes its key out. One that points past
/// its end, or one that is cut off, makes the hint file one that is not trusted, so that nothing of
/// it is put into the index.
pub proof fn law_a_hint_file_is_taken_record_by_record(
    first: &[u8],
    content: Seq<u8>,
    file_id: u32,
    data_file_len: u64,
    begun: &mut Keydir,
    whole: &[u8],
    block: Seq<u8>,
    keydir: &mut Keydir,
    outcome: Result<(), HintProblem>,
)
    requires
        is_hint_file(first@, content),
        call_ensures(
            crate::recovery::try_scan_hint_file,
            (first, file_id, data_file_len, begun),
            Ok(()),
        ),
        is_hint_file(whole@, content + block),
        old(keydir)@ == old(begun)@,
        call_ensures(
            crate::recovery::try_scan_hint_file,
            (whole, file_id, data_file_len, keydir),
            outcome,
        ),
    ensures
        block.len() == 0 ==> outcome is Ok && final(keydir)@ == final(begun)@,
        is_cut_hint(block) ==> outcome == Err::<(), HintProblem>(HintProblem::Truncated)
            && final(keydir)@ == old(keydir)@,
        is_whole_hint(block) && points_past(block, data_file_len) ==> outcome == Err::<
            (),
            HintProblem,
        >(
            HintProblem::OutOfBounds {
                value_pos: eight_bytes(block, 12) as u64,
                value_size: four_bytes(block, 8) as u32,
                data_file_len,
            },
        ) && final(keydir)@ == old(keydir)@,
        is_whole_hint(block) && !points_past(block, data_file_len) ==> outcome is Ok
            && final(keydir)@ == with_record(final(begun)@, file_id, block),
{
    lemma_hint_file(first@);
    lemma_hint_file(whole@);
    lemma_records_concat(content, block, data_file_len);
    let none = Seq::<u8>::empty();
    let hints = crate::recovery::hint_records(content, data_file_len)->Ok_0;
    let events = crate::recovery::hint_events(file_id, hints);
    if block.len() == 0 {
        assert(content + block =~= content);
    }
    if is_whole_hint(block) && !points_past(block, data_file_len) {
        let hint = HintView {
            header: crate::format::hint::hint_header_of(block),
            value_pos: crate::format::u64_at(block, 12),
            key: block.subrange(20, block.len() as int),
        };
        assert(block.skip(block.len() as int) =~= none);
        assert(hint.key =~= block.skip(20));
        assert(crate::recovery::hint_records(none, data_file_len) == Ok::<
            Seq<HintView>,
            HintProblem,
        >(Seq::empty()));
        assert(seq![hint] + Seq::<HintView>::empty() =~= seq![hint]);
        let event = crate::recovery::hint_event(file_id, hint);
        let all = crate::recovery::hint_events(file_id, hints + seq![hint]);
        assert(all =~= events.push(event));
        assert(all.drop_last() =~= events);
    }
}

/// A hint file with a record that points past the end of the data file stays one that is not
/// trusted, for the same reason, whatever records follow.
pub proof fn law_a_bad_record_stays_bad(
    first: &[u8],
    content: Seq<u8>,
    file_id: u32,
    data_file_len: u64,
    begun: &mut Keydir,
    problem: HintProblem,
    whole: &[u8],
    more: Seq<u8>,
    keydir: &mut Keydir,
    outcome: Result<(), HintProblem>,
)
    requires
        is_hint_file(first@, content),
        call_ensures(
            crate::recovery::try_scan_hint_file,
            (first, file_id, data_file_len, begun),
            Err(problem),
        ),
        problem is OutOfBounds,
        is_hint_file(whole@, content + more),
        call_ensures(
            crate::recovery::try_scan_hint_file,
            (whole, file_id, data_file_len, keydir),
            outcome,
        ),
    ensures
        outcome == Err::<(), HintProblem>(problem),
        final(keydir)@ == old(keydir)@,
{
    lemma_hint_file(first@);
    lemma_hint_file(whole@);
    lemma_records_concat(content, more, data_file_len);
}

/// Recovery takes from a hint file only if that ends with the CRC32 of its records. Once one byte
/// of it is changed, whichever, it takes from the data file, as if there were no hint file.
pub proof fn law_a_damaged_hint_file_is_passed_over(
    bytes: Seq<u8>,
    data_file_len: u64,
    at: int,
    byte: u8,
    file_id: u32,
    data: Seq<u8>,
)
    requires
        crate::recovery::trusted_hints(Some((bytes, data_file_len))) is Some,
        0 <= at < bytes.len(),
        byte != bytes[at],
    ensures
        exists|content: Seq<u8>| is_hint_file(bytes, content),
        !(exists|content: Seq<u8>| is_hint_file(bytes.update(at, byte), content)),
        crate::recovery::trusted_hints(Some((bytes.update(at, byte), data_file_len))) is None,
        crate::recovery::image_events(
            FileImage { file_id, hint: Some((bytes.update(at, byte), data_file_len)), data },
        ) == crate::recovery::image_events(FileImage { file_id, hint: None, data }),
{
    lemma_hint_file(bytes);
    lemma_hint_file(bytes.update(at, byte));
    crate::format::hint::law_a_changed_byte_in_a_hint_file_is_detected(bytes, at, byte);
}

/// Whether the readers give just this of a file.
pub open spec fn reads_file<
    H: Fn(u32) -> Result<Option<(Vec<u8>, u64)>, std::io::Error>,
    D: Fn(u32) -> Result<Vec<u8>, std::io::Error>,
>(
    read_hint_file: H,
    read_data_file: D,
    file_id: u32,
    hint: Option<(Seq<u8>, u64)>,
    data: Seq<u8>,
) -> bool {
    &&& forall|given: Option<(Vec<u8>, u64)>| #[trigger]
        call_ensures(read_hint_file, (file_id,), Ok(given)) ==> match given {
            Some((bytes, len)) => hint == Some((bytes@, len)),
            None => hint is None,
        }
    &&& forall|given: Vec<u8>| #[trigger]
        call_ensures(read_data_file, (file_id,), Ok(given)) ==> given@ == data
}

/// The warnings about a data file.
pub open spec fn data_warnings_of(file_id: u32, issues: Seq<ScanIssue>) -> Seq<RecoveryWarning> {
    Seq::new(issues.len(), |i: int| RecoveryWarning::Data { file_id, issue: issues[i] })
}

proof fn lemma_one_file<
    H: Fn(u32) -> Result<Option<(Vec<u8>, u64)>, std::io::Error>,
    D: Fn(u32) -> Result<Vec<u8>, std::io::Error>,
>(
    read_hint_file: H,
    read_data_file: D,
    image: FileImage,
    hint: Option<(Seq<u8>, u64)>,
    data: Seq<u8>,
)
    requires
        crate::recovery::was_read(read_hint_file, read_data_file, image),
        reads_file(read_hint_file, read_data_file, image.file_id, hint, data),
    ensures
        image.hint == hint,
        crate::recovery::trusted_hints(hint) is None ==> image.data == data,
{
    let given = choose|given: Option<(Vec<u8>, u64)>| #[trigger]
        crate::recovery::hint_was_read(read_hint_file, image.file_id, given)
            && crate::recovery::hint_view(given) == image.hint;
    assert(call_ensures(read_hint_file, (image.file_id,), Ok(given)));
    if crate::recovery::trusted_hints(image.hint) is None {
        let bytes = choose|bytes: Vec<u8>| #[trigger]
            crate::recovery::data_was_read(read_data_file, image.file_id, bytes) && bytes@
                == image.data;
        assert(call_ensures(read_data_file, (image.file_id,), Ok(bytes)));
    }
}

/// Recovery of one file. If it has a hint file that is trusted, the index is what that makes of it,
/// and there is no warning. Else it is what a scan of the data file makes of it, and there are the
/// warnings about the hint file, if there is one, and about the data file.
pub proof fn law_a_file_is_recovered_from_its_hints_or_its_data<
    H: Fn(u32) -> Result<Option<(Vec<u8>, u64)>, std::io::Error>,
    D: Fn(u32) -> Result<Vec<u8>, std::io::Error>,
>(
    file_ids: &[u32],
    read_hint_file: H,
    read_data_file: D,
    keydir: &mut Keydir,
    warnings: &mut Vec<RecoveryWarning>,
    data: &[u8],
    scanned: &mut Keydir,
    issues: Vec<ScanIssue>,
    hint: Option<(&[u8], u64)>,
    hinted: &mut Keydir,
    trusted: Result<(), HintProblem>,
)
    requires
        file_ids@.len() == 1,
        reads_file(
            read_hint_file,
            read_data_file,
            file_ids@[0],
            match hint {
                Some((bytes, len)) => Some((bytes@, len)),
                None => None,
            },
            data@,
        ),
        call_ensures(
            crate::recovery::recover::<H, D>,
            (file_ids, read_hint_file, read_data_file, keydir, warnings),
            Ok(()),
        ),
        old(scanned)@ == old(keydir)@,
        call_ensures(
            crate::recovery::scan_data_file,
            (data, file_ids@[0], true, scanned),
            issues,
        ),
        old(hinted)@ == old(keydir)@,
        hint is Some ==> call_ensures(
            crate::recovery::try_scan_hint_file,
            ((hint->0).0, file_ids@[0], (hint->0).1, hinted),
            trusted,
        ),
    ensures
        hint is Some && trusted is Ok ==> final(keydir)@ == final(hinted)@ && final(warnings)@
            == old(warnings)@,
        hint is None ==> final(keydir)@ == final(scanned)@ && final(warnings)@ == old(warnings)@
            + data_warnings_of(file_ids@[0], issues@),
        hint is Some && trusted is Err ==> final(keydir)@ == final(scanned)@ && final(warnings)@
            == old(warnings)@.push(
            RecoveryWarning::Hint { file_id: file_ids@[0], problem: trusted->Err_0 },
        ) + data_warnings_of(file_ids@[0], issues@),
{
    let file_id = file_ids@[0];
    let seen = match hint {
        Some((bytes, len)) => Some((bytes@, len)),
        None => None,
    };
    let disk = choose|disk: Seq<FileImage>| #[trigger]
        crate::recovery::all_read(read_hint_file, read_data_file, file_ids@, disk) && disk.len()
            == file_ids@.len() && final(keydir)@ == crate::recovery::apply_events(
            old(keydir)@,
            crate::recovery::disk_events(disk),
        ) && final(warnings)@ == old(warnings)@ + crate::recovery::disk_warnings(
            disk,
            file_ids@.len(),
        );
    let image = disk[0];
    assert(image.file_id == file_id);
    lemma_one_file(read_hint_file, read_data_file, image, seen, data@);
    assert(disk.drop_last() =~= Seq::empty());
    assert(crate::recovery::disk_events(disk.drop_last()) =~= Seq::empty());
    assert(crate::recovery::disk_events(disk) =~= crate::recovery::image_events(image));
    assert(crate::recovery::disk_warnings(disk.drop_last(), 1) =~= Seq::empty());
    assert(crate::recovery::disk_warnings(disk, 1) =~= crate::recovery::image_warnings(
        image,
        true,
    ));
    assert(crate::recovery::data_warnings(file_id, issues@) =~= data_warnings_of(
        file_id,
        issues@,
    ));
    assert(old(warnings)@ + Seq::empty() =~= old(warnings)@);
    if hint is Some && trusted is Err {
        let told = RecoveryWarning::Hint { file_id, problem: trusted->Err_0 };
        assert(old(warnings)@ + (seq![told] + data_warnings_of(file_id, issues@)) =~= old(
            warnings,
        )@.push(told) + data_warnings_of(file_id, issues@));
    }
    if hint is None {
        let data_told = data_warnings_of(file_id, issues@);
        assert(Seq::<RecoveryWarning>::empty() + data_told =~= data_told);
    }
}

proof fn lemma_same_events<
    H: Fn(u32) -> Result<Option<(Vec<u8>, u64)>, std::io::Error>,
    D: Fn(u32) -> Result<Vec<u8>, std::io::Error>,
>(
    read_hint_file: H,
    read_data_file: D,
    file_ids: Seq<u32>,
    hints: Seq<Option<(Seq<u8>, u64)>>,
    data: Seq<Seq<u8>>,
    first: Seq<FileImage>,
    second: Seq<FileImage>,
    n: int,
)
    requires
        0 <= n <= first.len(),
        n <= second.len(),
        crate::recovery::all_read(read_hint_file, read_data_file, file_ids, first),
        forall|i: int|
            0 <= i < second.len() ==> (#[trigger] second[i]).file_id == file_ids[i]
                && crate::recovery::was_read(read_hint_file, read_data_file, second[i]),
        hints.len() == file_ids.len(),
        data.len() == file_ids.len(),
        forall|i: int|
            0 <= i < file_ids.len() ==> reads_file(
                read_hint_file,
                read_data_file,
                #[trigger] file_ids[i],
                hints[i],
                data[i],
            ),
    ensures
        crate::recovery::disk_events(first.take(n)) == crate::recovery::disk_events(
            second.take(n),
        ),
    decreases n,
{
    if n > 0 {
        let i = n - 1;
        lemma_same_events(
            read_hint_file,
            read_data_file,
            file_ids,
            hints,
            data,
            first,
            second,
            i,
        );
        assert(first.take(n).drop_last() =~= first.take(i));
        assert(second.take(n).drop_last() =~= second.take(i));
        assert(first[i].file_id == file_ids[i]);
        assert(second[i].file_id == file_ids[i]);
        lemma_one_file(read_hint_file, read_data_file, first[i], hints[i], data[i]);
        lemma_one_file(read_hint_file, read_data_file, second[i], hints[i], data[i]);
    } else {
        assert(first.take(0) =~= second.take(0));
    }
}

/// Recovery of no file changes nothing.
pub proof fn law_no_files_say_nothing<
    H: Fn(u32) -> Result<Option<(Vec<u8>, u64)>, std::io::Error>,
    D: Fn(u32) -> Result<Vec<u8>, std::io::Error>,
>(
    file_ids: &[u32],
    read_hint_file: H,
    read_data_file: D,
    keydir: &mut Keydir,
    warnings: &mut Vec<RecoveryWarning>,
    outcome: Result<(), std::io::Error>,
)
    requires
        file_ids@.len() == 0,
        call_ensures(
            crate::recovery::recover::<H, D>,
            (file_ids, read_hint_file, read_data_file, keydir, warnings),
            outcome,
        ),
    ensures
        outcome is Ok,
        final(keydir)@ == old(keydir)@,
        final(warnings)@ == old(warnings)@,
{
    if outcome is Ok {
        let disk = choose|disk: Seq<FileImage>| #[trigger]
            crate::recovery::all_read(read_hint_file, read_data_file, file_ids@, disk)
                && disk.len() == file_ids@.len() && final(keydir)@ == crate::recovery::apply_events(
                old(keydir)@,
                crate::recovery::disk_events(disk),
            ) && final(warnings)@ == old(warnings)@ + crate::recovery::disk_warnings(
                disk,
                file_ids@.len(),
            );
        assert(old(warnings)@ + Seq::empty() =~= old(warnings)@);
    }
}

/// Recovery goes file by file: that of some files and then of others is that of all of them, so a
/// later file overrides an earlier one.
pub proof fn law_recovery_goes_file_by_file<
    H: Fn(u32) -> Result<Option<(Vec<u8>, u64)>, std::io::Error>,
    D: Fn(u32) -> Result<Vec<u8>, std::io::Error>,
>(
    all: &[u32],
    first: &[u32],
    second: &[u32],
    hints: Seq<Option<(Seq<u8>, u64)>>,
    data: Seq<Seq<u8>>,
    read_hint_file: H,
    read_data_file: D,
    keydir: &mut Keydir,
    warnings: &mut Vec<RecoveryWarning>,
    begun: &mut Keydir,
    some_warnings: &mut Vec<RecoveryWarning>,
    ended: &mut Keydir,
    other_warnings: &mut Vec<RecoveryWarning>,
)
    requires
        all@ == first@ + second@,
        hints.len() == all@.len(),
        data.len() == all@.len(),
        forall|i: int|
            0 <= i < all@.len() ==> reads_file(
                read_hint_file,
                read_data_file,
                #[trigger] all@[i],
                hints[i],
                data[i],
            ),
        call_ensures(
            crate::recovery::recover::<H, D>,
            (all, read_hint_file, read_data_file, keydir, warnings),
            Ok(()),
        ),
        old(begun)@ == old(keydir)@,
        call_ensures(
            crate::recovery::recover::<H, D>,
            (first, read_hint_file, read_data_file, begun, some_warnings),
            Ok(()),
        ),
        old(ended)@ == final(begun)@,
        call_ensures(
            crate::recovery::recover::<H, D>,
            (second, read_hint_file, read_data_file, ended, other_warnings),
            Ok(()),
        ),
    ensures
        final(keydir)@ == final(ended)@,
{
    let whole = choose|disk: Seq<FileImage>| #[trigger]
        crate::recovery::all_read(read_hint_file, read_data_file, all@, disk) && disk.len()
            == all@.len() && final(keydir)@ == crate::recovery::apply_events(
            old(keydir)@,
            crate::recovery::disk_events(disk),
        );
    let one = choose|disk: Seq<FileImage>| #[trigger]
        crate::recovery::all_read(read_hint_file, read_data_file, first@, disk) && disk.len()
            == first@.len() && final(begun)@ == crate::recovery::apply_events(
            old(begun)@,
            crate::recovery::disk_events(disk),
        );
    let two = choose|disk: Seq<FileImage>| #[trigger]
        crate::recovery::all_read(read_hint_file, read_data_file, second@, disk) && disk.len()
            == second@.len() && final(ended)@ == crate::recovery::apply_events(
            old(ended)@,
            crate::recovery::disk_events(disk),
        );
    let both = one + two;
    let n = all@.len() as int;
    assert forall|i: int| 0 <= i < both.len() implies (#[trigger] both[i]).file_id == all@[i]
        && crate::recovery::was_read(read_hint_file, read_data_file, both[i]) by {
        if i < one.len() {
            assert(both[i] == one[i]);
        } else {
            assert(both[i] == two[i - one.len()]);
        }
    }
    lemma_same_events(read_hint_file, read_data_file, all@, hints, data, whole, both, n);
    assert(whole.take(n) =~= whole);
    assert(both.take(n) =~= both);
    lemma_disk_events_concat(one, two);
    crate::recovery::lemma_apply_concat(
        old(keydir)@,
        crate::recovery::disk_events(one),
        crate::recovery::disk_events(two),
    );
}

proof fn lemma_disk_events_concat(first: Seq<FileImage>, second: Seq<FileImage>)
    ensures
        crate::recovery::disk_events(first + second) == crate::recovery::disk_events(first)
            + crate::recovery::disk_events(second),
    decreases second.len(),
{
    if second.len() == 0 {
        assert(first + second =~= first);
        assert(crate::recovery::disk_events(first) + Seq::<KeyEvent>::empty()
            =~= crate::recovery::disk_events(first));
    } else {
        lemma_disk_events_concat(first, second.drop_last());
        assert((first + second).drop_last() =~= first + second.drop_last());
        let a = crate::recovery::disk_events(first);
        let b = crate::recovery::disk_events(second.drop_last());
        let c = crate::recovery::image_events(second.last());
        assert(a + b + c =~= a + (b + c));
    }
}

/// Recovery fails only if a file cannot be read, and with the error of that.
pub proof fn law_recovery_fails_with_a_read<
    H: Fn(u32) -> Result<Option<(Vec<u8>, u64)>, std::io::Error>,
    D: Fn(u32) -> Result<Vec<u8>, std::io::Error>,
>(
    file_ids: &[u32],
    read_hint_file: H,
    read_data_file: D,
    keydir: &mut Keydir,
    warnings: &mut Vec<RecoveryWarning>,
    error: std::io::Error,
)
    requires
        call_ensures(
            crate::recovery::recover::<H, D>,
            (file_ids, read_hint_file, read_data_file, keydir, warnings),
            Err(error),
        ),
    ensures
        exists|i: int|
            0 <= i < file_ids@.len() && (call_ensures(
                read_hint_file,
                (#[trigger] file_ids@[i],),
                Err(error),
            ) || call_ensures(read_data_file, (file_ids@[i],), Err(error))),
        file_ids@.len() == 1 ==> final(keydir)@ == old(keydir)@,
{
    let disk = choose|disk: Seq<FileImage>| #[trigger]
        crate::recovery::all_read(read_hint_file, read_data_file, file_ids@, disk)
            && final(keydir)@ == crate::recovery::apply_events(
            old(keydir)@,
            crate::recovery::disk_events(disk),
        ) && crate::recovery::failed_after(
            read_hint_file,
            read_data_file,
            file_ids@,
            disk,
            error,
            old(warnings)@,
            final(warnings)@,
        );
    let i = disk.len() as int;
    assert(0 <= i < file_ids@.len());
    let file_id = file_ids@[i];
    if file_ids@.len() == 1 {
        assert(disk =~= Seq::empty());
    }
}

proof fn lemma_warnings_split(first: FileImage, rest: Seq<FileImage>, count: nat)
    requires
        rest.len() <= count,
        count > 0,
    ensures
        crate::recovery::disk_warnings(seq![first] + rest, count + 1)
            == crate::recovery::image_warnings(first, false) + crate::recovery::disk_warnings(
            rest,
            count,
        ),
    decreases rest.len(),
{
    let all = seq![first] + rest;
    let told = crate::recovery::image_warnings(first, false);
    if rest.len() == 0 {
        assert(all.drop_last() =~= Seq::empty());
        assert(all.last() == first);
        assert(crate::recovery::disk_warnings(all.drop_last(), count + 1) =~= Seq::empty());
        assert(Seq::<RecoveryWarning>::empty() + told =~= told);
        assert(told + Seq::<RecoveryWarning>::empty() =~= told);
    } else {
        lemma_warnings_split(first, rest.drop_last(), count);
        assert(all.drop_last() =~= seq![first] + rest.drop_last());
        let a = crate::recovery::disk_warnings(rest.drop_last(), count);
        let b = crate::recovery::image_warnings(rest.last(), rest.len() == count);
        assert(told + a + b =~= told + (a + b));
    }
}

proof fn lemma_same_warnings<
    H: Fn(u32) -> Result<Option<(Vec<u8>, u64)>, std::io::Error>,
    D: Fn(u32) -> Result<Vec<u8>, std::io::Error>,
>(
    read_hint_file: H,
    read_data_file: D,
    file_ids: Seq<u32>,
    hints: Seq<Option<(Seq<u8>, u64)>>,
    data: Seq<Seq<u8>>,
    first: Seq<FileImage>,
    second: Seq<FileImage>,
    count: nat,
    n: int,
)
    requires
        0 <= n <= first.len(),
        n <= second.len(),
        first.len() <= file_ids.len(),
        forall|i: int|
            0 <= i < first.len() ==> (#[trigger] first[i]).file_id == file_ids[i]
                && crate::recovery::was_read(read_hint_file, read_data_file, first[i]),
        forall|i: int|
            0 <= i < second.len() ==> (#[trigger] second[i]).file_id == file_ids[i]
                && crate::recovery::was_read(read_hint_file, read_data_file, second[i]),
        hints.len() == file_ids.len(),
        data.len() == file_ids.len(),
        forall|i: int|
            0 <= i < file_ids.len() ==> reads_file(
                read_hint_file,
                read_data_file,
                #[trigger] file_ids[i],
                hints[i],
                data[i],
            ),
    ensures
        crate::recovery::disk_warnings(first.take(n), count) == crate::recovery::disk_warnings(
            second.take(n),
            count,
        ),
    decreases n,
{
    if n > 0 {
        let i = n - 1;
        lemma_same_warnings(
            read_hint_file,
            read_data_file,
            file_ids,
            hints,
            data,
            first,
            second,
            count,
            i,
        );
        assert(first.take(n).drop_last() =~= first.take(i));
        assert(second.take(n).drop_last() =~= second.take(i));
        assert(first[i].file_id == file_ids[i]);
        assert(second[i].file_id == file_ids[i]);
        lemma_one_file(read_hint_file, read_data_file, first[i], hints[i], data[i]);
        lemma_one_file(read_hint_file, read_data_file, second[i], hints[i], data[i]);
    } else {
        assert(first.take(0) =~= second.take(0));
    }
}

/// The warnings of a recovery come file by file. Before those of all other files come those about
/// the first one, in which an end that is cut off is told of, since it is not the last.
pub proof fn law_warnings_come_file_by_file<
    H: Fn(u32) -> Result<Option<(Vec<u8>, u64)>, std::io::Error>,
    D: Fn(u32) -> Result<Vec<u8>, std::io::Error>,
>(
    all: &[u32],
    file_id: u32,
    others: &[u32],
    hints: Seq<Option<(Seq<u8>, u64)>>,
    data: Seq<Seq<u8>>,
    read_hint_file: H,
    read_data_file: D,
    keydir: &mut Keydir,
    warnings: &mut Vec<RecoveryWarning>,
    ended: &mut Keydir,
    other_warnings: &mut Vec<RecoveryWarning>,
    first_data: &[u8],
    scanned: &mut Keydir,
    issues: Vec<ScanIssue>,
    first_hint: &[u8],
    hinted: &mut Keydir,
    trusted: Result<(), HintProblem>,
)
    requires
        all@ == seq![file_id] + others@,
        others@.len() > 0,
        hints.len() == all@.len(),
        data.len() == all@.len(),
        forall|i: int|
            0 <= i < all@.len() ==> reads_file(
                read_hint_file,
                read_data_file,
                #[trigger] all@[i],
                hints[i],
                data[i],
            ),
        call_ensures(
            crate::recovery::recover::<H, D>,
            (all, read_hint_file, read_data_file, keydir, warnings),
            Ok(()),
        ),
        call_ensures(
            crate::recovery::recover::<H, D>,
            (others, read_hint_file, read_data_file, ended, other_warnings),
            Ok(()),
        ),
        old(other_warnings)@.len() == 0,
        first_data@ == data[0],
        call_ensures(
            crate::recovery::scan_data_file,
            (first_data, file_id, false, scanned),
            issues,
        ),
        hints[0] is Some ==> first_hint@ == (hints[0]->0).0 && call_ensures(
            crate::recovery::try_scan_hint_file,
            (first_hint, file_id, (hints[0]->0).1, hinted),
            trusted,
        ),
    ensures
        final(warnings)@ == old(warnings)@ + (match hints[0] {
            None => data_warnings_of(file_id, issues@),
            Some(_) => match trusted {
                Ok(_) => Seq::<RecoveryWarning>::empty(),
                Err(problem) => seq![RecoveryWarning::Hint { file_id, problem }]
                    + data_warnings_of(file_id, issues@),
            },
        }) + final(other_warnings)@,
{
    let n = all@.len();
    let whole = choose|disk: Seq<FileImage>| #[trigger]
        crate::recovery::all_read(read_hint_file, read_data_file, all@, disk) && disk.len()
            == all@.len() && final(warnings)@ == old(warnings)@ + crate::recovery::disk_warnings(
            disk,
            all@.len(),
        );
    let rest = choose|disk: Seq<FileImage>| #[trigger]
        crate::recovery::all_read(read_hint_file, read_data_file, others@, disk) && disk.len()
            == others@.len() && final(other_warnings)@ == old(other_warnings)@
            + crate::recovery::disk_warnings(disk, others@.len());
    let both = seq![whole[0]] + rest;
    assert(all@[0] == file_id);
    assert forall|i: int| 0 <= i < both.len() implies (#[trigger] both[i]).file_id == all@[i]
        && crate::recovery::was_read(read_hint_file, read_data_file, both[i]) by {
        if i == 0 {
            assert(both[0] == whole[0]);
        } else {
            assert(both[i] == rest[i - 1]);
        }
    }
    lemma_same_warnings(
        read_hint_file,
        read_data_file,
        all@,
        hints,
        data,
        whole,
        both,
        n,
        n as int,
    );
    assert(whole.take(n as int) =~= whole);
    assert(both.take(n as int) =~= both);
    lemma_warnings_split(whole[0], rest, others@.len());
    assert(whole[0].file_id == file_id);
    lemma_one_file(read_hint_file, read_data_file, whole[0], hints[0], data[0]);
    let told = crate::recovery::image_warnings(whole[0], false);
    let more = crate::recovery::disk_warnings(rest, others@.len());
    assert(final(other_warnings)@ =~= more);
    assert(crate::recovery::data_warnings(file_id, issues@) =~= data_warnings_of(
        file_id,
        issues@,
    ));
    if hints[0] is None {
        assert(told =~= data_warnings_of(file_id, issues@));
    }
    assert(old(warnings)@ + (told + more) =~= old(warnings)@ + told + more);
}

/// Recovery that comes to a file whose hint file cannot be read stops there, with the index that
/// the files before it make.
pub proof fn law_recovery_stops_where_it_cannot_read<
    H: Fn(u32) -> Result<Option<(Vec<u8>, u64)>, std::io::Error>,
    D: Fn(u32) -> Result<Vec<u8>, std::io::Error>,
>(
    all: &[u32],
    first: &[u32],
    hints: Seq<Option<(Seq<u8>, u64)>>,
    data: Seq<Seq<u8>>,
    read_hint_file: H,
    read_data_file: D,
    keydir: &mut Keydir,
    warnings: &mut Vec<RecoveryWarning>,
    outcome: Result<(), std::io::Error>,
    begun: &mut Keydir,
    some_warnings: &mut Vec<RecoveryWarning>,
)
    requires
        first@.len() < all@.len(),
        all@.take(first@.len() as int) == first@,
        hints.len() == first@.len(),
        data.len() == first@.len(),
        forall|i: int|
            0 <= i < first@.len() ==> reads_file(
                read_hint_file,
                read_data_file,
                #[trigger] first@[i],
                hints[i],
                data[i],
            ),
        forall|i: int, given: Result<Option<(Vec<u8>, u64)>, std::io::Error>|
            0 <= i < first@.len() && #[trigger] call_ensures(read_hint_file, (first@[i],), given)
                ==> given is Ok,
        forall|i: int, given: Result<Vec<u8>, std::io::Error>|
            0 <= i < first@.len() && #[trigger] call_ensures(read_data_file, (first@[i],), given)
                ==> given is Ok,
        forall|given: Result<Option<(Vec<u8>, u64)>, std::io::Error>| #[trigger]
            call_ensures(read_hint_file, (all@[first@.len() as int],), given) ==> given is Err,
        call_ensures(
            crate::recovery::recover::<H, D>,
            (all, read_hint_file, read_data_file, keydir, warnings),
            outcome,
        ),
        old(begun)@ == old(keydir)@,
        call_ensures(
            crate::recovery::recover::<H, D>,
            (first, read_hint_file, read_data_file, begun, some_warnings),
            Ok(()),
        ),
    ensures
        outcome is Err,
        final(keydir)@ == final(begun)@,
{
    let n = first@.len() as int;
    let disk = choose|disk: Seq<FileImage>| #[trigger]
        crate::recovery::all_read(read_hint_file, read_data_file, all@, disk) && final(keydir)@
            == crate::recovery::apply_events(old(keydir)@, crate::recovery::disk_events(disk)) && (
        outcome is Ok ==> disk.len() == all@.len()) && (outcome is Err
            ==> crate::recovery::failed_after(
            read_hint_file,
            read_data_file,
            all@,
            disk,
            outcome->Err_0,
            old(warnings)@,
            final(warnings)@,
        ));
    if disk.len() > n {
        assert(disk[n].file_id == all@[n]);
        let hint = choose|hint: Option<(Vec<u8>, u64)>| #[trigger]
            crate::recovery::hint_was_read(read_hint_file, disk[n].file_id, hint)
                && crate::recovery::hint_view(hint) == disk[n].hint;
        assert(call_ensures(
            read_hint_file,
            (all@[n],),
            Ok::<Option<(Vec<u8>, u64)>, std::io::Error>(hint),
        ));
        assert(false);
    }
    assert(outcome is Err);
    if disk.len() < n {
        let i = disk.len() as int;
        assert(all@.take(n)[i] == first@[i]);
        let e: Result<Option<(Vec<u8>, u64)>, std::io::Error> = Err(outcome->Err_0);
        assert(!call_ensures(read_hint_file, (first@[i],), e));
        assert(false);
    }
    let one = choose|one: Seq<FileImage>| #[trigger]
        crate::recovery::all_read(read_hint_file, read_data_file, first@, one) && one.len()
            == first@.len() && final(begun)@ == crate::recovery::apply_events(
            old(begun)@,
            crate::recovery::disk_events(one),
        );
    assert forall|i: int| 0 <= i < disk.len() implies (#[trigger] disk[i]).file_id == first@[i]
        && crate::recovery::was_read(read_hint_file, read_data_file, disk[i]) by {
        assert(all@.take(n)[i] == first@[i]);
    }
    lemma_same_events(read_hint_file, read_data_file, first@, hints, data, one, disk, n);
    assert(one.take(n) =~= one);
    assert(disk.take(n) =~= disk);
}

} // verus!
