//! Rebuilding the index from the files of a datastore.
//!
//! Files are taken in ascending order of their ids, and the entries of a file in ascending order
//! of their offsets. Every entry overwrites or removes what earlier ones left under its key, so
//! the last write wins.
use vstd::prelude::*;

use crate::format::{
    read_entry, read_hint, verify_hint_file, ByteReader, Entry, EntryHeader, EntryRead, HintRead,
    HEADER_SIZE,
};
use crate::format::entry::EntryView;
use crate::format::hint::{HintReadView, HintView};
use crate::keydir::{Keydir, KeydirEntry, KeydirView};
use crate::scan::ScanIssue;

verus! {

/// One change to the index: the new entry of a key, or `None` where the key is removed.
#[verifier::ext_equal]
pub struct KeyEvent {
    pub key: Seq<u8>,
    pub entry: Option<KeydirEntry>,
}

/// The index after one change.
pub open spec fn apply_event(contents: KeydirView, event: KeyEvent) -> KeydirView {
    match event.entry {
        Some(entry) => contents.insert(event.key, entry),
        None => contents.remove(event.key),
    }
}

/// The index after a run of changes, first to last.
pub open spec fn apply_events(contents: KeydirView, events: Seq<KeyEvent>) -> KeydirView
    decreases events.len(),
{
    if events.len() == 0 {
        contents
    } else {
        apply_event(apply_events(contents, events.drop_last()), events.last())
    }
}

/// Where the value of an entry at offset `pos` starts.
pub open spec fn value_pos_of(pos: nat, header: EntryHeader) -> u64 {
    (pos + HEADER_SIZE + header.key_size) as u64
}

/// The change that an entry at offset `pos` of a data file makes.
pub open spec fn entry_event(file_id: u32, pos: nat, entry: EntryView) -> KeyEvent {
    KeyEvent {
        key: entry.key,
        entry: if entry.header.tombstone {
            None
        } else {
            Some(
                KeydirEntry {
                    file_id,
                    value_size: entry.header.value_size,
                    value_pos: value_pos_of(pos, entry.header),
                    timestamp: entry.header.timestamp,
                },
            )
        },
    }
}

/// The changes that a run of entries makes.
pub open spec fn entry_events(file_id: u32, entries: Seq<(nat, EntryView)>) -> Seq<KeyEvent> {
    entries.map_values(|e: (nat, EntryView)| entry_event(file_id, e.0, e.1))
}

/// Applies one entry to the index.
fn apply_entry(keydir: &mut Keydir, file_id: u32, entry_start_pos: u64, entry: Entry)
    requires
        entry_start_pos + HEADER_SIZE + entry.header.key_size <= u64::MAX,
    ensures
        final(keydir)@ == apply_event(
            old(keydir)@,
            entry_event(file_id, entry_start_pos as nat, entry@),
        ),
{
    let value_pos: u64 = entry_start_pos + HEADER_SIZE as u64 + entry.header.key_size as u64;
    if entry.header.tombstone {
        keydir.remove(entry.key.as_slice());
    } else {
        keydir.insert(
            entry.key.as_slice(),
            KeydirEntry {
                file_id,
                value_size: entry.header.value_size,
                value_pos,
                timestamp: entry.header.timestamp,
            },
        );
    }
}

/// Scans a whole data file and applies every good entry. Gives back what was found wrong.
pub fn scan_data_file(bytes: &[u8], file_id: u32, is_last: bool, keydir: &mut Keydir) -> (issues:
    Vec<ScanIssue>)
    ensures
        final(keydir)@ == apply_events(
            old(keydir)@,
            entry_events(file_id, crate::scan::scan_entries(bytes@, 0)),
        ),
        issues@ == crate::scan::scan_issues(bytes@, 0, is_last),
{
    let mut r = ByteReader::new(bytes);
    let mut pos: u64 = 0;
    let mut issues: Vec<ScanIssue> = Vec::new();
    let ghost mut done: Seq<(nat, EntryView)> = Seq::empty();
    let len: usize = bytes.len();
    assert(entry_events(file_id, done) =~= Seq::empty());
    assert(done + crate::scan::scan_entries(bytes@, 0) =~= crate::scan::scan_entries(bytes@, 0));
    assert(issues@ + crate::scan::scan_issues(bytes@, 0, is_last) =~= crate::scan::scan_issues(bytes@, 0, is_last));
    loop
        invariant
            pos + r.rest().len() == len,
            bytes@.len() == len,
            done + crate::scan::scan_entries(r.rest(), pos as nat) == crate::scan::scan_entries(bytes@, 0),
            issues@ + crate::scan::scan_issues(r.rest(), pos as nat, is_last) == crate::scan::scan_issues(bytes@, 0, is_last),
            keydir@ == apply_events(old(keydir)@, entry_events(file_id, done)),
        decreases r.rest().len(),
    {
        let ghost rest = r.rest();
        match read_entry(&mut r) {
            None => {
                assert(done =~= crate::scan::scan_entries(bytes@, 0));
                assert(issues@ =~= crate::scan::scan_issues(bytes@, 0, is_last));
                return issues;
            },
            Some(EntryRead::Truncated) => {
                assert(done =~= crate::scan::scan_entries(bytes@, 0));
                if !is_last {
                    issues.push(ScanIssue::Truncated { offset: pos });
                }
                assert(issues@ =~= crate::scan::scan_issues(bytes@, 0, is_last));
                return issues;
            },
            Some(EntryRead::Complete(entry, total_len)) => {
                proof {
                    let next = done.push((pos as nat, entry@));
                    assert(entry_events(file_id, next).drop_last() =~= entry_events(file_id, done));
                    assert(next + crate::scan::scan_entries(r.rest(), (pos + total_len) as nat) =~= done + (seq![
                        (pos as nat, entry@),
                    ] + crate::scan::scan_entries(r.rest(), (pos + total_len) as nat)));
                    done = next;
                }
                apply_entry(keydir, file_id, pos, entry);
                pos = pos + total_len;
            },
            Some(EntryRead::CrcMismatch { total_len }) => {
                let ghost before = issues@;
                issues.push(ScanIssue::Corrupt { offset: pos });
                proof {
                    let tail = crate::scan::scan_issues(r.rest(), (pos + total_len) as nat, is_last);
                    assert(issues@ + tail =~= before + (seq![ScanIssue::Corrupt { offset: pos }]
                        + tail));
                }
                pos = pos + total_len;
            },
        }
    }
}

/// Why a hint file is not trusted.
#[derive(Clone, Copy, Debug, PartialEq, Eq, Structural)]
pub enum HintProblem {
    /// It does not end with the checksum of its records.
    Checksum,
    /// A record is cut off.
    Truncated,
    /// A record points outside the data file.
    OutOfBounds { value_pos: u64, value_size: u32, data_file_len: u64 },
}

/// Whether a value at `value_pos` ends past the end of the data file.
pub open spec fn points_outside(value_pos: u64, value_size: u32, data_file_len: u64) -> bool {
    let end = value_pos + value_size;
    (if end > u64::MAX {
        u64::MAX as int
    } else {
        end
    }) > data_file_len
}

/// The records in `content`, if all of them are whole and point inside the data file; else the
/// first problem.
pub open spec fn hint_records(content: Seq<u8>, data_file_len: u64) -> Result<
    Seq<HintView>,
    HintProblem,
>
    decreases content.len(),
{
    match crate::format::hint::parse_hint(content) {
        None => Result::Ok(Seq::empty()),
        Some(HintReadView::Truncated) => Result::Err(HintProblem::Truncated),
        Some(HintReadView::Complete(hint)) => if points_outside(
            hint.value_pos,
            hint.header.value_size,
            data_file_len,
        ) {
            Result::Err(
                HintProblem::OutOfBounds {
                    value_pos: hint.value_pos,
                    value_size: hint.header.value_size,
                    data_file_len,
                },
            )
        } else {
            match hint_records(
                content.skip(crate::format::hint::hint_read_len(content) as int),
                data_file_len,
            ) {
                Result::Ok(rest) => Result::Ok(seq![hint] + rest),
                Result::Err(problem) => Result::Err(problem),
            }
        },
    }
}

/// The records of a whole hint file, or why it is not trusted.
pub open spec fn hint_file_records(bytes: Seq<u8>, data_file_len: u64) -> Result<
    Seq<HintView>,
    HintProblem,
> {
    match crate::format::hint::verified_content(bytes) {
        None => Result::Err(HintProblem::Checksum),
        Some(content) => hint_records(content, data_file_len),
    }
}

/// The change that a hint record makes.
pub open spec fn hint_event(file_id: u32, hint: HintView) -> KeyEvent {
    KeyEvent {
        key: hint.key,
        entry: if hint.header.tombstone {
            None
        } else {
            Some(
                KeydirEntry {
                    file_id,
                    value_size: hint.header.value_size,
                    value_pos: hint.value_pos,
                    timestamp: hint.header.timestamp,
                },
            )
        },
    }
}

/// The changes that a run of hint records makes.
pub open spec fn hint_events(file_id: u32, hints: Seq<HintView>) -> Seq<KeyEvent> {
    hints.map_values(|h: HintView| hint_event(file_id, h))
}

/// What the records that were read out of a hint file hold.
pub open spec fn records_view(records: Seq<(EntryHeader, u64, Vec<u8>)>) -> Seq<HintView> {
    records.map_values(
        |r: (EntryHeader, u64, Vec<u8>)| HintView { header: r.0, value_pos: r.1, key: r.2@ },
    )
}

/// Reads and checks every record of a hint file.
fn read_hint_records(bytes: &[u8], data_file_len: u64) -> (records: Result<
    Vec<(EntryHeader, u64, Vec<u8>)>,
    HintProblem,
>)
    ensures
        (match records {
            Ok(r) => Result::Ok(records_view(r@)),
            Err(problem) => Result::Err(problem),
        }) == hint_file_records(bytes@, data_file_len),
{
    let content = match verify_hint_file(bytes) {
        None => {
            return Err(HintProblem::Checksum);
        },
        Some(content) => content,
    };
    let mut records: Vec<(EntryHeader, u64, Vec<u8>)> = Vec::new();
    let mut r = ByteReader::new(content);
    let ghost whole = hint_records(content@, data_file_len);
    assert(match whole {
        Result::Ok(rest) => Result::Ok(records_view(records@) + rest),
        Result::Err(problem) => Result::Err(problem),
    } == whole) by {
        if let Result::Ok(rest) = whole {
            assert(records_view(records@) + rest =~= rest);
        }
    }
    loop
        invariant
            whole == hint_file_records(bytes@, data_file_len),
            (match hint_records(r.rest(), data_file_len) {
                Result::Ok(rest) => Result::Ok(records_view(records@) + rest),
                Result::Err(problem) => Result::Err(problem),
            }) == whole,
        decreases r.rest().len(),
    {
        let ghost rest = r.rest();
        match read_hint(&mut r) {
            None => {
                assert(records_view(records@) + Seq::<HintView>::empty() =~= records_view(records@));
                return Ok(records);
            },
            Some(HintRead::Truncated) => {
                return Err(HintProblem::Truncated);
            },
            Some(HintRead::Complete { header, value_pos, key }) => {
                let value_size = header.value_size;
                if value_pos.saturating_add(value_size as u64) > data_file_len {
                    return Err(HintProblem::OutOfBounds { value_pos, value_size, data_file_len });
                }
                let ghost before = records_view(records@);
                let ghost hint = HintView { header, value_pos, key: key@ };
                records.push((header, value_pos, key));
                proof {
                    assert(records_view(records@) =~= before.push(hint));
                    if let Result::Ok(tail) = hint_records(r.rest(), data_file_len) {
                        assert(before + (seq![hint] + tail) =~= before.push(hint) + tail);
                    }
                }
            },
        }
    }
}

/// Rebuilds the index of one file from its hint file. All records are checked before any is
/// applied: a hint file with a problem leaves the index as it was.
pub fn try_scan_hint_file(
    bytes: &[u8],
    file_id: u32,
    data_file_len: u64,
    keydir: &mut Keydir,
) -> (outcome: Result<(), HintProblem>)
    ensures
        (match hint_file_records(bytes@, data_file_len) {
            Result::Ok(hints) => outcome == Ok::<(), HintProblem>(()) && final(keydir)@
                == apply_events(old(keydir)@, hint_events(file_id, hints)),
            Result::Err(problem) => outcome == Err::<(), HintProblem>(problem) && final(keydir)@
                == old(keydir)@,
        }),
{
    let records = match read_hint_records(bytes, data_file_len) {
        Ok(records) => records,
        Err(problem) => {
            return Err(problem);
        },
    };
    let ghost hints = records_view(records@);
    let mut i: usize = 0;
    assert(hint_events(file_id, hints.take(0)) =~= Seq::empty());
    while i < records.len()
        invariant
            i <= records@.len(),
            hints == records_view(records@),
            keydir@ == apply_events(old(keydir)@, hint_events(file_id, hints.take(i as int))),
        decreases records@.len() - i,
    {
        let (header, value_pos, key) = &records[i];
        if header.tombstone {
            keydir.remove(key.as_slice());
        } else {
            keydir.insert(
                key.as_slice(),
                KeydirEntry {
                    file_id,
                    value_size: header.value_size,
                    value_pos: *value_pos,
                    timestamp: header.timestamp,
                },
            );
        }
        proof {
            let next = hint_events(file_id, hints.take(i + 1));
            assert(next.drop_last() =~= hint_events(file_id, hints.take(i as int)));
            assert(next.last() == hint_event(file_id, hints[i as int]));
        }
        i += 1;
    }
    assert(hints.take(i as int) =~= hints);
    Ok(())
}

/// What there is of one data file and its hint file.
#[verifier::ext_equal]
pub struct FileImage {
    pub file_id: u32,
    /// The bytes of the hint file, if there is one, and the length of the data file.
    pub hint: Option<(Seq<u8>, u64)>,
    /// The bytes of the data file.
    pub data: Seq<u8>,
}

/// The records of the hint file, where there is one and it is trusted.
pub open spec fn trusted_hints(hint: Option<(Seq<u8>, u64)>) -> Option<Seq<HintView>> {
    match hint {
        None => None,
        Some((bytes, data_file_len)) => match hint_file_records(bytes, data_file_len) {
            Result::Ok(hints) => Some(hints),
            Result::Err(_) => None,
        },
    }
}

/// The changes that one file makes: those of its hint file where that is trusted, else those of
/// its entries.
pub open spec fn image_events(image: FileImage) -> Seq<KeyEvent> {
    match trusted_hints(image.hint) {
        Some(hints) => hint_events(image.file_id, hints),
        None => entry_events(image.file_id, crate::scan::scan_entries(image.data, 0)),
    }
}

/// The changes that a run of files makes, first to last.
pub open spec fn disk_events(disk: Seq<FileImage>) -> Seq<KeyEvent>
    decreases disk.len(),
{
    if disk.len() == 0 {
        Seq::empty()
    } else {
        disk_events(disk.drop_last()) + image_events(disk.last())
    }
}

/// Something that recovery worked around, and in which file.
#[derive(Clone, Copy, Debug, PartialEq, Eq, Structural)]
pub enum RecoveryWarning {
    /// The hint file is not trusted, so the data file is scanned.
    Hint { file_id: u32, problem: HintProblem },
    /// Part of the data file is not usable.
    Data { file_id: u32, issue: ScanIssue },
}

/// The warning about a hint file that is there and not trusted.
pub open spec fn hint_warnings(file_id: u32, hint: Option<(Seq<u8>, u64)>) -> Seq<RecoveryWarning> {
    match hint {
        None => Seq::empty(),
        Some((bytes, data_file_len)) => match hint_file_records(bytes, data_file_len) {
            Result::Ok(_) => Seq::empty(),
            Result::Err(problem) => seq![RecoveryWarning::Hint { file_id, problem }],
        },
    }
}

/// The warnings about what is wrong in a data file.
pub open spec fn data_warnings(file_id: u32, issues: Seq<ScanIssue>) -> Seq<RecoveryWarning> {
    issues.map_values(|issue: ScanIssue| RecoveryWarning::Data { file_id, issue })
}

/// The warnings about one file.
pub open spec fn image_warnings(image: FileImage, is_last: bool) -> Seq<RecoveryWarning> {
    match trusted_hints(image.hint) {
        Some(_) => Seq::empty(),
        None => hint_warnings(image.file_id, image.hint) + data_warnings(
            image.file_id,
            crate::scan::scan_issues(image.data, 0, is_last),
        ),
    }
}

/// The warnings about the first files of a run of `count`.
pub open spec fn disk_warnings(disk: Seq<FileImage>, count: nat) -> Seq<RecoveryWarning>
    decreases disk.len(),
{
    if disk.len() == 0 {
        Seq::empty()
    } else {
        disk_warnings(disk.drop_last(), count) + image_warnings(disk.last(), disk.len() == count)
    }
}

/// What a hint file's bytes and the length beside them are.
pub open spec fn hint_view(hint: Option<(Vec<u8>, u64)>) -> Option<(Seq<u8>, u64)> {
    match hint {
        None => None,
        Some((bytes, data_file_len)) => Some((bytes@, data_file_len)),
    }
}

/// Whether `hint` is what the reader of hint files gave for the file.
pub open spec fn hint_was_read<H: Fn(u32) -> Result<Option<(Vec<u8>, u64)>, std::io::Error>>(
    read_hint_file: H,
    file_id: u32,
    hint: Option<(Vec<u8>, u64)>,
) -> bool {
    call_ensures(read_hint_file, (file_id,), Ok(hint))
}

/// Whether `data` is what the reader of data files gave for the file.
pub open spec fn data_was_read<D: Fn(u32) -> Result<Vec<u8>, std::io::Error>>(
    read_data_file: D,
    file_id: u32,
    data: Vec<u8>,
) -> bool {
    call_ensures(read_data_file, (file_id,), Ok(data))
}

/// Whether the two readers gave what `image` holds. The data file is read only where no hint
/// file is trusted.
pub open spec fn was_read<
    H: Fn(u32) -> Result<Option<(Vec<u8>, u64)>, std::io::Error>,
    D: Fn(u32) -> Result<Vec<u8>, std::io::Error>,
>(read_hint_file: H, read_data_file: D, image: FileImage) -> bool {
    &&& exists|hint: Option<(Vec<u8>, u64)>| #[trigger]
        hint_was_read(read_hint_file, image.file_id, hint) && hint_view(hint) == image.hint
    &&& trusted_hints(image.hint) is None ==> exists|data: Vec<u8>| #[trigger]
        data_was_read(read_data_file, image.file_id, data) && data@ == image.data
}

/// Whether reading a file failed with `error`, after `warnings` were given about it.
pub open spec fn read_failed<
    H: Fn(u32) -> Result<Option<(Vec<u8>, u64)>, std::io::Error>,
    D: Fn(u32) -> Result<Vec<u8>, std::io::Error>,
>(
    read_hint_file: H,
    read_data_file: D,
    file_id: u32,
    error: std::io::Error,
    warnings: Seq<RecoveryWarning>,
) -> bool {
    ||| call_ensures(read_hint_file, (file_id,), Err(error)) && warnings.len() == 0
    ||| call_ensures(read_data_file, (file_id,), Err(error)) && exists|
        hint: Option<(Vec<u8>, u64)>,
    | #[trigger]
        hint_was_read(read_hint_file, file_id, hint) && trusted_hints(hint_view(hint)) is None
            && warnings == hint_warnings(file_id, hint_view(hint))
}

/// Applies one file's hint file to the index, if there is one and it is trusted, and warns about
/// one that is not. Says whether it was applied.
fn recover_from_hint(
    file_id: u32,
    hint: &Option<(Vec<u8>, u64)>,
    keydir: &mut Keydir,
    warnings: &mut Vec<RecoveryWarning>,
) -> (applied: bool)
    ensures
        applied == (trusted_hints(hint_view(*hint)) is Some),
        applied ==> final(keydir)@ == apply_events(
            old(keydir)@,
            hint_events(file_id, trusted_hints(hint_view(*hint))->0),
        ),
        !applied ==> final(keydir)@ == old(keydir)@,
        final(warnings)@ == old(warnings)@ + hint_warnings(file_id, hint_view(*hint)),
{
    match hint {
        Some((bytes, data_file_len)) => match try_scan_hint_file(
            bytes.as_slice(),
            file_id,
            *data_file_len,
            keydir,
        ) {
            Ok(_) => {
                assert(warnings@ + hint_warnings(file_id, hint_view(*hint)) =~= warnings@);
                true
            },
            Err(problem) => {
                warnings.push(RecoveryWarning::Hint { file_id, problem });
                assert(warnings@ =~= old(warnings)@ + hint_warnings(file_id, hint_view(*hint)));
                false
            },
        },
        None => {
            assert(warnings@ + hint_warnings(file_id, hint_view(*hint)) =~= warnings@);
            false
        },
    }
}

/// Applies one data file to the index by a scan, and warns about what is wrong in it.
fn recover_from_data(
    file_id: u32,
    data: &[u8],
    is_last: bool,
    keydir: &mut Keydir,
    warnings: &mut Vec<RecoveryWarning>,
)
    ensures
        final(keydir)@ == apply_events(
            old(keydir)@,
            entry_events(file_id, crate::scan::scan_entries(data@, 0)),
        ),
        final(warnings)@ == old(warnings)@ + data_warnings(
            file_id,
            crate::scan::scan_issues(data@, 0, is_last),
        ),
{
    let issues = scan_data_file(data, file_id, is_last, keydir);
    let mut i: usize = 0;
    assert(data_warnings(file_id, issues@.take(0)) =~= Seq::empty());
    assert(warnings@ + Seq::<RecoveryWarning>::empty() =~= warnings@);
    while i < issues.len()
        invariant
            i <= issues@.len(),
            warnings@ == old(warnings)@ + data_warnings(file_id, issues@.take(i as int)),
        decreases issues@.len() - i,
    {
        warnings.push(RecoveryWarning::Data { file_id, issue: issues[i] });
        assert(warnings@ =~= old(warnings)@ + data_warnings(file_id, issues@.take(i + 1)));
        i += 1;
    }
    assert(issues@.take(i as int) =~= issues@);
}

/// What a trusted hint file was read as is what its image holds.
proof fn lemma_hint_was_read<
    H: Fn(u32) -> Result<Option<(Vec<u8>, u64)>, std::io::Error>,
    D: Fn(u32) -> Result<Vec<u8>, std::io::Error>,
>(
    read_hint_file: H,
    read_data_file: D,
    hint: Option<(Vec<u8>, u64)>,
    image: FileImage,
)
    requires
        call_ensures(read_hint_file, (image.file_id,), Ok(hint)),
        hint_view(hint) == image.hint,
        trusted_hints(image.hint) is Some,
    ensures
        was_read(read_hint_file, read_data_file, image),
{
    assert(hint_was_read(read_hint_file, image.file_id, hint));
}

/// What a hint file, if any, and a data file were read as is what their image holds.
proof fn lemma_data_was_read<
    H: Fn(u32) -> Result<Option<(Vec<u8>, u64)>, std::io::Error>,
    D: Fn(u32) -> Result<Vec<u8>, std::io::Error>,
>(
    read_hint_file: H,
    read_data_file: D,
    hint: Option<(Vec<u8>, u64)>,
    data: Vec<u8>,
    image: FileImage,
)
    requires
        call_ensures(read_hint_file, (image.file_id,), Ok(hint)),
        call_ensures(read_data_file, (image.file_id,), Ok(data)),
        hint_view(hint) == image.hint,
        data@ == image.data,
    ensures
        was_read(read_hint_file, read_data_file, image),
{
    assert(hint_was_read(read_hint_file, image.file_id, hint));
    assert(data_was_read(read_data_file, image.file_id, data));
}

/// Applies one file to the index, from its hint file where that is trusted, else by a scan. Gives
/// back, besides the outcome, what the file held, or the warnings before the failure.
fn recover_file<
    H: Fn(u32) -> Result<Option<(Vec<u8>, u64)>, std::io::Error>,
    D: Fn(u32) -> Result<Vec<u8>, std::io::Error>,
>(
    file_id: u32,
    is_last: bool,
    read_hint_file: &H,
    read_data_file: &D,
    keydir: &mut Keydir,
    warnings: &mut Vec<RecoveryWarning>,
) -> (outcome: Result<Ghost<FileImage>, (std::io::Error, Ghost<Seq<RecoveryWarning>>)>)
    requires
        call_requires(*read_hint_file, (file_id,)),
        call_requires(*read_data_file, (file_id,)),
    ensures
        (match outcome {
            Ok(image) => image@.file_id == file_id && was_read(
                *read_hint_file,
                *read_data_file,
                image@,
            ) && final(keydir)@ == apply_events(old(keydir)@, image_events(image@))
                && final(warnings)@ == old(warnings)@ + image_warnings(image@, is_last),
            Err((error, more)) => read_failed(
                *read_hint_file,
                *read_data_file,
                file_id,
                error,
                more@,
            ) && final(keydir)@ == old(keydir)@ && final(warnings)@ == old(warnings)@ + more@,
        }),
{
    let hint = match (*read_hint_file)(file_id) {
        Ok(hint) => hint,
        Err(error) => {
            assert(warnings@ =~= old(warnings)@ + Seq::<RecoveryWarning>::empty());
            return Err((error, Ghost(Seq::empty())));
        },
    };
    let ghost seen = hint_view(hint);
    if recover_from_hint(file_id, &hint, keydir, warnings) {
        let ghost image = FileImage { file_id, hint: seen, data: Seq::empty() };
        proof {
            lemma_hint_was_read(*read_hint_file, *read_data_file, hint, image);
            assert(warnings@ =~= old(warnings)@ + image_warnings(image, is_last));
        }
        return Ok(Ghost(image));
    }
    let data = match (*read_data_file)(file_id) {
        Ok(data) => data,
        Err(error) => {
            assert(hint_was_read(*read_hint_file, file_id, hint));
            return Err((error, Ghost(hint_warnings(file_id, seen))));
        },
    };
    recover_from_data(file_id, data.as_slice(), is_last, keydir, warnings);
    let ghost image = FileImage { file_id, hint: seen, data: data@ };
    proof {
        lemma_data_was_read(*read_hint_file, *read_data_file, hint, data, image);
        assert(warnings@ =~= old(warnings)@ + image_warnings(image, is_last));
    }
    Ok(Ghost(image))
}

/// Rebuilds the index from the files with the given ids, which come in ascending order. A hint
/// file that is there and passes its checks stands for its data file; else the data file is
/// scanned. `read_hint_file` gives the bytes of a file's hint file, if it has one, and the length
/// of the data file; `read_data_file` gives the bytes of the data file. What had to be worked
/// around is added to `warnings`.
pub fn recover<
    H: Fn(u32) -> Result<Option<(Vec<u8>, u64)>, std::io::Error>,
    D: Fn(u32) -> Result<Vec<u8>, std::io::Error>,
>(
    file_ids: &[u32],
    read_hint_file: H,
    read_data_file: D,
    keydir: &mut Keydir,
    warnings: &mut Vec<RecoveryWarning>,
) -> (outcome: Result<(), std::io::Error>)
    requires
        forall|i: int|
            0 <= i < file_ids@.len() ==> call_requires(read_hint_file, (#[trigger] file_ids@[i],))
                && call_requires(read_data_file, (file_ids@[i],)),
    ensures
        outcome is Ok ==> exists|disk: Seq<FileImage>| #[trigger]
            all_read(read_hint_file, read_data_file, file_ids@, disk) && disk.len()
                == file_ids@.len() && final(keydir)@ == apply_events(
                old(keydir)@,
                disk_events(disk),
            ) && final(warnings)@ == old(warnings)@ + disk_warnings(disk, file_ids@.len()),
        outcome is Err ==> exists|disk: Seq<FileImage>| #[trigger]
            all_read(read_hint_file, read_data_file, file_ids@, disk) && final(keydir)@
                == apply_events(old(keydir)@, disk_events(disk)) && failed_after(
                read_hint_file,
                read_data_file,
                file_ids@,
                disk,
                outcome->Err_0,
                old(warnings)@,
                final(warnings)@,
            ),
{
    let mut i: usize = 0;
    let ghost mut disk: Seq<FileImage> = Seq::empty();
    assert(old(warnings)@ + disk_warnings(disk, file_ids@.len()) =~= old(warnings)@);
    while i < file_ids.len()
        invariant
            i <= file_ids@.len(),
            disk.len() == i,
            all_read(read_hint_file, read_data_file, file_ids@, disk),
            forall|j: int|
                0 <= j < file_ids@.len() ==> call_requires(
                    read_hint_file,
                    (#[trigger] file_ids@[j],),
                ) && call_requires(read_data_file, (file_ids@[j],)),
            keydir@ == apply_events(old(keydir)@, disk_events(disk)),
            warnings@ == old(warnings)@ + disk_warnings(disk, file_ids@.len()),
        decreases file_ids@.len() - i,
    {
        let is_last = i + 1 == file_ids.len();
        match recover_file(
            file_ids[i],
            is_last,
            &read_hint_file,
            &read_data_file,
            keydir,
            warnings,
        ) {
            Ok(image) => {
                proof {
                    let next = disk.push(image@);
                    assert(next.drop_last() =~= disk);
                    lemma_apply_concat(old(keydir)@, disk_events(disk), image_events(image@));
                    assert(warnings@ =~= old(warnings)@ + disk_warnings(next, file_ids@.len()));
                    disk = next;
                }
            },
            Err((error, more)) => {
                proof {
                    let told = old(warnings)@ + disk_warnings(disk, file_ids@.len());
                    assert(warnings@.skip(told.len() as int) =~= more@);
                    assert(all_read(read_hint_file, read_data_file, file_ids@, disk));
                }
                return Err(error);
            },
        }
        i += 1;
    }
    Ok(())
}

/// Whether the two readers gave what the first files of `disk` hold, file by file.
pub open spec fn all_read<
    H: Fn(u32) -> Result<Option<(Vec<u8>, u64)>, std::io::Error>,
    D: Fn(u32) -> Result<Vec<u8>, std::io::Error>,
>(read_hint_file: H, read_data_file: D, file_ids: Seq<u32>, disk: Seq<FileImage>) -> bool {
    &&& disk.len() <= file_ids.len()
    &&& forall|i: int|
        0 <= i < disk.len() ==> (#[trigger] disk[i]).file_id == file_ids[i] && was_read(
            read_hint_file,
            read_data_file,
            disk[i],
        )
}

/// Whether, after the files of `disk`, reading the next one failed with `error`, and the warnings
/// went from `before` to `after`.
pub open spec fn failed_after<
    H: Fn(u32) -> Result<Option<(Vec<u8>, u64)>, std::io::Error>,
    D: Fn(u32) -> Result<Vec<u8>, std::io::Error>,
>(
    read_hint_file: H,
    read_data_file: D,
    file_ids: Seq<u32>,
    disk: Seq<FileImage>,
    error: std::io::Error,
    before: Seq<RecoveryWarning>,
    after: Seq<RecoveryWarning>,
) -> bool {
    let told = before + disk_warnings(disk, file_ids.len());
    let more = after.skip(told.len() as int);
    &&& disk.len() < file_ids.len()
    &&& after == told + more
    &&& read_failed(
        read_hint_file,
        read_data_file,
        file_ids[disk.len() as int],
        error,
        more,
    )
}

/// Two runs of changes, one after the other, do what they do as one run.
pub proof fn lemma_apply_concat(contents: KeydirView, first: Seq<KeyEvent>, second: Seq<KeyEvent>)
    ensures
        apply_events(contents, first + second) == apply_events(
            apply_events(contents, first),
            second,
        ),
    decreases second.len(),
{
    if second.len() == 0 {
        assert(first + second =~= first);
    } else {
        lemma_apply_concat(contents, first, second.drop_last());
        assert((first + second).drop_last() =~= first + second.drop_last());
    }
}

} // verus!
