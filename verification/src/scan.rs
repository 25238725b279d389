//! Going through a data file entry by entry.
use vstd::prelude::*;

use crate::format::entry::{EntryReadView, EntryView};
use crate::format::{HEADER_SIZE, MAX_KEY_LEN};

verus! {

/// The whole entries with the right checksum in `bytes`, each with its offset, where the first
/// byte has offset `pos`. Corrupt entries are skipped; the first cut-off one ends the scan.
pub open spec fn scan_entries(bytes: Seq<u8>, pos: nat) -> Seq<(nat, EntryView)>
    decreases bytes.len(),
{
    match crate::format::entry::parse_entry(bytes) {
        Some(EntryReadView::Complete(entry, total_len)) => seq![(pos, entry)] + scan_entries(
            bytes.skip(total_len as int),
            pos + total_len,
        ),
        Some(EntryReadView::CrcMismatch { total_len }) => scan_entries(
            bytes.skip(total_len as int),
            pos + total_len,
        ),
        _ => Seq::empty(),
    }
}

/// Something wrong in a data file, and at what offset.
#[derive(Clone, Copy, Debug, PartialEq, Eq, Structural)]
pub enum ScanIssue {
    /// The file ends in the middle of an entry.
    Truncated { offset: u64 },
    /// A whole entry has the wrong checksum and is skipped.
    Corrupt { offset: u64 },
}

/// What is wrong in `bytes`, in the order of the offsets, where the first byte has offset `pos`.
/// A cut-off end is expected, and not reported, where `is_last` holds.
pub open spec fn scan_issues(bytes: Seq<u8>, pos: nat, is_last: bool) -> Seq<ScanIssue>
    decreases bytes.len(),
{
    match crate::format::entry::parse_entry(bytes) {
        Some(EntryReadView::Complete(_, total_len)) => scan_issues(
            bytes.skip(total_len as int),
            pos + total_len,
            is_last,
        ),
        Some(EntryReadView::CrcMismatch { total_len }) => seq![
            ScanIssue::Corrupt { offset: pos as u64 },
        ] + scan_issues(bytes.skip(total_len as int), pos + total_len, is_last),
        Some(EntryReadView::Truncated) if !is_last => seq![
            ScanIssue::Truncated { offset: pos as u64 },
        ],
        _ => Seq::empty(),
    }
}

/// Whether the file ends where an entry ends.
pub open spec fn ends_clean(bytes: Seq<u8>) -> bool
    decreases bytes.len(),
{
    match crate::format::entry::parse_entry(bytes) {
        None => true,
        Some(EntryReadView::Truncated) => false,
        Some(EntryReadView::Complete(_, total_len)) => ends_clean(bytes.skip(total_len as int)),
        Some(EntryReadView::CrcMismatch { total_len }) => ends_clean(bytes.skip(total_len as int)),
    }
}

/// Length of an entry in its file.
pub open spec fn entry_len(entry: EntryView) -> nat {
    HEADER_SIZE as nat + entry.key.len() + entry.value.len()
}

/// Whether the entry says of itself what it holds.
pub open spec fn is_sound(entry: EntryView) -> bool {
    &&& entry.header.key_size == entry.key.len()
    &&& entry.header.value_size == entry.value.len()
    &&& entry.key.len() <= MAX_KEY_LEN
}

/// Whether the value of an entry at offset `pos` stands in a file where it should.
pub open spec fn value_stands(bytes: Seq<u8>, pos: nat, entry: EntryView) -> bool {
    let start = pos + HEADER_SIZE + entry.key.len();
    &&& start + entry.value.len() <= bytes.len()
    &&& bytes.subrange(start as int, (start + entry.value.len()) as int) == entry.value
}

/// The entries of a scan are sound, lie in the file one after the other, and their values stand
/// where they should.
pub proof fn lemma_scan_layout(bytes: Seq<u8>, pos: nat)
    ensures
        forall|i: int|
            0 <= i < scan_entries(bytes, pos).len() ==> is_sound(
                (#[trigger] scan_entries(bytes, pos)[i]).1,
            ) && pos <= scan_entries(bytes, pos)[i].0 && scan_entries(bytes, pos)[i].0 + entry_len(
                scan_entries(bytes, pos)[i].1,
            ) <= pos + bytes.len(),
        forall|i: int|
            0 <= i < scan_entries(bytes, pos).len() ==> value_stands(
                bytes,
                ((#[trigger] scan_entries(bytes, pos)[i]).0 - pos) as nat,
                scan_entries(bytes, pos)[i].1,
            ),
        forall|i: int, j: int|
            0 <= i < j < scan_entries(bytes, pos).len() ==> (#[trigger] scan_entries(
                bytes,
                pos,
            )[i]).0 + entry_len(scan_entries(bytes, pos)[i].1) <= (#[trigger] scan_entries(
                bytes,
                pos,
            )[j]).0,
    decreases bytes.len(),
{
    let all = scan_entries(bytes, pos);
    match crate::format::entry::parse_entry(bytes) {
        Some(EntryReadView::Complete(entry, total_len)) => {
            let rest = bytes.skip(total_len as int);
            let tail = scan_entries(rest, pos + total_len);
            lemma_scan_layout(rest, pos + total_len);
            assert(all[0] == (pos, entry));
            assert forall|i: int| 0 < i < all.len() implies #[trigger] all[i] == tail[i - 1] by {}
            assert forall|i: int| 0 <= i < all.len() implies value_stands(
                bytes,
                ((#[trigger] all[i]).0 - pos) as nat,
                all[i].1,
            ) by {
                if i > 0 {
                    lemma_value_stands_after(
                        bytes,
                        total_len,
                        (tail[i - 1].0 - pos - total_len) as nat,
                        tail[i - 1].1,
                    );
                }
            }
        },
        Some(EntryReadView::CrcMismatch { total_len }) => {
            let rest = bytes.skip(total_len as int);
            let tail = scan_entries(rest, pos + total_len);
            lemma_scan_layout(rest, pos + total_len);
            assert(all == tail);
            assert forall|i: int| 0 <= i < all.len() implies value_stands(
                bytes,
                ((#[trigger] all[i]).0 - pos) as nat,
                all[i].1,
            ) by {
                lemma_value_stands_after(
                    bytes,
                    total_len,
                    (tail[i].0 - pos - total_len) as nat,
                    tail[i].1,
                );
            }
        },
        _ => {},
    }
}

/// A value that stands in the rest of a file stands in the file.
proof fn lemma_value_stands_after(bytes: Seq<u8>, skipped: nat, pos: nat, entry: EntryView)
    requires
        skipped <= bytes.len(),
        value_stands(bytes.skip(skipped as int), pos, entry),
    ensures
        value_stands(bytes, skipped + pos, entry),
{
    let start = pos + HEADER_SIZE + entry.key.len();
    let rest = bytes.skip(skipped as int);
    assert(bytes.subrange(
        (skipped + start) as int,
        (skipped + start + entry.value.len()) as int,
    ) =~= rest.subrange(start as int, (start + entry.value.len()) as int));
}

/// What follows a whole entry does not change how it is read.
proof fn lemma_parse_extend(bytes: Seq<u8>, more: Seq<u8>)
    requires
        crate::format::entry::parse_entry(bytes) is Some,
        crate::format::entry::parse_entry(bytes) != Some(EntryReadView::Truncated),
    ensures
        crate::format::entry::parse_entry(bytes + more) == crate::format::entry::parse_entry(bytes),
{
    let all = bytes + more;
    let header = crate::format::entry::header_of(bytes);
    let total_len = crate::format::entry::announced_len(header) as int;
    let value_start = HEADER_SIZE + header.key_size;
    assert(crate::format::entry::header_of(all) == header);
    assert(crate::format::u32_at(all, 0) == crate::format::u32_at(bytes, 0));
    assert(all.subrange(4, total_len) =~= bytes.subrange(4, total_len));
    assert(all.subrange(HEADER_SIZE as int, value_start) =~= bytes.subrange(
        HEADER_SIZE as int,
        value_start,
    ));
    assert(all.subrange(value_start, total_len) =~= bytes.subrange(value_start, total_len));
}

/// Scanning starts with the entry that stands at the start of the bytes.
proof fn lemma_scan_unfold(bytes: Seq<u8>, pos: nat, is_last: bool)
    ensures
        (match crate::format::entry::parse_entry(bytes) {
            None => scan_entries(bytes, pos) == Seq::<(nat, EntryView)>::empty() && scan_issues(
                bytes,
                pos,
                is_last,
            ) == Seq::<ScanIssue>::empty() && ends_clean(bytes) && bytes.len() == 0,
            Some(EntryReadView::Truncated) => !ends_clean(bytes),
            Some(EntryReadView::Complete(entry, total_len)) => 0 < total_len <= bytes.len()
                && scan_entries(bytes, pos) == seq![(pos, entry)] + scan_entries(
                bytes.skip(total_len as int),
                pos + total_len,
            ) && scan_issues(bytes, pos, is_last) == scan_issues(
                bytes.skip(total_len as int),
                pos + total_len,
                is_last,
            ) && ends_clean(bytes) == ends_clean(bytes.skip(total_len as int)),
            Some(EntryReadView::CrcMismatch { total_len }) => 0 < total_len <= bytes.len()
                && scan_entries(bytes, pos) == scan_entries(
                bytes.skip(total_len as int),
                pos + total_len,
            ) && scan_issues(bytes, pos, is_last) == seq![ScanIssue::Corrupt { offset: pos as u64 }]
                + scan_issues(bytes.skip(total_len as int), pos + total_len, is_last) && ends_clean(
                bytes,
            ) == ends_clean(bytes.skip(total_len as int)),
        }),
{
}

/// A scan of a file that ends where an entry ends, and goes on with more bytes, is the scan of
/// the one and then of the other.
#[verifier::spinoff_prover]
#[verifier::rlimit(40)]
pub proof fn lemma_scan_concat(bytes: Seq<u8>, more: Seq<u8>, pos: nat, is_last: bool)
    requires
        ends_clean(bytes),
    ensures
        scan_entries(bytes + more, pos) == scan_entries(bytes, pos) + scan_entries(
            more,
            pos + bytes.len(),
        ),
        scan_issues(bytes + more, pos, is_last) == scan_issues(bytes, pos, is_last) + scan_issues(
            more,
            pos + bytes.len(),
            is_last,
        ),
        ends_clean(bytes + more) == ends_clean(more),
    decreases bytes.len(),
{
    let all = bytes + more;
    let entries = scan_entries(more, pos + bytes.len());
    let issues = scan_issues(more, pos + bytes.len(), is_last);
    lemma_scan_unfold(bytes, pos, is_last);
    lemma_scan_unfold(all, pos, is_last);
    match crate::format::entry::parse_entry(bytes) {
        None => {
            assert(all =~= more);
            assert(scan_entries(bytes, pos) + entries =~= entries);
            assert(scan_issues(bytes, pos, is_last) + issues =~= issues);
        },
        Some(EntryReadView::Truncated) => {},
        Some(EntryReadView::Complete(entry, total_len)) => {
            let rest = bytes.skip(total_len as int);
            lemma_parse_extend(bytes, more);
            lemma_scan_concat(rest, more, pos + total_len, is_last);
            assert(all.skip(total_len as int) =~= rest + more);
            assert(seq![(pos, entry)] + (scan_entries(rest, pos + total_len) + entries) =~= (seq![
                (pos, entry),
            ] + scan_entries(rest, pos + total_len)) + entries);
        },
        Some(EntryReadView::CrcMismatch { total_len }) => {
            let rest = bytes.skip(total_len as int);
            let issue = ScanIssue::Corrupt { offset: pos as u64 };
            lemma_parse_extend(bytes, more);
            lemma_scan_concat(rest, more, pos + total_len, is_last);
            assert(all.skip(total_len as int) =~= rest + more);
            assert(seq![issue] + (scan_issues(rest, pos + total_len, is_last) + issues) =~= (seq![
                issue,
            ] + scan_issues(rest, pos + total_len, is_last)) + issues);
        },
    }
}

/// A scan of the first bytes of a file finds the first entries of the file: all that are whole by
/// then.
pub proof fn lemma_scan_prefix(bytes: Seq<u8>, n: int, pos: nat)
    requires
        0 <= n <= bytes.len(),
    ensures
        scan_entries(bytes.take(n), pos).len() <= scan_entries(bytes, pos).len(),
        forall|j: int|
            0 <= j < scan_entries(bytes.take(n), pos).len() ==> #[trigger] scan_entries(
                bytes.take(n),
                pos,
            )[j] == scan_entries(bytes, pos)[j],
    decreases bytes.len(),
{
    let first = bytes.take(n);
    assert(first + bytes.skip(n) =~= bytes);
    match crate::format::entry::parse_entry(first) {
        Some(EntryReadView::Complete(_, total_len)) => {
            let len = total_len as int;
            lemma_parse_extend(first, bytes.skip(n));
            lemma_scan_unfold(first, pos, true);
            lemma_scan_unfold(bytes, pos, true);
            assert(first.skip(len) =~= bytes.skip(len).take(n - len));
            lemma_scan_prefix(bytes.skip(len), n - len, pos + total_len);
            let tail = scan_entries(bytes.skip(len).take(n - len), pos + total_len);
            assert forall|j: int| 0 <= j < scan_entries(first, pos).len() implies #[trigger] scan_entries(
                first,
                pos,
            )[j] == scan_entries(bytes, pos)[j] by {
                if j > 0 {
                    assert(scan_entries(first, pos)[j] == tail[j - 1]);
                }
            }
        },
        Some(EntryReadView::CrcMismatch { total_len }) => {
            let len = total_len as int;
            lemma_parse_extend(first, bytes.skip(n));
            lemma_scan_unfold(first, pos, true);
            lemma_scan_unfold(bytes, pos, true);
            assert(first.skip(len) =~= bytes.skip(len).take(n - len));
            lemma_scan_prefix(bytes.skip(len), n - len, pos + total_len);
        },
        _ => {},
    }
}

/// Appending an entry to a file that ends where an entry ends adds just this entry, at the offset
/// where the file ended, and the file ends where an entry ends again.
pub proof fn law_append_adds_one_entry(
    bytes: Seq<u8>,
    key: Seq<u8>,
    value: Seq<u8>,
    tombstone: bool,
    timestamp: u32,
)
    requires
        ends_clean(bytes),
        key.len() <= MAX_KEY_LEN,
        value.len() <= u32::MAX,
    ensures
        scan_entries(
            bytes + crate::format::entry::entry_bytes(key, value, tombstone, timestamp),
            0,
        ) == scan_entries(bytes, 0).push(
            (bytes.len(), crate::format::entry::entry_of(key, value, tombstone, timestamp)),
        ),
        ends_clean(bytes + crate::format::entry::entry_bytes(key, value, tombstone, timestamp)),
{
    let whole = crate::format::entry::entry_bytes(key, value, tombstone, timestamp);
    let entry = crate::format::entry::entry_of(key, value, tombstone, timestamp);
    let none = Seq::<u8>::empty();
    crate::format::entry::law_entry_round_trip(key, value, tombstone, timestamp, none);
    assert(whole + none =~= whole);
    assert(whole.skip(whole.len() as int) =~= none);
    assert(scan_entries(whole, bytes.len()) =~= seq![(bytes.len(), entry)]) by {
        assert(scan_entries(none, bytes.len() + whole.len()) =~= Seq::empty());
    }
    assert(ends_clean(whole)) by {
        assert(ends_clean(none));
    }
    lemma_scan_concat(bytes, whole, 0, true);
    assert(scan_entries(bytes, 0) + seq![(bytes.len(), entry)] =~= scan_entries(bytes, 0).push(
        (bytes.len(), entry),
    ));
}

/// An append that was cut off anywhere leaves the entries before it, and no more. In the file that
/// was appended to last this is not even worth a warning.
pub proof fn law_torn_append_is_dropped(
    bytes: Seq<u8>,
    key: Seq<u8>,
    value: Seq<u8>,
    tombstone: bool,
    timestamp: u32,
    cut: int,
)
    requires
        ends_clean(bytes),
        key.len() <= MAX_KEY_LEN,
        value.len() <= u32::MAX,
        0 <= cut < crate::format::entry::entry_bytes(key, value, tombstone, timestamp).len(),
    ensures
        scan_entries(
            bytes + crate::format::entry::entry_bytes(key, value, tombstone, timestamp).take(cut),
            0,
        ) == scan_entries(bytes, 0),
        scan_issues(
            bytes + crate::format::entry::entry_bytes(key, value, tombstone, timestamp).take(cut),
            0,
            true,
        ) == scan_issues(bytes, 0, true),
{
    let torn = crate::format::entry::entry_bytes(key, value, tombstone, timestamp).take(cut);
    if cut > 0 {
        crate::format::entry::law_entry_truncation(key, value, tombstone, timestamp, cut);
    }
    lemma_scan_concat(bytes, torn, 0, true);
    assert(scan_entries(torn, bytes.len()) =~= Seq::empty());
    assert(scan_issues(torn, bytes.len(), true) =~= Seq::empty());
    assert(scan_entries(bytes, 0) + Seq::empty() =~= scan_entries(bytes, 0));
    assert(scan_issues(bytes, 0, true) + Seq::empty() =~= scan_issues(bytes, 0, true));
}

/// A whole entry with the wrong checksum costs just itself: all entries before and after it are
/// found, and it is reported.
pub proof fn law_corrupt_entry_is_skipped(
    before: Seq<u8>,
    corrupt: Seq<u8>,
    after: Seq<u8>,
    is_last: bool,
)
    requires
        ends_clean(before),
        crate::format::entry::parse_entry(corrupt) == Some(
            EntryReadView::CrcMismatch { total_len: corrupt.len() },
        ),
    ensures
        scan_entries(before + corrupt + after, 0) == scan_entries(before, 0) + scan_entries(
            after,
            before.len() + corrupt.len(),
        ),
        scan_issues(before + corrupt + after, 0, is_last) == scan_issues(before, 0, is_last) + seq![
            ScanIssue::Corrupt { offset: before.len() as u64 },
        ] + scan_issues(after, before.len() + corrupt.len(), is_last),
{
    let none = Seq::<u8>::empty();
    let at = before.len();
    let end = before.len() + corrupt.len();
    let issue = ScanIssue::Corrupt { offset: at as u64 };
    assert(corrupt.skip(corrupt.len() as int) =~= none);
    assert(ends_clean(none));
    assert(ends_clean(corrupt));
    assert(scan_entries(corrupt, at) =~= Seq::empty()) by {
        assert(scan_entries(none, end) =~= Seq::empty());
    }
    assert(scan_issues(corrupt, at, is_last) =~= seq![issue]) by {
        assert(scan_issues(none, end, is_last) =~= Seq::empty());
    }
    lemma_scan_concat(before, corrupt, 0, is_last);
    lemma_scan_concat(before + corrupt, after, 0, is_last);
    assert(scan_entries(before, 0) + Seq::empty() =~= scan_entries(before, 0));
}

} // verus!
