//! Records of a hint file, and the checksum that ends it.
//!
//! A record has no checksum of its own. A finished hint file ends with the CRC32 of all its
//! records, and is trusted as a whole or not at all.
use vstd::prelude::*;

use super::{
    checksum, decode_ksz, encode_ksz, get_u32, get_u64, push_bytes, push_u32, push_u64, read_up_to,
    ByteReader, EntryHeader, MAX_KEY_LEN,
};

verus! {

/// Size of the fixed part at the start of every record.
pub const HINT_HEADER_SIZE: usize = 20;

/// Size of the checksum that ends a hint file.
pub const HINT_TRAILER_SIZE: usize = 4;

/// A whole record in its byte form, ready to be appended to a hint file.
#[derive(Clone, Debug, PartialEq, Eq)]
pub struct EncodedHint(Vec<u8>);

impl EncodedHint {
    /// The byte form.
    pub closed spec fn spec_bytes(&self) -> Seq<u8> {
        self.0@
    }

    pub fn as_bytes(&self) -> (bytes: &[u8])
        ensures
            bytes@ == self.spec_bytes(),
    {
        self.0.as_slice()
    }

    pub fn into_bytes(self) -> (bytes: Vec<u8>)
        ensures
            bytes@ == self.spec_bytes(),
    {
        self.0
    }

    pub fn len(&self) -> (n: usize)
        ensures
            n == self.spec_bytes().len(),
    {
        self.0.len()
    }

    pub fn is_empty(&self) -> (b: bool)
        ensures
            b == (self.spec_bytes().len() == 0),
    {
        self.0.len() == 0
    }

    pub fn as_ref(&self) -> (bytes: &[u8])
        ensures
            bytes@ == self.spec_bytes(),
    {
        self.0.as_slice()
    }
}

/// The byte form of a record.
pub open spec fn hint_bytes(key: Seq<u8>, header: EntryHeader, value_pos: u64) -> Seq<u8> {
    super::le_u32(header.timestamp) + super::le_u32(
        super::ksz_field(header.key_size, header.tombstone),
    ) + super::le_u32(header.value_size) + super::le_u64(value_pos) + key
}

/// Encodes one record for `key`, whose entry has the given header and whose value starts at
/// `value_pos` in the data file.
pub fn encode_hint(key: &[u8], header: &EntryHeader, value_pos: u64) -> (encoded: EncodedHint)
    requires
        header.key_size <= MAX_KEY_LEN,
    ensures
        encoded.spec_bytes() == hint_bytes(key@, *header, value_pos),
{
    let mut buf: Vec<u8> = Vec::new();
    push_u32(&mut buf, header.timestamp);
    push_u32(&mut buf, encode_ksz(header.key_size, header.tombstone));
    push_u32(&mut buf, header.value_size);
    push_u64(&mut buf, value_pos);
    push_bytes(&mut buf, key);
    assert(buf@ =~= hint_bytes(key@, *header, value_pos));
    EncodedHint(buf)
}

/// The header fields at the start of `bytes`.
pub open spec fn hint_header_of(bytes: Seq<u8>) -> EntryHeader {
    let (key_size, tombstone) = super::ksz_parts(super::u32_at(bytes, 4));
    EntryHeader {
        timestamp: super::u32_at(bytes, 0),
        key_size,
        value_size: super::u32_at(bytes, 8),
        tombstone,
    }
}

/// Decodes the fixed-size header: the header fields and the value position.
pub fn decode_hint_header(buf: &[u8; HINT_HEADER_SIZE]) -> (decoded: (EntryHeader, u64))
    ensures
        decoded == (hint_header_of(buf@), super::u64_at(buf@, 12)),
{
    let bytes = buf.as_slice();
    let (key_size, tombstone) = decode_ksz(get_u32(bytes, 4));
    (
        EntryHeader {
            timestamp: get_u32(bytes, 0),
            key_size,
            value_size: get_u32(bytes, 8),
            tombstone,
        },
        get_u64(bytes, 12),
    )
}

/// What stands at the place of a record in a hint file.
#[derive(Debug)]
pub enum HintRead {
    /// A whole record.
    Complete { header: EntryHeader, value_pos: u64, key: Vec<u8> },
    /// The bytes end before the header, or the key that it announces, does.
    Truncated,
}

/// What a whole record holds.
#[verifier::ext_equal]
pub struct HintView {
    pub header: EntryHeader,
    pub value_pos: u64,
    pub key: Seq<u8>,
}

/// What a [`HintRead`] says.
#[verifier::ext_equal]
pub enum HintReadView {
    Complete(HintView),
    Truncated,
}

impl View for HintRead {
    type V = HintReadView;

    open spec fn view(&self) -> HintReadView {
        match *self {
            HintRead::Complete { header, value_pos, key } => HintReadView::Complete(
                HintView { header, value_pos, key: key@ },
            ),
            HintRead::Truncated => HintReadView::Truncated,
        }
    }
}

/// What stands at the start of `bytes`, which end where the records end. `None` is the end.
pub open spec fn parse_hint(bytes: Seq<u8>) -> Option<HintReadView> {
    let header = hint_header_of(bytes);
    let total_len = HINT_HEADER_SIZE + header.key_size;
    if bytes.len() == 0 {
        None
    } else if bytes.len() < HINT_HEADER_SIZE || bytes.len() < total_len {
        Some(HintReadView::Truncated)
    } else {
        Some(
            HintReadView::Complete(
                HintView {
                    header,
                    value_pos: super::u64_at(bytes, 12),
                    key: bytes.subrange(HINT_HEADER_SIZE as int, total_len),
                },
            ),
        )
    }
}

/// How many bytes reading one record takes off `bytes`.
pub open spec fn hint_read_len(bytes: Seq<u8>) -> nat {
    match parse_hint(bytes) {
        None => 0,
        Some(HintReadView::Truncated) => bytes.len(),
        Some(HintReadView::Complete(hint)) => (HINT_HEADER_SIZE + hint.header.key_size) as nat,
    }
}

/// Copies the fixed-size header out of a slice of that size.
fn hint_header_array(h: &[u8]) -> (buf: [u8; HINT_HEADER_SIZE])
    requires
        h@.len() == HINT_HEADER_SIZE,
    ensures
        buf@ == h@,
{
    let buf: [u8; HINT_HEADER_SIZE] = [
        h[0], h[1], h[2], h[3], h[4], h[5], h[6], h[7], h[8], h[9],
        h[10], h[11], h[12], h[13], h[14], h[15], h[16], h[17], h[18], h[19],
    ];
    assert(buf@ =~= h@);
    buf
}

/// Reads one record from `r`, which stands at the start of a record. `None` is a clean end at
/// a record boundary.
pub fn read_hint(r: &mut ByteReader<'_>) -> (read: Option<HintRead>)
    ensures
        (match read {
            None => None,
            Some(h) => Some(h@),
        }) == parse_hint(old(r).rest()),
        final(r).rest() == old(r).rest().skip(hint_read_len(old(r).rest()) as int),
{
    let ghost all = r.rest();
    let head = read_up_to(r, HINT_HEADER_SIZE);
    if head.len() == 0 {
        assert(all.skip(0) =~= all);
        return None;
    }
    if head.len() < HINT_HEADER_SIZE {
        assert(all.skip(all.len() as int) =~= Seq::<u8>::empty());
        return Some(HintRead::Truncated);
    }
    let (header, value_pos) = decode_hint_header(&hint_header_array(head));
    proof {
        assert(hint_header_of(head@) == hint_header_of(all));
        assert(super::u64_at(head@, 12) == super::u64_at(all, 12));
    }
    let key = read_up_to(r, header.key_size as usize);
    if key.len() < header.key_size as usize {
        assert(all.skip(all.len() as int) =~= r.rest());
        return Some(HintRead::Truncated);
    }
    proof {
        let total = HINT_HEADER_SIZE + header.key_size;
        assert(key@ =~= all.subrange(HINT_HEADER_SIZE as int, total));
        assert(r.rest() =~= all.skip(total));
    }
    Some(HintRead::Complete { header, value_pos, key: vstd::slice::slice_to_vec(key) })
}

/// The records of a hint file that ends with their checksum, or `None`.
pub open spec fn verified_content(bytes: Seq<u8>) -> Option<Seq<u8>> {
    let end = bytes.len() - HINT_TRAILER_SIZE;
    if end >= 0 && super::crc32(bytes.take(end)) == super::u32_at(bytes, end) {
        Some(bytes.take(end))
    } else {
        None
    }
}

/// The hint file with the given records: the records and their checksum.
pub open spec fn hint_file_bytes(content: Seq<u8>) -> Seq<u8> {
    content + super::le_u32(super::crc32(content))
}

/// Checks the checksum that ends a hint file and gives the records without it, or `None` if the
/// file is too short to hold one or the checksum does not match.
pub fn verify_hint_file(bytes: &[u8]) -> (content: Option<&[u8]>)
    ensures
        (match content {
            None => None,
            Some(c) => Some(c@),
        }) == verified_content(bytes@),
{
    if bytes.len() < HINT_TRAILER_SIZE {
        return None;
    }
    let end: usize = bytes.len() - HINT_TRAILER_SIZE;
    let content = vstd::slice::slice_subrange(bytes, 0, end);
    assert(content@ =~= bytes@.take(end as int));
    let expected = get_u32(bytes, end);
    if checksum(content) == expected {
        Some(content)
    } else {
        None
    }
}

/// Ends a run of records with their checksum.
pub fn finish_hint_file(content: Vec<u8>) -> (bytes: Vec<u8>)
    ensures
        bytes@ == hint_file_bytes(content@),
{
    let mut bytes = content;
    let crc = checksum(bytes.as_slice());
    push_u32(&mut bytes, crc);
    bytes
}

/// Where the fields lie in the byte form of a record that other bytes may follow.
proof fn lemma_hint_layout(key: Seq<u8>, header: EntryHeader, value_pos: u64, bytes: Seq<u8>)
    requires
        header.key_size <= MAX_KEY_LEN,
        bytes.len() >= HINT_HEADER_SIZE,
        forall|i: int|
            0 <= i < HINT_HEADER_SIZE ==> #[trigger] bytes[i] == hint_bytes(
                key,
                header,
                value_pos,
            )[i],
    ensures
        hint_header_of(bytes) == header,
        super::u64_at(bytes, 12) == value_pos,
        hint_bytes(key, header, value_pos).len() == HINT_HEADER_SIZE + key.len(),
{
    let ksz = super::ksz_field(header.key_size, header.tombstone);
    super::law_ksz_round_trip(header.key_size, header.tombstone);
    assert(bytes.subrange(0, 4) =~= super::le_u32(header.timestamp));
    assert(bytes.subrange(4, 8) =~= super::le_u32(ksz));
    assert(bytes.subrange(8, 12) =~= super::le_u32(header.value_size));
    assert(bytes.subrange(12, 20) =~= super::le_u64(value_pos));
    super::lemma_u32_round_trip(header.timestamp, bytes, 0);
    super::lemma_u32_round_trip(ksz, bytes, 4);
    super::lemma_u32_round_trip(header.value_size, bytes, 8);
    super::lemma_u64_round_trip(value_pos, bytes, 12);
}

/// Reading back an encoded record gives the record, whatever follows it.
pub proof fn law_hint_round_trip(
    key: Seq<u8>,
    header: EntryHeader,
    value_pos: u64,
    after: Seq<u8>,
)
    requires
        header.key_size <= MAX_KEY_LEN,
        header.key_size == key.len(),
    ensures
        hint_bytes(key, header, value_pos).len() == HINT_HEADER_SIZE + key.len(),
        parse_hint(hint_bytes(key, header, value_pos) + after) == Some(
            HintReadView::Complete(HintView { header, value_pos, key }),
        ),
{
    let whole = hint_bytes(key, header, value_pos);
    let bytes = whole + after;
    lemma_hint_layout(key, header, value_pos, bytes);
    assert(bytes.subrange(HINT_HEADER_SIZE as int, HINT_HEADER_SIZE + key.len()) =~= key);
}

/// A record that is cut off anywhere after its first byte is seen to be cut off.
pub proof fn law_hint_truncation(key: Seq<u8>, header: EntryHeader, value_pos: u64, cut: int)
    requires
        header.key_size <= MAX_KEY_LEN,
        header.key_size == key.len(),
        0 < cut < hint_bytes(key, header, value_pos).len(),
    ensures
        parse_hint(hint_bytes(key, header, value_pos).take(cut)) == Some(HintReadView::Truncated),
{
    let bytes = hint_bytes(key, header, value_pos).take(cut);
    if cut >= HINT_HEADER_SIZE {
        lemma_hint_layout(key, header, value_pos, bytes);
    }
}

/// A finished hint file passes its check and gives back its records.
pub proof fn law_finished_hint_file_is_valid(content: Seq<u8>)
    ensures
        verified_content(hint_file_bytes(content)) == Some(content),
{
    let bytes = hint_file_bytes(content);
    let crc = super::crc32(content);
    assert(bytes.take(content.len() as int) =~= content);
    assert(bytes.subrange(content.len() as int, content.len() as int + 4) =~= super::le_u32(crc));
    super::lemma_u32_round_trip(crc, bytes, content.len() as int);
}

/// A hint file of which one byte was changed is not trusted.
pub proof fn law_a_changed_byte_in_a_hint_file_is_detected(bytes: Seq<u8>, at: int, byte: u8)
    requires
        verified_content(bytes) is Some,
        0 <= at < bytes.len(),
        byte != bytes[at],
    ensures
        verified_content(bytes.update(at, byte)) is None,
{
    let changed = bytes.update(at, byte);
    let end = bytes.len() - HINT_TRAILER_SIZE;
    if at < end {
        assert(changed.take(end) =~= bytes.take(end).update(at, byte));
        super::law_checksum_tells_a_changed_byte(bytes.take(end), at, byte);
        assert(super::u32_at(changed, end) == super::u32_at(bytes, end));
    } else {
        assert(changed.take(end) =~= bytes.take(end));
        assert(super::u32_at(changed, end) != super::u32_at(bytes, end));
    }
}

} // verus!
