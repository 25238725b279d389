//! Entries of a data file.
use vstd::prelude::*;

use super::{
    checksum, decode_ksz, encode_ksz, get_u32, push_bytes, push_u32, read_up_to, ByteReader,
    EntryHeader, MAX_KEY_LEN,
};

verus! {

/// Size of the fixed part at the start of every entry.
pub const HEADER_SIZE: usize = 16;

/// One decoded entry. A tombstone has an empty value.
#[derive(Clone, Debug, PartialEq, Eq)]
pub struct Entry {
    pub header: EntryHeader,
    pub key: Vec<u8>,
    pub value: Vec<u8>,
}

/// What an [`Entry`] holds.
#[verifier::ext_equal]
pub struct EntryView {
    pub header: EntryHeader,
    pub key: Seq<u8>,
    pub value: Seq<u8>,
}

impl View for Entry {
    type V = EntryView;

    open spec fn view(&self) -> EntryView {
        EntryView { header: self.header, key: self.key@, value: self.value@ }
    }
}

impl Entry {
    /// Whether this entry records a deletion.
    pub fn is_tombstone(&self) -> (b: bool)
        ensures
            b == self.header.tombstone,
    {
        self.header.tombstone
    }
}

/// A whole entry in its byte form, ready to be appended to a data file, with the length
/// of the value at its tail.
#[derive(Debug, PartialEq, Eq)]
pub struct EncodedEntry {
    bytes: Vec<u8>,
    value_len: usize,
}

impl Clone for EncodedEntry {
    fn clone(&self) -> (copy: Self)
        ensures
            copy.spec_bytes() == self.spec_bytes(),
            copy.spec_value_len() == self.spec_value_len(),
    {
        proof {
            use_type_invariant(self);
        }
        EncodedEntry {
            bytes: vstd::slice::slice_to_vec(self.bytes.as_slice()),
            value_len: self.value_len,
        }
    }
}

impl EncodedEntry {
    /// The byte form.
    pub closed spec fn spec_bytes(&self) -> Seq<u8> {
        self.bytes@
    }

    /// Length of the value at the tail.
    pub closed spec fn spec_value_len(&self) -> nat {
        self.value_len as nat
    }

    /// The value lies within the bytes.
    #[verifier::type_invariant]
    spec fn value_fits(&self) -> bool {
        self.value_len <= self.bytes@.len()
    }

    pub fn as_bytes(&self) -> (bytes: &[u8])
        ensures
            bytes@ == self.spec_bytes(),
    {
        self.bytes.as_slice()
    }

    pub fn into_bytes(self) -> (bytes: Vec<u8>)
        ensures
            bytes@ == self.spec_bytes(),
    {
        self.bytes
    }

    pub fn len(&self) -> (n: usize)
        ensures
            n == self.spec_bytes().len(),
    {
        self.bytes.len()
    }

    pub fn is_empty(&self) -> (b: bool)
        ensures
            b == (self.spec_bytes().len() == 0),
    {
        self.bytes.len() == 0
    }

    /// Length, in bytes, of the value portion at the tail.
    pub fn value_len(&self) -> (n: usize)
        ensures
            n == self.spec_value_len(),
            n <= self.spec_bytes().len(),
    {
        proof {
            use_type_invariant(self);
        }
        self.value_len
    }

    pub fn as_ref(&self) -> (bytes: &[u8])
        ensures
            bytes@ == self.spec_bytes(),
    {
        self.bytes.as_slice()
    }
}

/// The part of an entry that its checksum covers.
pub open spec fn checked_part(
    key: Seq<u8>,
    value: Seq<u8>,
    tombstone: bool,
    timestamp: u32,
) -> Seq<u8> {
    super::le_u32(timestamp) + super::le_u32(super::ksz_field(key.len() as u32, tombstone))
        + super::le_u32((value.len() % 0x1_0000_0000) as u32) + key + value
}

/// The byte form of an entry.
pub open spec fn entry_bytes(
    key: Seq<u8>,
    value: Seq<u8>,
    tombstone: bool,
    timestamp: u32,
) -> Seq<u8> {
    let rest = checked_part(key, value, tombstone, timestamp);
    super::le_u32(super::crc32(rest)) + rest
}

/// Encodes a whole entry, checksum included. The value-size field has 32 bits: of a longer
/// value's length it holds the low ones.
pub fn encode_entry(key: &[u8], value: &[u8], tombstone: bool, timestamp: u32) -> (encoded:
    EncodedEntry)
    requires
        key@.len() <= MAX_KEY_LEN,
    ensures
        encoded.spec_bytes() == entry_bytes(key@, value@, tombstone, timestamp),
        encoded.spec_value_len() == value@.len(),
{
    let value_len: usize = value.len();
    let mut rest: Vec<u8> = Vec::new();
    push_u32(&mut rest, timestamp);
    push_u32(&mut rest, encode_ksz(key.len() as u32, tombstone));
    push_u32(&mut rest, (value_len as u64 % 0x1_0000_0000) as u32);
    push_bytes(&mut rest, key);
    push_bytes(&mut rest, value);
    assert(rest@ =~= checked_part(key@, value@, tombstone, timestamp));

    let mut bytes: Vec<u8> = Vec::new();
    push_u32(&mut bytes, checksum(rest.as_slice()));
    push_bytes(&mut bytes, rest.as_slice());
    assert(bytes@ =~= entry_bytes(key@, value@, tombstone, timestamp));
    EncodedEntry { bytes, value_len }
}

/// The header fields at the start of `bytes`.
pub open spec fn header_of(bytes: Seq<u8>) -> EntryHeader {
    let (key_size, tombstone) = super::ksz_parts(super::u32_at(bytes, 8));
    EntryHeader {
        timestamp: super::u32_at(bytes, 4),
        key_size,
        value_size: super::u32_at(bytes, 12),
        tombstone,
    }
}

/// Decodes the fixed-size header: the stored checksum and the header fields.
pub fn decode_entry_header(buf: &[u8; HEADER_SIZE]) -> (decoded: (u32, EntryHeader))
    ensures
        decoded == (super::u32_at(buf@, 0), header_of(buf@)),
{
    let bytes = buf.as_slice();
    let (key_size, tombstone) = decode_ksz(get_u32(bytes, 8));
    (
        get_u32(bytes, 0),
        EntryHeader {
            timestamp: get_u32(bytes, 4),
            key_size,
            value_size: get_u32(bytes, 12),
            tombstone,
        },
    )
}

/// Whether `crc` is the checksum of everything in an entry that follows the checksum field.
pub fn verify_crc(crc: u32, rest_of_entry: &[u8]) -> (b: bool)
    ensures
        b == (crc == super::crc32(rest_of_entry@)),
{
    checksum(rest_of_entry) == crc
}

/// What stands at the place of an entry in a data file.
#[derive(Debug)]
pub enum EntryRead {
    /// A whole entry with the right checksum, and its length in the file.
    Complete(Entry, u64),
    /// The bytes end before the header, or the body that it announces, does.
    Truncated,
    /// A whole entry whose checksum does not match, and its length in the file.
    CrcMismatch { total_len: u64 },
}

/// What an [`EntryRead`] says.
#[verifier::ext_equal]
pub enum EntryReadView {
    Complete(EntryView, nat),
    Truncated,
    CrcMismatch { total_len: nat },
}

impl View for EntryRead {
    type V = EntryReadView;

    open spec fn view(&self) -> EntryReadView {
        match *self {
            EntryRead::Complete(entry, total_len) => EntryReadView::Complete(entry@, total_len as nat),
            EntryRead::Truncated => EntryReadView::Truncated,
            EntryRead::CrcMismatch { total_len } => EntryReadView::CrcMismatch {
                total_len: total_len as nat,
            },
        }
    }
}

/// Length that a header announces for its entry.
pub open spec fn announced_len(header: EntryHeader) -> nat {
    (HEADER_SIZE + header.key_size + header.value_size) as nat
}

/// What stands at the start of `bytes`, which end where the file ends. `None` is the end of
/// the file.
pub open spec fn parse_entry(bytes: Seq<u8>) -> Option<EntryReadView> {
    let header = header_of(bytes);
    let total_len = announced_len(header);
    let value_start = HEADER_SIZE + header.key_size;
    if bytes.len() == 0 {
        None
    } else if bytes.len() < HEADER_SIZE || bytes.len() < total_len {
        Some(EntryReadView::Truncated)
    } else if super::crc32(bytes.subrange(4, total_len as int)) != super::u32_at(bytes, 0) {
        Some(EntryReadView::CrcMismatch { total_len })
    } else {
        Some(
            EntryReadView::Complete(
                EntryView {
                    header,
                    key: bytes.subrange(HEADER_SIZE as int, value_start),
                    value: bytes.subrange(value_start, total_len as int),
                },
                total_len,
            ),
        )
    }
}

/// How many bytes reading one entry takes off `bytes`.
pub open spec fn entry_read_len(bytes: Seq<u8>) -> nat {
    match parse_entry(bytes) {
        None => 0,
        Some(EntryReadView::Truncated) => bytes.len(),
        Some(EntryReadView::Complete(_, total_len)) => total_len,
        Some(EntryReadView::CrcMismatch { total_len }) => total_len,
    }
}

/// Copies the fixed-size header out of a slice of that size.
fn header_array(h: &[u8]) -> (buf: [u8; HEADER_SIZE])
    requires
        h@.len() == HEADER_SIZE,
    ensures
        buf@ == h@,
{
    let buf: [u8; HEADER_SIZE] = [
        h[0], h[1], h[2], h[3], h[4], h[5], h[6], h[7],
        h[8], h[9], h[10], h[11], h[12], h[13], h[14], h[15],
    ];
    assert(buf@ =~= h@);
    buf
}

/// Reads one entry from `r`, which stands at the start of an entry. `None` is a clean end at
/// an entry boundary.
pub fn read_entry(r: &mut ByteReader<'_>) -> (read: Option<EntryRead>)
    ensures
        (match read {
            None => None,
            Some(e) => Some(e@),
        }) == parse_entry(old(r).rest()),
        final(r).rest() == old(r).rest().skip(entry_read_len(old(r).rest()) as int),
{
    let ghost all = r.rest();
    let head = read_up_to(r, HEADER_SIZE);
    if head.len() == 0 {
        assert(all.skip(0) =~= all);
        return None;
    }
    if head.len() < HEADER_SIZE {
        assert(all.skip(all.len() as int) =~= Seq::<u8>::empty());
        return Some(EntryRead::Truncated);
    }
    let (crc, header) = decode_entry_header(&header_array(head));
    proof {
        assert(header_of(head@) == header_of(all));
        assert(super::u32_at(head@, 0) == super::u32_at(all, 0));
    }
    let body_len: u64 = header.key_size as u64 + header.value_size as u64;
    let want: usize = if body_len <= usize::MAX as u64 {
        body_len as usize
    } else {
        usize::MAX
    };
    let body = read_up_to(r, want);
    if (body.len() as u64) < body_len {
        assert(all.skip(all.len() as int) =~= r.rest());
        return Some(EntryRead::Truncated);
    }
    let ghost total = announced_len(header);
    let mut rest: Vec<u8> = Vec::new();
    push_bytes(&mut rest, vstd::slice::slice_subrange(head, 4, HEADER_SIZE));
    push_bytes(&mut rest, body);
    proof {
        assert(rest@ =~= all.subrange(4, total as int));
        assert(r.rest() =~= all.skip(total as int));
    }
    let total_len: u64 = HEADER_SIZE as u64 + body_len;
    if !verify_crc(crc, rest.as_slice()) {
        return Some(EntryRead::CrcMismatch { total_len });
    }
    let key_size = header.key_size as usize;
    let key = vstd::slice::slice_to_vec(vstd::slice::slice_subrange(body, 0, key_size));
    let value = vstd::slice::slice_to_vec(vstd::slice::slice_subrange(body, key_size, body.len()));
    proof {
        assert(key@ =~= all.subrange(HEADER_SIZE as int, HEADER_SIZE + header.key_size));
        assert(value@ =~= all.subrange(HEADER_SIZE + header.key_size, total as int));
    }
    Some(EntryRead::Complete(Entry { header, key, value }, total_len))
}

/// The entry whose byte form is `entry_bytes(key, value, tombstone, timestamp)`.
pub open spec fn entry_of(
    key: Seq<u8>,
    value: Seq<u8>,
    tombstone: bool,
    timestamp: u32,
) -> EntryView {
    EntryView {
        header: EntryHeader {
            timestamp,
            key_size: key.len() as u32,
            value_size: value.len() as u32,
            tombstone,
        },
        key,
        value,
    }
}

/// Where the fields lie in the byte form of an entry that other bytes may follow.
proof fn lemma_entry_layout(
    key: Seq<u8>,
    value: Seq<u8>,
    tombstone: bool,
    timestamp: u32,
    bytes: Seq<u8>,
)
    requires
        key.len() <= MAX_KEY_LEN,
        value.len() <= u32::MAX,
        bytes.len() >= HEADER_SIZE,
        forall|i: int|
            0 <= i < HEADER_SIZE ==> #[trigger] bytes[i] == entry_bytes(
                key,
                value,
                tombstone,
                timestamp,
            )[i],
    ensures
        header_of(bytes) == entry_of(key, value, tombstone, timestamp).header,
        super::u32_at(bytes, 0) == super::crc32(checked_part(key, value, tombstone, timestamp)),
        entry_bytes(key, value, tombstone, timestamp).len() == HEADER_SIZE + key.len() + value.len(),
{
    let rest = checked_part(key, value, tombstone, timestamp);
    let whole = entry_bytes(key, value, tombstone, timestamp);
    let ksz = super::ksz_field(key.len() as u32, tombstone);
    super::law_ksz_round_trip(key.len() as u32, tombstone);
    assert(bytes.subrange(0, 4) =~= super::le_u32(super::crc32(rest)));
    assert(bytes.subrange(4, 8) =~= super::le_u32(timestamp));
    assert(bytes.subrange(8, 12) =~= super::le_u32(ksz));
    assert(bytes.subrange(12, 16) =~= super::le_u32(value.len() as u32));
    super::lemma_u32_round_trip(super::crc32(rest), bytes, 0);
    super::lemma_u32_round_trip(timestamp, bytes, 4);
    super::lemma_u32_round_trip(ksz, bytes, 8);
    super::lemma_u32_round_trip(value.len() as u32, bytes, 12);
}

/// Reading back an encoded entry gives the entry and its length, whatever follows it in the
/// file.
pub proof fn law_entry_round_trip(
    key: Seq<u8>,
    value: Seq<u8>,
    tombstone: bool,
    timestamp: u32,
    after: Seq<u8>,
)
    requires
        key.len() <= MAX_KEY_LEN,
        value.len() <= u32::MAX,
    ensures
        entry_bytes(key, value, tombstone, timestamp).len() == HEADER_SIZE + key.len() + value.len(),
        parse_entry(entry_bytes(key, value, tombstone, timestamp) + after) == Some(
            EntryReadView::Complete(
                entry_of(key, value, tombstone, timestamp),
                entry_bytes(key, value, tombstone, timestamp).len(),
            ),
        ),
{
    let whole = entry_bytes(key, value, tombstone, timestamp);
    let bytes = whole + after;
    lemma_entry_layout(key, value, tombstone, timestamp, bytes);
    let value_start = HEADER_SIZE + key.len();
    assert(bytes.subrange(4, whole.len() as int) =~= checked_part(key, value, tombstone, timestamp));
    assert(bytes.subrange(HEADER_SIZE as int, value_start) =~= key);
    assert(bytes.subrange(value_start, whole.len() as int) =~= value);
}

/// An entry that is cut off anywhere after its first byte is seen to be cut off.
pub proof fn law_entry_truncation(
    key: Seq<u8>,
    value: Seq<u8>,
    tombstone: bool,
    timestamp: u32,
    cut: int,
)
    requires
        key.len() <= MAX_KEY_LEN,
        value.len() <= u32::MAX,
        0 < cut < entry_bytes(key, value, tombstone, timestamp).len(),
    ensures
        parse_entry(entry_bytes(key, value, tombstone, timestamp).take(cut)) == Some(
            EntryReadView::Truncated,
        ),
{
    let bytes = entry_bytes(key, value, tombstone, timestamp).take(cut);
    if cut >= HEADER_SIZE {
        lemma_entry_layout(key, value, tombstone, timestamp, bytes);
    }
}

/// A whole entry whose stored checksum is not that of the rest of it is told apart from a
/// good one and from a cut-off one.
pub proof fn law_corruption_is_detected(bytes: Seq<u8>)
    requires
        bytes.len() >= HEADER_SIZE,
        bytes.len() >= announced_len(header_of(bytes)),
    ensures
        (parse_entry(bytes) == Some(
            EntryReadView::CrcMismatch { total_len: announced_len(header_of(bytes)) },
        )) <==> super::crc32(bytes.subrange(4, announced_len(header_of(bytes)) as int))
            != super::u32_at(bytes, 0),
{
}

/// A good entry of which one byte was changed, in its checksum, its timestamp, its key or its
/// value, is told to be corrupt. A change of one of the two lengths is left out: what the entry is
/// then read as depends on the bytes after it.
pub proof fn law_a_changed_byte_is_detected(bytes: Seq<u8>, at: int, byte: u8)
    requires
        parse_entry(bytes) is Some,
        parse_entry(bytes)->0 is Complete,
        0 <= at < 8 || HEADER_SIZE <= at < announced_len(header_of(bytes)),
        byte != bytes[at],
    ensures
        parse_entry(bytes.update(at, byte)) == Some(
            EntryReadView::CrcMismatch { total_len: announced_len(header_of(bytes)) },
        ),
{
    let changed = bytes.update(at, byte);
    let total_len = announced_len(header_of(bytes)) as int;
    let checked = bytes.subrange(4, total_len);
    assert(announced_len(header_of(changed)) == total_len);
    if at < 4 {
        assert(changed.subrange(4, total_len) =~= checked);
        assert(super::u32_at(changed, 0) != super::u32_at(bytes, 0));
    } else {
        assert(changed.subrange(4, total_len) =~= checked.update(at - 4, byte));
        super::law_checksum_tells_a_changed_byte(checked, at - 4, byte);
        assert(super::u32_at(changed, 0) == super::u32_at(bytes, 0));
    }
}

} // verus!
