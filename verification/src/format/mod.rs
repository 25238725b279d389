//! Byte layout of the two files that a datastore directory holds.
//!
//! A data file is a run of entries, each with a 16-byte header. All integers are
//! little-endian.
//!
//! ```text
//! offset  size      field
//! 0       4         crc            CRC32 of bytes [4..end) of this entry
//! 4       4         timestamp      unix seconds
//! 8       4         key size       bit 31 = tombstone flag, bits 0..30 = key length
//! 12      4         value size     0 for tombstones
//! 16      ksz       key
//! 16+ksz  value_sz  value
//! ```
//!
//! A hint file is a run of records, each with a 20-byte header, followed by the
//! CRC32 of all the records.
//!
//! ```text
//! offset  size  field
//! 0       4     timestamp
//! 4       4     key size       (same encoding as in the data file)
//! 8       4     value size
//! 12      8     value position in the data file
//! 20      ksz   key
//! ```
use vstd::prelude::*;

pub mod entry;
pub mod hint;

pub use entry::{
    decode_entry_header, encode_entry, read_entry, verify_crc, EncodedEntry, Entry, EntryRead,
    HEADER_SIZE,
};
pub use hint::{
    decode_hint_header, encode_hint, finish_hint_file, read_hint, verify_hint_file, EncodedHint,
    HintRead, HINT_HEADER_SIZE, HINT_TRAILER_SIZE,
};

verus! {

/// Largest key length that the 31 bits beside the tombstone flag can hold.
pub const MAX_KEY_LEN: u32 = 0x7fff_ffff;

const TOMBSTONE_BIT: u32 = 0x8000_0000;

/// Header fields that entries and hint records share.
#[derive(Clone, Copy, Debug, PartialEq, Eq, Structural)]
pub struct EntryHeader {
    pub timestamp: u32,
    pub key_size: u32,
    pub value_size: u32,
    pub tombstone: bool,
}

/// The four bytes of `x`, least significant first.
pub open spec fn le_u32(x: u32) -> Seq<u8> {
    seq![
        (x % 256) as u8,
        (x / 256 % 256) as u8,
        (x / 65536 % 256) as u8,
        (x / 16777216) as u8,
    ]
}

/// The number whose four bytes, least significant first, start at `at`.
pub open spec fn u32_at(bytes: Seq<u8>, at: int) -> u32 {
    (bytes[at] + bytes[at + 1] * 256 + bytes[at + 2] * 65536 + bytes[at + 3] * 16777216) as u32
}

/// The eight bytes of `x`, least significant first.
pub open spec fn le_u64(x: u64) -> Seq<u8> {
    le_u32((x % 0x1_0000_0000) as u32) + le_u32((x / 0x1_0000_0000) as u32)
}

/// The number whose eight bytes, least significant first, start at `at`.
pub open spec fn u64_at(bytes: Seq<u8>, at: int) -> u64 {
    (u32_at(bytes, at) + u32_at(bytes, at + 4) * 0x1_0000_0000) as u64
}

/// The key-size field: the key length, with the top bit set for a tombstone.
pub open spec fn ksz_field(key_len: u32, tombstone: bool) -> u32 {
    if tombstone {
        (key_len + 0x8000_0000) as u32
    } else {
        key_len
    }
}

/// What a key-size field says: the key length and the tombstone flag.
pub open spec fn ksz_parts(raw: u32) -> (u32, bool) {
    (raw % 0x8000_0000, raw >= 0x8000_0000)
}

/// Packs a key length and the tombstone flag into one number.
pub fn encode_ksz(key_len: u32, tombstone: bool) -> (raw: u32)
    requires
        key_len <= MAX_KEY_LEN,
    ensures
        raw == ksz_field(key_len, tombstone),
{
    assert(key_len <= 0x7fff_ffffu32 ==> key_len | 0x8000_0000u32 == key_len + 0x8000_0000u32
        && key_len | 0u32 == key_len) by (bit_vector);
    key_len | if tombstone {
        TOMBSTONE_BIT
    } else {
        0
    }
}

/// Inverse of [`encode_ksz`].
pub fn decode_ksz(raw: u32) -> (parts: (u32, bool))
    ensures
        parts == ksz_parts(raw),
{
    assert(raw & 0x7fff_ffffu32 == raw % 0x8000_0000u32) by (bit_vector);
    assert((raw & 0x8000_0000u32 != 0) == (raw >= 0x8000_0000u32)) by (bit_vector);
    (raw & MAX_KEY_LEN, raw & TOMBSTONE_BIT != 0)
}

/// One step of the division that a CRC is the remainder of, with the bits in reflected order: the
/// lowest bit is shifted out, and the polynomial is taken off if it was set.
pub open spec fn crc_bit(crc: u32) -> u32 {
    if crc & 1 == 1 {
        (crc >> 1u32) ^ 0xedb8_8320
    } else {
        crc >> 1u32
    }
}

/// The remainder after one more byte.
pub open spec fn crc_byte(crc: u32, byte: u8) -> u32 {
    let mixed = crc ^ (byte as u32);
    crc_bit(crc_bit(crc_bit(crc_bit(crc_bit(crc_bit(crc_bit(crc_bit(mixed))))))))
}

/// The remainder after all bytes, from all bits set.
pub open spec fn crc_run(bytes: Seq<u8>) -> u32
    decreases bytes.len(),
{
    if bytes.len() == 0 {
        0xffff_ffff
    } else {
        crc_byte(crc_run(bytes.drop_last()), bytes.last())
    }
}

/// The CRC32 (IEEE) checksum of `bytes`: the remainder with all bits flipped.
#[verifier::opaque]
pub open spec fn crc32(bytes: Seq<u8>) -> u32 {
    crc_run(bytes) ^ 0xffff_ffff
}

proof fn lemma_crc_bit_tells_apart(x: u32, y: u32)
    requires
        x != y,
    ensures
        crc_bit(x) != crc_bit(y),
{
    assert(x != y ==> crc_bit(x) != crc_bit(y)) by (bit_vector);
}

/// Different remainders stay different whatever byte follows.
proof fn lemma_crc_byte_tells_apart(x: u32, y: u32, byte: u8)
    requires
        x != y,
    ensures
        crc_byte(x, byte) != crc_byte(y, byte),
{
    let b = byte as u32;
    assert(x != y ==> x ^ b != y ^ b) by (bit_vector);
    lemma_crc_mixed_tells_apart(x ^ b, y ^ b);
}

proof fn lemma_crc_mixed_tells_apart(x: u32, y: u32)
    requires
        x != y,
    ensures
        ({
            let a = crc_bit(crc_bit(crc_bit(crc_bit(crc_bit(crc_bit(crc_bit(crc_bit(x))))))));
            let b = crc_bit(crc_bit(crc_bit(crc_bit(crc_bit(crc_bit(crc_bit(crc_bit(y))))))));
            a != b
        }),
{
    lemma_crc_bit_tells_apart(x, y);
    let (x, y) = (crc_bit(x), crc_bit(y));
    lemma_crc_bit_tells_apart(x, y);
    let (x, y) = (crc_bit(x), crc_bit(y));
    lemma_crc_bit_tells_apart(x, y);
    let (x, y) = (crc_bit(x), crc_bit(y));
    lemma_crc_bit_tells_apart(x, y);
    let (x, y) = (crc_bit(x), crc_bit(y));
    lemma_crc_bit_tells_apart(x, y);
    let (x, y) = (crc_bit(x), crc_bit(y));
    lemma_crc_bit_tells_apart(x, y);
    let (x, y) = (crc_bit(x), crc_bit(y));
    lemma_crc_bit_tells_apart(x, y);
    let (x, y) = (crc_bit(x), crc_bit(y));
    lemma_crc_bit_tells_apart(x, y);
}

proof fn lemma_crc_run_tells_apart(bytes: Seq<u8>, at: int, byte: u8)
    requires
        0 <= at < bytes.len(),
        byte != bytes[at],
    ensures
        crc_run(bytes.update(at, byte)) != crc_run(bytes),
    decreases bytes.len(),
{
    let changed = bytes.update(at, byte);
    let last = bytes.len() - 1;
    if at < last {
        assert(changed.drop_last() =~= bytes.drop_last().update(at, byte));
        lemma_crc_run_tells_apart(bytes.drop_last(), at, byte);
        lemma_crc_byte_tells_apart(
            crc_run(changed.drop_last()),
            crc_run(bytes.drop_last()),
            bytes.last(),
        );
    } else {
        let crc = crc_run(bytes.drop_last());
        let old_byte = bytes.last();
        assert(changed.drop_last() =~= bytes.drop_last());
        assert(byte != old_byte ==> crc ^ (byte as u32) != crc ^ (old_byte as u32)) by (bit_vector);
        lemma_crc_mixed_tells_apart(crc ^ (byte as u32), crc ^ (old_byte as u32));
    }
}

/// A change of one byte changes the checksum.
pub proof fn law_checksum_tells_a_changed_byte(bytes: Seq<u8>, at: int, byte: u8)
    requires
        0 <= at < bytes.len(),
        byte != bytes[at],
    ensures
        crc32(bytes.update(at, byte)) != crc32(bytes),
{
    reveal(crc32);
    lemma_crc_run_tells_apart(bytes, at, byte);
    let x = crc_run(bytes.update(at, byte));
    let y = crc_run(bytes);
    assert(x != y ==> x ^ 0xffff_ffff != y ^ 0xffff_ffff) by (bit_vector);
}

/// Calls `crc32fast::hash`. Claimed of it: it gives the CRC32 (IEEE) checksum of the bytes.
#[verifier::external_body]
pub(crate) fn checksum(bytes: &[u8]) -> (crc: u32)
    ensures
        crc == crc32(bytes@),
{
    crc32fast::hash(bytes)
}

/// Appends the four bytes of `x`.
pub(crate) fn push_u32(buf: &mut Vec<u8>, x: u32)
    ensures
        final(buf)@ == old(buf)@ + le_u32(x),
{
    buf.push((x % 256) as u8);
    buf.push((x / 256 % 256) as u8);
    buf.push((x / 65536 % 256) as u8);
    buf.push((x / 16777216) as u8);
    assert(buf@ =~= old(buf)@ + le_u32(x));
}

/// Appends the eight bytes of `x`.
pub(crate) fn push_u64(buf: &mut Vec<u8>, x: u64)
    ensures
        final(buf)@ == old(buf)@ + le_u64(x),
{
    push_u32(buf, (x % 0x1_0000_0000) as u32);
    push_u32(buf, (x / 0x1_0000_0000) as u32);
    assert(buf@ =~= old(buf)@ + le_u64(x));
}

/// Appends a copy of `bytes`.
pub(crate) fn push_bytes(buf: &mut Vec<u8>, bytes: &[u8])
    ensures
        final(buf)@ == old(buf)@ + bytes@,
{
    buf.extend_from_slice(bytes);
    assert(buf@ =~= old(buf)@ + bytes@);
}

/// Reads the number whose four bytes start at `at`.
pub(crate) fn get_u32(bytes: &[u8], at: usize) -> (x: u32)
    requires
        at + 4 <= bytes@.len(),
    ensures
        x == u32_at(bytes@, at as int),
{
    bytes[at] as u32 + bytes[at + 1] as u32 * 256 + bytes[at + 2] as u32 * 65536 + bytes[at + 3] as u32
        * 16777216
}

/// Reads the number whose eight bytes start at `at`.
pub(crate) fn get_u64(bytes: &[u8], at: usize) -> (x: u64)
    requires
        at + 8 <= bytes@.len(),
    ensures
        x == u64_at(bytes@, at as int),
{
    let len: usize = bytes.len();
    assert(at + 4 <= len);
    get_u32(bytes, at) as u64 + get_u32(bytes, at + 4) as u64 * 0x1_0000_0000
}

/// A number is read back from its own four bytes.
pub proof fn lemma_u32_round_trip(x: u32, bytes: Seq<u8>, at: int)
    requires
        0 <= at,
        at + 4 <= bytes.len(),
        bytes.subrange(at, at + 4) == le_u32(x),
    ensures
        u32_at(bytes, at) == x,
{
    let s = bytes.subrange(at, at + 4);
    assert(s[0] == bytes[at] && s[1] == bytes[at + 1] && s[2] == bytes[at + 2] && s[3] == bytes[at
        + 3]);
}

/// A number is read back from its own eight bytes.
pub proof fn lemma_u64_round_trip(x: u64, bytes: Seq<u8>, at: int)
    requires
        0 <= at,
        at + 8 <= bytes.len(),
        bytes.subrange(at, at + 8) == le_u64(x),
    ensures
        u64_at(bytes, at) == x,
{
    let s = bytes.subrange(at, at + 8);
    let low = (x % 0x1_0000_0000) as u32;
    let high = (x / 0x1_0000_0000) as u32;
    assert(bytes.subrange(at, at + 4) =~= s.subrange(0, 4));
    assert(s.subrange(0, 4) =~= le_u32(low));
    assert(bytes.subrange(at + 4, at + 8) =~= s.subrange(4, 8));
    assert(s.subrange(4, 8) =~= le_u32(high));
    lemma_u32_round_trip(low, bytes, at);
    lemma_u32_round_trip(high, bytes, at + 4);
}

/// The key length and the flag survive the trip through the key-size field.
pub proof fn law_ksz_round_trip(key_len: u32, tombstone: bool)
    requires
        key_len <= MAX_KEY_LEN,
    ensures
        ksz_parts(ksz_field(key_len, tombstone)) == (key_len, tombstone),
{
}

/// A position in a run of bytes, moved forward by reading.
pub struct ByteReader<'a> {
    bytes: &'a [u8],
    pos: usize,
}

impl<'a> ByteReader<'a> {
    /// The bytes that were not read yet.
    pub closed spec fn rest(&self) -> Seq<u8> {
        self.bytes@.skip(self.pos as int)
    }

    #[verifier::type_invariant]
    spec fn in_bounds(&self) -> bool {
        self.pos <= self.bytes@.len()
    }

    /// Starts at the first byte.
    pub fn new(bytes: &'a [u8]) -> (r: ByteReader<'a>)
        ensures
            r.rest() == bytes@,
    {
        assert(bytes@.skip(0) =~= bytes@);
        ByteReader { bytes, pos: 0 }
    }
}

/// Reads `len` bytes, or as many as are left.
pub fn read_up_to<'a>(r: &mut ByteReader<'a>, len: usize) -> (got: &'a [u8])
    ensures
        len <= old(r).rest().len() ==> got@ == old(r).rest().take(len as int)
            && final(r).rest() == old(r).rest().skip(len as int),
        len > old(r).rest().len() ==> got@ == old(r).rest() && final(r).rest() == Seq::<u8>::empty(),
        got@.len() + final(r).rest().len() <= usize::MAX,
{
    proof {
        use_type_invariant(&*r);
    }
    let start = r.pos;
    let left: usize = r.bytes.len() - start;
    let n: usize = if len <= left {
        len
    } else {
        left
    };
    r.pos = start + n;
    assert(r.rest() =~= old(r).rest().skip(n as int));
    let got = vstd::slice::slice_subrange(r.bytes, start, start + n);
    assert(got@ =~= old(r).rest().take(n as int));
    got
}

} // verus!
