//! Entries and hint records as bytes.
use vstd::prelude::*;

use super::{eight_bytes, four_bytes};
use crate::format::{
    ByteReader, EncodedEntry, EncodedHint, Entry, EntryHeader, EntryRead, HintRead,
};

verus! {

/// The key length in the header of an entry: the low 31 bits of its field.
pub open spec fn key_len_at(bytes: Seq<u8>, at: int) -> int {
    four_bytes(bytes, at) % 0x8000_0000
}

/// Whether a block of bytes is as long as an entry with its header is to be.
pub open spec fn is_whole_entry(block: Seq<u8>) -> bool {
    &&& block.len() >= 16
    &&& block.len() == 16 + key_len_at(block, 8) + four_bytes(block, 12)
}

/// Whether the first four bytes of a block are the CRC32 of all others.
pub open spec fn has_right_crc(block: Seq<u8>) -> bool {
    four_bytes(block, 0) == crate::format::crc32(block.skip(4))
}

/// Whether bytes end before an entry that begins with them does.
pub open spec fn is_cut_entry(tail: Seq<u8>) -> bool {
    &&& tail.len() > 0
    &&& tail.len() < 16 || tail.len() < 16 + key_len_at(tail, 8) + four_bytes(tail, 12)
}

proof fn lemma_four(bytes: Seq<u8>, at: int)
    ensures
        crate::format::u32_at(bytes, at) == four_bytes(bytes, at),
{
}

pub proof fn lemma_le(x: u32)
    ensures
        crate::format::le_u32(x).len() == 4,
        four_bytes(crate::format::le_u32(x), 0) == x,
{
}

/// Whether bytes are an entry as it is documented: the header, the key and the value one after the
/// other. The header has the CRC32 of all that comes after it, the timestamp, the key length with
/// the tombstone flag as its top bit, and the low 32 bits of the value length.
pub open spec fn is_entry(
    bytes: Seq<u8>,
    key: Seq<u8>,
    value: Seq<u8>,
    tombstone: bool,
    timestamp: u32,
) -> bool {
    &&& bytes.len() == 16 + key.len() + value.len()
    &&& has_right_crc(bytes)
    &&& four_bytes(bytes, 4) == timestamp
    &&& four_bytes(bytes, 8) == key.len() + if tombstone {
        0x8000_0000int
    } else {
        0
    }
    &&& four_bytes(bytes, 12) == value.len() % 0x1_0000_0000
    &&& bytes.subrange(16, 16int + key.len()) == key
    &&& bytes.skip(16int + key.len()) == value
}

pub proof fn lemma_is_entry(key: Seq<u8>, value: Seq<u8>, tombstone: bool, timestamp: u32)
    requires
        key.len() <= 0x7fff_ffff,
    ensures
        is_entry(
            crate::format::entry::entry_bytes(key, value, tombstone, timestamp),
            key,
            value,
            tombstone,
            timestamp,
        ),
{
    let bytes = crate::format::entry::entry_bytes(key, value, tombstone, timestamp);
    let rest = crate::format::entry::checked_part(key, value, tombstone, timestamp);
    let ksz = crate::format::ksz_field(key.len() as u32, tombstone);
    let size = (value.len() % 0x1_0000_0000) as u32;
    lemma_le(crate::format::crc32(rest));
    lemma_le(timestamp);
    lemma_le(ksz);
    lemma_le(size);
    assert(bytes.skip(4) =~= rest);
    assert(bytes.subrange(0, 4) =~= crate::format::le_u32(crate::format::crc32(rest)));
    assert(bytes.subrange(4, 8) =~= crate::format::le_u32(timestamp));
    assert(bytes.subrange(8, 12) =~= crate::format::le_u32(ksz));
    assert(bytes.subrange(12, 16) =~= crate::format::le_u32(size));
    assert(four_bytes(bytes, 0) == four_bytes(bytes.subrange(0, 4), 0));
    assert(four_bytes(bytes, 4) == four_bytes(bytes.subrange(4, 8), 0));
    assert(four_bytes(bytes, 8) == four_bytes(bytes.subrange(8, 12), 0));
    assert(four_bytes(bytes, 12) == four_bytes(bytes.subrange(12, 16), 0));
    assert(bytes.subrange(16, 16int + key.len()) =~= key);
    assert(bytes.skip(16int + key.len()) =~= value);
}

/// An entry is encoded as it is documented.
pub proof fn law_an_entry_is_laid_out_as_documented(
    key: &[u8],
    value: &[u8],
    tombstone: bool,
    timestamp: u32,
    encoded: EncodedEntry,
)
    requires
        call_ensures(crate::format::encode_entry, (key, value, tombstone, timestamp), encoded),
        key@.len() <= 0x7fff_ffff,
    ensures
        is_entry(encoded.spec_bytes(), key@, value@, tombstone, timestamp),
        encoded.spec_value_len() == value@.len(),
{
    lemma_is_entry(key@, value@, tombstone, timestamp);
}

/// One bit of the division that a CRC32 is the remainder of.
pub open spec fn divided_by_a_bit(crc: u32) -> u32 {
    if crc & 1 == 1 {
        (crc >> 1u32) ^ 0xedb8_8320
    } else {
        crc >> 1u32
    }
}

/// Eight bits of it.
pub open spec fn divided_by_a_byte(crc: u32) -> u32 {
    let two = divided_by_a_bit(divided_by_a_bit(crc));
    let four = divided_by_a_bit(divided_by_a_bit(two));
    let six = divided_by_a_bit(divided_by_a_bit(four));
    divided_by_a_bit(divided_by_a_bit(six))
}

/// The checksum is the CRC32 of IEEE 802.3: that of no bytes is zero, and one more byte carries the
/// division on by eight bits.
pub proof fn law_the_checksum_is_the_ieee_crc32(bytes: Seq<u8>, byte: u8)
    ensures
        crate::format::crc32(Seq::empty()) == 0,
        crate::format::crc32(bytes.push(byte)) == divided_by_a_byte(
            crate::format::crc32(bytes) ^ 0xffff_ffff ^ (byte as u32),
        ) ^ 0xffff_ffff,
{
    reveal(crate::format::crc32);
    assert(0xffff_ffffu32 ^ 0xffff_ffffu32 == 0) by (bit_vector);
    let before = crate::format::crc_run(bytes);
    assert(before ^ 0xffff_ffff ^ 0xffff_ffff == before) by (bit_vector);
    assert(bytes.push(byte).drop_last() =~= bytes);
}

/// Reading an entry takes what stands at the start of the bytes: nothing at their end; an entry
/// that is cut off; or a whole one, which is good just if its CRC32 is right, and then has the key
/// and the value that stand in it.
pub proof fn law_an_entry_is_read_as_it_stands(r: &mut ByteReader<'_>, read: Option<EntryRead>)
    requires
        call_ensures(crate::format::read_entry, (r,), read),
    ensures
        ({
            let bytes = old(r).rest();
            let len = 16 + key_len_at(bytes, 8) + four_bytes(bytes, 12);
            match read {
                None => bytes.len() == 0 && final(r).rest() == bytes,
                Some(EntryRead::Truncated) => is_cut_entry(bytes) && final(r).rest().len() == 0,
                Some(EntryRead::CrcMismatch { total_len }) => {
                    &&& bytes.len() > 0 && !is_cut_entry(bytes)
                    &&& !has_right_crc(bytes.take(len))
                    &&& total_len == len
                    &&& final(r).rest() == bytes.skip(len)
                },
                Some(EntryRead::Complete(entry, total_len)) => {
                    &&& bytes.len() > 0 && !is_cut_entry(bytes)
                    &&& has_right_crc(bytes.take(len))
                    &&& total_len == len
                    &&& final(r).rest() == bytes.skip(len)
                    &&& entry.header.timestamp == four_bytes(bytes, 4)
                    &&& entry.header.key_size == key_len_at(bytes, 8)
                    &&& entry.header.value_size == four_bytes(bytes, 12)
                    &&& entry.header.tombstone == (four_bytes(bytes, 8) >= 0x8000_0000)
                    &&& entry.key@ == bytes.subrange(16, 16 + key_len_at(bytes, 8))
                    &&& entry.value@ == bytes.subrange(16 + key_len_at(bytes, 8), len)
                },
            }
        }),
{
    let bytes = old(r).rest();
    let len = 16 + key_len_at(bytes, 8) + four_bytes(bytes, 12);
    lemma_four(bytes, 0);
    lemma_four(bytes, 4);
    lemma_four(bytes, 8);
    lemma_four(bytes, 12);
    if bytes.len() >= 16 && bytes.len() >= len {
        assert(bytes.take(len).skip(4) =~= bytes.subrange(4, len));
        assert(four_bytes(bytes.take(len), 0) == four_bytes(bytes, 0));
    }
    if bytes.len() == 0 {
        assert(bytes.skip(0) =~= bytes);
    }
}

/// What was encoded is read back, whatever comes after it.
pub proof fn law_a_read_gives_back_what_was_encoded(
    key: &[u8],
    value: &[u8],
    tombstone: bool,
    timestamp: u32,
    encoded: EncodedEntry,
    r: &mut ByteReader<'_>,
    read: Option<EntryRead>,
    after: Seq<u8>,
)
    requires
        call_ensures(crate::format::encode_entry, (key, value, tombstone, timestamp), encoded),
        key@.len() <= 0x7fff_ffff,
        value@.len() <= 0xffff_ffff,
        old(r).rest() == encoded.spec_bytes() + after,
        call_ensures(crate::format::read_entry, (r,), read),
    ensures
        read is Some,
        read->0 is Complete,
        ({
            let (entry, total_len) = (read->0->Complete_0, read->0->Complete_1);
            &&& entry.key@ == key@
            &&& entry.value@ == value@
            &&& entry.header.tombstone == tombstone
            &&& entry.header.timestamp == timestamp
            &&& total_len == 16 + key@.len() + value@.len()
        }),
        final(r).rest() == after,
{
    let none = Seq::<u8>::empty();
    crate::format::entry::law_entry_round_trip(key@, value@, tombstone, timestamp, after);
    let whole = crate::format::entry::entry_bytes(key@, value@, tombstone, timestamp);
    assert((whole + after).skip(whole.len() as int) =~= after);
}

/// The key-size field is the key length, with a bit of its own for the flag.
pub proof fn law_the_flag_has_a_bit_of_its_own(key_len: u32, tombstone: bool, raw: u32)
    requires
        call_ensures(crate::format::encode_ksz, (key_len, tombstone), raw),
        key_len <= 0x7fff_ffff,
    ensures
        raw == key_len + if tombstone {
            0x8000_0000int
        } else {
            0
        },
{
}

/// A key-size field is taken apart as it was put together.
pub proof fn law_the_flag_is_read_back(raw: u32, parts: (u32, bool))
    requires
        call_ensures(crate::format::decode_ksz, (raw,), parts),
    ensures
        parts.0 <= 0x7fff_ffff,
        raw == parts.0 + if parts.1 {
            0x8000_0000int
        } else {
            0
        },
{
}

/// The fields of an entry's header stand where they are documented.
pub proof fn law_an_entry_header_is_decoded(buf: &[u8; 16], decoded: (u32, EntryHeader))
    requires
        call_ensures(crate::format::decode_entry_header, (buf,), decoded),
    ensures
        decoded.0 == four_bytes(buf@, 0),
        decoded.1.timestamp == four_bytes(buf@, 4),
        decoded.1.key_size == key_len_at(buf@, 8),
        decoded.1.tombstone == (four_bytes(buf@, 8) >= 0x8000_0000),
        decoded.1.value_size == four_bytes(buf@, 12),
{
}

/// A checksum is accepted just if it is the right one.
pub proof fn law_a_checksum_is_compared(crc: u32, rest: &[u8], good: bool)
    requires
        call_ensures(crate::format::verify_crc, (crc, rest), good),
    ensures
        good <==> crc == crate::format::crc32(rest@),
{
}

/// A hint record has its header and then its key. The header has the timestamp, the key length
/// with the tombstone flag as its top bit, the value length and the place of the value.
pub proof fn law_a_hint_is_laid_out_as_documented(
    key: &[u8],
    header: EntryHeader,
    value_pos: u64,
    encoded: EncodedHint,
)
    requires
        call_ensures(crate::format::encode_hint, (key, &header, value_pos), encoded),
        header.key_size <= 0x7fff_ffff,
    ensures
        ({
            let bytes = encoded.spec_bytes();
            &&& bytes.len() == 20 + key@.len()
            &&& four_bytes(bytes, 0) == header.timestamp
            &&& four_bytes(bytes, 4) == header.key_size + if header.tombstone {
                0x8000_0000int
            } else {
                0
            }
            &&& four_bytes(bytes, 8) == header.value_size
            &&& eight_bytes(bytes, 12) == value_pos
            &&& bytes.skip(20) == key@
        }),
{
    let bytes = encoded.spec_bytes();
    let ksz = crate::format::ksz_field(header.key_size, header.tombstone);
    let low = (value_pos % 0x1_0000_0000) as u32;
    let high = (value_pos / 0x1_0000_0000) as u32;
    lemma_le(header.timestamp);
    lemma_le(ksz);
    lemma_le(header.value_size);
    lemma_le(low);
    lemma_le(high);
    assert(bytes.subrange(0, 4) =~= crate::format::le_u32(header.timestamp));
    assert(bytes.subrange(4, 8) =~= crate::format::le_u32(ksz));
    assert(bytes.subrange(8, 12) =~= crate::format::le_u32(header.value_size));
    assert(bytes.subrange(12, 16) =~= crate::format::le_u32(low));
    assert(bytes.subrange(16, 20) =~= crate::format::le_u32(high));
    assert(four_bytes(bytes, 0) == four_bytes(bytes.subrange(0, 4), 0));
    assert(four_bytes(bytes, 4) == four_bytes(bytes.subrange(4, 8), 0));
    assert(four_bytes(bytes, 8) == four_bytes(bytes.subrange(8, 12), 0));
    assert(four_bytes(bytes, 12) == four_bytes(bytes.subrange(12, 16), 0));
    assert(four_bytes(bytes, 16) == four_bytes(bytes.subrange(16, 20), 0));
    assert(bytes.skip(20) =~= key@);
}

/// Whether bytes end before a hint record that begins with them does.
pub open spec fn is_cut_hint(tail: Seq<u8>) -> bool {
    &&& tail.len() > 0
    &&& tail.len() < 20 || tail.len() < 20 + key_len_at(tail, 4)
}

/// Reading a hint record takes what stands at the start of the bytes: nothing at their end, a
/// record that is cut off, or a whole one.
pub proof fn law_a_hint_is_read_as_it_stands(r: &mut ByteReader<'_>, read: Option<HintRead>)
    requires
        call_ensures(crate::format::read_hint, (r,), read),
    ensures
        ({
            let bytes = old(r).rest();
            let len = 20 + key_len_at(bytes, 4);
            match read {
                None => bytes.len() == 0 && final(r).rest() == bytes,
                Some(HintRead::Truncated) => is_cut_hint(bytes) && final(r).rest().len() == 0,
                Some(HintRead::Complete { header, value_pos, key }) => {
                    &&& bytes.len() > 0 && !is_cut_hint(bytes)
                    &&& header.timestamp == four_bytes(bytes, 0)
                    &&& header.key_size == key_len_at(bytes, 4)
                    &&& header.tombstone == (four_bytes(bytes, 4) >= 0x8000_0000)
                    &&& header.value_size == four_bytes(bytes, 8)
                    &&& value_pos == eight_bytes(bytes, 12)
                    &&& key@ == bytes.subrange(20, len)
                    &&& final(r).rest() == bytes.skip(len)
                },
            }
        }),
{
    let bytes = old(r).rest();
    if bytes.len() == 0 {
        assert(bytes.skip(0) =~= bytes);
    }
}

/// The fields of a hint record's header stand where they are documented.
pub proof fn law_a_hint_header_is_decoded(buf: &[u8; 20], decoded: (EntryHeader, u64))
    requires
        call_ensures(crate::format::decode_hint_header, (buf,), decoded),
    ensures
        decoded.0.timestamp == four_bytes(buf@, 0),
        decoded.0.key_size == key_len_at(buf@, 4),
        decoded.0.tombstone == (four_bytes(buf@, 4) >= 0x8000_0000),
        decoded.0.value_size == four_bytes(buf@, 8),
        decoded.1 == eight_bytes(buf@, 12),
{
}

/// A hint file is trusted just if its last four bytes are the CRC32 of all others, and gives those.
pub proof fn law_a_hint_file_is_trusted_by_its_crc(bytes: &[u8], content: Option<&[u8]>)
    requires
        call_ensures(crate::format::verify_hint_file, (bytes,), content),
    ensures
        ({
            let end = bytes@.len() - 4;
            &&& content is Some <==> end >= 0 && four_bytes(bytes@, end) == crate::format::crc32(
                bytes@.take(end),
            )
            &&& content is Some ==> content->0@ == bytes@.take(end)
        }),
{
    if bytes@.len() >= 4 {
        lemma_four(bytes@, bytes@.len() - 4);
    }
}

/// A finished hint file is its records, and the CRC32 of them.
pub proof fn law_a_finished_hint_file_ends_with_its_crc(content: Vec<u8>, bytes: Vec<u8>)
    requires
        call_ensures(crate::format::finish_hint_file, (content,), bytes),
    ensures
        bytes@.len() == content@.len() + 4,
        bytes@.take(content@.len() as int) == content@,
        four_bytes(bytes@, content@.len() as int) == crate::format::crc32(content@),
{
    let end = content@.len() as int;
    lemma_le(crate::format::crc32(content@));
    assert(bytes@.take(end) =~= content@);
    assert(bytes@.subrange(end, end + 4) =~= crate::format::le_u32(
        crate::format::crc32(content@),
    ));
    assert(four_bytes(bytes@, end) == four_bytes(bytes@.subrange(end, end + 4), 0));
}

/// A reader begins with all bytes.
pub proof fn law_a_reader_begins_with_all_bytes<'a>(bytes: &'a [u8], r: ByteReader<'a>)
    requires
        call_ensures(ByteReader::<'a>::new, (bytes,), r),
    ensures
        r.rest() == bytes@,
{
}

/// A read takes what it gives off the front.
pub proof fn law_a_reader_goes_on_where_it_stopped<'a>(
    r: &mut ByteReader<'a>,
    len: usize,
    got: &'a [u8],
)
    requires
        call_ensures(crate::format::read_up_to, (r, len), got),
    ensures
        got@ + final(r).rest() == old(r).rest(),
        got@.len() == if len < old(r).rest().len() {
            len as nat
        } else {
            old(r).rest().len()
        },
{
    let rest = old(r).rest();
    assert(got@ + final(r).rest() =~= rest);
}

/// What an encoded entry gives out is what it holds.
pub proof fn law_an_encoded_entry_gives_its_bytes(
    encoded: EncodedEntry,
    bytes: &[u8],
    same: &[u8],
    owned: Vec<u8>,
    n: usize,
    value_len: usize,
    is_empty: bool,
    copy: EncodedEntry,
)
    requires
        call_ensures(EncodedEntry::as_bytes, (&encoded,), bytes),
        call_ensures(EncodedEntry::as_ref, (&encoded,), same),
        call_ensures(EncodedEntry::into_bytes, (encoded,), owned),
        call_ensures(EncodedEntry::len, (&encoded,), n),
        call_ensures(EncodedEntry::value_len, (&encoded,), value_len),
        call_ensures(EncodedEntry::is_empty, (&encoded,), is_empty),
        call_ensures(<EncodedEntry as Clone>::clone, (&encoded,), copy),
    ensures
        bytes@ == encoded.spec_bytes(),
        same@ == bytes@,
        owned@ == bytes@,
        n == bytes@.len(),
        value_len == encoded.spec_value_len(),
        is_empty <==> n == 0,
        copy.spec_bytes() == bytes@,
        copy.spec_value_len() == value_len,
{
}

/// What an encoded hint record gives out is what it holds.
pub proof fn law_an_encoded_hint_gives_its_bytes(
    encoded: EncodedHint,
    bytes: &[u8],
    same: &[u8],
    owned: Vec<u8>,
    n: usize,
    is_empty: bool,
)
    requires
        call_ensures(EncodedHint::is_empty, (&encoded,), is_empty),
        call_ensures(EncodedHint::as_bytes, (&encoded,), bytes),
        call_ensures(EncodedHint::as_ref, (&encoded,), same),
        call_ensures(EncodedHint::into_bytes, (encoded,), owned),
        call_ensures(EncodedHint::len, (&encoded,), n),
    ensures
        bytes@ == encoded.spec_bytes(),
        same@ == bytes@,
        owned@ == bytes@,
        n == bytes@.len(),
        is_empty <==> n == 0,
{
}

/// An entry is a tombstone just if its header says so.
pub proof fn law_a_tombstone_is_told_by_its_flag(entry: Entry, is_tombstone: bool)
    requires
        call_ensures(Entry::is_tombstone, (&entry,), is_tombstone),
    ensures
        is_tombstone == entry.header.tombstone,
{
}

} // verus!
