use yabiir::format::{
    decode_entry_header, decode_hint_header, decode_ksz, encode_entry, encode_hint, encode_ksz,
    finish_hint_file, read_entry, read_hint, read_up_to, verify_crc, verify_hint_file, ByteReader,
    EntryHeader, EntryRead, HintRead, HEADER_SIZE, HINT_HEADER_SIZE, HINT_TRAILER_SIZE, MAX_KEY_LEN,
};

#[test]
fn ksz_flag_round_trip() {
    assert_eq!(decode_ksz(encode_ksz(0, false)), (0, false));
    assert_eq!(decode_ksz(encode_ksz(0, true)), (0, true));
    assert_eq!(
        decode_ksz(encode_ksz(MAX_KEY_LEN, false)),
        (MAX_KEY_LEN, false)
    );
    assert_eq!(
        decode_ksz(encode_ksz(MAX_KEY_LEN, true)),
        (MAX_KEY_LEN, true)
    );
}

#[test]
fn ksz_field_has_the_flag_in_the_top_bit() {
    assert_eq!(encode_ksz(5, false), 5);
    assert_eq!(encode_ksz(5, true), 0x8000_0005);
}

#[test]
fn entry_round_trip() {
    for (key, value, tombstone) in [
        (b"k".to_vec(), b"v".to_vec(), false),
        (b"empty-value".to_vec(), Vec::new(), false),
        (b"tombstoned".to_vec(), Vec::new(), true),
        (b"large".to_vec(), vec![7u8; 1024 * 1024], false),
    ] {
        let encoded = encode_entry(&key, &value, tombstone, 1_700_000_000);
        assert_eq!(encoded.value_len(), value.len());
        let bytes = encoded.into_bytes();
        let mut cursor = ByteReader::new(&bytes);
        let read = read_entry(&mut cursor).unwrap();
        let EntryRead::Complete(entry, total_len) = read else {
            panic!("expected a complete entry, got {read:?}");
        };
        assert_eq!(entry.key, key);
        assert_eq!(entry.value, value);
        assert_eq!(entry.header.tombstone, tombstone);
        assert_eq!(entry.header.timestamp, 1_700_000_000);
        assert_eq!(total_len, bytes.len() as u64);
        assert!(read_entry(&mut cursor).is_none());
    }
}

#[test]
fn corrupt_crc_is_detected() {
    let mut encoded = encode_entry(b"key", b"value", false, 0).into_bytes();
    // flip a bit inside the body, past the header, leaving the header
    // (and hence declared lengths) intact so this is a same-length,
    // same-shape but corrupt entry.
    let last = encoded.len() - 1;
    encoded[last] ^= 0xFF;

    let mut cursor = ByteReader::new(&encoded);
    let read = read_entry(&mut cursor).unwrap();
    match read {
        EntryRead::CrcMismatch { total_len } => assert_eq!(total_len, HEADER_SIZE as u64 + 8),
        other => panic!("expected CrcMismatch, got {other:?}"),
    }
}

#[test]
fn a_change_of_any_one_byte_is_detected() {
    let encoded = encode_entry(b"key", b"value", false, 77).into_bytes();
    for at in (0..8).chain(HEADER_SIZE..encoded.len()) {
        for flip in 1..=255u8 {
            let mut changed = encoded.clone();
            changed[at] ^= flip;
            let read = read_entry(&mut ByteReader::new(&changed)).unwrap();
            assert!(matches!(
                read,
                EntryRead::CrcMismatch { total_len } if total_len == encoded.len() as u64
            ));
        }
    }

    let header = EntryHeader {
        timestamp: 77,
        key_size: 3,
        value_size: 5,
        tombstone: false,
    };
    let hint = finish_hint_file(encode_hint(b"key", &header, 19).as_bytes().to_vec());
    assert!(verify_hint_file(&hint).is_some());
    for at in 0..hint.len() {
        for flip in 1..=255u8 {
            let mut changed = hint.clone();
            changed[at] ^= flip;
            assert!(verify_hint_file(&changed).is_none());
        }
    }
}

#[test]
fn entry_truncation_is_detected_at_every_boundary() {
    let encoded = encode_entry(b"key", b"value", false, 0).into_bytes();
    for cut in 1..encoded.len() {
        let mut cursor = ByteReader::new(&encoded[..cut]);
        let read = read_entry(&mut cursor);
        match read {
            Some(EntryRead::Truncated) => {}
            other => panic!("cut at {cut}: expected Truncated, got {other:?}"),
        }
    }
}

#[test]
fn entry_clean_eof_at_boundary_is_none() {
    let empty: Vec<u8> = Vec::new();
    let mut cursor = ByteReader::new(&empty);
    assert!(read_entry(&mut cursor).is_none());
}

#[test]
fn is_tombstone_reflects_the_header_flag() {
    let live = encode_entry(b"k", b"v", false, 0).into_bytes();
    let dead = encode_entry(b"k", &[], true, 0).into_bytes();
    let Some(EntryRead::Complete(live_entry, _)) = read_entry(&mut ByteReader::new(&live)) else {
        panic!("expected a complete entry");
    };
    let Some(EntryRead::Complete(dead_entry, _)) = read_entry(&mut ByteReader::new(&dead)) else {
        panic!("expected a complete entry");
    };
    assert!(!live_entry.is_tombstone());
    assert!(dead_entry.is_tombstone());
}

#[test]
fn encoded_entry_len_is_empty_and_as_ref_match_the_real_bytes() {
    let encoded = encode_entry(b"key", b"value", false, 0);
    let expected_len = HEADER_SIZE + 3 + 5;
    assert_eq!(encoded.len(), expected_len);
    assert!(!encoded.is_empty());
    assert_eq!(encoded.as_ref(), encoded.as_bytes());
    assert_eq!(encoded.as_ref().len(), expected_len);
    assert_eq!(encoded.clone().into_bytes(), encoded.as_bytes().to_vec());
}

#[test]
fn entry_bytes_are_laid_out_as_documented() {
    let bytes = encode_entry(b"ab", b"xyz", true, 0x0403_0201).into_bytes();
    assert_eq!(bytes[4..8], [1, 2, 3, 4]);
    assert_eq!(bytes[8..12], [2, 0, 0, 0x80]);
    assert_eq!(bytes[12..16], [3, 0, 0, 0]);
    assert_eq!(bytes[16..], *b"abxyz");
    let crc = crc32fast::hash(&bytes[4..]);
    assert_eq!(bytes[0..4], crc.to_le_bytes());
    assert!(verify_crc(crc, &bytes[4..]));
    assert!(!verify_crc(crc ^ 1, &bytes[4..]));

    let mut head = [0u8; HEADER_SIZE];
    head.copy_from_slice(&bytes[..HEADER_SIZE]);
    let (stored, header) = decode_entry_header(&head);
    assert_eq!(stored, crc);
    assert_eq!(
        header,
        EntryHeader {
            timestamp: 0x0403_0201,
            key_size: 2,
            value_size: 3,
            tombstone: true,
        }
    );
}

#[test]
fn crc_is_the_ieee_crc32() {
    // The well-known check value of CRC-32/ISO-HDLC.
    assert!(verify_crc(0xCBF4_3926, b"123456789"));
}

#[test]
fn reading_stops_at_the_end() {
    let bytes = [1u8, 2, 3, 4, 5];
    let mut r = ByteReader::new(&bytes);
    assert_eq!(read_up_to(&mut r, 2), &[1, 2]);
    assert_eq!(read_up_to(&mut r, 0), &[] as &[u8]);
    assert_eq!(read_up_to(&mut r, 10), &[3, 4, 5]);
    assert_eq!(read_up_to(&mut r, 1), &[] as &[u8]);
}

#[test]
fn hint_round_trip() {
    let header = EntryHeader {
        timestamp: 42,
        key_size: 3,
        value_size: 10,
        tombstone: false,
    };
    let encoded = encode_hint(b"key", &header, 12345).into_bytes();
    let mut cursor = ByteReader::new(&encoded);
    let read = read_hint(&mut cursor).unwrap();
    let HintRead::Complete {
        header: got_header,
        value_pos,
        key,
    } = read
    else {
        panic!("expected a complete record");
    };
    assert_eq!(got_header, header);
    assert_eq!(value_pos, 12345);
    assert_eq!(key, b"key");
}

#[test]
fn hint_header_is_laid_out_as_documented() {
    let header = EntryHeader {
        timestamp: 7,
        key_size: 1,
        value_size: 0x0102,
        tombstone: true,
    };
    let bytes = encode_hint(b"k", &header, 0x1122_3344_5566_7788).into_bytes();
    assert_eq!(bytes[0..4], [7, 0, 0, 0]);
    assert_eq!(bytes[4..8], [1, 0, 0, 0x80]);
    assert_eq!(bytes[8..12], [2, 1, 0, 0]);
    assert_eq!(
        bytes[12..20],
        [0x88, 0x77, 0x66, 0x55, 0x44, 0x33, 0x22, 0x11]
    );
    assert_eq!(bytes[20..], *b"k");
    let mut head = [0u8; HINT_HEADER_SIZE];
    head.copy_from_slice(&bytes[..HINT_HEADER_SIZE]);
    assert_eq!(decode_hint_header(&head), (header, 0x1122_3344_5566_7788));
}

#[test]
fn hint_clean_eof_at_boundary_is_none() {
    let empty: Vec<u8> = Vec::new();
    let mut cursor = ByteReader::new(&empty);
    assert!(read_hint(&mut cursor).is_none());
}

#[test]
fn hint_truncation_is_detected_at_every_boundary() {
    let header = EntryHeader {
        timestamp: 42,
        key_size: 3,
        value_size: 10,
        tombstone: false,
    };
    let encoded = encode_hint(b"key", &header, 12345).into_bytes();
    for cut in 1..encoded.len() {
        let mut cursor = ByteReader::new(&encoded[..cut]);
        let read = read_hint(&mut cursor);
        match read {
            Some(HintRead::Truncated) => {}
            other => panic!("cut at {cut}: expected Truncated, got {other:?}"),
        }
    }
}

#[test]
fn verify_hint_file_accepts_a_correctly_trailered_file() {
    let header = EntryHeader {
        timestamp: 1,
        key_size: 1,
        value_size: 1,
        tombstone: false,
    };
    let mut content = encode_hint(b"a", &header, 0).into_bytes();
    content.extend_from_slice(&encode_hint(b"b", &header, 1).into_bytes());
    let trailer = crc32fast::hash(&content).to_le_bytes();
    let mut file_bytes = content.clone();
    file_bytes.extend_from_slice(&trailer);

    let verified = verify_hint_file(&file_bytes).expect("valid trailer should verify");
    assert_eq!(verified, content.as_slice());
    assert_eq!(finish_hint_file(content), file_bytes);
}

#[test]
fn verify_hint_file_rejects_corrupted_content() {
    let header = EntryHeader {
        timestamp: 1,
        key_size: 1,
        value_size: 1,
        tombstone: false,
    };
    let content = encode_hint(b"a", &header, 0).into_bytes();
    let trailer = crc32fast::hash(&content).to_le_bytes();
    let mut file_bytes = content;
    file_bytes.extend_from_slice(&trailer);
    file_bytes[0] ^= 0xFF; // flip a bit inside a record, after computing the trailer

    assert!(verify_hint_file(&file_bytes).is_none());
}

#[test]
fn verify_hint_file_rejects_a_file_too_short_to_hold_a_trailer() {
    assert!(verify_hint_file(&[0u8; HINT_TRAILER_SIZE - 1]).is_none());
}

#[test]
fn verify_hint_file_accepts_an_empty_hint_file() {
    // A merge input with no live entries at all still finishes its
    // (empty) hint file with a trailer — the CRC of zero bytes.
    let trailer = crc32fast::hash(&[]).to_le_bytes();
    assert_eq!(verify_hint_file(&trailer), Some(&[][..]));
}

#[test]
fn encoded_hint_len_is_empty_and_as_ref_match_the_real_bytes() {
    let header = EntryHeader {
        timestamp: 0,
        key_size: 3,
        value_size: 0,
        tombstone: false,
    };
    let encoded = encode_hint(b"key", &header, 0);
    let expected_len = HINT_HEADER_SIZE + 3;
    assert_eq!(encoded.len(), expected_len);
    assert!(!encoded.is_empty());
    assert_eq!(encoded.as_ref(), encoded.as_bytes());
    assert_eq!(encoded.as_ref().len(), expected_len);
}
