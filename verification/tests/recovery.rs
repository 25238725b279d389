use std::collections::BTreeMap;
use std::io;

use yabiir::datafile::{ActiveFile, DataFileSet};
use yabiir::format::{encode_entry, encode_hint, EntryHeader};
use yabiir::keydir::{Keydir, KeydirEntry};
use yabiir::recovery::{recover, HintProblem, RecoveryWarning};
use yabiir::scan::ScanIssue;

/// The files of a datastore by their names.
#[derive(Default)]
struct Dir {
    files: BTreeMap<String, Vec<u8>>,
}

impl Dir {
    fn discover(&self) -> Vec<u32> {
        let names: Vec<String> = self.files.keys().cloned().collect();
        DataFileSet::discover(&names)
    }

    fn data(&mut self, file_id: u32) -> &mut Vec<u8> {
        self.files
            .entry(DataFileSet::data_file_name(file_id))
            .or_default()
    }

    fn recover(&self, keydir: &mut Keydir) -> Vec<RecoveryWarning> {
        let file_ids = self.discover();
        let mut warnings = Vec::new();
        recover(
            &file_ids,
            |id| {
                let data_len = self.files[&DataFileSet::data_file_name(id)].len() as u64;
                let hint = self.files.get(&DataFileSet::hint_file_name(id));
                Ok(hint.map(|bytes| (bytes.clone(), data_len)))
            },
            |id| Ok(self.files[&DataFileSet::data_file_name(id)].clone()),
            keydir,
            &mut warnings,
        )
        .unwrap();
        warnings
    }

    fn read_value(&self, entry: KeydirEntry) -> Vec<u8> {
        let data = &self.files[&DataFileSet::data_file_name(entry.file_id)];
        let start = entry.value_pos as usize;
        data[start..start + entry.value_size as usize].to_vec()
    }
}

/// Write one entry and return `(value_pos, total_len, EntryHeader)`.
fn write_entry(
    dir: &mut Dir,
    active: &mut ActiveFile,
    key: &[u8],
    value: &[u8],
    tombstone: bool,
    timestamp: u32,
) -> (u64, u64, EntryHeader) {
    let encoded = encode_entry(key, value, tombstone, timestamp);
    let header = EntryHeader {
        timestamp,
        key_size: key.len() as u32,
        value_size: value.len() as u32,
        tombstone,
    };
    dir.data(active.file_id())
        .extend_from_slice(encoded.as_bytes());
    let (_, value_pos, total_len) = active.append(&encoded);
    (value_pos, total_len, header)
}

fn write_valid_hint_file(dir: &mut Dir, file_id: u32, records: &[(&[u8], u64, EntryHeader)]) {
    let mut content = Vec::new();
    for (key, value_pos, header) in records {
        content.extend_from_slice(encode_hint(key, header, *value_pos).as_bytes());
    }
    let trailer = crc32fast::hash(&content).to_le_bytes();
    content.extend_from_slice(&trailer);
    dir.files
        .insert(DataFileSet::hint_file_name(file_id), content);
}

#[test]
fn full_scan_recovery_is_last_write_wins() {
    let mut dir = Dir::default();

    let mut active0 = ActiveFile::create(0, 0);
    write_entry(&mut dir, &mut active0, b"a", b"a-v1", false, 1);
    write_entry(&mut dir, &mut active0, b"b", b"b-v1", false, 2);

    let mut active1 = ActiveFile::create(1, 0);
    write_entry(&mut dir, &mut active1, b"a", b"a-v2", false, 3); // overwrites file 0's "a"
    write_entry(&mut dir, &mut active1, b"c", b"c-v1", false, 4);

    assert_eq!(dir.discover(), vec![0, 1]);

    let mut keydir = Keydir::new();
    let warnings = dir.recover(&mut keydir);
    assert!(warnings.is_empty());

    assert_eq!(dir.read_value(keydir.get(b"a").unwrap()), b"a-v2");
    assert_eq!(dir.read_value(keydir.get(b"b").unwrap()), b"b-v1");
    assert_eq!(dir.read_value(keydir.get(b"c").unwrap()), b"c-v1");
    assert_eq!(keydir.len(), 3);
}

#[test]
fn hint_based_recovery_matches_full_scan() {
    let mut dir = Dir::default();

    let mut active0 = ActiveFile::create(0, 0);
    let (a_pos, _, a_header) = write_entry(&mut dir, &mut active0, b"a", b"a-v1", false, 1);
    let (b_pos, _, b_header) = write_entry(&mut dir, &mut active0, b"b", b"b-v1", false, 2);

    write_valid_hint_file(&mut dir, 0, &[(b"a", a_pos, a_header), (b"b", b_pos, b_header)]);

    let mut active1 = ActiveFile::create(1, 0);
    write_entry(&mut dir, &mut active1, b"a", b"a-v2", false, 3);
    write_entry(&mut dir, &mut active1, b"c", b"c-v1", false, 4);

    let mut keydir = Keydir::new();
    let warnings = dir.recover(&mut keydir);
    assert!(warnings.is_empty());

    assert_eq!(dir.read_value(keydir.get(b"a").unwrap()), b"a-v2");
    assert_eq!(dir.read_value(keydir.get(b"b").unwrap()), b"b-v1");
    assert_eq!(dir.read_value(keydir.get(b"c").unwrap()), b"c-v1");
    assert_eq!(keydir.len(), 3);
}

#[test]
fn a_trusted_hint_file_stands_for_its_data_file() {
    let mut dir = Dir::default();
    let mut active = ActiveFile::create(0, 0);
    let (a_pos, _, a_header) = write_entry(&mut dir, &mut active, b"a", b"a-v1", false, 1);
    write_entry(&mut dir, &mut active, b"b", b"b-v1", false, 2);
    // Only "a" has a record, so only "a" is recovered, with its own timestamp and place.
    write_valid_hint_file(&mut dir, 0, &[(b"a", a_pos, a_header)]);

    let mut keydir = Keydir::new();
    dir.recover(&mut keydir);
    assert_eq!(keydir.len(), 1);
    assert_eq!(
        keydir.get(b"a"),
        Some(KeydirEntry {
            file_id: 0,
            value_size: 4,
            value_pos: a_pos,
            timestamp: 1,
        })
    );
}

#[test]
fn a_tombstone_in_a_hint_file_removes_the_key() {
    let mut dir = Dir::default();
    let mut active0 = ActiveFile::create(0, 0);
    write_entry(&mut dir, &mut active0, b"a", b"a-v1", false, 1);
    let mut active1 = ActiveFile::create(1, 0);
    let (pos, _, header) = write_entry(&mut dir, &mut active1, b"a", b"", true, 2);
    write_valid_hint_file(&mut dir, 1, &[(b"a", pos, header)]);

    let mut keydir = Keydir::new();
    dir.recover(&mut keydir);
    assert!(keydir.is_empty());
}

#[test]
fn hint_file_with_invalid_crc_falls_back_to_full_scan() {
    let mut dir = Dir::default();
    let mut active = ActiveFile::create(0, 0);
    write_entry(&mut dir, &mut active, b"a", b"a-v1", false, 1);
    write_entry(&mut dir, &mut active, b"b", b"b-v1", false, 2);

    let bogus_header = EntryHeader {
        timestamp: 99,
        key_size: 1,
        value_size: 4,
        tombstone: false,
    };
    let mut file = encode_hint(b"x", &bogus_header, 0).into_bytes();
    file.extend_from_slice(&0u32.to_le_bytes()); // wrong trailer, not this content's real CRC
    dir.files.insert(DataFileSet::hint_file_name(0), file);

    let mut keydir = Keydir::new();
    let warnings = dir.recover(&mut keydir);
    assert_eq!(
        warnings,
        vec![RecoveryWarning::Hint {
            file_id: 0,
            problem: HintProblem::Checksum,
        }]
    );

    assert_eq!(
        keydir.get(b"x"),
        None,
        "bogus hint-only key must not appear"
    );
    assert_eq!(dir.read_value(keydir.get(b"a").unwrap()), b"a-v1");
    assert_eq!(dir.read_value(keydir.get(b"b").unwrap()), b"b-v1");
    assert_eq!(keydir.len(), 2);
}

#[test]
fn hint_file_with_out_of_bounds_pointer_falls_back_to_full_scan() {
    let mut dir = Dir::default();
    let mut active = ActiveFile::create(0, 0);
    let (a_pos, _, a_header) = write_entry(&mut dir, &mut active, b"a", b"a-v1", false, 1);

    let data_len = dir.data(0).len() as u64;
    let out_of_bounds_header = EntryHeader {
        timestamp: 1,
        key_size: 1,
        value_size: 4,
        tombstone: false,
    };
    // A pointer that starts exactly at EOF — value_size alone already
    // pushes it past the file's real length.
    write_valid_hint_file(
        &mut dir,
        0,
        &[
            (b"a", a_pos, a_header),
            (b"z", data_len, out_of_bounds_header),
        ],
    );

    let mut keydir = Keydir::new();
    let warnings = dir.recover(&mut keydir);
    assert_eq!(
        warnings,
        vec![RecoveryWarning::Hint {
            file_id: 0,
            problem: HintProblem::OutOfBounds {
                value_pos: data_len,
                value_size: 4,
                data_file_len: data_len,
            },
        }]
    );

    assert_eq!(
        keydir.get(b"z"),
        None,
        "out-of-bounds hint key must not appear"
    );
    assert_eq!(dir.read_value(keydir.get(b"a").unwrap()), b"a-v1");
    assert_eq!(keydir.len(), 1);
}

#[test]
fn a_pointer_past_the_largest_offset_is_out_of_bounds() {
    let mut dir = Dir::default();
    let mut active = ActiveFile::create(0, 0);
    let (_, _, header) = write_entry(&mut dir, &mut active, b"a", b"a-v1", false, 1);
    write_valid_hint_file(&mut dir, 0, &[(b"a", u64::MAX, header)]);
    let mut keydir = Keydir::new();
    let warnings = dir.recover(&mut keydir);
    assert!(matches!(
        warnings[..],
        [RecoveryWarning::Hint {
            problem: HintProblem::OutOfBounds { .. },
            ..
        }]
    ));
    assert_eq!(dir.read_value(keydir.get(b"a").unwrap()), b"a-v1");
}

#[test]
fn a_cut_off_hint_record_falls_back_to_full_scan() {
    let mut dir = Dir::default();
    let mut active = ActiveFile::create(0, 0);
    let (a_pos, _, a_header) = write_entry(&mut dir, &mut active, b"a", b"a-v1", false, 1);
    let mut content = encode_hint(b"a", &a_header, a_pos).into_bytes();
    content.pop();
    let trailer = crc32fast::hash(&content).to_le_bytes();
    content.extend_from_slice(&trailer);
    dir.files.insert(DataFileSet::hint_file_name(0), content);

    let mut keydir = Keydir::new();
    let warnings = dir.recover(&mut keydir);
    assert_eq!(
        warnings,
        vec![RecoveryWarning::Hint {
            file_id: 0,
            problem: HintProblem::Truncated,
        }]
    );
    assert_eq!(keydir.len(), 1);
}

#[test]
fn truncated_tail_keeps_earlier_entries_and_does_not_error() {
    let mut dir = Dir::default();
    let mut active = ActiveFile::create(0, 0);
    write_entry(&mut dir, &mut active, b"a", b"a-v1", false, 1);
    write_entry(&mut dir, &mut active, b"b", b"b-v1", false, 2);
    let (_, last_total_len, _) = write_entry(&mut dir, &mut active, b"c", b"c-v1", false, 3);

    // Truncate a few bytes into the last entry's value.
    let full_len = dir.data(0).len();
    let new_len = full_len - last_total_len.min(3) as usize;
    dir.data(0).truncate(new_len);

    let mut keydir = Keydir::new();
    let warnings = dir.recover(&mut keydir); // must not error
    assert!(warnings.is_empty()); // expected in the last file

    assert_eq!(dir.read_value(keydir.get(b"a").unwrap()), b"a-v1");
    assert_eq!(dir.read_value(keydir.get(b"b").unwrap()), b"b-v1");
    assert_eq!(keydir.get(b"c"), None); // torn write, correctly dropped
}

#[test]
fn corrupt_entry_mid_file_is_skipped_but_scan_continues() {
    let mut dir = Dir::default();
    let mut active = ActiveFile::create(0, 0);
    let (_, a_total_len, _) = write_entry(&mut dir, &mut active, b"a", b"a-v1", false, 1);
    let (b_pos, _, _) = write_entry(&mut dir, &mut active, b"b", b"b-v1", false, 2);
    write_entry(&mut dir, &mut active, b"c", b"c-v1", false, 3);

    // Flip a bit inside "b"'s value bytes — CRC will no longer match.
    dir.data(0)[b_pos as usize] ^= 0xFF;

    let mut keydir = Keydir::new();
    let warnings = dir.recover(&mut keydir);
    assert_eq!(
        warnings,
        vec![RecoveryWarning::Data {
            file_id: 0,
            issue: ScanIssue::Corrupt {
                offset: a_total_len
            },
        }]
    );

    assert_eq!(dir.read_value(keydir.get(b"a").unwrap()), b"a-v1");
    assert_eq!(keydir.get(b"b"), None); // corrupt entry skipped, not applied
    assert_eq!(dir.read_value(keydir.get(b"c").unwrap()), b"c-v1");
}

#[test]
fn orphaned_hint_file_is_ignored() {
    let mut dir = Dir::default();
    // A hint file with no matching data file.
    dir.files
        .insert(DataFileSet::hint_file_name(0), Vec::new());

    let file_ids = dir.discover();
    assert!(file_ids.is_empty()); // discover only ever lists *.bitcask.data

    let mut keydir = Keydir::new();
    dir.recover(&mut keydir); // must not error
    assert_eq!(keydir.len(), 0);
}

#[test]
fn truncation_on_a_non_last_file_still_recovers_what_it_can() {
    let mut dir = Dir::default();
    let mut active0 = ActiveFile::create(0, 0);
    let (_, a_total_len, _) = write_entry(&mut dir, &mut active0, b"a", b"a-v1", false, 1);
    let (_, last_total_len, _) = write_entry(&mut dir, &mut active0, b"b", b"b-v1", false, 2);

    let full_len = dir.data(0).len();
    dir.data(0)
        .truncate(full_len - last_total_len.min(3) as usize);

    let mut active1 = ActiveFile::create(1, 0);
    write_entry(&mut dir, &mut active1, b"c", b"c-v1", false, 3);

    let mut keydir = Keydir::new();
    let warnings = dir.recover(&mut keydir);
    assert_eq!(
        warnings,
        vec![RecoveryWarning::Data {
            file_id: 0,
            issue: ScanIssue::Truncated {
                offset: a_total_len
            },
        }]
    );

    assert_eq!(dir.read_value(keydir.get(b"a").unwrap()), b"a-v1");
    assert_eq!(keydir.get(b"b"), None);
    assert_eq!(dir.read_value(keydir.get(b"c").unwrap()), b"c-v1");
}

#[test]
fn a_failed_read_ends_recovery_with_its_error() {
    let mut keydir = Keydir::new();
    let mut warnings = Vec::new();
    let entry = encode_entry(b"a", b"1", false, 0).into_bytes();
    let outcome = recover(
        &[0, 1],
        |_| Ok(None),
        |id| {
            if id == 0 {
                Ok(entry.clone())
            } else {
                Err(io::Error::other("gone"))
            }
        },
        &mut keydir,
        &mut warnings,
    );
    assert_eq!(outcome.unwrap_err().to_string(), "gone");
    assert_eq!(keydir.len(), 1); // what came before is applied
    let outcome = recover(
        &[7],
        |_| Err(io::Error::other("no hints")),
        |_| Ok(Vec::new()),
        &mut keydir,
        &mut warnings,
    );
    assert_eq!(outcome.unwrap_err().to_string(), "no hints");
}
