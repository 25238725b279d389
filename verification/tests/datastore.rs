use std::cell::{Cell, RefCell};
use std::collections::{BTreeMap, HashMap};
use std::io;
use std::rc::Rc;

use yabiir::commit::CommitStep;
use yabiir::datafile::DataFileSet;
use yabiir::engine::{fold_snapshot, read_located};
use yabiir::format::EncodedEntry;
use yabiir::keydir::{Keydir, KeydirEntry};
use yabiir::merge::output_writer::{MergeStep, MERGE_FLUSH_BATCH_SIZE};
use yabiir::merge::{read_all_entries, Merge};
use yabiir::metrics::{Metrics, NoopMetrics};
use yabiir::recovery::recover;
use yabiir::scan::ScanIssue;
use yabiir::{Engine, Error, Options};

/// A file: what readers see, what is still in a buffer, and the hint file.
#[derive(Clone, Default)]
struct File {
    data: Vec<u8>,
    buffered: Vec<u8>,
    hint: Option<Vec<u8>>,
}

type Disk = Rc<RefCell<BTreeMap<u32, File>>>;

/// A datastore in memory: the library's engine, with files instead of a directory.
struct Db {
    disk: Disk,
    engine: Engine,
    syncs: Cell<u32>,
}

fn ids_on(disk: &Disk) -> Vec<u32> {
    let names: Vec<String> = disk
        .borrow()
        .iter()
        .flat_map(|(&id, file)| {
            let hint = file.hint.as_ref().map(|_| DataFileSet::hint_file_name(id));
            [Some(DataFileSet::data_file_name(id)), hint]
        })
        .flatten()
        .collect();
    DataFileSet::discover(&names)
}

fn lengths_on(disk: &Disk, ids: &[u32]) -> Vec<(u32, u64)> {
    let disk = disk.borrow();
    ids.iter()
        .map(|&id| (id, disk[&id].data.len() as u64))
        .collect()
}

fn read_at(disk: &Disk, entry: KeydirEntry) -> io::Result<Vec<u8>> {
    let disk = disk.borrow();
    let file = disk
        .get(&entry.file_id)
        .ok_or_else(|| io::Error::other("no such file"))?;
    let start = entry.value_pos as usize;
    file.data
        .get(start..start + entry.value_size as usize)
        .map(|bytes| bytes.to_vec())
        .ok_or_else(|| io::Error::other("file too short"))
}

fn open(disk: &Disk, opts: Options) -> Db {
    let file_ids = ids_on(disk);
    let mut keydir = Keydir::new();
    let mut warnings = Vec::new();
    recover(
        &file_ids,
        |id| {
            let disk = disk.borrow();
            let file = &disk[&id];
            Ok(file
                .hint
                .as_ref()
                .map(|hint| (hint.clone(), file.data.len() as u64)))
        },
        |id| Ok(disk.borrow()[&id].data.clone()),
        &mut keydir,
        &mut warnings,
    )
    .unwrap();
    let first = Engine::first_active_id(&file_ids);
    if opts.is_read_write {
        disk.borrow_mut().insert(first, File::default());
    }
    Db {
        disk: Rc::clone(disk),
        engine: Engine::open(&file_ids, keydir, opts, 0),
        syncs: Cell::new(0),
    }
}

fn append(disk: &Disk, file_id: u32, encoded: &EncodedEntry) -> io::Result<()> {
    let mut disk = disk.borrow_mut();
    let file = disk.get_mut(&file_id).unwrap();
    file.data.extend_from_slice(encoded.as_bytes());
    Ok(())
}

fn create(disk: &Disk, file_id: u32) -> io::Result<u64> {
    assert!(disk.borrow_mut().insert(file_id, File::default()).is_none());
    Ok(0)
}

fn count(syncs: &Cell<u32>) -> io::Result<()> {
    syncs.set(syncs.get() + 1);
    Ok(())
}

fn fresh(opts: Options) -> Db {
    open(&Disk::default(), opts)
}

fn small_files(max_file_size: u64) -> Options {
    Options {
        max_file_size,
        ..Options::default()
    }
}

fn read_only() -> Options {
    Options {
        is_read_write: false,
        ..Options::default()
    }
}

impl Db {
    fn rotate(&mut self) -> Result<(), Error> {
        let Db { disk, engine, syncs } = self;
        engine.rotate((), |_id, ()| count(syncs), |id, ()| create(disk, id))
    }

    fn put(&mut self, key: &[u8], value: &[u8]) -> Result<(), Error> {
        let Db { disk, engine, syncs } = self;
        engine.put(
            key,
            value,
            7,
            |id, encoded: &EncodedEntry| append(disk, id, encoded),
            |_id, ()| count(syncs),
            |id, ()| create(disk, id),
        )
    }

    fn delete(&mut self, key: &[u8]) -> Result<(), Error> {
        let Db { disk, engine, syncs } = self;
        engine.delete(
            key,
            7,
            |id, encoded: &EncodedEntry| append(disk, id, encoded),
            |_id, ()| count(syncs),
            |id, ()| create(disk, id),
        )
    }

    fn get(&self, key: &[u8]) -> Result<Option<Vec<u8>>, Error> {
        self.engine.get(key, |entry| read_at(&self.disk, entry))
    }

    fn run(&mut self, steps: Vec<MergeStep>) {
        for step in steps {
            self.run_step(step);
        }
    }

    fn run_step(&mut self, step: MergeStep) {
        let disk = Rc::clone(&self.disk);
        let mut disk = disk.borrow_mut();
        match step {
            MergeStep::Create { file_id } => {
                assert!(disk.insert(file_id, File::default()).is_none());
            }
            MergeStep::Append { file_id, bytes } => {
                disk.get_mut(&file_id).unwrap().buffered.extend(bytes);
            }
            MergeStep::Flush { file_id } => {
                let file = disk.get_mut(&file_id).unwrap();
                file.data.append(&mut file.buffered);
            }
            MergeStep::Finish { file_id, hint } => {
                let file = disk.get_mut(&file_id).unwrap();
                file.data.append(&mut file.buffered);
                file.hint = Some(hint);
            }
            MergeStep::Repoint(items) => self.engine.apply_repoints(&items),
            MergeStep::Remove { file_id } => {
                disk.remove(&file_id);
            }
        }
    }

    fn begin_merge(&mut self) -> Result<Option<Merge>, Error> {
        let mut steps = Vec::new();
        let ids = ids_on(&self.disk);
        let existing = lengths_on(&self.disk, &ids);
        let merge = self.engine.begin_merge(&ids, existing, &mut steps)?;
        self.run(steps);
        Ok(merge)
    }

    fn copy_file(&mut self, merge: Merge, file_id: u32) -> (Merge, usize, Vec<MergeStep>) {
        let bytes = self.disk.borrow()[&file_id].data.clone();
        let mut steps = Vec::new();
        let (merge, report) = self.engine.copy_file(merge, file_id, &bytes, &mut steps);
        assert!(report.issues.is_empty());
        (merge, report.live_entries, steps)
    }

    fn end_merge(&mut self, merge: Merge) {
        let mut steps = Vec::new();
        let highest = merge.finish(&mut steps);
        self.run(steps);
        if self.engine.is_behind(highest) {
            self.rotate().unwrap();
        }
    }

    fn merge(&mut self) -> Result<(), Error> {
        let Some(mut merge) = self.begin_merge()? else {
            return Ok(());
        };
        for file_id in merge.inputs().to_vec() {
            let (next, _, steps) = self.copy_file(merge, file_id);
            merge = next;
            self.run(steps);
        }
        self.end_merge(merge);
        Ok(())
    }

    fn sorted_keys(&self) -> Vec<Vec<u8>> {
        let mut keys = self.engine.list_keys();
        keys.sort();
        keys
    }
}

fn count_entries_for_key(disk: &Disk, key: &[u8]) -> usize {
    disk.borrow()
        .values()
        .flat_map(|file| read_all_entries(&file.data).0)
        .filter(|(_, entry)| entry.key == key)
        .count()
}

#[test]
fn put_then_get_returns_value() {
    let mut db = fresh(Options::default());
    db.put(b"k", b"v").unwrap();
    assert_eq!(db.get(b"k").unwrap(), Some(b"v".to_vec()));
}

#[test]
fn put_twice_returns_second_value_only() {
    let mut db = fresh(Options::default());
    db.put(b"k", b"v1").unwrap();
    db.put(b"k", b"v2").unwrap();
    assert_eq!(db.get(b"k").unwrap(), Some(b"v2".to_vec()));
}

#[test]
fn delete_then_get_returns_none() {
    let mut db = fresh(Options::default());
    db.put(b"k", b"v").unwrap();
    db.delete(b"k").unwrap();
    assert_eq!(db.get(b"k").unwrap(), None);
}

#[test]
fn delete_missing_key_is_a_silent_no_op() {
    let mut db = fresh(Options::default());
    db.delete(b"missing").unwrap(); // must not error
    assert_eq!(db.get(b"missing").unwrap(), None);
    assert!(db.disk.borrow().values().all(|file| file.data.is_empty()));
}

#[test]
fn get_missing_key_returns_none() {
    let db = fresh(Options::default());
    assert_eq!(db.get(b"missing").unwrap(), None);
}

#[test]
fn various_value_sizes_round_trip() {
    let mut db = fresh(Options::default());
    for (key, len) in [
        (b"empty".as_slice(), 0),
        (b"one", 1),
        (b"big", 3 * 1024 * 1024),
    ] {
        let value = vec![0x5Au8; len];
        db.put(key, &value).unwrap();
        assert_eq!(db.get(key).unwrap(), Some(value));
    }
}

#[test]
fn many_distinct_keys_round_trip() {
    let mut db = fresh(Options::default());
    for i in 0..10_000u32 {
        db.put(
            format!("key-{i}").as_bytes(),
            format!("value-{i}").as_bytes(),
        )
        .unwrap();
    }
    for i in 0..10_000u32 {
        assert_eq!(
            db.get(format!("key-{i}").as_bytes()).unwrap(),
            Some(format!("value-{i}").into_bytes())
        );
    }
}

#[test]
fn put_rejects_empty_key() {
    let mut db = fresh(Options::default());
    assert!(matches!(db.put(b"", b"v"), Err(Error::EmptyKey)));
}

#[test]
fn delete_rejects_empty_key() {
    let mut db = fresh(Options::default());
    assert!(matches!(db.delete(b""), Err(Error::EmptyKey)));
}

#[test]
fn put_and_delete_are_rejected_on_a_read_only_handle() {
    let disk = Disk::default();
    {
        let mut db = open(&disk, Options::default()); // create the directory as a writer first
        db.put(b"k", b"v").unwrap();
    }
    let mut ro = open(&disk, read_only());
    assert!(matches!(ro.put(b"k2", b"v2"), Err(Error::ReadOnly)));
    assert!(matches!(ro.delete(b"k"), Err(Error::ReadOnly)));
    assert!(matches!(ro.engine.require_write(), Err(Error::ReadOnly)));
    assert!(matches!(ro.put(b"", b"v2"), Err(Error::EmptyKey)));
    let encoded = yabiir::format::encode_entry(b"k", b"v", false, 0);
    assert!(matches!(ro.engine.append(&encoded), Err(Error::ReadOnly)));
    assert_eq!(ro.engine.active_file_id(), None);
}

#[test]
fn list_keys_and_fold_reflect_live_keys_only() {
    let mut db = fresh(Options::default());
    db.put(b"a", b"1").unwrap();
    db.put(b"b", b"2").unwrap();
    db.put(b"c", b"3").unwrap();
    db.delete(b"b").unwrap();

    assert_eq!(db.sorted_keys(), vec![b"a".to_vec(), b"c".to_vec()]);

    let total: usize = db
        .engine
        .fold(
            |entry| read_at(&db.disk, entry),
            |_k, v, acc| acc + v.len(),
            0usize,
        )
        .unwrap();
    assert_eq!(total, 2); // "1".len() + "3".len()
}

#[test]
fn rotation_keeps_every_key_readable_across_both_active_and_rotated_files() {
    let mut db = fresh(small_files(300));

    for i in 0..200u32 {
        db.put(
            format!("k{i}").as_bytes(),
            format!("value-{i}").as_bytes(),
        )
        .unwrap();
    }

    // Must have actually rotated for this test to be exercising what it
    // claims to.
    let file_count = ids_on(&db.disk).len();
    assert!(
        file_count > 1,
        "expected multiple data files, got {file_count}"
    );

    for i in 0..200u32 {
        assert_eq!(
            db.get(format!("k{i}").as_bytes()).unwrap(),
            Some(format!("value-{i}").into_bytes())
        );
    }
}

#[test]
fn reopen_recovers_previously_written_keys() {
    let disk = Disk::default();
    {
        let mut db = open(&disk, Options::default());
        db.put(b"k1", b"v1").unwrap();
        db.put(b"k2", b"v2").unwrap();
        db.delete(b"k1").unwrap();
        db.put(b"k3", b"v3").unwrap();
    }
    let reopened = open(&disk, Options::default());
    assert_eq!(reopened.get(b"k1").unwrap(), None); // deleted, stays deleted
    assert_eq!(reopened.get(b"k2").unwrap(), Some(b"v2".to_vec()));
    assert_eq!(reopened.get(b"k3").unwrap(), Some(b"v3".to_vec()));
    assert_eq!(reopened.engine.active_file_id(), Some(1)); // never resumes the old file
}

#[test]
fn crash_and_reopen_recovers_all_committed_writes() {
    let disk = Disk::default();
    {
        let mut db = open(&disk, Options::default());
        for i in 0..500u32 {
            db.put(format!("k{i}").as_bytes(), format!("v{i}").as_bytes())
                .unwrap();
        }
        // dropped here without a sync — simulates an unclean shutdown
    }
    let reopened = open(&disk, Options::default());
    for i in 0..500u32 {
        assert_eq!(
            reopened.get(format!("k{i}").as_bytes()).unwrap(),
            Some(format!("v{i}").into_bytes())
        );
    }
}

#[test]
fn a_crash_that_tears_the_last_append_costs_only_that_append() {
    let disk = Disk::default();
    let mut db = open(&disk, Options::default());
    db.put(b"a", b"1").unwrap();
    db.put(b"b", b"2").unwrap();
    let whole = yabiir::format::encode_entry(b"a", b"new", false, 9).into_bytes();
    let before = disk.borrow()[&0].data.clone();
    for cut in 0..whole.len() {
        let mut torn = before.clone();
        torn.extend_from_slice(&whole[..cut]);
        disk.borrow_mut().get_mut(&0).unwrap().data = torn;
        let reader = open(&disk, read_only());
        assert_eq!(reader.get(b"a").unwrap(), Some(b"1".to_vec()));
        assert_eq!(reader.get(b"b").unwrap(), Some(b"2".to_vec()));
    }
}

#[test]
fn race_concurrent_put_during_merge_does_not_lose_the_write() {
    let mut db = fresh(small_files(1)); // every put rotates into its own file
    db.put(b"K", b"old").unwrap(); // lands in its own already-rotated-out file
    db.put(b"L", b"gone").unwrap();
    db.put(b"M", b"kept").unwrap();

    let mut merge = db.begin_merge().unwrap().unwrap();
    let mut held_back = Vec::new();
    for file_id in merge.inputs().to_vec() {
        let (next, live, steps) = db.copy_file(merge, file_id);
        assert_eq!(live, 1);
        merge = next;
        for step in steps {
            match step {
                MergeStep::Repoint(items) => held_back.push(items),
                step => db.run_step(step),
            }
        }
    }
    // All is copied forward and about to be repointed: write meanwhile.
    db.put(b"K", b"new").unwrap();
    db.delete(b"L").unwrap();
    for items in held_back {
        db.engine.apply_repoints(&items);
    }
    db.end_merge(merge);

    assert_eq!(db.get(b"K").unwrap(), Some(b"new".to_vec()));
    assert_eq!(db.get(b"L").unwrap(), None);
    assert_eq!(db.get(b"M").unwrap(), Some(b"kept".to_vec()));
}

#[test]
fn read_only_open_succeeds_concurrently_with_a_read_write_open() {
    let disk = Disk::default();
    let mut writer = open(&disk, Options::default());
    writer.put(b"k", b"v").unwrap();

    let reader = open(&disk, read_only());
    assert_eq!(reader.get(b"k").unwrap(), Some(b"v".to_vec()));

    // the writer is still usable too — the read-only open didn't
    // disturb it.
    writer.put(b"k2", b"v2").unwrap();
    assert_eq!(writer.get(b"k2").unwrap(), Some(b"v2".to_vec()));
}

#[test]
fn multiple_read_only_opens_coexist() {
    let disk = Disk::default();
    {
        let mut db = open(&disk, Options::default());
        db.put(b"k", b"v").unwrap();
    }
    let r1 = open(&disk, read_only());
    let r2 = open(&disk, read_only());
    assert_eq!(r1.get(b"k").unwrap(), Some(b"v".to_vec()));
    assert_eq!(r2.get(b"k").unwrap(), Some(b"v".to_vec()));
}

#[test]
fn merge_is_rejected_on_a_read_only_handle() {
    let disk = Disk::default();
    {
        let mut db = open(&disk, Options::default());
        db.put(b"k", b"v").unwrap();
    }
    let mut ro = open(&disk, read_only());
    assert!(matches!(ro.merge(), Err(Error::ReadOnly)));
}

#[test]
fn basic_compaction_keeps_only_latest_version() {
    let mut db = fresh(small_files(1)); // every put rotates into its own file
    db.put(b"A", b"v1").unwrap();
    db.put(b"A", b"v2").unwrap();
    db.put(b"A", b"v3").unwrap();

    let before_ids = ids_on(&db.disk);
    assert!(
        before_ids.len() >= 4,
        "expected 3 rotated files + 1 active, got {before_ids:?}"
    );

    db.merge().unwrap();

    assert_eq!(db.get(b"A").unwrap(), Some(b"v3".to_vec()));
    assert_eq!(count_entries_for_key(&db.disk, b"A"), 1); // only the latest version survives anywhere on disk

    let after_ids = ids_on(&db.disk);
    for &id in &before_ids[..before_ids.len() - 1] {
        assert!(
            !after_ids.contains(&id),
            "old file {id} should have been removed"
        );
    }
    // The highest id after merge is always the active file — an ordinary
    // file, not a merge output, so it has no hint file. Every *other* new id
    // is a genuine merge output and must have one.
    let mut new_ids: Vec<u32> = after_ids
        .iter()
        .copied()
        .filter(|id| !before_ids.contains(id))
        .collect();
    new_ids.sort_unstable();
    assert!(
        !new_ids.is_empty(),
        "expected at least one new merge-output file"
    );
    let merge_output_ids = &new_ids[..new_ids.len() - 1];
    assert!(
        !merge_output_ids.is_empty(),
        "expected at least one new merge-output file besides the active file, got {new_ids:?}"
    );
    for &id in merge_output_ids {
        assert!(
            db.disk.borrow()[&id].hint.is_some(),
            "merge output file {id} missing its hint file"
        );
    }
}

#[test]
fn tombstone_reclamation() {
    let mut db = fresh(small_files(1));
    db.put(b"B", b"v").unwrap();
    db.delete(b"B").unwrap();

    db.merge().unwrap();

    assert_eq!(db.get(b"B").unwrap(), None);
    assert_eq!(count_entries_for_key(&db.disk, b"B"), 0); // no trace, live or tombstone
}

#[test]
fn merge_does_not_touch_the_active_file() {
    let mut db = fresh(small_files(40));
    for i in 0..30u32 {
        db.put(format!("k{i}").as_bytes(), format!("v{i}").as_bytes())
            .unwrap();
    }

    let before_ids = ids_on(&db.disk);
    assert!(
        before_ids.len() > 2,
        "test needs multiple rotated files, got {before_ids:?}"
    );
    let active_id = *before_ids.last().unwrap();
    let an_old_id = before_ids[0];

    db.merge().unwrap();

    let after_ids = ids_on(&db.disk);
    assert!(
        after_ids.contains(&active_id),
        "active file must survive merge untouched"
    );
    assert!(
        !after_ids.contains(&an_old_id),
        "an old rotated file should have been merged away"
    );

    for i in 0..30u32 {
        assert_eq!(
            db.get(format!("k{i}").as_bytes()).unwrap(),
            Some(format!("v{i}").into_bytes())
        );
    }
}

#[test]
fn hint_files_match_full_scan_recovery_post_merge() {
    let mut db = fresh(small_files(1));
    db.put(b"a", b"1").unwrap();
    db.put(b"a", b"2").unwrap();
    db.put(b"b", b"3").unwrap();
    db.delete(b"b").unwrap();
    db.put(b"c", b"4").unwrap();
    db.merge().unwrap();

    let expected_keys = db.sorted_keys();

    // A fresh, independent, read-only open: the index is rebuilt purely by
    // recovery, hint-based here since merge just wrote hint files.
    let reopened = open(&db.disk, read_only());
    let got_keys = reopened.sorted_keys();
    assert_eq!(got_keys, expected_keys);
    for key in &got_keys {
        assert_eq!(reopened.get(key).unwrap(), db.get(key).unwrap());
    }

    // Without the hint files the scan finds the same places.
    let mut with_hints = reopened.engine.snapshot();
    for file in db.disk.borrow_mut().values_mut() {
        file.hint = None;
    }
    let mut without_hints = open(&db.disk, read_only()).engine.snapshot();
    with_hints.sort_by(|a, b| a.0.cmp(&b.0));
    without_hints.sort_by(|a, b| a.0.cmp(&b.0));
    assert_eq!(with_hints, without_hints);
}

#[test]
fn repeated_merges_are_idempotent() {
    let mut db = fresh(small_files(1));
    db.put(b"a", b"1").unwrap();
    db.put(b"a", b"2").unwrap();
    db.put(b"b", b"3").unwrap();

    db.merge().unwrap();
    assert_eq!(db.get(b"a").unwrap(), Some(b"2".to_vec()));
    assert_eq!(db.get(b"b").unwrap(), Some(b"3".to_vec()));

    db.merge().unwrap(); // merging an already-merged, unchanged datastore again
    assert_eq!(db.get(b"a").unwrap(), Some(b"2".to_vec()));
    assert_eq!(db.get(b"b").unwrap(), Some(b"3".to_vec()));
}

#[test]
fn a_merge_of_nothing_is_no_merge() {
    let mut db = fresh(Options::default());
    db.put(b"a", b"1").unwrap();
    assert!(db.begin_merge().unwrap().is_none());
    assert_eq!(ids_on(&db.disk), vec![0]);
}

#[test]
fn after_a_merge_the_active_file_has_the_highest_id() {
    let mut db = fresh(small_files(100));
    for i in 0..20u32 {
        db.put(format!("k{i}").as_bytes(), b"v").unwrap();
    }
    db.merge().unwrap();
    let ids = ids_on(&db.disk);
    assert_eq!(db.engine.active_file_id(), ids.last().copied());
    // A write after the merge wins over the merged copy when reopened.
    db.put(b"k0", b"newer").unwrap();
    let reopened = open(&db.disk, read_only());
    assert_eq!(reopened.get(b"k0").unwrap(), Some(b"newer".to_vec()));
}

#[test]
fn interrupted_merges_lose_nothing() {
    let build = || {
        let mut db = fresh(small_files(60));
        for i in 0..12u32 {
            db.put(format!("k{}", i % 5).as_bytes(), format!("v{i}").as_bytes())
                .unwrap();
        }
        db.delete(b"k1").unwrap();
        db
    };
    let expected: HashMap<Vec<u8>, Vec<u8>> = {
        let db = build();
        db.sorted_keys()
            .into_iter()
            .map(|key| {
                let value = db.get(&key).unwrap().unwrap();
                (key, value)
            })
            .collect()
    };
    let mut stop_after = 0;
    loop {
        let mut db = build();
        let mut done = 0;
        let mut merge = db.begin_merge().unwrap().unwrap();
        let mut all_steps = Vec::new();
        for file_id in merge.inputs().to_vec() {
            let (next, _, steps) = db.copy_file(merge, file_id);
            merge = next;
            for step in steps {
                if done < stop_after {
                    done += 1;
                    db.run_step(step);
                } else {
                    all_steps.push(step);
                }
            }
            if !all_steps.is_empty() {
                break;
            }
        }
        if all_steps.is_empty() {
            let mut steps = Vec::new();
            merge.finish(&mut steps);
            for step in steps {
                if done < stop_after {
                    done += 1;
                    db.run_step(step);
                } else {
                    all_steps.push(step);
                }
            }
        }
        for reader in [&db, &open(&db.disk, read_only())] {
            let found: HashMap<Vec<u8>, Vec<u8>> = reader
                .sorted_keys()
                .into_iter()
                .map(|key| {
                    let value = reader.get(&key).unwrap().unwrap();
                    (key, value)
                })
                .collect();
            assert_eq!(found, expected, "stopped after {stop_after} steps");
        }
        if all_steps.is_empty() {
            break;
        }
        stop_after += 1;
    }
    assert!(stop_after > 10);
}

fn contents(db: &Db) -> HashMap<Vec<u8>, Vec<u8>> {
    db.sorted_keys()
        .into_iter()
        .map(|key| {
            let value = db.get(&key).unwrap().unwrap();
            (key, value)
        })
        .collect()
}

/// The disks that a crash may leave while `step` is carried out: any part of a buffer may have
/// reached its file, and a hint file may be cut off anywhere.
fn disks_after_a_crash(disk: &Disk, step: &MergeStep) -> Vec<Disk> {
    let mut disks = Vec::new();
    let buffers: Vec<(u32, usize)> = disk
        .borrow()
        .iter()
        .map(|(&id, file)| (id, file.buffered.len()))
        .collect();
    for (file_id, buffered) in buffers {
        for cut in 0..=buffered {
            let mut image = disk.borrow().clone();
            for (&id, file) in image.iter_mut() {
                let spilled = if id == file_id { cut } else { 0 };
                file.data.extend_from_slice(&file.buffered[..spilled]);
                file.buffered.clear();
            }
            disks.push(Rc::new(RefCell::new(image)));
        }
    }
    if let MergeStep::Finish { file_id, hint } = step {
        for cut in 0..=hint.len() {
            let mut image = disk.borrow().clone();
            let file = image.get_mut(file_id).unwrap();
            file.data.append(&mut file.buffered);
            file.hint = Some(hint[..cut].to_vec());
            disks.push(Rc::new(RefCell::new(image)));
        }
    }
    disks
}

#[test]
fn a_merge_cut_off_within_a_step_loses_nothing() {
    let mut db = fresh(small_files(60));
    for i in 0..12u32 {
        db.put(format!("k{}", i % 5).as_bytes(), format!("v{i}").as_bytes())
            .unwrap();
    }
    db.delete(b"k1").unwrap();
    let expected = contents(&db);
    assert_eq!(expected.len(), 4);

    let mut merge = db.begin_merge().unwrap().unwrap();
    let mut images = 0;
    let inputs = merge.inputs().to_vec();
    for file_id in inputs {
        let (next, _, steps) = db.copy_file(merge, file_id);
        merge = next;
        for step in steps {
            for disk in disks_after_a_crash(&db.disk, &step) {
                assert_eq!(contents(&open(&disk, read_only())), expected);
                images += 1;
            }
            db.run_step(step);
        }
    }
    let mut steps = Vec::new();
    merge.finish(&mut steps);
    for step in steps {
        for disk in disks_after_a_crash(&db.disk, &step) {
            assert_eq!(contents(&open(&disk, read_only())), expected);
            images += 1;
        }
        db.run_step(step);
    }
    assert_eq!(contents(&open(&db.disk, read_only())), expected);
    assert!(images > 100);
}

#[test]
fn an_output_file_that_was_there_is_appended_to() {
    let repointed = |existing: Vec<(u32, u64)>| {
        let mut db = fresh(Options::default());
        db.put(b"k", b"value").unwrap();
        db.rotate().unwrap();
        let mut steps = Vec::new();
        let merge = db
            .engine
            .begin_merge(&[0, 1], existing, &mut steps)
            .unwrap()
            .unwrap();
        assert!(matches!(steps[..], [MergeStep::Create { file_id: 2 }]));
        let (merge, _, _) = db.copy_file(merge, 0);
        let mut steps = Vec::new();
        merge.finish(&mut steps);
        steps
            .into_iter()
            .find_map(|step| match step {
                MergeStep::Repoint(items) => Some((items[0].2.file_id, items[0].2.value_pos)),
                _ => None,
            })
            .unwrap()
    };
    assert_eq!(repointed(vec![]), (2, 17));
    assert_eq!(repointed(vec![(0, 22), (1, 0), (2, 100)]), (2, 117));
}

#[test]
fn copies_are_flushed_in_batches_before_keys_are_repointed() {
    let mut db = fresh(Options::default());
    let count = MERGE_FLUSH_BATCH_SIZE + 10;
    for i in 0..count {
        db.put(format!("k{i}").as_bytes(), b"v").unwrap();
    }
    db.rotate().unwrap();
    let merge = db.begin_merge().unwrap().unwrap();
    assert_eq!(merge.inputs(), &[0]);
    let (merge, live, steps) = db.copy_file(merge, 0);
    assert_eq!(live, count);
    let batches: Vec<usize> = steps
        .iter()
        .filter_map(|step| match step {
            MergeStep::Repoint(items) => Some(items.len()),
            _ => None,
        })
        .collect();
    assert_eq!(batches, vec![MERGE_FLUSH_BATCH_SIZE]);
    let flush = steps
        .iter()
        .position(|step| matches!(step, MergeStep::Flush { .. }))
        .unwrap();
    assert!(matches!(steps[flush + 1], MergeStep::Repoint(_)));
    db.run(steps);
    let mut rest = Vec::new();
    merge.finish(&mut rest);
    assert!(matches!(rest[0], MergeStep::Finish { .. }));
    assert!(matches!(&rest[1], MergeStep::Repoint(items) if items.len() == 10));
    assert!(matches!(rest[2], MergeStep::Remove { file_id: 0 }));
    assert_eq!(rest.len(), 3);
}

#[test]
fn full_output_files_are_finished_with_a_hint_file() {
    let mut db = fresh(Options::default());
    for i in 0..4u32 {
        db.put(format!("k{i}").as_bytes(), &[i as u8; 50]).unwrap();
    }
    db.rotate().unwrap();
    // Reopen with smaller files, so that the merge splits what it copies.
    let mut db = open(&db.disk, small_files(100));
    db.merge().unwrap();
    let hints = db
        .disk
        .borrow()
        .values()
        .filter(|file| file.hint.is_some())
        .count();
    assert!(hints >= 2, "expected several outputs, got {hints}");
    for i in 0..4u32 {
        assert_eq!(
            db.get(format!("k{i}").as_bytes()).unwrap(),
            Some(vec![i as u8; 50])
        );
    }
}

#[test]
fn a_merge_reports_what_is_wrong_in_its_inputs() {
    let mut good = yabiir::format::encode_entry(b"a", b"1", false, 0).into_bytes();
    let end = good.len() as u64;
    let mut corrupt = yabiir::format::encode_entry(b"b", b"2", false, 0).into_bytes();
    corrupt[17] ^= 1;
    let bad_end = end + corrupt.len() as u64;
    good.extend(corrupt);
    good.extend([1, 2, 3]);
    let (entries, issues) = read_all_entries(&good);
    assert_eq!(entries.len(), 1);
    assert_eq!(entries[0].0, 0);
    assert_eq!(
        issues,
        vec![
            ScanIssue::Corrupt { offset: end },
            ScanIssue::Truncated { offset: bad_end },
        ]
    );
}

#[test]
fn syncing_on_put_runs_one_fsync_per_lone_write() {
    let mut db = fresh(Options {
        should_sync_on_put: true,
        ..Options::default()
    });
    db.put(b"a", b"1").unwrap();
    db.put(b"b", b"2").unwrap();
    db.delete(b"a").unwrap();
    assert_eq!(db.syncs.get(), 3);
    assert_eq!(db.get(b"b").unwrap(), Some(b"2".to_vec()));

    // A rotation makes all writes so far durable, so no other fsync is left to run.
    let mut db = fresh(Options {
        should_sync_on_put: true,
        max_file_size: 1,
        ..Options::default()
    });
    db.put(b"a", b"1").unwrap();
    assert_eq!(db.syncs.get(), 1);
}

#[test]
fn writers_that_share_the_engine_share_an_fsync() {
    let mut db = fresh(Options {
        should_sync_on_put: true,
        ..Options::default()
    });
    let Db { disk, engine, .. } = &mut db;
    let mut generations = Vec::new();
    let mut writes = Vec::new();
    for key in [b"a", b"b", b"c"] {
        let begun = engine.begin_put(key, b"v", 7).unwrap();
        append(disk, begun.file_id(), begun.encoded()).unwrap();
        let (write, full) = engine.written(begun).unwrap();
        assert!(full.is_none());
        generations.push(write.generation().unwrap());
        writes.push(write);
    }
    assert_eq!(generations, [1, 2, 3]);
    // The first to come leads, and covers all three.
    assert_eq!(engine.next_commit_step(2), CommitStep::Lead { covers: 3 });
    assert_eq!(engine.next_commit_step(1), CommitStep::Wait);
    engine.fsync_ended(3, true);
    for generation in generations {
        assert_eq!(engine.next_commit_step(generation), CommitStep::Done);
    }
    // Nothing was published yet.
    assert_eq!(engine.locate(b"a"), None);
    let mut places = Vec::new();
    for (write, key) in writes.into_iter().zip([b"a", b"b", b"c"]) {
        engine.publish(write);
        let entry = engine.locate(key).unwrap();
        places.push((entry.file_id, entry.value_pos, entry.value_size));
    }
    assert_eq!(places, [(0, 17, 1), (0, 35, 1), (0, 53, 1)]);
    assert_eq!(db.get(b"a").unwrap(), Some(b"v".to_vec()));
}

#[test]
fn a_begun_delete_is_seen_once_it_is_published() {
    let mut db = fresh(Options::default());
    db.put(b"a", b"1").unwrap();
    let Db { disk, engine, .. } = &mut db;
    let before = disk.borrow()[&0].data.len();
    let begun = engine.begin_delete(b"a", 7).unwrap().unwrap();
    append(disk, begun.file_id(), begun.encoded()).unwrap();
    let (write, full) = engine.written(begun).unwrap();
    assert!(full.is_none());
    assert_eq!(write.generation(), None);
    assert_eq!(disk.borrow()[&0].data.len(), before + 17);
    assert!(engine.locate(b"a").is_some());
    engine.publish(write);
    assert_eq!(engine.locate(b"a"), None);
}

#[test]
fn a_write_in_steps_rotates_a_full_file() {
    let mut whole = fresh(small_files(1));
    whole.put(b"a", b"1").unwrap();
    whole.put(b"b", b"22").unwrap();
    whole.delete(b"a").unwrap();

    let mut db = fresh(small_files(1));
    for (key, value) in [(b"a", Some(&b"1"[..])), (b"b", Some(b"22")), (b"a", None)] {
        let Db { disk, engine, .. } = &mut db;
        let begun = match value {
            Some(value) => engine.begin_put(key, value, 7).unwrap(),
            None => engine.begin_delete(key, 7).unwrap().unwrap(),
        };
        let file_id = begun.file_id();
        append(disk, file_id, begun.encoded()).unwrap();
        let (write, full) = engine.written(begun).unwrap();
        let full = full.unwrap();
        assert_eq!(full.file_id(), file_id);
        let new = engine.begin_rotation(full);
        assert_eq!(new.file_id(), file_id + 1);
        let len = create(disk, new.file_id()).unwrap();
        engine.finish_rotation(new, len);
        assert_eq!(engine.active_file_id(), Some(file_id + 1));
        engine.publish(write);
    }
    assert_eq!(db.sorted_keys(), vec![b"b".to_vec()]);
    assert_eq!(db.get(b"b").unwrap(), Some(b"22".to_vec()));
    for (id, file) in whole.disk.borrow().iter() {
        assert_eq!(file.data, db.disk.borrow()[id].data);
    }
    assert_eq!(ids_on(&db.disk), ids_on(&whole.disk));
    assert_eq!(contents(&open(&db.disk, read_only())), contents(&whole));
}

#[test]
fn a_copy_can_be_planned_before_its_ids_are_taken() {
    let build = || {
        let mut db = fresh(small_files(60));
        for i in 0..8u32 {
            db.put(format!("k{i}").as_bytes(), b"value").unwrap();
        }
        db
    };
    let mut planned = build();
    let mut copied = build();
    let first = planned.begin_merge().unwrap().unwrap();
    let second = copied.begin_merge().unwrap().unwrap();
    let bytes = planned.disk.borrow()[&0].data.clone();
    let (mut plan, mut steps) = (Vec::new(), Vec::new());
    let (first, report, ids) = planned.engine.plan_copy(first, 0, &bytes, &mut plan);
    planned.engine.take_ids(ids);
    let (second, same) = copied.engine.copy_file(second, 0, &bytes, &mut steps);
    assert_eq!(report.live_entries, same.live_entries);
    assert_eq!(format!("{plan:?}"), format!("{steps:?}"));
    assert_eq!(first.inputs(), second.inputs());
    planned.rotate().unwrap();
    copied.rotate().unwrap();
    assert_eq!(
        planned.engine.active_file_id(),
        copied.engine.active_file_id()
    );
}

/// Callbacks that must not be called.
fn no_write(_: u32, _: &EncodedEntry) -> io::Result<()> {
    panic!("nothing is to be written")
}

fn no_sync(_: u32, (): ()) -> io::Result<()> {
    panic!("nothing is to be synced")
}

fn no_create(_: u32, (): ()) -> io::Result<u64> {
    panic!("nothing is to be created")
}

#[test]
fn a_refused_write_and_the_delete_of_an_absent_key_touch_no_file() {
    let mut db = fresh(Options::default());
    let engine = &mut db.engine;
    assert!(matches!(
        engine.put(b"", b"v", 7, no_write, no_sync, no_create),
        Err(Error::EmptyKey)
    ));
    assert!(matches!(
        engine.delete(b"", 7, no_write, no_sync, no_create),
        Err(Error::EmptyKey)
    ));
    engine
        .delete(b"absent", 7, no_write, no_sync, no_create)
        .unwrap();
    assert!(engine.begin_delete(b"absent", 7).unwrap().is_none());
    assert!(matches!(engine.begin_put(b"", b"v", 7), Err(Error::EmptyKey)));
    assert!(matches!(engine.begin_delete(b"", 7), Err(Error::EmptyKey)));

    let mut reader = fresh(read_only());
    let engine = &mut reader.engine;
    assert!(matches!(
        engine.put(b"", b"v", 7, no_write, no_sync, no_create),
        Err(Error::EmptyKey)
    ));
    assert!(matches!(
        engine.put(b"a", b"v", 7, no_write, no_sync, no_create),
        Err(Error::ReadOnly)
    ));
    assert!(matches!(
        engine.delete(b"a", 7, no_write, no_sync, no_create),
        Err(Error::ReadOnly)
    ));
    assert!(matches!(engine.begin_put(b"a", b"v", 7), Err(Error::ReadOnly)));
    assert!(matches!(engine.begin_delete(b"a", 7), Err(Error::ReadOnly)));
    assert!(matches!(engine.file_to_sync(), Err(Error::ReadOnly)));
    assert!(engine.active_to_rotate().is_none());
}

#[test]
fn the_callbacks_of_a_write_come_in_order_and_hand_receipts_on() {
    let seen = RefCell::new(Vec::new());
    let mut db = fresh(Options {
        should_sync_on_put: true,
        max_file_size: 1,
        ..Options::default()
    });
    db.engine
        .put(
            b"a",
            b"1",
            7,
            |id, e: &EncodedEntry| {
                seen.borrow_mut().push(format!("write {id} {}", e.len()));
                Ok(5u8)
            },
            |id, receipt| {
                seen.borrow_mut().push(format!("sync {id} {receipt}"));
                Ok("synced")
            },
            |id, receipt| {
                seen.borrow_mut().push(format!("create {id} {receipt}"));
                Ok(0)
            },
        )
        .unwrap();
    assert_eq!(
        seen.into_inner(),
        ["write 0 18", "sync 0 5", "create 1 synced"]
    );
}

#[test]
fn a_write_that_fails_is_not_published() {
    let broken = |what: &str| io::Error::other(what.to_string());
    let works = |_: u32, _: &EncodedEntry| -> io::Result<()> { Ok(()) };
    let synced = |_: u32, (): ()| -> io::Result<()> { Ok(()) };

    // The append fails.
    let mut db = fresh(Options::default());
    db.put(b"a", b"1").unwrap();
    let outcome = db.engine.put(
        b"a",
        b"2",
        7,
        |_id, _e: &EncodedEntry| Err(broken("append")),
        no_sync,
        no_create,
    );
    assert!(matches!(outcome, Err(Error::Io(e)) if e.to_string() == "append"));
    assert_eq!(db.get(b"a").unwrap(), Some(b"1".to_vec()));
    db.put(b"a", b"3").unwrap();
    assert_eq!(db.get(b"a").unwrap(), Some(b"3".to_vec()));

    // The fsync that the write asks for fails.
    let mut db = fresh(Options {
        should_sync_on_put: true,
        ..Options::default()
    });
    let failing = |_: u32, (): ()| -> io::Result<()> { Err(broken("sync")) };
    let outcome = db.engine.put(b"a", b"1", 7, works, failing, no_create);
    assert!(matches!(outcome, Err(Error::Io(e)) if e.to_string() == "sync"));
    assert_eq!(db.get(b"a").unwrap(), None);

    // The new file cannot be created: the old one stays the active one.
    let mut db = fresh(small_files(1));
    let outcome = db
        .engine
        .put(b"a", b"1", 7, works, synced, |_id, ()| Err(broken("create")));
    assert!(matches!(outcome, Err(Error::Io(e)) if e.to_string() == "create"));
    assert_eq!(db.get(b"a").unwrap(), None);
    assert_eq!(db.engine.active_file_id(), Some(0));
}

#[test]
fn sync_and_close_make_the_active_file_durable() {
    let seen = RefCell::new(Vec::new());
    let note = |id: u32| -> io::Result<()> {
        seen.borrow_mut().push(id);
        Ok(())
    };
    let mut db = fresh(small_files(1));
    db.put(b"a", b"1").unwrap();
    db.engine.sync(note).unwrap();
    assert!(matches!(
        db.engine.sync(|_id| Err(io::Error::other("full"))),
        Err(Error::Io(_))
    ));
    let disk = Rc::clone(&db.disk);
    db.engine.close(note).unwrap();
    assert_eq!(seen.into_inner(), [1, 1]);

    // A handle for reading only refuses to sync, and closes without one.
    let reader = open(&disk, read_only());
    let never = |_: u32| -> io::Result<()> { unreachable!() };
    assert!(matches!(reader.engine.sync(never), Err(Error::ReadOnly)));
    reader.engine.close(never).unwrap();
    let mut reader = open(&disk, read_only());
    assert!(matches!(reader.rotate(), Err(Error::ReadOnly)));
}

#[test]
fn errors_of_the_disk_reach_the_reader() {
    let mut db = fresh(Options::default());
    db.put(b"a", b"1").unwrap();
    let failing = |_: KeydirEntry| -> io::Result<Vec<u8>> { Err(io::Error::other("torn")) };
    assert!(matches!(db.engine.get(b"a", failing), Err(Error::Io(_))));
    assert!(matches!(db.engine.get(b"b", failing), Ok(None)));
    assert!(matches!(read_located(None, failing), Ok(None)));
    let entries = db.engine.snapshot();
    assert!(matches!(
        fold_snapshot(&entries, failing, |_k, _v, acc: u32| acc + 1, 0),
        Err(Error::Io(_))
    ));
}

#[test]
fn metrics_do_nothing_by_default() {
    struct Silent;
    impl Metrics for Silent {}
    let opts = Options {
        metrics: Some(std::sync::Arc::new(Silent)),
        ..Options::default()
    };
    let metrics = opts.clone().metrics.unwrap();
    metrics.record_put(std::time::Duration::from_secs(1));
    metrics.record_pending_queue_depth(3);
    metrics.record_merge_summary(2, 5);
    NoopMetrics {}.record_merge(std::time::Duration::ZERO);
}

/// A small generator for reproducible sequences of operations.
struct Lcg(u64);

impl Lcg {
    fn next(&mut self, below: u64) -> u64 {
        self.0 = self
            .0
            .wrapping_mul(6364136223846793005)
            .wrapping_add(1442695040888963407);
        (self.0 >> 33) % below
    }
}

#[test]
fn writes_between_the_steps_of_a_merge_are_seen_and_nothing_else_changes() {
    for case in 0..60u64 {
        let mut rng = Lcg(case + 7);
        let mut model: HashMap<Vec<u8>, Vec<u8>> = HashMap::new();
        let mut db = fresh(small_files(60));
        let mut write = |db: &mut Db, model: &mut HashMap<Vec<u8>, Vec<u8>>| {
            let key = vec![b'a' + rng.next(6) as u8];
            if rng.next(3) == 0 {
                db.delete(&key).unwrap();
                model.remove(&key);
            } else {
                let value = vec![rng.next(256) as u8; rng.next(8) as usize];
                db.put(&key, &value).unwrap();
                model.insert(key, value);
            }
        };
        let compare = |db: &Db, model: &HashMap<Vec<u8>, Vec<u8>>| {
            for b in b'a'..=b'f' {
                assert_eq!(db.get(&[b]).unwrap(), model.get(&vec![b]).cloned());
            }
        };
        for _ in 0..30 {
            write(&mut db, &mut model);
        }
        let mut merge = db.begin_merge().unwrap().unwrap();
        let mut steps = Vec::new();
        for file_id in merge.inputs().to_vec() {
            // Some steps of one file may still wait when the next one is planned for.
            let (next, _, more) = db.copy_file(merge, file_id);
            merge = next;
            steps.extend(more);
            write(&mut db, &mut model);
            while steps.len() > 2 {
                db.run_step(steps.remove(0));
                compare(&db, &model);
                write(&mut db, &mut model);
                compare(&db, &model);
            }
        }
        let highest = merge.finish(&mut steps);
        for step in steps {
            db.run_step(step);
            compare(&db, &model);
            write(&mut db, &mut model);
            compare(&db, &model);
        }
        if db.engine.is_behind(highest) {
            db.rotate().unwrap();
        }
        compare(&db, &model);
    }
}

#[test]
fn model_matches_reference() {
    for case in 0..300u64 {
        let mut rng = Lcg(case + 1);
        let mut model: HashMap<Vec<u8>, Vec<u8>> = HashMap::new();
        let disk = Disk::default();
        let mut db = open(&disk, small_files(200));
        for _ in 0..1 + rng.next(40) {
            let key = vec![b'a' + rng.next(6) as u8];
            match rng.next(12) {
                0..=3 => {
                    let value: Vec<u8> = (0..rng.next(8)).map(|_| rng.next(256) as u8).collect();
                    db.put(&key, &value).unwrap();
                    model.insert(key, value);
                }
                4..=7 => assert_eq!(db.get(&key).unwrap(), model.get(&key).cloned()),
                8..=9 => {
                    db.delete(&key).unwrap();
                    model.remove(&key);
                }
                10 => db = open(&disk, small_files(200)),
                _ => db.merge().unwrap(),
            }
        }
        let keys = db.sorted_keys();
        let mut model_keys: Vec<_> = model.keys().cloned().collect();
        model_keys.sort();
        assert_eq!(keys, model_keys);
        for k in &keys {
            assert_eq!(db.get(k).unwrap().as_ref(), model.get(k));
        }
    }
}
