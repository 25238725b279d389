use yabiir::keydir::{Keydir, KeydirEntry, SharedKeydir};

fn entry(n: u32) -> KeydirEntry {
    KeydirEntry {
        file_id: n,
        value_size: n,
        value_pos: n as u64,
        timestamp: n,
    }
}

#[test]
fn insert_then_get_returns_same_entry() {
    let mut kd = Keydir::new();
    kd.insert(b"k", entry(1));
    assert_eq!(kd.get(b"k"), Some(entry(1)));
}

#[test]
fn insert_twice_is_last_write_wins() {
    let mut kd = Keydir::new();
    kd.insert(b"k", entry(1));
    kd.insert(b"k", entry(2));
    assert_eq!(kd.get(b"k"), Some(entry(2)));
    assert_eq!(kd.len(), 1);
}

#[test]
fn remove_then_get_returns_none() {
    let mut kd = Keydir::new();
    kd.insert(b"k", entry(1));
    assert_eq!(kd.remove(b"k"), Some(entry(1)));
    assert_eq!(kd.get(b"k"), None);
    assert!(kd.is_empty());
}

#[test]
fn remove_missing_key_returns_none() {
    let mut kd = Keydir::new();
    assert_eq!(kd.remove(b"missing"), None);
}

#[test]
fn cas_repoint_succeeds_when_expectation_matches() {
    let mut kd = Keydir::new();
    kd.insert(b"k", entry(1));
    assert!(kd.cas_repoint(b"k", entry(1), entry(2)));
    assert_eq!(kd.get(b"k"), Some(entry(2)));
}

#[test]
fn cas_repoint_fails_when_expectation_is_stale() {
    let mut kd = Keydir::new();
    kd.insert(b"k", entry(1));
    kd.insert(b"k", entry(2)); // a "concurrent write" raced ahead
    assert!(!kd.cas_repoint(b"k", entry(1), entry(3)));
    // the stale CAS must not have mutated anything
    assert_eq!(kd.get(b"k"), Some(entry(2)));
}

#[test]
fn cas_repoint_fails_when_key_is_absent() {
    let mut kd = Keydir::new();
    assert!(!kd.cas_repoint(b"missing", entry(1), entry(2)));
    assert_eq!(kd.get(b"missing"), None);
}

#[test]
fn iter_yields_all_entries() {
    let mut kd = Keydir::new();
    kd.insert(b"a", entry(1));
    kd.insert(b"b", entry(2));
    let mut seen: Vec<_> = kd
        .iter()
        .into_iter()
        .map(|(k, v)| (k.to_vec(), *v))
        .collect();
    seen.sort_by(|a, b| a.0.cmp(&b.0));
    assert_eq!(
        seen,
        vec![(b"a".to_vec(), entry(1)), (b"b".to_vec(), entry(2))]
    );
}

#[test]
fn snapshot_matches_iter() {
    let mut kd = Keydir::new();
    kd.insert(b"a", entry(1));
    kd.insert(b"b", entry(2));
    let shared = SharedKeydir::new(kd);

    let mut snap = shared.snapshot();
    snap.sort_by(|a, b| a.0.cmp(&b.0));
    assert_eq!(
        snap,
        vec![(b"a".to_vec(), entry(1)), (b"b".to_vec(), entry(2))]
    );
}

#[test]
fn shared_keydir_len_and_is_empty_reflect_contents() {
    let mut shared = SharedKeydir::new(Keydir::new());
    assert_eq!(shared.len(), 0);
    assert!(shared.is_empty());

    shared.insert(b"k", entry(1));
    assert_eq!(shared.len(), 1);
    assert!(!shared.is_empty());

    shared.remove(b"k");
    assert_eq!(shared.len(), 0);
    assert!(shared.is_empty());
}

#[test]
fn shared_keydir_repoints_only_what_it_expects() {
    let mut shared = SharedKeydir::new(Keydir::new());
    shared.insert(b"k", entry(1));
    assert!(!shared.cas_repoint(b"k", entry(9), entry(2)));
    assert_eq!(shared.get(b"k"), Some(entry(1)));
    assert!(shared.cas_repoint(b"k", entry(1), entry(2)));
    assert_eq!(shared.get(b"k"), Some(entry(2)));
    assert_eq!(shared.remove(b"k"), Some(entry(2)));
}

#[test]
fn a_default_index_is_empty() {
    assert!(Keydir::default().is_empty());
    assert_eq!(SharedKeydir::default().len(), 0);
}
