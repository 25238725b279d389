use yabiir::datafile::{parse_data_file_id, ActiveFile, DataFileSet, FileIdCounter};
use yabiir::format::encode_entry;
use yabiir::loadtest::{
    choose_operation, ends_warmup, key_bytes, latencies_of, pause_before_report, OpKind, Rng,
};
use yabiir::release::{
    after_metadata, find_version, require_clean_tree, require_free_tag, tag_exists, tag_for,
    working_tree_is_clean, yabiir_version, CommandReply, ReleaseAction, ReleaseState,
};
use yabiir::{now_unix, timestamp_by, timestamp_of, Options};

#[test]
fn now_unix_returns_a_plausible_current_timestamp() {
    // Loosely bounded, not exact: catches a stub returning 0/1 (or any
    // other constant) without being sensitive to test execution speed.
    // 1_700_000_000 is 2023-11-14; comfortably in the past of any real
    // test run without hardcoding "now".
    let t = now_unix();
    assert!(
        t > 1_700_000_000,
        "now_unix() returned implausibly small {t}"
    );
}

#[test]
fn a_timestamp_keeps_the_low_32_bits() {
    assert_eq!(timestamp_of(5), 5);
    assert_eq!(timestamp_of(0x1_0000_0007), 7);
}

#[test]
fn a_timestamp_is_what_the_clock_says() {
    assert_eq!(timestamp_by(|| Some(1_700_000_000)), 1_700_000_000);
    assert_eq!(timestamp_by(|| Some(0x1_0000_0007)), 7);
    assert_eq!(timestamp_by(|| None), 0);
}

#[test]
fn default_options_are_as_documented() {
    let opts = Options::default();
    assert!(opts.is_read_write);
    assert!(!opts.should_sync_on_put);
    assert_eq!(opts.max_file_size, 64 * 1024 * 1024);
    assert!(opts.metrics.is_none());
}

#[test]
fn append_then_read_back_matches() {
    let mut active = ActiveFile::create(1, 0);
    assert!(active.is_empty());
    let mut file: Vec<u8> = Vec::new();

    let cases: [(&[u8], &[u8]); 3] = [(b"a", b"1"), (b"bb", b"22"), (b"ccc", b"")];
    let mut locations = Vec::new();
    for (key, value) in &cases {
        let encoded = encode_entry(key, value, false, 0);
        file.extend_from_slice(encoded.as_bytes());
        let (file_id, value_pos, _total_len) = active.append(&encoded);
        locations.push((file_id, value_pos, value.len() as u32));
    }
    assert_eq!(active.len(), file.len() as u64);

    for ((file_id, value_pos, value_len), (_, expected_value)) in
        locations.iter().zip(cases.iter())
    {
        assert_eq!(*file_id, 1);
        let start = *value_pos as usize;
        let read = &file[start..start + *value_len as usize];
        assert_eq!(&read, expected_value);
    }
}

#[test]
fn manual_rotation_produces_files_with_increasing_ids_and_expected_sizes() {
    let threshold: u64 = 200;
    let mut file_id = 1u32;
    let mut active = ActiveFile::create(file_id, 0);
    let mut rotations = 0;
    let mut closed = Vec::new();
    let mut names = vec![DataFileSet::data_file_name(file_id)];

    for i in 0..50u32 {
        let key = format!("key-{i}");
        let value = vec![b'x'; 20];
        let encoded = encode_entry(key.as_bytes(), &value, false, 0);
        active.append(&encoded);
        if active.len() >= threshold {
            closed.push(active.len());
            file_id += 1;
            active = ActiveFile::create(file_id, 0);
            names.push(DataFileSet::data_file_name(file_id));
            rotations += 1;
        }
    }

    assert!(rotations >= 3, "expected several rotations, got {rotations}");
    let ids = DataFileSet::discover(&names);
    let expected: Vec<u32> = (1..=file_id).collect();
    assert_eq!(ids, expected);
    for len in closed {
        assert!(len >= threshold, "{len} bytes, expected >= {threshold}");
    }
}

#[test]
fn an_active_file_goes_on_where_the_file_ends() {
    let mut active = ActiveFile::create(3, 100);
    let encoded = encode_entry(b"k", b"vv", false, 0);
    assert_eq!(active.append(&encoded), (3, 117, 19));
    assert_eq!(active.len(), 119);
}

#[test]
fn file_names_are_padded_to_twenty_digits() {
    assert_eq!(
        DataFileSet::data_file_name(0),
        "00000000000000000000.bitcask.data"
    );
    assert_eq!(
        DataFileSet::hint_file_name(4_294_967_295),
        "00000000004294967295.bitcask.hint"
    );
    assert_eq!(
        parse_data_file_id("00000000004294967295.bitcask.data"),
        Some(4_294_967_295)
    );
}

#[test]
fn only_names_of_data_files_are_taken() {
    for name in [
        "",
        ".bitcask.data",
        "1.bitcask.data",
        "0000000000000000001.bitcask.data",
        "000000000000000000001.bitcask.data",
        "0000000000000000000a.bitcask.data",
        "+0000000000000000001.bitcask.data",
        "00000000000000000001.bitcask.hint",
        "00000000000000000001.bitcask.data~",
        "00000000004294967296.bitcask.data",
        "99999999999999999999.bitcask.data",
        "0000000000000000000é.bitcask.dat",
        ".bitcask.lock",
    ] {
        assert_eq!(parse_data_file_id(name), None, "{name}");
    }
}

#[test]
fn discovered_ids_ascend_and_other_names_are_passed_over() {
    let names: Vec<String> = [
        DataFileSet::data_file_name(12),
        ".bitcask.lock".to_string(),
        DataFileSet::data_file_name(3),
        DataFileSet::hint_file_name(4),
        DataFileSet::data_file_name(7),
    ]
    .to_vec();
    assert_eq!(DataFileSet::discover(&names), vec![3, 7, 12]);

    let mut sorted: Vec<String> = [12, 3, 7, 100].map(DataFileSet::data_file_name).to_vec();
    sorted.sort();
    let expected: Vec<String> = [3, 7, 12, 100].map(DataFileSet::data_file_name).to_vec();
    assert_eq!(sorted, expected);
}

#[test]
fn file_ids_are_handed_out_once_and_start_over_at_the_end() {
    let mut ids = FileIdCounter::new(u32::MAX - 1);
    assert_eq!(ids.claim(), u32::MAX - 1);
    assert_eq!(ids.claim(), u32::MAX);
    assert_eq!(ids.claim(), 0);
}

#[test]
fn rng_is_xorshift() {
    let mut rng = Rng::new(0);
    // One step from state 1: 1 ^ 1<<13 = 8193; ^ >>7 = 8193 ^ 64 = 8257; ^ <<17.
    assert_eq!(rng.next_u64(), 8257 ^ (8257 << 17));
    let mut same = Rng::new(1);
    assert_eq!(same.next_u64(), 8257 ^ (8257 << 17));
    let mut state = Rng::new(0x9E37_79B9_7F4A_7C16);
    for _ in 0..1000 {
        assert_ne!(state.next_u64(), 0);
    }
}

#[test]
fn keys_are_padded_to_twelve_digits() {
    assert_eq!(key_bytes(0), b"key-000000000000");
    assert_eq!(key_bytes(9999), b"key-000000009999");
    assert_eq!(key_bytes(1_234_567_890_123), b"key-1234567890123");
    assert_eq!(key_bytes(u64::MAX), b"key-18446744073709551615");
}

#[test]
fn operations_are_chosen_by_weight() {
    assert_eq!(choose_operation(0, 8, 2), OpKind::Get);
    assert_eq!(choose_operation(7, 8, 2), OpKind::Get);
    assert_eq!(choose_operation(8, 8, 2), OpKind::Put);
    assert_eq!(choose_operation(9, 8, 2), OpKind::Put);
    assert_eq!(choose_operation(10, 8, 2), OpKind::Delete);
    let labels: Vec<&str> = OpKind::all().iter().map(|kind| kind.label()).collect();
    assert_eq!(labels, vec!["get", "put", "delete", "merge"]);
}

#[test]
fn latencies_are_picked_by_kind() {
    let samples = [
        (OpKind::Get, 5),
        (OpKind::Put, 9),
        (OpKind::Get, 2),
        (OpKind::Merge, 1),
    ];
    assert_eq!(latencies_of(&samples, OpKind::Get), vec![5, 2]);
    assert_eq!(latencies_of(&samples, OpKind::Merge), vec![1]);
    assert!(latencies_of(&samples, OpKind::Delete).is_empty());
}

#[test]
fn reports_come_in_intervals_until_the_run_is_over() {
    const SECOND: u128 = 1_000_000_000;
    assert_eq!(pause_before_report(0, 20, 3), Some(3 * SECOND));
    assert_eq!(pause_before_report(0, 20, 0), Some(SECOND));
    assert_eq!(pause_before_report(19 * SECOND, 20, 3), Some(SECOND));
    assert_eq!(pause_before_report(20 * SECOND - 5, 20, 3), Some(1_000_000));
    assert_eq!(pause_before_report(20 * SECOND, 20, 3), None);
    assert_eq!(pause_before_report(0, 0, 3), None);
}

#[test]
fn a_warmup_ends_once() {
    assert!(!ends_warmup(false, 1_999_999_999, 2));
    assert!(ends_warmup(false, 2_000_000_000, 2));
    assert!(!ends_warmup(true, 2_000_000_000, 2));
}

#[test]
fn the_released_version_is_that_of_the_named_package() {
    let metadata = br#"{"packages":[{"name":"xtask","version":"0.0.1"},
        {"name":"yabiir","version":"1.2.3"},{"name":"yabiir","version":"9.9.9"}]}"#;
    assert_eq!(yabiir_version(metadata), Ok("1.2.3".to_string()));
    let missing = Err("could not find yabiir's version in cargo metadata output".to_string());
    assert_eq!(
        yabiir_version(br#"{"packages":[{"name":"xtask","version":"0.0.1"}]}"#),
        missing
    );
    assert_eq!(
        yabiir_version(br#"{"packages":[{"name":"yabiir","version":3}]}"#),
        missing
    );
    assert_eq!(yabiir_version(br#"{"packages":7}"#), missing);
    assert_eq!(yabiir_version(b"[]"), missing);
    let broken = yabiir_version(b"{").unwrap_err();
    let reason = serde_json::from_slice::<serde_json::Value>(b"{").unwrap_err();
    assert_eq!(
        broken,
        format!("failed to parse cargo metadata output: {reason}")
    );
}

#[test]
fn the_first_package_with_the_name_decides() {
    let text = |s: &str| Some(s.to_string());
    assert_eq!(
        find_version(Ok(Some(vec![
            (None, text("0.1.0")),
            (text("yabiir"), None),
            (text("yabiir"), text("2.0.0")),
        ]))),
        Err("could not find yabiir's version in cargo metadata output".to_string())
    );
    assert_eq!(
        find_version(Err("oops".to_string())),
        Err("failed to parse cargo metadata output: oops".to_string())
    );
}

#[test]
fn a_release_needs_a_clean_tree_and_a_free_tag() {
    assert!(working_tree_is_clean(b""));
    assert!(!working_tree_is_clean(b" M src/lib.rs\n"));
    assert_eq!(require_clean_tree(b""), Ok(()));
    assert_eq!(
        require_clean_tree(b"?? x\n"),
        Err(
            "working tree has uncommitted changes — commit or stash them before releasing"
                .to_string()
        )
    );
    assert_eq!(tag_for("1.2.3"), "v1.2.3");
    assert!(!tag_exists(b""));
    assert_eq!(require_free_tag("v1.2.3", b""), Ok(()));
    assert_eq!(
        require_free_tag("v1.2.3", b"v1.2.3\n"),
        Err("tag v1.2.3 already exists".to_string())
    );
}

fn ended(success: bool, stdout: &[u8], stderr: &str) -> CommandReply {
    CommandReply::Ended {
        success,
        stdout: stdout.to_vec(),
        stderr: stderr.to_string(),
    }
}

fn tags() -> ReleaseState {
    ReleaseState::Tags {
        version: "1.2.3".to_string(),
    }
}

fn tagging() -> ReleaseState {
    ReleaseState::Tagging {
        version: "1.2.3".to_string(),
    }
}

fn pushing() -> ReleaseState {
    ReleaseState::Pushing {
        version: "1.2.3".to_string(),
    }
}

#[test]
fn a_release_tags_and_then_pushes() {
    let (state, action) = ReleaseState::start();
    assert!(matches!(action, ReleaseAction::ReadStatus));

    let (state, action) = state.next(&ended(true, b"", ""));
    assert!(matches!(action, ReleaseAction::ReadMetadata));

    let metadata = br#"{"packages":[{"name":"yabiir","version":"1.2.3"}]}"#;
    let (state, action) = state.unwrap().next(&ended(true, metadata, ""));
    assert!(matches!(&action, ReleaseAction::ListTags { tag } if tag == "v1.2.3"));

    let (state, action) = state.unwrap().next(&ended(true, b"", ""));
    assert!(matches!(
        &action,
        ReleaseAction::CreateTag { tag, version } if tag == "v1.2.3" && version == "1.2.3"
    ));

    let (state, action) = state.unwrap().next(&ended(true, b"", ""));
    assert!(matches!(&action, ReleaseAction::PushTag { tag } if tag == "v1.2.3"));

    let (state, action) = state.unwrap().next(&ended(true, b"", ""));
    assert!(matches!(&action, ReleaseAction::Finish { tag } if tag == "v1.2.3"));
    assert!(state.is_none());
}

fn refusal(state: ReleaseState, reply: CommandReply) -> String {
    match state.next(&reply) {
        (None, ReleaseAction::Refuse { message }) => message,
        other => panic!("not refused: {other:?}"),
    }
}

#[test]
fn a_release_is_given_up_at_the_first_failure() {
    assert_eq!(
        refusal(ReleaseState::Status, ended(true, b" M x\n", "")),
        "working tree has uncommitted changes — commit or stash them before releasing"
    );
    assert_eq!(
        refusal(ReleaseState::Metadata, ended(false, b"", "no manifest")),
        "cargo metadata failed: no manifest"
    );
    assert_eq!(
        refusal(ReleaseState::Metadata, ended(true, b"{}", "")),
        "could not find yabiir's version in cargo metadata output"
    );
    assert_eq!(
        refusal(tags(), ended(true, b"v1.2.3\n", "")),
        "tag v1.2.3 already exists"
    );
    assert_eq!(
        refusal(tagging(), ended(false, b"", "")),
        "`git tag v1.2.3` failed"
    );
    assert_eq!(
        refusal(pushing(), ended(false, b"", "")),
        "`git push origin v1.2.3` failed"
    );
}

#[test]
fn a_release_names_the_command_that_could_not_be_run() {
    let not_run = || CommandReply::NotRun {
        error: "not found".to_string(),
    };
    for (state, message) in [
        (ReleaseState::Status, "failed to run git status: not found"),
        (ReleaseState::Metadata, "failed to run cargo metadata: not found"),
        (tags(), "failed to run git tag --list: not found"),
        (tagging(), "failed to run git: not found"),
        (pushing(), "failed to run git: not found"),
    ] {
        assert_eq!(refusal(state, not_run()), message);
    }
}

#[test]
fn the_exit_codes_of_status_and_tag_list_are_passed_over() {
    let (_, action) = ReleaseState::Status.next(&ended(false, b"", ""));
    assert!(matches!(action, ReleaseAction::ReadMetadata));
    let (_, action) = tags().next(&ended(false, b"", ""));
    assert!(matches!(action, ReleaseAction::CreateTag { .. }));
}

#[test]
fn the_version_that_was_found_is_tagged() {
    let (state, action) = after_metadata(Ok("4.5.6".to_string()));
    assert!(matches!(&action, ReleaseAction::ListTags { tag } if tag == "v4.5.6"));
    assert!(matches!(
        &state,
        Some(ReleaseState::Tags { version }) if version == "4.5.6"
    ));
    let (state, action) = after_metadata(Err("none".to_string()));
    assert!(state.is_none());
    assert!(matches!(&action, ReleaseAction::Refuse { message } if message == "none"));
}
