use yabiir::Error;

#[test]
fn display_produces_a_nonempty_message_naming_the_variant() {
    let cases: [(Error, &str); 6] = [
        (Error::Io(std::io::Error::other("boom")), "boom"),
        (Error::AlreadyLocked, "locked"),
        (Error::EmptyKey, "empty"),
        (Error::Corrupt("bad crc".to_string()), "bad crc"),
        (Error::ReadOnly, "read-only"),
        (Error::NotImplemented("merge"), "merge"),
    ];
    for (err, needle) in cases {
        let msg = err.to_string();
        assert!(!msg.is_empty(), "{err:?} produced an empty Display message");
        assert!(
            msg.contains(needle),
            "{err:?}'s Display message {msg:?} should mention {needle:?}"
        );
    }
}

#[test]
fn messages_are_exact() {
    assert_eq!(
        Error::Io(std::io::Error::other("boom")).to_string(),
        "io error: boom"
    );
    assert_eq!(
        Error::AlreadyLocked.to_string(),
        "directory already locked for writing by another handle"
    );
    assert_eq!(Error::EmptyKey.to_string(), "key must not be empty");
    assert_eq!(
        Error::Corrupt("bad crc".to_string()).to_string(),
        "data file corrupt: bad crc"
    );
    assert_eq!(
        Error::ReadOnly.to_string(),
        "datastore is not open for writing (read-only handle)"
    );
    assert_eq!(
        Error::NotImplemented("merge").to_string(),
        "not implemented yet: merge"
    );
}

#[test]
fn source_chains_to_the_inner_io_error_only_for_the_io_variant() {
    let io_err = Error::Io(std::io::Error::other("boom"));
    assert!(io_err.source().is_some());
    assert!(Error::EmptyKey.source().is_none());
    assert!(Error::ReadOnly.source().is_none());
}

#[test]
fn an_io_error_becomes_the_io_variant() {
    let err = Error::from(std::io::Error::other("boom"));
    assert!(matches!(err, Error::Io(_)));
}
