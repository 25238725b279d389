//! Writes: `put`, `delete`, rotation, and the steps that they are made of.
use vstd::prelude::*;

use super::format::is_entry;
use crate::engine::operations::{BegunWrite, Unpublished};
use crate::engine::{Appended, EngineView, FullFile, NewFile};
use crate::format::EncodedEntry;
use crate::keydir::KeydirEntry;
use crate::{Engine, Error};

verus! {

/// Whether `write` was handed an entry with this key and value for a file, and this came of it.
pub open spec fn was_appended<T, W: FnOnce(u32, &EncodedEntry) -> Result<T, std::io::Error>>(
    write: W,
    file_id: u32,
    key: Seq<u8>,
    value: Seq<u8>,
    tombstone: bool,
    timestamp: u32,
    outcome: Result<T, std::io::Error>,
) -> bool {
    exists|encoded: EncodedEntry| #[trigger]
        call_ensures(write, (file_id, &encoded), outcome) && is_entry(
            encoded.spec_bytes(),
            key,
            value,
            tombstone,
            timestamp,
        )
}

proof fn lemma_wrote<T, W: FnOnce(u32, &EncodedEntry) -> Result<T, std::io::Error>>(
    write: W,
    file_id: u32,
    key: Seq<u8>,
    value: Seq<u8>,
    tombstone: bool,
    timestamp: u32,
    outcome: Result<T, std::io::Error>,
)
    requires
        key.len() <= 0x7fff_ffff,
        crate::engine::operations::wrote(
            write,
            file_id,
            crate::format::entry::entry_bytes(key, value, tombstone, timestamp),
            outcome,
        ),
    ensures
        was_appended(write, file_id, key, value, tombstone, timestamp, outcome),
{
    super::format::lemma_is_entry(key, value, tombstone, timestamp);
    let bytes = crate::format::entry::entry_bytes(key, value, tombstone, timestamp);
    let encoded = choose|encoded: EncodedEntry|
        encoded.spec_bytes() == bytes && #[trigger] call_ensures(
            write,
            (file_id, &encoded),
            outcome,
        );
    assert(call_ensures(write, (file_id, &encoded), outcome));
}

/// Whether the settings of an engine are what they were.
pub open spec fn same_settings(before: EngineView, after: EngineView) -> bool {
    &&& after.is_read_write == before.is_read_write
    &&& after.should_sync_on_put == before.should_sync_on_put
    &&& after.max_file_size == before.max_file_size
}

/// The id after another one. After the last it starts over.
pub open spec fn next_id(id: u32) -> int {
    if id == 0xffff_ffff {
        0
    } else {
        id + 1
    }
}

/// Whether an entry was appended to the active file, so that this is longer by it.
pub open spec fn is_longer(before: EngineView, after: EngineView, len: nat) -> bool {
    &&& after.active is Some
    &&& after.active->0.file_id == before.active->0.file_id
    &&& after.active->0.offset == before.active->0.offset + len
}

/// Whether a write was recorded as one that is to be durable, if writes are to be, and no `fsync`
/// is left under way.
pub open spec fn recorded(before: EngineView, after: EngineView) -> bool {
    &&& after.commits.pending == before.commits.pending + if before.should_sync_on_put {
        1int
    } else {
        0
    }
    &&& after.commits.syncing == before.commits.syncing
}

/// The count of `fsync` calls after one more. After the last it starts over.
pub open spec fn counted(calls: usize) -> int {
    if calls == usize::MAX {
        0
    } else {
        calls + 1
    }
}

/// Whether a write that succeeded has left the files as it is to: the entry was appended to the
/// active file; a file that is as long as the limit then, or longer, was made durable with the
/// receipt of the append, and a new file, which was created after that, took its place; and where
/// each write is to be durable, it is.
pub open spec fn has_written<
    T,
    U,
    W: FnOnce(u32, &EncodedEntry) -> Result<T, std::io::Error>,
    S: FnOnce(u32, T) -> Result<U, std::io::Error>,
    C: FnOnce(u32, U) -> Result<u64, std::io::Error>,
>(
    before: EngineView,
    after: EngineView,
    key: Seq<u8>,
    value: Seq<u8>,
    tombstone: bool,
    timestamp: u32,
    write: W,
    sync: S,
    create: C,
) -> bool {
    let file_id = before.active->0.file_id;
    let len = 16 + key.len() + value.len();
    let is_full = before.active->0.offset + len >= before.max_file_size;
    &&& same_settings(before, after)
    &&& exists|receipt: T| #[trigger]
        was_appended(write, file_id, key, value, tombstone, timestamp, Ok(receipt)) && (is_full
            ==> exists|synced: U| #[trigger]
            call_ensures(sync, (file_id, receipt), Ok(synced)) && call_ensures(
                create,
                (before.next_file_id, synced),
                Ok(after.active->0.offset),
            )) && (before.should_sync_on_put && before.commits.durable <= before.commits.pending
            ==> exists|synced: U| #[trigger] call_ensures(sync, (file_id, receipt), Ok(synced)))
    &&& is_full ==> after.active is Some && after.active->0.file_id == before.next_file_id
        && after.next_file_id == next_id(before.next_file_id)
    &&& !is_full ==> is_longer(before, after, len) && after.next_file_id == before.next_file_id
    &&& after.commits.pending == before.commits.pending + if before.should_sync_on_put {
        1int
    } else {
        0
    }
    &&& is_full || before.should_sync_on_put && before.commits.durable <= before.commits.pending
        ==> after.commits.durable == after.commits.pending
    &&& !is_full && !before.should_sync_on_put ==> after.commits == before.commits
    &&& after.commits.fsync_calls == if !is_full && before.should_sync_on_put
        && before.commits.durable <= before.commits.pending {
        counted(before.commits.fsync_calls)
    } else {
        before.commits.fsync_calls as int
    }
    &&& after.commits.syncing == before.commits.syncing
}

/// Whether a write that failed has left the files as it may: the failure is that of a callback. If
/// the entry was not appended, nothing changes. If the file could not be made durable, or no new
/// file be created after that, the active file stays the same, and is longer by the entry.
pub open spec fn has_failed<
    T,
    U,
    W: FnOnce(u32, &EncodedEntry) -> Result<T, std::io::Error>,
    S: FnOnce(u32, T) -> Result<U, std::io::Error>,
    C: FnOnce(u32, U) -> Result<u64, std::io::Error>,
>(
    before: EngineView,
    after: EngineView,
    key: Seq<u8>,
    value: Seq<u8>,
    tombstone: bool,
    timestamp: u32,
    write: W,
    sync: S,
    create: C,
    e: std::io::Error,
) -> bool {
    let file_id = before.active->0.file_id;
    let len = 16 + key.len() + value.len();
    let is_full = before.active->0.offset + len >= before.max_file_size;
    &&& same_settings(before, after)
    &&& after.keydir == before.keydir
    &&& {
        ||| was_appended(write, file_id, key, value, tombstone, timestamp, Err(e)) && after
            == before
        ||| exists|receipt: T| #[trigger]
            was_appended(write, file_id, key, value, tombstone, timestamp, Ok(receipt))
                && call_ensures(sync, (file_id, receipt), Err(e)) && is_longer(before, after, len)
                && after.next_file_id == before.next_file_id && after.commits.durable
                == before.commits.durable && recorded(before, after) && after.commits.fsync_calls
                == if is_full {
                before.commits.fsync_calls as int
            } else {
                counted(before.commits.fsync_calls)
            }
        ||| is_full && exists|receipt: T, synced: U| #[trigger]
            was_appended(write, file_id, key, value, tombstone, timestamp, Ok(receipt))
                && #[trigger] call_ensures(sync, (file_id, receipt), Ok(synced)) && call_ensures(
                create,
                (before.next_file_id, synced),
                Err(e),
            ) && is_longer(before, after, len) && after.next_file_id == next_id(
                before.next_file_id,
            ) && after.commits.durable == after.commits.pending && recorded(before, after)
                && after.commits.fsync_calls == before.commits.fsync_calls
    }
}

proof fn lemma_has_written<
    T,
    U,
    W: FnOnce(u32, &EncodedEntry) -> Result<T, std::io::Error>,
    S: FnOnce(u32, T) -> Result<U, std::io::Error>,
    C: FnOnce(u32, U) -> Result<u64, std::io::Error>,
>(
    before: EngineView,
    after: EngineView,
    key: Seq<u8>,
    value: Seq<u8>,
    tombstone: bool,
    timestamp: u32,
    write: W,
    sync: S,
    create: C,
)
    requires
        key.len() <= 0x7fff_ffff,
        before.active is Some,
        before.active->0.offset + 16 + key.len() + value.len() <= u64::MAX,
        before.should_sync_on_put ==> before.commits.pending < u64::MAX && !before.commits.syncing,
        crate::engine::operations::is_durable_write(
            before,
            EngineView { keydir: before.keydir, ..after },
            crate::format::entry::entry_bytes(key, value, tombstone, timestamp),
            write,
            sync,
            create,
            Ok(()),
        ),
    ensures
        has_written(before, after, key, value, tombstone, timestamp, write, sync, create),
{
    let file_id = before.active->0.file_id;
    let bytes = crate::format::entry::entry_bytes(key, value, tombstone, timestamp);
    super::format::lemma_is_entry(key, value, tombstone, timestamp);
    let kept = EngineView { keydir: before.keydir, ..after };
    let is_full = before.active->0.offset + bytes.len() >= before.max_file_size;
    let appended = crate::engine::after_append(before, bytes.len());
    if is_full {
        let receipt = choose|receipt: T| #[trigger]
            crate::engine::operations::wrote(write, file_id, bytes, Ok(receipt))
                && crate::engine::operations::is_rotation(
                appended,
                kept,
                receipt,
                sync,
                create,
                Ok(()),
            );
        lemma_wrote(write, file_id, key, value, tombstone, timestamp, Ok(receipt));
        assert(was_appended(write, file_id, key, value, tombstone, timestamp, Ok(receipt)));
    } else if crate::engine::operations::needs_sync(appended) {
        let receipt = choose|receipt: T| #[trigger]
            crate::engine::operations::wrote(write, file_id, bytes, Ok(receipt))
                && crate::engine::operations::is_synced(file_id, receipt, sync, Ok(()));
        lemma_wrote(write, file_id, key, value, tombstone, timestamp, Ok(receipt));
        assert(was_appended(write, file_id, key, value, tombstone, timestamp, Ok(receipt)));
    } else {
        let receipt = choose|receipt: T| #[trigger]
            crate::engine::operations::wrote(write, file_id, bytes, Ok(receipt));
        lemma_wrote(write, file_id, key, value, tombstone, timestamp, Ok(receipt));
        assert(was_appended(write, file_id, key, value, tombstone, timestamp, Ok(receipt)));
    }
}

proof fn lemma_has_failed<
    T,
    U,
    W: FnOnce(u32, &EncodedEntry) -> Result<T, std::io::Error>,
    S: FnOnce(u32, T) -> Result<U, std::io::Error>,
    C: FnOnce(u32, U) -> Result<u64, std::io::Error>,
>(
    before: EngineView,
    after: EngineView,
    key: Seq<u8>,
    value: Seq<u8>,
    tombstone: bool,
    timestamp: u32,
    write: W,
    sync: S,
    create: C,
    error: Error,
)
    requires
        key.len() <= 0x7fff_ffff,
        before.active is Some,
        before.active->0.offset + 16 + key.len() + value.len() <= u64::MAX,
        before.should_sync_on_put ==> before.commits.pending < u64::MAX && !before.commits.syncing,
        after.keydir == before.keydir,
        crate::engine::operations::is_durable_write(
            before,
            EngineView { keydir: before.keydir, ..after },
            crate::format::entry::entry_bytes(key, value, tombstone, timestamp),
            write,
            sync,
            create,
            Err(error),
        ),
    ensures
        error is Io,
        has_failed(
            before,
            after,
            key,
            value,
            tombstone,
            timestamp,
            write,
            sync,
            create,
            error->Io_0,
        ),
{
    let file_id = before.active->0.file_id;
    let bytes = crate::format::entry::entry_bytes(key, value, tombstone, timestamp);
    super::format::lemma_is_entry(key, value, tombstone, timestamp);
    assert(EngineView { keydir: before.keydir, ..after } =~= after);
    let appended = crate::engine::after_append(before, bytes.len());
    let e = error->Io_0;
    if crate::engine::operations::wrote(write, file_id, bytes, Err(e)) && after == before {
        lemma_wrote(write, file_id, key, value, tombstone, timestamp, Err::<T, std::io::Error>(e));
    } else if crate::engine::operations::needs_sync(appended) {
        let receipt = choose|receipt: T| #[trigger]
            crate::engine::operations::wrote(write, file_id, bytes, Ok(receipt))
                && crate::engine::operations::is_synced(file_id, receipt, sync, Err(error));
        lemma_wrote(write, file_id, key, value, tombstone, timestamp, Ok(receipt));
        assert(was_appended(write, file_id, key, value, tombstone, timestamp, Ok(receipt)));
    } else {
        let receipt = choose|receipt: T| #[trigger]
            crate::engine::operations::wrote(write, file_id, bytes, Ok(receipt))
                && crate::engine::operations::is_rotation(
                appended,
                after,
                receipt,
                sync,
                create,
                Err(error),
            );
        lemma_wrote(write, file_id, key, value, tombstone, timestamp, Ok(receipt));
        assert(was_appended(write, file_id, key, value, tombstone, timestamp, Ok(receipt)));
        if call_ensures(sync, (file_id, receipt), Err(e)) && after == appended {
        } else {
            let new_id = before.next_file_id;
            let synced = choose|synced: U| #[trigger]
                call_ensures(sync, (file_id, receipt), Ok(synced)) && call_ensures(
                    create,
                    (new_id, synced),
                    Err(e),
                );
            assert(call_ensures(sync, (file_id, receipt), Ok(synced)));
        }
    }
}

/// A `put` stores the value under the key, where it stands in the active file behind the header and
/// the key, and changes no other key. A file that is full by that is replaced. A `put` with an
/// empty key, or on a handle for reading only, is refused and changes nothing, and one that fails
/// changes nothing for readers.
pub proof fn law_a_put_stores_its_value<
    T,
    U,
    W: FnOnce(u32, &EncodedEntry) -> Result<T, std::io::Error>,
    S: FnOnce(u32, T) -> Result<U, std::io::Error>,
    C: FnOnce(u32, U) -> Result<u64, std::io::Error>,
>(
    engine: &mut Engine,
    key: &[u8],
    value: &[u8],
    timestamp: u32,
    write: W,
    sync: S,
    create: C,
    outcome: Result<(), Error>,
)
    requires
        call_ensures(
            Engine::put::<T, U, W, S, C>,
            (engine, key, value, timestamp, write, sync, create),
            outcome,
        ),
        key@.len() <= 0x7fff_ffff,
        old(engine)@.active is Some ==> old(engine)@.active->0.offset + 16 + key@.len()
            + value@.len() <= u64::MAX,
        old(engine)@.should_sync_on_put ==> old(engine)@.commits.pending < u64::MAX && !old(
            engine,
        )@.commits.syncing,
    ensures
        ({
            let before = old(engine)@;
            let after = final(engine)@;
            let writable = before.is_read_write && before.active is Some;
            &&& outcome == Err::<(), Error>(Error::EmptyKey) <==> key@.len() == 0
            &&& outcome == Err::<(), Error>(Error::ReadOnly) <==> key@.len() > 0 && !writable
            &&& key@.len() == 0 || !writable ==> after == before
            &&& outcome is Ok ==> after.keydir == before.keydir.insert(
                key@,
                KeydirEntry {
                    file_id: before.active->0.file_id,
                    value_size: (value@.len() % 0x1_0000_0000) as u32,
                    value_pos: (before.active->0.offset + 16 + key@.len()) as u64,
                    timestamp,
                },
            )
            &&& outcome is Ok ==> has_written(
                before,
                after,
                key@,
                value@,
                false,
                timestamp,
                write,
                sync,
                create,
            )
            &&& key@.len() > 0 && writable && outcome is Err ==> outcome->Err_0 is Io && has_failed(
                before,
                after,
                key@,
                value@,
                false,
                timestamp,
                write,
                sync,
                create,
                outcome->Err_0->Io_0,
            )
        }),
{
    let before = old(engine)@;
    let after = final(engine)@;
    super::format::lemma_is_entry(key@, value@, false, timestamp);
    if key@.len() > 0 && before.is_read_write && before.active is Some {
        match outcome {
            Ok(done) => {
                assert(done == ());
                lemma_has_written(
                    before,
                    after,
                    key@,
                    value@,
                    false,
                    timestamp,
                    write,
                    sync,
                    create,
                );
            },
            Err(error) => {
                lemma_has_failed(
                    before,
                    after,
                    key@,
                    value@,
                    false,
                    timestamp,
                    write,
                    sync,
                    create,
                    error,
                );
            },
        }
    }
}

/// A `delete` of a key that is there removes it and no other, once its tombstone was appended. One
/// of a key that is not there does nothing at all. With an empty key, or on a handle for reading
/// only, it is refused and changes nothing, and if it fails, nothing changes for readers.
pub proof fn law_a_delete_removes_its_key<
    T,
    U,
    W: FnOnce(u32, &EncodedEntry) -> Result<T, std::io::Error>,
    S: FnOnce(u32, T) -> Result<U, std::io::Error>,
    C: FnOnce(u32, U) -> Result<u64, std::io::Error>,
>(
    engine: &mut Engine,
    key: &[u8],
    timestamp: u32,
    write: W,
    sync: S,
    create: C,
    outcome: Result<(), Error>,
)
    requires
        call_ensures(
            Engine::delete::<T, U, W, S, C>,
            (engine, key, timestamp, write, sync, create),
            outcome,
        ),
        key@.len() <= 0x7fff_ffff,
        old(engine)@.active is Some ==> old(engine)@.active->0.offset + 16 + key@.len()
            <= u64::MAX,
        old(engine)@.should_sync_on_put ==> old(engine)@.commits.pending < u64::MAX && !old(
            engine,
        )@.commits.syncing,
    ensures
        ({
            let before = old(engine)@;
            let after = final(engine)@;
            let none = Seq::<u8>::empty();
            let is_there = before.keydir.contains_key(key@);
            &&& outcome == Err::<(), Error>(Error::EmptyKey) <==> key@.len() == 0
            &&& outcome == Err::<(), Error>(Error::ReadOnly) <==> key@.len() > 0 && (
            !before.is_read_write || is_there && before.active is None)
            &&& key@.len() > 0 && before.is_read_write && !is_there ==> outcome is Ok
            &&& key@.len() == 0 || !before.is_read_write || !is_there || before.active is None
                ==> after == before
            &&& outcome is Ok ==> after.keydir == before.keydir.remove(key@)
            &&& outcome is Ok && is_there ==> has_written(
                before,
                after,
                key@,
                none,
                true,
                timestamp,
                write,
                sync,
                create,
            )
            &&& key@.len() > 0 && before.is_read_write && before.active is Some && outcome is Err
                ==> is_there && outcome->Err_0 is Io && has_failed(
                before,
                after,
                key@,
                none,
                true,
                timestamp,
                write,
                sync,
                create,
                outcome->Err_0->Io_0,
            )
        }),
{
    let before = old(engine)@;
    let after = final(engine)@;
    let none = Seq::<u8>::empty();
    super::format::lemma_is_entry(key@, none, true, timestamp);
    if !before.keydir.contains_key(key@) {
        assert(before.keydir.remove(key@) =~= before.keydir);
    }
    if key@.len() > 0 && before.is_read_write && before.active is Some
        && before.keydir.contains_key(key@) {
        match outcome {
            Ok(done) => {
                assert(done == ());
                lemma_has_written(
                    before,
                    after,
                    key@,
                    none,
                    true,
                    timestamp,
                    write,
                    sync,
                    create,
                );
            },
            Err(error) => {
                lemma_has_failed(
                    before,
                    after,
                    key@,
                    none,
                    true,
                    timestamp,
                    write,
                    sync,
                    create,
                    error,
                );
            },
        }
    }
}

/// A `put` that is begun is handed its entry, for the active file. It is refused as a whole `put`
/// is.
pub proof fn law_a_begun_put_has_its_entry(
    engine: Engine,
    key: &[u8],
    value: &[u8],
    timestamp: u32,
    begun: Result<BegunWrite, Error>,
)
    requires
        call_ensures(Engine::begin_put, (&engine, key, value, timestamp), begun),
        key@.len() <= 0x7fff_ffff,
    ensures
        ({
            let writable = engine@.is_read_write && engine@.active is Some;
            &&& begun == Err::<BegunWrite, Error>(Error::EmptyKey) <==> key@.len() == 0
            &&& begun == Err::<BegunWrite, Error>(Error::ReadOnly) <==> key@.len() > 0 && !writable
            &&& begun is Ok <==> key@.len() > 0 && writable
            &&& begun is Ok ==> {
                let b = begun->Ok_0@;
                &&& b.key == key@
                &&& is_entry(b.bytes, key@, value@, false, timestamp)
                &&& b.value_len == value@.len()
                &&& b.file_id == engine@.active->0.file_id
                &&& b.put == Some(((value@.len() % 0x1_0000_0000) as u32, timestamp))
            }
        }),
{
    super::format::lemma_is_entry(key@, value@, false, timestamp);
}

/// A `delete` that is begun is handed its tombstone, for the active file, if the key is there, and
/// nothing if it is not. It is refused as a whole `delete` is.
pub proof fn law_a_begun_delete_has_its_tombstone(
    engine: Engine,
    key: &[u8],
    timestamp: u32,
    begun: Result<Option<BegunWrite>, Error>,
)
    requires
        call_ensures(Engine::begin_delete, (&engine, key, timestamp), begun),
        key@.len() <= 0x7fff_ffff,
    ensures
        ({
            let is_there = engine@.keydir.contains_key(key@);
            &&& begun == Err::<Option<BegunWrite>, Error>(Error::EmptyKey) <==> key@.len() == 0
            &&& begun == Err::<Option<BegunWrite>, Error>(Error::ReadOnly) <==> key@.len() > 0 && (
            !engine@.is_read_write || is_there && engine@.active is None)
            &&& begun is Ok <==> key@.len() > 0 && engine@.is_read_write && (!is_there
                || engine@.active is Some)
            &&& begun is Ok ==> (begun->Ok_0 is Some <==> is_there)
            &&& begun is Ok && is_there ==> {
                let b = begun->Ok_0->0@;
                &&& b.key == key@
                &&& is_entry(b.bytes, key@, Seq::empty(), true, timestamp)
                &&& b.value_len == 0
                &&& b.file_id == engine@.active->0.file_id
                &&& b.put is None
            }
        }),
{
    super::format::lemma_is_entry(key@, Seq::empty(), true, timestamp);
}

/// A begun write gives out its file and its entry.
pub proof fn law_a_begun_write_gives_its_entry(
    begun: BegunWrite,
    file_id: u32,
    encoded: &EncodedEntry,
)
    requires
        call_ensures(BegunWrite::file_id, (&begun,), file_id),
        call_ensures(BegunWrite::encoded, (&begun,), encoded),
    ensures
        file_id == begun@.file_id,
        encoded.spec_bytes() == begun@.bytes,
{
}

/// Once the entry of a write was appended, the file is longer by it, the value stands at its end,
/// and the file is to be rotated just if it is as long as the limit, or longer. Readers see nothing
/// of it yet.
pub proof fn law_a_written_entry_may_fill_the_file(
    engine: &mut Engine,
    begun: BegunWrite,
    write: Result<(Unpublished, Option<FullFile>), Error>,
)
    requires
        call_ensures(Engine::written, (engine, begun), write),
        old(engine)@.active is Some ==> old(engine)@.active->0.file_id == begun@.file_id
            && old(engine)@.active->0.offset + begun@.bytes.len() <= u64::MAX,
        old(engine)@.should_sync_on_put ==> old(engine)@.commits.pending < u64::MAX,
        begun@.value_len <= begun@.bytes.len(),
    ensures
        ({
            let before = old(engine)@;
            let after = final(engine)@;
            let end = before.active->0.offset + begun@.bytes.len();
            &&& write is Err <==> before.active is None
            &&& write is Err ==> write->Err_0 is ReadOnly && after == before
            &&& write is Ok ==> {
                let (unpublished, full) = write->Ok_0;
                &&& is_longer(before, after, begun@.bytes.len())
                &&& after.keydir == before.keydir
                &&& after.next_file_id == before.next_file_id
                &&& same_settings(before, after)
                &&& after.commits.durable == before.commits.durable
                &&& after.commits.syncing == before.commits.syncing
                &&& after.commits.fsync_calls == before.commits.fsync_calls
                &&& after.commits.pending == before.commits.pending
                    + if before.should_sync_on_put {
                    1int
                } else {
                    0
                }
                &&& full is Some <==> end >= before.max_file_size
                &&& full is Some ==> full->0@ == before.active->0.file_id
                &&& unpublished@.key == begun@.key
                &&& unpublished@.generation == if before.should_sync_on_put {
                    Some(after.commits.pending)
                } else {
                    None
                }
                &&& unpublished@.entry is Some <==> begun@.put is Some
                &&& unpublished@.entry is Some ==> {
                    let entry = unpublished@.entry->0;
                    &&& entry.file_id == before.active->0.file_id
                    &&& entry.value_pos == end - begun@.value_len
                    &&& entry.value_size == (begun@.put->0).0
                    &&& entry.timestamp == (begun@.put->0).1
                }
            }
        }),
{
}

/// A write that is published is what readers see of its key from then on, and of no other.
pub proof fn law_a_published_write_is_seen(engine: &mut Engine, write: Unpublished)
    requires
        call_ensures(Engine::publish, (engine, write), ()),
    ensures
        ({
            let before = old(engine)@;
            let after = final(engine)@;
            &&& after.keydir == match write@.entry {
                Some(entry) => before.keydir.insert(write@.key, entry),
                None => before.keydir.remove(write@.key),
            }
            &&& after.active == before.active
            &&& after.next_file_id == before.next_file_id
            &&& after.commits == before.commits
            &&& same_settings(before, after)
        }),
{
}

/// An unpublished write says which generation it waits for.
pub proof fn law_a_write_tells_its_generation(write: Unpublished, generation: Option<u64>)
    requires
        call_ensures(Unpublished::generation, (&write,), generation),
    ensures
        generation == write@.generation,
{
}

/// A rotation makes the active file durable, then creates a new one, and then lets that take its
/// place, with the length that it has. If one of them fails, the active file stays.
pub proof fn law_a_rotation_replaces_the_active_file<
    T,
    U,
    S: FnOnce(u32, T) -> Result<U, std::io::Error>,
    C: FnOnce(u32, U) -> Result<u64, std::io::Error>,
>(engine: &mut Engine, receipt: T, sync: S, create: C, outcome: Result<(), Error>)
    requires
        call_ensures(Engine::rotate::<T, U, S, C>, (engine, receipt, sync, create), outcome),
    ensures
        ({
            let before = old(engine)@;
            let after = final(engine)@;
            let file_id = before.active->0.file_id;
            &&& outcome == Err::<(), Error>(Error::ReadOnly) <==> before.active is None
            &&& after.keydir == before.keydir
            &&& after.commits.fsync_calls == before.commits.fsync_calls
            &&& same_settings(before, after)
            &&& before.active is None ==> after == before
            &&& outcome is Ok ==> after.active is Some && after.active->0.file_id
                == before.next_file_id && after.next_file_id == next_id(before.next_file_id)
                && after.commits.durable == before.commits.pending && after.commits.pending
                == before.commits.pending && after.commits.syncing == before.commits.syncing
                && exists|synced: U| #[trigger]
                call_ensures(sync, (file_id, receipt), Ok(synced)) && call_ensures(
                    create,
                    (before.next_file_id, synced),
                    Ok(after.active->0.offset),
                )
            &&& outcome is Err ==> after.active == before.active
            &&& before.active is Some && outcome is Err ==> outcome->Err_0 is Io && {
                let e = outcome->Err_0->Io_0;
                ||| call_ensures(sync, (file_id, receipt), Err(e)) && after == before
                ||| exists|synced: U| #[trigger]
                    call_ensures(sync, (file_id, receipt), Ok(synced)) && call_ensures(
                        create,
                        (before.next_file_id, synced),
                        Err(e),
                    ) && after.next_file_id == next_id(before.next_file_id)
                        && after.commits.durable == before.commits.pending && after.commits.pending
                        == before.commits.pending && after.commits.syncing
                        == before.commits.syncing
            }
        }),
{
}

/// The steps of a rotation: the active file is the one to be made durable, the next id is taken for
/// the new file, and that takes the place of the active one.
pub proof fn law_a_rotation_goes_step_by_step(
    asked: Engine,
    active: Option<FullFile>,
    begun: &mut Engine,
    full: FullFile,
    new: NewFile,
    ended: &mut Engine,
    created: NewFile,
    len: u64,
)
    requires
        call_ensures(Engine::active_to_rotate, (&asked,), active),
        call_ensures(Engine::begin_rotation, (begun, full), new),
        call_ensures(Engine::finish_rotation, (ended, created, len), ()),
    ensures
        active is Some <==> asked@.active is Some,
        active is Some ==> active->0@ == asked@.active->0.file_id,
        new@ == old(begun)@.next_file_id,
        final(begun)@.next_file_id == next_id(old(begun)@.next_file_id),
        final(begun)@.commits.durable == old(begun)@.commits.pending,
        final(begun)@.commits.pending == old(begun)@.commits.pending,
        final(begun)@.commits.syncing == old(begun)@.commits.syncing,
        final(begun)@.commits.fsync_calls == old(begun)@.commits.fsync_calls,
        final(begun)@.active == old(begun)@.active,
        final(begun)@.keydir == old(begun)@.keydir,
        same_settings(old(begun)@, final(begun)@),
        final(ended)@.active is Some,
        final(ended)@.active->0.file_id == created@,
        final(ended)@.active->0.offset == len,
        final(ended)@.next_file_id == old(ended)@.next_file_id,
        final(ended)@.commits == old(ended)@.commits,
        final(ended)@.keydir == old(ended)@.keydir,
        same_settings(old(ended)@, final(ended)@),
{
}

/// Files that are part of a rotation tell their ids.
pub proof fn law_rotated_files_tell_their_ids(
    full: FullFile,
    full_id: u32,
    new: NewFile,
    new_id: u32,
)
    requires
        call_ensures(FullFile::file_id, (&full,), full_id),
        call_ensures(NewFile::file_id, (&new,), new_id),
    ensures
        full_id == full@,
        new_id == new@,
{
}

/// A `put` that is checked has its entry; one with an empty key, or on a handle for reading only,
/// is refused.
pub proof fn law_a_prepared_put_has_its_entry(
    engine: Engine,
    key: &[u8],
    value: &[u8],
    timestamp: u32,
    prepared: Result<EncodedEntry, Error>,
)
    requires
        call_ensures(Engine::prepare_put, (&engine, key, value, timestamp), prepared),
        key@.len() <= 0x7fff_ffff,
    ensures
        prepared == Err::<EncodedEntry, Error>(Error::EmptyKey) <==> key@.len() == 0,
        prepared == Err::<EncodedEntry, Error>(Error::ReadOnly) <==> key@.len() > 0
            && !engine@.is_read_write,
        prepared is Ok <==> key@.len() > 0 && engine@.is_read_write,
        prepared is Ok ==> is_entry(
            prepared->Ok_0.spec_bytes(),
            key@,
            value@,
            false,
            timestamp,
        ) && prepared->Ok_0.spec_value_len() == value@.len(),
{
    super::format::lemma_is_entry(key@, value@, false, timestamp);
}

/// A `delete` that is checked has its tombstone if the key is there, and nothing if it is not.
pub proof fn law_a_prepared_delete_has_its_tombstone(
    engine: Engine,
    key: &[u8],
    timestamp: u32,
    prepared: Result<Option<EncodedEntry>, Error>,
)
    requires
        call_ensures(Engine::prepare_delete, (&engine, key, timestamp), prepared),
        key@.len() <= 0x7fff_ffff,
    ensures
        prepared == Err::<Option<EncodedEntry>, Error>(Error::EmptyKey) <==> key@.len() == 0,
        prepared == Err::<Option<EncodedEntry>, Error>(Error::ReadOnly) <==> key@.len() > 0
            && !engine@.is_read_write,
        prepared is Ok <==> key@.len() > 0 && engine@.is_read_write,
        prepared is Ok ==> (prepared->Ok_0 is Some <==> engine@.keydir.contains_key(key@)),
        prepared is Ok && prepared->Ok_0 is Some ==> is_entry(
            prepared->Ok_0->0.spec_bytes(),
            key@,
            Seq::empty(),
            true,
            timestamp,
        ) && prepared->Ok_0->0.spec_value_len() == 0,
{
    super::format::lemma_is_entry(key@, Seq::empty(), true, timestamp);
}

/// An append makes the active file longer by the entry, whose value stands at its end, and the file
/// is full just if it is as long as the limit, or longer.
pub proof fn law_an_append_moves_the_end(
    engine: &mut Engine,
    encoded: &EncodedEntry,
    appended: Result<Appended, Error>,
)
    requires
        call_ensures(Engine::append, (engine, encoded), appended),
        old(engine)@.active is Some ==> old(engine)@.active->0.offset + encoded.spec_bytes().len()
            <= u64::MAX,
        old(engine)@.should_sync_on_put ==> old(engine)@.commits.pending < u64::MAX,
        encoded.spec_value_len() <= encoded.spec_bytes().len(),
    ensures
        ({
            let before = old(engine)@;
            let after = final(engine)@;
            let end = before.active->0.offset + encoded.spec_bytes().len();
            &&& appended is Err <==> before.active is None
            &&& appended is Err ==> appended->Err_0 is ReadOnly && after == before
            &&& after.keydir == before.keydir
            &&& after.next_file_id == before.next_file_id
            &&& same_settings(before, after)
            &&& after.commits.durable == before.commits.durable
            &&& after.commits.syncing == before.commits.syncing
            &&& after.commits.fsync_calls == before.commits.fsync_calls
            &&& appended is Ok ==> {
                let place = appended->Ok_0;
                &&& is_longer(before, after, encoded.spec_bytes().len())
                &&& place.file_id == before.active->0.file_id
                &&& place.value_pos == end - encoded.spec_value_len()
                &&& place.is_full <==> end >= before.max_file_size
                &&& after.commits.pending == before.commits.pending
                    + if before.should_sync_on_put {
                    1int
                } else {
                    0
                }
                &&& place.generation == if before.should_sync_on_put {
                    Some(after.commits.pending)
                } else {
                    None
                }
            }
        }),
{
}

/// Making a file durable is a call for this very file, and its outcome comes back. If it can only
/// fail, the outcome is a failure.
pub proof fn law_a_file_is_made_durable_by_a_call<S: FnOnce(u32) -> Result<(), std::io::Error>>(
    file_id: u32,
    sync: S,
    outcome: Result<(), Error>,
)
    requires
        call_ensures(crate::engine::operations::make_durable::<S>, (file_id, sync), outcome),
    ensures
        outcome is Ok ==> call_ensures(sync, (file_id,), Ok(())),
        outcome is Err ==> outcome->Err_0 is Io && call_ensures(
            sync,
            (file_id,),
            Err(outcome->Err_0->Io_0),
        ),
        !call_ensures(sync, (file_id,), Ok(())) ==> outcome is Err,
{
    if let Ok(done) = outcome {
        assert(done == ());
    }
}

/// A `sync` that succeeds has made the active file durable, whatever its id, and if that can only
/// fail, it fails. It is refused just on a handle that takes no writes.
pub proof fn law_a_sync_makes_the_active_file_durable<
    S: FnOnce(u32) -> Result<(), std::io::Error>,
>(engine: Engine, sync: S, outcome: Result<(), Error>)
    requires
        call_ensures(Engine::sync::<S>, (&engine, sync), outcome),
    ensures
        ({
            let writable = engine@.is_read_write && engine@.active is Some;
            let file_id = engine@.active->0.file_id;
            &&& outcome == Err::<(), Error>(Error::ReadOnly) <==> !writable
            &&& outcome is Ok ==> writable && call_ensures(sync, (file_id,), Ok(()))
            &&& writable && outcome is Err ==> outcome->Err_0 is Io && call_ensures(
                sync,
                (file_id,),
                Err(outcome->Err_0->Io_0),
            )
            &&& !call_ensures(sync, (file_id,), Ok(())) ==> outcome is Err
        }),
{
    if let Ok(done) = outcome {
        assert(done == ());
    }
}

/// A `close` that succeeds has made the active file durable, whatever its id, if there is one, and
/// if that can only fail, it fails.
pub proof fn law_a_close_makes_the_active_file_durable<
    S: FnOnce(u32) -> Result<(), std::io::Error>,
>(engine: Engine, sync: S, outcome: Result<(), Error>)
    requires
        call_ensures(Engine::close::<S>, (engine, sync), outcome),
    ensures
        ({
            let file_id = engine@.active->0.file_id;
            &&& engine@.active is None ==> outcome is Ok
            &&& engine@.active is Some && outcome is Ok ==> call_ensures(sync, (file_id,), Ok(()))
            &&& outcome is Err ==> outcome->Err_0 is Io && call_ensures(
                sync,
                (file_id,),
                Err(outcome->Err_0->Io_0),
            )
            &&& engine@.active is Some && !call_ensures(sync, (file_id,), Ok(())) ==> outcome is Err
        }),
{
    if let Ok(done) = outcome {
        assert(done == ());
    }
}

/// The file to be made durable is the active one, on a handle that takes writes.
pub proof fn law_the_active_file_is_the_one_to_sync(engine: Engine, file_id: Result<u32, Error>)
    requires
        call_ensures(Engine::file_to_sync, (&engine,), file_id),
    ensures
        file_id is Ok <==> engine@.is_read_write && engine@.active is Some,
        file_id is Ok ==> file_id->Ok_0 == engine@.active->0.file_id,
        file_id is Err ==> file_id->Err_0 is ReadOnly,
{
}

} // verus!
