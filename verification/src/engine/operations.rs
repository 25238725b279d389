//! Whole operations: each does all steps of a write, in order, and calls back for the I/O.
//!
//! A callback can be called once, with what the operation hands to it, and only where the
//! operation has come to it. What a callback gives on success is a receipt, which the next one
//! asks for: a file is made durable only after the entry was appended to it, and a new file is
//! created only after the old one was made durable.
//!
//! [`Engine::put`] and [`Engine::delete`] are for a caller that is alone. For one that shares the
//! engine there are the steps that a write is made of.
use vstd::prelude::*;

use super::{Appended, Engine, EngineView, FullFile};
use crate::commit::CommitStep;
use crate::error::Error;
use crate::format::{EncodedEntry, MAX_KEY_LEN};
use crate::keydir::KeydirEntry;

verus! {

/// Whether `write`, asked to append `bytes` to a file, could have come out like this.
pub open spec fn wrote<T, W: FnOnce(u32, &EncodedEntry) -> Result<T, std::io::Error>>(
    write: W,
    file_id: u32,
    bytes: Seq<u8>,
    outcome: Result<T, std::io::Error>,
) -> bool {
    exists|encoded: EncodedEntry|
        encoded.spec_bytes() == bytes && #[trigger] call_ensures(
            write,
            (file_id, &encoded),
            outcome,
        )
}

/// Whether `write` may be asked to append `bytes` to a file.
pub open spec fn may_write<T, W: FnOnce(u32, &EncodedEntry) -> Result<T, std::io::Error>>(
    write: W,
    file_id: u32,
    bytes: Seq<u8>,
) -> bool {
    forall|encoded: EncodedEntry|
        encoded.spec_bytes() == bytes ==> #[trigger] call_requires(write, (file_id, &encoded))
}

/// Whether `sync` may be asked to make a file durable once `bytes` were appended to it.
pub open spec fn may_sync<
    T,
    U,
    W: FnOnce(u32, &EncodedEntry) -> Result<T, std::io::Error>,
    S: FnOnce(u32, T) -> Result<U, std::io::Error>,
>(write: W, sync: S, file_id: u32, bytes: Seq<u8>) -> bool {
    forall|receipt: T| #[trigger]
        wrote(write, file_id, bytes, Ok(receipt)) ==> call_requires(sync, (file_id, receipt))
}

/// Whether `create` may be asked to create a file once another was made durable.
pub open spec fn may_create<
    T,
    U,
    S: FnOnce(u32, T) -> Result<U, std::io::Error>,
    C: FnOnce(u32, U) -> Result<u64, std::io::Error>,
>(sync: S, create: C, file_id: u32, new_id: u32, receipt: T) -> bool {
    forall|synced: U| #[trigger]
        call_ensures(sync, (file_id, receipt), Ok(synced)) ==> call_requires(
            create,
            (new_id, synced),
        )
}

/// Whether making a file durable and then creating another could have come out like this, where
/// the first succeeded.
pub open spec fn synced_then_created<
    T,
    U,
    S: FnOnce(u32, T) -> Result<U, std::io::Error>,
    C: FnOnce(u32, U) -> Result<u64, std::io::Error>,
>(
    sync: S,
    create: C,
    file_id: u32,
    new_id: u32,
    receipt: T,
    created: Result<u64, std::io::Error>,
) -> bool {
    exists|synced: U| #[trigger]
        call_ensures(sync, (file_id, receipt), Ok(synced)) && call_ensures(
            create,
            (new_id, synced),
            created,
        )
}

/// Whether a rotation takes `before` to `after`: the active file is made durable, and then a new
/// one is created and takes its place. If the first fails nothing changes, and if the second
/// fails, the old file stays the active one.
pub open spec fn is_rotation<
    T,
    U,
    S: FnOnce(u32, T) -> Result<U, std::io::Error>,
    C: FnOnce(u32, U) -> Result<u64, std::io::Error>,
>(
    before: EngineView,
    after: EngineView,
    receipt: T,
    sync: S,
    create: C,
    outcome: Result<(), Error>,
) -> bool {
    let file_id = before.active->0.file_id;
    let new_id = before.next_file_id;
    let begun = super::after_begin_rotation(before);
    match outcome {
        Ok(_) => {
            let existing_len = after.active->0.offset;
            &&& synced_then_created(sync, create, file_id, new_id, receipt, Ok(existing_len))
            &&& after == super::after_finish_rotation(begun, new_id, existing_len)
        },
        Err(Error::Io(e)) => {
            ||| call_ensures(sync, (file_id, receipt), Err(e)) && after == before
            ||| synced_then_created(sync, create, file_id, new_id, receipt, Err(e)) && after
                == begun
        },
        Err(_) => false,
    }
}

/// Whether the active file is full after an append.
pub open spec fn fills(before: EngineView, total_len: nat) -> bool {
    super::after_append(before, total_len).active->0.offset >= before.max_file_size
}

/// Whether `write` could have appended `bytes` to a file.
pub open spec fn is_written<T, W: FnOnce(u32, &EncodedEntry) -> Result<T, std::io::Error>>(
    write: W,
    file_id: u32,
    bytes: Seq<u8>,
) -> bool {
    exists|receipt: T| #[trigger] wrote(write, file_id, bytes, Ok(receipt))
}

/// Whether an append and then a rotation, with the receipt of the append, take `before` to
/// `after`.
pub open spec fn is_write_and_rotation<
    T,
    U,
    W: FnOnce(u32, &EncodedEntry) -> Result<T, std::io::Error>,
    S: FnOnce(u32, T) -> Result<U, std::io::Error>,
    C: FnOnce(u32, U) -> Result<u64, std::io::Error>,
>(
    before: EngineView,
    after: EngineView,
    bytes: Seq<u8>,
    write: W,
    sync: S,
    create: C,
    outcome: Result<(), Error>,
) -> bool {
    exists|receipt: T| #[trigger]
        wrote(write, before.active->0.file_id, bytes, Ok(receipt)) && is_rotation(
            super::after_append(before, bytes.len()),
            after,
            receipt,
            sync,
            create,
            outcome,
        )
}

/// Whether writing an entry takes `before` to `after`: it is appended to the active file, and if
/// this is full then, the file is rotated.
pub open spec fn is_write<
    T,
    U,
    W: FnOnce(u32, &EncodedEntry) -> Result<T, std::io::Error>,
    S: FnOnce(u32, T) -> Result<U, std::io::Error>,
    C: FnOnce(u32, U) -> Result<u64, std::io::Error>,
>(
    before: EngineView,
    after: EngineView,
    bytes: Seq<u8>,
    write: W,
    sync: S,
    create: C,
    outcome: Result<(), Error>,
) -> bool {
    let file_id = before.active->0.file_id;
    ||| outcome matches Err(Error::Io(e)) && wrote(write, file_id, bytes, Err(e)) && after == before
    ||| if fills(before, bytes.len()) {
        is_write_and_rotation(before, after, bytes, write, sync, create, outcome)
    } else {
        outcome is Ok && is_written(write, file_id, bytes) && after == super::after_append(
            before,
            bytes.len(),
        )
    }
}

/// What the callbacks must allow for writing an entry: the append, and if it fills the file, the
/// rotation after it.
pub open spec fn allows_write<
    T,
    U,
    W: FnOnce(u32, &EncodedEntry) -> Result<T, std::io::Error>,
    S: FnOnce(u32, T) -> Result<U, std::io::Error>,
    C: FnOnce(u32, U) -> Result<u64, std::io::Error>,
>(before: EngineView, bytes: Seq<u8>, write: W, sync: S, create: C) -> bool {
    let file_id = before.active->0.file_id;
    &&& may_write(write, file_id, bytes)
    &&& fills(before, bytes.len()) ==> may_sync(write, sync, file_id, bytes)
    &&& fills(before, bytes.len()) ==> forall|receipt: T| #[trigger]
        wrote(write, file_id, bytes, Ok(receipt)) ==> may_create(
            sync,
            create,
            file_id,
            before.next_file_id,
            receipt,
        )
}

/// What recording the append of an entry says.
pub open spec fn appended_of(before: EngineView, total_len: nat, value_len: nat) -> Appended {
    let after = super::after_append(before, total_len);
    Appended {
        file_id: before.active->0.file_id,
        value_pos: (before.active->0.offset + total_len - value_len) as u64,
        generation: if before.should_sync_on_put {
            Some(after.commits.pending)
        } else {
            None
        },
        is_full: after.active->0.offset >= before.max_file_size,
    }
}

/// Whether an entry that was appended still has to be made durable before it is published. A
/// rotation has done so already.
pub open spec fn needs_sync(appended: EngineView) -> bool {
    &&& appended.should_sync_on_put
    &&& appended.active->0.offset < appended.max_file_size
    &&& appended.commits.durable < appended.commits.pending
}

/// Whether making a file durable after `bytes` were appended to it could have come out like this.
pub open spec fn synced_after_write<
    T,
    U,
    W: FnOnce(u32, &EncodedEntry) -> Result<T, std::io::Error>,
    S: FnOnce(u32, T) -> Result<U, std::io::Error>,
>(write: W, sync: S, file_id: u32, bytes: Seq<u8>, outcome: Result<(), Error>) -> bool {
    exists|receipt: T| #[trigger]
        wrote(write, file_id, bytes, Ok(receipt)) && is_synced(file_id, receipt, sync, outcome)
}

/// Whether making a file durable could have come out like this.
pub open spec fn is_synced<T, U, S: FnOnce(u32, T) -> Result<U, std::io::Error>>(
    file_id: u32,
    receipt: T,
    sync: S,
    outcome: Result<(), Error>,
) -> bool {
    match outcome {
        Ok(_) => exists|synced: U| #[trigger] call_ensures(sync, (file_id, receipt), Ok(synced)),
        Err(Error::Io(e)) => call_ensures(sync, (file_id, receipt), Err(e)),
        Err(_) => false,
    }
}

/// Whether a write that is made durable where this is asked for takes `before` to `after`, up to
/// its publishing.
pub open spec fn is_durable_write<
    T,
    U,
    W: FnOnce(u32, &EncodedEntry) -> Result<T, std::io::Error>,
    S: FnOnce(u32, T) -> Result<U, std::io::Error>,
    C: FnOnce(u32, U) -> Result<u64, std::io::Error>,
>(
    before: EngineView,
    after: EngineView,
    bytes: Seq<u8>,
    write: W,
    sync: S,
    create: C,
    outcome: Result<(), Error>,
) -> bool {
    let file_id = before.active->0.file_id;
    let appended = super::after_append(before, bytes.len());
    if needs_sync(appended) {
        ||| outcome matches Err(Error::Io(e)) && wrote(write, file_id, bytes, Err(e)) && after
            == before
        ||| synced_after_write(write, sync, file_id, bytes, outcome) && after == (EngineView {
            commits: crate::commit::after_fsync(
                appended.commits,
                appended.commits.pending,
                outcome is Ok,
            ),
            ..appended
        })
    } else {
        is_write(before, after, bytes, write, sync, create, outcome)
    }
}

/// What the callbacks must allow for a write that is made durable where this is asked for.
pub open spec fn allows_durable_write<
    T,
    U,
    W: FnOnce(u32, &EncodedEntry) -> Result<T, std::io::Error>,
    S: FnOnce(u32, T) -> Result<U, std::io::Error>,
    C: FnOnce(u32, U) -> Result<u64, std::io::Error>,
>(before: EngineView, bytes: Seq<u8>, write: W, sync: S, create: C) -> bool {
    &&& allows_write(before, bytes, write, sync, create)
    &&& needs_sync(super::after_append(before, bytes.len())) ==> may_sync(
        write,
        sync,
        before.active->0.file_id,
        bytes,
    )
}

impl Engine {
    /// Makes the active file durable and lets a new one take its place. `sync` makes a file
    /// durable, given the receipt of what was written to it, and `create` creates one, given the
    /// receipt of that, and gives its length.
    pub fn rotate<
        T,
        U,
        S: FnOnce(u32, T) -> Result<U, std::io::Error>,
        C: FnOnce(u32, U) -> Result<u64, std::io::Error>,
    >(&mut self, receipt: T, sync: S, create: C) -> (outcome: Result<(), Error>)
        requires
            old(self)@.active is Some ==> call_requires(
                sync,
                (old(self)@.active->0.file_id, receipt),
            ),
            old(self)@.active is Some ==> may_create(
                sync,
                create,
                old(self)@.active->0.file_id,
                old(self)@.next_file_id,
                receipt,
            ),
        ensures
            old(self)@.active is None ==> outcome == Err::<(), Error>(Error::ReadOnly)
                && final(self)@ == old(self)@,
            old(self)@.active is Some ==> is_rotation(
                old(self)@,
                final(self)@,
                receipt,
                sync,
                create,
                outcome,
            ),
    {
        let full = match self.active_to_rotate() {
            None => {
                return Err(Error::ReadOnly);
            },
            Some(full) => full,
        };
        let synced = match sync(full.file_id(), receipt) {
            Ok(synced) => synced,
            Err(e) => {
                return Err(Error::from(e));
            },
        };
        let new = self.begin_rotation(full);
        match create(new.file_id(), synced) {
            Ok(existing_len) => {
                self.finish_rotation(new, existing_len);
                Ok(())
            },
            Err(e) => Err(Error::from(e)),
        }
    }

    /// Appends an entry to the active file, and records that.
    fn append_entry<T, W: FnOnce(u32, &EncodedEntry) -> Result<T, std::io::Error>>(
        &mut self,
        encoded: &EncodedEntry,
        write: W,
    ) -> (outcome: Result<(Appended, T), Error>)
        requires
            old(self)@.active is Some ==> old(self)@.active->0.offset + encoded.spec_bytes().len()
                <= u64::MAX,
            old(self)@.should_sync_on_put ==> old(self)@.commits.pending < u64::MAX,
            old(self)@.active is Some ==> call_requires(
                write,
                (old(self)@.active->0.file_id, encoded),
            ),
        ensures
            old(self)@.active is None ==> outcome == Err::<(Appended, T), Error>(Error::ReadOnly)
                && final(self)@ == old(self)@,
            old(self)@.active is Some ==> {
                let file_id = old(self)@.active->0.file_id;
                match outcome {
                    Ok((appended, receipt)) => {
                        &&& wrote(write, file_id, encoded.spec_bytes(), Ok(receipt))
                        &&& final(self)@ == super::after_append(
                            old(self)@,
                            encoded.spec_bytes().len(),
                        )
                        &&& appended == appended_of(
                            old(self)@,
                            encoded.spec_bytes().len(),
                            encoded.spec_value_len() as nat,
                        )
                    },
                    Err(Error::Io(e)) => {
                        &&& wrote(write, file_id, encoded.spec_bytes(), Err(e))
                        &&& final(self)@ == old(self)@
                    },
                    Err(_) => false,
                }
            },
    {
        let active_id = match self.active_file_id() {
            None => {
                return Err(Error::ReadOnly);
            },
            Some(file_id) => file_id,
        };
        match write(active_id, encoded) {
            Ok(receipt) => match self.append(encoded) {
                Ok(appended) => Ok((appended, receipt)),
                Err(error) => Err(error),
            },
            Err(e) => Err(Error::from(e)),
        }
    }

    /// Appends an entry to the active file, rotates the file if it is full then, and makes the
    /// entry durable where this is asked for. Nothing is published.
    fn write_durably<
        T,
        U,
        W: FnOnce(u32, &EncodedEntry) -> Result<T, std::io::Error>,
        S: FnOnce(u32, T) -> Result<U, std::io::Error>,
        C: FnOnce(u32, U) -> Result<u64, std::io::Error>,
    >(&mut self, encoded: &EncodedEntry, write: W, sync: S, create: C) -> (outcome: Result<
        Appended,
        Error,
    >)
        requires
            old(self)@.active is Some ==> old(self)@.active->0.offset + encoded.spec_bytes().len()
                <= u64::MAX,
            old(self)@.should_sync_on_put ==> old(self)@.commits.pending < u64::MAX
                && !old(self)@.commits.syncing,
            old(self)@.active is Some ==> allows_durable_write(
                old(self)@,
                encoded.spec_bytes(),
                write,
                sync,
                create,
            ),
        ensures
            old(self)@.active is None ==> outcome == Err::<Appended, Error>(Error::ReadOnly)
                && final(self)@ == old(self)@,
            old(self)@.active is Some ==> is_durable_write(
                old(self)@,
                final(self)@,
                encoded.spec_bytes(),
                write,
                sync,
                create,
                match outcome {
                    Ok(_) => Ok(()),
                    Err(error) => Err(error),
                },
            ),
            old(self)@.active is Some && outcome is Ok ==> {
                &&& outcome->Ok_0 == appended_of(
                    old(self)@,
                    encoded.spec_bytes().len(),
                    encoded.spec_value_len() as nat,
                )
                &&& outcome->Ok_0.generation is Some ==> final(self)@.commits.durable
                    >= outcome->Ok_0.generation->0
            },
    {
        let (appended, receipt) = match self.append_entry(encoded, write) {
            Ok(appended) => appended,
            Err(error) => {
                return Err(error);
            },
        };
        if appended.is_full {
            return match self.rotate(receipt, sync, create) {
                Ok(_) => Ok(appended),
                Err(error) => Err(error),
            };
        }
        if let Some(generation) = appended.generation {
            match self.commits.next_step(generation) {
                CommitStep::Lead { covers } => {
                    let outcome = sync(appended.file_id, receipt);
                    self.commits.fsync_ended(covers, outcome.is_ok());
                    if let Err(e) = outcome {
                        return Err(Error::from(e));
                    }
                },
                _ => {},
            }
        }
        Ok(appended)
    }
}

/// What is known of a write that readers do not see yet.
#[verifier::ext_equal]
pub struct UnpublishedView {
    pub key: Seq<u8>,
    /// Where the value is, or `None` if the key was deleted.
    pub entry: Option<KeydirEntry>,
    /// The generation that must be durable before the write is published, if any.
    pub generation: Option<u64>,
}

/// A write that was appended and that readers do not see yet.
#[derive(Debug)]
pub struct Unpublished {
    key: Vec<u8>,
    entry: Option<KeydirEntry>,
    generation: Option<u64>,
}

impl View for Unpublished {
    type V = UnpublishedView;

    closed spec fn view(&self) -> UnpublishedView {
        UnpublishedView { key: self.key@, entry: self.entry, generation: self.generation }
    }
}

impl Unpublished {
    /// The generation that must be durable before the write is published, if any.
    pub fn generation(&self) -> (generation: Option<u64>)
        ensures
            generation == self@.generation,
    {
        self.generation
    }
}

/// What is known of a write that was begun.
#[verifier::ext_equal]
pub struct BegunView {
    pub key: Seq<u8>,
    /// The entry that is to be appended, as bytes.
    pub bytes: Seq<u8>,
    /// The length of the value in it.
    pub value_len: nat,
    /// The file that it is to be appended to.
    pub file_id: u32,
    /// The size and the timestamp of the value for the index, or `None` if the key is deleted.
    pub put: Option<(u32, u32)>,
}

/// A write that was begun: its entry is to be appended to the active file.
#[derive(Debug)]
pub struct BegunWrite {
    key: Vec<u8>,
    encoded: EncodedEntry,
    file_id: u32,
    put: Option<(u32, u32)>,
}

impl View for BegunWrite {
    type V = BegunView;

    closed spec fn view(&self) -> BegunView {
        BegunView {
            key: self.key@,
            bytes: self.encoded.spec_bytes(),
            value_len: self.encoded.spec_value_len() as nat,
            file_id: self.file_id,
            put: self.put,
        }
    }
}

impl BegunWrite {
    /// The file that the entry is to be appended to.
    pub fn file_id(&self) -> (file_id: u32)
        ensures
            file_id == self@.file_id,
    {
        self.file_id
    }

    /// The entry.
    pub fn encoded(&self) -> (encoded: &EncodedEntry)
        ensures
            encoded.spec_bytes() == self@.bytes,
    {
        &self.encoded
    }
}

/// The entry of a `put`, as bytes.
pub open spec fn put_bytes(key: Seq<u8>, value: Seq<u8>, timestamp: u32) -> Seq<u8> {
    crate::format::entry::entry_bytes(key, value, false, timestamp)
}

/// The tombstone of a `delete`, as bytes.
pub open spec fn tombstone_bytes(key: Seq<u8>, timestamp: u32) -> Seq<u8> {
    crate::format::entry::entry_bytes(key, Seq::empty(), true, timestamp)
}

/// Whether the engine takes writes.
pub open spec fn takes_writes(state: EngineView) -> bool {
    state.is_read_write && state.active is Some
}

/// The entry in the index that a `put` leads to.
pub open spec fn put_entry(
    before: EngineView,
    key: Seq<u8>,
    value: Seq<u8>,
    timestamp: u32,
) -> KeydirEntry {
    let active = before.active->0;
    let total_len = put_bytes(key, value, timestamp).len();
    super::written_entry(
        active.file_id,
        (active.offset + total_len - value.len()) as u64,
        value,
        timestamp,
    )
}

/// A `put` that was begun.
pub open spec fn begun_put(
    state: EngineView,
    key: Seq<u8>,
    value: Seq<u8>,
    timestamp: u32,
) -> BegunView {
    BegunView {
        key,
        bytes: put_bytes(key, value, timestamp),
        value_len: value.len(),
        file_id: state.active->0.file_id,
        put: Some(((value.len() % 0x1_0000_0000) as u32, timestamp)),
    }
}

/// A `delete` that was begun.
pub open spec fn begun_delete(state: EngineView, key: Seq<u8>, timestamp: u32) -> BegunView {
    BegunView {
        key,
        bytes: tombstone_bytes(key, timestamp),
        value_len: 0,
        file_id: state.active->0.file_id,
        put: None,
    }
}

/// A write after its entry was appended, given the state before that.
pub open spec fn written(before: EngineView, begun: BegunView) -> UnpublishedView {
    let appended = appended_of(before, begun.bytes.len(), begun.value_len);
    UnpublishedView {
        key: begun.key,
        entry: match begun.put {
            Some((value_size, timestamp)) => Some(
                KeydirEntry {
                    file_id: appended.file_id,
                    value_size,
                    value_pos: appended.value_pos,
                    timestamp,
                },
            ),
            None => None,
        },
        generation: appended.generation,
    }
}

/// The state after a write was published.
pub open spec fn after_publish(state: EngineView, write: UnpublishedView) -> EngineView {
    EngineView {
        keydir: match write.entry {
            Some(entry) => state.keydir.insert(write.key, entry),
            None => state.keydir.remove(write.key),
        },
        ..state
    }
}

impl Engine {
    /// Begins a `put`: checks the call, and gives the entry that is to be appended. Readers see
    /// the value once the write is published.
    pub fn begin_put(&self, key: &[u8], value: &[u8], timestamp: u32) -> (begun: Result<
        BegunWrite,
        Error,
    >)
        requires
            key@.len() <= MAX_KEY_LEN,
        ensures
            key@.len() == 0 ==> begun == Err::<BegunWrite, Error>(Error::EmptyKey),
            key@.len() > 0 && !takes_writes(self@) ==> begun == Err::<BegunWrite, Error>(
                Error::ReadOnly,
            ),
            key@.len() > 0 && takes_writes(self@) ==> begun is Ok && begun->Ok_0@ == begun_put(
                self@,
                key@,
                value@,
                timestamp,
            ),
    {
        let encoded = match self.prepare_put(key, value, timestamp) {
            Ok(encoded) => encoded,
            Err(error) => {
                return Err(error);
            },
        };
        let value_size: u32 = (value.len() as u64 % 0x1_0000_0000) as u32;
        match self.active_file_id() {
            Some(file_id) => Ok(
                BegunWrite {
                    key: vstd::slice::slice_to_vec(key),
                    encoded,
                    file_id,
                    put: Some((value_size, timestamp)),
                },
            ),
            None => Err(Error::ReadOnly),
        }
    }

    /// Begins a `delete`: checks the call, and gives the tombstone that is to be appended, or
    /// `None` if the key is not there and nothing is to be done. Readers miss the key once the
    /// write is published.
    pub fn begin_delete(&self, key: &[u8], timestamp: u32) -> (begun: Result<
        Option<BegunWrite>,
        Error,
    >)
        requires
            key@.len() <= MAX_KEY_LEN,
        ensures
            key@.len() == 0 ==> begun == Err::<Option<BegunWrite>, Error>(Error::EmptyKey),
            key@.len() > 0 && !self@.is_read_write ==> begun == Err::<Option<BegunWrite>, Error>(
                Error::ReadOnly,
            ),
            key@.len() > 0 && self@.is_read_write && !self@.keydir.contains_key(key@) ==> begun
                == Ok::<Option<BegunWrite>, Error>(None),
            key@.len() > 0 && self@.is_read_write && self@.keydir.contains_key(key@)
                && self@.active is None ==> begun == Err::<Option<BegunWrite>, Error>(
                Error::ReadOnly,
            ),
            key@.len() > 0 && takes_writes(self@) && self@.keydir.contains_key(key@) ==> begun is Ok
                && begun->Ok_0 is Some && begun->Ok_0->0@ == begun_delete(self@, key@, timestamp),
    {
        let encoded = match self.prepare_delete(key, timestamp) {
            Ok(Some(encoded)) => encoded,
            Ok(None) => {
                return Ok(None);
            },
            Err(error) => {
                return Err(error);
            },
        };
        match self.active_file_id() {
            Some(file_id) => Ok(
                Some(
                    BegunWrite { key: vstd::slice::slice_to_vec(key), encoded, file_id, put: None },
                ),
            ),
            None => Err(Error::ReadOnly),
        }
    }

    /// Records that the entry of a write was appended to its file, which still is the active one.
    /// A file that is full then is to be rotated.
    pub fn written(&mut self, begun: BegunWrite) -> (write: Result<
        (Unpublished, Option<FullFile>),
        Error,
    >)
        requires
            old(self)@.active is Some ==> old(self)@.active->0.file_id == begun@.file_id
                && old(self)@.active->0.offset + begun@.bytes.len() <= u64::MAX,
            old(self)@.should_sync_on_put ==> old(self)@.commits.pending < u64::MAX,
        ensures
            old(self)@.active is None ==> write == Err::<(Unpublished, Option<FullFile>), Error>(
                Error::ReadOnly,
            ) && final(self)@ == old(self)@,
            old(self)@.active is Some ==> {
                &&& write is Ok
                &&& final(self)@ == super::after_append(old(self)@, begun@.bytes.len())
                &&& write->Ok_0.0@ == written(old(self)@, begun@)
                &&& (write->Ok_0.1 is Some) == fills(old(self)@, begun@.bytes.len())
                &&& write->Ok_0.1 is Some ==> write->Ok_0.1->0@ == begun@.file_id
            },
    {
        let BegunWrite { key, encoded, file_id, put } = begun;
        let appended = match self.append(&encoded) {
            Ok(appended) => appended,
            Err(error) => {
                return Err(error);
            },
        };
        let Appended { value_pos, generation, is_full, .. } = appended;
        let entry = match put {
            Some((value_size, timestamp)) => Some(
                KeydirEntry { file_id, value_size, value_pos, timestamp },
            ),
            None => None,
        };
        let full = if is_full {
            self.active_to_rotate()
        } else {
            None
        };
        Ok((Unpublished { key, entry, generation }, full))
    }

    /// Lets readers see a write. Where it is asked for that writes are durable, this one is by
    /// now.
    pub fn publish(&mut self, write: Unpublished)
        requires
            write@.generation is Some ==> old(self)@.commits.durable >= write@.generation->0,
        ensures
            final(self)@ == after_publish(old(self)@, write@),
    {
        match write.entry {
            Some(entry) => {
                self.keydir.insert(write.key.as_slice(), entry);
            },
            None => {
                self.keydir.remove(write.key.as_slice());
            },
        }
    }

    /// Stores a value under a key: appends an entry, makes it durable where this is asked for,
    /// and only then lets readers see it. If anything fails, readers see what they saw before.
    pub fn put<
        T,
        U,
        W: FnOnce(u32, &EncodedEntry) -> Result<T, std::io::Error>,
        S: FnOnce(u32, T) -> Result<U, std::io::Error>,
        C: FnOnce(u32, U) -> Result<u64, std::io::Error>,
    >(
        &mut self,
        key: &[u8],
        value: &[u8],
        timestamp: u32,
        write: W,
        sync: S,
        create: C,
    ) -> (outcome: Result<(), Error>)
        requires
            key@.len() <= MAX_KEY_LEN,
            old(self)@.active is Some ==> old(self)@.active->0.offset + put_bytes(
                key@,
                value@,
                timestamp,
            ).len() <= u64::MAX,
            old(self)@.should_sync_on_put ==> old(self)@.commits.pending < u64::MAX
                && !old(self)@.commits.syncing,
            key@.len() > 0 && takes_writes(old(self)@) ==> allows_durable_write(
                old(self)@,
                put_bytes(key@, value@, timestamp),
                write,
                sync,
                create,
            ),
        ensures
            key@.len() == 0 ==> outcome == Err::<(), Error>(Error::EmptyKey) && final(self)@ == old(
                self,
            )@,
            key@.len() > 0 && !takes_writes(old(self)@) ==> outcome == Err::<(), Error>(
                Error::ReadOnly,
            ) && final(self)@ == old(self)@,
            key@.len() > 0 && takes_writes(old(self)@) ==> {
                &&& is_durable_write(
                    old(self)@,
                    EngineView { keydir: old(self)@.keydir, ..final(self)@ },
                    put_bytes(key@, value@, timestamp),
                    write,
                    sync,
                    create,
                    outcome,
                )
                &&& final(self)@.keydir == if outcome is Ok {
                    old(self)@.keydir.insert(
                        key@,
                        put_entry(old(self)@, key@, value@, timestamp),
                    )
                } else {
                    old(self)@.keydir
                }
            },
    {
        let encoded = match self.prepare_put(key, value, timestamp) {
            Ok(encoded) => encoded,
            Err(error) => {
                return Err(error);
            },
        };
        match self.write_durably(&encoded, write, sync, create) {
            Ok(appended) => {
                let ghost written = self@;
                self.publish(unpublished_put(key, value, timestamp, appended));
                assert((EngineView { keydir: written.keydir, ..self@ }) =~= written);
                Ok(())
            },
            Err(error) => Err(error),
        }
    }

    /// Removes a key: appends a tombstone, makes it durable where this is asked for, and only then
    /// lets readers see it. A key that is not there is no error, and nothing is written then.
    pub fn delete<
        T,
        U,
        W: FnOnce(u32, &EncodedEntry) -> Result<T, std::io::Error>,
        S: FnOnce(u32, T) -> Result<U, std::io::Error>,
        C: FnOnce(u32, U) -> Result<u64, std::io::Error>,
    >(&mut self, key: &[u8], timestamp: u32, write: W, sync: S, create: C) -> (outcome: Result<
        (),
        Error,
    >)
        requires
            key@.len() <= MAX_KEY_LEN,
            old(self)@.active is Some ==> old(self)@.active->0.offset + tombstone_bytes(
                key@,
                timestamp,
            ).len() <= u64::MAX,
            old(self)@.should_sync_on_put ==> old(self)@.commits.pending < u64::MAX
                && !old(self)@.commits.syncing,
            key@.len() > 0 && takes_writes(old(self)@) && old(self)@.keydir.contains_key(key@)
                ==> allows_durable_write(
                old(self)@,
                tombstone_bytes(key@, timestamp),
                write,
                sync,
                create,
            ),
        ensures
            key@.len() == 0 ==> outcome == Err::<(), Error>(Error::EmptyKey) && final(self)@ == old(
                self,
            )@,
            key@.len() > 0 && !old(self)@.is_read_write ==> outcome == Err::<(), Error>(
                Error::ReadOnly,
            ) && final(self)@ == old(self)@,
            key@.len() > 0 && old(self)@.is_read_write && !old(self)@.keydir.contains_key(key@)
                ==> outcome == Ok::<(), Error>(()) && final(self)@ == old(self)@,
            key@.len() > 0 && old(self)@.is_read_write && old(self)@.keydir.contains_key(key@)
                && old(self)@.active is None ==> outcome == Err::<(), Error>(Error::ReadOnly)
                && final(self)@ == old(self)@,
            key@.len() > 0 && takes_writes(old(self)@) && old(self)@.keydir.contains_key(key@)
                ==> {
                &&& is_durable_write(
                    old(self)@,
                    EngineView { keydir: old(self)@.keydir, ..final(self)@ },
                    tombstone_bytes(key@, timestamp),
                    write,
                    sync,
                    create,
                    outcome,
                )
                &&& final(self)@.keydir == if outcome is Ok {
                    old(self)@.keydir.remove(key@)
                } else {
                    old(self)@.keydir
                }
            },
    {
        let encoded = match self.prepare_delete(key, timestamp) {
            Ok(Some(encoded)) => encoded,
            Ok(None) => {
                return Ok(());
            },
            Err(error) => {
                return Err(error);
            },
        };
        match self.write_durably(&encoded, write, sync, create) {
            Ok(appended) => {
                let ghost written = self@;
                self.publish(unpublished_delete(key, appended));
                assert((EngineView { keydir: written.keydir, ..self@ }) =~= written);
                Ok(())
            },
            Err(error) => Err(error),
        }
    }

    /// The file that is to be made durable, so that all writes are. Like all calls that write,
    /// this is refused on a handle for reading only.
    pub fn file_to_sync(&self) -> (file_id: Result<u32, Error>)
        ensures
            file_id == if takes_writes(self@) {
                Ok(self@.active->0.file_id)
            } else {
                Err(Error::ReadOnly)
            },
    {
        match self.require_write() {
            Ok(_) => {},
            Err(error) => {
                return Err(error);
            },
        }
        match self.active_file_id() {
            None => Err(Error::ReadOnly),
            Some(file_id) => Ok(file_id),
        }
    }

    /// Makes all writes durable. Like all calls that write, this is refused on a handle for
    /// reading only.
    pub fn sync<S: FnOnce(u32) -> Result<(), std::io::Error>>(&self, sync: S) -> (outcome: Result<
        (),
        Error,
    >)
        requires
            takes_writes(self@) ==> call_requires(sync, (self@.active->0.file_id,)),
        ensures
            !takes_writes(self@) ==> outcome == Err::<(), Error>(Error::ReadOnly),
            takes_writes(self@) ==> is_made_durable(self@.active->0.file_id, sync, outcome),
    {
        match self.file_to_sync() {
            Ok(file_id) => make_durable(file_id, sync),
            Err(error) => Err(error),
        }
    }

    /// Closes the datastore. What was written is made durable first.
    pub fn close<S: FnOnce(u32) -> Result<(), std::io::Error>>(self, sync: S) -> (outcome: Result<
        (),
        Error,
    >)
        requires
            self@.active is Some ==> call_requires(sync, (self@.active->0.file_id,)),
        ensures
            self@.active is None ==> outcome == Ok::<(), Error>(()),
            self@.active is Some ==> is_made_durable(self@.active->0.file_id, sync, outcome),
    {
        match self.active_file_id() {
            None => Ok(()),
            Some(file_id) => make_durable(file_id, sync),
        }
    }
}

/// A `put` that was appended.
fn unpublished_put(key: &[u8], value: &[u8], timestamp: u32, appended: Appended) -> (write:
    Unpublished)
    ensures
        write@ == (UnpublishedView {
            key: key@,
            entry: Some(
                super::written_entry(appended.file_id, appended.value_pos, value@, timestamp),
            ),
            generation: appended.generation,
        }),
{
    let value_size: u32 = (value.len() as u64 % 0x1_0000_0000) as u32;
    let Appended { file_id, value_pos, generation, .. } = appended;
    Unpublished {
        key: vstd::slice::slice_to_vec(key),
        entry: Some(KeydirEntry { file_id, value_size, value_pos, timestamp }),
        generation,
    }
}

/// A `delete` whose tombstone was appended.
fn unpublished_delete(key: &[u8], appended: Appended) -> (write: Unpublished)
    ensures
        write@ == (UnpublishedView { key: key@, entry: None, generation: appended.generation }),
{
    Unpublished {
        key: vstd::slice::slice_to_vec(key),
        entry: None,
        generation: appended.generation,
    }
}

/// Whether making a file durable, whatever was written to it, could have come out like this.
pub open spec fn is_made_durable<S: FnOnce(u32) -> Result<(), std::io::Error>>(
    file_id: u32,
    sync: S,
    outcome: Result<(), Error>,
) -> bool {
    match outcome {
        Ok(_) => call_ensures(sync, (file_id,), Ok(())),
        Err(Error::Io(e)) => call_ensures(sync, (file_id,), Err(e)),
        Err(_) => false,
    }
}

/// Makes a file durable, with all that was written to it.
pub fn make_durable<S: FnOnce(u32) -> Result<(), std::io::Error>>(file_id: u32, sync: S) -> (
    outcome: Result<(), Error>)
    requires
        call_requires(sync, (file_id,)),
    ensures
        is_made_durable(file_id, sync, outcome),
{
    match sync(file_id) {
        Ok(done) => {
            assert(done == ());
            Ok(())
        },
        Err(e) => Err(Error::from(e)),
    }
}

/// A write that succeeds was appended before it is published, and where this is asked for, it is
/// durable by then, with all that was written before it: the file was made durable with the
/// receipt of the append.
pub proof fn law_published_writes_are_durable<
    T,
    U,
    W: FnOnce(u32, &EncodedEntry) -> Result<T, std::io::Error>,
    S: FnOnce(u32, T) -> Result<U, std::io::Error>,
    C: FnOnce(u32, U) -> Result<u64, std::io::Error>,
>(before: EngineView, after: EngineView, bytes: Seq<u8>, write: W, sync: S, create: C)
    requires
        is_durable_write(before, after, bytes, write, sync, create, Ok(())),
        before.commits.durable <= before.commits.pending,
        before.should_sync_on_put ==> before.commits.pending < u64::MAX,
    ensures
        ({
            let file_id = before.active->0.file_id;
            &&& is_written(write, file_id, bytes)
            &&& after.keydir == before.keydir
            &&& before.should_sync_on_put ==> after.commits.durable == after.commits.pending
            &&& before.should_sync_on_put || fills(before, bytes.len()) ==> synced_after_write(
                write,
                sync,
                file_id,
                bytes,
                Ok(()),
            )
            &&& after.active == if fills(before, bytes.len()) {
                Some(
                    crate::datafile::ActiveView {
                        file_id: before.next_file_id,
                        offset: after.active->0.offset,
                    },
                )
            } else {
                super::after_append(before, bytes.len()).active
            }
        }),
{
    let file_id = before.active->0.file_id;
    if fills(before, bytes.len()) {
        let receipt = choose|receipt: T| #[trigger]
            wrote(write, file_id, bytes, Ok(receipt)) && is_rotation(
                super::after_append(before, bytes.len()),
                after,
                receipt,
                sync,
                create,
                Ok(()),
            );
        assert(wrote(write, file_id, bytes, Ok(receipt)));
        assert(is_synced(file_id, receipt, sync, Ok(())));
    }
}

} // verus!
