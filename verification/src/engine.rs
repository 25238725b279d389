//! The engine of a datastore: it ties the index, the active file, the file ids and group commit
//! together, and decides what `put`, `get`, `delete` and merge do to them.
//!
//! The engine does no I/O of its own. [`operations`] has whole operations, where the I/O is done
//! by functions that the caller hands in. A caller that shares the engine, and does not want to
//! keep others waiting while it does I/O, goes step by step:
//!
//! 1. [`Engine::begin_put`] or [`Engine::begin_delete`] checks the call and gives the entry that
//!    is to be appended, and the file.
//! 2. [`Engine::written`] records that this was done, and says whether the file is full.
//! 3. If it is, the file is made durable, [`Engine::begin_rotation`] gives the id of a new file,
//!    that is created, and [`Engine::finish_rotation`] lets it take the place of the active one.
//! 4. If there is a generation to be made durable, [`Engine::next_commit_step`] says how.
//! 5. [`Engine::publish`] lets readers see the write.
//!
//! What one step gives, the next one takes, so that none is left out or done twice. From the first
//! step to the third, one writer at a time has its turn.
use vstd::prelude::*;

pub mod operations;

use crate::api::Options;
use crate::commit::{CommitView, GroupCommit};
use crate::datafile::{ActiveFile, ActiveView, FileIdCounter};
use crate::error::Error;
use crate::format::{encode_entry, EncodedEntry, MAX_KEY_LEN};
use crate::keydir::{Keydir, KeydirEntry, KeydirView, SharedKeydir};
use crate::merge::output_writer::MergeStep;
use crate::merge::{apply_pending_repoints, CopyReport, Merge};

verus! {

/// State of an engine.
#[verifier::ext_equal]
pub struct EngineView {
    pub keydir: KeydirView,
    /// The file that is appended to, or `None` on a handle for reading only.
    pub active: Option<ActiveView>,
    pub next_file_id: u32,
    pub commits: CommitView,
    pub is_read_write: bool,
    pub should_sync_on_put: bool,
    pub max_file_size: u64,
}

/// The engine of one open datastore.
pub struct Engine {
    keydir: SharedKeydir,
    active: Option<ActiveFile>,
    ids: FileIdCounter,
    commits: GroupCommit,
    opts: Options,
}

impl View for Engine {
    type V = EngineView;

    closed spec fn view(&self) -> EngineView {
        EngineView {
            keydir: self.keydir@,
            active: match self.active {
                Some(active) => Some(active@),
                None => None,
            },
            next_file_id: self.ids@,
            commits: self.commits@,
            is_read_write: self.opts.is_read_write,
            should_sync_on_put: self.opts.should_sync_on_put,
            max_file_size: self.opts.max_file_size,
        }
    }
}

/// The id of the file that a newly opened datastore appends to: the one above all that there are.
pub open spec fn first_active_id(file_ids: Seq<u32>) -> u32 {
    if file_ids.len() == 0 {
        0
    } else {
        (file_ids.last() + 1) as u32
    }
}

/// The state of an engine that was opened with the given options on data files with the given
/// ids, with an index and with the length of the file that it appends to.
pub open spec fn opened(
    file_ids: Seq<u32>,
    keydir: KeydirView,
    opts: Options,
    active_len: u64,
) -> EngineView {
    let first = first_active_id(file_ids);
    EngineView {
        keydir,
        active: if opts.is_read_write {
            Some(ActiveView { file_id: first, offset: active_len })
        } else {
            None
        },
        next_file_id: (first + 1) as u32,
        commits: CommitView { pending: 0, durable: 0, syncing: false, fsync_calls: 0 },
        is_read_write: opts.is_read_write,
        should_sync_on_put: opts.should_sync_on_put,
        max_file_size: opts.max_file_size,
    }
}

/// What recording an append comes to.
#[derive(Clone, Copy, Debug)]
pub struct Appended {
    /// Where the value is now.
    pub file_id: u32,
    pub value_pos: u64,
    /// The generation that must be made durable before the write is published, if any.
    pub generation: Option<u64>,
    /// Whether the active file is full.
    pub is_full: bool,
}

/// The state after an entry of `total_len` bytes was appended to the active file.
pub open spec fn after_append(state: EngineView, total_len: nat) -> EngineView {
    let active = state.active->0;
    EngineView {
        active: Some(
            ActiveView { file_id: active.file_id, offset: (active.offset + total_len) as u64 },
        ),
        commits: if state.should_sync_on_put {
            CommitView { pending: (state.commits.pending + 1) as u64, ..state.commits }
        } else {
            state.commits
        },
        ..state
    }
}

/// The state after the active file was made durable and the id of the next one was taken.
pub open spec fn after_begin_rotation(state: EngineView) -> EngineView {
    EngineView {
        next_file_id: crate::datafile::id_after(state.next_file_id),
        commits: crate::commit::after_other_sync(state.commits),
        ..state
    }
}

/// The state after a new file took the place of the active one.
pub open spec fn after_finish_rotation(
    state: EngineView,
    file_id: u32,
    existing_len: u64,
) -> EngineView {
    EngineView { active: Some(ActiveView { file_id, offset: existing_len }), ..state }
}

/// An active file that is to be made durable, so that a new one can take its place.
#[derive(Debug)]
pub struct FullFile {
    file_id: u32,
}

impl View for FullFile {
    type V = u32;

    closed spec fn view(&self) -> u32 {
        self.file_id
    }
}

impl FullFile {
    /// Its id.
    pub fn file_id(&self) -> (file_id: u32)
        ensures
            file_id == self@,
    {
        self.file_id
    }
}

/// A file that is to be created, to take the place of the active one.
#[derive(Debug)]
pub struct NewFile {
    file_id: u32,
}

impl View for NewFile {
    type V = u32;

    closed spec fn view(&self) -> u32 {
        self.file_id
    }
}

impl NewFile {
    /// Its id.
    pub fn file_id(&self) -> (file_id: u32)
        ensures
            file_id == self@,
    {
        self.file_id
    }
}

/// The ids of output files that were planned for.
pub struct PlannedIds {
    from: Ghost<u32>,
    ids: FileIdCounter,
}

impl View for PlannedIds {
    /// The next id before and after the plan.
    type V = (u32, u32);

    closed spec fn view(&self) -> (u32, u32) {
        (self.from@, self.ids@)
    }
}

/// The entry in the index of a value that was written.
pub open spec fn written_entry(
    file_id: u32,
    value_pos: u64,
    value: Seq<u8>,
    timestamp: u32,
) -> KeydirEntry {
    KeydirEntry {
        file_id,
        value_size: (value.len() % 0x1_0000_0000) as u32,
        value_pos,
        timestamp,
    }
}

impl Engine {
    /// Id of the file to be created for a newly opened datastore, given the ids of all data files
    /// in ascending order.
    pub fn first_active_id(file_ids: &[u32]) -> (file_id: u32)
        requires
            file_ids@.len() > 0 ==> file_ids@.last() < u32::MAX,
        ensures
            file_id == first_active_id(file_ids@),
    {
        if file_ids.len() == 0 {
            0
        } else {
            file_ids[file_ids.len() - 1] + 1
        }
    }

    /// Opens a datastore whose data files have the given ids, in ascending order, and whose index
    /// was rebuilt from them. A handle for writing appends to a new file, which has `active_len`
    /// bytes. Files that were there are never appended to again.
    pub fn open(file_ids: &[u32], keydir: Keydir, opts: Options, active_len: u64) -> (engine:
        Engine)
        requires
            file_ids@.len() > 0 ==> file_ids@.last() < u32::MAX - 1,
        ensures
            engine@ == opened(file_ids@, keydir@, opts, active_len),
    {
        let next_id = Engine::first_active_id(file_ids);
        let active = if opts.is_read_write {
            Some(ActiveFile::create(next_id, active_len))
        } else {
            None
        };
        Engine {
            keydir: SharedKeydir::new(keydir),
            active,
            ids: FileIdCounter::new(next_id + 1),
            commits: GroupCommit::new(),
            opts,
        }
    }

    /// Refuses a call that writes on a handle for reading only.
    pub fn require_write(&self) -> (outcome: Result<(), Error>)
        ensures
            outcome == if self@.is_read_write {
                Ok(())
            } else {
                Err(Error::ReadOnly)
            },
    {
        if self.opts.is_read_write {
            Ok(())
        } else {
            Err(Error::ReadOnly)
        }
    }

    /// Id of the file that is appended to.
    pub fn active_file_id(&self) -> (file_id: Option<u32>)
        ensures
            file_id == match self@.active {
                Some(active) => Some(active.file_id),
                None => None,
            },
    {
        match &self.active {
            Some(active) => Some(active.file_id()),
            None => None,
        }
    }

    /// Checks a `put` and gives the entry to be appended.
    pub fn prepare_put(&self, key: &[u8], value: &[u8], timestamp: u32) -> (prepared: Result<
        EncodedEntry,
        Error,
    >)
        requires
            key@.len() <= MAX_KEY_LEN,
        ensures
            key@.len() == 0 ==> prepared == Err::<EncodedEntry, Error>(Error::EmptyKey),
            key@.len() > 0 && !self@.is_read_write ==> prepared == Err::<EncodedEntry, Error>(
                Error::ReadOnly,
            ),
            key@.len() > 0 && self@.is_read_write ==> prepared is Ok && prepared->Ok_0.spec_bytes()
                == crate::format::entry::entry_bytes(key@, value@, false, timestamp)
                && prepared->Ok_0.spec_value_len() == value@.len(),
    {
        if key.len() == 0 {
            return Err(Error::EmptyKey);
        }
        match self.require_write() {
            Ok(_) => Ok(encode_entry(key, value, false, timestamp)),
            Err(error) => Err(error),
        }
    }

    /// Checks a `delete` and gives the tombstone to be appended, or `None` if the key is not
    /// there and nothing is to be done.
    pub fn prepare_delete(&self, key: &[u8], timestamp: u32) -> (prepared: Result<
        Option<EncodedEntry>,
        Error,
    >)
        requires
            key@.len() <= MAX_KEY_LEN,
        ensures
            key@.len() == 0 ==> prepared == Err::<Option<EncodedEntry>, Error>(Error::EmptyKey),
            key@.len() > 0 && !self@.is_read_write ==> prepared == Err::<
                Option<EncodedEntry>,
                Error,
            >(Error::ReadOnly),
            key@.len() > 0 && self@.is_read_write ==> prepared is Ok && (prepared->Ok_0 is Some)
                == self@.keydir.contains_key(key@),
            key@.len() > 0 && self@.is_read_write && self@.keydir.contains_key(key@)
                ==> prepared->Ok_0->0.spec_bytes() == crate::format::entry::entry_bytes(
                key@,
                Seq::empty(),
                true,
                timestamp,
            ) && prepared->Ok_0->0.spec_value_len() == 0,
    {
        if key.len() == 0 {
            return Err(Error::EmptyKey);
        }
        match self.require_write() {
            Ok(_) => {},
            Err(error) => {
                return Err(error);
            },
        }
        if self.keydir.get(key).is_none() {
            return Ok(None);
        }
        let no_value: [u8; 0] = [];
        let encoded = encode_entry(key, no_value.as_slice(), true, timestamp);
        assert(no_value@ =~= Seq::empty());
        Ok(Some(encoded))
    }

    /// Records that an entry was appended to the active file.
    pub fn append(&mut self, encoded: &EncodedEntry) -> (appended: Result<Appended, Error>)
        requires
            old(self)@.active is Some ==> old(self)@.active->0.offset + encoded.spec_bytes().len()
                <= u64::MAX,
            old(self)@.should_sync_on_put ==> old(self)@.commits.pending < u64::MAX,
        ensures
            old(self)@.active is None ==> appended == Err::<Appended, Error>(Error::ReadOnly)
                && final(self)@ == old(self)@,
            old(self)@.active is Some ==> appended is Ok && final(self)@ == after_append(
                old(self)@,
                encoded.spec_bytes().len(),
            ) && appended->Ok_0 == (Appended {
                file_id: old(self)@.active->0.file_id,
                value_pos: (old(self)@.active->0.offset + encoded.spec_bytes().len()
                    - encoded.spec_value_len()) as u64,
                generation: if old(self)@.should_sync_on_put {
                    Some(final(self)@.commits.pending)
                } else {
                    None
                },
                is_full: final(self)@.active->0.offset >= old(self)@.max_file_size,
            }),
    {
        match &mut self.active {
            None => Err(Error::ReadOnly),
            Some(active) => {
                let (file_id, value_pos, _total_len) = active.append(encoded);
                let is_full = active.len() >= self.opts.max_file_size;
                let generation = if self.opts.should_sync_on_put {
                    Some(self.commits.record_pending())
                } else {
                    None
                };
                Ok(Appended { file_id, value_pos, generation, is_full })
            },
        }
    }
}

impl Engine {
    /// The active file, to be rotated.
    pub fn active_to_rotate(&self) -> (full: Option<FullFile>)
        ensures
            (full is Some) == (self@.active is Some),
            full is Some ==> full->0@ == self@.active->0.file_id,
    {
        match self.active_file_id() {
            Some(file_id) => Some(FullFile { file_id }),
            None => None,
        }
    }

    /// Takes the id of the file that is to become the active one. The present active file was
    /// made durable just now, and all writes with it.
    pub fn begin_rotation(&mut self, full: FullFile) -> (new: NewFile)
        requires
            old(self)@.active is Some && old(self)@.active->0.file_id == full@,
        ensures
            new@ == old(self)@.next_file_id,
            final(self)@ == after_begin_rotation(old(self)@),
    {
        self.commits.mark_all_durable();
        NewFile { file_id: self.ids.claim() }
    }

    /// Lets a new file, which was created and has `existing_len` bytes, take the place of the
    /// active one.
    pub fn finish_rotation(&mut self, new: NewFile, existing_len: u64)
        ensures
            final(self)@ == after_finish_rotation(old(self)@, new@, existing_len),
    {
        self.active = Some(ActiveFile::create(new.file_id, existing_len));
    }

    /// Says what to do next to make a generation durable.
    pub fn next_commit_step(&mut self, generation: u64) -> (step: crate::commit::CommitStep)
        ensures
            step == crate::commit::next_step(old(self)@.commits, generation).0,
            final(self)@ == (EngineView {
                commits: crate::commit::next_step(old(self)@.commits, generation).1,
                ..old(self)@
            }),
    {
        self.commits.next_step(generation)
    }

    /// Records how an `fsync` of the active file ended.
    pub fn fsync_ended(&mut self, covers: u64, succeeded: bool)
        ensures
            final(self)@ == (EngineView {
                commits: crate::commit::after_fsync(old(self)@.commits, covers, succeeded),
                ..old(self)@
            }),
    {
        self.commits.fsync_ended(covers, succeeded);
    }

    /// Where the value of a key is, if the key is there.
    pub fn locate(&self, key: &[u8]) -> (entry: Option<KeydirEntry>)
        ensures
            entry == crate::keydir::lookup(self@.keydir, key@),
    {
        self.keydir.get(key)
    }

    /// The value of a key, or `None` if the key is not there. `read_value` reads a value from its
    /// place on disk.
    pub fn get<R: Fn(KeydirEntry) -> Result<Vec<u8>, std::io::Error>>(
        &self,
        key: &[u8],
        read_value: R,
    ) -> (value: Result<Option<Vec<u8>>, Error>)
        requires
            self@.keydir.contains_key(key@) ==> call_requires(read_value, (self@.keydir[key@],)),
        ensures
            is_value_at(crate::keydir::lookup(self@.keydir, key@), read_value, value),
    {
        read_located(self.locate(key), read_value)
    }

    /// Every key with the place of its value, once each, in no particular order.
    pub fn snapshot(&self) -> (entries: Vec<(Vec<u8>, KeydirEntry)>)
        ensures
            crate::keydir::lists(crate::keydir::snapshot_view(entries@), self@.keydir),
    {
        self.keydir.snapshot()
    }

    /// Every key, once each, in no particular order.
    pub fn list_keys(&self) -> (keys: Vec<Vec<u8>>)
        ensures
            forall|i: int|
                0 <= i < keys@.len() ==> self@.keydir.contains_key((#[trigger] keys@[i])@),
            forall|key: Seq<u8>| #[trigger]
                self@.keydir.contains_key(key) ==> exists|i: int|
                    0 <= i < keys@.len() && (#[trigger] keys@[i])@ == key,
            forall|i: int, j: int|
                0 <= i < j < keys@.len() ==> (#[trigger] keys@[i])@ != (#[trigger] keys@[j])@,
    {
        let entries = self.keydir.snapshot();
        let ghost listed = crate::keydir::snapshot_view(entries@);
        let mut keys: Vec<Vec<u8>> = Vec::new();
        for item in it: entries
            invariant
                it.seq() == entries@,
                listed == crate::keydir::snapshot_view(entries@),
                keys@.len() == it.index(),
                forall|j: int| 0 <= j < keys@.len() ==> (#[trigger] keys@[j])@ == listed[j].0,
        {
            let (key, _entry) = item;
            keys.push(key);
        }
        proof {
            assert forall|key: Seq<u8>| #[trigger] self@.keydir.contains_key(key) implies exists|
                i: int,
            | 0 <= i < keys@.len() && (#[trigger] keys@[i])@ == key by {
                let i = choose|i: int| 0 <= i < listed.len() && (#[trigger] listed[i]).0 == key;
                assert(keys@[i]@ == key);
            }
            assert forall|i: int, j: int| 0 <= i < j < keys@.len() implies (#[trigger] keys@[i])@
                != (#[trigger] keys@[j])@ by {
                assert(listed[i].0 != listed[j].0);
            }
        }
        keys
    }
}

/// Whether `value` is what reading from `place` comes to.
pub open spec fn is_value_at<R: Fn(KeydirEntry) -> Result<Vec<u8>, std::io::Error>>(
    place: Option<KeydirEntry>,
    read_value: R,
    value: Result<Option<Vec<u8>>, Error>,
) -> bool {
    match (place, value) {
        (None, Ok(None)) => true,
        (Some(entry), Ok(Some(bytes))) => call_ensures(read_value, (entry,), Ok(bytes)),
        (Some(entry), Err(Error::Io(e))) => call_ensures(read_value, (entry,), Err(e)),
        _ => false,
    }
}

/// Reads the value from its place, if there is one.
pub fn read_located<R: Fn(KeydirEntry) -> Result<Vec<u8>, std::io::Error>>(
    place: Option<KeydirEntry>,
    read_value: R,
) -> (value: Result<Option<Vec<u8>>, Error>)
    requires
        place is Some ==> call_requires(read_value, (place->0,)),
    ensures
        is_value_at(place, read_value, value),
{
    match place {
        None => Ok(None),
        Some(entry) => match read_value(entry) {
            Ok(bytes) => Ok(Some(bytes)),
            Err(e) => Err(Error::from(e)),
        },
    }
}

/// Whether reading the values at the first places of `entries` gave `values`, and folding them
/// with `f` took the accumulator through `accs`.
pub open spec fn folded<
    A,
    R: Fn(KeydirEntry) -> Result<Vec<u8>, std::io::Error>,
    F: Fn(&Vec<u8>, &Vec<u8>, A) -> A,
>(
    entries: Seq<(Vec<u8>, KeydirEntry)>,
    read_value: R,
    f: F,
    values: Seq<Vec<u8>>,
    accs: Seq<A>,
) -> bool {
    &&& values.len() <= entries.len()
    &&& accs.len() == values.len() + 1
    &&& forall|i: int|
        0 <= i < values.len() ==> call_ensures(
            read_value,
            (entries[i].1,),
            Ok(#[trigger] values[i]),
        ) && call_ensures(f, (&entries[i].0, &values[i], accs[i]), accs[i + 1])
}

/// Whether `result` is what folding `f` over the keys and values of `entries` comes to.
pub open spec fn is_fold<
    A,
    R: Fn(KeydirEntry) -> Result<Vec<u8>, std::io::Error>,
    F: Fn(&Vec<u8>, &Vec<u8>, A) -> A,
>(
    entries: Seq<(Vec<u8>, KeydirEntry)>,
    read_value: R,
    f: F,
    init: A,
    result: Result<A, Error>,
) -> bool {
    &&& result is Ok ==> exists|values: Seq<Vec<u8>>, accs: Seq<A>| #[trigger]
        folded(entries, read_value, f, values, accs) && values.len() == entries.len() && accs[0]
            == init && accs.last() == result->Ok_0
    &&& result is Err ==> exists|values: Seq<Vec<u8>>, accs: Seq<A>| #[trigger]
        folded(entries, read_value, f, values, accs) && values.len() < entries.len() && accs[0]
            == init && result->Err_0 is Io && call_ensures(
            read_value,
            (entries[values.len() as int].1,),
            Err(result->Err_0->Io_0),
        )
}

/// Whether the value of a key may be read from its place, and `f` be applied to it.
pub open spec fn can_fold<
    A,
    R: Fn(KeydirEntry) -> Result<Vec<u8>, std::io::Error>,
    F: Fn(&Vec<u8>, &Vec<u8>, A) -> A,
>(read_value: R, f: F, entry: (Vec<u8>, KeydirEntry)) -> bool {
    &&& call_requires(read_value, (entry.1,))
    &&& forall|value: Vec<u8>, acc: A|
        call_ensures(read_value, (entry.1,), Ok(value)) ==> #[trigger] call_requires(
            f,
            (&entry.0, &value, acc),
        )
}

/// Folds `f` over the keys and values of a snapshot, in its order.
pub fn fold_snapshot<
    A,
    R: Fn(KeydirEntry) -> Result<Vec<u8>, std::io::Error>,
    F: Fn(&Vec<u8>, &Vec<u8>, A) -> A,
>(entries: &[(Vec<u8>, KeydirEntry)], read_value: R, f: F, init: A) -> (result: Result<A, Error>)
    requires
        forall|i: int| 0 <= i < entries@.len() ==> can_fold(read_value, f, #[trigger] entries@[i]),
    ensures
        is_fold(entries@, read_value, f, init, result),
{
    let mut acc = init;
    let ghost mut values: Seq<Vec<u8>> = Seq::empty();
    let ghost mut accs: Seq<A> = seq![init];
    let mut i: usize = 0;
    while i < entries.len()
        invariant
            i <= entries@.len(),
            values.len() == i,
            folded(entries@, read_value, f, values, accs),
            accs[0] == init,
            accs.last() == acc,
            forall|j: int|
                0 <= j < entries@.len() ==> can_fold(read_value, f, #[trigger] entries@[j]),
        decreases entries@.len() - i,
    {
        assert(can_fold(read_value, f, entries@[i as int]));
        match read_value(entries[i].1) {
            Ok(value) => {
                acc = f(&entries[i].0, &value, acc);
                proof {
                    values = values.push(value);
                    accs = accs.push(acc);
                }
            },
            Err(e) => {
                assert(folded(entries@, read_value, f, values, accs));
                return Err(Error::from(e));
            },
        }
        i += 1;
    }
    Ok(acc)
}

impl Engine {
    /// Folds `f` over every key and its value, in no particular order.
    pub fn fold<
        A,
        R: Fn(KeydirEntry) -> Result<Vec<u8>, std::io::Error>,
        F: Fn(&Vec<u8>, &Vec<u8>, A) -> A,
    >(&self, read_value: R, f: F, init: A) -> (result: Result<A, Error>)
        requires
            forall|key: Vec<u8>|
                self@.keydir.contains_key(key@) ==> #[trigger] can_fold(
                    read_value,
                    f,
                    (key, self@.keydir[key@]),
                ),
        ensures
            exists|entries: Seq<(Vec<u8>, KeydirEntry)>|
                crate::keydir::lists(crate::keydir::snapshot_view(entries), self@.keydir)
                    && #[trigger] is_fold(entries, read_value, f, init, result),
    {
        let entries = self.snapshot();
        proof {
            let listed = crate::keydir::snapshot_view(entries@);
            assert forall|i: int| 0 <= i < entries@.len() implies can_fold(
                read_value,
                f,
                #[trigger] entries@[i],
            ) by {
                assert(self@.keydir[listed[i].0] == listed[i].1);
                assert(can_fold(read_value, f, (entries@[i].0, self@.keydir[entries@[i].0@])));
            }
        }
        fold_snapshot(entries.as_slice(), read_value, f, init)
    }

    /// Starts a merge, given the ids of all data files in ascending order. `None` means that
    /// there is nothing to merge. `existing` has the lengths of data files: an output file whose
    /// id is among them is appended to.
    pub fn begin_merge(
        &mut self,
        file_ids: &[u32],
        existing: Vec<(u32, u64)>,
        steps: &mut Vec<MergeStep>,
    ) -> (merge: Result<Option<Merge>, Error>)
        ensures
            !old(self)@.is_read_write || old(self)@.active is None ==> merge == Err::<
                Option<Merge>,
                Error,
            >(Error::ReadOnly) && final(self)@ == old(self)@ && final(steps)@ == old(steps)@,
            old(self)@.is_read_write && old(self)@.active is Some ==> merge is Ok
                && match merge_begun(old(self)@, file_ids@, existing@) {
                None => merge->Ok_0 is None && final(self)@ == old(self)@ && final(steps)@ == old(
                    steps,
                )@,
                Some(c) => merge->Ok_0 is Some && merge->Ok_0->0@ == c.merge && final(self)@ == (
                EngineView { next_file_id: c.next_file_id, ..old(self)@ })
                    && crate::merge::output_writer::steps_view(final(steps)@)
                    == crate::merge::output_writer::steps_view(old(steps)@) + c.steps,
            },
    {
        match self.require_write() {
            Ok(_) => {},
            Err(error) => {
                return Err(error);
            },
        }
        let active_id = match &self.active {
            None => {
                return Err(Error::ReadOnly);
            },
            Some(active) => active.file_id(),
        };
        let ghost before = crate::merge::output_writer::steps_view(steps@);
        let merge = Merge::begin(
            file_ids,
            active_id,
            self.opts.max_file_size,
            existing,
            &mut self.ids,
            steps,
        );
        assert(merge is Some ==> crate::merge::output_writer::steps_view(steps@) =~= before + seq![
            crate::merge::output_writer::MergeStepView::Create { file_id: old(self)@.next_file_id },
        ]);
        Ok(merge)
    }

    /// Copies the live entries of the next input file of a merge.
    pub fn copy_file(
        &mut self,
        merge: Merge,
        file_id: u32,
        bytes: &[u8],
        steps: &mut Vec<MergeStep>,
    ) -> (copied: (Merge, CopyReport))
        requires
            merge@.copied < merge@.inputs.len(),
            file_id == merge@.inputs[merge@.copied as int],
            merge@.output.data.offset + bytes@.len() <= u64::MAX,
            crate::merge::output_writer::existing_have_room(
                merge@.output.existing,
                bytes@.len(),
            ),
        ensures
            ({
                let entries = crate::scan::scan_entries(bytes@, 0);
                let c = crate::merge::copy_entries(
                    crate::merge::Copying {
                        merge: merge@,
                        next_file_id: old(self)@.next_file_id,
                        steps: crate::merge::output_writer::steps_view(old(steps)@),
                    },
                    old(self)@.keydir,
                    file_id,
                    entries,
                );
                &&& copied.0@ == crate::merge::file_copied(c.merge)
                &&& final(self)@ == (EngineView { next_file_id: c.next_file_id, ..old(self)@ })
                &&& crate::merge::output_writer::steps_view(final(steps)@) == c.steps
                &&& copied.1.live_entries == crate::merge::count_live(
                    old(self)@.keydir,
                    file_id,
                    entries,
                )
                &&& copied.1.issues@ == crate::scan::scan_issues(bytes@, 0, false)
            }),
    {
        let (merge, report, ids) = self.plan_copy(merge, file_id, bytes, steps);
        self.take_ids(ids);
        (merge, report)
    }

    /// Does what [`Engine::copy_file`] does, but for taking the ids of the output files: those are
    /// to be taken before anyone else takes one. Readers need not wait meanwhile.
    pub fn plan_copy(
        &self,
        merge: Merge,
        file_id: u32,
        bytes: &[u8],
        steps: &mut Vec<MergeStep>,
    ) -> (copied: (Merge, CopyReport, PlannedIds))
        requires
            merge@.copied < merge@.inputs.len(),
            file_id == merge@.inputs[merge@.copied as int],
            merge@.output.data.offset + bytes@.len() <= u64::MAX,
            crate::merge::output_writer::existing_have_room(
                merge@.output.existing,
                bytes@.len(),
            ),
        ensures
            ({
                let entries = crate::scan::scan_entries(bytes@, 0);
                let c = crate::merge::copy_entries(
                    crate::merge::Copying {
                        merge: merge@,
                        next_file_id: self@.next_file_id,
                        steps: crate::merge::output_writer::steps_view(old(steps)@),
                    },
                    self@.keydir,
                    file_id,
                    entries,
                );
                &&& copied.0@ == crate::merge::file_copied(c.merge)
                &&& copied.2@ == (self@.next_file_id, c.next_file_id)
                &&& crate::merge::output_writer::steps_view(final(steps)@) == c.steps
                &&& copied.1.live_entries == crate::merge::count_live(
                    self@.keydir,
                    file_id,
                    entries,
                )
                &&& copied.1.issues@ == crate::scan::scan_issues(bytes@, 0, false)
            }),
    {
        let mut ids = FileIdCounter::new(self.ids.peek());
        let (merge, report) = merge.copy_file(file_id, bytes, &self.keydir, &mut ids, steps);
        (merge, report, PlannedIds { from: Ghost(self@.next_file_id), ids })
    }

    /// Takes the ids of output files that were planned for.
    pub fn take_ids(&mut self, planned: PlannedIds)
        requires
            old(self)@.next_file_id == planned@.0,
        ensures
            final(self)@ == (EngineView { next_file_id: planned@.1, ..old(self)@ }),
    {
        self.ids = planned.ids;
    }

    /// Repoints keys to their copies, as a step of a merge.
    pub fn apply_repoints(&mut self, items: &[(Vec<u8>, KeydirEntry, KeydirEntry)])
        ensures
            final(self)@ == (EngineView {
                keydir: crate::merge::repoint_all(
                    old(self)@.keydir,
                    crate::merge::pending_queue::repoints_view(items@),
                ),
                ..old(self)@
            }),
    {
        apply_pending_repoints(&mut self.keydir, items);
    }

    /// Whether the active file must be rotated at the end of a merge, so that it has the highest
    /// id of all again.
    pub fn is_behind(&self, highest_output_id: u32) -> (behind: bool)
        ensures
            behind == (self@.active is Some && self@.active->0.file_id <= highest_output_id),
    {
        match &self.active {
            Some(active) => active.file_id() <= highest_output_id,
            None => false,
        }
    }
}

/// The state of a merge that has just begun, or `None` if there is nothing to merge.
pub open spec fn merge_begun(
    state: EngineView,
    file_ids: Seq<u32>,
    existing: Seq<(u32, u64)>,
) -> Option<crate::merge::Copying> {
    let inputs = crate::merge::input_ids(file_ids, state.active->0.file_id);
    if inputs.len() == 0 {
        None
    } else {
        Some(
            crate::merge::Copying {
                merge: crate::merge::MergeView {
                    inputs,
                    copied: 0,
                    output: crate::merge::output_writer::fresh_output(
                        state.next_file_id,
                        state.max_file_size,
                        existing,
                    ),
                    pending: Seq::empty(),
                    highest_output_id: state.next_file_id,
                },
                next_file_id: crate::datafile::id_after(state.next_file_id),
                steps: seq![
                    crate::merge::output_writer::MergeStepView::Create {
                        file_id: state.next_file_id,
                    },
                ],
            },
        )
    }
}

} // verus!
