//! That any run of operations on a datastore does what it would do on a plain map.
use vstd::prelude::*;

use crate::api::Options;
use crate::commit::CommitView;
use crate::datafile::ActiveView;
use crate::engine::operations::BegunView;
use crate::engine::EngineView;
use crate::error::Error;
use crate::format::{EncodedEntry, HEADER_SIZE, MAX_KEY_LEN};
use crate::keydir::{KeydirEntry, KeydirView};
use crate::merge::compaction::{Base, World};
use crate::merge::{Copying, MergeView};
use crate::recovery::FileImage;
use crate::store::DiskFile;

verus! {

/// An engine and the disk that it works on.
#[verifier::ext_equal]
pub struct Datastore {
    pub state: EngineView,
    pub disk: Seq<DiskFile>,
}

/// An operation on a datastore that changes something.
pub enum Operation {
    Put { key: Seq<u8>, value: Seq<u8>, timestamp: u32 },
    Delete { key: Seq<u8>, timestamp: u32 },
    /// The datastore is opened anew, whether it was closed before or not.
    Reopen,
    Merge,
}

/// The datastore after its active file was rotated, if that is full.
pub open spec fn rotated_if_full(d: Datastore) -> Datastore {
    if d.state.active->0.offset >= d.state.max_file_size {
        Datastore {
            state: crate::store::after_rotation(d.state),
            disk: d.disk.push(crate::store::new_file(d.state.next_file_id)),
        }
    } else {
        d
    }
}

/// The state of an engine that was opened for writing on the given disk.
pub open spec fn opened_state(disk: Seq<DiskFile>, opts: EngineView) -> EngineView {
    let first = crate::engine::first_active_id(crate::store::file_ids(disk));
    EngineView {
        keydir: crate::store::recovered(disk),
        active: Some(ActiveView { file_id: first, offset: 0 }),
        next_file_id: (first + 1) as u32,
        commits: CommitView { pending: 0, durable: 0, syncing: false, fsync_calls: 0 },
        ..opts
    }
}

/// The datastore after a merge that nothing interfered with. Where there is no file but the active
/// one, there is nothing to merge.
pub open spec fn merged(d: Datastore) -> Datastore {
    let Datastore { state, disk } = d;
    match crate::merge::outcome::merge_start(state, disk) {
        None => d,
        Some(begun) => {
            let base = Base { disk, keydir: state.keydir };
            let start = crate::merge::compaction::run_steps(
                World { disk, keydir: state.keydir },
                begun.steps,
            );
            let (copied, c) = crate::merge::outcome::copy_files(
                base,
                start,
                begun,
                (disk.len() - 1) as nat,
            );
            let end = crate::merge::compaction::run_steps(
                copied,
                crate::merge::final_steps(c.merge),
            );
            let ended = EngineView { keydir: end.keydir, next_file_id: c.next_file_id, ..state };
            Datastore {
                state: crate::store::after_rotation(ended),
                disk: end.disk.push(crate::store::new_file(c.next_file_id)),
            }
        },
    }
}

/// The datastore after an operation. What was committed is left aside.
pub open spec fn done(d: Datastore, op: Operation) -> Datastore {
    match op {
        Operation::Put { key, value, timestamp } => rotated_if_full(
            Datastore {
                state: crate::store::after_put(d.state, key, value, timestamp),
                disk: crate::store::with_appended(d.disk, key, value, false, timestamp),
            },
        ),
        Operation::Delete { key, timestamp } => if d.state.keydir.contains_key(key) {
            rotated_if_full(
                Datastore {
                    state: crate::store::after_delete(d.state, key, timestamp),
                    disk: crate::store::with_appended(
                        d.disk,
                        key,
                        Seq::empty(),
                        true,
                        timestamp,
                    ),
                },
            )
        } else {
            d
        },
        Operation::Reopen => Datastore {
            state: opened_state(d.disk, d.state),
            disk: crate::store::opened_disk(d.disk, true),
        },
        Operation::Merge => merged(d),
    }
}

/// Whether the operation is within the limits of the format: of key and value lengths, file
/// offsets and file ids.
pub open spec fn fits(d: Datastore, op: Operation) -> bool {
    let Datastore { state, disk } = d;
    match op {
        Operation::Put { key, value, .. } => {
            &&& 0 < key.len() <= MAX_KEY_LEN
            &&& value.len() <= u32::MAX
            &&& state.active->0.offset + HEADER_SIZE + key.len() + value.len() <= u64::MAX
            &&& state.next_file_id < u32::MAX
        },
        Operation::Delete { key, .. } => {
            &&& 0 < key.len() <= MAX_KEY_LEN
            &&& state.active->0.offset + HEADER_SIZE + key.len() <= u64::MAX
            &&& state.next_file_id < u32::MAX
        },
        Operation::Reopen => disk.last().file_id < u32::MAX - 1,
        Operation::Merge => disk.len() >= 2 ==> crate::merge::outcome::merge_has_room(state, disk),
    }
}

/// What the operation does to a plain map.
pub open spec fn on_map(map: Map<Seq<u8>, Seq<u8>>, op: Operation) -> Map<Seq<u8>, Seq<u8>> {
    match op {
        Operation::Put { key, value, .. } => map.insert(key, value),
        Operation::Delete { key, .. } => map.remove(key),
        Operation::Reopen => map,
        Operation::Merge => map,
    }
}

/// The datastore after a run of operations.
pub open spec fn done_all(d: Datastore, ops: Seq<Operation>) -> Datastore
    decreases ops.len(),
{
    if ops.len() == 0 {
        d
    } else {
        done(done_all(d, ops.drop_last()), ops.last())
    }
}

/// Whether every operation of a run is within the limits when its turn comes.
pub open spec fn all_fit(d: Datastore, ops: Seq<Operation>) -> bool
    decreases ops.len(),
{
    ops.len() > 0 ==> all_fit(d, ops.drop_last()) && fits(
        done_all(d, ops.drop_last()),
        ops.last(),
    )
}

/// What a run of operations does to a plain map.
pub open spec fn on_map_all(map: Map<Seq<u8>, Seq<u8>>, ops: Seq<Operation>) -> Map<
    Seq<u8>,
    Seq<u8>,
>
    decreases ops.len(),
{
    if ops.len() == 0 {
        map
    } else {
        on_map(on_map_all(map, ops.drop_last()), ops.last())
    }
}

/// What a datastore holds.
pub open spec fn contents_of(d: Datastore) -> Map<Seq<u8>, Seq<u8>> {
    crate::store::contents(d.disk, d.state.keydir)
}

/// Whether a datastore is open for writing, and its engine and disk are in step.
pub open spec fn is_open(d: Datastore) -> bool {
    crate::store::in_step(d.state, d.disk) && d.state.is_read_write
}

proof fn lemma_rotated_if_full(d: Datastore)
    requires
        is_open(d),
        d.state.next_file_id < u32::MAX,
    ensures
        is_open(rotated_if_full(d)),
        contents_of(rotated_if_full(d)) == contents_of(d),
{
    crate::store::law_rotation_keeps_contents(d.state, d.disk);
}

/// A merge with no file but the active one has no inputs, and with others it has.
proof fn lemma_merge_begins(d: Datastore)
    requires
        is_open(d),
    ensures
        crate::merge::outcome::merge_start(d.state, d.disk) is Some <==> d.disk.len() >= 2,
{
    crate::merge::outcome::lemma_inputs(d.disk);
}

/// One operation does to what a datastore holds what it does to a plain map.
proof fn lemma_operation(d: Datastore, op: Operation)
    requires
        is_open(d),
        fits(d, op),
    ensures
        is_open(done(d, op)),
        contents_of(done(d, op)) == on_map(contents_of(d), op),
{
    match op {
        Operation::Put { key, value, timestamp } => {
            crate::store::law_put_stores_the_value(d.state, d.disk, key, value, timestamp);
            lemma_rotated_if_full(
                Datastore {
                    state: crate::store::after_put(d.state, key, value, timestamp),
                    disk: crate::store::with_appended(d.disk, key, value, false, timestamp),
                },
            );
        },
        Operation::Delete { key, timestamp } => {
            if d.state.keydir.contains_key(key) {
                crate::store::law_delete_removes_the_key(d.state, d.disk, key, timestamp);
                lemma_rotated_if_full(
                    Datastore {
                        state: crate::store::after_delete(d.state, key, timestamp),
                        disk: crate::store::with_appended(
                            d.disk,
                            key,
                            Seq::empty(),
                            true,
                            timestamp,
                        ),
                    },
                );
            } else {
                assert(contents_of(d).remove(key) =~= contents_of(d));
            }
        },
        Operation::Reopen => {
            crate::store::law_reopen_recovers_everything(
                d.disk,
                d.state.keydir,
                opened_state(d.disk, d.state),
            );
        },
        Operation::Merge => {
            lemma_merge_begins(d);
            if d.disk.len() >= 2 {
                crate::merge::outcome::law_a_merge_keeps_the_contents(d.state, d.disk);
            }
        },
    }
}

/// Any run of puts, deletes, reopens and merges leaves a datastore with what the puts and deletes
/// would leave in a plain map. Left out are only operations beyond the limits of the format.
pub proof fn law_a_datastore_is_a_map(d: Datastore, ops: Seq<Operation>)
    requires
        is_open(d),
        all_fit(d, ops),
    ensures
        is_open(done_all(d, ops)),
        contents_of(done_all(d, ops)) == on_map_all(contents_of(d), ops),
    decreases ops.len(),
{
    if ops.len() > 0 {
        law_a_datastore_is_a_map(d, ops.drop_last());
        lemma_operation(done_all(d, ops.drop_last()), ops.last());
    }
}

/// A datastore opened for writing in an empty directory holds nothing.
pub proof fn law_a_new_datastore_is_empty(opts: EngineView)
    requires
        opts.is_read_write,
    ensures
        ({
            let none = Seq::<DiskFile>::empty();
            let d = Datastore {
                state: opened_state(none, opts),
                disk: crate::store::opened_disk(none, true),
            };
            &&& is_open(d)
            &&& contents_of(d) == Map::<Seq<u8>, Seq<u8>>::empty()
        }),
{
    let none = Seq::<DiskFile>::empty();
    let keydir = crate::store::recovered(none);
    assert(crate::store::images(none) =~= Seq::empty());
    assert(crate::recovery::disk_events(crate::store::images(none)) =~= Seq::empty());
    assert(keydir == KeydirView::empty());
    crate::store::law_reopen_recovers_everything(none, keydir, opened_state(none, opts));
    assert(crate::store::contents(none, keydir) =~= Map::empty());
}

/// A `put` of the engine that succeeds, on files that are new when they are created, is the one
/// that [`done`] describes. What was committed is left aside.
pub proof fn law_put_is_as_described<
    T,
    U,
    W: FnOnce(u32, &EncodedEntry) -> Result<T, std::io::Error>,
    S: FnOnce(u32, T) -> Result<U, std::io::Error>,
    C: FnOnce(u32, U) -> Result<u64, std::io::Error>,
>(
    d: Datastore,
    after: EngineView,
    key: Seq<u8>,
    value: Seq<u8>,
    timestamp: u32,
    write: W,
    sync: S,
    create: C,
)
    requires
        is_open(d),
        fits(d, (Operation::Put { key, value, timestamp })),
        forall|file_id: u32, synced: U, len: u64| #[trigger]
            call_ensures(create, (file_id, synced), Ok(len)) ==> len == 0,
        crate::engine::operations::is_durable_write(
            d.state,
            EngineView { keydir: d.state.keydir, ..after },
            crate::format::entry::entry_bytes(key, value, false, timestamp),
            write,
            sync,
            create,
            Ok(()),
        ),
        after.keydir == crate::store::after_put(d.state, key, value, timestamp).keydir,
    ensures
        ({
            let described = done(d, Operation::Put { key, value, timestamp }).state;
            after == EngineView { commits: after.commits, ..described }
        }),
{
    let described = done(d, Operation::Put { key, value, timestamp }).state;
    assert(after =~= EngineView { commits: after.commits, ..described });
}

/// A `delete` of the engine that succeeds, on files that are new when they are created, is the one
/// that [`done`] describes. What was committed is left aside.
pub proof fn law_delete_is_as_described<
    T,
    U,
    W: FnOnce(u32, &EncodedEntry) -> Result<T, std::io::Error>,
    S: FnOnce(u32, T) -> Result<U, std::io::Error>,
    C: FnOnce(u32, U) -> Result<u64, std::io::Error>,
>(
    d: Datastore,
    after: EngineView,
    key: Seq<u8>,
    timestamp: u32,
    write: W,
    sync: S,
    create: C,
)
    requires
        is_open(d),
        fits(d, (Operation::Delete { key, timestamp })),
        d.state.keydir.contains_key(key),
        forall|file_id: u32, synced: U, len: u64| #[trigger]
            call_ensures(create, (file_id, synced), Ok(len)) ==> len == 0,
        crate::engine::operations::is_durable_write(
            d.state,
            EngineView { keydir: d.state.keydir, ..after },
            crate::format::entry::entry_bytes(key, Seq::empty(), true, timestamp),
            write,
            sync,
            create,
            Ok(()),
        ),
        after.keydir == d.state.keydir.remove(key),
    ensures
        ({
            let described = done(d, Operation::Delete { key, timestamp }).state;
            after == EngineView { commits: after.commits, ..described }
        }),
{
    let described = done(d, Operation::Delete { key, timestamp }).state;
    assert(after =~= EngineView { commits: after.commits, ..described });
}

/// The datastore after the steps of a write, where nothing interfered: the entry was appended to
/// its file, which was rotated if it was full then, commits went on as they may, and the write was
/// published.
pub open spec fn stepped(d: Datastore, begun: BegunView, commits: CommitView) -> Datastore {
    let appended = crate::engine::after_append(d.state, begun.bytes.len());
    let last = d.disk.last();
    let longer = d.disk.drop_last().push(DiskFile { data: last.data + begun.bytes, ..last });
    let (state, disk) = if crate::engine::operations::fills(d.state, begun.bytes.len()) {
        (
            crate::engine::after_finish_rotation(
                crate::engine::after_begin_rotation(appended),
                appended.next_file_id,
                0,
            ),
            longer.push(crate::store::new_file(appended.next_file_id)),
        )
    } else {
        (appended, longer)
    };
    Datastore {
        state: crate::engine::operations::after_publish(
            EngineView { commits, ..state },
            crate::engine::operations::written(d.state, begun),
        ),
        disk,
    }
}

/// A `put` that is done step by step, on files that are new when they are created, is the one that
/// [`done`] describes. What was committed is left aside.
pub proof fn law_begun_put_is_as_described(
    d: Datastore,
    key: Seq<u8>,
    value: Seq<u8>,
    timestamp: u32,
    commits: CommitView,
)
    requires
        is_open(d),
        fits(d, (Operation::Put { key, value, timestamp })),
    ensures
        ({
            let begun = crate::engine::operations::begun_put(d.state, key, value, timestamp);
            let after = stepped(d, begun, commits);
            let described = done(d, Operation::Put { key, value, timestamp });
            &&& begun.file_id == d.disk.last().file_id
            &&& after.state == EngineView { commits, ..described.state }
            &&& after.disk == described.disk
        }),
{
    let begun = crate::engine::operations::begun_put(d.state, key, value, timestamp);
    let described = done(d, Operation::Put { key, value, timestamp });
    assert(stepped(d, begun, commits).state =~= EngineView { commits, ..described.state });
}

/// A `delete` of a key that is there, done step by step on files that are new when they are
/// created, is the one that [`done`] describes. What was committed is left aside.
pub proof fn law_begun_delete_is_as_described(
    d: Datastore,
    key: Seq<u8>,
    timestamp: u32,
    commits: CommitView,
)
    requires
        is_open(d),
        fits(d, (Operation::Delete { key, timestamp })),
        d.state.keydir.contains_key(key),
    ensures
        ({
            let begun = crate::engine::operations::begun_delete(d.state, key, timestamp);
            let after = stepped(d, begun, commits);
            let described = done(d, Operation::Delete { key, timestamp });
            &&& begun.file_id == d.disk.last().file_id
            &&& after.state == EngineView { commits, ..described.state }
            &&& after.disk == described.disk
        }),
{
    let begun = crate::engine::operations::begun_delete(d.state, key, timestamp);
    let described = done(d, Operation::Delete { key, timestamp });
    assert(stepped(d, begun, commits).state =~= EngineView { commits, ..described.state });
}

/// A merge as the engine is driven through it: the engine, the disk and the merge after it was
/// begun, and after each input file in turn was copied and the steps of that were carried out.
pub struct MergeRun {
    pub states: Seq<EngineView>,
    pub disks: Seq<Seq<DiskFile>>,
    pub merges: Seq<MergeView>,
}

/// The engine and the disk at a point of a run.
pub open spec fn world_at(run: MergeRun, i: int) -> World {
    World { disk: run.disks[i], keydir: run.states[i].keydir }
}

/// What [`Engine::copy_file`](crate::Engine::copy_file) does at a point of a run.
pub open spec fn copied_at(d: Datastore, run: MergeRun, i: int) -> Copying {
    crate::merge::copy_entries(
        Copying {
            merge: run.merges[i],
            next_file_id: run.states[i].next_file_id,
            steps: Seq::empty(),
        },
        run.states[i].keydir,
        d.disk[i].file_id,
        crate::scan::scan_entries(d.disk[i].data, 0),
    )
}

/// Whether the run begins as [`Engine::begin_merge`](crate::Engine::begin_merge) does, which is
/// told the lengths of all files, with its steps carried out.
pub open spec fn run_begins(d: Datastore, run: MergeRun) -> bool {
    let begun = crate::merge::outcome::merge_start(d.state, d.disk)->0;
    &&& run.merges[0] == begun.merge
    &&& run.states[0] == (EngineView { next_file_id: begun.next_file_id, ..d.state })
    &&& world_at(run, 0) == crate::merge::compaction::run_steps(
        World { disk: d.disk, keydir: d.state.keydir },
        begun.steps,
    )
}

/// Whether the run copies the next input file and carries out the steps of that. The engine is
/// changed by [`Engine::copy_file`](crate::Engine::copy_file), and by
/// [`Engine::apply_repoints`](crate::Engine::apply_repoints) where a step asks for it.
pub open spec fn run_goes_on(d: Datastore, run: MergeRun, i: int) -> bool {
    let c = copied_at(d, run, i);
    let world = crate::merge::compaction::run_steps(world_at(run, i), c.steps);
    &&& run.merges[i + 1] == crate::merge::file_copied(c.merge)
    &&& run.states[i + 1] == (EngineView {
        next_file_id: c.next_file_id,
        keydir: world.keydir,
        ..run.states[i]
    })
    &&& run.disks[i + 1] == world.disk
}

/// Whether this is a run over all input files.
pub open spec fn is_merge_run(d: Datastore, run: MergeRun) -> bool {
    &&& run.states.len() == d.disk.len()
    &&& run.disks.len() == d.disk.len()
    &&& run.merges.len() == d.disk.len()
    &&& run_begins(d, run)
    &&& forall|i: int| 0 <= i < d.disk.len() - 1 ==> #[trigger] run_goes_on(d, run, i)
}

/// A run comes to what copying the input files comes to.
proof fn lemma_run_copies(d: Datastore, run: MergeRun, count: nat)
    requires
        is_merge_run(d, run),
        count < d.disk.len(),
    ensures
        ({
            let begun = crate::merge::outcome::merge_start(d.state, d.disk)->0;
            let (reached, c) = crate::merge::outcome::copy_files(
                Base { disk: d.disk, keydir: d.state.keydir },
                world_at(run, 0),
                begun,
                count,
            );
            let state = run.states[count as int];
            &&& reached == world_at(run, count as int)
            &&& c.merge == run.merges[count as int]
            &&& c.next_file_id == state.next_file_id
            &&& state == (EngineView {
                keydir: reached.keydir,
                next_file_id: c.next_file_id,
                ..d.state
            })
        }),
    decreases count,
{
    if count > 0 {
        let i = count - 1;
        lemma_run_copies(d, run, i as nat);
        assert(run_goes_on(d, run, i));
        let begun = crate::merge::outcome::merge_start(d.state, d.disk)->0;
        let (_, before) = crate::merge::outcome::copy_files(
            Base { disk: d.disk, keydir: d.state.keydir },
            world_at(run, 0),
            begun,
            i as nat,
        );
        assert((Copying { steps: Seq::empty(), ..before }) =~= Copying {
            merge: run.merges[i],
            next_file_id: run.states[i].next_file_id,
            steps: Seq::empty(),
        });
    }
}

/// The engine after a merge was finished and the steps of that were carried out.
pub open spec fn run_ended(d: Datastore, run: MergeRun) -> EngineView {
    let last = d.disk.len() - 1;
    EngineView {
        keydir: crate::merge::compaction::run_steps(
            world_at(run, last),
            crate::merge::final_steps(run.merges[last]),
        ).keydir,
        ..run.states[last]
    }
}

/// A merge that the engine is driven through is the one that [`done`] describes: it is begun, each
/// input file in turn is copied and the steps of that are carried out, it is finished and those
/// steps are carried out, and then the active file is rotated step by step, which the engine asks
/// for, with a file that is new.
pub proof fn law_merge_in_steps_is_as_described(d: Datastore, run: MergeRun)
    requires
        is_open(d),
        d.disk.len() >= 2,
        fits(d, Operation::Merge),
        is_merge_run(d, run),
    ensures
        ({
            let last = d.disk.len() - 1;
            let merge = run.merges[last];
            let ended = run_ended(d, run);
            let rotated = crate::engine::after_finish_rotation(
                crate::engine::after_begin_rotation(ended),
                ended.next_file_id,
                0,
            );
            let end = crate::merge::compaction::run_steps(
                world_at(run, last),
                crate::merge::final_steps(merge),
            );
            let described = done(d, Operation::Merge);
            &&& merge.copied == merge.inputs.len()
            &&& ended.active->0.file_id <= merge.highest_output_id
            &&& rotated == described.state
            &&& end.disk.push(crate::store::new_file(ended.next_file_id)) == described.disk
        }),
{
    let last = d.disk.len() - 1;
    let base = Base { disk: d.disk, keydir: d.state.keydir };
    let begun = crate::merge::outcome::merge_start(d.state, d.disk)->0;
    let ended = run_ended(d, run);
    lemma_merge_begins(d);
    lemma_run_copies(d, run, last as nat);
    crate::merge::outcome::law_a_merge_begins_with_all_closed_files(d.state, d.disk);
    crate::merge::outcome::lemma_copy_files(base, world_at(run, 0), begun, last as nat);
    crate::merge::outcome::law_the_end_of_a_merge_loses_nothing(
        base,
        world_at(run, last),
        run.merges[last],
        ended.next_file_id,
        ended,
    );
}

/// The same holds where the rotation at the end is done as a whole. What was committed is left
/// aside.
pub proof fn law_merge_is_as_described<
    T,
    U,
    S: FnOnce(u32, T) -> Result<U, std::io::Error>,
    C: FnOnce(u32, U) -> Result<u64, std::io::Error>,
>(d: Datastore, run: MergeRun, after: EngineView, receipt: T, sync: S, create: C)
    requires
        is_open(d),
        d.disk.len() >= 2,
        fits(d, Operation::Merge),
        is_merge_run(d, run),
        forall|file_id: u32, synced: U, len: u64| #[trigger]
            call_ensures(create, (file_id, synced), Ok(len)) ==> len == 0,
        crate::engine::operations::is_rotation(
            run_ended(d, run),
            after,
            receipt,
            sync,
            create,
            Ok(()),
        ),
    ensures
        after == (EngineView { commits: after.commits, ..done(d, Operation::Merge).state }),
{
    law_merge_in_steps_is_as_described(d, run);
}

/// Whether the readers give nothing but what is on the disk.
pub open spec fn reads_disk<
    H: Fn(u32) -> Result<Option<(Vec<u8>, u64)>, std::io::Error>,
    D: Fn(u32) -> Result<Vec<u8>, std::io::Error>,
>(read_hint_file: H, read_data_file: D, disk: Seq<DiskFile>) -> bool {
    &&& forall|i: int, hint: Option<(Vec<u8>, u64)>|
        0 <= i < disk.len() && #[trigger] crate::recovery::hint_was_read(
            read_hint_file,
            (#[trigger] disk[i]).file_id,
            hint,
        ) ==> crate::recovery::hint_view(hint) == crate::store::image_of(disk[i]).hint
    &&& forall|i: int, data: Vec<u8>|
        0 <= i < disk.len() && #[trigger] crate::recovery::data_was_read(
            read_data_file,
            (#[trigger] disk[i]).file_id,
            data,
        ) ==> data@ == disk[i].data
}

/// What was read of files by such readers makes the changes that the files make.
proof fn lemma_read_events<
    H: Fn(u32) -> Result<Option<(Vec<u8>, u64)>, std::io::Error>,
    D: Fn(u32) -> Result<Vec<u8>, std::io::Error>,
>(read_hint_file: H, read_data_file: D, disk: Seq<DiskFile>, read: Seq<FileImage>, n: int)
    requires
        reads_disk(read_hint_file, read_data_file, disk),
        crate::recovery::all_read(
            read_hint_file,
            read_data_file,
            crate::store::file_ids(disk),
            read,
        ),
        0 <= n <= read.len(),
    ensures
        crate::recovery::disk_events(read.take(n)) == crate::recovery::disk_events(
            crate::store::images(disk).take(n),
        ),
    decreases n,
{
    let images = crate::store::images(disk);
    if n > 0 {
        let i = n - 1;
        lemma_read_events(read_hint_file, read_data_file, disk, read, i);
        assert(read.take(n).drop_last() =~= read.take(i));
        assert(images.take(n).drop_last() =~= images.take(i));
        let image = read[i];
        assert(image.file_id == disk[i].file_id);
        let hint = choose|hint: Option<(Vec<u8>, u64)>| #[trigger]
            crate::recovery::hint_was_read(read_hint_file, image.file_id, hint)
                && crate::recovery::hint_view(hint) == image.hint;
        assert(image.hint == images[i].hint);
        if crate::recovery::trusted_hints(image.hint) is None {
            let data = choose|data: Vec<u8>| #[trigger]
                crate::recovery::data_was_read(read_data_file, image.file_id, data) && data@
                    == image.data;
            assert(image.data == images[i].data);
        }
    } else {
        assert(read.take(0) =~= Seq::empty());
        assert(images.take(0) =~= Seq::empty());
    }
}

/// Recovery that succeeds, of all files on a disk and from an empty index, gives the index that
/// the disk is said to give. The disk may be any, a damaged one too.
pub proof fn law_recovery_is_as_described<
    H: Fn(u32) -> Result<Option<(Vec<u8>, u64)>, std::io::Error>,
    D: Fn(u32) -> Result<Vec<u8>, std::io::Error>,
>(disk: Seq<DiskFile>, keydir: KeydirView, read_hint_file: H, read_data_file: D)
    requires
        reads_disk(read_hint_file, read_data_file, disk),
        exists|read: Seq<FileImage>| #[trigger]
            crate::recovery::all_read(
                read_hint_file,
                read_data_file,
                crate::store::file_ids(disk),
                read,
            ) && read.len() == disk.len() && keydir == crate::recovery::apply_events(
                KeydirView::empty(),
                crate::recovery::disk_events(read),
            ),
    ensures
        keydir == crate::store::recovered(disk),
{
    let read = choose|read: Seq<FileImage>| #[trigger]
        crate::recovery::all_read(
            read_hint_file,
            read_data_file,
            crate::store::file_ids(disk),
            read,
        ) && read.len() == disk.len() && keydir == crate::recovery::apply_events(
            KeydirView::empty(),
            crate::recovery::disk_events(read),
        );
    lemma_read_events(read_hint_file, read_data_file, disk, read, read.len() as int);
    assert(read.take(read.len() as int) =~= read);
    assert(crate::store::images(disk).take(read.len() as int) =~= crate::store::images(disk));
}

/// A datastore that is opened anew, with an index that was recovered from its files and on a new
/// file to append to, holds what it held, and with the same options it is the one that [`done`]
/// describes. It may be opened with other options, for reading only too.
pub proof fn law_reopen_is_as_described<
    H: Fn(u32) -> Result<Option<(Vec<u8>, u64)>, std::io::Error>,
    D: Fn(u32) -> Result<Vec<u8>, std::io::Error>,
>(d: Datastore, keydir: KeydirView, opts: Options, read_hint_file: H, read_data_file: D)
    requires
        is_open(d),
        fits(d, Operation::Reopen),
        reads_disk(read_hint_file, read_data_file, d.disk),
        exists|read: Seq<FileImage>| #[trigger]
            crate::recovery::all_read(
                read_hint_file,
                read_data_file,
                crate::store::file_ids(d.disk),
                read,
            ) && read.len() == d.disk.len() && keydir == crate::recovery::apply_events(
                KeydirView::empty(),
                crate::recovery::disk_events(read),
            ),
    ensures
        ({
            let opened = crate::engine::opened(crate::store::file_ids(d.disk), keydir, opts, 0);
            let disk = crate::store::opened_disk(d.disk, opts.is_read_write);
            &&& crate::store::in_step(opened, disk)
            &&& crate::store::contents(disk, opened.keydir) == contents_of(d)
            &&& opts.is_read_write && opts.should_sync_on_put == d.state.should_sync_on_put
                && opts.max_file_size == d.state.max_file_size ==> Datastore {
                state: opened,
                disk,
            } == done(d, Operation::Reopen)
        }),
{
    let opened = crate::engine::opened(crate::store::file_ids(d.disk), keydir, opts, 0);
    law_recovery_is_as_described(d.disk, keydir, read_hint_file, read_data_file);
    assert(crate::store::file_ids(d.disk).last() == d.disk.last().file_id);
    crate::store::law_reopen_recovers_everything(d.disk, d.state.keydir, opened);
    assert(opened.active is Some == opts.is_read_write);
    if opts.is_read_write {
        let described = opened_state(d.disk, d.state);
        assert(opened.keydir == described.keydir);
    }
}

/// Whether a reader of values gives nothing but what stands at a place on the disk.
pub open spec fn reads_value<R: Fn(KeydirEntry) -> Result<Vec<u8>, std::io::Error>>(
    read_value: R,
    disk: Seq<DiskFile>,
    entry: KeydirEntry,
) -> bool {
    forall|bytes: Vec<u8>| #[trigger]
        call_ensures(read_value, (entry,), Ok(bytes)) ==> bytes@ == crate::store::value_at(
            disk,
            entry,
        )
}

/// A `get` gives what the datastore holds: the value of a key that is there, and `None` for one
/// that is not. It fails only where reading the value of a key that is there fails.
pub proof fn law_get_reads_the_map<R: Fn(KeydirEntry) -> Result<Vec<u8>, std::io::Error>>(
    d: Datastore,
    key: Seq<u8>,
    read_value: R,
    value: Result<Option<Vec<u8>>, Error>,
)
    requires
        crate::store::in_step(d.state, d.disk),
        d.state.keydir.contains_key(key) ==> reads_value(read_value, d.disk, d.state.keydir[key]),
        crate::engine::is_value_at(
            crate::keydir::lookup(d.state.keydir, key),
            read_value,
            value,
        ),
    ensures
        match value {
            Ok(Some(bytes)) => contents_of(d).contains_key(key) && bytes@ == contents_of(d)[key],
            Ok(None) => !contents_of(d).contains_key(key),
            Err(error) => contents_of(d).contains_key(key) && error is Io && call_ensures(
                read_value,
                (d.state.keydir[key],),
                Err(error->Io_0),
            ),
        },
{
    crate::store::law_located_values_can_be_read(d.state, d.disk, key);
}

/// After any run of puts, deletes, reopens and merges, a `get` gives what a plain map would give.
pub proof fn law_get_answers_as_a_map<R: Fn(KeydirEntry) -> Result<Vec<u8>, std::io::Error>>(
    d: Datastore,
    ops: Seq<Operation>,
    key: Seq<u8>,
    read_value: R,
    value: Result<Option<Vec<u8>>, Error>,
)
    requires
        is_open(d),
        all_fit(d, ops),
        ({
            let after = done_all(d, ops);
            &&& after.state.keydir.contains_key(key) ==> reads_value(
                read_value,
                after.disk,
                after.state.keydir[key],
            )
            &&& crate::engine::is_value_at(
                crate::keydir::lookup(after.state.keydir, key),
                read_value,
                value,
            )
        }),
        value is Ok,
    ensures
        ({
            let map = on_map_all(contents_of(d), ops);
            match value->Ok_0 {
                Some(bytes) => map.contains_key(key) && bytes@ == map[key],
                None => !map.contains_key(key),
            }
        }),
{
    law_a_datastore_is_a_map(d, ops);
    law_get_reads_the_map(done_all(d, ops), key, read_value, value);
}

/// A fold that succeeds visits what the datastore holds: every key once, with its value.
pub proof fn law_fold_visits_the_map<
    A,
    R: Fn(KeydirEntry) -> Result<Vec<u8>, std::io::Error>,
    F: Fn(&Vec<u8>, &Vec<u8>, A) -> A,
>(
    d: Datastore,
    entries: Seq<(Vec<u8>, KeydirEntry)>,
    read_value: R,
    f: F,
    values: Seq<Vec<u8>>,
    accs: Seq<A>,
)
    requires
        crate::store::in_step(d.state, d.disk),
        forall|i: int|
            0 <= i < entries.len() ==> reads_value(read_value, d.disk, (#[trigger] entries[i]).1),
        crate::keydir::lists(crate::keydir::snapshot_view(entries), d.state.keydir),
        crate::engine::folded(entries, read_value, f, values, accs),
        values.len() == entries.len(),
    ensures
        forall|i: int|
            0 <= i < entries.len() ==> contents_of(d).contains_key((#[trigger] entries[i]).0@)
                && values[i]@ == contents_of(d)[entries[i].0@],
        forall|key: Seq<u8>| #[trigger]
            contents_of(d).contains_key(key) ==> exists|i: int|
                0 <= i < entries.len() && (#[trigger] entries[i]).0@ == key,
        forall|i: int, j: int|
            0 <= i < j < entries.len() ==> (#[trigger] entries[i]).0@ != (
            #[trigger] entries[j]).0@,
{
    let listed = crate::keydir::snapshot_view(entries);
    assert forall|i: int| 0 <= i < entries.len() implies contents_of(d).contains_key(
        (#[trigger] entries[i]).0@,
    ) && values[i]@ == contents_of(d)[entries[i].0@] by {
        assert(d.state.keydir[listed[i].0] == listed[i].1);
        assert(reads_value(read_value, d.disk, entries[i].1));
        assert(call_ensures(read_value, (entries[i].1,), Ok(values[i])));
    }
    assert forall|key: Seq<u8>| #[trigger] contents_of(d).contains_key(key) implies exists|i: int|
        0 <= i < entries.len() && (#[trigger] entries[i]).0@ == key by {
        assert(d.state.keydir.contains_key(key));
        let i = choose|i: int| 0 <= i < listed.len() && (#[trigger] listed[i]).0 == key;
        assert(entries[i].0@ == key);
    }
    assert forall|i: int, j: int| 0 <= i < j < entries.len() implies (#[trigger] entries[i]).0@
        != (#[trigger] entries[j]).0@ by {
        assert(listed[i].0 != listed[j].0);
    }
}

} // verus!
