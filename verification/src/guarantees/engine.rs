//! Opening, reading and folding.
use vstd::prelude::*;

use crate::commit::CommitStep;
use crate::keydir::{Keydir, KeydirEntry};
use crate::{Engine, Error, Options};

verus! {

/// A datastore opens with the index that it is given, on a file above all that there are, with
/// nothing committed. For reading only there is no file to append to.
pub proof fn law_a_datastore_opens_on_a_new_file(
    file_ids: &[u32],
    keydir: Keydir,
    opts: Options,
    active_len: u64,
    engine: Engine,
)
    requires
        call_ensures(Engine::open, (file_ids, keydir, opts, active_len), engine),
        file_ids@.len() > 0 ==> file_ids@.last() < u32::MAX - 1,
    ensures
        ({
            let first = if file_ids@.len() == 0 {
                0
            } else {
                file_ids@.last() + 1
            };
            &&& engine@.keydir == keydir@
            &&& engine@.active is Some <==> opts.is_read_write
            &&& opts.is_read_write ==> engine@.active->0.file_id == first
                && engine@.active->0.offset == active_len
            &&& engine@.next_file_id == first + 1
            &&& engine@.commits.pending == 0
            &&& engine@.commits.durable == 0
            &&& !engine@.commits.syncing
            &&& engine@.commits.fsync_calls == 0
            &&& engine@.is_read_write == opts.is_read_write
            &&& engine@.should_sync_on_put == opts.should_sync_on_put
            &&& engine@.max_file_size == opts.max_file_size
        }),
{
}

/// The first file of an opened datastore is above all that there are.
pub proof fn law_the_first_file_is_above_all(file_ids: &[u32], file_id: u32)
    requires
        call_ensures(Engine::first_active_id, (file_ids,), file_id),
        file_ids@.len() > 0 ==> file_ids@.last() < u32::MAX,
    ensures
        file_ids@.len() == 0 ==> file_id == 0,
        file_ids@.len() > 0 ==> file_id == file_ids@.last() + 1,
{
}

/// The default settings are those that are documented.
pub proof fn law_the_default_settings(opts: Options)
    requires
        call_ensures(<Options as Default>::default, (), opts),
    ensures
        opts.is_read_write,
        !opts.should_sync_on_put,
        opts.max_file_size == 0x400_0000,
        opts.metrics is None,
{
}

/// A call that writes is refused just on a handle for reading only.
pub proof fn law_a_reader_may_not_write(engine: Engine, outcome: Result<(), Error>)
    requires
        call_ensures(Engine::require_write, (&engine,), outcome),
    ensures
        outcome is Ok <==> engine@.is_read_write,
        outcome is Err ==> outcome->Err_0 is ReadOnly,
{
}

/// The file that is appended to is told.
pub proof fn law_the_active_file_is_told(engine: Engine, file_id: Option<u32>)
    requires
        call_ensures(Engine::active_file_id, (&engine,), file_id),
    ensures
        file_id is Some <==> engine@.active is Some,
        file_id is Some ==> file_id->0 == engine@.active->0.file_id,
{
}

/// A key is found just if it is there, with the entry that was stored under it.
pub proof fn law_a_key_is_located(engine: Engine, key: &[u8], entry: Option<KeydirEntry>)
    requires
        call_ensures(Engine::locate, (&engine, key), entry),
    ensures
        entry is Some <==> engine@.keydir.contains_key(key@),
        entry is Some ==> entry->0 == engine@.keydir[key@],
{
}

/// A `get` of a key that is there reads the value from its place, and gives what was read or the
/// failure. One of a key that is not there gives `None`.
pub proof fn law_a_get_reads_from_the_place<R: Fn(KeydirEntry) -> Result<Vec<u8>, std::io::Error>>(
    engine: Engine,
    key: &[u8],
    read_value: R,
    value: Result<Option<Vec<u8>>, Error>,
)
    requires
        call_ensures(Engine::get::<R>, (&engine, key, read_value), value),
    ensures
        value == Ok::<Option<Vec<u8>>, Error>(None) <==> !engine@.keydir.contains_key(key@),
        engine@.keydir.contains_key(key@) && value is Ok ==> value->Ok_0 is Some && call_ensures(
            read_value,
            (engine@.keydir[key@],),
            Ok(value->Ok_0->0),
        ),
        value is Err ==> engine@.keydir.contains_key(key@) && value->Err_0 is Io && call_ensures(
            read_value,
            (engine@.keydir[key@],),
            Err(value->Err_0->Io_0),
        ),
{
}

/// Reading from a place gives what was read there or the failure, and `None` where there is none.
pub proof fn law_a_place_is_read<R: Fn(KeydirEntry) -> Result<Vec<u8>, std::io::Error>>(
    place: Option<KeydirEntry>,
    read_value: R,
    value: Result<Option<Vec<u8>>, Error>,
)
    requires
        call_ensures(crate::engine::read_located::<R>, (place, read_value), value),
    ensures
        value == Ok::<Option<Vec<u8>>, Error>(None) <==> place is None,
        place is Some && value is Ok ==> call_ensures(
            read_value,
            (place->0,),
            Ok(value->Ok_0->0),
        ),
        value is Err ==> place is Some && value->Err_0 is Io && call_ensures(
            read_value,
            (place->0,),
            Err(value->Err_0->Io_0),
        ),
{
}

/// All keys are listed, each once, and no others.
pub proof fn law_all_keys_are_listed(engine: Engine, keys: Vec<Vec<u8>>)
    requires
        call_ensures(Engine::list_keys, (&engine,), keys),
    ensures
        forall|i: int|
            0 <= i < keys@.len() ==> engine@.keydir.contains_key((#[trigger] keys@[i])@),
        forall|key: Seq<u8>| #[trigger]
            engine@.keydir.contains_key(key) ==> exists|i: int|
                0 <= i < keys@.len() && (#[trigger] keys@[i])@ == key,
        forall|i: int, j: int|
            0 <= i < j < keys@.len() ==> (#[trigger] keys@[i])@ != (#[trigger] keys@[j])@,
{
}

/// Whether the pairs are all keys of an index, each once, with their entries.
pub open spec fn are_all_pairs(
    entries: Seq<(Vec<u8>, KeydirEntry)>,
    keydir: Map<Seq<u8>, KeydirEntry>,
) -> bool {
    &&& forall|i: int|
        0 <= i < entries.len() ==> keydir.contains_key((#[trigger] entries[i]).0@)
            && keydir[entries[i].0@] == entries[i].1
    &&& forall|key: Seq<u8>| #[trigger]
        keydir.contains_key(key) ==> exists|i: int|
            0 <= i < entries.len() && (#[trigger] entries[i]).0@ == key
    &&& forall|i: int, j: int|
        0 <= i < j < entries.len() ==> (#[trigger] entries[i]).0@ != (#[trigger] entries[j]).0@
}

pub proof fn lemma_all_pairs(
    entries: Seq<(Vec<u8>, KeydirEntry)>,
    keydir: Map<Seq<u8>, KeydirEntry>,
)
    requires
        crate::keydir::lists(crate::keydir::snapshot_view(entries), keydir),
    ensures
        are_all_pairs(entries, keydir),
{
    let listed = crate::keydir::snapshot_view(entries);
    assert forall|i: int| 0 <= i < entries.len() implies keydir.contains_key(
        (#[trigger] entries[i]).0@,
    ) && keydir[entries[i].0@] == entries[i].1 by {
        assert(listed[i].0 == entries[i].0@);
    }
    assert forall|key: Seq<u8>| #[trigger] keydir.contains_key(key) implies exists|i: int|
        0 <= i < entries.len() && (#[trigger] entries[i]).0@ == key by {
        let i = choose|i: int| 0 <= i < listed.len() && (#[trigger] listed[i]).0 == key;
        assert(entries[i].0@ == key);
    }
    assert forall|i: int, j: int| 0 <= i < j < entries.len() implies (#[trigger] entries[i]).0@ != (
    #[trigger] entries[j]).0@ by {
        assert(listed[i].0 != listed[j].0);
    }
}

/// A snapshot has all keys, each once, with their entries.
pub proof fn law_a_snapshot_has_all_keys(engine: Engine, entries: Vec<(Vec<u8>, KeydirEntry)>)
    requires
        call_ensures(Engine::snapshot, (&engine,), entries),
    ensures
        are_all_pairs(entries@, engine@.keydir),
{
    lemma_all_pairs(entries@, engine@.keydir);
}

/// Whether the values of the first pairs were read from their places, and `f` was applied to each
/// key and value in turn, every time with what the application before gave.
pub open spec fn was_applied_in_turn<
    A,
    R: Fn(KeydirEntry) -> Result<Vec<u8>, std::io::Error>,
    F: Fn(&Vec<u8>, &Vec<u8>, A) -> A,
>(
    entries: Seq<(Vec<u8>, KeydirEntry)>,
    read_value: R,
    f: F,
    init: A,
    values: Seq<Vec<u8>>,
    accs: Seq<A>,
) -> bool {
    &&& values.len() <= entries.len()
    &&& accs.len() == values.len() + 1
    &&& accs[0] == init
    &&& forall|i: int|
        0 <= i < values.len() ==> call_ensures(
            read_value,
            (entries[i].1,),
            Ok(#[trigger] values[i]),
        )
    &&& forall|i: int|
        0 <= i < values.len() ==> call_ensures(
            f,
            (&entries[i].0, &(#[trigger] values[i]), accs[i]),
            accs[i + 1],
        )
}

/// Whether a fold over these pairs came out as it is to: all of them were gone through, or a value
/// could not be read, and that is the outcome.
pub open spec fn went_through<
    A,
    R: Fn(KeydirEntry) -> Result<Vec<u8>, std::io::Error>,
    F: Fn(&Vec<u8>, &Vec<u8>, A) -> A,
>(
    entries: Seq<(Vec<u8>, KeydirEntry)>,
    read_value: R,
    f: F,
    init: A,
    result: Result<A, Error>,
) -> bool {
    exists|values: Seq<Vec<u8>>, accs: Seq<A>| #[trigger]
        was_applied_in_turn(entries, read_value, f, init, values, accs) && match result {
            Ok(acc) => values.len() == entries.len() && acc == accs.last(),
            Err(error) => values.len() < entries.len() && error is Io && call_ensures(
                read_value,
                (entries[values.len() as int].1,),
                Err(error->Io_0),
            ),
        }
}

proof fn lemma_went_through<
    A,
    R: Fn(KeydirEntry) -> Result<Vec<u8>, std::io::Error>,
    F: Fn(&Vec<u8>, &Vec<u8>, A) -> A,
>(
    entries: Seq<(Vec<u8>, KeydirEntry)>,
    read_value: R,
    f: F,
    init: A,
    result: Result<A, Error>,
)
    requires
        crate::engine::is_fold(entries, read_value, f, init, result),
    ensures
        went_through(entries, read_value, f, init, result),
{
    let (values, accs) = match result {
        Ok(acc) => choose|values: Seq<Vec<u8>>, accs: Seq<A>| #[trigger]
            crate::engine::folded(entries, read_value, f, values, accs) && values.len()
                == entries.len() && accs[0] == init && accs.last() == acc,
        Err(error) => choose|values: Seq<Vec<u8>>, accs: Seq<A>| #[trigger]
            crate::engine::folded(entries, read_value, f, values, accs) && values.len()
                < entries.len() && accs[0] == init && error is Io && call_ensures(
                read_value,
                (entries[values.len() as int].1,),
                Err(error->Io_0),
            ),
    };
    assert(was_applied_in_turn(entries, read_value, f, init, values, accs));
}

/// A fold over a snapshot applies the function once to each key and value, in order, each
/// application taking what the one before gave, and gives what the last one gave. It fails just
/// where a value cannot be read.
pub proof fn law_a_fold_applies_the_function_to_every_pair<
    A,
    R: Fn(KeydirEntry) -> Result<Vec<u8>, std::io::Error>,
    F: Fn(&Vec<u8>, &Vec<u8>, A) -> A,
>(
    entries: &[(Vec<u8>, KeydirEntry)],
    read_value: R,
    f: F,
    init: A,
    result: Result<A, Error>,
)
    requires
        call_ensures(
            crate::engine::fold_snapshot::<A, R, F>,
            (entries, read_value, f, init),
            result,
        ),
    ensures
        went_through(entries@, read_value, f, init, result),
{
    lemma_went_through(entries@, read_value, f, init, result);
}

/// A fold over a datastore does this over all keys, each once, with their entries.
pub proof fn law_a_fold_goes_over_all_keys<
    A,
    R: Fn(KeydirEntry) -> Result<Vec<u8>, std::io::Error>,
    F: Fn(&Vec<u8>, &Vec<u8>, A) -> A,
>(engine: Engine, read_value: R, f: F, init: A, result: Result<A, Error>)
    requires
        call_ensures(Engine::fold::<A, R, F>, (&engine, read_value, f, init), result),
    ensures
        exists|entries: Seq<(Vec<u8>, KeydirEntry)>|
            are_all_pairs(entries, engine@.keydir) && #[trigger] went_through(
                entries,
                read_value,
                f,
                init,
                result,
            ),
{
    let entries = choose|entries: Seq<(Vec<u8>, KeydirEntry)>|
        crate::keydir::lists(crate::keydir::snapshot_view(entries), engine@.keydir)
            && #[trigger] crate::engine::is_fold(entries, read_value, f, init, result);
    lemma_all_pairs(entries, engine@.keydir);
    lemma_went_through(entries, read_value, f, init, result);
    assert(went_through(entries, read_value, f, init, result));
}

/// The engine says of a generation what its group commit says, and changes nothing else.
pub proof fn law_the_engine_commits_as_a_group(
    engine: &mut Engine,
    generation: u64,
    step: CommitStep,
)
    requires
        call_ensures(Engine::next_commit_step, (engine, generation), step),
    ensures
        ({
            let before = old(engine)@;
            let after = final(engine)@;
            &&& step is Done <==> generation <= before.commits.durable
            &&& step is Wait <==> generation > before.commits.durable && before.commits.syncing
            &&& step is Lead <==> generation > before.commits.durable && !before.commits.syncing
            &&& step is Lead ==> step->covers == before.commits.pending
            &&& after.commits.syncing == (before.commits.syncing || step is Lead)
            &&& after.commits.pending == before.commits.pending
            &&& after.commits.durable == before.commits.durable
            &&& after.commits.fsync_calls == before.commits.fsync_calls
            &&& after.keydir == before.keydir
            &&& after.active == before.active
            &&& after.next_file_id == before.next_file_id
            &&& super::writes::same_settings(before, after)
        }),
{
}

/// An `fsync` makes durable what it was to cover if it succeeds, and never more, and changes
/// nothing else of the engine.
pub proof fn law_the_engine_takes_an_fsync_for_what_it_covers(
    engine: &mut Engine,
    covers: u64,
    ok: bool,
)
    requires
        call_ensures(Engine::fsync_ended, (engine, covers, ok), ()),
    ensures
        ({
            let before = old(engine)@;
            let after = final(engine)@;
            &&& after.commits.durable == if ok && covers > before.commits.durable {
                covers
            } else {
                before.commits.durable
            }
            &&& after.commits.pending == before.commits.pending
            &&& !after.commits.syncing
            &&& after.commits.fsync_calls == if before.commits.fsync_calls == usize::MAX {
                0
            } else {
                before.commits.fsync_calls + 1
            }
            &&& after.keydir == before.keydir
            &&& after.active == before.active
            &&& after.next_file_id == before.next_file_id
            &&& super::writes::same_settings(before, after)
        }),
{
}

/// The active file is behind a merge just if an output file has its id or a higher one.
pub proof fn law_the_active_file_is_to_have_the_highest_id(
    engine: Engine,
    highest_output_id: u32,
    behind: bool,
)
    requires
        call_ensures(Engine::is_behind, (&engine, highest_output_id), behind),
    ensures
        behind <==> engine@.active is Some && engine@.active->0.file_id <= highest_output_id,
{
}

} // verus!
