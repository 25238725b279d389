//! What the tools decide, messages, and the clock.
use vstd::arithmetic::power::pow;
use vstd::prelude::*;

use crate::loadtest::{OpKind, Rng};
use crate::release::{CommandReply, ReleaseAction, ReleaseState, Row};
use crate::Error;

verus! {

/// A timestamp is the low 32 bits of the seconds.
pub proof fn law_a_timestamp_has_32_bits(seconds: u64, timestamp: u32)
    requires
        call_ensures(crate::timestamp_of, (seconds,), timestamp),
    ensures
        timestamp == seconds % 0x1_0000_0000,
{
}

/// A timestamp is what the clock says, in its low 32 bits, and zero before the epoch.
pub proof fn law_a_timestamp_is_by_the_clock<C: Fn() -> Option<u64>>(clock: C, timestamp: u32)
    requires
        call_ensures(crate::timestamp_by::<C>, (clock,), timestamp),
    ensures
        exists|reading: Option<u64>| #[trigger]
            call_ensures(clock, (), reading) && match reading {
                Some(seconds) => timestamp == seconds % 0x1_0000_0000,
                None => timestamp == 0,
            },
{
    let reading = choose|reading: Option<u64>| #[trigger]
        call_ensures(clock, (), reading) && timestamp == crate::timestamp_for(reading);
    assert(call_ensures(clock, (), reading));
}

/// Each error has its own message.
pub proof fn law_an_error_has_its_message(error: Error, text: String)
    requires
        call_ensures(Error::to_string, (&error,), text),
    ensures
        match error {
            Error::Io(e) => exists|inner: String|
                vstd::string::to_string_from_display_ensures(&e, inner) && text@ == "io error: "@
                    + #[trigger] inner@,
            Error::AlreadyLocked => text@
                == "directory already locked for writing by another handle"@,
            Error::EmptyKey => text@ == "key must not be empty"@,
            Error::Corrupt(message) => text@ == "data file corrupt: "@ + message@,
            Error::ReadOnly => text@
                == "datastore is not open for writing (read-only handle)"@,
            Error::NotImplemented(what) => text@ == "not implemented yet: "@ + what@,
        },
{
}

/// The failure behind an error is told, if there is one.
pub proof fn law_an_error_tells_its_source(error: Error, inner: Option<&std::io::Error>)
    requires
        call_ensures(Error::source, (&error,), inner),
    ensures
        inner is Some <==> error is Io,
        inner is Some ==> *inner->0 == error->Io_0,
{
}

/// A failure of the file system is carried as it is.
pub proof fn law_an_error_carries_the_failure(e: std::io::Error, error: Error)
    requires
        call_ensures(<Error as From<std::io::Error>>::from, (e,), error),
    ensures
        error is Io,
        error->Io_0 == e,
{
}

/// The kinds of operations have their names, and come in the order of reports.
pub proof fn law_kinds_have_their_names(kind: OpKind, label: &'static str, kinds: [OpKind; 4])
    requires
        call_ensures(OpKind::label, (kind,), label),
        call_ensures(OpKind::all, (), kinds),
    ensures
        kind is Get ==> label@ == "get"@,
        kind is Put ==> label@ == "put"@,
        kind is Delete ==> label@ == "delete"@,
        kind is Merge ==> label@ == "merge"@,
        kinds@[0] is Get,
        kinds@[1] is Put,
        kinds@[2] is Delete,
        kinds@[3] is Merge,
{
}

/// The generator begins with its seed, or with one if that is zero.
pub proof fn law_a_generator_begins_with_its_seed(seed: u64, rng: Rng)
    requires
        call_ensures(Rng::new, (seed,), rng),
    ensures
        seed != 0 ==> rng@ == seed,
        seed == 0 ==> rng@ == 1,
{
}

/// Each number comes from the state by three shifts, and is the next state.
pub proof fn law_a_number_comes_from_the_one_before(rng: &mut Rng, x: u64)
    requires
        call_ensures(Rng::next_u64, (rng,), x),
    ensures
        ({
            let a = old(rng)@ ^ (old(rng)@ << 13u64);
            let b = a ^ (a >> 7u64);
            x == b ^ (b << 17u64)
        }),
        final(rng)@ == x,
{
}

/// An operation is chosen by the share of its weight.
pub proof fn law_an_operation_is_chosen_by_weight(
    pick: u64,
    read_weight: u32,
    write_weight: u32,
    kind: OpKind,
)
    requires
        call_ensures(crate::loadtest::choose_operation, (pick, read_weight, write_weight), kind),
    ensures
        kind is Get <==> pick < read_weight,
        kind is Put <==> read_weight <= pick < read_weight + write_weight,
        kind is Delete <==> pick >= read_weight + write_weight,
{
}

proof fn lemma_ascii_digit(n: nat, width: nat, i: int)
    requires
        0 <= i < width,
    ensures
        crate::loadtest::ascii_digits(n, width).len() == width,
        crate::loadtest::ascii_digits(n, width)[i] == 48 + (n as int / pow(
            10,
            (width - 1 - i) as nat,
        )) % 10,
    decreases width,
{
    let rest = (width - 1) as nat;
    lemma_ascii_len(n / 10, rest);
    let digits = crate::loadtest::ascii_digits(n, width);
    if i == width - 1 {
        vstd::arithmetic::power::lemma_pow0(10);
        assert(n as int / 1 == n);
        assert(digits[i] == (48 + n % 10) as u8);
    } else {
        lemma_ascii_digit(n / 10, rest, i);
        let e = (rest - 1 - i) as nat;
        assert(digits[i] == crate::loadtest::ascii_digits(n / 10, rest)[i]);
        vstd::arithmetic::power::lemma_pow_positive(10, e);
        vstd::arithmetic::div_mod::lemma_div_denominator(n as int, 10, pow(10, e));
        vstd::arithmetic::power::lemma_pow1(10);
        vstd::arithmetic::power::lemma_pow_adds(10, 1, e);
        assert(pow(10, (width - 1 - i) as nat) == 10 * pow(10, e));
    }
}

proof fn lemma_ascii_len(n: nat, width: nat)
    ensures
        crate::loadtest::ascii_digits(n, width).len() == width,
    decreases width,
{
    if width > 0 {
        lemma_ascii_len(n / 10, (width - 1) as nat);
    }
}

proof fn lemma_digit_count_fits(n: nat)
    ensures
        crate::loadtest::digit_count(n) >= 1,
        n < pow(10, crate::loadtest::digit_count(n)),
        n >= 10 ==> pow(10, (crate::loadtest::digit_count(n) - 1) as nat) <= n,
    decreases n,
{
    vstd::arithmetic::power::lemma_pow1(10);
    if n >= 10 {
        let count = crate::loadtest::digit_count(n / 10);
        lemma_digit_count_fits(n / 10);
        vstd::arithmetic::power::lemma_pow_adds(10, 1, count);
        vstd::arithmetic::power::lemma_pow_adds(10, 1, (count - 1) as nat);
        if n / 10 < 10 {
            vstd::arithmetic::power::lemma_pow0(10);
        }
    }
}

/// A key is `key-` and its number in decimal, with zeros in front up to twelve digits, and with no
/// more digits than that unless the number needs them.
pub proof fn law_a_key_is_its_number(k: u64, key: Vec<u8>)
    requires
        call_ensures(crate::loadtest::key_bytes, (k,), key),
    ensures
        ({
            let width = key@.len() - 4;
            &&& width >= 12
            &&& k < pow(10, width as nat)
            &&& width > 12 ==> k >= pow(10, (width - 1) as nat)
            &&& key@[0] == 107 && key@[1] == 101 && key@[2] == 121 && key@[3] == 45
            &&& forall|i: int|
                0 <= i < width ==> #[trigger] key@[4 + i] == 48 + (k as int / pow(
                    10,
                    (width - 1 - i) as nat,
                )) % 10
        }),
{
    let count = crate::loadtest::digit_count(k as nat);
    lemma_digit_count_fits(k as nat);
    let width: nat = if count > 12 {
        count
    } else {
        12
    };
    lemma_ascii_len(k as nat, width);
    let digits = crate::loadtest::ascii_digits(k as nat, width);
    assert(key@.len() == 4 + width);
    if count <= 12 {
        vstd::arithmetic::power::lemma_pow_increases(10, count, 12);
    } else {
        assert(k >= 10);
    }
    assert forall|i: int| 0 <= i < width implies #[trigger] key@[4 + i] == 48 + (k as int / pow(
        10,
        (width - 1 - i) as nat,
    )) % 10 by {
        lemma_ascii_digit(k as nat, width, i);
        assert(key@[4 + i] == digits[i]);
    }
}

proof fn lemma_latencies(samples: Seq<(OpKind, u64)>, kind: OpKind)
    ensures
        crate::loadtest::latencies(samples, kind) == samples.filter(
            |s: (OpKind, u64)| s.0 == kind,
        ).map_values(|s: (OpKind, u64)| s.1),
    decreases samples.len(),
{
    reveal(Seq::filter);
    let is_kind = |s: (OpKind, u64)| s.0 == kind;
    let latency = |s: (OpKind, u64)| s.1;
    if samples.len() > 0 {
        let rest = samples.drop_last();
        lemma_latencies(rest, kind);
        if samples.last().0 == kind {
            assert(samples.filter(is_kind) == rest.filter(is_kind).push(samples.last()));
            assert(samples.filter(is_kind).map_values(latency) =~= rest.filter(
                is_kind,
            ).map_values(latency).push(samples.last().1));
        }
    } else {
        assert(samples.filter(is_kind).map_values(latency) =~= Seq::empty());
    }
}

/// The latencies of a kind are those of all samples of that kind, in order.
pub proof fn law_latencies_are_picked_by_kind(
    samples: &[(OpKind, u64)],
    kind: OpKind,
    picked: Vec<u64>,
)
    requires
        call_ensures(crate::loadtest::latencies_of, (samples, kind), picked),
    ensures
        picked@ == samples@.filter(|s: (OpKind, u64)| s.0 == kind).map_values(
            |s: (OpKind, u64)| s.1,
        ),
{
    lemma_latencies(samples@, kind);
}

/// A report loop goes on until the run is over, and never sleeps past its interval.
pub proof fn law_a_report_comes_in_time(
    elapsed: u128,
    total_secs: u64,
    interval_secs: u64,
    pause: Option<u128>,
    is_recording: bool,
    warmup_secs: u64,
    ends: bool,
)
    requires
        call_ensures(
            crate::loadtest::pause_before_report,
            (elapsed, total_secs, interval_secs),
            pause,
        ),
        call_ensures(crate::loadtest::ends_warmup, (is_recording, elapsed, warmup_secs), ends),
    ensures
        ({
            let left = total_secs * 1_000_000_000 - elapsed;
            &&& pause is Some <==> left > 0
            &&& pause is Some ==> pause->0 <= 1_000_000_000 || pause->0 <= interval_secs
                * 1_000_000_000
            &&& pause is Some ==> pause->0 <= left || pause->0 == 1_000_000
            &&& pause is Some ==> pause->0 >= left || pause->0 == interval_secs * 1_000_000_000
                || interval_secs == 0 && pause->0 == 1_000_000_000
        }),
        ends <==> !is_recording && elapsed >= warmup_secs * 1_000_000_000,
{
}

/// The released version is that of the first package with the name, if it has one.
pub proof fn law_the_version_is_that_of_the_first_package(
    table: Result<Option<Vec<Row>>, String>,
    version: Result<String, String>,
    at: int,
)
    requires
        call_ensures(crate::release::find_version, (table,), version),
    ensures
        ({
            let missing = "could not find yabiir's version in cargo metadata output"@;
            match table {
                Err(message) => version is Err && version->Err_0@
                    == "failed to parse cargo metadata output: "@ + message@,
                Ok(None) => version is Err && version->Err_0@ == missing,
                Ok(Some(rows)) => {
                    &&& (forall|i: int|
                        0 <= i < rows@.len() ==> !has_name(#[trigger] rows@[i])) ==> version is Err
                        && version->Err_0@ == missing
                    &&& 0 <= at < rows@.len() && has_name(rows@[at]) && (forall|i: int|
                        0 <= i < at ==> !has_name(#[trigger] rows@[i])) ==> match rows@[at].1 {
                        Some(text) => version is Ok && version->Ok_0@ == text@,
                        None => version is Err && version->Err_0@ == missing,
                    }
                },
            }
        }),
{
    if let Ok(Some(rows)) = table {
        lemma_version_in(rows@, at);
    }
}

/// Whether a row is that of the package.
pub open spec fn has_name(row: Row) -> bool {
    row.0 is Some && row.0->0@ == "yabiir"@
}

proof fn lemma_version_in(rows: Seq<Row>, at: int)
    ensures
        ({
            let found = crate::release::version_in(crate::release::rows_view(rows), "yabiir"@);
            &&& (forall|i: int| 0 <= i < rows.len() ==> !has_name(#[trigger] rows[i])) ==> found
                is None
            &&& 0 <= at < rows.len() && has_name(rows[at]) && (forall|i: int|
                0 <= i < at ==> !has_name(#[trigger] rows[i])) ==> found
                == crate::release::text_view(rows[at].1)
        }),
    decreases rows.len(),
{
    let view = crate::release::rows_view(rows);
    if rows.len() > 0 {
        assert(view[0] == (
            crate::release::text_view(rows[0].0),
            crate::release::text_view(rows[0].1),
        ));
        let rest = rows.skip(1);
        assert(view.skip(1) =~= crate::release::rows_view(rest));
        lemma_version_in(rest, at - 1);
        assert forall|i: int| 0 <= i < rest.len() implies #[trigger] rest[i] == rows[i + 1] by {}
        if !has_name(rows[0]) {
            if forall|i: int| 0 <= i < rows.len() ==> !has_name(#[trigger] rows[i]) {
                assert forall|i: int| 0 <= i < rest.len() implies !has_name(#[trigger] rest[i]) by {
                    assert(!has_name(rows[i + 1]));
                }
            }
            if 0 < at < rows.len() && forall|i: int|
                0 <= i < at ==> !has_name(#[trigger] rows[i]) {
                assert forall|i: int| 0 <= i < at - 1 implies !has_name(#[trigger] rest[i]) by {
                    assert(!has_name(rows[i + 1]));
                }
                assert(rest[at - 1] == rows[at]);
            }
        }
    }
}

/// The version in what was printed is the one that is found in the table that it holds.
pub proof fn law_the_version_is_read_from_what_was_printed(
    metadata: &[u8],
    version: Result<String, String>,
    table: Result<Option<Vec<Row>>, String>,
    found: Result<String, String>,
)
    requires
        call_ensures(crate::release::yabiir_version, (metadata,), version),
        crate::release::table_view(table) == crate::release::json_table(
            metadata@,
            "packages"@,
            "name"@,
            "version"@,
        ),
        call_ensures(crate::release::find_version, (table,), found),
    ensures
        version is Ok <==> found is Ok,
        version is Ok ==> version->Ok_0@ == found->Ok_0@,
        version is Err ==> version->Err_0@ == found->Err_0@,
{
}

/// A tree is clean, and a tag free, just if nothing was printed. Else the release is refused.
pub proof fn law_a_release_needs_silence(
    status: &[u8],
    clean: bool,
    tree: Result<(), String>,
    listed: &[u8],
    exists_already: bool,
    name: &str,
    free: Result<(), String>,
    version: &str,
    tag: String,
)
    requires
        call_ensures(crate::release::working_tree_is_clean, (status,), clean),
        call_ensures(crate::release::require_clean_tree, (status,), tree),
        call_ensures(crate::release::tag_exists, (listed,), exists_already),
        call_ensures(crate::release::require_free_tag, (name, listed), free),
        call_ensures(crate::release::tag_for, (version,), tag),
    ensures
        clean <==> status@.len() == 0,
        tree is Ok <==> status@.len() == 0,
        tree is Err ==> tree->Err_0@
            == "working tree has uncommitted changes — commit or stash them before releasing"@,
        exists_already <==> listed@.len() > 0,
        free is Ok <==> listed@.len() == 0,
        free is Err ==> free->Err_0@ == "tag "@ + name@ + " already exists"@,
        tag@ == "v"@ + version@,
{
}

/// A release begins by asking for the status.
pub proof fn law_a_release_begins_with_the_status(begun: (ReleaseState, ReleaseAction))
    requires
        call_ensures(ReleaseState::start, (), begun),
    ensures
        begun.0 is Status,
        begun.1 is ReadStatus,
{
}

/// Whether a release was given up with this message.
pub open spec fn is_refusal(
    next: (Option<ReleaseState>, ReleaseAction),
    message: Seq<char>,
) -> bool {
    next.0 is None && next.1 is Refuse && next.1->message@ == message
}

/// What a release does after each command, whatever came of it.
pub proof fn law_a_release_goes_step_by_step(
    state: ReleaseState,
    reply: &CommandReply,
    next: (Option<ReleaseState>, ReleaseAction),
    metadata: &[u8],
    version: Result<String, String>,
)
    requires
        call_ensures(ReleaseState::next, (state, reply), next),
        reply is Ended ==> metadata@ == reply->stdout@,
        call_ensures(crate::release::yabiir_version, (metadata,), version),
    ensures
        match (state, reply) {
            (_, CommandReply::NotRun { error }) => is_refusal(
                next,
                "failed to run "@ + (match state {
                    ReleaseState::Status => "git status"@,
                    ReleaseState::Metadata => "cargo metadata"@,
                    ReleaseState::Tags { .. } => "git tag --list"@,
                    _ => "git"@,
                }) + ": "@ + error@,
            ),
            (ReleaseState::Status, CommandReply::Ended { stdout, .. }) => if stdout@.len() == 0 {
                next.0 is Some && next.0->0 is Metadata && next.1 is ReadMetadata
            } else {
                is_refusal(
                    next,
                    "working tree has uncommitted changes — commit or stash them before releasing"@,
                )
            },
            (ReleaseState::Metadata, CommandReply::Ended { success, stderr, .. }) => if !*success {
                is_refusal(next, "cargo metadata failed: "@ + stderr@)
            } else {
                match version {
                    Err(message) => is_refusal(next, message@),
                    Ok(found) => next.0 is Some && next.0->0 is Tags && next.0->0->Tags_version@
                        == found@ && next.1 is ListTags && next.1->ListTags_tag@ == "v"@ + found@,
                }
            },
            (
                ReleaseState::Tags { version: found },
                CommandReply::Ended { stdout, .. },
            ) => if stdout@.len() > 0 {
                is_refusal(next, "tag "@ + ("v"@ + found@) + " already exists"@)
            } else {
                next.0 is Some && next.0->0 is Tagging && next.0->0->Tagging_version@ == found@
                    && next.1 is CreateTag && next.1->CreateTag_tag@ == "v"@ + found@
                    && next.1->CreateTag_version@ == found@
            },
            (
                ReleaseState::Tagging { version: found },
                CommandReply::Ended { success, .. },
            ) => if !*success {
                is_refusal(next, "`git tag "@ + ("v"@ + found@) + "` failed"@)
            } else {
                next.0 is Some && next.0->0 is Pushing && next.0->0->Pushing_version@ == found@
                    && next.1 is PushTag && next.1->PushTag_tag@ == "v"@ + found@
            },
            (
                ReleaseState::Pushing { version: found },
                CommandReply::Ended { success, .. },
            ) => if !*success {
                is_refusal(next, "`git push origin "@ + ("v"@ + found@) + "` failed"@)
            } else {
                next.0 is None && next.1 is Finish && next.1->Finish_tag@ == "v"@ + found@
            },
        },
{
}

/// The version that was found is the one whose tag is looked up, and if none was, the release is
/// given up with the message.
pub proof fn law_the_found_version_is_looked_up(
    version: Result<String, String>,
    next: (Option<ReleaseState>, ReleaseAction),
)
    requires
        call_ensures(crate::release::after_metadata, (version,), next),
    ensures
        match version {
            Err(message) => is_refusal(next, message@),
            Ok(found) => next.0 is Some && next.0->0 is Tags && next.0->0->Tags_version@ == found@
                && next.1 is ListTags && next.1->ListTags_tag@ == "v"@ + found@,
        },
{
}

} // verus!
