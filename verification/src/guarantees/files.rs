//! Data files: where the next entry goes, which ids new files have, and how files are named.
use vstd::arithmetic::power::pow;
use vstd::prelude::*;

use crate::datafile::{ActiveFile, DataFileSet, FileIdCounter};
use crate::format::EncodedEntry;

verus! {

/// An append puts the entry at the end of the file: the value stands behind all else of the entry,
/// and the file is longer by the entry.
pub proof fn law_an_entry_goes_to_the_end(
    active: &mut ActiveFile,
    encoded: &EncodedEntry,
    place: (u32, u64, u64),
)
    requires
        call_ensures(ActiveFile::append, (active, encoded), place),
        old(active)@.offset + encoded.spec_bytes().len() <= u64::MAX,
        encoded.spec_value_len() <= encoded.spec_bytes().len(),
    ensures
        place.0 == old(active)@.file_id,
        place.1 == old(active)@.offset + encoded.spec_bytes().len() - encoded.spec_value_len(),
        place.2 == encoded.spec_bytes().len(),
        final(active)@.file_id == old(active)@.file_id,
        final(active)@.offset == old(active)@.offset + encoded.spec_bytes().len(),
{
}

/// A file is appended to from where it ends, and tells its id and its length.
pub proof fn law_a_file_is_appended_to_from_its_end(
    file_id: u32,
    existing_len: u64,
    active: ActiveFile,
    told_id: u32,
    len: u64,
    is_empty: bool,
)
    requires
        call_ensures(ActiveFile::create, (file_id, existing_len), active),
        call_ensures(ActiveFile::file_id, (&active,), told_id),
        call_ensures(ActiveFile::len, (&active,), len),
        call_ensures(ActiveFile::is_empty, (&active,), is_empty),
    ensures
        active@.file_id == file_id,
        active@.offset == existing_len,
        told_id == file_id,
        len == existing_len,
        is_empty <==> existing_len == 0,
{
}

/// Ids are given out in ascending order, none left out, and start over after the last.
pub proof fn law_ids_are_given_out_in_order(
    next: u32,
    made: FileIdCounter,
    told: u32,
    ids: &mut FileIdCounter,
    file_id: u32,
)
    requires
        call_ensures(FileIdCounter::new, (next,), made),
        call_ensures(FileIdCounter::peek, (&made,), told),
        call_ensures(FileIdCounter::claim, (ids,), file_id),
    ensures
        made@ == next,
        told == next,
        file_id == old(ids)@,
        final(ids)@ == super::writes::next_id(old(ids)@),
{
}

/// Whether a name is that of a file with this id: the id in decimal, with zeros in front up to
/// twenty digits, and the suffix.
pub open spec fn is_name_of(name: Seq<char>, id: u32, suffix: Seq<char>) -> bool {
    &&& name.len() == 20 + suffix.len()
    &&& name.skip(20) == suffix
    &&& forall|i: int|
        0 <= i < 20 ==> (#[trigger] name[i]) as int == 48 + (id as int / pow(
            10,
            (19 - i) as nat,
        )) % 10
}

proof fn lemma_digit(n: nat, width: nat, i: int)
    requires
        0 <= i < width,
    ensures
        crate::datafile::padded(n, width).len() == width,
        crate::datafile::padded(n, width)[i] as int == 48 + (n as int / pow(
            10,
            (width - 1 - i) as nat,
        )) % 10,
    decreases width,
{
    let rest = (width - 1) as nat;
    lemma_padded_len(n / 10, rest);
    let digits = crate::datafile::padded(n, width);
    if i == width - 1 {
        vstd::arithmetic::power::lemma_pow0(10);
        assert(n as int / 1 == n);
        assert(digits[i] == crate::datafile::digit_char(n % 10));
    } else {
        lemma_digit(n / 10, rest, i);
        let e = (rest - 1 - i) as nat;
        assert(digits[i] == crate::datafile::padded(n / 10, rest)[i]);
        vstd::arithmetic::power::lemma_pow_positive(10, e);
        vstd::arithmetic::div_mod::lemma_div_denominator(n as int, 10, pow(10, e));
        vstd::arithmetic::power::lemma_pow1(10);
        vstd::arithmetic::power::lemma_pow_adds(10, 1, e);
        assert(pow(10, (width - 1 - i) as nat) == 10 * pow(10, e));
    }
}

proof fn lemma_padded_len(n: nat, width: nat)
    ensures
        crate::datafile::padded(n, width).len() == width,
    decreases width,
{
    if width > 0 {
        lemma_padded_len(n / 10, (width - 1) as nat);
    }
}

proof fn lemma_name(id: u32, suffix: Seq<char>, name: Seq<char>)
    ensures
        is_name_of(name, id, suffix) <==> name == crate::datafile::padded(id as nat, 20) + suffix,
{
    let digits = crate::datafile::padded(id as nat, 20);
    lemma_padded_len(id as nat, 20);
    assert forall|i: int| 0 <= i < 20 implies (#[trigger] digits[i]) as int == 48 + (id as int
        / pow(10, (19 - i) as nat)) % 10 by {
        lemma_digit(id as nat, 20, i);
    }
    if is_name_of(name, id, suffix) {
        assert forall|i: int| 0 <= i < name.len() implies name[i] == (digits + suffix)[i] by {
            if i < 20 {
                assert(name[i] as int == digits[i] as int);
            } else {
                assert(name.skip(20)[i - 20] == name[i]);
            }
        }
        assert(name =~= digits + suffix);
    }
    if name == digits + suffix {
        assert(name.skip(20) =~= suffix);
        assert forall|i: int| 0 <= i < 20 implies (#[trigger] name[i]) as int == 48 + (id as int
            / pow(10, (19 - i) as nat)) % 10 by {
            assert(name[i] == digits[i]);
        }
    }
}

proof fn lemma_digits_back(digits: Seq<char>)
    requires
        forall|i: int|
            0 <= i < digits.len() ==> crate::datafile::is_digit(#[trigger] digits[i]),
    ensures
        crate::datafile::padded(crate::datafile::digits_value(digits), digits.len()) == digits,
    decreases digits.len(),
{
    if digits.len() > 0 {
        let rest = digits.drop_last();
        assert forall|i: int| 0 <= i < rest.len() implies crate::datafile::is_digit(
            #[trigger] rest[i],
        ) by {
            assert(rest[i] == digits[i]);
        }
        lemma_digits_back(rest);
        let last = digits.last();
        assert(crate::datafile::is_digit(digits[digits.len() - 1]));
        let value = crate::datafile::digits_value(digits);
        assert(value / 10 == crate::datafile::digits_value(rest));
        assert(value % 10 == (last as nat) - 48);
        assert(crate::datafile::padded(value, digits.len()) =~= rest.push(last));
        assert(rest.push(last) =~= digits);
    }
}

/// A name is taken for that of a data file just if it is one, and then for that of the right file.
pub proof fn law_a_data_file_is_known_by_its_name(name: &str, id: Option<u32>)
    requires
        call_ensures(crate::datafile::parse_data_file_id, (name,), id),
    ensures
        forall|x: u32| id == Some(x) <==> #[trigger] is_name_of(name@, x, ".bitcask.data"@),
{
    lemma_known_name(name@);
}

proof fn lemma_known_name(name: Seq<char>)
    ensures
        forall|x: u32|
            crate::datafile::data_file_id(name) == Some(x) <==> #[trigger] is_name_of(
                name,
                x,
                ".bitcask.data"@,
            ),
{
    let suffix = ".bitcask.data"@;
    reveal_strlit(".bitcask.data");
    assert forall|x: u32|
        crate::datafile::data_file_id(name) == Some(x) <==> #[trigger] is_name_of(
            name,
            x,
            suffix,
        ) by {
        lemma_name(x, suffix, name);
        crate::datafile::law_data_file_name_round_trip(x);
        if crate::datafile::data_file_id(name) == Some(x) {
            let stem = name.take(20);
            lemma_digits_back(stem);
            assert(name =~= stem + name.skip(20));
        }
    }
}

/// Data and hint files are named by their ids.
pub proof fn law_files_are_named_by_their_ids(file_id: u32, data: String, hint: String)
    requires
        call_ensures(DataFileSet::data_file_name, (file_id,), data),
        call_ensures(DataFileSet::hint_file_name, (file_id,), hint),
    ensures
        is_name_of(data@, file_id, ".bitcask.data"@),
        is_name_of(hint@, file_id, ".bitcask.hint"@),
{
    lemma_name(file_id, ".bitcask.data"@, data@);
    lemma_name(file_id, ".bitcask.hint"@, hint@);
}

/// Whether a name is that of a data file.
pub open spec fn names_a_data_file(name: String) -> bool {
    exists|id: u32| is_name_of(name@, id, ".bitcask.data"@)
}

proof fn lemma_discovered(names: Seq<String>, id: u32)
    ensures
        crate::datafile::data_file_ids(names).contains(id) <==> exists|i: int|
            0 <= i < names.len() && is_name_of((#[trigger] names[i])@, id, ".bitcask.data"@),
        crate::datafile::data_file_ids(names).len() == names.filter(
            |name: String| names_a_data_file(name),
        ).len(),
    decreases names.len(),
{
    reveal(Seq::filter);
    if names.len() > 0 {
        let rest = names.drop_last();
        let found = crate::datafile::data_file_ids(rest);
        let all = crate::datafile::data_file_ids(names);
        lemma_discovered(rest, id);
        lemma_known_name(names.last()@);
        let last_id = crate::datafile::data_file_id(names.last()@);
        assert(names[names.len() - 1] == names.last());
        if last_id is Some {
            assert(is_name_of(names.last()@, last_id->0, ".bitcask.data"@));
            assert(names_a_data_file(names.last()));
            assert(all == found.push(last_id->0));
            if all.contains(id) {
                let k = choose|k: int| 0 <= k < all.len() && all[k] == id;
                if k < found.len() {
                    assert(found[k] == id);
                }
            }
            if found.contains(id) {
                let k = choose|k: int| 0 <= k < found.len() && found[k] == id;
                assert(all[k] == id);
            }
            assert(all[found.len() as int] == last_id->0);
        }
        if found.contains(id) {
            let i = choose|i: int|
                0 <= i < rest.len() && is_name_of((#[trigger] rest[i])@, id, ".bitcask.data"@);
            assert(names[i] == rest[i]);
        }
        assert forall|i: int|
            0 <= i < names.len() && is_name_of(
                (#[trigger] names[i])@,
                id,
                ".bitcask.data"@,
            ) implies all.contains(id) by {
            if i < rest.len() {
                assert(rest[i] == names[i]);
            }
        }
    }
}

/// The data files of a directory are found by their names, in ascending order, one id for each of
/// them, and nothing else is taken for one.
pub proof fn law_all_data_files_are_found(names: &[String], ids: Vec<u32>)
    requires
        call_ensures(DataFileSet::discover, (names,), ids),
    ensures
        forall|i: int, j: int| 0 <= i < j < ids@.len() ==> ids@[i] <= ids@[j],
        forall|id: u32| #[trigger]
            ids@.contains(id) <==> exists|i: int|
                0 <= i < names@.len() && is_name_of(
                    (#[trigger] names@[i])@,
                    id,
                    ".bitcask.data"@,
                ),
        ids@.len() == names@.filter(|name: String| names_a_data_file(name)).len(),
{
    let found = crate::datafile::data_file_ids(names@);
    ids@.to_multiset_ensures();
    found.to_multiset_ensures();
    lemma_discovered(names@, 0);
    assert forall|id: u32| #[trigger] ids@.contains(id) <==> exists|i: int|
        0 <= i < names@.len() && is_name_of((#[trigger] names@[i])@, id, ".bitcask.data"@) by {
        lemma_discovered(names@, id);
        assert(ids@.contains(id) <==> ids@.to_multiset().count(id) > 0);
        assert(found.contains(id) <==> found.to_multiset().count(id) > 0);
    }
}

} // verus!
