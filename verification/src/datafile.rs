//! Data files: the one that is appended to, and the names and order of all of them.
//!
//! A file is named `{file_id:020}.bitcask.data`, its hint file `{file_id:020}.bitcask.hint`. The
//! padding with zeros makes the order of the names that of the ids.
use vstd::prelude::*;
use vstd::string::{StrSliceExecFns, StringExecFns};

use crate::format::EncodedEntry;

verus! {

/// What is known of the file that is appended to.
#[verifier::ext_equal]
pub struct ActiveView {
    pub file_id: u32,
    pub offset: u64,
}

/// The file that is appended to: its id, and the offset of the next append.
#[derive(Debug)]
pub struct ActiveFile {
    file_id: u32,
    offset: u64,
}

impl View for ActiveFile {
    type V = ActiveView;

    closed spec fn view(&self) -> ActiveView {
        ActiveView { file_id: self.file_id, offset: self.offset }
    }
}

impl ActiveFile {
    /// Starts appending to the file, which has `existing_len` bytes now: none, if it is new.
    pub fn create(file_id: u32, existing_len: u64) -> (active: ActiveFile)
        ensures
            active@ == (ActiveView { file_id, offset: existing_len }),
    {
        ActiveFile { file_id, offset: existing_len }
    }

    pub fn file_id(&self) -> (file_id: u32)
        ensures
            file_id == self@.file_id,
    {
        self.file_id
    }

    /// Records the append of one entry. Gives the file, where the value starts in it, and the
    /// length of the entry.
    pub fn append(&mut self, encoded: &EncodedEntry) -> (place: (u32, u64, u64))
        requires
            old(self)@.offset + encoded.spec_bytes().len() <= u64::MAX,
        ensures
            place == (
                old(self)@.file_id,
                (old(self)@.offset + encoded.spec_bytes().len() - encoded.spec_value_len()) as u64,
                encoded.spec_bytes().len() as u64,
            ),
            final(self)@.file_id == old(self)@.file_id,
            final(self)@.offset == old(self)@.offset + encoded.spec_bytes().len(),
    {
        let total_len: u64 = encoded.len() as u64;
        let value_pos: u64 = self.offset + (total_len - encoded.value_len() as u64);
        self.offset = self.offset + total_len;
        (self.file_id, value_pos, total_len)
    }

    /// Length of the file, which is the offset of the next append.
    pub fn len(&self) -> (n: u64)
        ensures
            n == self@.offset,
    {
        self.offset
    }

    pub fn is_empty(&self) -> (b: bool)
        ensures
            b == (self@.offset == 0),
    {
        self.offset == 0
    }
}

/// Hands out the ids of new files, in ascending order. Rotation and merge draw from the same
/// counter, so no two new files get one id. After the last id it starts over.
#[derive(Debug)]
pub struct FileIdCounter {
    next: u32,
}

impl View for FileIdCounter {
    type V = u32;

    closed spec fn view(&self) -> u32 {
        self.next
    }
}

/// The id after `id`.
pub open spec fn id_after(id: u32) -> u32 {
    if id == u32::MAX {
        0
    } else {
        (id + 1) as u32
    }
}

impl FileIdCounter {
    pub fn new(next: u32) -> (counter: FileIdCounter)
        ensures
            counter@ == next,
    {
        FileIdCounter { next }
    }

    /// The id that is taken next.
    pub fn peek(&self) -> (file_id: u32)
        ensures
            file_id == self@,
    {
        self.next
    }

    /// Takes the next id.
    pub fn claim(&mut self) -> (file_id: u32)
        ensures
            file_id == old(self)@,
            final(self)@ == id_after(old(self)@),
    {
        let file_id = self.next;
        self.next = file_id.wrapping_add(1);
        file_id
    }
}

/// The decimal digit `d` as a character.
pub open spec fn digit_char(d: nat) -> char {
    (48 + d) as char
}

/// The low `width` decimal digits of `n`, most significant first.
pub open spec fn padded(n: nat, width: nat) -> Seq<char>
    decreases width,
{
    if width == 0 {
        Seq::empty()
    } else {
        padded(n / 10, (width - 1) as nat).push(digit_char(n % 10))
    }
}

/// The number that a run of decimal digits stands for.
pub open spec fn digits_value(digits: Seq<char>) -> nat
    decreases digits.len(),
{
    if digits.len() == 0 {
        0
    } else {
        digits_value(digits.drop_last()) * 10 + ((digits.last() as nat) - 48) as nat
    }
}

/// Whether `c` is a decimal digit.
pub open spec fn is_digit(c: char) -> bool {
    '0' <= c <= '9'
}

/// The id that is the name of a data file, or `None` if the name is not one of a data file.
pub open spec fn data_file_id(name: Seq<char>) -> Option<u32> {
    let stem = name.take(20);
    if name.len() == 33 && name.skip(20) == ".bitcask.data"@ && (forall|i: int|
        0 <= i < 20 ==> is_digit(#[trigger] stem[i])) && digits_value(stem) <= u32::MAX {
        Some(digits_value(stem) as u32)
    } else {
        None
    }
}

/// The digit as a string.
fn digit_str(d: u32) -> (s: &'static str)
    requires
        d < 10,
    ensures
        s@ == seq![digit_char(d as nat)],
{
    proof {
        reveal_strlit("0");
        reveal_strlit("1");
        reveal_strlit("2");
        reveal_strlit("3");
        reveal_strlit("4");
        reveal_strlit("5");
        reveal_strlit("6");
        reveal_strlit("7");
        reveal_strlit("8");
        reveal_strlit("9");
    }
    let s: &'static str = match d {
        0 => "0",
        1 => "1",
        2 => "2",
        3 => "3",
        4 => "4",
        5 => "5",
        6 => "6",
        7 => "7",
        8 => "8",
        _ => "9",
    };
    assert(s@ =~= seq![digit_char(d as nat)]);
    s
}

/// Appends the low `width` decimal digits of `n`.
fn push_padded(text: &mut String, n: u32, width: usize)
    ensures
        final(text)@ == old(text)@ + padded(n as nat, width as nat),
    decreases width,
{
    if width > 0 {
        push_padded(text, n / 10, width - 1);
        text.append(digit_str(n % 10));
    }
    assert(text@ =~= old(text)@ + padded(n as nat, width as nat));
}

/// The id that is the name of a data file. A name has exactly twenty digits before its suffix.
pub fn parse_data_file_id(name: &str) -> (id: Option<u32>)
    ensures
        id == data_file_id(name@),
{
    let suffix = ".bitcask.data";
    proof {
        reveal_strlit(".bitcask.data");
    }
    if name.unicode_len() != 33 {
        return None;
    }
    let mut i: usize = 0;
    while i < 13
        invariant
            i <= 13,
            name@.len() == 33,
            suffix@ == ".bitcask.data"@,
            suffix@.len() == 13,
            forall|j: int| 0 <= j < i ==> name@[20 + j] == suffix@[j],
        decreases 13 - i,
    {
        if name.get_char(20 + i) != suffix.get_char(i) {
            assert(name@.skip(20)[i as int] != suffix@[i as int]);
            return None;
        }
        i += 1;
    }
    assert(name@.skip(20) =~= suffix@);
    let ghost stem = name@.take(20);
    let mut value: u64 = 0;
    let mut too_large = false;
    let mut at: usize = 0;
    while at < 20
        invariant
            at <= 20,
            name@.len() == 33,
            stem == name@.take(20),
            name@.skip(20) == ".bitcask.data"@,
            forall|j: int| 0 <= j < at ==> is_digit(#[trigger] stem[j]),
            value <= u32::MAX,
            !too_large ==> value == digits_value(stem.take(at as int)),
            too_large ==> digits_value(stem.take(at as int)) > u32::MAX,
        decreases 20 - at,
    {
        let c = name.get_char(at);
        assert(c == stem[at as int]);
        if !('0' <= c && c <= '9') {
            return None;
        }
        assert(stem.take(at + 1).drop_last() =~= stem.take(at as int));
        let next: u64 = value * 10 + (c as u32 - 48) as u64;
        if next > u32::MAX as u64 {
            too_large = true;
        }
        if !too_large {
            value = next;
        }
        at += 1;
    }
    assert(stem.take(20) =~= stem);
    if too_large {
        None
    } else {
        Some(value as u32)
    }
}

/// Inserts `id` into an ascending run, which stays ascending.
fn insert_ascending(ids: &mut Vec<u32>, id: u32)
    requires
        ascending(old(ids)@),
    ensures
        ascending(final(ids)@),
        final(ids)@.to_multiset() == old(ids)@.to_multiset().insert(id),
{
    let mut at: usize = ids.len();
    while at > 0 && ids[at - 1] > id
        invariant
            at <= ids@.len(),
            ids@ == old(ids)@,
            ascending(ids@),
            forall|j: int| at <= j < ids@.len() ==> ids@[j] > id,
        decreases at,
    {
        at -= 1;
    }
    ids.insert(at, id);
    proof {
        vstd::seq_lib::to_multiset_insert(old(ids)@, at as int, id);
    }
}

/// Whether no element is followed by a smaller one.
pub open spec fn ascending(ids: Seq<u32>) -> bool {
    forall|i: int, j: int| 0 <= i <= j < ids.len() ==> ids[i] <= ids[j]
}

/// The ids of the names that are those of data files, in the order of the names.
pub open spec fn data_file_ids(names: Seq<String>) -> Seq<u32>
    decreases names.len(),
{
    if names.len() == 0 {
        Seq::empty()
    } else {
        let rest = data_file_ids(names.drop_last());
        match data_file_id(names.last()@) {
            Some(id) => rest.push(id),
            None => rest,
        }
    }
}

/// The data files of a directory.
pub struct DataFileSet {}

impl DataFileSet {
    /// The ids of all data files among the names in a directory, in ascending order. Other names
    /// are passed over.
    pub fn discover(names: &[String]) -> (ids: Vec<u32>)
        ensures
            ascending(ids@),
            ids@.to_multiset() == data_file_ids(names@).to_multiset(),
    {
        let mut ids: Vec<u32> = Vec::new();
        let mut i: usize = 0;
        assert(ids@ =~= data_file_ids(names@.take(0)));
        while i < names.len()
            invariant
                i <= names@.len(),
                ascending(ids@),
                ids@.to_multiset() == data_file_ids(names@.take(i as int)).to_multiset(),
            decreases names@.len() - i,
        {
            proof {
                let next = names@.take(i + 1);
                assert(next.drop_last() =~= names@.take(i as int));
                data_file_ids(next.drop_last()).to_multiset_ensures();
            }
            if let Some(id) = parse_data_file_id(names[i].as_str()) {
                insert_ascending(&mut ids, id);
            }
            i += 1;
        }
        assert(names@.take(i as int) =~= names@);
        ids
    }

    /// Name of the data file with the given id.
    pub fn data_file_name(file_id: u32) -> (name: String)
        ensures
            name@ == padded(file_id as nat, 20) + ".bitcask.data"@,
    {
        let mut name = String::new();
        push_padded(&mut name, file_id, 20);
        name.append(".bitcask.data");
        assert(name@ =~= padded(file_id as nat, 20) + ".bitcask.data"@);
        name
    }

    /// Name of the hint file of the data file with the given id.
    pub fn hint_file_name(file_id: u32) -> (name: String)
        ensures
            name@ == padded(file_id as nat, 20) + ".bitcask.hint"@,
    {
        let mut name = String::new();
        push_padded(&mut name, file_id, 20);
        name.append(".bitcask.hint");
        assert(name@ =~= padded(file_id as nat, 20) + ".bitcask.hint"@);
        name
    }
}

/// Ten to the power of `n`.
spec fn pow10(n: nat) -> nat
    decreases n,
{
    if n == 0 {
        1
    } else {
        10 * pow10((n - 1) as nat)
    }
}

proof fn lemma_padded(n: nat, width: nat)
    requires
        n < pow10(width),
    ensures
        padded(n, width).len() == width,
        digits_value(padded(n, width)) == n,
        forall|i: int| 0 <= i < width ==> is_digit(#[trigger] padded(n, width)[i]),
    decreases width,
{
    if width > 0 {
        lemma_padded(n / 10, (width - 1) as nat);
        assert(padded(n, width).drop_last() =~= padded(n / 10, (width - 1) as nat));
    }
}

proof fn lemma_u32_has_twenty_digits(n: u32)
    ensures
        n < pow10(20),
{
    reveal_with_fuel(pow10, 21);
}

/// The name of a data file says which file it is.
pub proof fn law_data_file_name_round_trip(file_id: u32)
    ensures
        data_file_id(padded(file_id as nat, 20) + ".bitcask.data"@) == Some(file_id),
{
    reveal_strlit(".bitcask.data");
    lemma_u32_has_twenty_digits(file_id);
    lemma_padded(file_id as nat, 20);
    let name = padded(file_id as nat, 20) + ".bitcask.data"@;
    assert(name.take(20) =~= padded(file_id as nat, 20));
    assert(name.skip(20) =~= ".bitcask.data"@);
}

/// The name of a hint file is not taken for one of a data file.
pub proof fn law_hint_file_name_is_no_data_file(file_id: u32)
    ensures
        data_file_id(padded(file_id as nat, 20) + ".bitcask.hint"@) is None,
{
    reveal_strlit(".bitcask.data");
    reveal_strlit(".bitcask.hint");
    lemma_u32_has_twenty_digits(file_id);
    lemma_padded(file_id as nat, 20);
    let name = padded(file_id as nat, 20) + ".bitcask.hint"@;
    assert(name.skip(20)[9] == 'h');
}

/// Whether `a` comes before `b` in the order of dictionaries.
pub open spec fn comes_before(a: Seq<char>, b: Seq<char>) -> bool {
    exists|i: int|
        0 <= i < a.len() && i < b.len() && #[trigger] a[i] < b[i] && a.take(i) == b.take(i)
}

proof fn lemma_padded_order(x: nat, y: nat, width: nat, suffix: Seq<char>)
    requires
        x < y < pow10(width),
    ensures
        comes_before(padded(x, width) + suffix, padded(y, width) + suffix),
    decreases width,
{
    let a = padded(x, width) + suffix;
    let b = padded(y, width) + suffix;
    lemma_padded(x, width);
    lemma_padded(y, width);
    let last = (width - 1) as nat;
    lemma_padded(x / 10, last);
    lemma_padded(y / 10, last);
    if x / 10 < y / 10 {
        lemma_padded_order(x / 10, y / 10, last, seq![digit_char(x % 10)]);
        let c = padded(x / 10, last) + seq![digit_char(x % 10)];
        let d = padded(y / 10, last) + seq![digit_char(x % 10)];
        let i = choose|i: int|
            0 <= i < c.len() && i < d.len() && #[trigger] c[i] < d[i] && c.take(i) == d.take(i);
        assert(i < last);
        assert(a[i] == c[i] && b[i] == d[i]);
        assert forall|j: int| 0 <= j < i implies a[j] == b[j] by {
            assert(c.take(i)[j] == d.take(i)[j]);
        }
        assert(a.take(i) =~= b.take(i));
    } else {
        assert(a[last as int] == digit_char(x % 10) && b[last as int] == digit_char(y % 10));
        assert(a.take(last as int) =~= padded(x / 10, last));
        assert(b.take(last as int) =~= padded(y / 10, last));
    }
}

/// The names of data files come in the order of the ids.
pub proof fn law_data_file_names_sort_by_id(first: u32, second: u32)
    requires
        first < second,
    ensures
        comes_before(
            padded(first as nat, 20) + ".bitcask.data"@,
            padded(second as nat, 20) + ".bitcask.data"@,
        ),
{
    lemma_u32_has_twenty_digits(second);
    lemma_padded_order(first as nat, second as nat, 20, ".bitcask.data"@);
}

} // verus!
