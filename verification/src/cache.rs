//! The record form of a transition dictionary, as it is written to and
//! read from a cache file.

use vstd::prelude::*;
use crate::dictionary::{
    distinct_keys, has_key, key_index, lemma_key_index, lemma_records_map, put, records_map,
    TransitionDictionary,
};
use crate::io::{SafeArguments, Unit};
use crate::text::{chars_of, last_char, string_of, views, Token};

verus! {

/// A key with its successors, as the contracts see a record.
pub type Record = (Token, Seq<Token>);

/// One cache record: a token and the tokens seen right after it.
#[derive(Debug, PartialEq, Eq)]
pub struct Entry {
    pub key: String,
    pub pairs: Vec<String>,
}

impl View for Entry {
    type V = Record;

    open spec fn view(&self) -> Record {
        (self.key@, views(self.pairs@))
    }
}

impl Entry {
    pub fn new(key: String, pairs: Vec<String>) -> (entry: Self)
        ensures
            entry.key == key,
            entry.pairs == pairs,
    {
        Self { key, pairs }
    }
}

/// The records of a cache file, in file order.
#[derive(Debug, PartialEq, Eq)]
pub struct Entries {
    pub entries: Vec<Entry>,
}

impl View for Entries {
    type V = Seq<Record>;

    open spec fn view(&self) -> Seq<Record> {
        self.entries@.map_values(|e: Entry| e@)
    }
}

impl Entries {
    pub fn new() -> (entries: Self)
        ensures
            entries@ == Seq::<Record>::empty(),
    {
        Self { entries: Vec::new() }
    }

    pub fn add_entry(&mut self, entry: Entry)
        ensures
            final(self)@ == old(self)@.push(entry@),
            final(self).entries@ == old(self).entries@.push(entry),
    {
        self.entries.push(entry)
    }
}

/// The records of the dictionary that a cache file is loaded into: each
/// record of the file is bound in turn, so the last record of a key wins
/// and the keys stand in the order of their first record.
pub open spec fn restored(records: Seq<Record>) -> Seq<Record>
    decreases records.len(),
{
    if records.len() == 0 {
        seq![]
    } else {
        put(restored(records.drop_last()), records.last().0, records.last().1)
    }
}

/// A copy of `strings`.
fn copy_strings(strings: &Vec<String>) -> (copy: Vec<String>)
    ensures
        copy@ == strings@,
{
    let mut copy: Vec<String> = Vec::new();
    let mut i: usize = 0;
    while i < strings.len()
        invariant
            i <= strings.len(),
            copy@ == strings@.take(i as int),
        decreases strings.len() - i,
    {
        copy.push(strings[i].clone());
        proof {
            assert(copy@ =~= strings@.take(i + 1));
        }
        i = i + 1;
    }
    proof {
        assert(strings@.take(i as int) =~= strings@);
    }
    copy
}

/// The dictionary that the records of a cache file stand for.
pub fn load_dict(entries: &Entries) -> (dict: TransitionDictionary)
    ensures
        dict.wf(),
        dict.records() == restored(entries@),
        dict@ == records_map(entries@),
{
    let mut dict = TransitionDictionary::new();
    let mut i: usize = 0;
    while i < entries.entries.len()
        invariant
            i <= entries.entries.len(),
            dict.wf(),
            dict.records() == restored(entries@.take(i as int)),
            dict@ == records_map(entries@.take(i as int)),
        decreases entries.entries.len() - i,
    {
        let entry = &entries.entries[i];
        proof {
            let now = entries@.take(i + 1);
            assert(now.drop_last() =~= entries@.take(i as int));
            assert(now.last() == entry@);
        }
        dict.insert(entry.key.clone(), copy_strings(&entry.pairs));
        i = i + 1;
    }
    proof {
        assert(entries@.take(i as int) =~= entries@);
    }
    dict
}

/// The records that `dict` is saved as: one for each key, in the order of
/// the keys. The dictionary stays as it is.
pub fn save_dict(dict: &TransitionDictionary) -> (entries: Entries)
    ensures
        entries@ == dict.records(),
{
    let mut entries = Entries::new();
    let mut i: usize = 0;
    while i < dict.len()
        invariant
            i <= dict.records().len(),
            entries@ == dict.records().take(i as int),
        decreases dict.records().len() - i,
    {
        let entry = Entry::new(dict.key_at(i).clone(), copy_strings(dict.successors_at(i)));
        proof {
            assert(entry@ == dict.records()[i as int]);
            assert(dict.records().take(i as int).push(entry@) =~= dict.records().take(i + 1));
        }
        entries.add_entry(entry);
        i = i + 1;
    }
    proof {
        assert(dict.records().take(i as int) =~= dict.records());
    }
    entries
}

/// Loading records with distinct keys gives them back as they are.
pub proof fn lemma_restored_distinct(records: Seq<Record>)
    requires
        distinct_keys(records),
    ensures
        restored(records) == records,
    decreases records.len(),
{
    if records.len() > 0 {
        let front = records.drop_last();
        let last = records.last();
        assert(distinct_keys(front)) by {
            assert forall|i: int, j: int| 0 <= i < j < front.len() implies (#[trigger] front[i]).0
                != (#[trigger] front[j]).0 by {
                assert(records[i].0 != records[j].0);
            }
        }
        lemma_restored_distinct(front);
        assert(!has_key(front, last.0)) by {
            if has_key(front, last.0) {
                let i = key_index(front, last.0);
                assert(records[i].0 != records[records.len() - 1].0);
            }
        }
        assert(front.push((last.0, last.1)) =~= records);
    }
}

/// Records with distinct keys that are a rearrangement of one another
/// stand for the same mapping.
pub proof fn lemma_rearranged(records: Seq<Record>, shuffled: Seq<Record>)
    requires
        distinct_keys(records),
        shuffled.to_multiset() == records.to_multiset(),
    ensures
        distinct_keys(shuffled),
        records_map(shuffled) == records_map(records),
{
    assert(records.no_duplicates()) by {
        assert forall|i: int, j: int|
            0 <= i < records.len() && 0 <= j < records.len() && i != j implies records[i]
            != records[j] by {
            if i < j {
                assert(records[i].0 != records[j].0);
            } else {
                assert(records[j].0 != records[i].0);
            }
        }
    }
    records.lemma_multiset_has_no_duplicates();
    shuffled.lemma_multiset_has_no_duplicates_conv();
    assert forall|r: Record| shuffled.contains(r) <==> records.contains(r) by {
        vstd::seq_lib::to_multiset_contains(shuffled, r);
        vstd::seq_lib::to_multiset_contains(records, r);
    }
    assert forall|i: int, j: int| 0 <= i < j < shuffled.len() implies (#[trigger] shuffled[i]).0
        != (#[trigger] shuffled[j]).0 by {
        if shuffled[i].0 == shuffled[j].0 {
            assert(shuffled.contains(shuffled[i]));
            assert(shuffled.contains(shuffled[j]));
            let p = choose|p: int| 0 <= p < records.len() && records[p] == shuffled[i];
            let q = choose|q: int| 0 <= q < records.len() && records[q] == shuffled[j];
            lemma_key_index(records, p);
            lemma_key_index(records, q);
            assert(shuffled[i] == shuffled[j]);
        }
    }
    lemma_records_map(records);
    lemma_records_map(shuffled);
    let left = records_map(shuffled);
    let right = records_map(records);
    assert forall|k: Token| left.contains_key(k) <==> right.contains_key(k) by {
        if has_key(shuffled, k) {
            let i = key_index(shuffled, k);
            assert(shuffled.contains(shuffled[i]));
            let p = choose|p: int| 0 <= p < records.len() && records[p] == shuffled[i];
            assert(records[p].0 == k);
        }
        if has_key(records, k) {
            let i = key_index(records, k);
            assert(records.contains(records[i]));
            let p = choose|p: int| 0 <= p < shuffled.len() && shuffled[p] == records[i];
            assert(shuffled[p].0 == k);
        }
    }
    assert forall|k: Token| left.contains_key(k) implies left[k] == right[k] by {
        let i = key_index(shuffled, k);
        assert(shuffled[i].0 == k);
        assert(left[shuffled[i].0] == shuffled[i].1);
        assert(shuffled.contains(shuffled[i]));
        let p = choose|p: int| 0 <= p < records.len() && records[p] == shuffled[i];
        assert(right[records[p].0] == records[p].1);
    }
    assert(left =~= right);
}

/// Saving a dictionary and loading what was saved gives the dictionary
/// back: the same records in the same order, hence the same mapping.
/// The order of the records in the file does not matter: loading any
/// rearrangement of the saved records gives the same mapping.
pub proof fn lemma_round_trip(dict: TransitionDictionary, shuffled: Seq<Record>)
    requires
        dict.wf(),
        shuffled.to_multiset() == dict.records().to_multiset(),
    ensures
        restored(dict.records()) == dict.records(),
        records_map(restored(dict.records())) == dict@,
        restored(shuffled) == shuffled,
        records_map(restored(shuffled)) == dict@,
        restored(shuffled).to_set() == dict.records().to_set(),
{
    lemma_restored_distinct(dict.records());
    lemma_rearranged(dict.records(), shuffled);
    lemma_restored_distinct(shuffled);
    assert forall|r: Record| shuffled.contains(r) <==> dict.records().contains(r) by {
        vstd::seq_lib::to_multiset_contains(shuffled, r);
        vstd::seq_lib::to_multiset_contains(dict.records(), r);
    }
    assert(shuffled.to_set() =~= dict.records().to_set());
}

/// What is left of `path` after its last slash.
pub open spec fn basename(path: Seq<char>) -> Seq<char>
    decreases path.len(),
{
    if path.len() == 0 {
        seq![]
    } else if path.last() == '/' {
        seq![]
    } else {
        basename(path.drop_last()).push(path.last())
    }
}

/// The position of the last period in `name`; -1 where there is none.
pub open spec fn last_period(name: Seq<char>) -> int
    decreases name.len(),
{
    if name.len() == 0 {
        -1
    } else if name.last() == '.' {
        name.len() - 1
    } else {
        last_period(name.drop_last())
    }
}

/// The file name `name` without its extension: what stands before its
/// last period. A name without a period, or with none but the one that
/// it starts with, has no extension and is its own stem.
pub open spec fn file_stem(name: Seq<char>) -> Seq<char> {
    if last_period(name) <= 0 {
        name
    } else {
        name.take(last_period(name))
    }
}

/// `directory`, ready for a file name to follow: with a slash at its end
/// unless it is empty or ends with one already.
pub open spec fn with_separator(directory: Seq<char>) -> Seq<char> {
    if directory.len() == 0 || directory.last() == '/' {
        directory
    } else {
        directory.push('/')
    }
}

/// The extension of the cache files that hold `unit`.
pub open spec fn extension(unit: Unit) -> Seq<char> {
    match unit {
        Unit::Word => "word"@,
        Unit::Grapheme => "char"@,
    }
}

/// Where the dictionary of a subtitle is cached: in `cache_directory`,
/// under the name of the subtitle file, with the unit in place of that
/// name's extension.
pub open spec fn cache_location(cache_directory: Seq<char>, subtitle: Seq<char>, unit: Unit) -> Seq<
    char,
> {
    with_separator(cache_directory) + file_stem(basename(subtitle)) + seq!['.'] + extension(unit)
}

/// The name of the file at the end of `path`.
pub fn file_name(path: &str) -> (name: String)
    ensures
        name@ == basename(path@),
{
    let chars = chars_of(path);
    let mut start: usize = 0;
    let mut i: usize = 0;
    while i < chars.len()
        invariant
            chars@ == path@,
            start <= i <= chars.len(),
            basename(chars@.take(i as int)) == chars@.subrange(start as int, i as int),
        decreases chars.len() - i,
    {
        proof {
            let now = chars@.take(i + 1);
            assert(now.drop_last() =~= chars@.take(i as int));
            assert(now.last() == chars[i as int]);
            assert(chars@.subrange(start as int, i as int).push(chars[i as int])
                =~= chars@.subrange(start as int, i + 1));
            assert(chars@.subrange(i + 1, i + 1) =~= seq![]);
        }
        if chars[i] == '/' {
            start = i + 1;
        }
        i = i + 1;
    }
    proof {
        assert(chars@.take(i as int) =~= chars@);
    }
    string_of(&chars, start, i)
}

/// The file name `name` without its extension.
pub fn stem_of(name: &str) -> (stem: String)
    ensures
        stem@ == file_stem(name@),
{
    let chars = chars_of(name);
    let mut found = false;
    let mut at: usize = 0;
    let mut i: usize = 0;
    while i < chars.len()
        invariant
            chars@ == name@,
            i <= chars.len(),
            found ==> at < i,
            last_period(chars@.take(i as int)) == if found {
                at as int
            } else {
                -1
            },
        decreases chars.len() - i,
    {
        proof {
            let now = chars@.take(i + 1);
            assert(now.drop_last() =~= chars@.take(i as int));
            assert(now.last() == chars[i as int]);
        }
        if chars[i] == '.' {
            found = true;
            at = i;
        }
        i = i + 1;
    }
    proof {
        assert(chars@.take(i as int) =~= chars@);
        assert(chars@.subrange(0, chars@.len() as int) =~= chars@);
    }
    if found && at > 0 {
        string_of(&chars, 0, at)
    } else {
        string_of(&chars, 0, i)
    }
}

/// The path of the cache file that belongs to the arguments.
pub fn cache_path(arguments: &SafeArguments) -> (path: String)
    ensures
        path@ == cache_location(
            arguments.cache_directory@,
            arguments.subtitle@,
            arguments.unit,
        ),
{
    proof {
        reveal_strlit("/");
        reveal_strlit(".");
        assert("/"@ =~= seq!['/']);
        assert("."@ =~= seq!['.']);
    }
    let mut path = arguments.cache_directory.clone();
    match last_char(path.as_str()) {
        Some(c) => {
            if c != '/' {
                path.append("/");
            }
        },
        None => {},
    }
    assert(path@ =~= with_separator(arguments.cache_directory@));
    path.append(stem_of(file_name(arguments.subtitle.as_str()).as_str()).as_str());
    path.append(".");
    path.append(arguments.unit.extension().as_str());
    path
}

} // verus!
