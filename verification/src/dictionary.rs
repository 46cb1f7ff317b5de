//! The transition dictionary: for each token, the tokens observed right
//! after it, one entry per observation.

use vstd::prelude::*;
use crate::cache::{Entry, Record};
use crate::text::{ends_with_period, has_trailing_period, views, Token};

verus! {

/// Whether some record of `records` is keyed by `key`.
pub open spec fn has_key(records: Seq<Record>, key: Token) -> bool {
    exists|i: int| 0 <= i < records.len() && (#[trigger] records[i]).0 == key
}

/// The position of a record keyed by `key`, where there is one.
pub open spec fn key_index(records: Seq<Record>, key: Token) -> int {
    choose|i: int| 0 <= i < records.len() && (#[trigger] records[i]).0 == key
}

/// No two records share a key.
pub open spec fn distinct_keys(records: Seq<Record>) -> bool {
    forall|i: int, j: int|
        0 <= i < j < records.len() ==> (#[trigger] records[i]).0 != (#[trigger] records[j]).0
}

/// The mapping that a sequence of records stands for. Where a key occurs
/// more than once, its last record wins.
pub open spec fn records_map(records: Seq<Record>) -> Map<Token, Seq<Token>>
    decreases records.len(),
{
    if records.len() == 0 {
        Map::empty()
    } else {
        records_map(records.drop_last()).insert(records.last().0, records.last().1)
    }
}

/// The records after `key` is bound to `successors`: an existing record
/// is replaced where it stands, a new one goes to the end.
pub open spec fn put(records: Seq<Record>, key: Token, successors: Seq<Token>) -> Seq<Record> {
    if has_key(records, key) {
        records.update(key_index(records, key), (key, successors))
    } else {
        records.push((key, successors))
    }
}

/// The records after the adjacent pair (`current`, `next`) was observed.
/// A known key gains `next` as one more successor. An unknown key is
/// entered with `next` as its only successor, unless it ends with a
/// period: such a pair leaves the records as they are.
pub open spec fn observe(records: Seq<Record>, current: Token, next: Token) -> Seq<Record> {
    if has_key(records, current) {
        let i = key_index(records, current);
        records.update(i, (current, records[i].1.push(next)))
    } else if ends_with_period(current) {
        records
    } else {
        records.push((current, seq![next]))
    }
}

/// The records after every adjacent pair of `tokens` was observed, from
/// left to right. The last token has no successor and adds no pair of
/// its own.
pub open spec fn absorb(records: Seq<Record>, tokens: Seq<Token>) -> Seq<Record>
    decreases tokens.len(),
{
    if tokens.len() < 2 {
        records
    } else {
        observe(
            absorb(records, tokens.drop_last()),
            tokens[tokens.len() - 2],
            tokens.last(),
        )
    }
}

/// What holds of records that grew from observations alone: no key
/// occurs twice, no key is empty or ends with a period, and no key is
/// without a successor.
pub open spec fn grown(records: Seq<Record>) -> bool {
    &&& distinct_keys(records)
    &&& forall|i: int|
        0 <= i < records.len() ==> {
            &&& (#[trigger] records[i]).0.len() > 0
            &&& !ends_with_period(records[i].0)
            &&& records[i].1.len() > 0
        }
}

/// In records with distinct keys, the only position of a key is its index.
pub proof fn lemma_key_index(records: Seq<Record>, i: int)
    requires
        distinct_keys(records),
        0 <= i < records.len(),
    ensures
        has_key(records, records[i].0),
        key_index(records, records[i].0) == i,
{
    assert(records[i].0 == records[i].0);
    let j = key_index(records, records[i].0);
    assert(0 <= j < records.len() && records[j].0 == records[i].0);
    if j < i {
        assert(records[j].0 != records[i].0);
    } else if i < j {
        assert(records[i].0 != records[j].0);
    }
}

/// The mapping of a record sequence holds exactly the keys of its
/// records; with distinct keys it binds each key to its record's
/// successors.
pub proof fn lemma_records_map(records: Seq<Record>)
    ensures
        forall|k: Token| #[trigger] records_map(records).contains_key(k) <==> has_key(records, k),
        distinct_keys(records) ==> forall|i: int|
            0 <= i < records.len() ==> records_map(records)[(#[trigger] records[i]).0]
                == records[i].1,
    decreases records.len(),
{
    if records.len() == 0 {
    } else {
        let front = records.drop_last();
        let last = records.last();
        lemma_records_map(front);
        assert forall|k: Token| #[trigger]
            records_map(records).contains_key(k) <==> has_key(records, k) by {
            if has_key(records, k) {
                let i = key_index(records, k);
                if i < records.len() - 1 {
                    assert(front[i].0 == k);
                    assert(records_map(front).contains_key(k));
                } else {
                    assert(k == last.0);
                }
            }
            if records_map(records).contains_key(k) {
                if k == last.0 {
                    assert(records[records.len() - 1].0 == k);
                } else {
                    assert(records_map(front).contains_key(k));
                    assert(has_key(front, k));
                    let i = key_index(front, k);
                    assert(records[i].0 == k);
                }
            }
        }
        if distinct_keys(records) {
            assert(distinct_keys(front)) by {
                assert forall|i: int, j: int| 0 <= i < j < front.len() implies (#[trigger] front[i]).0
                    != (#[trigger] front[j]).0 by {
                    assert(records[i].0 != records[j].0);
                }
            }
            assert forall|i: int| 0 <= i < records.len() implies records_map(records)[(
            #[trigger] records[i]).0] == records[i].1 by {
                if i < records.len() - 1 {
                    assert(records[i].0 != records[records.len() - 1].0);
                    assert(front[i] == records[i]);
                }
            }
        }
    }
}

/// A mapping from each token to the sequence of tokens observed right
/// after it. The keys keep the order in which they were first entered.
pub struct TransitionDictionary {
    entries: Vec<Entry>,
}

impl View for TransitionDictionary {
    type V = Map<Token, Seq<Token>>;

    open spec fn view(&self) -> Map<Token, Seq<Token>> {
        records_map(self.records())
    }
}

impl TransitionDictionary {
    /// The records of the dictionary, in the order of their keys' first
    /// entry.
    pub closed spec fn records(&self) -> Seq<Record> {
        self.entries@.map_values(|e: Entry| e@)
    }

    /// No key occurs twice.
    pub open spec fn wf(&self) -> bool {
        distinct_keys(self.records())
    }

    /// An empty dictionary.
    pub fn new() -> (dict: Self)
        ensures
            dict.wf(),
            dict.records() == Seq::<Record>::empty(),
    {
        Self { entries: Vec::new() }
    }

    /// The number of keys.
    pub fn len(&self) -> (n: usize)
        ensures
            n == self.records().len(),
    {
        self.entries.len()
    }

    /// The position of `key` among the records, if it is a key.
    pub fn position(&self, key: &String) -> (found: Option<usize>)
        requires
            self.wf(),
        ensures
            found is Some <==> has_key(self.records(), key@),
            found matches Some(i) ==> i == key_index(self.records(), key@) && i
                < self.records().len(),
    {
        let mut i: usize = 0;
        while i < self.entries.len()
            invariant
                self.wf(),
                i <= self.entries.len(),
                forall|j: int| 0 <= j < i ==> (#[trigger] self.records()[j]).0 != key@,
            decreases self.entries.len() - i,
        {
            if self.entries[i].key == *key {
                proof {
                    assert(self.records()[i as int].0 == key@);
                    lemma_key_index(self.records(), i as int);
                }
                return Some(i);
            }
            assert(self.records()[i as int].0 != key@);
            i = i + 1;
        }
        None
    }

    /// The key at position `i`.
    pub fn key_at(&self, i: usize) -> (key: &String)
        requires
            i < self.records().len(),
        ensures
            key@ == self.records()[i as int].0,
    {
        &self.entries[i].key
    }

    /// The successors of the key at position `i`.
    pub fn successors_at(&self, i: usize) -> (successors: &Vec<String>)
        requires
            i < self.records().len(),
        ensures
            views(successors@) == self.records()[i as int].1,
    {
        &self.entries[i].pairs
    }

    /// The successors recorded for `key`, if it is a key.
    pub fn get(&self, key: &String) -> (successors: Option<&Vec<String>>)
        requires
            self.wf(),
        ensures
            successors is Some <==> self@.contains_key(key@),
            successors matches Some(list) ==> views(list@) == self@[key@],
    {
        proof {
            lemma_records_map(self.records());
        }
        match self.position(key) {
            Some(i) => Some(&self.entries[i].pairs),
            None => None,
        }
    }

    /// Binds `key` to `successors`, replacing what it was bound to.
    pub fn insert(&mut self, key: String, successors: Vec<String>)
        requires
            old(self).wf(),
        ensures
            final(self).wf(),
            final(self).records() == put(old(self).records(), key@, views(successors@)),
            final(self)@ == old(self)@.insert(key@, views(successors@)),
    {
        let ghost before = self.records();
        match self.position(&key) {
            Some(i) => {
                self.entries.set(i, Entry::new(key, successors));
                proof {
                    let after = self.records();
                    assert(after =~= before.update(i as int, (key@, views(successors@))));
                    lemma_update_keeps_keys(before, i as int, views(successors@));
                }
            },
            None => {
                self.entries.push(Entry::new(key, successors));
                proof {
                    let after = self.records();
                    assert(after =~= before.push((key@, views(successors@))));
                    lemma_push_new_key(before, key@, views(successors@));
                }
            },
        }
    }

    /// Records one observation of `next` right after `current`.
    pub fn observe(&mut self, current: String, next: String)
        requires
            old(self).wf(),
        ensures
            final(self).wf(),
            final(self).records() == observe(old(self).records(), current@, next@),
    {
        let ghost before = self.records();
        match self.position(&current) {
            Some(i) => {
                self.entries[i].pairs.push(next);
                proof {
                    let after = self.records();
                    assert(after =~= before.update(
                        i as int,
                        (current@, before[i as int].1.push(next@)),
                    )) by {
                        assert(views(old(self).entries@[i as int].pairs@.push(next)) =~= views(
                            old(self).entries@[i as int].pairs@,
                        ).push(next@));
                    }
                    lemma_update_keeps_keys(before, i as int, before[i as int].1.push(next@));
                }
            },
            None => {
                if !has_trailing_period(current.as_str()) {
                    let mut pairs: Vec<String> = Vec::new();
                    pairs.push(next);
                    self.entries.push(Entry::new(current, pairs));
                    proof {
                        let after = self.records();
                        assert(views(pairs@) =~= seq![next@]);
                        assert(after =~= before.push((current@, seq![next@])));
                        lemma_push_new_key(before, current@, seq![next@]);
                    }
                }
            },
        }
    }

    /// Records every adjacent pair of `tokens`, from left to right.
    pub fn absorb(&mut self, tokens: &Vec<String>)
        requires
            old(self).wf(),
        ensures
            final(self).wf(),
            final(self).records() == absorb(old(self).records(), views(tokens@)),
    {
        if tokens.len() < 2 {
            return ;
        }
        let ghost all = views(tokens@);
        let mut i: usize = 1;
        while i < tokens.len()
            invariant
                1 <= i <= tokens.len(),
                all == views(tokens@),
                self.wf(),
                self.records() == absorb(old(self).records(), all.take(i as int)),
            decreases tokens.len() - i,
        {
            let current = tokens[i - 1].clone();
            let next = tokens[i].clone();
            proof {
                let now = all.take(i + 1);
                assert(now.drop_last() =~= all.take(i as int));
                assert(now[now.len() - 2] == current@);
                assert(now.last() == next@);
            }
            self.observe(current, next);
            i = i + 1;
        }
        proof {
            assert(all.take(i as int) =~= all);
        }
    }
}

/// Replacing the successors of the record at `i` keeps the keys distinct
/// and rebinds that record's key in the mapping.
pub proof fn lemma_update_keeps_keys(records: Seq<Record>, i: int, successors: Seq<Token>)
    requires
        distinct_keys(records),
        0 <= i < records.len(),
    ensures
        distinct_keys(records.update(i, (records[i].0, successors))),
        records_map(records.update(i, (records[i].0, successors))) == records_map(records).insert(
            records[i].0,
            successors,
        ),
{
    let updated = records.update(i, (records[i].0, successors));
    assert(distinct_keys(updated)) by {
        assert forall|a: int, b: int| 0 <= a < b < updated.len() implies (#[trigger] updated[a]).0
            != (#[trigger] updated[b]).0 by {
            assert(records[a].0 != records[b].0);
        }
    }
    lemma_records_map(records);
    lemma_records_map(updated);
    let left = records_map(updated);
    let right = records_map(records).insert(records[i].0, successors);
    assert forall|k: Token| left.contains_key(k) <==> right.contains_key(k) by {
        if has_key(updated, k) {
            let j = key_index(updated, k);
            assert(records[j].0 == k);
        }
        if has_key(records, k) {
            let j = key_index(records, k);
            assert(updated[j].0 == k);
        }
        if k == records[i].0 {
            assert(updated[i].0 == k);
        }
    }
    assert forall|k: Token| left.contains_key(k) implies left[k] == right[k] by {
        let j = key_index(updated, k);
        assert(updated[j].0 == k);
        assert(left[updated[j].0] == updated[j].1);
        if j != i {
            assert(records[j].0 == k);
            assert(records_map(records)[records[j].0] == records[j].1);
            if j < i {
                assert(records[j].0 != records[i].0);
            } else {
                assert(records[i].0 != records[j].0);
            }
        }
    }
    assert(left =~= right);
}

/// Appending a record under a key not yet present keeps the keys
/// distinct and binds that key in the mapping.
pub proof fn lemma_push_new_key(records: Seq<Record>, key: Token, successors: Seq<Token>)
    requires
        distinct_keys(records),
        !has_key(records, key),
    ensures
        distinct_keys(records.push((key, successors))),
        records_map(records.push((key, successors))) == records_map(records).insert(
            key,
            successors,
        ),
{
    let pushed = records.push((key, successors));
    assert(pushed.drop_last() =~= records);
    assert forall|a: int, b: int| 0 <= a < b < pushed.len() implies (#[trigger] pushed[a]).0 != (
    #[trigger] pushed[b]).0 by {
        if b == records.len() {
            assert(records[a].0 != key);
        } else {
            assert(records[a].0 != records[b].0);
        }
    }
}

/// Observing a pair that starts with a token of at least one character
/// keeps grown records grown.
pub proof fn lemma_observe_grown(records: Seq<Record>, current: Token, next: Token)
    requires
        grown(records),
        current.len() > 0,
    ensures
        grown(observe(records, current, next)),
{
    let after = observe(records, current, next);
    if has_key(records, current) {
        let i = key_index(records, current);
        lemma_update_keeps_keys(records, i, records[i].1.push(next));
        assert forall|j: int| 0 <= j < after.len() implies {
            &&& (#[trigger] after[j]).0.len() > 0
            &&& !ends_with_period(after[j].0)
            &&& after[j].1.len() > 0
        } by {
            assert(after[j].0 == records[j].0);
            if j != i {
                assert(after[j] == records[j]);
            }
        }
    } else if !ends_with_period(current) {
        lemma_push_new_key(records, current, seq![next]);
        assert forall|j: int| 0 <= j < after.len() implies {
            &&& (#[trigger] after[j]).0.len() > 0
            &&& !ends_with_period(after[j].0)
            &&& after[j].1.len() > 0
        } by {
            if j < records.len() {
                assert(after[j] == records[j]);
            }
        }
    }
}

/// Absorbing tokens of at least one character each keeps grown records
/// grown.
pub proof fn lemma_absorb_grown(records: Seq<Record>, tokens: Seq<Token>)
    requires
        grown(records),
        forall|i: int| 0 <= i < tokens.len() ==> (#[trigger] tokens[i]).len() > 0,
    ensures
        grown(absorb(records, tokens)),
    decreases tokens.len(),
{
    if tokens.len() >= 2 {
        let front = tokens.drop_last();
        assert forall|i: int| 0 <= i < front.len() implies (#[trigger] front[i]).len() > 0 by {
            assert(front[i] == tokens[i]);
        }
        lemma_absorb_grown(records, front);
        lemma_observe_grown(absorb(records, front), tokens[tokens.len() - 2], tokens.last());
    }
}

} // verus!
