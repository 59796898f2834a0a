//! The frequency table: how often each key was seen.

use crate::order::{
    key_lt, keys_rise, lemma_key_lt_transitive, lemma_key_order_total, place_of, Place,
};
use vstd::prelude::*;
use vstd::string::*;

verus! {

/// The sum of `counts`.
pub open spec fn sum(counts: Seq<usize>) -> nat
    decreases counts.len(),
{
    if counts.len() == 0 {
        0
    } else {
        sum(counts.drop_last()) + counts.last() as nat
    }
}

/// How often `key` occurs in `keys`.
pub open spec fn occurrences(keys: Seq<Seq<char>>, key: Seq<char>) -> nat
    decreases keys.len(),
{
    if keys.len() == 0 {
        0
    } else {
        occurrences(keys.drop_last(), key) + if keys.last() == key {
            1nat
        } else {
            0nat
        }
    }
}

/// The count of each key that occurs in `keys`; a key that does not occur has no count.
pub open spec fn tally(keys: Seq<Seq<char>>) -> Map<Seq<char>, nat> {
    Map::new(|key: Seq<char>| occurrences(keys, key) > 0, |key: Seq<char>| occurrences(keys, key))
}

/// The map that takes each of `keys` to the count beside it.
pub open spec fn paired(keys: Seq<Seq<char>>, counts: Seq<usize>) -> Map<Seq<char>, nat> {
    Map::new(
        |key: Seq<char>| keys.contains(key),
        |key: Seq<char>| counts[keys.index_of(key)] as nat,
    )
}

/// One more key counted: its count rises by one, from nothing if need be.
pub proof fn lemma_tally_push(keys: Seq<Seq<char>>, key: Seq<char>)
    ensures
        tally(keys.push(key)) == tally(keys).insert(key, occurrences(keys, key) + 1),
{
    let more = keys.push(key);
    assert(more.drop_last() =~= keys);
    assert(tally(more) =~= tally(keys).insert(key, occurrences(keys, key) + 1));
}

/// The key counted last has a count.
pub proof fn lemma_tally_last(keys: Seq<Seq<char>>)
    requires
        keys.len() > 0,
    ensures
        tally(keys).contains_key(keys.last()),
{
}

/// A key that occurs among `keys` has the number of its occurrences as its count, which
/// is 1 at least; a key that does not occur has no count.
pub proof fn lemma_tally_counts(keys: Seq<Seq<char>>, key: Seq<char>)
    ensures
        keys.contains(key) <==> tally(keys).contains_key(key),
        keys.contains(key) ==> tally(keys)[key] == occurrences(keys, key) && occurrences(keys, key)
            >= 1,
        !keys.contains(key) ==> occurrences(keys, key) == 0,
        occurrences(keys, key) <= keys.len(),
    decreases keys.len(),
{
    if keys.len() > 0 {
        let before = keys.drop_last();
        lemma_tally_counts(before, key);
        if keys.contains(key) {
            let i = keys.index_of(key);
            if i < keys.len() - 1 {
                assert(before[i] == key);
            }
        }
        if before.contains(key) {
            let i = before.index_of(key);
            assert(keys[i] == key);
        }
        if keys.last() == key {
            assert(keys[keys.len() - 1] == key);
        }
    }
}

/// A count is part of the sum.
pub proof fn lemma_sum_bounds(counts: Seq<usize>, i: int)
    requires
        0 <= i < counts.len(),
    ensures
        counts[i] <= sum(counts),
    decreases counts.len(),
{
    if i < counts.len() - 1 {
        lemma_sum_bounds(counts.drop_last(), i);
    }
}

/// Raising one count by one raises the sum by one.
pub proof fn lemma_sum_update(counts: Seq<usize>, i: int, count: usize)
    requires
        0 <= i < counts.len(),
    ensures
        sum(counts.update(i, count)) + counts[i] == sum(counts) + count,
    decreases counts.len(),
{
    let changed = counts.update(i, count);
    if i < counts.len() - 1 {
        lemma_sum_update(counts.drop_last(), i, count);
        assert(changed.drop_last() =~= counts.drop_last().update(i, count));
    } else {
        assert(changed.drop_last() =~= counts.drop_last());
    }
}

/// A count put in adds itself to the sum.
pub proof fn lemma_sum_insert(counts: Seq<usize>, i: int, count: usize)
    requires
        0 <= i <= counts.len(),
    ensures
        sum(counts.insert(i, count)) == sum(counts) + count,
    decreases counts.len(),
{
    let more = counts.insert(i, count);
    if i < counts.len() {
        lemma_sum_insert(counts.drop_last(), i, count);
        assert(more.drop_last() =~= counts.drop_last().insert(i, count));
    } else {
        assert(more.drop_last() =~= counts);
    }
}

/// In keys that rise, a key stands at one place only.
pub proof fn lemma_rising_keys_place(keys: Seq<Seq<char>>, i: int)
    requires
        keys_rise(keys),
        0 <= i < keys.len(),
    ensures
        keys.contains(keys[i]),
        keys.index_of(keys[i]) == i,
{
    let j = keys.index_of(keys[i]);
    assert(0 <= j < keys.len() && keys[j] == keys[i]);
    lemma_key_order_total(keys[i], keys[j]);
}

/// One key with its count.
#[derive(Debug)]
pub struct Entry {
    pub key: String,
    pub count: usize,
}

/// How often each key was seen. The keys are kept in their order, each of them once.
#[derive(Debug)]
pub struct FrequencyTable {
    entries: Vec<Entry>,
    total: usize,
}

impl FrequencyTable {
    /// The keys, in their order.
    pub closed spec fn keys(&self) -> Seq<Seq<char>> {
        Seq::new(self.entries@.len(), |i: int| self.entries@[i].key@)
    }

    /// The count of each key, in the order of the keys.
    pub closed spec fn counts(&self) -> Seq<usize> {
        Seq::new(self.entries@.len(), |i: int| self.entries@[i].count)
    }

    /// The number of keys that were counted, each as often as it was seen.
    pub closed spec fn total_spec(&self) -> nat {
        self.total as nat
    }

    /// The table is in order: its keys rise, every count is at least 1, and the total
    /// is the sum of the counts.
    pub open spec fn wf(&self) -> bool {
        &&& self.keys().len() == self.counts().len()
        &&& keys_rise(self.keys())
        &&& forall|i: int| 0 <= i < self.counts().len() ==> #[trigger] self.counts()[i] >= 1
        &&& self.total_spec() == sum(self.counts())
    }

    /// The table as a map from each key to its count.
    pub open spec fn view(&self) -> Map<Seq<char>, nat> {
        paired(self.keys(), self.counts())
    }

    /// A table without keys.
    pub fn new() -> (table: FrequencyTable)
        ensures
            table.wf(),
            table.keys().len() == 0,
            table.total_spec() == 0,
            table@ == Map::<Seq<char>, nat>::empty(),
    {
        let table = FrequencyTable { entries: Vec::new(), total: 0 };
        assert(table@ =~= Map::<Seq<char>, nat>::empty());
        table
    }

    /// The number of distinct keys.
    pub fn len(&self) -> (n: usize)
        ensures
            n == self.keys().len(),
            n == self.counts().len(),
    {
        self.entries.len()
    }

    /// Whether no key was counted.
    pub fn is_empty(&self) -> (empty: bool)
        ensures
            empty == (self.keys().len() == 0),
    {
        self.entries.len() == 0
    }

    /// The number of keys that were counted, each as often as it was seen.
    pub fn total(&self) -> (n: usize)
        ensures
            n == self.total_spec(),
    {
        self.total
    }

    /// The key at place `i` of the order of keys.
    pub fn key_at(&self, i: usize) -> (key: &str)
        requires
            i < self.keys().len(),
        ensures
            key@ == self.keys()[i as int],
    {
        self.entries[i].key.as_str()
    }

    /// The count of the key at place `i` of the order of keys.
    pub fn count_at(&self, i: usize) -> (count: usize)
        requires
            i < self.counts().len(),
        ensures
            count == self.counts()[i as int],
    {
        self.entries[i].count
    }

    /// The place of `key` among the keys, and whether it stands there already.
    fn find(&self, key: &str) -> (found: (usize, bool))
        requires
            self.wf(),
        ensures
            found.0 <= self.keys().len(),
            forall|i: int| 0 <= i < found.0 ==> key_lt(#[trigger] self.keys()[i], key@),
            found.1 ==> found.0 < self.keys().len() && self.keys()[found.0 as int] == key@,
            !found.1 ==> forall|i: int|
                found.0 <= i < self.keys().len() ==> key_lt(key@, #[trigger] self.keys()[i]),
    {
        let mut low: usize = 0;
        let mut high: usize = self.entries.len();
        while low < high
            invariant
                self.wf(),
                low <= high <= self.keys().len(),
                self.keys().len() == self.entries@.len(),
                forall|i: int| 0 <= i < low ==> key_lt(#[trigger] self.keys()[i], key@),
                forall|i: int|
                    high <= i < self.keys().len() ==> key_lt(key@, #[trigger] self.keys()[i]),
            decreases high - low,
        {
            let middle = low + (high - low) / 2;
            let ghost at_middle = self.keys()[middle as int];
            match place_of(self.entries[middle].key.as_str(), key) {
                Place::Before => {
                    assert forall|i: int| 0 <= i < middle + 1 implies key_lt(
                        #[trigger] self.keys()[i],
                        key@,
                    ) by {
                        if i < middle {
                            assert(key_lt(self.keys()[i], self.keys()[middle as int]));
                            lemma_key_lt_transitive(self.keys()[i], at_middle, key@);
                        }
                    }
                    low = middle + 1;
                },
                Place::Same => {
                    return (middle, true);
                },
                Place::After => {
                    assert forall|i: int| middle <= i < self.keys().len() implies key_lt(
                        key@,
                        #[trigger] self.keys()[i],
                    ) by {
                        if middle < i {
                            assert(key_lt(self.keys()[middle as int], self.keys()[i]));
                            lemma_key_lt_transitive(key@, at_middle, self.keys()[i]);
                        }
                    }
                    high = middle;
                },
            }
        }
        (low, false)
    }

    /// Whether `key` stands in the table, as `find` tells it.
    proof fn lemma_found(&self, key: Seq<char>, place: int, there: bool)
        requires
            self.wf(),
            0 <= place <= self.keys().len(),
            forall|i: int| 0 <= i < place ==> key_lt(#[trigger] self.keys()[i], key),
            there ==> place < self.keys().len() && self.keys()[place] == key,
            !there ==> forall|i: int|
                place <= i < self.keys().len() ==> key_lt(key, #[trigger] self.keys()[i]),
        ensures
            there == self@.contains_key(key),
            there ==> self@[key] == self.counts()[place],
    {
        if there {
            lemma_rising_keys_place(self.keys(), place);
        } else {
            assert forall|i: int| 0 <= i < self.keys().len() implies self.keys()[i] != key by {
                lemma_key_order_total(self.keys()[i], key);
            }
        }
    }

    /// Each key of the table has its count in the table's view.
    pub proof fn lemma_keys_in_view(&self, i: int)
        requires
            self.wf(),
            0 <= i < self.keys().len(),
        ensures
            self@.contains_key(self.keys()[i]),
            self@[self.keys()[i]] == self.counts()[i],
    {
        lemma_rising_keys_place(self.keys(), i);
    }

    /// The table has no more keys than a `usize` can count.
    pub proof fn lemma_len_fits(&self)
        ensures
            self.keys().len() <= usize::MAX,
    {
        assert(self.entries.len() == self.entries@.len());
    }

    /// The total is the sum of the counts.
    pub proof fn lemma_total_is_sum(&self)
        requires
            self.wf(),
        ensures
            self.total_spec() == sum(self.counts()),
    {
    }

    /// How often `key` was seen, if it was seen at all.
    pub fn count_of(&self, key: &str) -> (count: Option<usize>)
        requires
            self.wf(),
        ensures
            match count {
                Some(n) => self@.contains_key(key@) && self@[key@] == n && n >= 1,
                None => !self@.contains_key(key@),
            },
    {
        let (place, there) = self.find(key);
        proof {
            self.lemma_found(key@, place as int, there);
        }
        if there {
            Some(self.entries[place].count)
        } else {
            None
        }
    }

    /// Counts `key` once more.
    pub fn observe(&mut self, key: &str)
        requires
            old(self).wf(),
            old(self).total_spec() < usize::MAX,
        ensures
            final(self).wf(),
            final(self).total_spec() == old(self).total_spec() + 1,
            final(self)@ == old(self)@.insert(
                key@,
                if old(self)@.contains_key(key@) {
                    old(self)@[key@] + 1
                } else {
                    1
                },
            ),
    {
        let (place, there) = self.find(key);
        let ghost keys = self.keys();
        let ghost counts = self.counts();
        proof {
            self.lemma_found(key@, place as int, there);
        }
        if there {
            proof {
                lemma_sum_bounds(counts, place as int);
            }
            let count = self.entries[place].count + 1;
            self.entries[place].count = count;
            self.total = self.total + 1;
            proof {
                assert(self.keys() =~= keys);
                assert(self.counts() =~= counts.update(place as int, count));
                lemma_sum_update(counts, place as int, count);
                assert forall|k: Seq<char>| keys.contains(k) implies #[trigger] self@[k] == (if k
                    == key@ {
                    count as nat
                } else {
                    old(self)@[k]
                }) by {
                    let i = keys.index_of(k);
                    lemma_rising_keys_place(keys, i);
                    lemma_rising_keys_place(keys, place as int);
                }
                assert(self@ =~= old(self)@.insert(key@, count as nat));
            }
        } else {
            let entry = Entry { key: String::from_str(key), count: 1 };
            self.entries.insert(place, entry);
            self.total = self.total + 1;
            proof {
                let more = keys.insert(place as int, key@);
                assert(self.keys() =~= more);
                assert(self.counts() =~= counts.insert(place as int, 1));
                lemma_sum_insert(counts, place as int, 1);
                assert forall|i: int, j: int| 0 <= i < j < more.len() implies key_lt(
                    #[trigger] more[i],
                    #[trigger] more[j],
                ) by {
                    if j < place {
                        assert(more[i] == keys[i] && more[j] == keys[j]);
                    } else if j == place {
                        assert(more[i] == keys[i]);
                    } else if i < place {
                        assert(more[i] == keys[i] && more[j] == keys[j - 1]);
                    } else if i == place {
                        assert(more[j] == keys[j - 1]);
                    } else {
                        assert(more[i] == keys[i - 1] && more[j] == keys[j - 1]);
                    }
                }
                assert forall|k: Seq<char>| more.contains(k) <==> (k == key@ || keys.contains(
                    k,
                )) by {
                    if more.contains(k) {
                        let i = more.index_of(k);
                        if i < place {
                            assert(keys[i] == k);
                        } else if i > place {
                            assert(keys[i - 1] == k);
                        }
                    }
                    if keys.contains(k) {
                        let i = keys.index_of(k);
                        if i < place {
                            assert(more[i] == k);
                        } else {
                            assert(more[i + 1] == k);
                        }
                    }
                    if k == key@ {
                        assert(more[place as int] == k);
                    }
                }
                assert forall|k: Seq<char>| more.contains(k) implies #[trigger] self@[k] == (if k
                    == key@ {
                    1nat
                } else {
                    old(self)@[k]
                }) by {
                    if k == key@ {
                        lemma_rising_keys_place(more, place as int);
                    } else {
                        let i = keys.index_of(k);
                        lemma_rising_keys_place(keys, i);
                        if i < place {
                            lemma_rising_keys_place(more, i);
                        } else {
                            lemma_rising_keys_place(more, i + 1);
                        }
                    }
                }
                assert(self@ =~= old(self)@.insert(key@, 1));
            }
        }
    }
}

} // verus!
