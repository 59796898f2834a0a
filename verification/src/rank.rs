//! The rank builder: counts in rising order.

use crate::table::FrequencyTable;
use vstd::prelude::*;
use vstd::relations::{sorted_by, total_ordering};
use vstd::seq_lib::{lemma_sorted_unique, to_multiset_contains, to_multiset_remove};

verus! {

/// The order of pairs: by their first parts and, where these are equal, by their second
/// parts.
pub open spec fn pair_le(a: (usize, usize), b: (usize, usize)) -> bool {
    a.0 < b.0 || (a.0 == b.0 && a.1 <= b.1)
}

/// The order of counts.
pub open spec fn count_le(a: usize, b: usize) -> bool {
    a <= b
}

/// Each count with its place.
pub open spec fn numbered(counts: Seq<usize>) -> Seq<(usize, usize)> {
    Seq::new(counts.len(), |i: int| (counts[i], i as usize))
}

/// The counts with their places, in rising order of count; equal counts in the order
/// of their places.
pub open spec fn ranking(counts: Seq<usize>) -> Seq<(usize, usize)> {
    numbered(counts).sort_by(|a: (usize, usize), b: (usize, usize)| pair_le(a, b))
}

/// The counts in rising order.
pub open spec fn ascending(counts: Seq<usize>) -> Seq<usize> {
    counts.sort_by(|a: usize, b: usize| count_le(a, b))
}

/// The counts stand in rising order.
pub open spec fn rises(counts: Seq<usize>) -> bool {
    forall|i: int, j: int| 0 <= i < j < counts.len() ==> counts[i] <= counts[j]
}

/// The first parts of `pairs`.
pub open spec fn firsts(pairs: Seq<(usize, usize)>) -> Seq<usize> {
    Seq::new(pairs.len(), |i: int| pairs[i].0)
}

/// `<[T]>::sort` of std, on pairs of integers: the same pairs, in the order of pairs.
#[verifier::external_body]
fn sort_pairs(pairs: &mut Vec<(usize, usize)>)
    ensures
        final(pairs)@.to_multiset() == old(pairs)@.to_multiset(),
        forall|i: int, j: int|
            0 <= i < j < final(pairs)@.len() ==> pair_le(
                #[trigger] final(pairs)@[i],
                #[trigger] final(pairs)@[j],
            ),
{
    pairs.sort();
}

/// The order of pairs is total.
pub proof fn lemma_pair_le_total()
    ensures
        total_ordering(|a: (usize, usize), b: (usize, usize)| pair_le(a, b)),
{
}

/// The order of counts is total.
pub proof fn lemma_count_le_total()
    ensures
        total_ordering(|a: usize, b: usize| count_le(a, b)),
{
}

/// Sequences with the same members have first parts with the same members.
pub proof fn lemma_firsts_of_same_members(a: Seq<(usize, usize)>, b: Seq<(usize, usize)>)
    requires
        a.to_multiset() == b.to_multiset(),
    ensures
        firsts(a).to_multiset() == firsts(b).to_multiset(),
    decreases a.len(),
{
    broadcast use vstd::seq_lib::group_to_multiset_ensures;

    a.to_multiset_ensures();
    b.to_multiset_ensures();
    if a.len() == 0 {
        assert(b.len() == 0);
        assert(firsts(a) =~= firsts(b));
    } else {
        let x = a.last();
        to_multiset_contains(a, x);
        to_multiset_contains(b, x);
        assert(a.contains(x));
        let j = b.index_of(x);
        let a1 = a.drop_last();
        let b1 = b.remove(j);
        to_multiset_remove(a, a.len() - 1);
        to_multiset_remove(b, j);
        assert(a.remove(a.len() - 1) =~= a1);
        lemma_firsts_of_same_members(a1, b1);
        to_multiset_remove(firsts(a), a.len() - 1);
        to_multiset_remove(firsts(b), j);
        assert(firsts(a).remove(a.len() - 1) =~= firsts(a1));
        assert(firsts(b).remove(j) =~= firsts(b1));
        to_multiset_contains(firsts(a), x.0);
        to_multiset_contains(firsts(b), x.0);
        assert(firsts(a)[a.len() - 1] == x.0);
        assert(firsts(b)[j] == x.0);
        assert(firsts(a).to_multiset() =~= firsts(a1).to_multiset().insert(x.0));
        assert(firsts(b).to_multiset() =~= firsts(b1).to_multiset().insert(x.0));
    }
}

/// The ranking holds each count once, beside its place, in the order of pairs.
pub proof fn lemma_ranking(counts: Seq<usize>)
    requires
        counts.len() <= usize::MAX,
    ensures
        ranking(counts).len() == counts.len(),
        ranking(counts).to_multiset() == numbered(counts).to_multiset(),
        forall|i: int, j: int|
            0 <= i < j < counts.len() ==> pair_le(
                #[trigger] ranking(counts)[i],
                #[trigger] ranking(counts)[j],
            ),
        forall|r: int|
            0 <= r < counts.len() ==> {
                let pair = #[trigger] ranking(counts)[r];
                pair.1 < counts.len() && pair.0 == counts[pair.1 as int]
            },
        firsts(ranking(counts)) == ascending(counts),
        rises(ascending(counts)),
        ascending(counts).len() == counts.len(),
        ascending(counts).to_multiset() == counts.to_multiset(),
{
    broadcast use vstd::seq_lib::group_to_multiset_ensures;

    let pair_order = |a: (usize, usize), b: (usize, usize)| pair_le(a, b);
    let count_order = |a: usize, b: usize| count_le(a, b);
    let ranked = ranking(counts);
    lemma_pair_le_total();
    lemma_count_le_total();
    numbered(counts).lemma_sort_by_ensures(pair_order);
    counts.lemma_sort_by_ensures(count_order);
    ranked.to_multiset_ensures();
    numbered(counts).to_multiset_ensures();
    counts.to_multiset_ensures();
    ascending(counts).to_multiset_ensures();
    assert forall|i: int, j: int| 0 <= i < j < counts.len() implies pair_le(
        #[trigger] ranked[i],
        #[trigger] ranked[j],
    ) by {
        assert(pair_order(ranked[i], ranked[j]));
    }
    assert forall|r: int| 0 <= r < counts.len() implies {
        let pair = #[trigger] ranked[r];
        pair.1 < counts.len() && pair.0 == counts[pair.1 as int]
    } by {
        let pair = ranked[r];
        to_multiset_contains(ranked, pair);
        to_multiset_contains(numbered(counts), pair);
        assert(ranked.contains(pair));
        let j = numbered(counts).index_of(pair);
        assert(numbered(counts)[j] == pair);
    }
    lemma_firsts_of_same_members(ranked, numbered(counts));
    assert(firsts(numbered(counts)) =~= counts);
    assert(sorted_by(firsts(ranked), count_order)) by {
        assert forall|i: int, j: int| 0 <= i < j < firsts(ranked).len() implies count_order(
            firsts(ranked)[i],
            firsts(ranked)[j],
        ) by {
            assert(pair_le(ranked[i], ranked[j]));
        }
    }
    lemma_sorted_unique(firsts(ranked), ascending(counts), count_order);
    assert forall|i: int, j: int| 0 <= i < j < ascending(counts).len() implies ascending(
        counts,
    )[i] <= ascending(counts)[j] by {
        assert(count_order(ascending(counts)[i], ascending(counts)[j]));
    }
}

/// The counts with their places, in rising order of count; equal counts in the order of
/// their places.
pub fn rank(counts: &Vec<usize>) -> (order: Vec<(usize, usize)>)
    ensures
        order@ == ranking(counts@),
{
    let mut pairs: Vec<(usize, usize)> = Vec::with_capacity(counts.len());
    let mut i: usize = 0;
    while i < counts.len()
        invariant
            i <= counts.len(),
            pairs@ == numbered(counts@).take(i as int),
        decreases counts.len() - i,
    {
        pairs.push((counts[i], i));
        assert(pairs@ =~= numbered(counts@).take(i + 1));
        i = i + 1;
    }
    assert(pairs@ =~= numbered(counts@));
    sort_pairs(&mut pairs);
    proof {
        let pair_order = |a: (usize, usize), b: (usize, usize)| pair_le(a, b);
        lemma_pair_le_total();
        lemma_ranking(counts@);
        assert(sorted_by(pairs@, pair_order));
        assert(sorted_by(ranking(counts@), pair_order)) by {
            assert forall|i: int, j: int| 0 <= i < j < ranking(counts@).len() implies pair_order(
                ranking(counts@)[i],
                ranking(counts@)[j],
            ) by {
                assert(pair_le(ranking(counts@)[i], ranking(counts@)[j]));
            }
        }
        lemma_sorted_unique(pairs@, ranking(counts@), pair_order);
    }
    pairs
}

/// Counts in rising order, so that read from its end the series gives the ranks: the
/// greatest count first.
pub struct RankSeries {
    counts: Vec<usize>,
}

impl RankSeries {
    /// The counts, in rising order.
    pub closed spec fn view(&self) -> Seq<usize> {
        self.counts@
    }

    /// The series is in order: its counts rise.
    pub open spec fn wf(&self) -> bool {
        rises(self@)
    }

    /// The count at the 0-based `rank`, the greatest count having rank 0.
    pub open spec fn at_rank(&self, rank: int) -> usize {
        self@[self@.len() - 1 - rank]
    }

    /// The series of `counts`: the same counts, in rising order.
    pub fn from_counts(counts: &Vec<usize>) -> (series: RankSeries)
        ensures
            series.wf(),
            series@ == ascending(counts@),
            series@.len() == counts.len(),
            series@.to_multiset() == counts@.to_multiset(),
    {
        let order = rank(counts);
        let n = counts.len();
        proof {
            lemma_ranking(counts@);
        }
        let mut sorted: Vec<usize> = Vec::with_capacity(n);
        let mut i: usize = 0;
        while i < order.len()
            invariant
                i <= order.len(),
                sorted@ == firsts(order@).take(i as int),
            decreases order.len() - i,
        {
            sorted.push(order[i].0);
            assert(sorted@ =~= firsts(order@).take(i + 1));
            i = i + 1;
        }
        assert(sorted@ =~= firsts(order@));
        RankSeries { counts: sorted }
    }

    /// The number of counts.
    pub fn len(&self) -> (n: usize)
        ensures
            n == self@.len(),
    {
        self.counts.len()
    }

    /// Whether the series has no count.
    pub fn is_empty(&self) -> (empty: bool)
        ensures
            empty == (self@.len() == 0),
    {
        self.counts.len() == 0
    }

    /// The count at place `i` of the rising order.
    pub fn get(&self, i: usize) -> (count: usize)
        requires
            i < self@.len(),
        ensures
            count == self@[i as int],
    {
        self.counts[i]
    }

    /// The greatest count, if the series has any.
    pub fn max(&self) -> (greatest: Option<usize>)
        requires
            self.wf(),
        ensures
            match greatest {
                Some(m) => self@.len() > 0 && m == self@.last() && forall|i: int|
                    0 <= i < self@.len() ==> self@[i] <= m,
                None => self@.len() == 0,
            },
    {
        if self.counts.len() == 0 {
            None
        } else {
            Some(self.counts[self.counts.len() - 1])
        }
    }

    /// The counts in falling order: the ranks from the first on.
    pub fn descending(&self) -> (counts: Vec<usize>)
        ensures
            counts@ == self@.reverse(),
    {
        let n = self.counts.len();
        let mut counts: Vec<usize> = Vec::with_capacity(n);
        let mut i: usize = 0;
        while i < n
            invariant
                i <= n,
                n == self.counts@.len(),
                counts@ == self@.reverse().take(i as int),
            decreases n - i,
        {
            counts.push(self.counts[n - 1 - i]);
            assert(counts@ =~= self@.reverse().take(i + 1));
            i = i + 1;
        }
        assert(counts@ =~= self@.reverse());
        counts
    }
}

impl FrequencyTable {
    /// The counts of the table, in the order of its keys.
    pub fn count_list(&self) -> (counts: Vec<usize>)
        ensures
            counts@ == self.counts(),
            counts@.len() == self.keys().len(),
    {
        let n = self.len();
        let mut counts: Vec<usize> = Vec::with_capacity(n);
        let mut i: usize = 0;
        while i < n
            invariant
                i <= n,
                n == self.counts().len(),
                counts@ == self.counts().take(i as int),
            decreases n - i,
        {
            counts.push(self.count_at(i));
            assert(counts@ =~= self.counts().take(i + 1));
            i = i + 1;
        }
        assert(counts@ =~= self.counts());
        counts
    }

    /// The counts of the table in rising order: one for each key.
    pub fn rank_series(&self) -> (series: RankSeries)
        ensures
            series.wf(),
            series@ == ascending(self.counts()),
            series@.len() == self.keys().len(),
            series@.to_multiset() == self.counts().to_multiset(),
    {
        let counts = self.count_list();
        RankSeries::from_counts(&counts)
    }
}

} // verus!
