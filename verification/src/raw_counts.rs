//! The raw counts: a line for each key, `COUNT<TAB>KEY`, in rising order of count.

use crate::decimal::{
    chars_of, decimal, is_digit, lemma_decimal_round_trip, number_of, push_decimal, read_number,
};
use crate::error::{fails_parse, HistError};
use crate::order::{key_lt, same_text};
use crate::rank::{lemma_ranking, numbered, pair_le, rank, ranking};
use crate::table::{Entry, FrequencyTable};
use vstd::prelude::*;
use vstd::seq_lib::to_multiset_contains;
use vstd::string::*;

verus! {

/// Where raw counts go.
#[derive(Debug)]
pub enum Destination {
    /// To the console.
    Console,
    /// To the file of this name.
    File(String),
}

/// The line of one key: its count, a tabulator, the key, and a line feed.
pub open spec fn line_of(entry: (Seq<char>, nat)) -> Seq<char> {
    decimal(entry.1) + seq!['\t'] + entry.0 + seq!['\n']
}

/// The lines of `entries`, one after the other.
pub open spec fn lines_of(entries: Seq<(Seq<char>, nat)>) -> Seq<char>
    decreases entries.len(),
{
    if entries.len() == 0 {
        Seq::empty()
    } else {
        line_of(entries[0]) + lines_of(entries.drop_first())
    }
}

/// The keys with their counts in rising order of count; keys with the same count in
/// the order of keys.
pub open spec fn ranked_entries(keys: Seq<Seq<char>>, counts: Seq<usize>) -> Seq<
    (Seq<char>, nat),
> {
    Seq::new(
        counts.len(),
        |r: int| (keys[ranking(counts)[r].1 as int], ranking(counts)[r].0 as nat),
    )
}

/// Keys and counts as plain values.
pub open spec fn entries_view(entries: Seq<Entry>) -> Seq<(Seq<char>, nat)> {
    Seq::new(entries.len(), |i: int| (entries[i].key@, entries[i].count as nat))
}

/// The place of the first `c` in `text`, or the length of `text` if it holds none.
pub open spec fn first_of(text: Seq<char>, c: char) -> nat
    decreases text.len(),
{
    if text.len() == 0 || text[0] == c {
        0
    } else {
        (1 + first_of(text.drop_first(), c)) as nat
    }
}

/// The keys and counts that the lines of `text` give, or `None` if `text` is not made
/// of such lines: each a count of at most `limit`, a tabulator, a key, and a line feed.
pub open spec fn parse_lines(text: Seq<char>, limit: nat) -> Option<Seq<(Seq<char>, nat)>>
    decreases text.len(),
{
    if text.len() == 0 {
        Some(Seq::empty())
    } else {
        let end = first_of(text, '\n') as int;
        let tab = first_of(text, '\t') as int;
        if end >= text.len() || tab >= end {
            None
        } else {
            match number_of(text.take(tab)) {
                None => None,
                Some(count) => if count > limit {
                    None
                } else {
                    match parse_lines(text.skip(end + 1), limit) {
                        None => None,
                        Some(rest) => Some(
                            seq![(text.subrange(tab + 1, end), count)] + rest,
                        ),
                    }
                },
            }
        }
    }
}

/// The keys with their counts, as the table's view has them.
pub open spec fn pairs_of(counts: Map<Seq<char>, nat>) -> Set<(Seq<char>, nat)> {
    Set::new(|pair: (Seq<char>, nat)| counts.contains_key(pair.0) && counts[pair.0] == pair.1)
}

/// The first `c` of a text stands where a `c` stands and none stands before.
pub proof fn lemma_first_of(text: Seq<char>, c: char, place: int)
    requires
        0 <= place <= text.len(),
        forall|i: int| 0 <= i < place ==> text[i] != c,
        place < text.len() ==> text[place] == c,
    ensures
        first_of(text, c) == place,
    decreases place,
{
    if place > 0 {
        lemma_first_of(text.drop_first(), c, place - 1);
    }
}

/// The lines of some entries and one more are the lines of the first and the line of
/// the last.
pub proof fn lemma_lines_push(entries: Seq<(Seq<char>, nat)>, entry: (Seq<char>, nat))
    ensures
        lines_of(entries.push(entry)) == lines_of(entries) + line_of(entry),
    decreases entries.len(),
{
    let more = entries.push(entry);
    if entries.len() == 0 {
        assert(more.drop_first() =~= entries);
        assert(more[0] == entry);
        assert(lines_of(more) =~= lines_of(entries) + line_of(entry));
    } else {
        lemma_lines_push(entries.drop_first(), entry);
        assert(more.drop_first() =~= entries.drop_first().push(entry));
        assert(lines_of(more) =~= lines_of(entries) + line_of(entry));
    }
}

/// Lines that were written are read back as they were: reading the lines of `entries`
/// gives `entries`, as long as no key holds a line feed and no count is above the
/// limit.
pub proof fn lemma_raw_counts_round_trip(entries: Seq<(Seq<char>, nat)>, limit: nat)
    requires
        forall|i: int|
            0 <= i < entries.len() ==> !(#[trigger] entries[i]).0.contains('\n') && entries[i].1
                <= limit,
    ensures
        parse_lines(lines_of(entries), limit) == Some(entries),
    decreases entries.len(),
{
    if entries.len() > 0 {
        let entry = entries[0];
        let digits = decimal(entry.1);
        let key = entry.0;
        let rest = lines_of(entries.drop_first());
        let text = lines_of(entries);
        let tab = digits.len() as int;
        let end = tab + 1 + key.len();
        lemma_decimal_round_trip(entry.1);
        assert(text =~= digits + seq!['\t'] + key + seq!['\n'] + rest);
        assert forall|i: int| 0 <= i < tab implies text[i] != '\t' && text[i] != '\n' by {
            assert(text[i] == digits[i]);
            assert(is_digit(digits[i]));
        }
        assert(text[tab] == '\t');
        assert forall|i: int| tab < i < end implies text[i] != '\n' by {
            assert(text[i] == key[i - tab - 1]);
            assert(key.contains(key[i - tab - 1]));
        }
        assert(text[end] == '\n');
        lemma_first_of(text, '\t', tab);
        lemma_first_of(text, '\n', end);
        assert(text.take(tab) =~= digits);
        assert(text.subrange(tab + 1, end) =~= key);
        assert(text.skip(end + 1) =~= rest);
        assert forall|i: int| 0 <= i < entries.drop_first().len() implies !(
        #[trigger] entries.drop_first()[i]).0.contains('\n') && entries.drop_first()[i].1
            <= limit by {
            assert(entries.drop_first()[i] == entries[i + 1]);
        }
        lemma_raw_counts_round_trip(entries.drop_first(), limit);
        assert(seq![entry] + entries.drop_first() =~= entries);
    }
}

/// The lines of a table hold each key of the table once, beside its count, and nothing
/// else: read back, they give the keys and counts of the table, whatever the order of
/// the lines. This holds as long as no key holds a line feed.
pub proof fn lemma_table_round_trip(table: FrequencyTable)
    requires
        table.wf(),
        forall|i: int| 0 <= i < table.keys().len() ==> !(#[trigger] table.keys()[i]).contains('\n'),
    ensures
        parse_lines(
            lines_of(ranked_entries(table.keys(), table.counts())),
            usize::MAX as nat,
        ) matches Some(entries) && entries.to_set() == pairs_of(table@),
{
    let keys = table.keys();
    let counts = table.counts();
    let ranked = ranking(counts);
    let entries = ranked_entries(keys, counts);
    table.lemma_len_fits();
    lemma_ranking(counts);
    assert forall|i: int| 0 <= i < entries.len() implies !(#[trigger] entries[i]).0.contains('\n')
        && entries[i].1 <= usize::MAX as nat by {
        let pair = ranked[i];
        assert(pair.1 < counts.len());
    }
    lemma_raw_counts_round_trip(entries, usize::MAX as nat);
    assert forall|pair: (Seq<char>, nat)| entries.to_set().contains(pair) <==> pairs_of(
        table@,
    ).contains(pair) by {
        if entries.to_set().contains(pair) {
            let r = entries.index_of(pair);
            assert(entries[r] == pair);
            let place = ranked[r].1 as int;
            table.lemma_keys_in_view(place);
        }
        if pairs_of(table@).contains(pair) {
            let place = keys.index_of(pair.0);
            assert(keys[place] == pair.0);
            table.lemma_keys_in_view(place);
            let numbered_pair = (counts[place], place as usize);
            assert(numbered(counts)[place] == numbered_pair);
            to_multiset_contains(numbered(counts), numbered_pair);
            to_multiset_contains(ranked, numbered_pair);
            let r = ranked.index_of(numbered_pair);
            assert(ranked[r] == numbered_pair);
            assert(entries[r] == pair);
        }
    }
    assert(entries.to_set() =~= pairs_of(table@));
}

/// The lines of a table rise by count, and lines of the same count stand in the order
/// of their keys.
pub proof fn lemma_ranked_entries_rise(table: FrequencyTable, i: int, j: int)
    requires
        table.wf(),
        0 <= i < j < table.keys().len(),
    ensures
        ({
            let entries = ranked_entries(table.keys(), table.counts());
            entries[i].1 < entries[j].1 || (entries[i].1 == entries[j].1 && key_lt(
                entries[i].0,
                entries[j].0,
            ))
        }),
{
    broadcast use vstd::seq_lib::group_to_multiset_ensures;

    let keys = table.keys();
    let counts = table.counts();
    let ranked = ranking(counts);
    table.lemma_len_fits();
    lemma_ranking(counts);
    assert(pair_le(ranked[i], ranked[j]));
    assert(numbered(counts).no_duplicates());
    numbered(counts).lemma_multiset_has_no_duplicates();
    ranked.lemma_multiset_has_no_duplicates_conv();
    assert(ranked[i] != ranked[j]);
    let a = ranked[i].1 as int;
    let b = ranked[j].1 as int;
    if ranked[i].0 == ranked[j].0 {
        assert(a < b);
        assert(key_lt(keys[a], keys[b]));
    }
}

/// Where raw counts go that are sent to `path`: to the console for `-`, else to the
/// file of that name.
pub fn destination_of(path: &str) -> (destination: Destination)
    ensures
        match destination {
            Destination::Console => path@ == "-"@,
            Destination::File(name) => path@ != "-"@ && name@ == path@,
        },
{
    if same_text(path, "-") {
        Destination::Console
    } else {
        Destination::File(String::from_str(path))
    }
}

/// The raw counts of `table`: a line for each key, in rising order of count; keys with
/// the same count in the order of keys.
pub fn render_raw_counts(table: &FrequencyTable) -> (text: String)
    requires
        table.wf(),
    ensures
        text@ == lines_of(ranked_entries(table.keys(), table.counts())),
{
    let counts = table.count_list();
    let order = rank(&counts);
    let n = counts.len();
    let ghost entries = ranked_entries(table.keys(), table.counts());
    proof {
        lemma_ranking(counts@);
    }
    let mut text = String::new();
    let mut r: usize = 0;
    assert(entries.take(0) =~= Seq::<(Seq<char>, nat)>::empty());
    while r < n
        invariant
            r <= n,
            n == counts@.len(),
            n == table.keys().len(),
            counts@ == table.counts(),
            order@ == ranking(counts@),
            order@.len() == n,
            entries == ranked_entries(table.keys(), table.counts()),
            forall|i: int|
                0 <= i < n ==> (#[trigger] order@[i]).1 < n && order@[i].0 == counts@[order@[i].1 as int],
            text@ == lines_of(entries.take(r as int)),
        decreases n - r,
    {
        let (count, place) = order[r];
        assert(order@[r as int].1 < n);
        let ghost before = text@;
        push_decimal(&mut text, count);
        text.push('\t');
        text.append(table.key_at(place));
        text.push('\n');
        proof {
            assert(entries.take(r + 1) =~= entries.take(r as int).push(entries[r as int]));
            lemma_lines_push(entries.take(r as int), entries[r as int]);
            assert(text@ =~= before + line_of(entries[r as int]));
        }
        r = r + 1;
    }
    assert(entries.take(n as int) =~= entries);
    text
}

/// Reads raw counts: the key and the count of each line of `text`, in the order of the
/// lines.
pub fn parse_raw_counts(text: &str) -> (result: Result<Vec<Entry>, HistError>)
    ensures
        match parse_lines(text@, usize::MAX as nat) {
            Some(entries) => result matches Ok(read) && entries_view(read@) == entries,
            None => fails_parse(result, "Raw counts must be lines of COUNT<TAB>KEY"@),
        },
{
    let chars = chars_of(text);
    let n = chars.len();
    let ghost limit = usize::MAX as nat;
    let mut entries: Vec<Entry> = Vec::new();
    let mut start: usize = 0;
    assert(text@.skip(0) =~= text@);
    assert(entries_view(entries@) =~= Seq::<(Seq<char>, nat)>::empty());
    while start < n
        invariant
            start <= n,
            n == chars@.len(),
            chars@ == text@,
            limit == usize::MAX as nat,
            parse_lines(text@, limit) == match parse_lines(text@.skip(start as int), limit) {
                Some(rest) => Some(entries_view(entries@) + rest),
                None => None,
            },
        decreases n - start,
    {
        let ghost tail = text@.skip(start as int);
        let mut tab: usize = start;
        while tab < n && chars[tab] != '\t'
            invariant
                start <= tab <= n,
                n == chars@.len(),
                forall|i: int| start <= i < tab ==> chars@[i] != '\t',
            decreases n - tab,
        {
            tab = tab + 1;
        }
        let mut end: usize = start;
        while end < n && chars[end] != '\n'
            invariant
                start <= end <= n,
                n == chars@.len(),
                forall|i: int| start <= i < end ==> chars@[i] != '\n',
            decreases n - end,
        {
            end = end + 1;
        }
        proof {
            lemma_first_of(tail, '\t', tab - start);
            lemma_first_of(tail, '\n', end - start);
        }
        if end >= n || tab >= end {
            return Err(HistError::parse("Raw counts must be lines of COUNT<TAB>KEY"));
        }
        proof {
            assert(tail.take(tab - start) =~= chars@.subrange(start as int, tab as int));
        }
        let count = match read_number(&chars, start, tab, usize::MAX as u64) {
            Some(value) => value as usize,
            None => {
                return Err(HistError::parse("Raw counts must be lines of COUNT<TAB>KEY"));
            },
        };
        let mut key = String::new();
        let mut i: usize = tab + 1;
        while i < end
            invariant
                tab + 1 <= i <= end <= n,
                n == chars@.len(),
                key@ == chars@.subrange(tab + 1, i as int),
            decreases end - i,
        {
            key.push(chars[i]);
            assert(key@ =~= chars@.subrange(tab + 1, i + 1));
            i = i + 1;
        }
        proof {
            assert(tail.subrange(tab - start + 1, end - start) =~= chars@.subrange(
                tab + 1,
                end as int,
            ));
            assert(tail.skip(end - start + 1) =~= text@.skip(end + 1));
            let entry = (key@, count as nat);
            let before = entries_view(entries@);
            match parse_lines(text@.skip(end + 1), limit) {
                Some(rest) => {
                    assert(before + (seq![entry] + rest) =~= before.push(entry) + rest);
                },
                None => {},
            }
            assert(entries_view(entries@.push(Entry { key: key, count: count })) =~= before.push(
                entry,
            ));
        }
        entries.push(Entry { key, count });
        start = end + 1;
    }
    proof {
        assert(text@.skip(n as int) =~= Seq::<char>::empty());
        assert(entries_view(entries@) + Seq::<(Seq<char>, nat)>::empty() =~= entries_view(
            entries@,
        ));
    }
    Ok(entries)
}

} // verus!
