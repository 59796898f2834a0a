//! The frequency aggregator: the records of an input, counted by their key.

use crate::error::{fails_validation, HistError};
use crate::source::{
    column_missing_text, csv_outcomes, empty_record, field_at, next_record, open_reader, pending,
    record_field, record_fields, require_field,
};
use crate::table::{lemma_tally_last, lemma_tally_push, sum, tally, FrequencyTable};
use vstd::prelude::*;

verus! {

/// Why the records of an input cannot all be counted.
pub enum Fault {
    /// A record could not be read.
    Unreadable,
    /// A record lacks the column of the key.
    ColumnMissing,
    /// There are more records than a count can hold.
    TooMany,
}

/// The keys of the records of an input, in the order of the records, or the first
/// fault on the way. At most `limit` records can be counted.
pub open spec fn gather(outcomes: Seq<Option<Seq<Seq<char>>>>, column: nat, limit: nat) -> Result<
    Seq<Seq<char>>,
    Fault,
>
    decreases outcomes.len(),
{
    if outcomes.len() == 0 {
        Ok(Seq::empty())
    } else {
        match gather(outcomes.drop_last(), column, limit) {
            Err(fault) => Err(fault),
            Ok(keys) => match outcomes.last() {
                None => Err(Fault::Unreadable),
                Some(fields) => match field_at(fields, column) {
                    None => Err(Fault::ColumnMissing),
                    Some(key) => if keys.len() >= limit {
                        Err(Fault::TooMany)
                    } else {
                        Ok(keys.push(key))
                    },
                },
            },
        }
    }
}

/// The outcome is a record whose column `column` holds `key`.
pub open spec fn counted_as(outcome: Option<Seq<Seq<char>>>, column: nat, key: Seq<char>) -> bool {
    outcome matches Some(fields) && field_at(fields, column) == Some(key)
}

/// A fault among the first outcomes is the fault of them all.
pub proof fn lemma_gather_stops(
    outcomes: Seq<Option<Seq<Seq<char>>>>,
    n: int,
    column: nat,
    limit: nat,
)
    requires
        0 <= n <= outcomes.len(),
        gather(outcomes.take(n), column, limit) is Err,
    ensures
        gather(outcomes, column, limit) == gather(outcomes.take(n), column, limit),
    decreases outcomes.len() - n,
{
    if n == outcomes.len() {
        assert(outcomes.take(n) =~= outcomes);
    } else {
        assert(outcomes.take(n + 1).drop_last() =~= outcomes.take(n));
        lemma_gather_stops(outcomes, n + 1, column, limit);
    }
}

/// Where the keys are gathered without a fault, every outcome is a record, and each
/// record gave its key: none was dropped and none was counted twice.
pub proof fn lemma_gather_keeps_all(
    outcomes: Seq<Option<Seq<Seq<char>>>>,
    column: nat,
    limit: nat,
)
    requires
        gather(outcomes, column, limit) is Ok,
    ensures
        gather(outcomes, column, limit)->Ok_0.len() == outcomes.len(),
        outcomes.len() <= limit,
        forall|i: int|
            0 <= i < outcomes.len() ==> counted_as(
                #[trigger] outcomes[i],
                column,
                gather(outcomes, column, limit)->Ok_0[i],
            ),
    decreases outcomes.len(),
{
    if outcomes.len() > 0 {
        lemma_gather_keeps_all(outcomes.drop_last(), column, limit);
        let keys = gather(outcomes, column, limit)->Ok_0;
        let before = gather(outcomes.drop_last(), column, limit)->Ok_0;
        assert forall|i: int| 0 <= i < outcomes.len() implies counted_as(
            #[trigger] outcomes[i],
            column,
            keys[i],
        ) by {
            if i < outcomes.len() - 1 {
                assert(outcomes.drop_last()[i] == outcomes[i]);
                assert(keys[i] == before[i]);
            }
        }
    }
}

/// Whether records can be counted by their column `column`: the columns are counted
/// from 1.
pub fn check_column(column: usize) -> (result: Result<(), HistError>)
    ensures
        column >= 1 ==> result is Ok,
        column == 0 ==> fails_validation(result, "Key must be 1 or greater"@),
{
    if column == 0 {
        Err(HistError::validation("Key must be 1 or greater"))
    } else {
        Ok(())
    }
}

/// Counts one record by what was found in its column `column`. A record that lacks the
/// column is not counted, nor is one record more than a count can hold: the table stays
/// as it was, and the failure says which of the two it is.
pub fn count_record(table: &mut FrequencyTable, field: Option<&str>, column: usize) -> (result:
    Result<(), HistError>)
    requires
        old(table).wf(),
    ensures
        final(table).wf(),
        match field {
            None => fails_validation(result, column_missing_text(column as nat)) && *final(table)
                == *old(table),
            Some(key) => if old(table).total_spec() >= usize::MAX {
                fails_validation(result, "Too many records to count"@) && *final(table) == *old(
                    table,
                )
            } else {
                &&& result is Ok
                &&& final(table).total_spec() == old(table).total_spec() + 1
                &&& final(table)@ == old(table)@.insert(
                    key@,
                    if old(table)@.contains_key(key@) {
                        old(table)@[key@] + 1
                    } else {
                        1
                    },
                )
            },
        },
{
    match require_field(field, column) {
        Err(e) => Err(e),
        Ok(key) => {
            if table.total() == usize::MAX {
                Err(HistError::validation("Too many records to count"))
            } else {
                table.observe(key);
                Ok(())
            }
        },
    }
}

/// The table of an input that is exhausted: an input without records has none.
pub fn finish_count(table: FrequencyTable) -> (result: Result<FrequencyTable, HistError>)
    ensures
        table.keys().len() == 0 ==> fails_validation(result, "No data found to plot"@),
        table.keys().len() > 0 ==> result == Ok::<FrequencyTable, HistError>(table),
{
    if table.is_empty() {
        Err(HistError::validation("No data found to plot"))
    } else {
        Ok(table)
    }
}

/// Counts the records of `data` by the field in their column `column`, the columns
/// counted from 1. The fields of a record are parted by `delimiter`; with `has_header`
/// the first record is passed over.
///
/// The first record that cannot be read, or that lacks the column, ends the count with
/// its failure, and so does an input without records.
pub fn count_keys(data: &[u8], delimiter: u8, has_header: bool, column: usize) -> (result: Result<
    FrequencyTable,
    HistError,
>)
    ensures
        column == 0 ==> fails_validation(result, "Key must be 1 or greater"@),
        column > 0 ==> match gather(
            csv_outcomes(data@, delimiter, has_header),
            column as nat,
            usize::MAX as nat,
        ) {
            Err(Fault::Unreadable) => result matches Err(HistError::Csv(_)),
            Err(Fault::ColumnMissing) => fails_validation(
                result,
                column_missing_text(column as nat),
            ),
            Err(Fault::TooMany) => fails_validation(result, "Too many records to count"@),
            Ok(keys) => if keys.len() == 0 {
                fails_validation(result, "No data found to plot"@)
            } else {
                result matches Ok(table) && {
                    &&& table.wf()
                    &&& table@ == tally(keys)
                    &&& table.total_spec() == keys.len()
                    &&& sum(table.counts()) == csv_outcomes(data@, delimiter, has_header).len()
                }
            },
        },
{
    match check_column(column) {
        Err(e) => {
            return Err(e);
        },
        Ok(()) => {},
    }
    let ghost outcomes = csv_outcomes(data@, delimiter, has_header);
    let ghost limit = usize::MAX as nat;
    let mut reader = open_reader(data, delimiter, has_header);
    let mut record = empty_record();
    let mut table = FrequencyTable::new();
    let ghost keys: Seq<Seq<char>> = Seq::empty();
    assert(outcomes.skip(0) =~= outcomes);
    assert(outcomes.take(0) =~= Seq::empty());
    assert(table@ =~= tally(keys));
    loop
        invariant
            column > 0,
            limit == usize::MAX as nat,
            outcomes == csv_outcomes(data@, delimiter, has_header),
            keys.len() <= outcomes.len(),
            pending(reader) == outcomes.skip(keys.len() as int),
            gather(outcomes.take(keys.len() as int), column as nat, limit) == Ok::<
                Seq<Seq<char>>,
                Fault,
            >(keys),
            table.wf(),
            table@ == tally(keys),
            table.total_spec() == keys.len(),
        decreases pending(reader).len(),
    {
        let ghost n = keys.len() as int;
        match next_record(&mut reader, &mut record) {
            Err(e) => {
                proof {
                    assert(outcomes[n] is None);
                    assert(outcomes.take(n + 1).drop_last() =~= outcomes.take(n));
                    lemma_gather_stops(outcomes, n + 1, column as nat, limit);
                }
                return Err(HistError::Csv(e));
            },
            Ok(false) => {
                proof {
                    assert(outcomes.take(n) =~= outcomes);
                    if keys.len() > 0 {
                        lemma_tally_last(keys);
                    }
                    if table.keys().len() > 0 {
                        table.lemma_keys_in_view(0);
                    }
                }
                return finish_count(table);
            },
            Ok(true) => {
                let ghost fields = record_fields(record);
                proof {
                    assert(outcomes[n] == Some(fields));
                    assert(outcomes.take(n + 1).drop_last() =~= outcomes.take(n));
                    assert(outcomes.skip(n).skip(1) =~= outcomes.skip(n + 1));
                }
                let field = record_field(&record, column - 1);
                match count_record(&mut table, field, column) {
                    Err(e) => {
                        proof {
                            lemma_gather_stops(outcomes, n + 1, column as nat, limit);
                        }
                        return Err(e);
                    },
                    Ok(()) => {
                        proof {
                            let key = field_at(fields, column as nat)->Some_0;
                            lemma_tally_push(keys, key);
                            keys = keys.push(key);
                        }
                    },
                }
            },
        }
    }
}

} // verus!
