use hist::aggregate::{check_column, count_keys, count_record, finish_count};
use hist::table::FrequencyTable;
use hist::delimiter::parse_delimiter;
use hist::error::HistError;

fn validation_text(result: Result<hist::table::FrequencyTable, HistError>) -> String {
    match result {
        Err(HistError::Validation(text)) => text,
        Err(other) => panic!("another failure: {}", other.message()),
        Ok(table) => panic!("a table of {} keys", table.len()),
    }
}

#[test]
fn counts_each_key_of_a_single_column() {
    let table = count_keys(b"a\na\nb\n", b'\t', false, 1).unwrap();
    assert_eq!(table.len(), 2);
    assert_eq!(table.total(), 3);
    assert_eq!(table.count_of("a"), Some(2));
    assert_eq!(table.count_of("b"), Some(1));
}

#[test]
fn a_key_that_was_not_seen_has_no_count() {
    let table = count_keys(b"a\na\nb\n", b'\t', false, 1).unwrap();
    assert_eq!(table.count_of("c"), None);
    assert_eq!(table.count_of(""), None);
    assert_eq!(table.count_of("aa"), None);
}

#[test]
fn the_counts_add_up_to_the_number_of_records() {
    let data = b"x\ty\nx\tz\nw\ty\nx\ty\nv\tz\n";
    let table = count_keys(data, b'\t', false, 2).unwrap();
    assert_eq!(table.total(), 5);
    assert_eq!(table.count_of("y"), Some(3));
    assert_eq!(table.count_of("z"), Some(2));
    let mut sum = 0;
    for i in 0..table.len() {
        sum += table.count_at(i);
    }
    assert_eq!(sum, 5);
}

#[test]
fn the_header_is_passed_over_when_asked() {
    let data = b"name\na\nname\n";
    let with_header = count_keys(data, b'\t', true, 1).unwrap();
    assert_eq!(with_header.total(), 2);
    assert_eq!(with_header.count_of("name"), Some(1));
    assert_eq!(with_header.count_of("a"), Some(1));
    let without = count_keys(data, b'\t', false, 1).unwrap();
    assert_eq!(without.total(), 3);
    assert_eq!(without.count_of("name"), Some(2));
}

#[test]
fn the_delimiter_parts_the_fields() {
    let data = b"a,1\nb,2\na,3\n";
    let first = count_keys(data, b',', false, 1).unwrap();
    assert_eq!(first.count_of("a"), Some(2));
    assert_eq!(first.count_of("b"), Some(1));
    let second = count_keys(data, b',', false, 2).unwrap();
    assert_eq!(second.len(), 3);
    assert_eq!(second.count_of("3"), Some(1));
    let whole = count_keys(data, b';', false, 1).unwrap();
    assert_eq!(whole.count_of("a,1"), Some(1));
}

#[test]
fn a_quoted_field_keeps_its_delimiter() {
    let table = count_keys(b"\"x y\" z\n\"x y\" w\n", b' ', false, 1).unwrap();
    assert_eq!(table.len(), 1);
    assert_eq!(table.count_of("x y"), Some(2));
}

#[test]
fn a_last_line_without_line_feed_counts() {
    let table = count_keys(b"a\nb", b'\t', false, 1).unwrap();
    assert_eq!(table.total(), 2);
    assert_eq!(table.count_of("b"), Some(1));
}

#[test]
fn the_keys_stand_in_the_order_of_their_bytes() {
    let table = count_keys("b\n\u{e9}\na\nB\nab\n".as_bytes(), b'\t', false, 1).unwrap();
    let keys: Vec<&str> = (0..table.len()).map(|i| table.key_at(i)).collect();
    assert_eq!(keys, vec!["B", "a", "ab", "b", "\u{e9}"]);
}

#[test]
fn column_zero_is_refused() {
    assert_eq!(validation_text(count_keys(b"a\n", b'\t', false, 0)), "Key must be 1 or greater");
    assert_eq!(validation_text(count_keys(b"", b'\t', false, 0)), "Key must be 1 or greater");
}

#[test]
fn an_empty_input_is_a_failure() {
    assert_eq!(validation_text(count_keys(b"", b'\t', false, 1)), "No data found to plot");
}

#[test]
fn an_input_of_a_header_alone_is_a_failure() {
    assert_eq!(validation_text(count_keys(b"name\n", b'\t', true, 1)), "No data found to plot");
}

#[test]
fn a_column_that_a_record_lacks_is_named() {
    assert_eq!(
        validation_text(count_keys(b"a\tb\nc\td\n", b'\t', false, 3)),
        "Column 3 not found in record"
    );
    assert_eq!(
        validation_text(count_keys(b"a\n", b'\t', false, 12)),
        "Column 12 not found in record"
    );
}

#[test]
fn records_of_unequal_length_cannot_be_read() {
    match count_keys(b"a,b\nc\n", b',', false, 1) {
        Err(HistError::Csv(_)) => {}
        other => panic!("unexpected: {:?}", other),
    }
}

#[test]
fn bytes_that_are_no_text_cannot_be_read() {
    match count_keys(b"a\n\xff\xfe\n", b'\t', false, 1) {
        Err(HistError::Csv(_)) => {}
        other => panic!("unexpected: {:?}", other),
    }
}

#[test]
fn the_first_failure_ends_the_count() {
    // The first record lacks column 3; the third could not be read at all.
    assert_eq!(
        validation_text(count_keys(b"a,b\nc,d\ne\n", b',', false, 3)),
        "Column 3 not found in record"
    );
}

#[test]
fn the_word_tab_and_the_tabulator_count_alike() {
    let data = b"a\t1\nb\t2\na\t3\n";
    let by_word = parse_delimiter("tab").unwrap();
    let by_escape = parse_delimiter("\\t").unwrap();
    let by_byte = parse_delimiter("\t").unwrap();
    assert_eq!(by_word, by_byte);
    assert_eq!(by_escape, by_byte);
    let first = count_keys(data, by_word, false, 1).unwrap();
    let second = count_keys(data, by_byte, false, 1).unwrap();
    assert_eq!(first.len(), second.len());
    assert_eq!(first.total(), second.total());
    for i in 0..first.len() {
        assert_eq!(first.key_at(i), second.key_at(i));
        assert_eq!(first.count_at(i), second.count_at(i));
    }
    assert_eq!(first.count_of("a"), Some(2));
}

#[test]
fn columns_are_counted_from_one() {
    assert!(check_column(1).is_ok());
    assert!(check_column(usize::MAX).is_ok());
    match check_column(0) {
        Err(HistError::Validation(text)) => assert_eq!(text, "Key must be 1 or greater"),
        other => panic!("unexpected: {:?}", other),
    }
}

#[test]
fn two_keys_from_the_table_to_the_lines() {
    let table = count_keys(b"a\na\nb\n", b'\t', false, 1).unwrap();
    assert_eq!(table.len(), 2);
    assert_eq!(table.count_of("a"), Some(2));
    assert_eq!(table.count_of("b"), Some(1));
    let series = table.rank_series();
    let rising: Vec<usize> = (0..series.len()).map(|i| series.get(i)).collect();
    assert_eq!(rising, vec![1, 2]);
    assert_eq!(series.descending(), vec![2, 1]);
    assert_eq!(hist::raw_counts::render_raw_counts(&table), "1\tb\n2\ta\n");
}

#[test]
fn a_record_is_counted_by_its_field() {
    let mut table = FrequencyTable::new();
    assert!(count_record(&mut table, Some("a"), 1).is_ok());
    assert!(count_record(&mut table, Some("b"), 1).is_ok());
    assert!(count_record(&mut table, Some("a"), 1).is_ok());
    assert_eq!(table.total(), 3);
    assert_eq!(table.count_of("a"), Some(2));
    assert_eq!(table.count_of("b"), Some(1));
}

#[test]
fn a_record_without_the_field_is_not_counted() {
    let mut table = FrequencyTable::new();
    assert!(count_record(&mut table, Some("a"), 4).is_ok());
    match count_record(&mut table, None, 4) {
        Err(HistError::Validation(text)) => assert_eq!(text, "Column 4 not found in record"),
        other => panic!("unexpected: {:?}", other),
    }
    assert_eq!(table.total(), 1);
    assert_eq!(table.len(), 1);
    assert_eq!(table.count_of("a"), Some(1));
}

#[test]
fn an_exhausted_input_without_records_has_no_table() {
    assert_eq!(validation_text(finish_count(FrequencyTable::new())), "No data found to plot");
}

#[test]
fn an_exhausted_input_with_records_has_its_table() {
    let mut table = FrequencyTable::new();
    table.observe("k");
    let table = finish_count(table).unwrap();
    assert_eq!(table.len(), 1);
    assert_eq!(table.count_of("k"), Some(1));
}

#[test]
fn many_records_are_counted() {
    let mut data = Vec::new();
    for i in 0..60_000u32 {
        let key = (i.wrapping_mul(2_654_435_761) >> 8) % 5_000;
        data.extend_from_slice(format!("{}\tfield{}\n", i, key).as_bytes());
    }
    let table = count_keys(&data, b'\t', false, 2).unwrap();
    assert_eq!(table.total(), 60_000);
    assert!(table.len() <= 5_000);
    let series = table.rank_series();
    assert_eq!(series.len(), table.len());
    let mut sum = 0;
    for i in 0..series.len() {
        if i > 0 {
            assert!(series.get(i - 1) <= series.get(i));
        }
        sum += series.get(i);
    }
    assert_eq!(sum, 60_000);
    let all = count_keys(&data, b'\t', false, 1).unwrap();
    assert_eq!(all.len(), 60_000);
    assert_eq!(all.total(), 60_000);
}
