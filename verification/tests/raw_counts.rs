use hist::aggregate::count_keys;
use hist::error::HistError;
use hist::raw_counts::{destination_of, parse_raw_counts, render_raw_counts, Destination};
use hist::table::FrequencyTable;

fn pairs(text: &str) -> Vec<(String, usize)> {
    parse_raw_counts(text).unwrap().into_iter().map(|entry| (entry.key, entry.count)).collect()
}

fn parse_failure(text: &str) -> String {
    match parse_raw_counts(text) {
        Err(HistError::Parse(message)) => message,
        other => panic!("unexpected for {:?}: {:?}", text, other),
    }
}

#[test]
fn the_lines_rise_by_count() {
    let table = count_keys(b"a\na\nb\n", b'\t', false, 1).unwrap();
    assert_eq!(render_raw_counts(&table), "1\tb\n2\ta\n");
}

#[test]
fn keys_of_equal_count_stand_in_the_order_of_keys() {
    let table = count_keys(b"b\na\nc\nc\nB\n", b'\t', false, 1).unwrap();
    assert_eq!(render_raw_counts(&table), "1\tB\n1\ta\n1\tb\n2\tc\n");
}

#[test]
fn an_empty_table_has_no_lines() {
    assert_eq!(render_raw_counts(&FrequencyTable::new()), "");
}

#[test]
fn counts_of_several_digits_are_written_in_full() {
    let mut table = FrequencyTable::new();
    for _ in 0..1203 {
        table.observe("often");
    }
    for _ in 0..10 {
        table.observe("ten");
    }
    table.observe("once");
    assert_eq!(render_raw_counts(&table), "1\tonce\n10\tten\n1203\toften\n");
}

#[test]
fn lines_are_read_back() {
    assert_eq!(
        pairs("1\tb\n2\ta\n"),
        vec![("b".to_string(), 1), ("a".to_string(), 2)]
    );
    assert_eq!(pairs(""), Vec::<(String, usize)>::new());
}

#[test]
fn a_key_may_be_empty_or_hold_tabulators() {
    assert_eq!(
        pairs("3\t\n4\ta\tb\n007\t\u{e9}\n"),
        vec![("".to_string(), 3), ("a\tb".to_string(), 4), ("\u{e9}".to_string(), 7)]
    );
}

#[test]
fn what_was_written_is_read_back() {
    let data = b"pear\napple\nfig\napple\n\"a b\"\npear\napple\n\xc3\xa9\n";
    let table = count_keys(data, b'\t', false, 1).unwrap();
    let mut read = pairs(&render_raw_counts(&table));
    assert_eq!(read.len(), table.len());
    read.sort();
    let mut held: Vec<(String, usize)> =
        (0..table.len()).map(|i| (table.key_at(i).to_string(), table.count_at(i))).collect();
    held.sort();
    assert_eq!(read, held);
    for (key, count) in read {
        assert_eq!(table.count_of(&key), Some(count));
    }
}

#[test]
fn the_greatest_count_is_read_and_a_greater_one_is_not() {
    let greatest = format!("{}\tk\n", usize::MAX);
    assert_eq!(pairs(&greatest), vec![("k".to_string(), usize::MAX)]);
    let greater = format!("{}0\tk\n", usize::MAX);
    assert_eq!(parse_failure(&greater), "Raw counts must be lines of COUNT<TAB>KEY");
}

#[test]
fn lines_of_another_form_are_refused() {
    for text in ["1\ta", "1 a\n", "\ta\n", "x\ta\n", "1\ta\n\n", "1\ta\n2\n", "-1\ta\n", "+1\ta\n"] {
        assert_eq!(
            parse_failure(text),
            "Raw counts must be lines of COUNT<TAB>KEY",
            "for {:?}",
            text
        );
    }
}

#[test]
fn a_hyphen_sends_raw_counts_to_the_console() {
    assert!(matches!(destination_of("-"), Destination::Console));
    match destination_of("counts.tsv") {
        Destination::File(name) => assert_eq!(name, "counts.tsv"),
        Destination::Console => panic!("a file was named"),
    }
    assert!(matches!(destination_of("--"), Destination::File(_)));
    assert!(matches!(destination_of(""), Destination::File(_)));
    assert!(matches!(destination_of("./-"), Destination::File(_)));
}
