use hist::aggregate::count_keys;
use hist::error::HistError;

#[test]
fn a_parse_failure_in_words() {
    assert_eq!(HistError::parse("Invalid width in geometry").message(), "Parse error: Invalid width in geometry");
    assert_eq!(HistError::Parse(String::new()).message(), "Parse error: ");
}

#[test]
fn a_validation_failure_in_words() {
    assert_eq!(
        HistError::validation("No data found to plot").message(),
        "Validation error: No data found to plot"
    );
}

#[test]
fn a_failure_of_the_reader_in_words() {
    let error = count_keys(b"a,b\nc\n", b',', false, 1).unwrap_err();
    let text = error.message();
    assert!(text.starts_with("CSV error: "));
    assert!(text.len() > "CSV error: ".len());
    assert!(text.contains("2 fields"), "{}", text);
}
