use hist::delimiter::parse_delimiter;
use hist::error::HistError;

#[test]
fn the_names_of_the_tabulator() {
    assert_eq!(parse_delimiter("\\t").unwrap(), b'\t');
    assert_eq!(parse_delimiter("tab").unwrap(), b'\t');
    assert_eq!(parse_delimiter("TAB").unwrap(), b'\t');
    assert_eq!(parse_delimiter("\t").unwrap(), b'\t');
}

#[test]
fn the_names_of_comma_space_and_semicolon() {
    assert_eq!(parse_delimiter("comma").unwrap(), b',');
    assert_eq!(parse_delimiter(",").unwrap(), b',');
    assert_eq!(parse_delimiter("space").unwrap(), b' ');
    assert_eq!(parse_delimiter(" ").unwrap(), b' ');
    assert_eq!(parse_delimiter("semicolon").unwrap(), b';');
    assert_eq!(parse_delimiter(";").unwrap(), b';');
}

#[test]
fn any_other_text_stands_for_its_first_byte() {
    assert_eq!(parse_delimiter("|").unwrap(), b'|');
    assert_eq!(parse_delimiter("||").unwrap(), b'|');
    assert_eq!(parse_delimiter("Tab").unwrap(), b'T');
    assert_eq!(parse_delimiter("tabs").unwrap(), b't');
    assert_eq!(parse_delimiter("commas").unwrap(), b'c');
    assert_eq!(parse_delimiter("\u{e9}").unwrap(), 0xc3);
}

#[test]
fn the_empty_text_names_no_delimiter() {
    match parse_delimiter("") {
        Err(HistError::Validation(text)) => assert_eq!(text, "Delimiter cannot be empty"),
        other => panic!("unexpected: {:?}", other),
    }
}
