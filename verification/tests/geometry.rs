use hist::error::HistError;
use hist::geometry::{parse_geometry, Geometry};

fn failure(text: &str) -> (String, String) {
    match parse_geometry(text) {
        Err(HistError::Validation(message)) => ("validation".to_string(), message),
        Err(HistError::Parse(message)) => ("parse".to_string(), message),
        other => panic!("unexpected for {:?}: {:?}", text, other),
    }
}

#[test]
fn width_and_height_are_read() {
    assert_eq!(parse_geometry("800x600").unwrap(), Geometry { width: 800, height: 600 });
    assert_eq!(parse_geometry("1280x960").unwrap(), Geometry { width: 1280, height: 960 });
    assert_eq!(parse_geometry("1x1").unwrap(), Geometry { width: 1, height: 1 });
}

#[test]
fn a_plus_and_leading_zeros_are_read() {
    assert_eq!(parse_geometry("+800x+600").unwrap(), Geometry { width: 800, height: 600 });
    assert_eq!(parse_geometry("0800x0060").unwrap(), Geometry { width: 800, height: 60 });
}

#[test]
fn the_greatest_size_is_read() {
    assert_eq!(
        parse_geometry("4294967295x4294967295").unwrap(),
        Geometry { width: u32::MAX, height: u32::MAX }
    );
}

#[test]
fn a_comma_is_no_separator() {
    assert_eq!(
        failure("800,600"),
        ("validation".to_string(), "Geometry must be in format WIDTHxHEIGHT".to_string())
    );
}

#[test]
fn two_separators_are_one_too_many() {
    assert_eq!(
        failure("800x600x1"),
        ("validation".to_string(), "Geometry must be in format WIDTHxHEIGHT".to_string())
    );
    assert_eq!(failure("xx").0, "validation");
}

#[test]
fn an_empty_geometry_is_refused() {
    assert_eq!(
        failure(""),
        ("validation".to_string(), "Geometry must be in format WIDTHxHEIGHT".to_string())
    );
    assert_eq!(failure("800X600").0, "validation");
}

#[test]
fn a_width_that_is_no_number_is_refused() {
    for text in ["x600", "ax600", "-1x600", "+x600", "8 00x600", "4294967296x600", "0x600", "8.5x600"] {
        assert_eq!(
            failure(text),
            ("parse".to_string(), "Invalid width in geometry".to_string()),
            "for {:?}",
            text
        );
    }
}

#[test]
fn a_height_that_is_no_number_is_refused() {
    for text in ["800x", "800xa", "800x-1", "800x+", "800x 600", "800x99999999999", "800x0", "800x000"] {
        assert_eq!(
            failure(text),
            ("parse".to_string(), "Invalid height in geometry".to_string()),
            "for {:?}",
            text
        );
    }
}

#[test]
fn the_width_is_judged_before_the_height() {
    assert_eq!(failure("ax").1, "Invalid width in geometry");
}
