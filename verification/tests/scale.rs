use hist::error::HistError;
use hist::scale::{axis_scale, padded_width};

#[test]
fn the_bound_lies_on_the_grid_of_tenths() {
    let expected = [
        (1, 1),
        (2, 2),
        (3, 3),
        (4, 5),
        (5, 5),
        (6, 6),
        (7, 7),
        (8, 10),
        (9, 10),
        (10, 10),
        (11, 12),
        (13, 15),
        (16, 19),
        (20, 25),
        (99, 100),
        (100, 100),
        (101, 125),
        (1000, 1000),
        (1001, 1258),
        (12589, 12589),
        (12590, 15848),
        (1_000_000, 1_000_000),
        (1_000_001, 1_258_925),
    ];
    for (count, bound) in expected {
        assert_eq!(axis_scale(count).unwrap(), bound, "for the count {}", count);
    }
}

#[test]
fn no_axis_shows_the_count_zero() {
    match axis_scale(0) {
        Err(HistError::Validation(text)) => {
            assert_eq!(text, "A count axis needs a count of at least 1")
        }
        other => panic!("unexpected: {:?}", other),
    }
}

#[test]
fn the_bound_holds_the_count() {
    for count in 1..20_000usize {
        assert!(axis_scale(count).unwrap() >= count);
    }
    for shift in 1..usize::BITS {
        let count = 1usize << shift;
        assert!(axis_scale(count).unwrap() >= count);
        assert!(axis_scale(count - 1).unwrap() >= count - 1);
    }
}

#[test]
fn a_greater_count_never_has_a_smaller_bound() {
    let mut last = 0;
    for count in 1..20_000usize {
        let bound = axis_scale(count).unwrap();
        assert!(bound >= last);
        last = bound;
    }
}

#[test]
fn the_greatest_count_has_the_greatest_bound() {
    assert_eq!(axis_scale(usize::MAX).unwrap(), usize::MAX);
}

#[test]
fn the_bound_is_that_of_the_formula() {
    for count in 1..50_000usize {
        let steps = ((count as f64).log10() * 10.0).ceil();
        let formula = 10f64.powf(steps / 10.0) as usize;
        assert_eq!(axis_scale(count).unwrap(), formula, "for the count {}", count);
    }
}

#[test]
fn the_axis_has_a_tenth_of_room_to_spare() {
    assert_eq!(padded_width(0), 0);
    assert_eq!(padded_width(1), 2);
    assert_eq!(padded_width(2), 3);
    assert_eq!(padded_width(9), 10);
    assert_eq!(padded_width(10), 11);
    assert_eq!(padded_width(11), 13);
    assert_eq!(padded_width(20), 22);
    assert_eq!(padded_width(21), 24);
    assert_eq!(padded_width(100), 110);
    assert_eq!(padded_width(usize::MAX), usize::MAX);
}
