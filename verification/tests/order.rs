use hist::order::{place_of, same_text, Place};

#[test]
fn keys_are_placed_by_their_bytes() {
    assert_eq!(place_of("a", "b"), Place::Before);
    assert_eq!(place_of("b", "a"), Place::After);
    assert_eq!(place_of("a", "a"), Place::Same);
    assert_eq!(place_of("", ""), Place::Same);
    assert_eq!(place_of("", "a"), Place::Before);
    assert_eq!(place_of("a", ""), Place::After);
    assert_eq!(place_of("ab", "abc"), Place::Before);
    assert_eq!(place_of("abd", "abc"), Place::After);
    assert_eq!(place_of("Z", "a"), Place::Before);
    assert_eq!(place_of("z", "\u{e9}"), Place::Before);
    assert_eq!(place_of("\u{ffff}", "\u{10000}"), Place::Before);
}

#[test]
fn the_order_is_that_of_strings() {
    let keys = ["", "a", "B", "ab", "\u{e9}", "z", "a\tb", "10", "9", "\u{1f600}"];
    for a in keys {
        for b in keys {
            let expected = match a.cmp(b) {
                std::cmp::Ordering::Less => Place::Before,
                std::cmp::Ordering::Equal => Place::Same,
                std::cmp::Ordering::Greater => Place::After,
            };
            assert_eq!(place_of(a, b), expected, "for {:?} and {:?}", a, b);
        }
    }
}

#[test]
fn texts_are_the_same_when_all_their_characters_are() {
    assert!(same_text("", ""));
    assert!(same_text("tab", "tab"));
    assert!(!same_text("tab", "tabs"));
    assert!(!same_text("tabs", "tab"));
    assert!(!same_text("tab", "tap"));
    assert!(same_text("\u{e9}t\u{e9}", "\u{e9}t\u{e9}"));
}
