use match_display::text::{copy_str, copy_whole, Text};

#[test]
fn a_text_that_fits_is_kept_whole() {
    let text: Text<5> = copy_str("hello");
    assert_eq!(text.as_str(), "hello");
    let text: Text<3> = copy_str("€");
    assert_eq!(text.as_str(), "€");
}

#[test]
fn a_text_that_does_not_fit_leaves_nothing() {
    let text: Text<4> = copy_str("hello");
    assert_eq!(text.as_str(), "");
    let text: Text<2> = copy_str("€");
    assert_eq!(text.as_str(), "");
}

#[test]
fn pushing_appends_or_changes_nothing() {
    let mut text: Text<8> = Text::new();
    assert_eq!(text.push_str("foo"), Ok(()));
    assert_eq!(text.push_str("bar"), Ok(()));
    assert_eq!(text.push_str("tender"), Err(()));
    assert_eq!(text.as_str(), "foobar");
    assert_eq!(text.push_str("12"), Ok(()));
    assert_eq!(text.push_str(""), Ok(()));
    assert_eq!(text.push_str("3"), Err(()));
    assert_eq!(text.as_str(), "foobar12");
}

#[test]
fn writing_stops_at_the_first_piece_that_does_not_fit() {
    let mut text: Text<6> = Text::new();
    text.write_pieces(&["ab", "cd", "efg", "h"]);
    assert_eq!(text.as_str(), "abcd");
    text.write_pieces(&["ef", "g"]);
    assert_eq!(text.as_str(), "abcdef");
}

#[test]
fn a_text_is_copied_whole_or_not_at_all() {
    assert_eq!(copy_whole::<4>("abcd").map(|t| t.as_str().to_string()), Some("abcd".to_string()));
    assert!(copy_whole::<4>("abcde").is_none());
    assert!(copy_whole::<3>("éé").is_none());
    assert_eq!(copy_whole::<0>("").map(|t| t.as_str().len()), Some(0));
}
