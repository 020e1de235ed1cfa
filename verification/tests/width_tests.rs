use termfest::DisplayWidth;

#[test]
fn char_widths() {
    assert_eq!('a'.display_width(), 1);
    assert_eq!(' '.display_width(), 1);
    assert_eq!('あ'.display_width(), 2);
    assert_eq!('漢'.display_width(), 2);
}

#[test]
fn string_width_sums_characters() {
    assert_eq!("abc".display_width(), 3);
    assert_eq!("あいう".display_width(), 6);
    assert_eq!("aあb".display_width(), 4);
    assert_eq!("".display_width(), 0);
}
