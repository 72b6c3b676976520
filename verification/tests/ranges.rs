use taplo::range::TextRange;

fn pair(r: TextRange) -> (u32, u32) {
    (r.start(), r.end())
}

#[test]
fn new_keeps_both_offsets() {
    assert_eq!(pair(TextRange::new(3, 9)), (3, 9));
    assert_eq!(pair(TextRange::new(4, 4)), (4, 4));
    assert_eq!(pair(TextRange::empty()), (0, 0));
}

#[test]
fn cover_holds_both_ranges() {
    let a = TextRange::new(0, 5);
    let b = TextRange::new(15, 20);
    assert_eq!(pair(a.cover(b)), (0, 20));
    assert_eq!(pair(b.cover(a)), (0, 20));
    assert_eq!(pair(TextRange::new(2, 30).cover(TextRange::new(5, 6))), (2, 30));
    assert_eq!(pair(TextRange::new(5, 6).cover(TextRange::new(6, 8))), (5, 8));
}

#[test]
fn cover_offset_reaches_the_offset() {
    assert_eq!(pair(TextRange::new(0, 0).cover_offset(20)), (0, 20));
    assert_eq!(pair(TextRange::new(5, 9).cover_offset(2)), (2, 9));
    assert_eq!(pair(TextRange::new(5, 9).cover_offset(7)), (5, 9));
    assert_eq!(pair(TextRange::new(5, 9).cover_offset(9)), (5, 9));
}

#[test]
fn debug_text_is_start_and_end() {
    assert_eq!(TextRange::new(3, 12).debug_text(), "3..12");
    assert_eq!(TextRange::new(0, 0).debug_text(), "0..0");
}
