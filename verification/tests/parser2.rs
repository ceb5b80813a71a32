use cooklang::parser2::SlidingRange;

#[test]
fn sliding_range_skip() {
    let mut range = SlidingRange { start: 3, end: 10 };
    range.skip(5);
    assert_eq!(range.start, 8);
    assert_eq!(range.end, 10);
    range.skip(4);
    assert_eq!(range.start, 12);
    assert_eq!(range.end, 12);
}

#[test]
fn sliding_range_grow() {
    let mut range = SlidingRange::new(4);
    range.grow(10);
    assert_eq!(range.start, 4);
    assert_eq!(range.end, 14);
}

#[test]
fn sliding_range_fragment() {
    let mut range = SlidingRange { start: 5, end: 8 };
    let s = "hii! uwu :)";
    assert_eq!(range.fragment(s), "uwu");
    assert_eq!(range.start, 8);
    assert_eq!(range.end, 8);
}

#[test]
fn sliding_range_fragment_multibyte() {
    let mut range = SlidingRange { start: 2, end: 5 };
    assert_eq!(range.fragment("ñañb"), "añ");
    assert_eq!(range.start, 5);
}
