use oatie::run::{BoundsError, DocString};
use oatie::splitter::DividedString;
use oatie::style::{Style, StyleMap};

#[test]
fn basic() {
    let mut ds = DividedString::new(DocString::from_str("Welcome!"), 1);
    ds.seek(5);
    assert_eq!(ds.left().unwrap().as_str(), "e!");
}

#[test]
fn option_ends() {
    let mut ds = DividedString::new(DocString::from_str("Welcome!"), 0);
    assert_eq!(ds.left(), None);
    assert_eq!(ds.right().is_some(), true);
    ds.seek("Welcome!".len() as isize);
    assert_eq!(ds.left().is_some(), true);
    assert_eq!(ds.right(), None);
}

#[test]
fn seek_beyond_end_is_refused() {
    let mut ds = DividedString::try_new(DocString::from_str("Welcome!"), 1).unwrap();
    assert_eq!(ds.try_seek(10), Err(BoundsError::BeyondEnd));
    // the cursor has not moved
    assert_eq!(ds.left().unwrap().as_str(), "elcome!");
}

#[test]
fn seek_before_start_is_refused() {
    let mut ds = DividedString::try_new(DocString::from_str("Welcome!"), 1).unwrap();
    assert_eq!(ds.try_seek(3), Ok(()));
    assert_eq!(ds.try_seek(-10), Err(BoundsError::BeforeStart));
    assert_eq!(ds.left().unwrap().as_str(), "ome!");
}

#[test]
fn seek_to_both_ends_is_accepted() {
    let mut ds = DividedString::try_new(DocString::from_str("Welcome!"), 3).unwrap();
    assert_eq!(ds.try_seek(-3), Ok(()));
    assert!(ds.left().is_none());
    assert_eq!(ds.try_seek(8), Ok(()));
    assert_eq!(ds.left().unwrap().as_str(), "");
    assert!(ds.right().is_none());
    assert_eq!(ds.try_seek(1), Err(BoundsError::BeyondEnd));
    assert_eq!(ds.try_seek(-9), Err(BoundsError::BeforeStart));
}

#[test]
fn construction_bound_is_stricter_than_seek_bound() {
    assert!(DividedString::try_new(DocString::from_str("Welcome!"), 7).is_ok());
    assert_eq!(
        DividedString::try_new(DocString::from_str("Welcome!"), 8).err(),
        Some(BoundsError::InvalidIndex)
    );
    assert_eq!(
        DividedString::try_new(DocString::from_str(""), 0).err(),
        Some(BoundsError::InvalidIndex)
    );
}

#[test]
fn right_hands_out_the_whole_run() {
    let mut ds = DividedString::new(DocString::from_str("Welcome!"), 3);
    assert_eq!(ds.right().unwrap().as_str(), "Welcome!");
    assert_eq!(ds.left().unwrap().as_str(), "come!");
    assert_eq!(ds.right().unwrap().as_str(), "Welcome!");
}

#[test]
fn destruct_gives_prefix_and_whole_run() {
    let mut ds = DividedString::new(DocString::from_str("Welcome!"), 1);
    ds.seek(2);
    let (a, b) = ds.destruct();
    assert_eq!(a.as_str(), "Wel");
    assert_eq!(b.as_str(), "Welcome!");
}

#[test]
fn cursor_counts_characters_not_bytes() {
    let mut ds = DividedString::new(DocString::from_str("h\u{e9}llo \u{20ac}5"), 1);
    ds.seek(1);
    assert_eq!(ds.left().unwrap().as_str(), "llo \u{20ac}5");
    ds.seek(5);
    assert_eq!(ds.left().unwrap().as_str(), "5");
    ds.seek(1);
    assert!(ds.right().is_none());
    ds.seek(-1);
    let (a, b) = ds.destruct();
    assert_eq!(a.as_str(), "h\u{e9}llo \u{20ac}");
    assert_eq!(b.as_str(), "h\u{e9}llo \u{20ac}5");
}

#[test]
fn splitter_over_a_part_of_a_buffer() {
    let whole = DocString::from_str("abcdef");
    let (_, tail) = whole.split_at(2);
    let mut ds = DividedString::new(tail, 1);
    assert_eq!(ds.left().unwrap().as_str(), "def");
    assert_eq!(ds.left().unwrap().byte_range().start, 3);
    assert_eq!(ds.left().unwrap().byte_range().end, 6);
    let (a, b) = ds.destruct();
    assert_eq!(a.as_str(), "c");
    assert_eq!(a.byte_range().start, 2);
    assert_eq!(a.byte_range().end, 3);
    assert_eq!(b.as_str(), "cdef");
}

#[test]
fn views_keep_the_styles() {
    let mut m = StyleMap::new();
    m.insert(Style::Bold, None);
    let mut ds = DividedString::new(DocString::from_str_styled("Welcome!", m.clone()), 2);
    assert!(ds.left().unwrap().styles().unwrap().same_entries(&m));
    assert!(ds.right().unwrap().styles().unwrap().same_entries(&m));
}
