use oatie::run::DocString;
use oatie::style::{Style, StyleMap};
use oatie::wire::{decode, encode, DecodeError, Wire};

fn link() -> StyleMap {
    let mut m = StyleMap::new();
    m.insert(Style::Link, Some("http://example.com".to_string()));
    m
}

#[test]
fn a_run_without_styles_is_a_string() {
    let (_, tail) = DocString::from_str("h\u{e9}llo").split_at(1);
    match encode(&tail) {
        Wire::Text(s) => assert_eq!(s, "\u{e9}llo"),
        Wire::Sequence(_, _) => panic!("expected a string"),
    }
}

#[test]
fn a_run_with_styles_is_a_pair() {
    let (head, _) = DocString::from_str_styled("hello", link()).split_at(4);
    match encode(&head) {
        Wire::Sequence(Some(s), Some(m)) => {
            assert_eq!(s, "hell");
            assert!(m.same_entries(&link()));
        }
        _ => panic!("expected a pair"),
    }
    let empty = DocString::from_str_styled("x", StyleMap::new());
    assert!(matches!(encode(&empty), Wire::Sequence(Some(_), Some(_))));
}

#[test]
fn decode_takes_both_shapes() {
    let a = decode(Wire::Text("abc".to_string())).unwrap();
    assert_eq!(a.as_str(), "abc");
    assert!(a.styles().is_none());
    let b = decode(Wire::Sequence(Some("abc".to_string()), Some(link()))).unwrap();
    assert_eq!(b.as_str(), "abc");
    assert!(b.styles().unwrap().same_entries(&link()));
}

#[test]
fn decode_names_the_missing_element() {
    let e = decode(Wire::Sequence(None, None)).unwrap_err();
    assert_eq!(e, DecodeError::MissingContent);
    assert_eq!(e.field(), "0");
    let e = decode(Wire::Sequence(None, Some(link()))).unwrap_err();
    assert_eq!(e, DecodeError::MissingContent);
    let e = decode(Wire::Sequence(Some("abc".to_string()), None)).unwrap_err();
    assert_eq!(e, DecodeError::MissingStyles);
    assert_eq!(e.field(), "1");
}

#[test]
fn round_trip() {
    let (_, plain) = DocString::from_str("h\u{e9}llo").split_at(2);
    let back = decode(encode(&plain)).unwrap();
    assert!(back == plain);
    assert!(back.styles().is_none());
    let styled = DocString::from_str_styled("hello", link());
    let back = decode(encode(&styled)).unwrap();
    assert!(back == styled);
    assert!(back.styles().unwrap().same_entries(&link()));
}
