use jscpdrs::fragment::extract_fragment;
use jscpdrs::tokenmap::{ClonePair, CloneLoc};

#[test]
fn reversed_range_yields_no_fragment() {
    // lo > hi is skipped without any failure.
    assert!(extract_fragment("abcdef", 1, 0).is_none());
}

#[test]
fn reversed_range_clone_is_not_valid() {
    let clone = ClonePair {
        duplication_a: CloneLoc::new(String::from("examples/javascript/file_1.js"), 1, 0),
        duplication_b: CloneLoc::new(String::from("examples/javascript/file_1.js"), 1, 0),
    };
    assert!(!clone.is_valid());
}

#[test]
fn overlong_range_is_clamped_to_text_length() {
    // hi far past the end: the fragment runs to the end of the text.
    let frag = extract_fragment("abcdef", 1, 10000);
    assert_eq!(frag.as_deref(), Some("bcdef"));
}

#[test]
fn overlong_range_clone_is_valid_and_extracts() {
    let clone = ClonePair {
        duplication_a: CloneLoc::new(String::from("examples/javascript/file_1.js"), 1, 10000),
        duplication_b: CloneLoc::new(String::from("examples/javascript/file_1.js"), 1, 10000),
    };
    assert!(clone.is_valid());
}

#[test]
fn start_past_length_yields_no_fragment() {
    assert!(extract_fragment("ab", 5, 9).is_none());
}

#[test]
fn in_range_fragment_is_exact() {
    assert_eq!(extract_fragment("hello", 1, 3).as_deref(), Some("el"));
}

#[test]
fn single_byte_fragment() {
    let frag = extract_fragment("function foo(){}", 0, 1);
    assert_eq!(frag.as_deref(), Some("f"));
}

#[test]
fn whole_text_fragment() {
    let frag = extract_fragment("let x = 1;", 0, 10);
    assert_eq!(frag.as_deref(), Some("let x = 1;"));
}

#[test]
fn empty_range_yields_empty_fragment() {
    assert_eq!(extract_fragment("abc", 2, 2).as_deref(), Some(""));
}

#[test]
fn cut_off_character_boundary_yields_no_fragment() {
    // The first character takes two bytes; a cut inside it is rejected, not a
    // failure.
    let text = "\u{e9}tat";
    assert!(extract_fragment(text, 0, 1).is_none());
    assert_eq!(extract_fragment(text, 0, 2).as_deref(), Some("\u{e9}"));
}

#[test]
fn fragment_setters_fill_only_their_side() {
    let mut clone = ClonePair {
        duplication_a: CloneLoc::new(String::from("a.js"), 0, 4),
        duplication_b: CloneLoc::new(String::from("b.js"), 0, 4),
    };
    clone.fragement_a(String::from("text"));
    assert_eq!(clone.duplication_a.fragement.as_deref(), Some("text"));
    assert!(clone.duplication_b.fragement.is_none());
    clone.fragement_b(String::from("text"));
    assert_eq!(clone.duplication_b.fragement.as_deref(), Some("text"));
}

#[test]
fn enlarge_moves_both_ends() {
    let mut clone = ClonePair {
        duplication_a: CloneLoc::new(String::from("a.js"), 0, 4),
        duplication_b: CloneLoc::new(String::from("b.js"), 2, 6),
    };
    clone.enlarge(10, 12);
    assert_eq!(clone.duplication_a.lo, 0);
    assert_eq!(clone.duplication_a.hi, 10);
    assert_eq!(clone.duplication_b.lo, 2);
    assert_eq!(clone.duplication_b.hi, 12);
}
