use jscpdrs::detect::{Detector, DetectorConfig};
use jscpdrs::fragment::extract_fragment;
use jscpdrs::parse::tokensize_with_str;
use jscpdrs::tokenmap::Token;

fn token(id: &str, lo: u32, hi: u32) -> Token {
    Token { id: String::from(id), lo, hi }
}

// The token stream of the 33-byte source `function foo(){} function bar(){}`,
// with each token's byte span in that text.
fn two_statements_tokens() -> Vec<Token> {
    vec![
        token("function", 0, 8),
        token("foo", 9, 12),
        token("(", 12, 13),
        token(")", 13, 14),
        token("{", 14, 15),
        token("}", 15, 16),
        token("function", 17, 25),
        token("bar", 26, 29),
        token("(", 29, 30),
        token(")", 30, 31),
        token("{", 31, 32),
        token("}", 32, 33),
    ]
}

#[test]
fn merge_reports_one_clone_covering_both_statements() {
    // Two identically tokenized files; the window size spans well below one
    // statement, so consecutive windows all hit and merge into one clone.
    let mut detector = Detector::new(DetectorConfig { min_token: 5 });
    detector.detect_tokens(String::from("a.js"), two_statements_tokens());
    assert_eq!(detector.clones.len(), 0);
    detector.detect_tokens(String::from("b.js"), two_statements_tokens());
    assert_eq!(detector.clones.len(), 1);
    let clone = &detector.clones[0];
    assert_eq!(clone.duplication_a.source_id, "a.js");
    assert_eq!(clone.duplication_b.source_id, "b.js");
    // One clone covering both statements in each file, not two clones.
    assert_eq!(clone.duplication_a.lo, 0);
    assert_eq!(clone.duplication_a.hi, 33);
    assert_eq!(clone.duplication_b.lo, 0);
    assert_eq!(clone.duplication_b.hi, 33);
    assert!(clone.duplication_a.fragement.is_none());
    assert!(clone.duplication_b.fragement.is_none());
}

#[test]
fn rerunning_detection_yields_identical_clone_list() {
    let run = || {
        let mut detector = Detector::new(DetectorConfig { min_token: 5 });
        detector.detect_tokens(String::from("a.js"), two_statements_tokens());
        detector.detect_tokens(String::from("b.js"), two_statements_tokens());
        detector
    };
    let first = run();
    let second = run();
    assert_eq!(first.clones.len(), second.clones.len());
    let mut i = 0;
    while i < first.clones.len() {
        let c1 = &first.clones[i];
        let c2 = &second.clones[i];
        assert_eq!(c1.duplication_a.source_id, c2.duplication_a.source_id);
        assert_eq!(c1.duplication_a.lo, c2.duplication_a.lo);
        assert_eq!(c1.duplication_a.hi, c2.duplication_a.hi);
        assert_eq!(c1.duplication_b.source_id, c2.duplication_b.source_id);
        assert_eq!(c1.duplication_b.lo, c2.duplication_b.lo);
        assert_eq!(c1.duplication_b.hi, c2.duplication_b.hi);
        i += 1;
    }
}

#[test]
fn no_clone_between_files_of_differing_extensions() {
    // Byte-identical token streams, but one file is .js and the other .ts:
    // the partitioning by extension keeps them apart.
    let mut detector = Detector::new(DetectorConfig { min_token: 5 });
    detector.detect_tokens(String::from("a.js"), two_statements_tokens());
    detector.detect_tokens(String::from("b.ts"), two_statements_tokens());
    assert_eq!(detector.clones.len(), 0);
}

#[test]
fn files_without_shared_windows_yield_no_clones() {
    let mut detector = Detector::new(DetectorConfig { min_token: 3 });
    detector.detect_tokens(
        String::from("one.js"),
        tokensize_with_str(String::from("let a = 1;")),
    );
    detector.detect_tokens(
        String::from("two.js"),
        tokensize_with_str(String::from("function f() { return 42; }")),
    );
    assert_eq!(detector.clones.len(), 0);
}

#[test]
fn same_content_under_two_paths_yields_identical_fragments() {
    // One file included twice under different paths: at least one clone whose
    // source ids differ and whose extracted fragments are textually identical.
    let content = "const a = 1;\nconst b = 2;\n";
    let mut detector = Detector::new(DetectorConfig { min_token: 2 });
    detector.detect_tokens(String::from("x.js"), tokensize_with_str(String::from(content)));
    detector.detect_tokens(String::from("y.js"), tokensize_with_str(String::from(content)));
    assert!(detector.clones.len() >= 1);
    let clone = &detector.clones[0];
    assert_ne!(clone.duplication_a.source_id, clone.duplication_b.source_id);
    let frag_a = extract_fragment(content, clone.duplication_a.lo, clone.duplication_a.hi);
    let frag_b = extract_fragment(content, clone.duplication_b.lo, clone.duplication_b.hi);
    let frag_a = frag_a.expect("side a should have a valid span");
    let frag_b = frag_b.expect("side b should have a valid span");
    assert!(!frag_a.is_empty());
    assert_eq!(frag_a, frag_b);
}

#[test]
fn empty_token_stream_changes_nothing() {
    let mut detector = Detector::new(DetectorConfig { min_token: 5 });
    detector.detect_tokens(String::from("empty.js"), Vec::new());
    assert_eq!(detector.clones.len(), 0);
}

#[test]
fn default_detector_uses_fifty_tokens() {
    let detector = Detector::default();
    assert_eq!(detector.min_token, 50);
    assert_eq!(detector.clones.len(), 0);
}

#[test]
fn repeated_content_within_partition_pairs_prior_with_each_later_file() {
    // Three identical .js files: the store keeps the first file's windows
    // (hits never overwrite a stored window), so each later file is paired
    // against the first occurrence.
    let mut detector = Detector::new(DetectorConfig { min_token: 5 });
    detector.detect_tokens(String::from("a.js"), two_statements_tokens());
    detector.detect_tokens(String::from("b.js"), two_statements_tokens());
    detector.detect_tokens(String::from("c.js"), two_statements_tokens());
    assert_eq!(detector.clones.len(), 2);
    assert_eq!(detector.clones[0].duplication_a.source_id, "a.js");
    assert_eq!(detector.clones[0].duplication_b.source_id, "b.js");
    assert_eq!(detector.clones[1].duplication_a.source_id, "a.js");
    assert_eq!(detector.clones[1].duplication_b.source_id, "c.js");
}
