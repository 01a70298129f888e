use jscpdrs::tokenmap::{Token, TokenMap};

fn token(id: &str, lo: u32, hi: u32) -> Token {
    Token { id: String::from(id), lo, hi }
}

// A filler hash string: 32 ASCII characters per token.
fn filler_hashes(n: usize) -> String {
    let mut s = String::new();
    let mut i: usize = 0;
    while i < n {
        s.push_str("0123456789abcdef0123456789abcdef");
        i += 1;
    }
    s
}

#[test]
// next on empty tokens map should work fine
fn empty_tokens() {
    let mut tokenmap = TokenMap {
        tokens: Vec::new(),
        hash_str: String::from("../examples/javascript/file1.js"),
        position: 0,
        min_token: 50,
        source_id: String::from("../examples/javascript/file1.js"),
    };
    tokenmap.next();
}

#[test]
fn empty_tokens_single_terminal_item() {
    let mut tokenmap = TokenMap {
        tokens: Vec::new(),
        hash_str: String::new(),
        position: 0,
        min_token: 50,
        source_id: String::from("empty.js"),
    };
    let item = tokenmap.next();
    assert!(item.done);
    assert_eq!(item.value.id, "");
    assert_eq!(item.value.source_id, "");
    assert!(item.value.start.is_none());
    assert!(item.value.end.is_none());
    // The windower is unchanged: every later step yields the same terminal item.
    let again = tokenmap.next();
    assert!(again.done);
    assert!(again.value.end.is_none());
}

#[test]
fn short_file_first_window_spans_whole_file() {
    // 3 tokens, window size 50: the first window covers the whole file.
    let mut tokenmap = TokenMap {
        tokens: vec![token("let", 0, 3), token("x", 4, 5), token(";", 5, 6)],
        hash_str: filler_hashes(3),
        position: 0,
        min_token: 50,
        source_id: String::from("short.js"),
    };
    let first = tokenmap.next();
    assert!(!first.done);
    let start = first.value.start.unwrap();
    let end = first.value.end.unwrap();
    assert_eq!(start.lo, 0);
    assert_eq!(end.hi, 6);
    // One advancing step, then the next item is terminal.
    let second = tokenmap.next();
    assert!(second.done);
    assert_eq!(second.value.end.unwrap().hi, 6);
}

#[test]
fn one_token_file_every_window_is_whole_file() {
    let mut tokenmap = TokenMap {
        tokens: vec![token(";", 0, 1)],
        hash_str: filler_hashes(1),
        position: 0,
        min_token: 50,
        source_id: String::from("tiny.js"),
    };
    let first = tokenmap.next();
    assert!(!first.done);
    assert_eq!(first.value.start.unwrap().lo, 0);
    assert_eq!(first.value.end.unwrap().hi, 1);
    let second = tokenmap.next();
    assert!(second.done);
    assert_eq!(second.value.start.unwrap().lo, 0);
    assert_eq!(second.value.end.unwrap().hi, 1);
}

#[test]
fn window_slides_by_one_token() {
    // 5 tokens, window size 2: start indices 0, 1, 2, 3 (the last is terminal).
    let mut tokenmap = TokenMap {
        tokens: vec![
            token("a", 0, 1),
            token("b", 2, 3),
            token("c", 4, 5),
            token("d", 6, 7),
            token("e", 8, 9),
        ],
        hash_str: filler_hashes(5),
        position: 0,
        min_token: 2,
        source_id: String::from("five.js"),
    };
    let i0 = tokenmap.next();
    assert!(!i0.done);
    assert_eq!(i0.value.start.unwrap().lo, 0);
    assert_eq!(i0.value.end.unwrap().hi, 5);
    let i1 = tokenmap.next();
    assert!(!i1.done);
    assert_eq!(i1.value.start.unwrap().lo, 2);
    assert_eq!(i1.value.end.unwrap().hi, 7);
    let i2 = tokenmap.next();
    assert!(!i2.done);
    assert_eq!(i2.value.start.unwrap().lo, 4);
    assert_eq!(i2.value.end.unwrap().hi, 9);
    let i3 = tokenmap.next();
    assert!(i3.done);
    assert_eq!(i3.value.start.unwrap().lo, 6);
    assert_eq!(i3.value.end.unwrap().hi, 9);
}

#[test]
fn window_fingerprint_covers_hashes_of_window_start_to_end() {
    // The fingerprint of the window at start 0 with size 2 is the hash-string
    // slice for token indices [0, 2): 64 characters.
    let mut hash_str = String::new();
    hash_str.push_str(&"a".repeat(32));
    hash_str.push_str(&"b".repeat(32));
    hash_str.push_str(&"c".repeat(32));
    let mut tokenmap = TokenMap {
        tokens: vec![token("x", 0, 1), token("y", 2, 3), token("z", 4, 5)],
        hash_str,
        position: 0,
        min_token: 2,
        source_id: String::from("three.js"),
    };
    let item = tokenmap.next();
    let mut expected = String::new();
    expected.push_str(&"a".repeat(32));
    expected.push_str(&"b".repeat(32));
    assert_eq!(item.value.id, expected);
    assert_eq!(item.value.source_id, "three.js");
}
