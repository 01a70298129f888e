use jscpdrs::hashing::build_hash_str;
use jscpdrs::parse::tokensize_with_str;
use jscpdrs::partition::extension_of;
use jscpdrs::tokenmap::Token;

#[test]
fn parse_js_str_yields_tokens() {
    let tokens = tokensize_with_str(String::from("let x = 1;"));
    assert_ne!(tokens.len(), 0);
    assert_eq!(tokens[0].id, "let");
    assert_eq!(tokens[0].lo, 0);
    assert_eq!(tokens[0].hi, 3);
}

#[test]
fn parse_is_deterministic() {
    let a = tokensize_with_str(String::from("function f() { return 42; }"));
    let b = tokensize_with_str(String::from("function f() { return 42; }"));
    assert_eq!(a.len(), b.len());
    let mut i = 0;
    while i < a.len() {
        assert_eq!(a[i].id, b[i].id);
        assert_eq!(a[i].lo, b[i].lo);
        assert_eq!(a[i].hi, b[i].hi);
        i += 1;
    }
}

#[test]
fn token_ids_are_the_source_text_of_their_spans() {
    let content = "const answer = 40 + 2;";
    let tokens = tokensize_with_str(String::from(content));
    assert_ne!(tokens.len(), 0);
    for t in &tokens {
        let lo = t.lo as usize;
        let hi = t.hi as usize;
        assert!(lo <= hi && hi <= content.len());
        assert_eq!(t.id, &content[lo..hi]);
    }
}

#[test]
// parse of unsupported syntax should still hand back the captured tokens
fn unsupported_syntax_still_yields_tokens() {
    let tokens = tokensize_with_str(String::from("let let = ][ ;;"));
    assert_ne!(tokens.len(), 0);
}

#[test]
fn hash_str_is_32_hex_chars_per_token() {
    let tokens = vec![
        Token { id: String::from("let"), lo: 0, hi: 3 },
        Token { id: String::from("x"), lo: 4, hi: 5 },
    ];
    let hash_str = build_hash_str(&tokens);
    assert_eq!(hash_str.len(), 64);
    for c in hash_str.chars() {
        assert!(c.is_ascii_hexdigit());
    }
}

#[test]
fn hash_of_known_input_is_its_md5_hex_digest() {
    let tokens = vec![Token { id: String::from("abc"), lo: 0, hi: 3 }];
    assert_eq!(build_hash_str(&tokens), "900150983cd24fb0d6963f7d28e17f72");
}

#[test]
fn equal_ids_hash_equally_and_different_ids_differently() {
    let t = |id: &str| Token { id: String::from(id), lo: 0, hi: 1 };
    assert_eq!(build_hash_str(&vec![t("x")]), build_hash_str(&vec![t("x")]));
    assert_ne!(build_hash_str(&vec![t("x")]), build_hash_str(&vec![t("y")]));
}

#[test]
fn hash_does_not_echo_its_input() {
    // A 32-character identity must not come back unchanged.
    let tokens = vec![Token { id: String::from("0123456789abcdef0123456789abcdef"), lo: 0, hi: 32 }];
    assert_ne!(build_hash_str(&tokens), "0123456789abcdef0123456789abcdef");
}

#[test]
fn extension_is_what_follows_the_last_dot() {
    assert_eq!(extension_of("examples/javascript/file_1.js"), "js");
    assert_eq!(extension_of("a/b/c.tsx"), "tsx");
    assert_eq!(extension_of("x.test.ts"), "ts");
}

#[test]
fn paths_without_an_extension_have_an_empty_one() {
    assert_eq!(extension_of("noext"), "");
    assert_eq!(extension_of("dir.d/file"), "");
    assert_eq!(extension_of("a/.hidden"), "");
    assert_eq!(extension_of(".bashrc"), "");
    assert_eq!(extension_of("trailing."), "");
}
