use std::path::Path;

use xet_ai::files::random_suffix;
use xet_ai::hash::sha256_file;
use xet_ai::keyed::{TextMap, TextSet};
use xet_ai::order::sorted;
use xet_ai::paths::{file_name_of, is_below, join_path, parent_of, path_is_absolute};
use xet_ai::text::{
    begins_with, bytes_of, contains_part, decimal_text, join_texts, lowered, read_text,
    split_lines, text_before, trimmed, without_prefix,
};

const PATHS: [&str; 24] = [
    "", "/", "a", "a/b", "/a", "/a/b", "a/", "a//b", "a/.", "a/./b", "./a", ".", "..", "a/..",
    "../a", "//a", "/.", "/..", "a/b/", "a/b/.", "///", ".a", "a/.b", "./",
];

#[test]
fn paths_are_joined_and_split_like_those_of_the_system() {
    for p in PATHS {
        let path = Path::new(p);
        assert_eq!(path_is_absolute(p), path.is_absolute(), "absolute {:?}", p);
        let parent = path.parent().map(|x| x.to_str().unwrap().to_string());
        assert_eq!(parent_of(p), parent, "parent of {:?}", p);
        let name = path.file_name().map(|x| x.to_str().unwrap().to_string());
        assert_eq!(file_name_of(p), name, "name of {:?}", p);
        for q in PATHS {
            let joined = path.join(q).to_str().unwrap().to_string();
            assert_eq!(join_path(p, q), joined, "{:?} joined with {:?}", p, q);
            assert_eq!(is_below(p, q), path.starts_with(q), "{:?} below {:?}", p, q);
        }
    }
}

#[test]
fn text_is_handled_like_that_of_the_system() {
    let samples = [
        "", " ", "a", " a b \n", "\ta\u{a0}", "a\r\nb\n\nc", "a\n", "\n", "a\rb\r", "\u{2003}x\u{3000}",
        "Ünï\u{85}", "\u{1c}a\u{1c}", "x\r\n", "ABC xyz", "abcabc",
    ];
    for s in samples {
        assert_eq!(trimmed(s), s.trim(), "trim {:?}", s);
        let lines: Vec<String> = s.lines().map(|l| l.to_string()).collect();
        assert_eq!(split_lines(s), lines, "lines of {:?}", s);
        assert_eq!(lowered(s), s.to_ascii_lowercase());
        assert_eq!(bytes_of(s), s.as_bytes().to_vec());
        assert_eq!(read_text(s.as_bytes()), s);
        for t in samples {
            assert_eq!(begins_with(s, t), s.starts_with(t));
            assert_eq!(contains_part(s, t), s.contains(t), "{:?} in {:?}", t, s);
            assert_eq!(without_prefix(s, t), s.strip_prefix(t).map(|x| x.to_string()));
            assert_eq!(text_before(s, t), s < t);
        }
    }
    for n in [0, 7, 10, 42, 1000, u64::MAX] {
        assert_eq!(decimal_text(n), n.to_string());
    }
    let parts = vec!["a".to_string(), "b".to_string(), "c".to_string()];
    assert_eq!(join_texts(&parts, ", "), "a, b, c");
    assert_eq!(join_texts(&Vec::new(), ", "), "");
}

#[test]
fn bytes_that_are_no_text_are_read_all_the_same() {
    assert_eq!(read_text(b"a\xffb"), "a\u{fffd}b");
    assert_eq!(read_text("é".as_bytes()), "é");
    assert_eq!(read_text(b""), "");
}

#[test]
fn sha256_is_told_in_small_hexadecimal_digits() {
    assert_eq!(
        sha256_file(b"abc"),
        "ba7816bf8f01cfea414140de5dae2223b00361a396177a9cb410ff61f20015ad"
    );
    assert_eq!(
        sha256_file(b""),
        "e3b0c44298fc1c149afbf4c8996fb92427ae41e4649b934ca495991b7852b855"
    );
}

#[test]
fn suffixes_are_random_uuids() {
    let a = random_suffix();
    let b = random_suffix();
    assert_ne!(a, b);
    assert_eq!(a.len(), 36);
    let parsed = uuid::Uuid::parse_str(&a).unwrap();
    assert_eq!(parsed.get_version_num(), 4);
    assert_eq!(parsed.to_string(), a);
}

#[test]
fn sorting_is_stable() {
    let v = vec![
        ("b".to_string(), 1),
        ("a".to_string(), 2),
        ("b".to_string(), 3),
        ("a".to_string(), 4),
    ];
    assert_eq!(
        sorted(v),
        vec![
            ("a".to_string(), 2),
            ("a".to_string(), 4),
            ("b".to_string(), 1),
            ("b".to_string(), 3)
        ]
    );
}

#[test]
fn maps_and_sets_hand_their_keys_out_in_order() {
    let mut m = TextMap::new();
    m.insert("b".to_string(), 1);
    m.insert("a".to_string(), 2);
    m.insert("b".to_string(), 3);
    assert_eq!(m.get("b"), Some(&3));
    assert_eq!(m.get("c"), None);
    assert_eq!(m.keys(), vec!["a".to_string(), "b".to_string()]);
    let mut s = TextSet::new();
    s.insert("y".to_string());
    s.insert("x".to_string());
    s.insert("y".to_string());
    assert!(s.contains("x"));
    assert!(!s.contains("z"));
    assert_eq!(s.members(), vec!["x".to_string(), "y".to_string()]);
}
