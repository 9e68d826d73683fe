use resource_gateway::path::{
    is_safe_path, is_safe_segment, locate, path_segments, push_segment,
};
use resource_gateway::text::{
    bytes_eq, bytes_precede, ends_with, join, split_at_mark, text_eq, text_precedes,
};

fn strings(items: &[&str]) -> Vec<String> {
    items.iter().map(|s| s.to_string()).collect()
}

#[test]
fn text_eq_compares_whole_texts() {
    assert!(text_eq("", ""));
    assert!(text_eq("abc", "abc"));
    assert!(!text_eq("abc", "abd"));
    assert!(!text_eq("abc", "ab"));
    assert!(text_eq("grüße", "grüße"));
    assert!(bytes_eq(&[1, 2, 3], &[1, 2, 3]));
    assert!(!bytes_eq(&[1, 2, 3], &[1, 2]));
}

#[test]
fn text_precedes_is_the_order_of_strings() {
    let samples = ["", "a", "A", "a.txt", "b.txt", "ab", "é", "z", "Z", "10", "9", "a\u{0}"];
    for a in samples {
        for b in samples {
            assert_eq!(text_precedes(a, b), a <= b, "{:?} {:?}", a, b);
            assert_eq!(bytes_precede(a.as_bytes(), b.as_bytes()), a.as_bytes() <= b.as_bytes());
        }
    }
}

#[test]
fn ends_with_tests_the_suffix() {
    assert!(ends_with("myset.rnbopack", ".rnbopack"));
    assert!(ends_with(".rnbopack", ".rnbopack"));
    assert!(!ends_with("rnbopack", ".rnbopack"));
    assert!(!ends_with("myset.rnbopack.txt", ".rnbopack"));
    assert!(ends_with("anything", ""));
    assert!(ends_with("größe", "öße"));
}

#[test]
fn join_puts_the_separator_between() {
    assert_eq!(join(&strings(&[]), ","), "");
    assert_eq!(join(&strings(&["a"]), ","), "a");
    assert_eq!(join(&strings(&["a", "b", "c"]), ","), "a,b,c");
    assert_eq!(join(&strings(&["", ""]), "--"), "--");
}

#[test]
fn split_gives_one_piece_more_than_marks() {
    assert_eq!(split_at_mark("", '/'), strings(&[""]));
    assert_eq!(split_at_mark("a", '/'), strings(&["a"]));
    assert_eq!(split_at_mark("a/b", '/'), strings(&["a", "b"]));
    assert_eq!(split_at_mark("/a//b/", '/'), strings(&["", "a", "", "b", ""]));
    assert_eq!(split_at_mark("ä/ö", '/'), strings(&["ä", "ö"]));
}

#[test]
fn path_segments_drop_empty_pieces() {
    assert_eq!(path_segments("v1/myset.rnbopack"), strings(&["v1", "myset.rnbopack"]));
    assert_eq!(path_segments("/a//b/"), strings(&["a", "b"]));
    assert_eq!(path_segments(""), strings(&[]));
    assert_eq!(path_segments("///"), strings(&[]));
}

#[test]
fn safe_segments_hold_no_slash_and_start_with_no_dot() {
    assert!(is_safe_segment("a.txt"));
    assert!(is_safe_segment("a b"));
    assert!(is_safe_segment("ünï"));
    assert!(!is_safe_segment(""));
    assert!(!is_safe_segment("."));
    assert!(!is_safe_segment(".."));
    assert!(!is_safe_segment(".hidden"));
    assert!(!is_safe_segment("a/b"));
    assert!(!is_safe_segment("/"));
    assert!(is_safe_path(&strings(&[])));
    assert!(is_safe_path(&strings(&["a", "b.txt"])));
    assert!(!is_safe_path(&strings(&["a", "..", "b"])));
}

#[test]
fn locate_appends_the_segments_to_the_root() {
    assert_eq!(locate("/data", &strings(&[])), "/data");
    assert_eq!(locate("/data", &strings(&["a", "b.txt"])), "/data/a/b.txt");
    assert_eq!(locate("/data/", &strings(&["a"])), "/data/a");
    assert_eq!(locate("", &strings(&["a", "b"])), "a/b");
    let mut path = String::from("/");
    push_segment(&mut path, "x");
    assert_eq!(path, "/x");
}
