//! The directory join and the string helpers.

use trybuild::text::{join_path, str_eq};

#[test]
fn join_inserts_a_separator() {
    assert_eq!(join_path("/a/b", "c"), "/a/b/c");
}

#[test]
fn join_keeps_an_existing_separator() {
    assert_eq!(join_path("/a/b/", "c"), "/a/b/c");
}

#[test]
fn join_onto_empty_dir_is_the_path_itself() {
    assert_eq!(join_path("", "c/d"), "c/d");
}

#[test]
fn join_of_absolute_path_ignores_the_dir() {
    assert_eq!(join_path("/a/b", "/abs/p"), "/abs/p");
}

#[test]
fn join_keeps_traversal_segments() {
    assert_eq!(join_path("/repo/proj", "../sibling"), "/repo/proj/../sibling");
}

#[test]
fn str_eq_compares_by_characters() {
    assert!(str_eq("abc", "abc"));
    assert!(!str_eq("abc", "abd"));
    assert!(!str_eq("abc", "abcd"));
    assert!(str_eq("", ""));
    assert!(!str_eq("", "a"));
}
