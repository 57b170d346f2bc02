use rip2::naming::{decimal_string, grave_for, rename_grave, suffixed_name};
use rip2::paths::{components_of, join_absolute, parent_of, path_starts_with, rebase};
use rip2::text::split_str;
use std::collections::HashSet;

#[test]
fn split_keeps_empty_pieces() {
    assert_eq!(split_str("a//b", '/'), vec!["a".to_string(), "".to_string(), "b".to_string()]);
    assert_eq!(split_str("", '/'), vec!["".to_string()]);
    assert_eq!(split_str("/", '/'), vec!["".to_string(), "".to_string()]);
}

#[test]
fn components_skip_root_empty_and_dot() {
    assert_eq!(
        components_of("/a//b/./c/"),
        vec!["a".to_string(), "b".to_string(), "c".to_string()]
    );
    assert_eq!(components_of("x/../y"), vec!["x".to_string(), "..".to_string(), "y".to_string()]);
}

#[test]
fn join_absolute_places_path_under_root() {
    assert_eq!(join_absolute("/tmp/g", "/tmp/x/a.txt"), "/tmp/g/tmp/x/a.txt");
    assert_eq!(join_absolute("/tmp/g/", "/tmp/x/a.txt"), "/tmp/g/tmp/x/a.txt");
    assert_eq!(join_absolute("/g", "/"), "/g");
    assert_eq!(join_absolute("", "/a/b"), "a/b");
    assert_eq!(join_absolute("/g", "rel/p"), "/g/rel/p");
}

#[test]
fn join_absolute_turns_drive_into_one_component() {
    assert_eq!(join_absolute("/g", "C:/Users/a.txt"), "/g/DISK_C/Users/a.txt");
    assert_eq!(join_absolute("/g", "d:/x"), "/g/DISK_D/x");
    assert_eq!(join_absolute("/g/", "Z:"), "/g/DISK_Z");
    assert_eq!(join_absolute("/g", "1:/x"), "/g/1:/x");
    assert_eq!(join_absolute("/g", "/C:/x"), "/g/C:/x");
}

#[test]
fn starts_with_compares_components() {
    assert!(path_starts_with("/a/b/c", "/a/b"));
    assert!(path_starts_with("/a/b", "/a/b/"));
    assert!(!path_starts_with("/a/bc", "/a/b"));
    assert!(!path_starts_with("a/b", "/a"));
    assert!(!path_starts_with("/a", "a"));
    assert!(path_starts_with("/a", ""));
    assert!(!path_starts_with("/a", "/a/b"));
}

#[test]
fn parent_drops_last_component() {
    assert_eq!(parent_of("/a/b/c").as_deref(), Some("/a/b"));
    assert_eq!(parent_of("/a").as_deref(), Some("/"));
    assert_eq!(parent_of("a").as_deref(), Some(""));
    assert_eq!(parent_of("/"), None);
    assert_eq!(parent_of(""), None);
}

#[test]
fn rebase_moves_entry_under_new_root() {
    assert_eq!(rebase("/src/d/x/y", "/src/d", "/g/src/d").as_deref(), Some("/g/src/d/x/y"));
    assert_eq!(rebase("/src/d", "/src/d", "/g/src/d").as_deref(), Some("/g/src/d"));
    assert_eq!(rebase("/other/x", "/src/d", "/g"), None);
}

#[test]
fn decimal_digits() {
    assert_eq!(decimal_string(0), "0");
    assert_eq!(decimal_string(7), "7");
    assert_eq!(decimal_string(10), "10");
    assert_eq!(decimal_string(1234567890), "1234567890");
    assert_eq!(decimal_string(u64::MAX), u64::MAX.to_string());
    assert_eq!(suffixed_name("/g/a", 12), "/g/a~12");
}

fn taken(names: &[&str]) -> HashSet<String> {
    names.iter().map(|s| s.to_string()).collect()
}

#[test]
fn conflict_suffixes_in_order() {
    let mut used = taken(&[]);
    let mut got = Vec::new();
    for _ in 0..4 {
        let g = grave_for("/g/tmp/a", &|p: &str| used.contains(p)).unwrap();
        used.insert(g.clone());
        got.push(g);
    }
    assert_eq!(got, vec!["/g/tmp/a", "/g/tmp/a~1", "/g/tmp/a~2", "/g/tmp/a~3"]);
}

#[test]
fn rename_grave_takes_first_free_suffix() {
    let used = taken(&["/g/a", "/g/a~1", "/g/a~3"]);
    assert_eq!(rename_grave("/g/a", &|p: &str| used.contains(p)).as_deref(), Some("/g/a~2"));
    let none = taken(&[]);
    assert_eq!(rename_grave("/g/a", &|p: &str| none.contains(p)).as_deref(), Some("/g/a~1"));
}
