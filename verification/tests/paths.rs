use fetch_extract::paths::{is_rooted, push_path, push_relative, wants_separator};
use std::path::PathBuf;

#[test]
fn separator_is_written_after_a_name() {
    assert!(wants_separator("/dest"));
    assert!(wants_separator("a"));
    assert!(!wants_separator("/dest/"));
    assert!(!wants_separator("/"));
    assert!(!wants_separator(""));
}

#[test]
fn relative_path_extends_the_path() {
    let mut path = String::from("/dest");
    push_relative(&mut path, "a/b");
    assert_eq!(path, "/dest/a/b");
    push_relative(&mut path, "");
    assert_eq!(path, "/dest/a/b/");
    push_relative(&mut path, "c");
    assert_eq!(path, "/dest/a/b/c");
    let mut empty = String::new();
    push_relative(&mut empty, "x");
    assert_eq!(empty, "x");
}

#[test]
fn rooted_path_replaces_the_path() {
    let mut path = String::from("/dest");
    push_path(&mut path, "/abs/x");
    assert_eq!(path, "/abs/x");
    assert!(is_rooted("/"));
    assert!(is_rooted("/a"));
    assert!(!is_rooted("a/"));
    assert!(!is_rooted(""));
}

#[test]
fn pushing_agrees_with_the_host() {
    for base in ["", "/", "/d", "/d/", "d", "d/e", "d//"] {
        for other in ["", "x", "x/y", "/x", "./x", "x/", ".."] {
            let mut text = base.to_string();
            push_path(&mut text, other);
            let mut host = PathBuf::from(base);
            host.push(other);
            assert_eq!(text, host.to_str().unwrap(), "base {:?} other {:?}", base, other);
        }
    }
}
