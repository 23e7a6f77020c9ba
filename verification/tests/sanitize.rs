use fetch_extract::sanitize::{entry_parts, join_parts, safe_join, PathPart};
use std::path::{Component, Path, PathBuf};

fn host_parts(name: &str) -> Vec<PathPart> {
    let mut parts = Vec::new();
    for component in Path::new(name).components() {
        parts.push(match component {
            Component::Prefix(_) => PathPart::Prefix,
            Component::RootDir => PathPart::RootDir,
            Component::CurDir => PathPart::CurDir,
            Component::ParentDir => PathPart::ParentDir,
            Component::Normal(part) => PathPart::Normal(part.to_string_lossy().into_owned()),
        });
    }
    parts
}

fn host_join(dest: &str, name: &str) -> Option<PathBuf> {
    let mut clean = PathBuf::new();
    for component in Path::new(name).components() {
        match component {
            Component::Normal(part) => clean.push(part),
            Component::CurDir => {}
            _ => return None,
        }
    }
    Some(Path::new(dest).join(clean))
}

// Names without a backslash and without a drive letter: every host reads them alike.
const NAMES: [&str; 34] = [
    "", ".", "..", "/", "//", "a", "a/", "a//", "/a", "//a", "a/b", "a//b", "a/./b", "./a", "././a",
    "a/.", "a/..", "../a", "a/../b", "../../etc/passwd", "/etc/passwd", ".a", "a.", "..a", "a..",
    "...", "./", ".//", "/.", "/..", "a/b/c.txt", "./x", "a/C:x", "1:x",
];

#[test]
fn nested_name_goes_under_the_root() {
    assert_eq!(safe_join("/dest", "a/b/c.txt"), Ok("/dest/a/b/c.txt".to_string()));
}

#[test]
fn leading_current_dir_is_dropped() {
    assert_eq!(safe_join("/dest", "./x"), Ok("/dest/x".to_string()));
}

#[test]
fn parent_component_is_refused() {
    assert_eq!(
        safe_join("/dest", "../../etc/passwd"),
        Err("Unsafe zip entry path: ../../etc/passwd".to_string())
    );
    assert_eq!(safe_join("/dest", "a/../b"), Err("Unsafe zip entry path: a/../b".to_string()));
    assert_eq!(safe_join("/dest", "a/.."), Err("Unsafe zip entry path: a/..".to_string()));
}

#[test]
fn absolute_name_is_refused() {
    assert_eq!(safe_join("/dest", "/etc/passwd"), Err("Unsafe zip entry path: /etc/passwd".to_string()));
}

#[test]
fn volume_prefix_is_refused() {
    let parts = vec![PathPart::Prefix, PathPart::Normal("x".to_string())];
    assert_eq!(join_parts("/dest", &parts), None);
    for name in ["C:x", "C:\\x", "C:/x", "c:", "z:\\a\\b", "./C:x", ".\\D:\\x", "\\\\server\\share\\x", "\\\\?\\C:\\x"] {
        assert_eq!(safe_join("/dest", name), Err(format!("Unsafe zip entry path: {}", name)), "name {:?}", name);
    }
}

#[test]
fn backslash_separates_like_a_slash() {
    assert_eq!(safe_join("/dest", "a\\b\\c.txt"), Ok("/dest/a/b/c.txt".to_string()));
    assert_eq!(safe_join("/dest", ".\\x"), Ok("/dest/x".to_string()));
    assert_eq!(safe_join("/dest", "a\\/b"), Ok("/dest/a/b".to_string()));
    for name in ["..\\x", "a\\..\\b", "a\\..", "\\x", "\\", "x/..\\y"] {
        assert_eq!(safe_join("/dest", name), Err(format!("Unsafe zip entry path: {}", name)), "name {:?}", name);
    }
}

#[test]
fn drive_letter_after_a_name_is_a_name() {
    assert_eq!(safe_join("/dest", "a/C:x"), Ok("/dest/a/C:x".to_string()));
    assert_eq!(safe_join("/dest", "ab:x"), Ok("/dest/ab:x".to_string()));
    assert_eq!(safe_join("/dest", "1:x"), Ok("/dest/1:x".to_string()));
    assert_eq!(safe_join("/dest", ":x"), Ok("/dest/:x".to_string()));
}

#[test]
fn start_of_a_name_gives_its_first_components() {
    assert_eq!(entry_parts("C:x"), vec![PathPart::Prefix]);
    assert_eq!(
        entry_parts("C:\\x"),
        vec![PathPart::Prefix, PathPart::Normal("x".to_string())]
    );
    assert_eq!(
        entry_parts("\\\\srv\\x"),
        vec![
            PathPart::Prefix,
            PathPart::RootDir,
            PathPart::Normal("srv".to_string()),
            PathPart::Normal("x".to_string())
        ]
    );
    assert_eq!(entry_parts("\\x"), vec![PathPart::RootDir, PathPart::Normal("x".to_string())]);
    assert_eq!(
        entry_parts("./C:x"),
        vec![PathPart::CurDir, PathPart::Prefix]
    );
}

#[test]
fn decomposition_agrees_with_the_host() {
    for name in NAMES {
        assert_eq!(entry_parts(name), host_parts(name), "name {:?}", name);
    }
}

#[test]
fn join_agrees_with_the_host() {
    for dest in ["/dest", "/dest/", "dest", "", "/", "a/b"] {
        for name in NAMES {
            let expected = host_join(dest, name).map(|p| p.to_str().unwrap().to_string());
            assert_eq!(safe_join(dest, name).ok(), expected, "dest {:?} name {:?}", dest, name);
        }
    }
}

#[test]
fn dots_inside_names_are_normal() {
    assert_eq!(
        entry_parts("..a/.b/c.."),
        vec![
            PathPart::Normal("..a".to_string()),
            PathPart::Normal(".b".to_string()),
            PathPart::Normal("c..".to_string())
        ]
    );
}
