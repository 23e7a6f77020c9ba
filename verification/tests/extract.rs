use fetch_extract::extract::{
    extract_zip, plan_entry, plan_extraction, read_listing, ArchiveEntry, ExtractStep,
    ExtractionPlan,
};
use std::collections::BTreeMap;
use std::io::{Cursor, Read, Write};
use zip::write::SimpleFileOptions;
use zip::{ZipArchive, ZipWriter};

fn archive(entries: &[(&str, Option<&[u8]>, Option<u32>)]) -> ZipArchive<Cursor<Vec<u8>>> {
    let mut writer = ZipWriter::new(Cursor::new(Vec::new()));
    for (name, content, mode) in entries {
        let mut options = SimpleFileOptions::default();
        if let Some(mode) = mode {
            options = options.unix_permissions(*mode);
        }
        match content {
            Some(bytes) => {
                writer.start_file(*name, options).unwrap();
                writer.write_all(bytes).unwrap();
            }
            None => writer.add_directory(*name, options).unwrap(),
        }
    }
    let cursor = writer.finish().unwrap();
    ZipArchive::new(cursor).unwrap()
}

fn file(name: &str) -> ArchiveEntry {
    ArchiveEntry { name: name.to_string(), is_dir: false, unix_mode: None }
}

fn dir(name: &str) -> ArchiveEntry {
    ArchiveEntry { name: name.to_string(), is_dir: true, unix_mode: None }
}

fn read(entries: Vec<ArchiveEntry>) -> Vec<Result<ArchiveEntry, String>> {
    entries.into_iter().map(Ok).collect()
}

#[test]
fn directory_and_file_are_planned_under_the_destination() {
    let mut zip = archive(&[("a/", None, None), ("a/f.bin", Some(&[1, 2, 3, 4]), Some(0o640))]);
    let plan = extract_zip(&zip.metadata(), "/destination");
    assert_eq!(plan.root, "/destination");
    assert_eq!(plan.failure, None);
    assert_eq!(plan.steps.len(), 2);
    assert_eq!(plan.steps[0], ExtractStep::CreateDir { index: 0, path: "/destination/a".to_string() });
    match &plan.steps[1] {
        ExtractStep::WriteFile { index, path, parent, unix_mode } => {
            assert_eq!(*index, 1);
            assert_eq!(path, "/destination/a/f.bin");
            assert_eq!(parent, "/destination/a");
            assert_eq!(unix_mode.map(|m| m & 0o777), Some(0o640));
            let mut content = Vec::new();
            zip.by_index(*index).unwrap().read_to_end(&mut content).unwrap();
            assert_eq!(content, vec![1, 2, 3, 4]);
        }
        other => panic!("expected a file, got {:?}", other),
    }
}

#[test]
fn entry_that_climbs_out_stops_the_extraction() {
    let zip = archive(&[
        ("ok.txt", Some(b"fine"), None),
        ("../../etc/passwd", Some(b"root"), None),
        ("late.txt", Some(b"never"), None),
    ]);
    let plan = extract_zip(&zip.metadata(), "/dest");
    assert_eq!(plan.failure, Some("Unsafe zip entry path: ../../etc/passwd".to_string()));
    assert_eq!(plan.steps.len(), 1);
    match &plan.steps[0] {
        ExtractStep::WriteFile { index, path, parent, .. } => {
            assert_eq!(*index, 0);
            assert_eq!(path, "/dest/ok.txt");
            assert_eq!(parent, "/dest");
        }
        other => panic!("expected a file, got {:?}", other),
    }
    for step in &plan.steps {
        let path = match step {
            ExtractStep::CreateDir { path, .. } => path,
            ExtractStep::WriteFile { path, .. } => path,
        };
        assert!(path.starts_with("/dest/"));
        assert!(!path.split('/').any(|part| part == ".."));
    }
}

#[test]
fn absolute_entry_stops_the_extraction() {
    let zip = archive(&[("/etc/shadow", Some(b"x"), None)]);
    let plan = extract_zip(&zip.metadata(), "/dest");
    assert_eq!(plan.failure, Some("Unsafe zip entry path: /etc/shadow".to_string()));
    assert!(plan.steps.is_empty());
}

#[test]
fn empty_archive_has_an_empty_plan() {
    let zip = archive(&[]);
    assert_eq!(
        extract_zip(&zip.metadata(), "out"),
        ExtractionPlan { root: "out".to_string(), steps: vec![], failure: None }
    );
}

#[test]
fn listing_and_plain_entries_give_the_same_plan() {
    let zip = archive(&[
        ("docs/", None, None),
        ("docs/readme.md", Some(b"hello"), None),
        ("./top.txt", Some(b"t"), None),
        ("a/b/c/deep.bin", Some(&[0u8; 16]), None),
    ]);
    let listing = zip.metadata();
    let mut entries = Vec::new();
    for i in 0..listing.len() {
        let record = listing.entry(i).unwrap();
        entries.push(ArchiveEntry {
            name: record.name().unwrap().into_owned(),
            is_dir: record.is_dir(),
            unix_mode: record.unix_mode(),
        });
    }
    assert_eq!(entries.len(), 4);
    assert_eq!(read_listing(&listing), read(entries.clone()));
    assert_eq!(entries[0].name, "docs/");
    assert!(entries[0].is_dir);
    assert!(!entries[1].is_dir);
    assert_eq!(entries[2].name, "./top.txt");
    assert_eq!(extract_zip(&listing, "/d"), plan_extraction("/d", &read(entries)));
}

#[test]
fn plan_of_plain_entries_stops_at_the_first_unsafe_one() {
    let entries = read(vec![dir("a/"), file("a/x"), file("a/../../y"), file("z")]);
    let plan = plan_extraction("/dest", &entries);
    assert_eq!(
        plan,
        ExtractionPlan {
            root: "/dest".to_string(),
            steps: vec![
                ExtractStep::CreateDir { index: 0, path: "/dest/a".to_string() },
                ExtractStep::WriteFile {
                    index: 1,
                    path: "/dest/a/x".to_string(),
                    parent: "/dest/a".to_string(),
                    unix_mode: None
                },
            ],
            failure: Some("Unsafe zip entry path: a/../../y".to_string()),
        }
    );
}

#[test]
fn file_gets_its_parent_directory() {
    assert_eq!(
        plan_entry("/dest", 7, &file("a/b/c.txt")),
        Ok(ExtractStep::WriteFile {
            index: 7,
            path: "/dest/a/b/c.txt".to_string(),
            parent: "/dest/a/b".to_string(),
            unix_mode: None
        })
    );
    assert_eq!(
        plan_entry("/dest", 0, &file("./x")),
        Ok(ExtractStep::WriteFile {
            index: 0,
            path: "/dest/x".to_string(),
            parent: "/dest".to_string(),
            unix_mode: None
        })
    );
    assert_eq!(
        plan_entry("rel/dir/", 0, &file("x//y")),
        Ok(ExtractStep::WriteFile {
            index: 0,
            path: "rel/dir/x/y".to_string(),
            parent: "rel/dir/x".to_string(),
            unix_mode: None
        })
    );
}

#[test]
fn mode_is_handed_on_for_files() {
    let entry = ArchiveEntry { name: "bin/run".to_string(), is_dir: false, unix_mode: Some(0o100755) };
    assert_eq!(
        plan_entry("/opt", 3, &entry),
        Ok(ExtractStep::WriteFile {
            index: 3,
            path: "/opt/bin/run".to_string(),
            parent: "/opt/bin".to_string(),
            unix_mode: Some(0o100755)
        })
    );
}

#[test]
fn directory_entry_is_created_as_a_directory() {
    assert_eq!(
        plan_entry("/dest", 2, &dir("a/b/")),
        Ok(ExtractStep::CreateDir { index: 2, path: "/dest/a/b".to_string() })
    );
    assert_eq!(
        plan_entry("/dest", 2, &dir("../up/")),
        Err("Unsafe zip entry path: ../up/".to_string())
    );
}

#[test]
fn planning_twice_gives_the_same_plan() {
    let entries = read(vec![dir("a/"), file("a/f.bin"), file("b.txt")]);
    assert_eq!(plan_extraction("/dest", &entries), plan_extraction("/dest", &entries));
}

#[test]
fn record_that_cannot_be_read_stops_the_extraction() {
    let records = vec![Ok(file("first.txt")), Err("invalid name".to_string()), Ok(file("later.txt"))];
    let plan = plan_extraction("/dest", &records);
    assert_eq!(plan.failure, Some("Failed reading zip entry: invalid name".to_string()));
    assert_eq!(
        plan.steps,
        vec![ExtractStep::WriteFile {
            index: 0,
            path: "/dest/first.txt".to_string(),
            parent: "/dest".to_string(),
            unix_mode: None
        }]
    );
}

fn carry_out(plan: &ExtractionPlan, tree: &mut BTreeMap<String, Option<usize>>) {
    fn create_dir_all(tree: &mut BTreeMap<String, Option<usize>>, path: &str) {
        for (at, c) in path.char_indices() {
            if c == '/' && at > 0 {
                tree.insert(path[..at].to_string(), None);
            }
        }
        if !path.is_empty() {
            tree.insert(path.to_string(), None);
        }
    }
    create_dir_all(tree, &plan.root);
    for step in &plan.steps {
        match step {
            ExtractStep::CreateDir { path, .. } => create_dir_all(tree, path),
            ExtractStep::WriteFile { index, path, parent, .. } => {
                create_dir_all(tree, parent);
                tree.insert(path.clone(), Some(*index));
            }
        }
    }
}

#[test]
fn carrying_a_plan_out_twice_leaves_the_same_tree() {
    let records = read(vec![
        dir("a/"),
        file("a/f.bin"),
        file("b/c/d.txt"),
        file("a/f.bin"),
        dir("b/c/d.txt/"),
        file("top"),
    ]);
    let plan = plan_extraction("/destination", &records);
    let mut tree = BTreeMap::new();
    tree.insert("/destination/old".to_string(), Some(99));
    carry_out(&plan, &mut tree);
    let once = tree.clone();
    carry_out(&plan, &mut tree);
    assert_eq!(tree, once);
    assert_eq!(once.get("/destination/a/f.bin"), Some(&Some(3)));
    assert_eq!(once.get("/destination/a"), Some(&None));
    assert_eq!(once.get("/destination/old"), Some(&Some(99)));
}

#[test]
fn entry_with_a_volume_prefix_or_a_backslash_climb_stops_the_extraction() {
    let zip = archive(&[("ok.txt", Some(b"fine"), None), ("C:\\Windows\\x.dll", Some(b"x"), None)]);
    let plan = extract_zip(&zip.metadata(), "/dest");
    assert_eq!(plan.failure, Some("Unsafe zip entry path: C:\\Windows\\x.dll".to_string()));
    assert_eq!(plan.steps.len(), 1);
    assert_eq!(
        plan_entry("/dest", 0, &file("..\\..\\x")),
        Err("Unsafe zip entry path: ..\\..\\x".to_string())
    );
    assert_eq!(
        plan_entry("/dest", 0, &file("a\\b.txt")),
        Ok(ExtractStep::WriteFile {
            index: 0,
            path: "/dest/a/b.txt".to_string(),
            parent: "/dest/a".to_string(),
            unix_mode: None
        })
    );
}
