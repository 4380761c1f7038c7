use notes_nav::listing::{collect_listing, compare, compare_names, sort_files, File, IoFailure, PathType};
use std::cmp::Ordering;

fn dir(name: &str) -> File {
    File { name: name.to_string(), path_type: PathType::Directory }
}

fn file(name: &str) -> File {
    File { name: name.to_string(), path_type: PathType::File }
}

fn names(files: &[File]) -> Vec<String> {
    files.iter().map(|f| f.name.clone()).collect()
}

fn failure(path: &str, message: &str) -> IoFailure {
    IoFailure { path: path.to_string(), message: message.to_string() }
}

#[test]
fn directories_then_files_by_name() {
    let found = vec![Ok(file("b.txt")), Ok(dir("a")), Ok(dir("c"))];
    let listed = collect_listing(found).unwrap();
    assert_eq!(names(&listed), vec!["a", "c", "b.txt"]);
    assert_eq!(listed[0].path_type, PathType::Directory);
    assert_eq!(listed[1].path_type, PathType::Directory);
    assert_eq!(listed[2].path_type, PathType::File);
}

#[test]
fn every_directory_precedes_every_file() {
    let found = vec![
        Ok(file("zeta.md")),
        Ok(dir("notes")),
        Ok(file("Alpha.md")),
        Ok(dir("Archive")),
        Ok(file("alpha.md")),
        Ok(dir("2024")),
    ];
    let listed = collect_listing(found).unwrap();
    assert_eq!(
        names(&listed),
        vec!["2024", "Archive", "notes", "Alpha.md", "alpha.md", "zeta.md"]
    );
    for i in 0..listed.len() {
        for j in i + 1..listed.len() {
            assert_ne!(compare(&listed[i], &listed[j]), Ordering::Greater);
        }
    }
}

#[test]
fn empty_directory_lists_nothing() {
    let listed = collect_listing(Vec::new()).unwrap();
    assert!(listed.is_empty());
}

#[test]
fn one_failed_entry_fails_the_listing() {
    let found = vec![
        Ok(dir("a")),
        Err(failure("/tmp/x/bad", "invalid filename")),
        Ok(file("b.txt")),
        Err(failure("/tmp/x/worse", "permission denied")),
    ];
    let err = collect_listing(found).unwrap_err();
    assert_eq!(err.path, "/tmp/x/bad");
    assert_eq!(err.message, "invalid filename");
}

#[test]
fn names_compare_by_code_point() {
    assert_eq!(compare_names("a", "b"), Ordering::Less);
    assert_eq!(compare_names("b", "a"), Ordering::Greater);
    assert_eq!(compare_names("same", "same"), Ordering::Equal);
    assert_eq!(compare_names("ab", "abc"), Ordering::Less);
    assert_eq!(compare_names("B", "a"), Ordering::Less);
    assert_eq!(compare_names("", ""), Ordering::Equal);
    assert_eq!(compare_names("é", "z"), Ordering::Greater);
}

#[test]
fn directory_sorts_before_file_of_smaller_name() {
    assert_eq!(compare(&dir("z"), &file("a")), Ordering::Less);
    assert_eq!(compare(&file("a"), &dir("z")), Ordering::Greater);
    assert_eq!(compare(&file("a"), &file("b")), Ordering::Less);
}

#[test]
fn sort_keeps_every_entry() {
    let sorted = sort_files(vec![file("c"), file("a"), dir("b"), file("b")]);
    assert_eq!(names(&sorted), vec!["b", "a", "b", "c"]);
    assert_eq!(sorted[0].path_type, PathType::Directory);
}
