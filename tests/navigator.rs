use notes_nav::listing::{collect_listing, File, PathType};
use notes_nav::navigator::{get, new, PathState};
use notes_nav::panel::Panel;

fn strings(v: &[&str]) -> Vec<String> {
    v.iter().map(|s| s.to_string()).collect()
}

fn start(directory: &str) -> PathState {
    PathState::resolve(directory).unwrap()
}

#[test]
fn splits_working_directory_into_segments() {
    assert_eq!(new("/home/user"), strings(&["home", "user"]));
    assert_eq!(new("//home///user/"), strings(&["home", "user"]));
    assert_eq!(new("relative/path"), strings(&["relative", "path"]));
    assert!(new("/").is_empty());
    assert!(new("").is_empty());
}

#[test]
fn joins_segments_into_absolute_path() {
    assert_eq!(get(strings(&["home", "user"])), "/home/user");
    assert_eq!(get(strings(&["a"])), "/a");
    assert_eq!(get(Vec::new()), "");
}

#[test]
fn resolve_starts_on_a_directory() {
    let s = start("/home/user");
    assert_eq!(s.segments(), &strings(&["home", "user"]));
    assert_eq!(s.kind(), PathType::Directory);
    assert_eq!(s.depth(), 2);
    assert_eq!(s.path(), "/home/user");
    assert!(PathState::resolve("/").is_none());
}

#[test]
fn push_then_pop_restores_segments() {
    let mut s = start("/home/user");
    s.push("notes.md".to_string(), PathType::File);
    assert_eq!(s.kind(), PathType::File);
    s.pop();
    assert_eq!(s.segments(), &strings(&["home", "user"]));
    assert_eq!(s.kind(), PathType::Directory);
}

#[test]
fn pop_at_root_is_a_no_op() {
    let mut s = start("/home");
    s.pop();
    assert_eq!(s.segments(), &strings(&["home"]));
    assert_eq!(s.depth(), 1);
    assert_eq!(s.kind(), PathType::Directory);
}

#[test]
fn push_directory_lists_that_directory() {
    let mut s = start("/home/user");
    s.push("notes".to_string(), PathType::Directory);
    assert_eq!(s.segments(), &strings(&["home", "user", "notes"]));
    assert_eq!(s.listing_request(), Some("/home/user/notes".to_string()));
    assert_eq!(s.file_request(), None);
    let children = vec![
        Ok(File { name: "todo.md".to_string(), path_type: PathType::File }),
        Ok(File { name: "drafts".to_string(), path_type: PathType::Directory }),
    ];
    let listed = collect_listing(children).unwrap();
    let listed: Vec<String> = listed.iter().map(|f| f.name.clone()).collect();
    assert_eq!(listed, strings(&["drafts", "todo.md"]));
}

#[test]
fn file_location_requests_its_content() {
    let mut s = start("/home/user");
    s.push("todo.md".to_string(), PathType::File);
    assert_eq!(s.file_request(), Some("/home/user/todo.md".to_string()));
    assert_eq!(s.listing_request(), None);
}

#[test]
fn reset_replaces_the_location() {
    let mut s = start("/home/user");
    s.reset(strings(&["srv", "notes", "a.md"]), PathType::File);
    assert_eq!(s.path(), "/srv/notes/a.md");
    assert_eq!(s.kind(), PathType::File);
}

#[test]
fn snapshot_tracks_changes() {
    let mut s = start("/home/user");
    let before = s.snapshot();
    assert!(s.is_current(&before));
    s.push("notes".to_string(), PathType::Directory);
    assert!(!s.is_current(&before));
    s.pop();
    assert!(s.is_current(&before));
}

#[test]
fn stale_listing_is_discarded() {
    let mut s = start("/home/user");
    let mut sidebar: Panel<Vec<String>> = Panel::new(Vec::new());
    let issued_for = s.snapshot();
    s.push("notes".to_string(), PathType::Directory);
    let applied = sidebar.deliver(&s, &issued_for, strings(&["old", "listing"]));
    assert!(!applied);
    assert!(sidebar.shown().is_empty());

    let issued_for = s.snapshot();
    let applied = sidebar.deliver(&s, &issued_for, strings(&["fresh"]));
    assert!(applied);
    assert_eq!(sidebar.shown(), &strings(&["fresh"]));
}

#[test]
fn stale_file_content_is_discarded() {
    let mut s = start("/home/user");
    s.push("a.md".to_string(), PathType::File);
    let issued_for = s.snapshot();
    let mut editor: Panel<Option<String>> = Panel::new(None);
    s.pop();
    s.push("b.md".to_string(), PathType::File);
    assert!(!editor.deliver(&s, &issued_for, Some("text of a".to_string())));
    assert_eq!(editor.shown(), &None);
}
