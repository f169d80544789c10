use jump_list::paths::are_same_paths;
use jump_list::paths::display_name;
use jump_list::paths::is_same_path;
use jump_list::paths::name_or_path;
use jump_list::paths::EntryPaths;

fn paths(texts: &[&str]) -> EntryPaths {
    EntryPaths::from_texts(&texts.iter().map(|text| text.to_string()).collect())
}

#[test]
fn paths_keep_their_order() {
    let mut list = EntryPaths::new();
    assert_eq!(list.as_slice().len(), 0);
    for text in ["a", "b", "c"] {
        list.push(text.to_string());
    }
    assert_eq!(list.as_slice(), &["a".to_string(), "b".to_string(), "c".to_string()][..]);
    assert_eq!(list.clone().as_slice(), list.as_slice());
    let after = EntryPaths::from_texts_after(&vec!["x".to_string(), "y".to_string()], 1);
    assert_eq!(after.as_slice(), &["y".to_string()][..]);
}

#[test]
fn folders_are_named_by_their_last_component() {
    assert_eq!(display_name("/home/me/project"), "project");
    assert_eq!(display_name("/home/me/project/"), "project");
    assert_eq!(display_name("/"), "/");
    assert_eq!(display_name(""), "");
    assert_eq!(display_name("a/.."), "a/..");
    assert_eq!(name_or_path(Some("b".to_string()), "a/b"), "b");
    assert_eq!(name_or_path(None, "/"), "/");
}

#[test]
fn paths_are_compared_by_component() {
    assert!(is_same_path("/a/b", "/a//b/"));
    assert!(is_same_path("", ""));
    assert!(!is_same_path("/a/b", "/a/B"));
    assert!(are_same_paths(&paths(&["/a", "/b"]), &paths(&["/a/", "/b"])));
    assert!(!are_same_paths(&paths(&["/a", "/b"]), &paths(&["/b", "/a"])));
    assert!(!are_same_paths(&paths(&["/a"]), &paths(&["/a", "/b"])));
    assert!(are_same_paths(&paths(&[]), &paths(&[])));
}
