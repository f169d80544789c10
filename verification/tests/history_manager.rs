use jump_list::destination_list::add_recent_folders;
use jump_list::destination_list::format_link;
use jump_list::destination_list::removed_entries;
use jump_list::destination_list::MenuItem;
use jump_list::entry::JumpListEntry;
use jump_list::entry::RemoteConnectionInfo;
use jump_list::history_manager::DockerConnectionOptions;
use jump_list::history_manager::HistoryManager;
use jump_list::history_manager::HistoryManagerEntry;
use jump_list::history_manager::JumpListRequest;
use jump_list::history_manager::MockConnectionOptions;
use jump_list::history_manager::RemoteConnectionOptions;
use jump_list::history_manager::SerializedWorkspaceLocation;
use jump_list::history_manager::SshConnectionOptions;
use jump_list::history_manager::WorkspaceId;
use jump_list::history_manager::WslConnectionOptions;
use jump_list::paths::EntryPaths;

fn strings(texts: &[&str]) -> Vec<String> {
    texts.iter().map(|text| text.to_string()).collect()
}

fn local(texts: &[&str]) -> JumpListEntry {
    JumpListEntry::Local(EntryPaths::from_texts(&strings(texts)))
}

fn workspace(id: i64, path: &str) -> HistoryManagerEntry {
    HistoryManagerEntry::new(
        WorkspaceId(id),
        SerializedWorkspaceLocation::Local,
        &strings(&[path]),
    )
}

fn remote(options: RemoteConnectionOptions) -> RemoteConnectionInfo {
    let entry = HistoryManagerEntry::new(
        WorkspaceId(1),
        SerializedWorkspaceLocation::Remote(options),
        &strings(&["/a", "/b"]),
    );
    match entry.to_jump_list_entry() {
        JumpListEntry::Remote { connection, paths } => {
            assert_eq!(paths.as_slice(), &strings(&["/a", "/b"])[..]);
            connection
        }
        JumpListEntry::Local(_) => panic!("a remote workspace"),
    }
}

fn filled(workspaces: &[(i64, &str)]) -> HistoryManager {
    let mut manager = HistoryManager::new();
    for (id, path) in workspaces {
        manager.update_history(WorkspaceId(*id), workspace(*id, path), ());
    }
    manager
}

fn ids(manager: &HistoryManager) -> Vec<i64> {
    manager.history().iter().map(|entry| entry.id.0).collect()
}

fn check_request(request: &JumpListRequest<u32>, expected: &[&str]) {
    let expected: Vec<JumpListEntry> = expected.iter().map(|path| local(&[path])).collect();
    assert_eq!(request.entries, expected);
    assert_eq!(request.menus.len(), 1);
    assert!(matches!(
        &request.menus[0],
        MenuItem::Action { name, action: 7 } if name == "New Window"
    ));
}

#[test]
fn empty_history() {
    let manager = HistoryManager::new();
    assert!(manager.history().is_empty());
    check_request(&manager.update_jump_list(7), &[]);
}

#[test]
fn connections_of_remote_workspaces() {
    assert_eq!(
        remote(RemoteConnectionOptions::Ssh(SshConnectionOptions {
            username: Some("me".to_string()),
            host: "h".to_string(),
            port: Some(22),
        })),
        RemoteConnectionInfo::Ssh {
            username: Some("me".to_string()),
            host: "h".to_string(),
            port: Some(22),
        }
    );
    assert_eq!(
        remote(RemoteConnectionOptions::Wsl(WslConnectionOptions {
            distro_name: "Ubuntu".to_string(),
            user: Some("me".to_string()),
        })),
        RemoteConnectionInfo::Wsl { distro: "Ubuntu".to_string(), user: Some("me".to_string()) }
    );
    assert_eq!(
        remote(RemoteConnectionOptions::Docker(DockerConnectionOptions { name: "web".to_string() })),
        RemoteConnectionInfo::Docker { name: "web".to_string() }
    );
    assert_eq!(
        remote(RemoteConnectionOptions::Mock(MockConnectionOptions { id: 120 })),
        RemoteConnectionInfo::Ssh { username: None, host: "mock-120".to_string(), port: None }
    );
}

#[test]
fn connections_are_compared() {
    let wsl = |distro: &str, user: Option<&str>| RemoteConnectionInfo::Wsl {
        distro: distro.to_string(),
        user: user.map(|name| name.to_string()),
    };
    assert_eq!(wsl("a", None), wsl("a", None).clone());
    assert_ne!(wsl("a", None), wsl("a", Some("")));
    assert_ne!(wsl("a", None), wsl("b", None));
    assert_ne!(wsl("a", None), RemoteConnectionInfo::Docker { name: "a".to_string() });
    assert_eq!(wsl("a", None).scheme(), "wsl");
    assert_eq!(wsl("a", Some("b")).display_identifier(), "a");
}

#[test]
fn opened_workspaces_come_last() {
    let mut manager = filled(&[(1, "/a"), (2, "/b"), (3, "/c")]);
    assert_eq!(ids(&manager), vec![1, 2, 3]);
    let request = manager.update_history(WorkspaceId(1), workspace(1, "/new"), 7);
    assert_eq!(ids(&manager), vec![2, 3, 1]);
    check_request(&request, &["/new", "/c", "/b"]);
    manager.update_history(WorkspaceId(1), workspace(1, "/new"), 7);
    assert_eq!(ids(&manager), vec![2, 3, 1]);
}

#[test]
fn only_the_first_of_several_is_replaced() {
    let mut manager = HistoryManager::new();
    manager.update_history(WorkspaceId(9), workspace(1, "/a"), 7);
    manager.update_history(WorkspaceId(9), workspace(1, "/b"), 7);
    manager.update_history(WorkspaceId(1), workspace(2, "/c"), 7);
    assert_eq!(ids(&manager), vec![1, 2]);
    check_request(&manager.update_jump_list(7), &["/c", "/b"]);
}

#[test]
fn deleted_workspaces_are_gone() {
    let mut manager = filled(&[(1, "/a"), (2, "/b")]);
    assert!(manager.delete_history(WorkspaceId(3), 7).is_none());
    assert_eq!(ids(&manager), vec![1, 2]);
    let request = manager.delete_history(WorkspaceId(2), 7).unwrap();
    assert_eq!(ids(&manager), vec![1]);
    check_request(&request, &["/a"]);
}

#[test]
fn deleting_undoes_opening() {
    let mut manager = filled(&[(1, "/a"), (2, "/b")]);
    manager.update_history(WorkspaceId(3), workspace(3, "/c"), 7);
    manager.delete_history(WorkspaceId(3), 7);
    assert_eq!(ids(&manager), vec![1, 2]);
}

#[test]
fn stored_workspaces_are_loaded_in_reverse() {
    let mut manager = filled(&[(5, "/old")]);
    let stored = vec![
        (WorkspaceId(3), SerializedWorkspaceLocation::Local, strings(&["/c"])),
        (WorkspaceId(2), SerializedWorkspaceLocation::Local, strings(&["/b"])),
        (WorkspaceId(1), SerializedWorkspaceLocation::Local, strings(&["/a"])),
    ];
    let request = manager.init(Some(stored), 7);
    assert_eq!(ids(&manager), vec![1, 2, 3]);
    check_request(&request, &["/c", "/b", "/a"]);
    check_request(&manager.init(None, 7), &[]);
    assert!(manager.history().is_empty());
}

#[test]
fn removed_workspaces_are_taken_out() {
    let mut manager = filled(&[(1, "/a"), (2, "/b"), (3, "/a"), (4, "/c")]);
    assert!(manager.remove_user_removed_workspaces(&vec![]).is_empty());
    assert_eq!(ids(&manager), vec![1, 2, 3, 4]);
    let removed = vec![local(&["/a/"]), local(&["/d"]), local(&["/c"])];
    let deleted = manager.remove_user_removed_workspaces(&removed);
    assert_eq!(deleted, vec![WorkspaceId(4), WorkspaceId(3), WorkspaceId(1)]);
    assert_eq!(ids(&manager), vec![2]);
    assert!(manager.remove_user_removed_workspaces(&removed).is_empty());
    assert_eq!(ids(&manager), vec![2]);
}

#[test]
fn removed_links_leave_the_history() {
    let mut manager = filled(&[(1, "/a"), (2, "/b")]);
    let link = format_link(&manager.history()[0].to_jump_list_entry());
    let mut buffer: Vec<u16> = link.description.encode_utf16().collect();
    buffer.push(0);
    let deleted = manager.remove_user_removed_workspaces(&removed_entries(&vec![buffer]));
    assert_eq!(deleted, vec![WorkspaceId(1)]);
    assert_eq!(ids(&manager), vec![2]);
}

#[test]
fn jump_list_shows_what_remains() {
    let mut manager = filled(&[(1, "/a"), (2, "/b"), (3, "/c"), (4, "/b/"), (5, "/d")]);
    let removed = vec![local(&["/b"]), local(&["/d"])];
    let shown = add_recent_folders(&manager.update_jump_list(7).entries, &removed);
    manager.remove_user_removed_workspaces(&removed);
    let descriptions: Vec<&str> = shown.iter().map(|link| link.description.as_str()).collect();
    assert_eq!(descriptions, vec!["/c", "/a"]);
    check_request(&manager.update_jump_list(7), &["/c", "/a"]);
}

#[test]
fn opening_twice_is_opening_once() {
    let mut manager = filled(&[(1, "/a"), (2, "/b"), (1, "/a"), (1, "/a")]);
    assert_eq!(ids(&manager), vec![2, 1]);
    check_request(&manager.update_history(WorkspaceId(1), workspace(1, "/a"), 7), &["/a", "/b"]);
}

#[test]
fn equal_links_leave_the_history() {
    let mut manager = filled(&[(1, "/a")]);
    let location = SerializedWorkspaceLocation::Remote(RemoteConnectionOptions::Docker(
        DockerConnectionOptions { name: "web".to_string() },
    ));
    let entry = HistoryManagerEntry::new(WorkspaceId(2), location, &strings(&["/b/./c"]));
    let link = format_link(&entry.to_jump_list_entry());
    assert_eq!(link.description, "docker://web/b/c");
    manager.update_history(WorkspaceId(2), entry, ());
    let buffer: Vec<u16> = link.description.encode_utf16().collect();
    let deleted = manager.remove_user_removed_workspaces(&removed_entries(&vec![buffer]));
    assert_eq!(deleted, vec![WorkspaceId(2)]);
    assert_eq!(ids(&manager), vec![1]);
}
