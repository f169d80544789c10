use jump_list::description::parse_description_to_entry;
use jump_list::destination_list::add_dock_menu;
use jump_list::destination_list::add_recent_folders;
use jump_list::destination_list::can_link;
use jump_list::destination_list::format_link;
use jump_list::destination_list::read_description;
use jump_list::destination_list::recent_folders_category;
use jump_list::destination_list::removed_entries;
use jump_list::destination_list::update_jump_list;
use jump_list::destination_list::DockMenuError;
use jump_list::destination_list::DockMenuItem;
use jump_list::destination_list::JumpList;
use jump_list::destination_list::MenuItem;
use jump_list::entry::JumpListEntry;
use jump_list::entry::RemoteConnectionInfo;
use jump_list::paths::EntryPaths;

fn paths(texts: &[&str]) -> EntryPaths {
    EntryPaths::from_texts(&texts.iter().map(|text| text.to_string()).collect())
}

fn local(texts: &[&str]) -> JumpListEntry {
    JumpListEntry::Local(paths(texts))
}

fn ssh(host: &str, texts: &[&str]) -> JumpListEntry {
    JumpListEntry::Remote {
        connection: RemoteConnectionInfo::Ssh {
            username: Some("me".to_string()),
            host: host.to_string(),
            port: Some(22),
        },
        paths: paths(texts),
    }
}

fn task(name: &str) -> DockMenuItem<u32> {
    DockMenuItem::new(MenuItem::Action { name: name.to_string(), action: 7 }).unwrap()
}

fn utf16(text: &str, padding: usize) -> Vec<u16> {
    let mut units: Vec<u16> = text.encode_utf16().collect();
    units.resize(units.len() + padding, 0);
    units
}

#[test]
fn empty_jump_list() {
    let list: JumpList<u32> = JumpList::new();
    assert!(list.dock_menus.is_empty());
    assert!(list.recent_workspaces.is_empty());
}

#[test]
fn dock_menu_items_are_actions() {
    let new_window = task("New Window");
    assert_eq!(new_window.name, "New Window");
    assert_eq!(new_window.description, "Opens a new window");
    assert_eq!(new_window.action, 7);
    let other = task("New window");
    assert_eq!(other.description, "New window");
    let error = DockMenuItem::<u32>::new(MenuItem::Other).err().unwrap();
    assert_eq!(error, DockMenuError::NotAnAction);
    assert_eq!(
        error.message(),
        "Only `MenuItem::Action` is supported for dock menu on Windows."
    );
}

#[test]
fn local_link() {
    let link = format_link(&local(&["/home/me/a b", "/srv/c"]));
    assert_eq!(link.argument, "\"/home/me/a b\" \"/srv/c\"");
    assert_eq!(link.description, "/home/me/a b\n/srv/c");
    assert_eq!(link.icon, Some("explorer.exe".to_string()));
    assert_eq!(link.display, "a b, c");
}

#[test]
fn remote_link() {
    let link = format_link(&ssh("example.com", &["/home/me/a", "/srv/c"]));
    assert_eq!(link.argument, "\"ssh://me@example.com:22/home/me/a?path=%2Fsrv%2Fc\"");
    assert_eq!(link.description, "ssh://me@example.com:22/home/me/a?path=%2Fsrv%2Fc");
    assert_eq!(link.icon, Some("explorer.exe".to_string()));
    assert_eq!(link.display, "a, c [ssh: example.com]");
    let wsl = JumpListEntry::Remote {
        connection: RemoteConnectionInfo::Wsl { distro: "Ubuntu".to_string(), user: None },
        paths: paths(&["/"]),
    };
    assert_eq!(format_link(&wsl).display, "/ [wsl: Ubuntu]");
    let docker = JumpListEntry::Remote {
        connection: RemoteConnectionInfo::Docker { name: "web".to_string() },
        paths: paths(&[]),
    };
    assert_eq!(format_link(&docker).display, " [docker: web]");
    assert!(can_link(&docker));
}

#[test]
fn links_lead_back_to_their_entries() {
    for entry in [
        local(&["/a", "/b c"]),
        local(&[]),
        local(&["", "/b\r"]),
        local(&["C:\\a"]),
        ssh("example.com", &["/a", "/b c"]),
    ] {
        let read = parse_description_to_entry(&format_link(&entry).description);
        assert_eq!(format!("{:?}", read), format!("{:?}", entry));
    }
    for entry in [
        local(&["/a\n/b"]),
        local(&["/a\r", "/b"]),
        local(&["/a", ""]),
        local(&["ssh://h/a"]),
        local(&["remote:docker", "web"]),
    ] {
        let read = parse_description_to_entry(&format_link(&entry).description);
        assert_ne!(format!("{:?}", read), format!("{:?}", entry));
    }
}

#[test]
fn removed_entries_have_no_link() {
    let entries = vec![local(&["/a"]), ssh("h", &["/b"]), local(&["/c"]), local(&["/a/"])];
    let all = add_recent_folders(&entries, &vec![]);
    let displays: Vec<&str> = all.iter().map(|link| link.display.as_str()).collect();
    assert_eq!(displays, vec!["a", "b [ssh: h]", "c", "a"]);
    let removed = vec![ssh("h", &["/b"]), local(&["/a"]), ssh("h", &["/c"])];
    let shown = add_recent_folders(&entries, &removed);
    assert_eq!(shown.len(), 1);
    assert_eq!(shown[0].description, "/c");
}

#[test]
fn removed_links_are_not_shown_again() {
    let entries = vec![local(&["/a", "/b"]), ssh("h", &["/b", "/c d"])];
    let buffers: Vec<Vec<u16>> =
        add_recent_folders(&entries, &vec![]).iter().map(|link| utf16(&link.description, 4)).collect();
    let removed = removed_entries(&buffers);
    assert_eq!(removed, entries);
    assert!(add_recent_folders(&entries, &removed).is_empty());
}

#[test]
fn recent_folders_have_a_heading() {
    assert_eq!(recent_folders_category(Some(2)), Some("Recent Folders".to_string()));
    assert_eq!(recent_folders_category(Some(0)), None);
    assert_eq!(recent_folders_category(None), None);
}

#[test]
fn tasks_pass_on_their_index() {
    let tasks: Vec<DockMenuItem<u32>> = (0..12).map(|_| task("New Window")).collect();
    let links = add_dock_menu(&tasks);
    assert_eq!(links.len(), 12);
    assert_eq!(links[0].argument, "--dock-action 0");
    assert_eq!(links[11].argument, "--dock-action 11");
    assert_eq!(links[11].description, "Opens a new window");
    assert_eq!(links[11].display, "New Window");
    assert_eq!(links[11].icon, None);
}

#[test]
fn whole_jump_list() {
    let mut list = JumpList::new();
    list.dock_menus.push(task("New Window"));
    list.recent_workspaces.push(local(&["/a"]));
    list.recent_workspaces.push(local(&["/b"]));
    let links = update_jump_list(&list, &vec![local(&["/a"])]);
    assert_eq!(links.recent_folders.len(), 1);
    assert_eq!(links.recent_folders[0].display, "b");
    assert_eq!(links.user_tasks.len(), 1);
    assert_eq!(links.user_tasks[0].argument, "--dock-action 0");
}

#[test]
fn descriptions_in_buffers() {
    assert_eq!(read_description(&utf16("/a", 1000)), "/a");
    assert_eq!(read_description(&utf16("/a", 0)), "/a");
    assert_eq!(read_description(&utf16("", 1)), "");
    assert_eq!(read_description(&utf16("", 0)), "");
    assert_eq!(read_description(&vec![0x61, 0, 0x62]), "a");
    assert_eq!(read_description(&utf16("𝄞é", 2)), "𝄞é");
    assert_eq!(
        read_description(&vec![0xD834, 0xDD1E, 0x6D, 0xDD1E, 0x69, 0xD834, 0xD834]),
        "𝄞m\u{FFFD}i\u{FFFD}\u{FFFD}"
    );
}

#[test]
fn removed_entries_are_read() {
    let removed = removed_entries(&vec![utf16("/a\n/b", 3), utf16("docker://web/app", 3)]);
    assert_eq!(removed.len(), 2);
    assert_eq!(removed[0], local(&["/a", "/b"]));
    assert_eq!(
        removed[1],
        JumpListEntry::Remote {
            connection: RemoteConnectionInfo::Docker { name: "web".to_string() },
            paths: paths(&["/app"]),
        }
    );
    assert!(removed_entries(&vec![]).is_empty());
}

#[test]
fn local_links_lead_back_to_their_entries() {
    for texts in [&["/a"][..], &["C:\\a", "D:\\b:c"], &["\\\\server\\share"], &["src"], &["/ssh://h/p", "/b"]] {
        let description = format_link(&local(texts)).description;
        match parse_description_to_entry(&description) {
            JumpListEntry::Local(paths) => assert_eq!(paths.as_slice(), texts),
            JumpListEntry::Remote { .. } => panic!("{:?}", description),
        }
    }
    assert!(matches!(parse_description_to_entry("ssh://h/p"), JumpListEntry::Remote { .. }));
}
