use jump_list::description::entry_from_description;
use jump_list::description::parse_description_to_entry;
use jump_list::description::parse_legacy_remote_format;
use jump_list::entry::JumpListEntry;
use jump_list::entry::RemoteConnectionInfo;
use jump_list::paths::EntryPaths;

fn paths(texts: &[&str]) -> EntryPaths {
    EntryPaths::from_texts(&texts.iter().map(|text| text.to_string()).collect())
}

fn local(texts: &[&str]) -> JumpListEntry {
    JumpListEntry::Local(paths(texts))
}

fn ssh(username: Option<&str>, host: &str, port: Option<u16>, texts: &[&str]) -> JumpListEntry {
    JumpListEntry::Remote {
        connection: RemoteConnectionInfo::Ssh {
            username: username.map(|name| name.to_string()),
            host: host.to_string(),
            port,
        },
        paths: paths(texts),
    }
}

fn wsl(distro: &str, user: Option<&str>, texts: &[&str]) -> JumpListEntry {
    JumpListEntry::Remote {
        connection: RemoteConnectionInfo::Wsl {
            distro: distro.to_string(),
            user: user.map(|name| name.to_string()),
        },
        paths: paths(texts),
    }
}

fn docker(name: &str, texts: &[&str]) -> JumpListEntry {
    JumpListEntry::Remote {
        connection: RemoteConnectionInfo::Docker { name: name.to_string() },
        paths: paths(texts),
    }
}

/// Descriptions are read to the letter.
fn check(description: &str, expected: JumpListEntry) {
    let entry = parse_description_to_entry(description);
    assert_eq!(format!("{:?}", entry), format!("{:?}", expected), "{:?}", description);
}

#[test]
fn urls_describe_remote_workspaces() {
    check("ssh://me@example.com:2222/a?path=%2Fb", ssh(Some("me"), "example.com", Some(2222), &["/a", "/b"]));
    check("ssh://example.com", ssh(None, "example.com", None, &[""]));
    check("SSH://example.com/a%20b", ssh(None, "example.com", None, &["/a%20b"]));
    check("wsl://Ubuntu/home?user=me&path=/x", wsl("Ubuntu", Some("me"), &["/home", "/x"]));
    check("wsl://Ubuntu/home?user=", wsl("Ubuntu", Some(""), &["/home"]));
    check("docker://web/app", docker("web", &["/app"]));
}

#[test]
fn other_urls_are_local_paths() {
    check("https://example.com/a", local(&["https://example.com/a"]));
    check("ssh:///a", local(&["ssh:///a"]));
    check("ssh:a", local(&["ssh:a"]));
    check("C:\\projects\\a", local(&["C:\\projects\\a"]));
}

#[test]
fn legacy_ssh_descriptions() {
    check("remote:ssh\nme@example.com:2222\n/a\n/b", ssh(Some("me"), "example.com", Some(2222), &["/a", "/b"]));
    check("remote:ssh\nexample.com:22\n/a", ssh(None, "example.com", Some(22), &["/a"]));
    check("remote:ssh\r\nexample.com\r\n", ssh(None, "example.com", None, &[]));
    check("remote:ssh\na@b@c:d:x\n/a", ssh(Some("a"), "b@c:d", None, &["/a"]));
    check("remote:ssh\n\n/a", ssh(None, "", None, &["/a"]));
    check("remote:ssh\n@:65536", ssh(Some(""), "", None, &[]));
}

#[test]
fn legacy_wsl_and_docker_descriptions() {
    check("remote:wsl\nUbuntu\n/home/me", wsl("Ubuntu", None, &["/home/me"]));
    check("remote:docker\nweb\n/app\n\n/lib", docker("web", &["/app", "", "/lib"]));
}

#[test]
fn unknown_legacy_descriptions_are_local_paths() {
    check("remote:ftp\nhost\n/a", local(&["remote:ftp", "host", "/a"]));
    check("remote:ssh", local(&["remote:ssh"]));
    check("remote:", local(&["remote:"]));
    check("Remote:ssh\nhost", local(&["Remote:ssh", "host"]));
    assert!(parse_legacy_remote_format("ssh\n").is_none());
    assert!(parse_legacy_remote_format("").is_none());
    assert!(parse_legacy_remote_format("ftp\nhost").is_none());
    assert_eq!(parse_legacy_remote_format("docker\nweb"), Some(docker("web", &[])));
}

#[test]
fn lines_are_local_paths() {
    check("", local(&[]));
    check("/a", local(&["/a"]));
    check("/a\n/b\r\n\n/c\n", local(&["/a", "/b", "", "/c"]));
}

#[test]
fn descriptions_without_a_url() {
    assert_eq!(entry_from_description(&None, "ssh://h/a"), local(&["ssh://h/a"]));
    assert_eq!(entry_from_description(&None, "remote:docker\nweb"), docker("web", &[]));
}
