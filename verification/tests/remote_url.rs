use jump_list::description::parse_description_to_entry;
use jump_list::entry::JumpListEntry;
use jump_list::entry::RemoteConnectionInfo;
use jump_list::paths::EntryPaths;
use jump_list::remote_url::collect_paths_from_url;
use jump_list::remote_url::format_remote_url;
use jump_list::remote_url::parse_url_to_entry;
use jump_list::remote_url::remote_url_fits;
use jump_list::url_parts::UrlParts;

fn paths(texts: &[&str]) -> EntryPaths {
    EntryPaths::from_texts(&texts.iter().map(|text| text.to_string()).collect())
}

fn ssh(username: Option<&str>, host: &str, port: Option<u16>) -> RemoteConnectionInfo {
    RemoteConnectionInfo::Ssh {
        username: username.map(|name| name.to_string()),
        host: host.to_string(),
        port,
    }
}

fn wsl(distro: &str, user: Option<&str>) -> RemoteConnectionInfo {
    RemoteConnectionInfo::Wsl {
        distro: distro.to_string(),
        user: user.map(|name| name.to_string()),
    }
}

fn docker(name: &str) -> RemoteConnectionInfo {
    RemoteConnectionInfo::Docker { name: name.to_string() }
}

fn format(connection: &RemoteConnectionInfo, texts: &[&str]) -> String {
    let paths = paths(texts);
    assert!(remote_url_fits(connection, &paths));
    format_remote_url(connection, &paths)
}

/// Whether the URL of a workspace describes it, to the letter.
fn round_trips(connection: &RemoteConnectionInfo, texts: &[&str]) -> bool {
    let read = parse_description_to_entry(&format(connection, texts));
    let written = JumpListEntry::Remote { connection: connection.clone(), paths: paths(texts) };
    format!("{:?}", read) == format!("{:?}", written)
}

fn parts(scheme: &str, host: Option<&str>) -> UrlParts {
    UrlParts {
        text: String::new(),
        scheme: scheme.to_string(),
        username: String::new(),
        host: host.map(|host| host.to_string()),
        port: None,
        path: "/p".to_string(),
        query_pairs: Vec::new(),
    }
}

#[test]
fn ssh_url() {
    assert_eq!(
        format(&ssh(Some("me"), "example.com", Some(2222)), &["/home/me/a", "/srv/b c"]),
        "ssh://me@example.com:2222/home/me/a?path=%2Fsrv%2Fb+c"
    );
    assert_eq!(format(&ssh(None, "example.com", None), &["/a"]), "ssh://example.com/a");
}

#[test]
fn wsl_url() {
    assert_eq!(
        format(&wsl("Ubuntu", Some("me")), &["/home/me", "/opt"]),
        "wsl://Ubuntu/home/me?user=me&path=%2Fopt"
    );
    assert_eq!(format(&wsl("Ubuntu", None), &["/home/me"]), "wsl://Ubuntu/home/me");
}

#[test]
fn docker_url() {
    assert_eq!(format(&docker("web"), &["/app"]), "docker://web/app");
}

#[test]
fn refused_components_are_left_out() {
    assert_eq!(format(&ssh(None, "bad host", None), &["/p"]), "ssh://placeholder/p");
    assert_eq!(format(&ssh(None, ":22", None), &["/p"]), "ssh://placeholder/p");
    assert_eq!(format(&ssh(None, "a:b", None), &["/p"]), "ssh://a/p");
    assert_eq!(format(&ssh(Some("me"), "", Some(22)), &["/p"]), "ssh:///p");
}

#[test]
fn paths_in_urls() {
    assert_eq!(format(&ssh(None, "h", None), &[]), "ssh://h");
    assert_eq!(format(&ssh(None, "h", None), &[""]), "ssh://h");
    assert_eq!(format(&ssh(None, "h", None), &["src"]), "ssh://h/src");
    assert_eq!(format(&ssh(None, "h", None), &["/a b"]), "ssh://h/a%20b");
    assert_eq!(format(&ssh(None, "h", None), &["/a/./b/../c"]), "ssh://h/a/c");
    assert_eq!(format(&ssh(None, "h", None), &["?x"]), "ssh://h");
}

#[test]
fn remote_workspaces_are_read_back() {
    assert!(round_trips(&ssh(Some("me"), "example.com", Some(2222)), &["/home/me/a", "/srv/b c"]));
    assert!(round_trips(&ssh(None, "example.com", None), &["/a", "", "x", "remote:ssh\n\r", "é&=+%#?"]));
    assert!(round_trips(&ssh(None, "example.com", Some(0)), &[""]));
    assert!(round_trips(&ssh(None, "[::1]", Some(65535)), &["/"]));
    assert!(round_trips(&wsl("Ubuntu-22.04", Some("")), &["/home/me"]));
    assert!(round_trips(&wsl("Ubuntu", Some("a b&c=d\n")), &["//double", "/opt"]));
    assert!(round_trips(&wsl("Ubuntu", None), &["/home/me", "/opt", "/opt"]));
    assert!(round_trips(&docker("web_1"), &["/app/"]));
}

#[test]
fn encoded_components_are_not_read_back() {
    assert!(!round_trips(&ssh(None, "h", None), &[]));
    assert!(!round_trips(&ssh(None, "h", None), &["relative"]));
    assert!(!round_trips(&ssh(None, "h", None), &["/a b"]));
    assert!(!round_trips(&ssh(None, "", None), &["/a"]));
    assert!(!round_trips(&ssh(None, "bad host", None), &["/a"]));
    assert!(!round_trips(&ssh(Some(""), "h", None), &["/a"]));
    assert!(!round_trips(&ssh(Some("a b"), "h", None), &["/a"]));
    for segment in [".", "..", "%2e", "%2E", "%2e%2e", ".%2E", "%2e."] {
        for path in [format!("/{}", segment), format!("/a/{}/b", segment)] {
            assert!(!round_trips(&ssh(None, "h", None), &[path.as_str()]), "{}", path);
        }
    }
    for segment in ["...", "%2", "a.", ".a", "%2f", "..%2"] {
        let path = format!("/{}/b", segment);
        assert!(round_trips(&ssh(None, "h", None), &[path.as_str()]), "{}", path);
    }
}

#[test]
fn plain_characters_are_kept() {
    let not_in_host = "#/:<>?@[\\]^|";
    let not_in_path = "\"#<>?`{}";
    let not_in_username = "\"#<>?`{}/:;=@[\\]^|";
    for code in (0u32..=0x17f).chain([0xfffd, 0x1f600]) {
        let c = char::from_u32(code).unwrap();
        let printable = ('!'..='~').contains(&c);
        let text = format!("a{}b", c);
        for connection in [ssh(None, &text, Some(22)), wsl(&text, None), docker(&text)] {
            assert_eq!(
                round_trips(&connection, &["/p"]),
                printable && !not_in_host.contains(c),
                "host {:?}",
                text
            );
        }
        assert_eq!(
            round_trips(&ssh(Some(text.as_str()), "h", Some(22)), &["/p", "/q"]),
            printable && !not_in_username.contains(c),
            "user name {:?}",
            text
        );
        let path = format!("/{}", text);
        for connection in [ssh(Some("me"), "h", Some(22)), wsl("h", Some("me")), docker("h")] {
            assert_eq!(
                round_trips(&connection, &[path.as_str(), "/q"]),
                printable && !not_in_path.contains(c),
                "path {:?}",
                path
            );
        }
    }
}

#[test]
fn schemes_of_urls() {
    assert!(matches!(
        parse_url_to_entry(&parts("ssh", Some("h"))),
        Some(JumpListEntry::Remote {
            connection: RemoteConnectionInfo::Ssh { username: None, port: None, .. },
            ..
        })
    ));
    assert!(matches!(
        parse_url_to_entry(&parts("docker", Some("h"))),
        Some(JumpListEntry::Remote { connection: RemoteConnectionInfo::Docker { .. }, .. })
    ));
    assert!(parse_url_to_entry(&parts("https", Some("h"))).is_none());
    assert!(parse_url_to_entry(&parts("SSH", Some("h"))).is_none());
    assert!(parse_url_to_entry(&parts("ssh", None)).is_none());
}

#[test]
fn query_pairs_of_urls() {
    let pair = |name: &str, value: &str| (name.to_string(), value.to_string());
    let mut url = parts("wsl", Some("Ubuntu"));
    url.query_pairs = vec![
        pair("path", "/a"),
        pair("user", "first"),
        pair("Path", "/no"),
        pair("user", "second"),
        pair("path", "/b"),
    ];
    assert_eq!(
        collect_paths_from_url(&url).as_slice(),
        &["/p".to_string(), "/a".to_string(), "/b".to_string()][..]
    );
    assert_eq!(
        parse_url_to_entry(&url),
        Some(JumpListEntry::Remote {
            connection: wsl("Ubuntu", Some("first")),
            paths: paths(&["/p", "/a", "/b"]),
        })
    );
}

#[test]
fn urls_begin_with_the_scheme_of_the_connection() {
    for name in ["h", "", "bad host", ":1", "[::1]", "[", "ssh://h", "é", "%2f"] {
        for path in ["", "/", "//", "wsl://x", "?a#b", "..", "a b"] {
            for texts in [vec![path], vec![path, "ssh://h/", ""]] {
                let url = format(&ssh(Some("docker://"), name, Some(1)), &texts);
                assert!(url.starts_with("ssh://"), "{}", url);
                let url = format(&wsl(name, Some("ssh://")), &texts);
                assert!(url.starts_with("wsl://"), "{}", url);
                let url = format(&docker(name), &texts);
                assert!(url.starts_with("docker://"), "{}", url);
            }
        }
    }
}

#[test]
fn plain_components_are_kept_beside_others() {
    let read = parse_description_to_entry(&format(&ssh(Some("me"), "h", Some(22)), &["/a b", "c d"]));
    assert_eq!(
        read,
        JumpListEntry::Remote {
            connection: ssh(Some("me"), "h", Some(22)),
            paths: paths(&["/a%20b", "c d"]),
        }
    );
    let read = parse_description_to_entry(&format(&ssh(Some("m e"), "h", None), &["/a"]));
    assert_eq!(
        read,
        JumpListEntry::Remote { connection: ssh(Some("m%20e"), "h", None), paths: paths(&["/a"]) }
    );
    let read = parse_description_to_entry(&format(&ssh(Some("me"), "bad host", Some(1)), &[]));
    assert_eq!(
        read,
        JumpListEntry::Remote {
            connection: ssh(Some("me"), "placeholder", Some(1)),
            paths: paths(&[""]),
        }
    );
}
