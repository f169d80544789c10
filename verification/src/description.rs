//! Descriptions of jump list links, from which the entries behind them are read back.
//!
//! A remote workspace is described by its URL, a local one by its paths, one to a line. Links
//! made by older versions describe a remote workspace as
//! `remote:<scheme>\n<connection>\n<paths...>`.

use vstd::prelude::*;

use crate::entry::ConnectionView;
use crate::entry::EntryView;
use crate::entry::JumpListEntry;
use crate::entry::RemoteConnectionInfo;
use crate::paths::EntryPaths;
use crate::remote_url::parse_url_to_entry;
use crate::remote_url::url_entry;
use crate::text::after_prefix;
use crate::text::are_lines;
use crate::text::decimal;
use crate::text::first_position;
use crate::text::is_digit;
use crate::text::joined;
use crate::text::last_position;
use crate::text::lemma_after_prefix;
use crate::text::lemma_decimal;
use crate::text::lemma_first_position;
use crate::text::lemma_last_position;
use crate::text::lemma_lines_of_joined;
use crate::text::lemma_port_round_trip;
use crate::text::lemma_split_at_first;
use crate::text::lemma_split_at_last;
use crate::text::lines;
use crate::text::parse_port;
use crate::text::port_number;
use crate::text::rsplit_once;
use crate::text::same_text;
use crate::text::split_at_first;
use crate::text::split_at_last;
use crate::text::split_lines;
use crate::text::split_once;
use crate::text::strip_prefix;
use crate::text::texts;
use crate::text::without_carriage_return;
use crate::url_parts::is_letter;
use crate::url_parts::parse_url;
use crate::url_parts::parsed_url;
use crate::url_parts::UrlParts;
use crate::url_parts::UrlView;

verus! {

/// The SSH connection that `user@host:port` spells. The user ends at the first `@`, the port
/// begins at the last `:`, and neither has to be there. A port that is no number is dropped.
pub open spec fn ssh_connection(line: Seq<char>) -> ConnectionView {
    let (username, host_port) = match split_at_first(line, '@') {
        Some((username, rest)) => (Some(username), rest),
        None => (None, line),
    };
    match split_at_last(host_port, ':') {
        Some((host, port)) => ConnectionView::Ssh { username, host, port: port_number(port) },
        None => ConnectionView::Ssh { username, host: host_port, port: None },
    }
}

/// The connection that a line of the older format spells, if its scheme is one of ours.
pub open spec fn legacy_connection(scheme: Seq<char>, line: Seq<char>) -> Option<ConnectionView> {
    if scheme == "ssh"@ {
        Some(ssh_connection(line))
    } else if scheme == "wsl"@ {
        Some(ConnectionView::Wsl { distro: line, user: None })
    } else if scheme == "docker"@ {
        Some(ConnectionView::Docker { name: line })
    } else {
        None
    }
}

/// The entry that the older format spells behind `remote:`: a line with the scheme, one with the
/// connection, and one for each path.
pub open spec fn legacy_entry(rest: Seq<char>) -> Option<EntryView> {
    let lines = split_lines(rest);
    if lines.len() < 2 {
        None
    } else {
        match legacy_connection(lines[0], lines[1]) {
            Some(connection) => Some(EntryView::Remote { connection, paths: lines.skip(2) }),
            None => None,
        }
    }
}

/// The description in the older format of a workspace at `paths`, over the connection that `scheme`
/// and `line` spell.
pub open spec fn legacy_description(
    scheme: Seq<char>,
    line: Seq<char>,
    paths: Seq<Seq<char>>,
) -> Seq<char> {
    "remote:"@ + joined(seq![scheme, line] + paths, "\n"@)
}

/// The remote entry that a description spells, if it does; `url` is the URL that is read in it.
pub open spec fn remote_entry(url: Option<UrlView>, description: Seq<char>) -> Option<EntryView> {
    match url {
        Some(url) if url_entry(url) is Some => url_entry(url),
        _ => match after_prefix(description, "remote:"@) {
            Some(rest) => legacy_entry(rest),
            None => None,
        },
    }
}

/// The entry that a description spells: a remote one where it can be read as such, else the
/// local one whose paths are its lines. `url` is the URL that is read in the description.
pub open spec fn described_entry(url: Option<UrlView>, description: Seq<char>) -> EntryView {
    match remote_entry(url, description) {
        Some(entry) => entry,
        None => EntryView::Local(split_lines(description)),
    }
}

/// Whether a text cannot describe a remote workspace, by the looks of it: it holds no `:`, or
/// begins with a visible character that is no letter, as a path from the root does, or with a
/// drive.
pub open spec fn is_local_text(text: Seq<char>) -> bool {
    ||| !text.contains(':')
    ||| text.len() > 0 && text[0] > ' ' && !is_letter(text[0])
    ||| text.len() > 1 && text[1] == ':'
}

/// The connection that `user@host:port`, `host:port` or `host` spells.
fn parse_ssh_connection(line: &str) -> (connection: RemoteConnectionInfo)
    ensures
        connection@ == ssh_connection(line@),
{
    let (username, host_port) = match split_once(line, '@') {
        Some((username, rest)) => (Some(username), rest),
        None => (None, line.to_owned()),
    };
    match rsplit_once(host_port.as_str(), ':') {
        Some((host, port)) => RemoteConnectionInfo::Ssh {
            username,
            host,
            port: parse_port(port.as_str()),
        },
        None => RemoteConnectionInfo::Ssh { username, host: host_port, port: None },
    }
}

/// The entry that the older format spells behind `remote:`.
pub fn parse_legacy_remote_format(rest: &str) -> (entry: Option<JumpListEntry>)
    ensures
        match entry {
            Some(entry) => legacy_entry(rest@) == Some(entry@),
            None => legacy_entry(rest@) is None,
        },
{
    let lines = lines(rest);
    assert(texts(lines@).len() == lines@.len());
    if lines.len() < 2 {
        return None;
    }
    let scheme = lines[0].as_str();
    let line = lines[1].as_str();
    assert(scheme@ == split_lines(rest@)[0] && line@ == split_lines(rest@)[1]);
    let connection = if same_text(scheme, "ssh") {
        parse_ssh_connection(line)
    } else if same_text(scheme, "wsl") {
        RemoteConnectionInfo::Wsl { distro: line.to_owned(), user: None }
    } else if same_text(scheme, "docker") {
        RemoteConnectionInfo::Docker { name: line.to_owned() }
    } else {
        return None;
    };
    let paths = EntryPaths::from_texts_after(&lines, 2);
    Some(JumpListEntry::Remote { connection, paths })
}

/// The entry that `description` spells, where `url` is the URL that was read in it.
pub fn entry_from_description(url: &Option<UrlParts>, description: &str) -> (entry: JumpListEntry)
    ensures
        entry@ == described_entry(
            match url {
                Some(url) => Some(url@),
                None => None,
            },
            description@,
        ),
{
    if let Some(url) = url {
        if let Some(entry) = parse_url_to_entry(url) {
            return entry;
        }
    }
    if let Some(rest) = strip_prefix(description, "remote:") {
        if let Some(entry) = parse_legacy_remote_format(rest.as_str()) {
            return entry;
        }
    }
    JumpListEntry::Local(EntryPaths::from_texts(&lines(description)))
}

/// A description without remote looks is not in the older format.
proof fn lemma_local_text_is_not_legacy(text: Seq<char>)
    requires
        is_local_text(text),
    ensures
        after_prefix(text, "remote:"@) is None,
{
    reveal_strlit("remote:");
    if "remote:"@.is_prefix_of(text) {
        let start = text.subrange(0, "remote:"@.len() as int);
        assert(start[0] == text[0] && start[1] == text[1] && start[6] == text[6]);
        assert(text.contains(text[6]));
    }
}

/// A URL whose scheme is a single letter, or `remote`, describes no workspace.
proof fn lemma_scheme_is_not_ours(url: UrlView)
    ensures
        url.scheme.len() == 1 || url.scheme == "remote"@ ==> url_entry(url) is None,
{
    reveal_strlit("ssh");
    reveal_strlit("wsl");
    reveal_strlit("docker");
    reveal_strlit("remote");
    assert("remote"@[0] != "docker"@[0]);
}

/// The entry that `description` spells.
///
/// The paths of a local workspace, one to a line, are read back where they can stand so and do
/// not look like a remote workspace. So is a remote workspace in the older format, with the
/// connection that its line spells.
pub fn parse_description_to_entry(description: &str) -> (entry: JumpListEntry)
    requires
        description@.len() <= i32::MAX,
    ensures
        entry@ == described_entry(parsed_url(description@), description@),
        is_local_text(description@) ==> entry@ == EntryView::Local(split_lines(description@)),
        forall|paths: Seq<Seq<char>>|
            is_local_text(description@) && are_lines(paths) && description@ == #[trigger] joined(
                paths,
                "\n"@,
            ) ==> entry@ == EntryView::Local(paths),
        after_prefix(description@, "remote:"@) matches Some(rest) ==> entry@ == match legacy_entry(
            rest,
        ) {
            Some(entry) => entry,
            None => EntryView::Local(split_lines(description@)),
        },
        forall|scheme: Seq<char>, line: Seq<char>, paths: Seq<Seq<char>>|
            are_lines(seq![scheme, line] + paths) && legacy_connection(scheme, line) is Some
                && description@ == #[trigger] legacy_description(scheme, line, paths) ==> entry@ == (
            EntryView::Remote { connection: legacy_connection(scheme, line)->0, paths }),
        forall|connection: ConnectionView, paths: Seq<Seq<char>>|
            has_legacy_text(connection, paths) && description@ == #[trigger] legacy_text(
                connection,
                paths,
            ) ==> entry@ == (EntryView::Remote { connection, paths }),
{
    let url = parse_url(description);
    proof {
        if url is Some {
            lemma_scheme_is_not_ours(url->0@);
        }
        if is_local_text(description@) {
            lemma_local_text_is_not_legacy(description@);
        }
        assert forall|paths: Seq<Seq<char>>|
            are_lines(paths) && description@ == #[trigger] joined(
                paths,
                "\n"@,
            ) implies split_lines(description@) == paths by {
            lemma_lines_of_joined(paths);
        }
        assert forall|scheme: Seq<char>, line: Seq<char>, paths: Seq<Seq<char>>|
            are_lines(seq![scheme, line] + paths) && legacy_connection(scheme, line) is Some
                && description@ == #[trigger] legacy_description(
                scheme,
                line,
                paths,
            ) implies "remote:"@.is_prefix_of(description@) && described_entry(None, description@) == (
        EntryView::Remote { connection: legacy_connection(scheme, line)->0, paths }) by {
            lemma_legacy_description(scheme, line, paths);
        }
        assert forall|connection: ConnectionView, paths: Seq<Seq<char>>|
            has_legacy_text(connection, paths) && description@ == #[trigger] legacy_text(
                connection,
                paths,
            ) implies "remote:"@.is_prefix_of(description@) && described_entry(None, description@)
            == (EntryView::Remote { connection, paths }) by {
            lemma_legacy_text(connection, paths);
        }
    }
    entry_from_description(&url, description)
}

/// The line of the older format that spells an SSH connection.
pub open spec fn ssh_line(username: Option<Seq<char>>, host: Seq<char>, port: Option<u16>) -> Seq<
    char,
> {
    let host_port = match port {
        Some(port) => host + seq![':'] + decimal(port as nat),
        None => host,
    };
    match username {
        Some(username) => username + seq!['@'] + host_port,
        None => host_port,
    }
}

/// No entry that is read as a remote one is local.
proof fn lemma_remote_entry(url: Option<UrlView>, description: Seq<char>)
    ensures
        remote_entry(url, description) matches Some(entry) ==> entry is Remote,
{
}

/// The paths of a local workspace, one to a line, describe it exactly if they can stand one to a
/// line and cannot be read as a remote workspace.
pub proof fn lemma_local_description_round_trip(paths: Seq<Seq<char>>, url: Option<UrlView>)
    ensures
        described_entry(url, joined(paths, "\n"@)) == EntryView::Local(paths) <==> are_lines(paths)
            && remote_entry(url, joined(paths, "\n"@)) is None,
{
    lemma_remote_entry(url, joined(paths, "\n"@));
    lemma_lines_of_joined(paths);
}

/// A line with `user@host:port`, `host:port` or `host` gives the connection that it was made of,
/// if the user holds no `@`, a host without a user holds no `@`, and one without a port no `:`.
pub proof fn lemma_ssh_line_round_trip(
    username: Option<Seq<char>>,
    host: Seq<char>,
    port: Option<u16>,
)
    requires
        username matches Some(username) ==> !username.contains('@'),
        username is None ==> !host.contains('@'),
        port is None ==> !host.contains(':'),
    ensures
        ssh_connection(ssh_line(username, host, port)) == (ConnectionView::Ssh {
            username,
            host,
            port,
        }),
{
    let digits = match port {
        Some(port) => decimal(port as nat),
        None => Seq::empty(),
    };
    let host_port = match port {
        Some(port) => host + seq![':'] + decimal(port as nat),
        None => host,
    };
    let line = ssh_line(username, host, port);
    if let Some(port) = port {
        lemma_decimal(port as nat);
        lemma_port_round_trip(port);
        assert forall|j: int| 0 <= j < digits.len() implies is_digit(#[trigger] digits[j]) by {}
    }
    lemma_first_position(line, '@');
    match username {
        Some(username) => {
            assert(line[username.len() as int] == '@');
            assert forall|j: int| 0 <= j < username.len() implies line[j] != '@' by {
                assert(username[j] == line[j]);
            }
            assert(line.take(username.len() as int) =~= username);
            assert(line.skip(username.len() as int + 1) =~= host_port);
        },
        None => {
            assert forall|j: int| 0 <= j < line.len() implies line[j] != '@' by {
                if j < host.len() {
                    assert(host[j] == line[j]);
                } else if j > host.len() {
                    assert(digits[j - host.len() - 1] == line[j]);
                }
            }
        },
    }
    lemma_last_position(host_port, ':');
    match port {
        Some(_) => {
            assert(host_port[host.len() as int] == ':');
            assert forall|j: int| host.len() < j < host_port.len() implies host_port[j] != ':' by {
                assert(digits[j - host.len() - 1] == host_port[j]);
            }
            assert(host_port.take(host.len() as int) =~= host);
            assert(host_port.skip(host.len() as int + 1) =~= digits);
        },
        None => {},
    }
}

/// A description in the older format, in which no URL is read, gives the paths, and the connection
/// that its line spells.
pub proof fn lemma_legacy_description(scheme: Seq<char>, line: Seq<char>, paths: Seq<Seq<char>>)
    requires
        are_lines(seq![scheme, line] + paths),
        legacy_connection(scheme, line) is Some,
    ensures
        "remote:"@.is_prefix_of(legacy_description(scheme, line, paths)),
        described_entry(None, legacy_description(scheme, line, paths)) == (EntryView::Remote {
            connection: legacy_connection(scheme, line)->0,
            paths,
        }),
{
    let parts = seq![scheme, line] + paths;
    let rest = joined(parts, "\n"@);
    let description = "remote:"@ + rest;
    lemma_lines_of_joined(parts);
    assert(parts.skip(2) =~= paths);
    assert("remote:"@ =~= description.subrange(0, "remote:"@.len() as int));
    assert(description.skip("remote:"@.len() as int) =~= rest);
}

/// A line that is put together of a user and `@`, a host, and `:` and a port, where the first and
/// the last may be missing. Every line is.
pub open spec fn ssh_line_of(
    username: Option<Seq<char>>,
    host: Seq<char>,
    port: Option<Seq<char>>,
) -> Seq<char> {
    (match username {
        Some(username) => username + seq!['@'],
        None => Seq::empty(),
    }) + (host + match port {
        Some(port) => seq![':'] + port,
        None => Seq::empty(),
    })
}

/// An SSH line of the older format gives the user, the host and the port that it is put together
/// of, if the user is what comes before the first `@` and the port what comes behind the last `:`.
/// A port that is no number is dropped.
pub proof fn lemma_legacy_ssh_line(
    username: Option<Seq<char>>,
    host: Seq<char>,
    port: Option<Seq<char>>,
)
    requires
        match username {
            Some(username) => !username.contains('@'),
            None => !ssh_line_of(None, host, port).contains('@'),
        },
        match port {
            Some(port) => !port.contains(':'),
            None => !host.contains(':'),
        },
    ensures
        legacy_connection("ssh"@, ssh_line_of(username, host, port)) == Some(
            ConnectionView::Ssh {
                username,
                host,
                port: match port {
                    Some(port) => port_number(port),
                    None => None,
                },
            },
        ),
{
    let host_port = host + match port {
        Some(port) => seq![':'] + port,
        None => Seq::empty(),
    };
    let line = ssh_line_of(username, host, port);
    match username {
        Some(username) => {
            lemma_split_at_first(username, host_port, '@');
            assert(line =~= username + seq!['@'] + host_port);
        },
        None => {
            assert(line =~= host_port);
            assert(ssh_line_of(None, host, port) =~= line);
            lemma_split_at_first(line, Seq::empty(), '@');
        },
    }
    match port {
        Some(port) => {
            lemma_split_at_last(host, port, ':');
            assert(host_port =~= host + seq![':'] + port);
        },
        None => {
            assert(host_port =~= host);
            lemma_split_at_last(Seq::empty(), host, ':');
        },
    }
}

/// Every line is put together so: the user is what comes before the first `@`, and the port what
/// comes behind the last `:` of the rest.
pub proof fn lemma_every_ssh_line(line: Seq<char>) -> (parts: (
    Option<Seq<char>>,
    Seq<char>,
    Option<Seq<char>>,
))
    ensures
        line == ssh_line_of(parts.0, parts.1, parts.2),
        match parts.0 {
            Some(username) => !username.contains('@'),
            None => !line.contains('@'),
        },
        match parts.2 {
            Some(port) => !port.contains(':'),
            None => !parts.1.contains(':'),
        },
{
    lemma_first_position(line, '@');
    let (username, host_port) = match first_position(line, '@') {
        Some(i) => (Some(line.take(i)), line.skip(i + 1)),
        None => (None, line),
    };
    lemma_last_position(host_port, ':');
    let (host, port) = match last_position(host_port, ':') {
        Some(i) => (host_port.take(i), Some(host_port.skip(i + 1))),
        None => (host_port, None),
    };
    if let Some(username) = username {
        assert forall|i: int| 0 <= i < username.len() implies username[i] != '@' by {
            assert(username[i] == line[i]);
        }
    }
    if let Some(port) = port {
        assert forall|i: int| 0 <= i < port.len() implies port[i] != ':' by {
            assert(port[i] == host_port[host.len() + 1 + i]);
        }
        assert(host + (seq![':'] + port) =~= host_port);
    }
    assert(line =~= ssh_line_of(username, host, port));
    (username, host, port)
}

/// A line of the older format is the distribution or the container itself, and no other scheme
/// has a meaning.
pub proof fn lemma_legacy_line(scheme: Seq<char>, line: Seq<char>)
    ensures
        legacy_connection("wsl"@, line) == Some(ConnectionView::Wsl { distro: line, user: None }),
        legacy_connection("docker"@, line) == Some(ConnectionView::Docker { name: line }),
        legacy_connection(scheme, line) is Some <==> scheme == "ssh"@ || scheme == "wsl"@ || scheme
            == "docker"@,
{
    reveal_strlit("ssh");
    reveal_strlit("wsl");
    reveal_strlit("docker");
    assert("ssh"@[0] != "wsl"@[0] && "docker"@[0] != "ssh"@[0] && "docker"@[0] != "wsl"@[0]);
}

/// The older format has the scheme on the first line, the connection on the second, and a path on
/// each further one.
pub proof fn lemma_legacy_lines(rest: Seq<char>)
    ensures
        legacy_entry(rest) is Some <==> split_lines(rest).len() >= 2 && (split_lines(rest)[0]
            == "ssh"@ || split_lines(rest)[0] == "wsl"@ || split_lines(rest)[0] == "docker"@),
        legacy_entry(rest) matches Some(entry) ==> {
            &&& entry is Remote
            &&& Some(entry->connection) == legacy_connection(
                split_lines(rest)[0],
                split_lines(rest)[1],
            )
            &&& entry->Remote_paths.len() == split_lines(rest).len() - 2
            &&& forall|i: int|
                2 <= i < split_lines(rest).len() ==> entry->Remote_paths[i - 2]
                    == #[trigger] split_lines(rest)[i]
        },
{
    if split_lines(rest).len() >= 2 {
        lemma_legacy_line(split_lines(rest)[0], split_lines(rest)[1]);
    }
}

/// Which reading of a description counts: the URL that is read in it, if that describes a
/// workspace; else the older format, if the text is in it; else one path to each line.
pub proof fn lemma_readings(url: Option<UrlView>, description: Seq<char>, rest: Seq<char>)
    ensures
        url is Some && url_entry(url->0) is Some ==> described_entry(url, description) == url_entry(
            url->0,
        )->0,
        (url is None || url_entry(url->0) is None) && description == "remote:"@ + rest
            && legacy_entry(rest) is Some ==> described_entry(url, description) == legacy_entry(
            rest,
        )->0,
        (url is None || url_entry(url->0) is None) && description == "remote:"@ + rest
            && legacy_entry(rest) is None ==> described_entry(url, description) == EntryView::Local(
            split_lines(description),
        ),
        (url is None || url_entry(url->0) is None) && !"remote:"@.is_prefix_of(description)
            ==> described_entry(url, description) == EntryView::Local(split_lines(description)),
{
    lemma_after_prefix(description, "remote:"@, rest);
}

/// The line of the older format for a connection.
pub open spec fn legacy_line(connection: ConnectionView) -> Seq<char> {
    match connection {
        ConnectionView::Ssh { username, host, port } => ssh_line(username, host, port),
        ConnectionView::Wsl { distro, .. } => distro,
        ConnectionView::Docker { name } => name,
    }
}

/// The description of a workspace in the older format.
pub open spec fn legacy_text(connection: ConnectionView, paths: Seq<Seq<char>>) -> Seq<char> {
    legacy_description(
        match connection {
            ConnectionView::Ssh { .. } => "ssh"@,
            ConnectionView::Wsl { .. } => "wsl"@,
            ConnectionView::Docker { .. } => "docker"@,
        },
        legacy_line(connection),
        paths,
    )
}

/// Whether the older format can hold a workspace: the user of an SSH connection holds no `@`, a
/// host without a user holds none either, a host without a port holds no `:`, no user of a
/// distribution is named, and the connection and the paths can stand one to a line.
pub open spec fn has_legacy_text(connection: ConnectionView, paths: Seq<Seq<char>>) -> bool {
    &&& match connection {
        ConnectionView::Ssh { username, host, port } => {
            &&& username matches Some(username) ==> !username.contains('@')
            &&& username is None ==> !host.contains('@')
            &&& port is None ==> !host.contains(':')
        },
        ConnectionView::Wsl { user, .. } => user is None,
        ConnectionView::Docker { .. } => true,
    }
    &&& are_lines(seq![legacy_line(connection)] + paths)
}

/// The description of a workspace in the older format, in which no URL is read, gives exactly that
/// workspace.
pub proof fn lemma_legacy_text(connection: ConnectionView, paths: Seq<Seq<char>>)
    requires
        has_legacy_text(connection, paths),
    ensures
        "remote:"@.is_prefix_of(legacy_text(connection, paths)),
        described_entry(None, legacy_text(connection, paths)) == (EntryView::Remote {
            connection,
            paths,
        }),
{
    let line = legacy_line(connection);
    let scheme = match connection {
        ConnectionView::Ssh { .. } => "ssh"@,
        ConnectionView::Wsl { .. } => "wsl"@,
        ConnectionView::Docker { .. } => "docker"@,
    };
    reveal_strlit("ssh");
    reveal_strlit("wsl");
    reveal_strlit("docker");
    lemma_legacy_line(scheme, line);
    if let ConnectionView::Ssh { username, host, port } = connection {
        let port_text = match port {
            Some(port) => Some(decimal(port as nat)),
            None => None,
        };
        if let Some(port) = port {
            lemma_decimal(port as nat);
            lemma_port_round_trip(port);
            assert forall|i: int| 0 <= i < decimal(port as nat).len() implies decimal(
                port as nat,
            )[i] != ':' && decimal(port as nat)[i] != '@' by {
                assert(is_digit(decimal(port as nat)[i]));
            }
        }
        let without_user = ssh_line_of(None, host, port_text);
        if username is None {
            assert forall|i: int| 0 <= i < without_user.len() implies without_user[i] != '@' by {
                if i < host.len() {
                    assert(without_user[i] == host[i]);
                } else if i > host.len() {
                    assert(without_user[i] == port_text->0[i - host.len() - 1]);
                }
            }
        }
        assert(ssh_line_of(username, host, port_text) =~= line);
        lemma_legacy_ssh_line(username, host, port_text);
    }
    let tail = seq![line] + paths;
    let parts = seq![scheme, line] + paths;
    assert(forall|i: int| 1 <= i < parts.len() ==> parts[i] == tail[i - 1]);
    assert(are_lines(parts)) by {
        assert forall|i: int| 0 <= i < parts.len() implies !(#[trigger] parts[i]).contains(
            '\n',
        ) by {
            if i > 0 {
                assert(parts[i] == tail[i - 1]);
            }
        }
        assert forall|i: int| 0 <= i < parts.len() - 1 implies without_carriage_return(
            #[trigger] parts[i],
        ) == parts[i] by {
            if i > 0 {
                assert(parts[i] == tail[i - 1]);
            }
        }
        assert(parts.last() == tail.last());
    }
    lemma_legacy_description(scheme, line, paths);
}

} // verus!
