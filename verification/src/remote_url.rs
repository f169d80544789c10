//! URLs of remote workspaces: `ssh://`, `wsl://` and `docker://`.
//!
//! The first path of a workspace is the path of its URL, the others are `path` pairs in the
//! query. The user of a WSL distribution is the `user` pair.

use vstd::prelude::*;
use vstd::string::*;
use vstd::utf8::decode_utf8;

use crate::description::described_entry;
use crate::entry::scheme_of;
use crate::entry::target_of;
use crate::entry::ConnectionView;
use crate::entry::EntryView;
use crate::entry::JumpListEntry;
use crate::entry::RemoteConnectionInfo;
use crate::paths::EntryPaths;
use crate::text::first_position;
use crate::text::is_digit;
use crate::text::lemma_first_position;
use crate::text::same_text;
use crate::text::texts;
use crate::url_parts::append_pair;
use crate::url_parts::base_url;
use crate::url_parts::base_view;
use crate::url_parts::encoded_host;
use crate::url_parts::encoded_length;
use crate::url_parts::encoded_path;
use crate::url_parts::encoded_size;
use crate::url_parts::has_dot_segment;
use crate::url_parts::is_dot_segment;
use crate::url_parts::is_letter;
use crate::url_parts::is_plain_host;
use crate::url_parts::is_plain_path;
use crate::url_parts::is_plain_username;
use crate::url_parts::is_refused_in_host;
use crate::url_parts::is_remote_scheme;
use crate::url_parts::is_remote_url;
use crate::url_parts::lemma_encoded_length;
use crate::url_parts::lemma_encoding_is_not_shorter;
use crate::url_parts::lemma_percent_round_trip;
use crate::url_parts::lemma_without_breaks;
use crate::url_parts::pair_texts;
use crate::url_parts::parse_url;
use crate::url_parts::parsed_url;
use crate::url_parts::percent_decoded;
use crate::url_parts::percent_encoded;
use crate::url_parts::set_host;
use crate::url_parts::set_path;
use crate::url_parts::set_port;
use crate::url_parts::set_username;
use crate::url_parts::url_with_host;
use crate::url_parts::url_with_pair;
use crate::url_parts::url_with_path;
use crate::url_parts::url_with_port;
use crate::url_parts::url_with_username;
use crate::url_parts::UrlComponent;
use crate::url_parts::UrlParts;
use crate::url_parts::UrlView;

verus! {

/// The values that `pairs` has under `name`, in order.
pub open spec fn values_of(pairs: Seq<(Seq<char>, Seq<char>)>, name: Seq<char>) -> Seq<Seq<char>>
    decreases pairs.len(),
{
    if pairs.len() == 0 {
        Seq::empty()
    } else if pairs.last().0 == name {
        values_of(pairs.drop_last(), name).push(pairs.last().1)
    } else {
        values_of(pairs.drop_last(), name)
    }
}

/// The paths that a URL holds: its own, then each `path` of the query.
pub open spec fn url_paths(url: UrlView) -> Seq<Seq<char>> {
    seq![url.path] + values_of(url.query_pairs, "path"@)
}

/// The connection that a URL with host `host` describes, if its scheme is one of ours.
pub open spec fn url_connection(url: UrlView, host: Seq<char>) -> Option<ConnectionView> {
    if url.scheme == "ssh"@ {
        Some(
            ConnectionView::Ssh {
                username: if url.username.len() == 0 {
                    None
                } else {
                    Some(url.username)
                },
                host,
                port: url.port,
            },
        )
    } else if url.scheme == "wsl"@ {
        let users = values_of(url.query_pairs, "user"@);
        Some(
            ConnectionView::Wsl {
                distro: host,
                user: if users.len() == 0 {
                    None
                } else {
                    Some(users[0])
                },
            },
        )
    } else if url.scheme == "docker"@ {
        Some(ConnectionView::Docker { name: host })
    } else {
        None
    }
}

/// The entry that a URL describes: a remote one, if the URL has a scheme of ours and a host.
pub open spec fn url_entry(url: UrlView) -> Option<EntryView> {
    match url.host {
        Some(host) => match url_connection(url, host) {
            Some(connection) => Some(EntryView::Remote { connection, paths: url_paths(url) }),
            None => None,
        },
        None => None,
    }
}

/// The first value that `pairs` has under `name`.
fn find_value(pairs: &Vec<(String, String)>, name: &str) -> (value: Option<String>)
    ensures
        match value {
            Some(value) => values_of(pair_texts(pairs@), name@).len() > 0 && value@ == values_of(
                pair_texts(pairs@),
                name@,
            )[0],
            None => values_of(pair_texts(pairs@), name@).len() == 0,
        },
{
    let ghost all = pair_texts(pairs@);
    let mut i: usize = 0;
    assert(all.take(0) == Seq::<(Seq<char>, Seq<char>)>::empty());
    while i < pairs.len()
        invariant
            all == pair_texts(pairs@),
            i <= pairs.len(),
            values_of(all.take(i as int), name@).len() == 0,
        decreases pairs.len() - i,
    {
        assert(all.take(i + 1).drop_last() == all.take(i as int));
        assert(all.take(i + 1).last() == (pairs@[i as int].0@, pairs@[i as int].1@));
        if same_text(pairs[i].0.as_str(), name) {
            proof {
                let found = values_of(all.take(i + 1), name@);
                lemma_values_of_prefix(all, name@, i + 1);
                assert(found[0] == pairs@[i as int].1@);
                assert(found[0] == values_of(all, name@).subrange(0, found.len() as int)[0]);
            }
            return Some(pairs[i].1.clone());
        }
        i += 1;
    }
    assert(all.take(i as int) == all);
    None
}

/// The values of the first pairs come first.
proof fn lemma_values_of_prefix(
    pairs: Seq<(Seq<char>, Seq<char>)>,
    name: Seq<char>,
    length: int,
)
    requires
        0 <= length <= pairs.len(),
    ensures
        values_of(pairs.take(length), name).is_prefix_of(values_of(pairs, name)),
    decreases pairs.len(),
{
    if length == pairs.len() {
        assert(pairs.take(length) == pairs);
    } else {
        lemma_values_of_prefix(pairs.drop_last(), name, length);
        assert(pairs.drop_last().take(length) == pairs.take(length));
    }
}

/// The paths that `url` holds.
pub fn collect_paths_from_url(url: &UrlParts) -> (paths: EntryPaths)
    ensures
        paths@ == url_paths(url@),
{
    let mut paths = EntryPaths::new();
    paths.push(url.path.clone());
    let ghost all = pair_texts(url.query_pairs@);
    let mut i: usize = 0;
    assert(all.take(0) == Seq::<(Seq<char>, Seq<char>)>::empty());
    assert(paths@ == seq![url.path@] + values_of(all.take(0), "path"@));
    while i < url.query_pairs.len()
        invariant
            all == pair_texts(url.query_pairs@),
            i <= url.query_pairs.len(),
            paths@ == seq![url.path@] + values_of(all.take(i as int), "path"@),
        decreases url.query_pairs.len() - i,
    {
        proof {
            assert(all.take(i + 1).drop_last() == all.take(i as int));
            assert(all.take(i + 1).last() == (
                url.query_pairs@[i as int].0@,
                url.query_pairs@[i as int].1@,
            ));
        }
        if same_text(url.query_pairs[i].0.as_str(), "path") {
            paths.push(url.query_pairs[i].1.clone());
        }
        assert(paths@ == seq![url.path@] + values_of(all.take(i + 1), "path"@));
        i += 1;
    }
    assert(all.take(i as int) == all);
    paths
}

/// The entry that `url` describes, if it is the URL of a remote workspace.
pub fn parse_url_to_entry(url: &UrlParts) -> (entry: Option<JumpListEntry>)
    ensures
        match entry {
            Some(entry) => url_entry(url@) == Some(entry@),
            None => url_entry(url@) is None,
        },
{
    let paths = collect_paths_from_url(url);
    let host = match &url.host {
        Some(host) => host.clone(),
        None => return None,
    };
    let connection = if same_text(url.scheme.as_str(), "ssh") {
        let username = if url.username.as_str().is_empty() {
            None
        } else {
            Some(url.username.clone())
        };
        RemoteConnectionInfo::Ssh { username, host, port: url.port }
    } else if same_text(url.scheme.as_str(), "wsl") {
        RemoteConnectionInfo::Wsl { distro: host, user: find_value(&url.query_pairs, "user") }
    } else if same_text(url.scheme.as_str(), "docker") {
        RemoteConnectionInfo::Docker { name: host }
    } else {
        return None;
    };
    Some(JumpListEntry::Remote { connection, paths })
}

/// The values of two lists of pairs, one behind the other, are those of the first and then those
/// of the second; a single pair has a value under its own name only.
pub proof fn lemma_values_of_concatenation(
    pairs: Seq<(Seq<char>, Seq<char>)>,
    more: Seq<(Seq<char>, Seq<char>)>,
    name: Seq<char>,
)
    ensures
        values_of(pairs + more, name) == values_of(pairs, name) + values_of(more, name),
        pairs.len() == 0 ==> values_of(pairs, name) == Seq::<Seq<char>>::empty(),
        pairs.len() == 1 ==> values_of(pairs, name) == if pairs[0].0 == name {
            seq![pairs[0].1]
        } else {
            Seq::empty()
        },
    decreases more.len(),
{
    if pairs.len() == 1 {
        assert(pairs.drop_last() =~= Seq::empty());
        assert(values_of(pairs.drop_last(), name) =~= Seq::<Seq<char>>::empty());
    }
    if more.len() == 0 {
        assert(pairs + more =~= pairs);
        assert(values_of(pairs, name) + values_of(more, name) =~= values_of(pairs, name));
    } else {
        lemma_values_of_concatenation(pairs, more.drop_last(), name);
        assert((pairs + more).drop_last() =~= pairs + more.drop_last());
        assert((pairs + more).last() == more.last());
    }
}

/// A list has a value under a name exactly if a pair has that name, and the first value is that of
/// the first such pair.
pub proof fn lemma_first_value(pairs: Seq<(Seq<char>, Seq<char>)>, name: Seq<char>)
    ensures
        values_of(pairs, name).len() == 0 <==> forall|i: int|
            0 <= i < pairs.len() ==> (#[trigger] pairs[i]).0 != name,
        forall|i: int|
            0 <= i < pairs.len() && (#[trigger] pairs[i]).0 == name && (forall|j: int|
                0 <= j < i ==> (#[trigger] pairs[j]).0 != name) ==> values_of(pairs, name)[0]
                == pairs[i].1,
    decreases pairs.len(),
{
    if pairs.len() > 0 {
        let first = pairs.take(1);
        let rest = pairs.skip(1);
        lemma_first_value(rest, name);
        lemma_values_of_concatenation(first, rest, name);
        assert(pairs =~= first + rest);
        assert(forall|i: int| 0 <= i < rest.len() ==> rest[i] == pairs[i + 1]);
        assert forall|i: int|
            0 <= i < pairs.len() && (#[trigger] pairs[i]).0 == name && (forall|j: int|
                0 <= j < i ==> (#[trigger] pairs[j]).0 != name) implies values_of(pairs, name)[0]
            == pairs[i].1 by {
            if i > 0 {
                assert(pairs[0].0 != name);
                assert(rest[i - 1].0 == name);
                assert forall|j: int| 0 <= j < i - 1 implies (#[trigger] rest[j]).0 != name by {
                    assert(rest[j] == pairs[j + 1]);
                }
                assert(values_of(pairs, name) =~= values_of(rest, name));
            }
        }
        assert(values_of(pairs, name).len() == 0 <==> forall|i: int|
            0 <= i < pairs.len() ==> (#[trigger] pairs[i]).0 != name) by {
            if forall|i: int| 0 <= i < pairs.len() ==> (#[trigger] pairs[i]).0 != name {
                assert(pairs[0].0 != name);
                assert forall|i: int| 0 <= i < rest.len() implies (#[trigger] rest[i]).0 != name by {
                    assert(rest[i] == pairs[i + 1]);
                }
            }
            if values_of(pairs, name).len() == 0 {
                assert forall|i: int| 0 <= i < pairs.len() implies (#[trigger] pairs[i]).0
                    != name by {
                    if i > 0 {
                        assert(rest[i - 1] == pairs[i]);
                    }
                }
            }
        }
    }
}

/// What a URL describes, component by component: a workspace only with a host and one of three
/// schemes; its first path is that of the URL, the further ones are the `path` values; the user
/// name is there unless it is empty, and the user of a distribution is the first `user`.
pub proof fn lemma_url_entry(url: UrlView)
    ensures
        url_paths(url).len() == 1 + values_of(url.query_pairs, "path"@).len(),
        url_paths(url)[0] == url.path,
        url_paths(url).skip(1) == values_of(url.query_pairs, "path"@),
        url_entry(url) is Some <==> url.host is Some && (url.scheme == "ssh"@ || url.scheme
            == "wsl"@ || url.scheme == "docker"@),
        url_entry(url) matches Some(entry) ==> {
            &&& entry is Remote
            &&& entry->Remote_paths.len() == 1 + values_of(url.query_pairs, "path"@).len()
            &&& entry->Remote_paths[0] == url.path
            &&& entry->Remote_paths.skip(1) == values_of(url.query_pairs, "path"@)
            &&& url.scheme == "ssh"@ ==> entry->connection == (ConnectionView::Ssh {
                username: if url.username == Seq::<char>::empty() {
                    None
                } else {
                    Some(url.username)
                },
                host: url.host->0,
                port: url.port,
            })
            &&& url.scheme == "wsl"@ ==> entry->connection is Wsl && entry->connection->distro
                == url.host->0
            &&& url.scheme == "wsl"@ ==> (entry->connection->user is None <==> forall|i: int|
                0 <= i < url.query_pairs.len() ==> (#[trigger] url.query_pairs[i]).0 != "user"@)
            &&& url.scheme == "wsl"@ ==> forall|i: int|
                0 <= i < url.query_pairs.len() && (#[trigger] url.query_pairs[i]).0 == "user"@ && (
                forall|j: int| 0 <= j < i ==> (#[trigger] url.query_pairs[j]).0 != "user"@)
                    ==> entry->connection->user == Some(url.query_pairs[i].1)
            &&& url.scheme == "docker"@ ==> entry->connection == (ConnectionView::Docker {
                name: url.host->0,
            })
        },
{
    reveal_strlit("ssh");
    reveal_strlit("wsl");
    reveal_strlit("docker");
    assert("ssh"@[0] != "wsl"@[0] && "docker"@[0] != "ssh"@[0] && "docker"@[0] != "wsl"@[0]);
    lemma_first_value(url.query_pairs, "user"@);
    assert(url_paths(url).skip(1) =~= values_of(url.query_pairs, "path"@));
    assert(url.username.len() == 0 ==> url.username =~= Seq::empty());
}

/// `edited`, or `url` where the edit was refused.
pub open spec fn or_unchanged(edited: Option<Seq<char>>, url: Seq<char>) -> Seq<char> {
    match edited {
        Some(edited) => edited,
        None => url,
    }
}

/// The URL of `scheme` and `host`.
pub open spec fn host_url(scheme: Seq<char>, host: Seq<char>) -> Seq<char> {
    or_unchanged(url_with_host(base_url(scheme), host), base_url(scheme))
}

/// The URL of a workspace with one path: the components that the `url` crate refuses are left
/// as they were.
pub open spec fn single_path_url(connection: ConnectionView, path: Seq<char>) -> Seq<char> {
    match connection {
        ConnectionView::Ssh { username, host, port } => {
            let with_host = host_url("ssh"@, host);
            let with_username = match username {
                Some(username) => or_unchanged(url_with_username(with_host, username), with_host),
                None => with_host,
            };
            let with_port = match port {
                Some(port) => or_unchanged(url_with_port(with_username, port), with_username),
                None => with_username,
            };
            url_with_path(with_port, path)
        },
        ConnectionView::Wsl { distro, user } => {
            let with_path = url_with_path(host_url("wsl"@, distro), path);
            match user {
                Some(user) => url_with_pair(with_path, "user"@, user),
                None => with_path,
            }
        },
        ConnectionView::Docker { name } => url_with_path(host_url("docker"@, name), path),
    }
}

/// `url` with a `path` pair for each of `paths`.
pub open spec fn url_with_paths(url: Seq<char>, paths: Seq<Seq<char>>) -> Seq<char>
    decreases paths.len(),
{
    if paths.len() == 0 {
        url
    } else {
        url_with_pair(url_with_paths(url, paths.drop_last()), "path"@, paths.last())
    }
}

/// The URL of a remote workspace.
pub open spec fn remote_url(connection: ConnectionView, paths: Seq<Seq<char>>) -> Seq<char> {
    if paths.len() == 0 {
        single_path_url(connection, Seq::empty())
    } else {
        url_with_paths(single_path_url(connection, paths[0]), paths.skip(1))
    }
}

/// The user that a connection names.
pub open spec fn user_of(connection: ConnectionView) -> Option<Seq<char>> {
    match connection {
        ConnectionView::Ssh { username, .. } => username,
        ConnectionView::Wsl { user, .. } => user,
        ConnectionView::Docker { .. } => None,
    }
}

/// A bound on what `paths` take in a URL, in bytes.
pub open spec fn paths_size(paths: Seq<Seq<char>>) -> nat
    decreases paths.len(),
{
    if paths.len() == 0 {
        0
    } else {
        paths_size(paths.drop_last()) + encoded_length(paths.last()) + 64
    }
}

/// A bound on the size of the URL of a remote workspace, in bytes.
pub open spec fn url_size(connection: ConnectionView, paths: Seq<Seq<char>>) -> nat {
    192 + encoded_length(target_of(connection)) + (match user_of(connection) {
        Some(user) => encoded_length(user),
        None => 0,
    }) + paths_size(paths)
}

/// Whether the URL of a remote workspace is sure to stay below the 2 GB that the `url` crate can
/// count when it reads the URL again.
pub open spec fn fits_in_url(connection: ConnectionView, paths: Seq<Seq<char>>) -> bool {
    url_size(connection, paths) <= i32::MAX
}

/// Whether `url` holds the host, the user name and the first path of a workspace as they are,
/// neither refused nor encoded.
pub open spec fn keeps_components(
    url: UrlView,
    connection: ConnectionView,
    paths: Seq<Seq<char>>,
) -> bool {
    &&& url.host == Some(target_of(connection))
    &&& paths.len() > 0 && url.path == paths[0]
    &&& connection matches ConnectionView::Ssh { username: Some(username), .. } ==> username.len()
        > 0 && url.username == username
}

/// What the URL of a workspace says of the connection, whatever is refused or encoded: the
/// scheme, the port where there is a host, where there is no user name, and the user of a
/// distribution.
pub open spec fn carries_connection(url: UrlView, connection: ConnectionView) -> bool {
    &&& url.scheme == scheme_of(connection)
    &&& match connection {
        ConnectionView::Ssh { username, port, .. } => {
            &&& username is None || url.host is None ==> url.username.len() == 0
            &&& url.port == if url.host is Some {
                port
            } else {
                None
            }
        },
        ConnectionView::Wsl { user, .. } => {
            &&& url.username.len() == 0 && url.port is None
            &&& values_of(url.query_pairs, "user"@) == match user {
                Some(user) => seq![user],
                None => Seq::empty(),
            }
        },
        ConnectionView::Docker { .. } => url.username.len() == 0 && url.port is None,
    }
}

/// What the URL of a workspace keeps of it as it is, each for itself: the host, the user name
/// where there is a host, and the first path, if they are plain. No path stays no path.
pub open spec fn keeps_plain_components(
    url: UrlView,
    connection: ConnectionView,
    paths: Seq<Seq<char>>,
) -> bool {
    &&& is_plain_host(target_of(connection)) ==> url.host == Some(target_of(connection))
    &&& connection matches ConnectionView::Ssh { username: Some(username), .. } ==> (url.host is Some
        && is_plain_username(username) ==> url.username == username)
    &&& paths.len() > 0 && is_plain_path(paths[0]) ==> url.path == paths[0]
    &&& paths.len() == 0 ==> url.path.len() == 0
}

/// The paths behind the first one.
pub open spec fn further_paths(paths: Seq<Seq<char>>) -> Seq<Seq<char>> {
    if paths.len() == 0 {
        Seq::empty()
    } else {
        paths.skip(1)
    }
}

/// Whether the host, the user name and the first path of a workspace need no encoding.
pub open spec fn is_plain_workspace(connection: ConnectionView, paths: Seq<Seq<char>>) -> bool {
    &&& is_plain_host(target_of(connection))
    &&& paths.len() > 0 && is_plain_path(paths[0])
    &&& connection matches ConnectionView::Ssh { username: Some(username), .. } ==> username.len()
        > 0 && is_plain_username(username)
}

/// Whether the components of `url` are those of a workspace: the scheme, the host as the URL takes
/// it, the user name percent-encoded and the port where there is a host, the first path as the
/// URL takes it, and in the query the user of a distribution and then each further path.
pub open spec fn is_url_of(url: UrlView, connection: ConnectionView, paths: Seq<Seq<char>>) -> bool {
    let target = match connection {
        ConnectionView::Ssh { host, .. } => host,
        ConnectionView::Wsl { distro, .. } => distro,
        ConnectionView::Docker { name } => name,
    };
    let first = if paths.len() == 0 {
        Seq::empty()
    } else {
        paths[0]
    };
    let users: int = if connection is Wsl && connection->user is Some {
        1
    } else {
        0
    };
    &&& url.scheme == match connection {
        ConnectionView::Ssh { .. } => "ssh"@,
        ConnectionView::Wsl { .. } => "wsl"@,
        ConnectionView::Docker { .. } => "docker"@,
    }
    &&& url.host == match url_with_host(base_url(url.scheme), target) {
        Some(edited) => parsed_url(edited)->0.host,
        None => Some("placeholder"@),
    }
    &&& !(target.len() > 0 && target[0] == '[') ==> url.host == match encoded_host(target) {
        Some(host) => host,
        None => Some("placeholder"@),
    }
    &&& url.username == if connection is Ssh && connection->username is Some && url.host is Some {
        percent_encoded(UrlComponent::Username, connection->username->0)
    } else {
        Seq::empty()
    }
    &&& url.port == if connection is Ssh && url.host is Some {
        connection->port
    } else {
        None
    }
    &&& encoded_path(first) matches Some(path) ==> url.path == path
    &&& url.path == parsed_url(url_with_path(base_url("ssh"@), first))->0.path
    &&& url.query_pairs.len() == users + if paths.len() == 0 {
        0
    } else {
        paths.len() - 1
    }
    &&& users == 1 ==> url.query_pairs[0] == ("user"@, connection->user->0)
    &&& forall|i: int|
        1 <= i < paths.len() ==> url.query_pairs[users + i - 1] == ("path"@, #[trigger] paths[i])
}

/// A character that stands for itself in every component: a letter, a digit, `-` or `_`.
pub open spec fn is_word_character(c: char) -> bool {
    is_letter(c) || is_digit(c) || c == '-' || c == '_'
}

/// Ordinary names need no encoding: a host of words and dots, a user name that is a word, and a
/// path from the root whose segments are words. What the further paths hold does not matter.
pub proof fn lemma_ordinary_workspace_is_plain(connection: ConnectionView, paths: Seq<Seq<char>>)
    requires
        target_of(connection).len() > 0,
        forall|i: int|
            0 <= i < target_of(connection).len() ==> is_word_character(
                #[trigger] target_of(connection)[i],
            ) || target_of(connection)[i] == '.',
        connection matches ConnectionView::Ssh { username: Some(username), .. } ==> username.len()
            > 0 && forall|i: int|
            0 <= i < username.len() ==> is_word_character(#[trigger] username[i]),
        paths.len() > 0,
        paths[0].len() > 0 ==> paths[0][0] == '/',
        forall|i: int|
            0 <= i < paths[0].len() ==> is_word_character(#[trigger] paths[0][i]) || paths[0][i]
                == '/',
    ensures
        is_plain_workspace(connection, paths),
{
    let path = paths[0];
    assert forall|i: int, j: int|
        0 < i <= j <= path.len() && path[i - 1] == '/' && (j == path.len() || path[j]
            == '/') implies !is_dot_segment(#[trigger] path.subrange(i, j)) by {
        assert(i < j ==> path.subrange(i, j)[0] == path[i]);
    }
}

/// Whether percent-decoding can give a path back: it begins at the root, has no dot segments, and
/// holds no tabs, no line breaks and no `%`.
pub open spec fn is_decodable_path(path: Seq<char>) -> bool {
    &&& path.len() > 0 && path[0] == '/'
    &&& !path.contains('\t') && !path.contains('\n') && !path.contains('\r') && !path.contains('%')
    &&& !has_dot_segment(path)
}

/// Percent-decoding gives such a path back.
proof fn lemma_path_is_decoded(path: Seq<char>)
    requires
        is_decodable_path(path),
    ensures
        encoded_path(path) == Some(percent_encoded(UrlComponent::Path, path)),
        decode_utf8(percent_decoded(percent_encoded(UrlComponent::Path, path))) == path,
{
    lemma_without_breaks(path);
    lemma_percent_round_trip(UrlComponent::Path, path);
}

/// Whether percent-decoding can give the host of a connection back: it is not empty, is no address
/// in brackets, and holds neither `%` nor a character that it is refused for.
pub open spec fn is_decodable_host(host: Seq<char>) -> bool {
    &&& host.len() > 0 && !host.contains('%')
    &&& forall|i: int| 0 <= i < host.len() ==> !is_refused_in_host(#[trigger] host[i])
}

/// Percent-decoding gives such a host back.
proof fn lemma_host_is_decoded(host: Seq<char>)
    requires
        is_decodable_host(host),
    ensures
        host[0] != '[',
        encoded_host(host) == Some(Some(percent_encoded(UrlComponent::Host, host))),
        decode_utf8(percent_decoded(percent_encoded(UrlComponent::Host, host))) == host,
{
    lemma_first_position(host, ':');
    lemma_percent_round_trip(UrlComponent::Host, host);
    assert(!is_refused_in_host(host[0]));
    if let Some(i) = first_position(host, ':') {
        assert(!is_refused_in_host(host[i]));
    }
}

/// Whether percent-decoding can give a whole workspace back.
pub open spec fn is_decodable_workspace(connection: ConnectionView, paths: Seq<Seq<char>>) -> bool {
    &&& match connection {
        ConnectionView::Ssh { username, host, .. } => is_decodable_host(host) && (
        username matches Some(username) ==> username.len() > 0 && !username.contains('%')),
        ConnectionView::Wsl { distro, .. } => is_decodable_host(distro),
        ConnectionView::Docker { name } => is_decodable_host(name),
    }
    &&& paths.len() > 0 && is_decodable_path(paths[0])
}

/// The URL of a workspace, percent-decoded, gives back the host, the user name and the first path,
/// whatever characters they hold besides a few; the port, the user of a distribution and the
/// further paths stand in it as they are.
pub proof fn lemma_url_is_decoded(url: UrlView, connection: ConnectionView, paths: Seq<Seq<char>>)
    requires
        is_url_of(url, connection, paths),
        is_decodable_workspace(connection, paths),
    ensures
        url.host is Some,
        decode_utf8(percent_decoded(url.path)) == paths[0],
        url.path.len() >= paths[0].len(),
        match connection {
            ConnectionView::Ssh { username, host, port } => {
                &&& decode_utf8(percent_decoded(url.host->0)) == host
                &&& url.port == port
                &&& match username {
                    Some(username) => url.username.len() > 0 && decode_utf8(
                        percent_decoded(url.username),
                    ) == username,
                    None => url.username.len() == 0,
                }
            },
            ConnectionView::Wsl { distro, .. } => decode_utf8(percent_decoded(url.host->0)) == distro,
            ConnectionView::Docker { name } => decode_utf8(percent_decoded(url.host->0)) == name,
        },
{
    lemma_path_is_decoded(paths[0]);
    lemma_encoding_is_not_shorter(UrlComponent::Path, paths[0]);
    match connection {
        ConnectionView::Ssh { username, host, .. } => {
            lemma_host_is_decoded(host);
            if let Some(username) = username {
                lemma_percent_round_trip(UrlComponent::Username, username);
                lemma_encoding_is_not_shorter(UrlComponent::Username, username);
            }
        },
        ConnectionView::Wsl { distro, .. } => {
            lemma_host_is_decoded(distro);
        },
        ConnectionView::Docker { name } => {
            lemma_host_is_decoded(name);
        },
    }
}

/// Two workspaces with the same URL are the same workspace.
pub proof fn lemma_urls_tell_workspaces_apart(
    url: UrlView,
    connection: ConnectionView,
    paths: Seq<Seq<char>>,
    other_connection: ConnectionView,
    other_paths: Seq<Seq<char>>,
)
    requires
        is_url_of(url, connection, paths),
        is_url_of(url, other_connection, other_paths),
        is_decodable_workspace(connection, paths),
        is_decodable_workspace(other_connection, other_paths),
    ensures
        connection == other_connection,
        paths == other_paths,
{
    lemma_url_is_decoded(url, connection, paths);
    lemma_url_is_decoded(url, other_connection, other_paths);
    lemma_pair_names();
    reveal_strlit("ssh");
    reveal_strlit("wsl");
    reveal_strlit("docker");
    assert("ssh"@[0] != "wsl"@[0] && "docker"@[0] != "ssh"@[0] && "docker"@[0] != "wsl"@[0]);
    let users: int = if connection is Wsl && connection->user is Some {
        1
    } else {
        0
    };
    let other_users: int = if other_connection is Wsl && other_connection->user is Some {
        1
    } else {
        0
    };
    if users < other_users && paths.len() > 1 {
        assert(url.query_pairs[0] == ("path"@, paths[1]));
    }
    if other_users < users && other_paths.len() > 1 {
        assert(url.query_pairs[0] == ("path"@, other_paths[1]));
    }
    assert(users == other_users);
    assert(paths.len() == other_paths.len());
    assert forall|i: int| 0 <= i < paths.len() implies paths[i] == other_paths[i] by {
        if i > 0 {
            assert(url.query_pairs[users + i - 1] == ("path"@, paths[i]));
            assert(url.query_pairs[users + i - 1] == ("path"@, other_paths[i]));
        }
    }
    assert(paths =~= other_paths);
}

/// A base URL is short, and begins with its scheme.
proof fn lemma_base_url(scheme: Seq<char>)
    requires
        is_remote_scheme(scheme),
    ensures
        base_url(scheme).len() <= 20,
        (scheme + "://"@).is_prefix_of(base_url(scheme)),
{
    reveal_strlit("ssh");
    reveal_strlit("wsl");
    reveal_strlit("docker");
    reveal_strlit("://");
    reveal_strlit("://placeholder");
    let prefix = scheme + "://"@;
    assert(prefix =~= base_url(scheme).subrange(0, prefix.len() as int));
}

/// The URL of a connection begins with its scheme, and with no other.
proof fn lemma_scheme_prefixes(url: Seq<char>, connection: ConnectionView)
    requires
        is_remote_url(url),
        parsed_url(url)->0.scheme == scheme_of(connection),
    ensures
        "ssh://"@.is_prefix_of(url) <==> connection is Ssh,
        "wsl://"@.is_prefix_of(url) <==> connection is Wsl,
        "docker://"@.is_prefix_of(url) <==> connection is Docker,
{
    reveal_strlit("ssh");
    reveal_strlit("wsl");
    reveal_strlit("docker");
    reveal_strlit("://");
    reveal_strlit("ssh://");
    reveal_strlit("wsl://");
    reveal_strlit("docker://");
    assert("ssh"@ + "://"@ =~= "ssh://"@);
    assert("wsl"@ + "://"@ =~= "wsl://"@);
    assert("docker"@ + "://"@ =~= "docker://"@);
    let prefix = scheme_of(connection) + "://"@;
    assert(prefix[0] == url.subrange(0, prefix.len() as int)[0]);
    assert("ssh://"@.is_prefix_of(url) ==> url.subrange(0, 6)[0] == 's');
    assert("wsl://"@.is_prefix_of(url) ==> url.subrange(0, 6)[0] == 'w');
    assert("docker://"@.is_prefix_of(url) ==> url.subrange(0, 9)[0] == 'd');
}

/// The pair names in use are short, and differ.
proof fn lemma_pair_names()
    ensures
        "path"@ != "user"@,
        encoded_length("path"@) <= 48,
        encoded_length("user"@) <= 48,
{
    reveal_strlit("path");
    reveal_strlit("user");
    lemma_encoded_length("path"@);
    lemma_encoded_length("user"@);
    assert("path"@[0] != "user"@[0]);
}

/// The URL of `scheme` with the host set, where it is accepted.
fn url_of_host(scheme: &str, host: &str) -> (url: String)
    requires
        is_remote_scheme(scheme@),
        encoded_length(host@) + 68 <= i32::MAX,
    ensures
        url@ == host_url(scheme@, host@),
        is_remote_url(url@),
        parsed_url(url@)->0 == (UrlView {
            text: url@,
            host: parsed_url(url@)->0.host,
            ..base_view(scheme@)
        }),
        is_plain_host(host@) ==> parsed_url(url@)->0.host == Some(host@),
        parsed_url(url@)->0.host == match url_with_host(base_url(scheme@), host@) {
            Some(edited) => parsed_url(edited)->0.host,
            None => Some("placeholder"@),
        },
        !(host@.len() > 0 && host@[0] == '[') ==> parsed_url(url@)->0.host == match encoded_host(
            host@,
        ) {
            Some(host) => host,
            None => Some("placeholder"@),
        },
        url@.len() <= 68 + encoded_length(host@),
{
    proof {
        lemma_base_url(scheme@);
    }
    let base = scheme.to_owned().concat("://placeholder");
    let base = parse_url(base.as_str()).expect("valid base URL").text;
    match set_host(base.as_str(), host) {
        Some(url) => url,
        None => base,
    }
}

/// The URL of a workspace with the path `path` alone.
fn format_single_path_url(connection: &RemoteConnectionInfo, path: &str) -> (url: String)
    requires
        url_size(connection@, seq![path@]) - 64 <= i32::MAX,
    ensures
        url@ == single_path_url(connection@, path@),
        is_remote_url(url@),
        carries_connection(parsed_url(url@)->0, connection@),
        values_of(parsed_url(url@)->0.query_pairs, "path"@) == Seq::<Seq<char>>::empty(),
        keeps_plain_components(parsed_url(url@)->0, connection@, seq![path@]),
        is_url_of(parsed_url(url@)->0, connection@, seq![path@]),
        url@.len() <= url_size(connection@, seq![path@]) - 64,
{
    proof {
        lemma_pair_names();
        assert(seq![path@].drop_last() == Seq::<Seq<char>>::empty());
        assert(paths_size(seq![path@].drop_last()) == 0);
        assert(paths_size(seq![path@]) == encoded_length(path@) + 64);
        assert(values_of(Seq::empty(), "path"@).len() == 0);
        assert(values_of(Seq::empty(), "user"@) == Seq::<Seq<char>>::empty());
    }
    match connection {
        RemoteConnectionInfo::Ssh { username, host, port } => {
            let mut url = url_of_host("ssh", host.as_str());
            if let Some(username) = username {
                if let Some(edited) = set_username(url.as_str(), username.as_str()) {
                    url = edited;
                }
            }
            if let Some(port) = port {
                if let Some(edited) = set_port(url.as_str(), *port) {
                    url = edited;
                }
            }
            set_path(url.as_str(), path)
        },
        RemoteConnectionInfo::Wsl { distro, user } => {
            let mut url = url_of_host("wsl", distro.as_str());
            url = set_path(url.as_str(), path);
            if let Some(user) = user {
                let ghost before = parsed_url(url@)->0.query_pairs;
                url = append_pair(url.as_str(), "user", user.as_str());
                proof {
                    let after = parsed_url(url@)->0.query_pairs;
                    assert(after.drop_last() == before);
                    assert(before == Seq::<(Seq<char>, Seq<char>)>::empty());
                    assert(values_of(after, "user"@) == seq![user@]);
                }
            }
            url
        },
        RemoteConnectionInfo::Docker { name } => {
            let url = url_of_host("docker", name.as_str());
            set_path(url.as_str(), path)
        },
    }
}

/// The first paths take no more than all of them.
proof fn lemma_size_of_prefix(paths: Seq<Seq<char>>, length: int)
    requires
        0 <= length <= paths.len(),
    ensures
        paths_size(paths.take(length)) <= paths_size(paths),
    decreases paths.len(),
{
    if length == paths.len() {
        assert(paths.take(length) == paths);
    } else {
        lemma_size_of_prefix(paths.drop_last(), length);
        assert(paths.drop_last().take(length) == paths.take(length));
    }
}

/// One more path adds its own size.
proof fn lemma_size_of_next(paths: Seq<Seq<char>>, index: int)
    requires
        0 <= index < paths.len(),
    ensures
        paths_size(paths.take(index + 1)) == paths_size(paths.take(index)) + encoded_length(
            paths[index],
        ) + 64,
        paths_size(paths.take(index + 1)) <= paths_size(paths),
{
    lemma_size_of_prefix(paths, index + 1);
    assert(paths.take(index + 1).drop_last() == paths.take(index));
}

/// A URL that says of a workspace what its URL always says, with its further paths in the query,
/// describes it exactly where it holds the remaining components as they are.
proof fn lemma_entry_of_view(url: UrlView, connection: ConnectionView, paths: Seq<Seq<char>>)
    requires
        carries_connection(url, connection),
        values_of(url.query_pairs, "path"@) == further_paths(paths),
    ensures
        url_entry(url) == Some(EntryView::Remote { connection, paths }) <==> keeps_components(
            url,
            connection,
            paths,
        ),
{
    reveal_strlit("ssh");
    reveal_strlit("wsl");
    reveal_strlit("docker");
    assert("ssh"@[0] != "wsl"@[0] && "docker"@[0] != "ssh"@[0] && "docker"@[0] != "wsl"@[0]);
    if paths.len() > 0 {
        assert(paths == seq![paths[0]] + paths.skip(1));
    }
    assert(url_paths(url)[0] == url.path);
    if keeps_components(url, connection, paths) {
        assert(url_paths(url) == paths);
    }
}

/// The URL for opening the workspace at `paths` over `connection`.
///
/// The URL begins with the scheme of the connection, and holds the further paths, whatever
/// components the `url` crate refuses or encodes. Of the host, the user name and the first path
/// it holds each that is plain as it is. Where it holds them all so, it describes the workspace:
/// reading it gives the connection and the paths back.
pub fn format_remote_url(connection: &RemoteConnectionInfo, paths: &EntryPaths) -> (url: String)
    requires
        fits_in_url(connection@, paths@),
    ensures
        url@ == remote_url(connection@, paths@),
        url@.len() <= i32::MAX,
        is_remote_url(url@),
        carries_connection(parsed_url(url@)->0, connection@),
        values_of(parsed_url(url@)->0.query_pairs, "path"@) == further_paths(paths@),
        keeps_plain_components(parsed_url(url@)->0, connection@, paths@),
        is_url_of(parsed_url(url@)->0, connection@, paths@),
        paths@.len() > 0 && is_decodable_path(paths@[0]) ==> decode_utf8(
            percent_decoded(parsed_url(url@)->0.path),
        ) == paths@[0],
        "ssh://"@.is_prefix_of(url@) <==> connection@ is Ssh,
        "wsl://"@.is_prefix_of(url@) <==> connection@ is Wsl,
        "docker://"@.is_prefix_of(url@) <==> connection@ is Docker,
        url_entry(parsed_url(url@)->0) == Some(
            EntryView::Remote { connection: connection@, paths: paths@ },
        ) <==> keeps_components(parsed_url(url@)->0, connection@, paths@),
        is_plain_workspace(connection@, paths@) ==> keeps_components(
            parsed_url(url@)->0,
            connection@,
            paths@,
        ),
        is_plain_workspace(connection@, paths@) ==> described_entry(parsed_url(url@), url@) == (
        EntryView::Remote { connection: connection@, paths: paths@ }),
{
    let slice = paths.as_slice();
    let ghost all = paths@;
    assert(all.len() == slice@.len());
    proof {
        lemma_pair_names();
        lemma_size_of_prefix(all, 0);
    }
    if slice.len() == 0 {
        proof {
            assert(all == Seq::<Seq<char>>::empty());
            assert(seq![""@].drop_last() == Seq::<Seq<char>>::empty());
            assert(paths_size(seq![""@].drop_last()) == 0);
            reveal_strlit("");
            assert(""@ == Seq::<char>::empty());
        }
        let url = format_single_path_url(connection, "");
        proof {
            assert(values_of(parsed_url(url@)->0.query_pairs, "path"@) == Seq::<Seq<char>>::empty());
            assert(is_plain_path(seq![""@][0]));
            lemma_entry_of_view(parsed_url(url@)->0, connection@, all);
            lemma_scheme_prefixes(url@, connection@);
        }
        return url;
    }
    proof {
        lemma_size_of_next(all, 0);
        assert(all.take(1) == seq![all[0]]);
        assert(slice@[0]@ == all[0]);
    }
    let mut url = format_single_path_url(connection, slice[0].as_str());
    let ghost first = url@;
    let mut i: usize = 1;
    proof {
        assert(all.skip(1).take(0) == Seq::<Seq<char>>::empty());
        assert(values_of(parsed_url(url@)->0.query_pairs, "path"@) == all.skip(1).take(0));
    }
    while i < slice.len()
        invariant
            texts(slice@) == all,
            all.len() == slice@.len(),
            1 <= i <= slice@.len(),
            url_size(connection@, all) <= i32::MAX,
            encoded_length("path"@) <= 48,
            "path"@ != "user"@,
            url@ == url_with_paths(first, all.skip(1).take(i - 1)),
            is_remote_url(first),
            is_remote_url(url@),
            parsed_url(url@)->0 == (UrlView {
                text: url@,
                query_pairs: parsed_url(url@)->0.query_pairs,
                ..parsed_url(first)->0
            }),
            values_of(parsed_url(url@)->0.query_pairs, "path"@) == all.skip(1).take(i - 1),
            parsed_url(url@)->0.query_pairs.len() == parsed_url(first)->0.query_pairs.len() + i - 1,
            parsed_url(first)->0.query_pairs.is_prefix_of(parsed_url(url@)->0.query_pairs),
            forall|k: int|
                1 <= k < i ==> parsed_url(url@)->0.query_pairs[parsed_url(
                    first,
                )->0.query_pairs.len() + k - 1] == ("path"@, #[trigger] all[k]),
            values_of(parsed_url(url@)->0.query_pairs, "user"@) == values_of(
                parsed_url(first)->0.query_pairs,
                "user"@,
            ),
            url@.len() <= url_size(connection@, all.take(i as int)) - 64,
        decreases slice.len() - i,
    {
        let ghost before = parsed_url(url@)->0.query_pairs;
        proof {
            lemma_size_of_next(all, i as int);
            assert(slice@[i as int]@ == all[i as int]);
        }
        url = append_pair(url.as_str(), "path", slice[i].as_str());
        proof {
            let added = all.skip(1).take(i as int);
            assert(added.drop_last() == all.skip(1).take(i - 1));
            assert(added.last() == all[i as int]);
            assert(parsed_url(url@)->0.query_pairs.drop_last() == before);
            assert(values_of(parsed_url(url@)->0.query_pairs, "path"@) == added);
        }
        i += 1;
    }
    proof {
        let pairs = parsed_url(url@)->0.query_pairs;
        let first_pairs = parsed_url(first)->0.query_pairs;
        assert(first_pairs.len() > 0 ==> pairs[0] == first_pairs[0]) by {
            if first_pairs.len() > 0 {
                assert(first_pairs[0] == pairs.subrange(0, first_pairs.len() as int)[0]);
            }
        }
        assert(is_url_of(parsed_url(url@)->0, connection@, all));
        if is_decodable_path(all[0]) {
            lemma_path_is_decoded(all[0]);
        }
        assert(all.take(i as int) == all);
        assert(all.skip(1).take(i - 1) == all.skip(1));
        lemma_entry_of_view(parsed_url(url@)->0, connection@, all);
        lemma_scheme_prefixes(url@, connection@);
    }
    url
}

/// Whether the URL of the workspace at `paths` over `connection` is sure to be short enough for
/// [`format_remote_url`].
pub fn remote_url_fits(connection: &RemoteConnectionInfo, paths: &EntryPaths) -> (fits: bool)
    ensures
        fits == fits_in_url(connection@, paths@),
{
    let user_size: u128 = match connection {
        RemoteConnectionInfo::Ssh { username: Some(user), .. } => encoded_size(user.as_str()),
        RemoteConnectionInfo::Wsl { user: Some(user), .. } => encoded_size(user.as_str()),
        _ => 0,
    };
    let target_size: u128 = encoded_size(connection.display_identifier());
    let mut size: u128 = 192 + target_size + user_size;
    let slice = paths.as_slice();
    let ghost all = paths@;
    let ghost rest: int = size as int;
    assert(all.len() == slice@.len());
    assert(all.take(0) == Seq::<Seq<char>>::empty());
    assert(rest + paths_size(all) == url_size(connection@, all));
    let mut i: usize = 0;
    while i < slice.len()
        invariant
            texts(slice@) == all,
            all.len() == slice@.len(),
            i <= slice@.len(),
            rest + paths_size(all) == url_size(connection@, all),
            all == paths@,
            size == rest + paths_size(all.take(i as int)),
            i == 0 ==> size <= 192 + 24 * (usize::MAX as int),
            i > 0 ==> size <= i32::MAX,
        decreases slice.len() - i,
    {
        proof {
            lemma_size_of_next(all, i as int);
            assert(slice@[i as int]@ == all[i as int]);
        }
        size = size + encoded_size(slice[i].as_str()) + 64;
        if size > 0x7FFF_FFFF {
            return false;
        }
        i += 1;
    }
    assert(all.take(i as int) == all);
    size <= 0x7FFF_FFFF
}

/// A bound on what paths of limited length take in a URL.
proof fn lemma_paths_size(paths: Seq<Seq<char>>, longest: nat)
    requires
        forall|i: int| 0 <= i < paths.len() ==> (#[trigger] paths[i]).len() <= longest,
    ensures
        paths_size(paths) <= paths.len() * (12 * longest + 64),
    decreases paths.len(),
{
    if paths.len() > 0 {
        let front = paths.drop_last();
        assert forall|i: int| 0 <= i < front.len() implies (#[trigger] front[i]).len() <= longest by {
            assert(front[i] == paths[i]);
        }
        assert(paths[paths.len() - 1].len() <= longest);
        lemma_paths_size(front, longest);
        lemma_encoded_length(paths.last());
        assert(paths.len() * (12 * longest + 64) == front.len() * (12 * longest + 64) + (12 * longest
            + 64)) by (nonlinear_arith)
            requires
                paths.len() == front.len() + 1,
        ;
    } else {
        assert(paths.len() * (12 * longest + 64) == 0) by (nonlinear_arith)
            requires
                paths.len() == 0,
        ;
    }
}

/// A workspace of up to a thousand folders fits in a URL, if neither the names nor the paths are
/// longer than a hundred thousand characters.
pub proof fn lemma_ordinary_sizes_fit(connection: ConnectionView, paths: Seq<Seq<char>>)
    requires
        match connection {
            ConnectionView::Ssh { username, host, .. } => host.len() <= 100000 && (
            username matches Some(username) ==> username.len() <= 100000),
            ConnectionView::Wsl { distro, user } => distro.len() <= 100000 && (
            user matches Some(user) ==> user.len() <= 100000),
            ConnectionView::Docker { name } => name.len() <= 100000,
        },
        paths.len() <= 1000,
        forall|i: int| 0 <= i < paths.len() ==> (#[trigger] paths[i]).len() <= 100000,
    ensures
        fits_in_url(connection, paths),
{
    lemma_encoded_length(target_of(connection));
    if user_of(connection) is Some {
        lemma_encoded_length(user_of(connection)->0);
    }
    lemma_paths_size(paths, 100000);
    assert(paths.len() * (12 * 100000 + 64) <= 1000 * (12 * 100000 + 64)) by (nonlinear_arith)
        requires
            paths.len() <= 1000,
    ;
}

} // verus!
