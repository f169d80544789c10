//! Entries of the jump list, and the connections of the remote ones.

use vstd::prelude::*;
use vstd::std_specs::cmp::PartialEqSpec;

use crate::paths::are_same_paths;
use crate::paths::equal_components;
use crate::paths::same_paths;
use crate::paths::EntryPaths;
use crate::text::same_text;

verus! {

/// The text of an optional string.
pub open spec fn optional_text(string: Option<String>) -> Option<Seq<char>> {
    match string {
        Some(string) => Some(string@),
        None => None,
    }
}

/// Whether two optional strings are equal.
pub fn same_optional_text(a: &Option<String>, b: &Option<String>) -> (same: bool)
    ensures
        same == (optional_text(*a) == optional_text(*b)),
{
    match (a, b) {
        (Some(a), Some(b)) => same_text(a.as_str(), b.as_str()),
        (None, None) => true,
        _ => false,
    }
}

/// How a remote workspace is reached.
#[derive(Debug)]
pub enum RemoteConnectionInfo {
    Ssh { username: Option<String>, host: String, port: Option<u16> },
    Wsl { distro: String, user: Option<String> },
    Docker { name: String },
}

/// The value of a [`RemoteConnectionInfo`].
pub enum ConnectionView {
    Ssh { username: Option<Seq<char>>, host: Seq<char>, port: Option<u16> },
    Wsl { distro: Seq<char>, user: Option<Seq<char>> },
    Docker { name: Seq<char> },
}

impl View for RemoteConnectionInfo {
    type V = ConnectionView;

    open spec fn view(&self) -> ConnectionView {
        match *self {
            RemoteConnectionInfo::Ssh { username, host, port } => ConnectionView::Ssh {
                username: optional_text(username),
                host: host@,
                port,
            },
            RemoteConnectionInfo::Wsl { distro, user } => ConnectionView::Wsl {
                distro: distro@,
                user: optional_text(user),
            },
            RemoteConnectionInfo::Docker { name } => ConnectionView::Docker { name: name@ },
        }
    }
}

/// The URL scheme of a connection.
pub open spec fn scheme_of(connection: ConnectionView) -> Seq<char> {
    match connection {
        ConnectionView::Ssh { .. } => "ssh"@,
        ConnectionView::Wsl { .. } => "wsl"@,
        ConnectionView::Docker { .. } => "docker"@,
    }
}

/// What a connection leads to: the host, the distribution or the container.
pub open spec fn target_of(connection: ConnectionView) -> Seq<char> {
    match connection {
        ConnectionView::Ssh { host, .. } => host,
        ConnectionView::Wsl { distro, .. } => distro,
        ConnectionView::Docker { name } => name,
    }
}

impl RemoteConnectionInfo {
    /// The URL scheme of the connection.
    pub fn scheme(&self) -> (scheme: &'static str)
        ensures
            scheme@ == scheme_of(self@),
            match self {
                RemoteConnectionInfo::Ssh { .. } => scheme@ == "ssh"@,
                RemoteConnectionInfo::Wsl { .. } => scheme@ == "wsl"@,
                RemoteConnectionInfo::Docker { .. } => scheme@ == "docker"@,
            },
    {
        match self {
            RemoteConnectionInfo::Ssh { .. } => "ssh",
            RemoteConnectionInfo::Wsl { .. } => "wsl",
            RemoteConnectionInfo::Docker { .. } => "docker",
        }
    }

    /// What the connection leads to: the host, the distribution or the container.
    pub fn display_identifier(&self) -> (identifier: &str)
        ensures
            identifier@ == target_of(self@),
            match self {
                RemoteConnectionInfo::Ssh { host, .. } => identifier@ == host@,
                RemoteConnectionInfo::Wsl { distro, .. } => identifier@ == distro@,
                RemoteConnectionInfo::Docker { name } => identifier@ == name@,
            },
    {
        match self {
            RemoteConnectionInfo::Ssh { host, .. } => host.as_str(),
            RemoteConnectionInfo::Wsl { distro, .. } => distro.as_str(),
            RemoteConnectionInfo::Docker { name } => name.as_str(),
        }
    }
}

impl Clone for RemoteConnectionInfo {
    fn clone(&self) -> (cloned: Self)
        ensures
            cloned@ == self@,
    {
        match self {
            RemoteConnectionInfo::Ssh { username, host, port } => RemoteConnectionInfo::Ssh {
                username: username.clone(),
                host: host.clone(),
                port: *port,
            },
            RemoteConnectionInfo::Wsl { distro, user } => RemoteConnectionInfo::Wsl {
                distro: distro.clone(),
                user: user.clone(),
            },
            RemoteConnectionInfo::Docker { name } => RemoteConnectionInfo::Docker {
                name: name.clone(),
            },
        }
    }
}

impl PartialEq for RemoteConnectionInfo {
    fn eq(&self, other: &Self) -> (equal: bool) {
        match (self, other) {
            (
                RemoteConnectionInfo::Ssh { username, host, port },
                RemoteConnectionInfo::Ssh {
                    username: other_username,
                    host: other_host,
                    port: other_port,
                },
            ) => same_optional_text(username, other_username) && same_text(
                host.as_str(),
                other_host.as_str(),
            ) && *port == *other_port,
            (
                RemoteConnectionInfo::Wsl { distro, user },
                RemoteConnectionInfo::Wsl { distro: other_distro, user: other_user },
            ) => same_text(distro.as_str(), other_distro.as_str()) && same_optional_text(
                user,
                other_user,
            ),
            (
                RemoteConnectionInfo::Docker { name },
                RemoteConnectionInfo::Docker { name: other_name },
            ) => same_text(name.as_str(), other_name.as_str()),
            _ => false,
        }
    }
}

impl vstd::std_specs::cmp::PartialEqSpecImpl for RemoteConnectionInfo {
    open spec fn obeys_eq_spec() -> bool {
        true
    }

    open spec fn eq_spec(&self, other: &Self) -> bool {
        self@ == other@
    }
}

/// An entry of the jump list: the folders of a workspace, and how to reach them if they are not
/// on this machine.
#[derive(Debug)]
pub enum JumpListEntry {
    Local(EntryPaths),
    Remote { connection: RemoteConnectionInfo, paths: EntryPaths },
}

/// The value of a [`JumpListEntry`].
pub enum EntryView {
    Local(Seq<Seq<char>>),
    Remote { connection: ConnectionView, paths: Seq<Seq<char>> },
}

impl View for JumpListEntry {
    type V = EntryView;

    open spec fn view(&self) -> EntryView {
        match *self {
            JumpListEntry::Local(paths) => EntryView::Local(paths@),
            JumpListEntry::Remote { connection, paths } => EntryView::Remote {
                connection: connection@,
                paths: paths@,
            },
        }
    }
}

/// Whether two entries are equal: of the same kind, with equal connections and the same paths.
pub open spec fn same_entry(a: EntryView, b: EntryView) -> bool {
    match (a, b) {
        (EntryView::Local(a), EntryView::Local(b)) => same_paths(a, b),
        (
            EntryView::Remote { connection: a_connection, paths: a },
            EntryView::Remote { connection: b_connection, paths: b },
        ) => a_connection == b_connection && same_paths(a, b),
        _ => false,
    }
}

impl Clone for JumpListEntry {
    fn clone(&self) -> (cloned: Self)
        ensures
            cloned@ == self@,
    {
        match self {
            JumpListEntry::Local(paths) => JumpListEntry::Local(paths.clone()),
            JumpListEntry::Remote { connection, paths } => JumpListEntry::Remote {
                connection: connection.clone(),
                paths: paths.clone(),
            },
        }
    }
}

impl PartialEq for JumpListEntry {
    fn eq(&self, other: &Self) -> (equal: bool) {
        match (self, other) {
            (JumpListEntry::Local(paths), JumpListEntry::Local(other_paths)) => are_same_paths(
                paths,
                other_paths,
            ),
            (
                JumpListEntry::Remote { connection, paths },
                JumpListEntry::Remote { connection: other_connection, paths: other_paths },
            ) => *connection == *other_connection && are_same_paths(paths, other_paths),
            _ => false,
        }
    }
}

impl vstd::std_specs::cmp::PartialEqSpecImpl for JumpListEntry {
    open spec fn obeys_eq_spec() -> bool {
        true
    }

    open spec fn eq_spec(&self, other: &Self) -> bool {
        same_entry(self@, other@)
    }
}

/// The values of a list of entries.
pub open spec fn entry_views(entries: Seq<JumpListEntry>) -> Seq<EntryView> {
    entries.map_values(|entry: JumpListEntry| entry@)
}

/// Whether `entries` has an entry that is equal to `entry`.
pub open spec fn contains_entry(entries: Seq<EntryView>, entry: EntryView) -> bool {
    exists|i: int| 0 <= i < entries.len() && same_entry(#[trigger] entries[i], entry)
}

/// Whether `entries` has an entry that is equal to `entry`.
pub fn has_entry(entries: &Vec<JumpListEntry>, entry: &JumpListEntry) -> (found: bool)
    ensures
        found == contains_entry(entry_views(entries@), entry@),
{
    let mut i: usize = 0;
    while i < entries.len()
        invariant
            i <= entries.len(),
            forall|j: int|
                0 <= j < i ==> !same_entry(#[trigger] entry_views(entries@)[j], entry@),
        decreases entries.len() - i,
    {
        assert(entry_views(entries@)[i as int] == entries@[i as int]@);
        if entries[i] == *entry {
            return true;
        }
        i += 1;
    }
    false
}

/// An entry is equal to itself.
pub proof fn lemma_same_entry_reflexive(entry: EntryView)
    ensures
        same_entry(entry, entry),
{
}

/// The connection of an entry: a local one has none.
pub open spec fn connection_of(entry: EntryView) -> Option<ConnectionView> {
    match entry {
        EntryView::Local(_) => None,
        EntryView::Remote { connection, .. } => Some(connection),
    }
}

/// The paths of an entry.
pub open spec fn paths_of(entry: EntryView) -> Seq<Seq<char>> {
    match entry {
        EntryView::Local(paths) => paths,
        EntryView::Remote { paths, .. } => paths,
    }
}

/// Entries are equal exactly if both are local, or both are remote over equal connections, and
/// they have the same number of paths, each with the components of its counterpart.
pub proof fn lemma_same_entry(a: EntryView, b: EntryView)
    ensures
        same_entry(a, b) <==> connection_of(a) == connection_of(b) && paths_of(a).len()
            == paths_of(b).len() && forall|i: int|
            0 <= i < paths_of(a).len() ==> #[trigger] paths_of(a)[i] == paths_of(b)[i]
                || equal_components(paths_of(a)[i], paths_of(b)[i]),
        same_entry(a, b) ==> (a is Local <==> b is Local),
{
}

/// A list has an entry exactly if one of its entries is local like it or over an equal connection,
/// and has as many paths, each with the components of its counterpart.
pub proof fn lemma_contains_entry(entries: Seq<EntryView>, entry: EntryView)
    ensures
        contains_entry(entries, entry) <==> exists|k: int|
            0 <= k < entries.len() && connection_of(#[trigger] entries[k]) == connection_of(entry)
                && paths_of(entries[k]).len() == paths_of(entry).len() && forall|i: int|
                0 <= i < paths_of(entry).len() ==> #[trigger] paths_of(entries[k])[i] == paths_of(
                    entry,
                )[i] || equal_components(paths_of(entries[k])[i], paths_of(entry)[i]),
{
    if contains_entry(entries, entry) {
        let k = choose|k: int| 0 <= k < entries.len() && same_entry(#[trigger] entries[k], entry);
        lemma_same_entry(entries[k], entry);
    }
    if exists|k: int|
        0 <= k < entries.len() && connection_of(#[trigger] entries[k]) == connection_of(entry)
            && paths_of(entries[k]).len() == paths_of(entry).len() && forall|i: int|
            0 <= i < paths_of(entry).len() ==> #[trigger] paths_of(entries[k])[i] == paths_of(
                entry,
            )[i] || equal_components(paths_of(entries[k])[i], paths_of(entry)[i]) {
        let k = choose|k: int|
            0 <= k < entries.len() && connection_of(#[trigger] entries[k]) == connection_of(entry)
                && paths_of(entries[k]).len() == paths_of(entry).len() && forall|i: int|
                0 <= i < paths_of(entry).len() ==> #[trigger] paths_of(entries[k])[i] == paths_of(
                    entry,
                )[i] || equal_components(paths_of(entries[k])[i], paths_of(entry)[i]);
        lemma_same_entry(entries[k], entry);
    }
}

/// An entry over another connection, or with another number of paths, or with a path that has
/// other components than its counterpart, is not equal.
pub proof fn lemma_other_entry(a: EntryView, b: EntryView, index: int)
    requires
        connection_of(a) != connection_of(b) || paths_of(a).len() != paths_of(b).len() || (0
            <= index < paths_of(a).len() && paths_of(a)[index] != paths_of(b)[index]
            && !equal_components(paths_of(a)[index], paths_of(b)[index])),
    ensures
        !same_entry(a, b),
{
    lemma_same_entry(a, b);
}

/// Connections with the same value have the same components, to the letter.
pub proof fn lemma_connection_value(a: RemoteConnectionInfo, b: RemoteConnectionInfo)
    ensures
        a@ == b@ <==> match (a, b) {
            (
                RemoteConnectionInfo::Ssh { username, host, port },
                RemoteConnectionInfo::Ssh { username: other_username, host: other_host, port: other_port },
            ) => (username is Some <==> other_username is Some) && (username is Some
                ==> username->0@ == other_username->0@) && host@ == other_host@ && port
                == other_port,
            (
                RemoteConnectionInfo::Wsl { distro, user },
                RemoteConnectionInfo::Wsl { distro: other_distro, user: other_user },
            ) => distro@ == other_distro@ && (user is Some <==> other_user is Some) && (user is Some
                ==> user->0@ == other_user->0@),
            (
                RemoteConnectionInfo::Docker { name },
                RemoteConnectionInfo::Docker { name: other_name },
            ) => name@ == other_name@,
            _ => false,
        },
{
}

/// `==` on connections compares their values, and on entries it is the equality of entries.
pub proof fn lemma_equality(
    a: RemoteConnectionInfo,
    b: RemoteConnectionInfo,
    entry: JumpListEntry,
    other: JumpListEntry,
)
    ensures
        a.eq_spec(&b) <==> a@ == b@,
        entry.eq_spec(&other) <==> connection_of(entry@) == connection_of(other@) && paths_of(
            entry@,
        ).len() == paths_of(other@).len() && forall|i: int|
            0 <= i < paths_of(entry@).len() ==> #[trigger] paths_of(entry@)[i] == paths_of(
                other@,
            )[i] || equal_components(paths_of(entry@)[i], paths_of(other@)[i]),
{
    lemma_same_entry(entry@, other@);
}

/// The values of entries are the value of each, in order.
pub proof fn lemma_entry_views(entries: Seq<JumpListEntry>)
    ensures
        entry_views(entries).len() == entries.len(),
        forall|i: int| 0 <= i < entries.len() ==> #[trigger] entry_views(entries)[i] == entries[i]@,
{
}

/// Entries with the same value are of the same kind, with the same connection and paths.
pub proof fn lemma_entry_value(entry: JumpListEntry)
    ensures
        match entry {
            JumpListEntry::Local(paths) => connection_of(entry@) is None && paths_of(entry@)
                == paths@,
            JumpListEntry::Remote { connection, paths } => connection_of(entry@) == Some(
                connection@,
            ) && paths_of(entry@) == paths@,
        },
{
}

} // verus!
