//! The jump list of the taskbar: its links, and what is read back of those that the user removed.

use vstd::prelude::*;
use vstd::seq_lib::lemma_seq_contains_after_push;
use vstd::slice::slice_subrange;
use vstd::string::*;

use crate::description::described_entry;
use crate::description::is_local_text;
use crate::description::lemma_local_description_round_trip;
use crate::description::parse_description_to_entry;
use crate::description::remote_entry;
use crate::entry::connection_of;
use crate::entry::contains_entry;
use crate::entry::entry_views;
use crate::entry::has_entry;
use crate::entry::lemma_contains_entry;
use crate::entry::lemma_same_entry_reflexive;
use crate::entry::paths_of;
use crate::entry::same_entry;
use crate::entry::scheme_of;
use crate::entry::target_of;
use crate::entry::ConnectionView;
use crate::entry::EntryView;
use crate::entry::JumpListEntry;
use crate::entry::RemoteConnectionInfo;
use crate::paths::display_name;
use crate::paths::equal_components;
use crate::paths::final_component;
use crate::paths::folder_name;
use crate::paths::EntryPaths;
use crate::remote_url::carries_connection;
use crate::remote_url::fits_in_url;
use crate::remote_url::format_remote_url;
use crate::remote_url::further_paths;
use crate::remote_url::is_plain_workspace;
use crate::remote_url::is_url_of;
use crate::remote_url::keeps_components;
use crate::remote_url::keeps_plain_components;
use crate::remote_url::remote_url;
use crate::remote_url::remote_url_fits;
use crate::remote_url::values_of;
use crate::text::after_prefix;
use crate::text::are_lines;
use crate::text::decimal;
use crate::text::decimal_text;
use crate::text::decode_utf16;
use crate::text::join;
use crate::text::joined;
use crate::text::lemma_joined_from_front;
use crate::text::lemma_split_at_first;
use crate::text::lemma_utf16_length;
use crate::text::lemma_utf16_round_trip;
use crate::text::lemma_utf16_zero;
use crate::text::same_text;
use crate::text::split_at_first;
use crate::text::split_lines;
use crate::text::texts;
use crate::text::utf16_text;
use crate::text::utf16_units;
use crate::url_parts::is_remote_url;
use crate::url_parts::parsed_url;

verus! {

/// An item of the application's menu. `A` is what an item does when it is chosen.
pub enum MenuItem<A> {
    Action { name: String, action: A },
    /// Anything else that a menu can hold.
    Other,
}

/// Why a menu item cannot be shown in the jump list.
#[derive(Debug, PartialEq, Eq, Structural, Clone, Copy)]
pub enum DockMenuError {
    NotAnAction,
}

impl DockMenuError {
    /// The error in words.
    pub fn message(&self) -> (message: &'static str)
        ensures
            message@ == "Only `MenuItem::Action` is supported for dock menu on Windows."@,
    {
        "Only `MenuItem::Action` is supported for dock menu on Windows."
    }
}

/// A task of the jump list.
pub struct DockMenuItem<A> {
    pub name: String,
    pub description: String,
    pub action: A,
}

/// What describes the task of the given name.
pub open spec fn task_description(name: Seq<char>) -> Seq<char> {
    if name == "New Window"@ {
        "Opens a new window"@
    } else {
        name
    }
}

impl<A> DockMenuItem<A> {
    /// The task that a menu item stands for. Only an action can be one.
    pub fn new(item: MenuItem<A>) -> (task: Result<Self, DockMenuError>)
        ensures
            match item {
                MenuItem::Action { name, action } => task matches Ok(task) && task.name@ == name@
                    && task.description@ == task_description(name@) && task.action == action && (
                name@ == "New Window"@ ==> task.description@ == "Opens a new window"@) && (name@
                    != "New Window"@ ==> task.description@ == name@),
                MenuItem::Other => task == Err::<Self, DockMenuError>(DockMenuError::NotAnAction),
            },
    {
        match item {
            MenuItem::Action { name, action } => {
                let description = if same_text(name.as_str(), "New Window") {
                    "Opens a new window".to_owned()
                } else {
                    name.clone()
                };
                Ok(DockMenuItem { name, description, action })
            },
            MenuItem::Other => Err(DockMenuError::NotAnAction),
        }
    }
}

/// What the jump list is to show.
pub struct JumpList<A> {
    pub dock_menus: Vec<DockMenuItem<A>>,
    pub recent_workspaces: Vec<JumpListEntry>,
}

impl<A> JumpList<A> {
    /// A jump list that shows nothing.
    pub fn new() -> (list: Self)
        ensures
            list.dock_menus@ == Seq::<DockMenuItem<A>>::empty(),
            list.recent_workspaces@ == Seq::<JumpListEntry>::empty(),
    {
        JumpList { dock_menus: Vec::new(), recent_workspaces: Vec::new() }
    }
}

/// A link of the jump list to the application itself.
#[derive(Debug)]
pub struct ShellLink {
    /// The arguments that the application is started with.
    pub argument: String,
    /// What the link is recognised by.
    pub description: String,
    pub icon: Option<String>,
    /// The title that is shown.
    pub display: String,
}

/// The value of a [`ShellLink`].
pub struct LinkView {
    pub argument: Seq<char>,
    pub description: Seq<char>,
    pub icon: Option<Seq<char>>,
    pub display: Seq<char>,
}

impl View for ShellLink {
    type V = LinkView;

    open spec fn view(&self) -> LinkView {
        LinkView {
            argument: self.argument@,
            description: self.description@,
            icon: match self.icon {
                Some(icon) => Some(icon@),
                None => None,
            },
            display: self.display@,
        }
    }
}

/// `text` in double quotes.
pub open spec fn quoted(text: Seq<char>) -> Seq<char> {
    "\""@ + text + "\""@
}

/// The names of folders, in order.
pub open spec fn folder_names(paths: Seq<Seq<char>>) -> Seq<char> {
    joined(paths.map_values(|path: Seq<char>| folder_name(path)), ", "@)
}

/// The link of an entry. A folder icon goes with it.
pub open spec fn entry_link(entry: EntryView) -> LinkView {
    match entry {
        EntryView::Local(paths) => LinkView {
            argument: joined(paths.map_values(|path: Seq<char>| quoted(path)), " "@),
            description: joined(paths, "\n"@),
            icon: Some("explorer.exe"@),
            display: folder_names(paths),
        },
        EntryView::Remote { connection, paths } => LinkView {
            argument: quoted(remote_url(connection, paths)),
            description: remote_url(connection, paths),
            icon: Some("explorer.exe"@),
            display: folder_names(paths) + " ["@ + scheme_of(connection) + ": "@ + target_of(
                connection,
            ) + "]"@,
        },
    }
}

/// The entry that a link's description spells.
pub open spec fn entry_behind(link: LinkView) -> EntryView {
    described_entry(parsed_url(link.description), link.description)
}

/// Whether the link of an entry leads back to it.
pub open spec fn is_recognisable(entry: EntryView) -> bool {
    entry_behind(entry_link(entry)) == entry
}

/// Whether the link of an entry leads back to an equal one, which is what removal goes by.
pub open spec fn is_found_again(entry: EntryView) -> bool {
    same_entry(entry_behind(entry_link(entry)), entry)
}

/// Whether the link of an entry can be made.
pub open spec fn has_link(entry: EntryView) -> bool {
    match entry {
        EntryView::Local(_) => true,
        EntryView::Remote { connection, paths } => fits_in_url(connection, paths),
    }
}

/// Whether the link of `entry` can be made: always, unless its URL might outgrow 2 GB.
pub fn can_link(entry: &JumpListEntry) -> (can: bool)
    ensures
        can == has_link(entry@),
        entry@ is Local ==> can,
        entry@ matches EntryView::Remote { connection, paths } ==> can == fits_in_url(
            connection,
            paths,
        ),
{
    match entry {
        JumpListEntry::Local(_) => true,
        JumpListEntry::Remote { connection, paths } => remote_url_fits(connection, paths),
    }
}

/// `text` in double quotes.
fn quote(text: &str) -> (quoted_text: String)
    ensures
        quoted_text@ == quoted(text@),
{
    "\"".to_owned().concat(text).concat("\"")
}

/// The names of folders, in order.
fn format_folder_names(paths: &EntryPaths) -> (names: String)
    ensures
        names@ == folder_names(paths@),
{
    let slice = paths.as_slice();
    let ghost wanted = paths@.map_values(|path: Seq<char>| folder_name(path));
    assert(paths@.len() == slice@.len());
    let mut names: Vec<String> = Vec::new();
    let mut i: usize = 0;
    while i < slice.len()
        invariant
            texts(slice@) == paths@,
            paths@.len() == slice@.len(),
            wanted == paths@.map_values(|path: Seq<char>| folder_name(path)),
            i <= slice@.len(),
            texts(names@) == wanted.take(i as int),
        decreases slice.len() - i,
    {
        let ghost before = names@;
        assert(slice@[i as int]@ == paths@[i as int]);
        names.push(display_name(slice[i].as_str()));
        assert(texts(names@) == texts(before).push(wanted[i as int]));
        assert(wanted.take(i + 1) == wanted.take(i as int).push(wanted[i as int]));
        i += 1;
    }
    assert(wanted.take(i as int) == wanted);
    join(&names, ", ")
}

/// The link of a local workspace.
fn format_local_link(paths: &EntryPaths) -> (link: ShellLink)
    ensures
        link@ == entry_link(EntryView::Local(paths@)),
{
    let slice = paths.as_slice();
    let ghost wanted = paths@.map_values(|path: Seq<char>| quoted(path));
    assert(paths@.len() == slice@.len());
    let mut arguments: Vec<String> = Vec::new();
    let mut lines: Vec<String> = Vec::new();
    let mut i: usize = 0;
    while i < slice.len()
        invariant
            texts(slice@) == paths@,
            paths@.len() == slice@.len(),
            wanted == paths@.map_values(|path: Seq<char>| quoted(path)),
            i <= slice@.len(),
            texts(arguments@) == wanted.take(i as int),
            texts(lines@) == paths@.take(i as int),
        decreases slice.len() - i,
    {
        let ghost arguments_before = arguments@;
        let ghost lines_before = lines@;
        assert(slice@[i as int]@ == paths@[i as int]);
        arguments.push(quote(slice[i].as_str()));
        lines.push(slice[i].clone());
        assert(texts(arguments@) == texts(arguments_before).push(wanted[i as int]));
        assert(texts(lines@) == texts(lines_before).push(paths@[i as int]));
        assert(wanted.take(i + 1) == wanted.take(i as int).push(wanted[i as int]));
        assert(paths@.take(i + 1) == paths@.take(i as int).push(paths@[i as int]));
        i += 1;
    }
    assert(wanted.take(i as int) == wanted);
    assert(paths@.take(i as int) == paths@);
    ShellLink {
        argument: join(&arguments, " "),
        description: join(&lines, "\n"),
        icon: Some("explorer.exe".to_owned()),
        display: format_folder_names(paths),
    }
}

/// The URL of a remote workspace is not in the older format of descriptions.
proof fn lemma_remote_url_is_not_legacy(url: Seq<char>)
    requires
        is_remote_url(url),
    ensures
        after_prefix(url, "remote:"@) is None,
{
    reveal_strlit("ssh");
    reveal_strlit("wsl");
    reveal_strlit("docker");
    reveal_strlit("remote:");
    let prefix = parsed_url(url)->0.scheme + "://"@;
    assert(prefix[0] == url.subrange(0, prefix.len() as int)[0]);
    if "remote:"@.is_prefix_of(url) {
        assert("remote:"@[0] == url.subrange(0, "remote:"@.len() as int)[0]);
    }
}

/// The link of a remote workspace.
fn format_remote_link(connection: &RemoteConnectionInfo, paths: &EntryPaths) -> (link: ShellLink)
    requires
        fits_in_url(connection@, paths@),
    ensures
        link@ == entry_link(EntryView::Remote { connection: connection@, paths: paths@ }),
        link.description@.len() <= i32::MAX,
        is_remote_url(link.description@),
        carries_connection(parsed_url(link.description@)->0, connection@),
        values_of(parsed_url(link.description@)->0.query_pairs, "path"@) == further_paths(paths@),
        keeps_plain_components(parsed_url(link.description@)->0, connection@, paths@),
        is_url_of(parsed_url(link.description@)->0, connection@, paths@),
        is_recognisable(
            EntryView::Remote { connection: connection@, paths: paths@ },
        ) <==> keeps_components(parsed_url(link.description@)->0, connection@, paths@),
        is_plain_workspace(connection@, paths@) ==> keeps_components(
            parsed_url(link.description@)->0,
            connection@,
            paths@,
        ),
{
    let url = format_remote_url(connection, paths);
    proof {
        lemma_remote_url_is_not_legacy(url@);
    }
    let display = format_folder_names(paths).concat(" [").concat(connection.scheme()).concat(
        ": ",
    ).concat(connection.display_identifier()).concat("]");
    ShellLink {
        argument: quote(url.as_str()),
        description: url,
        icon: Some("explorer.exe".to_owned()),
        display,
    }
}

/// The link of `entry`.
///
/// The link leads back to the entry exactly if, for a local workspace, its paths can stand one to
/// a line and those lines are not read as a remote workspace, and for a remote one, its URL
/// keeps the host, the user name and the first path as they are, which it does where they are
/// plain.
pub fn format_link(entry: &JumpListEntry) -> (link: ShellLink)
    requires
        has_link(entry@),
    ensures
        link@ == entry_link(entry@),
        link@.icon == Some("explorer.exe"@),
        match entry@ {
            EntryView::Local(paths) => is_recognisable(entry@) <==> are_lines(paths)
                && remote_entry(parsed_url(link.description@), link.description@) is None,
            EntryView::Remote { connection, paths } => {
                &&& link.description@.len() <= i32::MAX
                &&& is_remote_url(link.description@)
                &&& carries_connection(parsed_url(link.description@)->0, connection)
                &&& values_of(parsed_url(link.description@)->0.query_pairs, "path"@)
                    == further_paths(paths)
                &&& keeps_plain_components(parsed_url(link.description@)->0, connection, paths)
                &&& is_url_of(parsed_url(link.description@)->0, connection, paths)
                &&& link.argument@ == seq!['"'] + link.description@ + seq!['"']
                &&& is_recognisable(entry@) <==> keeps_components(
                    parsed_url(link.description@)->0,
                    connection,
                    paths,
                )
                &&& is_plain_workspace(connection, paths) ==> is_recognisable(entry@)
            },
        },
{
    match entry {
        JumpListEntry::Local(paths) => {
            let link = format_local_link(paths);
            proof {
                lemma_local_description_round_trip(paths@, parsed_url(link.description@));
            }
            link
        },
        JumpListEntry::Remote { connection, paths } => {
            let link = format_remote_link(connection, paths);
            proof {
                lemma_remote_link(connection@, paths@);
            }
            link
        },
    }
}

/// The entries that are shown: those that the user has not removed.
pub open spec fn shown_entries(entries: Seq<EntryView>, removed: Seq<EntryView>) -> Seq<EntryView>
    decreases entries.len(),
{
    if entries.len() == 0 {
        Seq::empty()
    } else if contains_entry(removed, entries.last()) {
        shown_entries(entries.drop_last(), removed)
    } else {
        shown_entries(entries.drop_last(), removed).push(entries.last())
    }
}

/// The values of a list of links.
pub open spec fn link_views(links: Seq<ShellLink>) -> Seq<LinkView> {
    links.map_values(|link: ShellLink| link@)
}

/// The links of the entries that are shown.
pub open spec fn recent_links(entries: Seq<EntryView>, removed: Seq<EntryView>) -> Seq<LinkView> {
    shown_entries(entries, removed).map_values(|entry: EntryView| entry_link(entry))
}

/// Whether every entry that is shown can be linked.
pub open spec fn have_links(entries: Seq<EntryView>, removed: Seq<EntryView>) -> bool {
    forall|i: int|
        0 <= i < entries.len() && !contains_entry(removed, entries[i]) ==> has_link(
            #[trigger] entries[i],
        )
}

/// The links of `entries`, without those that are in `removed`.
pub fn add_recent_folders(
    entries: &Vec<JumpListEntry>,
    removed: &Vec<JumpListEntry>,
) -> (links: Vec<ShellLink>)
    requires
        have_links(entry_views(entries@), entry_views(removed@)),
    ensures
        link_views(links@) == recent_links(entry_views(entries@), entry_views(removed@)),
{
    let ghost all = entry_views(entries@);
    let ghost gone = entry_views(removed@);
    let mut links: Vec<ShellLink> = Vec::new();
    let mut i: usize = 0;
    assert(link_views(links@) == recent_links(all.take(0), gone));
    while i < entries.len()
        invariant
            have_links(all, gone),
            all == entry_views(entries@),
            gone == entry_views(removed@),
            i <= entries.len(),
            link_views(links@) == recent_links(all.take(i as int), gone),
        decreases entries.len() - i,
    {
        let ghost before = links@;
        assert(all.take(i + 1).drop_last() == all.take(i as int));
        assert(all.take(i + 1).last() == entries@[i as int]@);
        assert(all[i as int] == entries@[i as int]@);
        if !has_entry(removed, &entries[i]) {
            links.push(format_link(&entries[i]));
            assert(link_views(links@) == link_views(before).push(entry_link(entries@[i as int]@)));
        }
        assert(link_views(links@) == recent_links(all.take(i + 1), gone));
        i += 1;
    }
    assert(all.take(i as int) == all);
    links
}

/// The heading of the recent folders, if they are to be listed: only where there are any.
/// `count` is how many links the shell has taken, if it says so.
pub fn recent_folders_category(count: Option<u32>) -> (category: Option<String>)
    ensures
        match category {
            Some(category) => count matches Some(count) && count > 0 && category@
                == "Recent Folders"@,
            None => count matches Some(count) ==> count == 0,
        },
{
    match count {
        Some(count) if count > 0 => Some("Recent Folders".to_owned()),
        _ => None,
    }
}

/// The link of the task with the given index.
pub open spec fn task_link(index: int, name: Seq<char>, description: Seq<char>) -> LinkView {
    LinkView {
        argument: "--dock-action "@ + decimal(index as nat),
        description,
        icon: None,
        display: name,
    }
}

/// The links of tasks.
pub open spec fn task_links<A>(dock_menus: Seq<DockMenuItem<A>>) -> Seq<LinkView> {
    Seq::new(
        dock_menus.len(),
        |i: int| task_link(i, dock_menus[i].name@, dock_menus[i].description@),
    )
}

/// The links of the tasks in `dock_menus`, which pass on the index of the task.
pub fn add_dock_menu<A>(dock_menus: &Vec<DockMenuItem<A>>) -> (links: Vec<ShellLink>)
    ensures
        link_views(links@) == task_links(dock_menus@),
        links@.len() == dock_menus@.len(),
        forall|i: int|
            0 <= i < links@.len() ==> {
                &&& (#[trigger] links@[i]).argument@ == "--dock-action "@ + decimal(i as nat)
                &&& links@[i].description@ == dock_menus@[i].description@
                &&& links@[i].icon is None
                &&& links@[i].display@ == dock_menus@[i].name@
            },
{
    let mut links: Vec<ShellLink> = Vec::new();
    let mut i: usize = 0;
    while i < dock_menus.len()
        invariant
            i <= dock_menus.len(),
            link_views(links@) == task_links(dock_menus@).take(i as int),
        decreases dock_menus.len() - i,
    {
        let ghost before = links@;
        links.push(
            ShellLink {
                argument: "--dock-action ".to_owned().concat(decimal_text(i as u64).as_str()),
                description: dock_menus[i].description.clone(),
                icon: None,
                display: dock_menus[i].name.clone(),
            },
        );
        proof {
            let wanted = task_links(dock_menus@);
            assert(link_views(links@) == link_views(before).push(wanted[i as int]));
            assert(wanted.take(i + 1) == wanted.take(i as int).push(wanted[i as int]));
        }
        i += 1;
    }
    proof {
        assert(task_links(dock_menus@).take(i as int) == task_links(dock_menus@));
        assert(link_views(links@).len() == links@.len());
        assert forall|i: int| 0 <= i < links@.len() implies {
            &&& (#[trigger] links@[i]).argument@ == "--dock-action "@ + decimal(i as nat)
            &&& links@[i].description@ == dock_menus@[i].description@
            &&& links@[i].icon is None
            &&& links@[i].display@ == dock_menus@[i].name@
        } by {
            assert(link_views(links@)[i] == links@[i]@);
        }
    }
    links
}

/// The links that make up a jump list.
#[derive(Debug)]
pub struct DestinationList {
    pub recent_folders: Vec<ShellLink>,
    pub user_tasks: Vec<ShellLink>,
}

/// The links of `jump_list`, where the user has removed those of `removed`.
pub fn update_jump_list<A>(
    jump_list: &JumpList<A>,
    removed: &Vec<JumpListEntry>,
) -> (list: DestinationList)
    requires
        have_links(entry_views(jump_list.recent_workspaces@), entry_views(removed@)),
    ensures
        link_views(list.recent_folders@) == recent_links(
            entry_views(jump_list.recent_workspaces@),
            entry_views(removed@),
        ),
        link_views(list.user_tasks@) == task_links(jump_list.dock_menus@),
{
    DestinationList {
        recent_folders: add_recent_folders(&jump_list.recent_workspaces, removed),
        user_tasks: add_dock_menu(&jump_list.dock_menus),
    }
}

/// How many units of a buffer come before the terminating zero.
pub open spec fn terminated_length(buffer: Seq<u16>) -> nat
    decreases buffer.len(),
{
    if buffer.len() == 0 || buffer[0] == 0 {
        0
    } else {
        1 + terminated_length(buffer.skip(1))
    }
}

/// The description that the shell has written into a buffer.
pub open spec fn description_in(buffer: Seq<u16>) -> Seq<char> {
    utf16_text(buffer.take(terminated_length(buffer) as int))
}

/// A zero ends a buffer where nothing before it does.
proof fn lemma_terminated_length(buffer: Seq<u16>, length: int)
    requires
        0 <= length <= buffer.len(),
        forall|i: int| 0 <= i < length ==> buffer[i] != 0,
        length == buffer.len() || buffer[length] == 0,
    ensures
        terminated_length(buffer) == length,
    decreases buffer.len(),
{
    if length > 0 {
        let rest = buffer.skip(1);
        assert(forall|i: int| 0 <= i < rest.len() ==> rest[i] == buffer[i + 1]);
        lemma_terminated_length(rest, length - 1);
    }
}

/// What comes before the terminating zero is no longer than the buffer.
proof fn lemma_terminated_length_fits(buffer: Seq<u16>)
    ensures
        terminated_length(buffer) <= buffer.len(),
    decreases buffer.len(),
{
    if buffer.len() > 0 {
        lemma_terminated_length_fits(buffer.skip(1));
    }
}

/// The description that the shell has written into `buffer`, up to the terminating zero.
pub fn read_description(buffer: &Vec<u16>) -> (description: String)
    ensures
        description@ == description_in(buffer@),
{
    let mut length: usize = 0;
    while length < buffer.len() && buffer[length] != 0
        invariant
            length <= buffer.len(),
            forall|i: int| 0 <= i < length ==> buffer@[i] != 0,
        decreases buffer.len() - length,
    {
        length += 1;
    }
    proof {
        lemma_terminated_length(buffer@, length as int);
        assert(buffer@.subrange(0, length as int) == buffer@.take(length as int));
    }
    decode_utf16(slice_subrange(buffer.as_slice(), 0, length))
}

/// The entry that a description in a buffer spells.
pub open spec fn entry_in(buffer: Seq<u16>) -> EntryView {
    described_entry(parsed_url(description_in(buffer)), description_in(buffer))
}

/// The entries that the user has removed from the jump list. `buffers` are the descriptions of
/// their links, as the shell writes them. One that does not look like a remote workspace gives a
/// local one, and one in the older format what that spells.
pub fn removed_entries(buffers: &Vec<Vec<u16>>) -> (removed: Vec<JumpListEntry>)
    requires
        forall|i: int| 0 <= i < buffers@.len() ==> (#[trigger] buffers@[i])@.len() <= i32::MAX,
    ensures
        entry_views(removed@) == Seq::new(buffers@.len(), |i: int| entry_in(buffers@[i]@)),
        removed@.len() == buffers@.len(),
        forall|i: int|
            0 <= i < buffers@.len() ==> (#[trigger] removed@[i])@ == described_entry(
                parsed_url(description_in(buffers@[i]@)),
                description_in(buffers@[i]@),
            ),
        forall|i: int|
            0 <= i < buffers@.len() && is_local_text(description_in(buffers@[i]@)) ==> (
            #[trigger] removed@[i])@ == EntryView::Local(split_lines(description_in(buffers@[i]@))),
        forall|i: int|
            0 <= i < buffers@.len() && "remote:"@.is_prefix_of(description_in(buffers@[i]@)) ==> (
            #[trigger] removed@[i])@ == described_entry(None, description_in(buffers@[i]@)),
{
    let ghost wanted = Seq::new(buffers@.len(), |i: int| entry_in(buffers@[i]@));
    let mut removed: Vec<JumpListEntry> = Vec::new();
    let mut i: usize = 0;
    while i < buffers.len()
        invariant
            forall|i: int| 0 <= i < buffers@.len() ==> (#[trigger] buffers@[i])@.len() <= i32::MAX,
            wanted == Seq::new(buffers@.len(), |i: int| entry_in(buffers@[i]@)),
            i <= buffers.len(),
            removed@.len() == i,
            forall|j: int|
                0 <= j < i ==> (#[trigger] removed@[j])@ == described_entry(
                    parsed_url(description_in(buffers@[j]@)),
                    description_in(buffers@[j]@),
                ),
            forall|j: int|
                0 <= j < i && is_local_text(description_in(buffers@[j]@)) ==> (
                #[trigger] removed@[j])@ == EntryView::Local(
                    split_lines(description_in(buffers@[j]@)),
                ),
            forall|j: int|
                0 <= j < i && "remote:"@.is_prefix_of(description_in(buffers@[j]@)) ==> (
                #[trigger] removed@[j])@ == described_entry(None, description_in(buffers@[j]@)),
            entry_views(removed@) == wanted.take(i as int),
        decreases buffers.len() - i,
    {
        let ghost before = removed@;
        let description = read_description(&buffers[i]);
        proof {
            let buffer = buffers@[i as int]@;
            lemma_terminated_length_fits(buffer);
            lemma_utf16_length(buffer.take(terminated_length(buffer) as int));
        }
        removed.push(parse_description_to_entry(description.as_str()));
        assert(entry_views(removed@) == entry_views(before).push(wanted[i as int]));
        assert(wanted.take(i + 1) == wanted.take(i as int).push(wanted[i as int]));
        i += 1;
    }
    assert(wanted.take(i as int) == wanted);
    removed
}

/// A description that the shell hands back in UTF-16, with a terminating zero and whatever comes
/// behind it, is read as it was, unless it holds a zero itself.
pub proof fn lemma_description_in_buffer(description: Seq<char>, padding: Seq<u16>)
    requires
        !description.contains('\0'),
    ensures
        description_in(utf16_units(description) + seq![0u16] + padding) == description,
{
    let units = utf16_units(description);
    let buffer = units + seq![0u16] + padding;
    lemma_utf16_zero(description);
    assert(forall|i: int| 0 <= i < units.len() ==> buffer[i] == units[i]);
    lemma_terminated_length(buffer, units.len() as int);
    assert(buffer.take(units.len() as int) =~= units);
    lemma_utf16_round_trip(description);
}

/// When the shell hands back the link of an entry as removed, the entry is found behind it, if
/// the link leads back to the entry and its description holds no zero.
pub proof fn lemma_removed_link_is_read_back(entry: EntryView, padding: Seq<u16>)
    requires
        !entry_link(entry).description.contains('\0'),
    ensures
        entry_in(utf16_units(entry_link(entry).description) + seq![0u16] + padding) == entry
            <==> is_recognisable(entry),
{
    lemma_description_in_buffer(entry_link(entry).description, padding);
}

/// What is shown of a list with one more entry in front: that entry, unless the user has removed
/// it, and what is shown of the others.
pub proof fn lemma_shown_from_front(
    entry: EntryView,
    entries: Seq<EntryView>,
    removed: Seq<EntryView>,
)
    ensures
        shown_entries(seq![entry] + entries, removed) == (if contains_entry(removed, entry) {
            shown_entries(entries, removed)
        } else {
            seq![entry] + shown_entries(entries, removed)
        }),
    decreases entries.len(),
{
    let all = seq![entry] + entries;
    if entries.len() == 0 {
        assert(all.drop_last() =~= Seq::<EntryView>::empty());
        assert(shown_entries(all.drop_last(), removed) =~= Seq::<EntryView>::empty());
        assert(shown_entries(entries, removed) =~= Seq::<EntryView>::empty());
        assert(Seq::<EntryView>::empty().push(entry) =~= seq![entry] + Seq::<EntryView>::empty());
    } else {
        lemma_shown_from_front(entry, entries.drop_last(), removed);
        assert(all.drop_last() =~= seq![entry] + entries.drop_last());
        let front = shown_entries(entries.drop_last(), removed);
        assert((seq![entry] + front).push(entries.last()) =~= seq![entry] + front.push(
            entries.last(),
        ));
    }
}

/// No entry that the user removed is shown, every other one is, and nothing else.
pub proof fn lemma_shown_entries(entries: Seq<EntryView>, removed: Seq<EntryView>)
    ensures
        forall|entry: EntryView| #[trigger]
            shown_entries(entries, removed).contains(entry) <==> entries.contains(entry)
                && !contains_entry(removed, entry),
    decreases entries.len(),
{
    if entries.len() > 0 {
        let front = entries.drop_last();
        let last = entries.last();
        lemma_shown_entries(front, removed);
        assert(entries == front.push(last));
        assert forall|entry: EntryView| #[trigger]
            shown_entries(entries, removed).contains(entry) <==> entries.contains(entry)
                && !contains_entry(removed, entry) by {
            lemma_seq_contains_after_push(front, last, entry);
            lemma_seq_contains_after_push(shown_entries(front, removed), last, entry);
        }
    }
}

/// A link that leads back to its entry leads back to an equal one.
pub proof fn lemma_recognisable_is_found_again(entry: EntryView)
    requires
        is_recognisable(entry),
    ensures
        is_found_again(entry),
{
    lemma_same_entry_reflexive(entry);
}

/// An entry whose link the user has removed is not shown again, if the link leads back to an
/// equal one.
pub proof fn lemma_removed_link_is_not_shown(
    entries: Seq<EntryView>,
    removed: Seq<EntryView>,
    entry: EntryView,
)
    requires
        is_found_again(entry),
        removed.contains(entry_behind(entry_link(entry))),
    ensures
        !shown_entries(entries, removed).contains(entry),
{
    lemma_shown_entries(entries, removed);
    let i = choose|i: int|
        0 <= i < removed.len() && removed[i] == entry_behind(entry_link(entry));
    assert(same_entry(removed[i], entry));
}

/// The link of no folder is empty, and that of one folder has the whole path, in quotes for the
/// argument, and the final component as its title, or else the path.
pub proof fn lemma_single_local_link(path: Seq<char>)
    ensures
        entry_link(EntryView::Local(Seq::empty())) == (LinkView {
            argument: Seq::empty(),
            description: Seq::empty(),
            icon: Some("explorer.exe"@),
            display: Seq::empty(),
        }),
        entry_link(EntryView::Local(seq![path])) == (LinkView {
            argument: seq!['"'] + path + seq!['"'],
            description: path,
            icon: Some("explorer.exe"@),
            display: match final_component(path) {
                Some(name) => name,
                None => path,
            },
        }),
{
    reveal_strlit("\"");
    assert("\""@ =~= seq!['"']);
    let none = Seq::<Seq<char>>::empty();
    assert(none.map_values(|path: Seq<char>| quoted(path)) =~= none);
    assert(none.map_values(|path: Seq<char>| folder_name(path)) =~= none);
    let one = seq![path];
    assert(one.map_values(|path: Seq<char>| quoted(path)) =~= seq![quoted(path)]);
    assert(one.map_values(|path: Seq<char>| folder_name(path)) =~= seq![folder_name(path)]);
}

/// The link of one more folder has that folder in front of what the link of the others has: a
/// space, a line break or a comma stands between.
pub proof fn lemma_local_link_of_more(path: Seq<char>, paths: Seq<Seq<char>>)
    requires
        paths.len() > 0,
    ensures
        entry_link(EntryView::Local(seq![path] + paths)) == (LinkView {
            argument: seq!['"'] + path + seq!['"', ' '] + entry_link(
                EntryView::Local(paths),
            ).argument,
            description: path + seq!['\n'] + entry_link(EntryView::Local(paths)).description,
            icon: Some("explorer.exe"@),
            display: (match final_component(path) {
                Some(name) => name,
                None => path,
            }) + seq![',', ' '] + entry_link(EntryView::Local(paths)).display,
        }),
{
    reveal_strlit("\"");
    reveal_strlit(" ");
    reveal_strlit("\n");
    reveal_strlit(", ");
    assert("\""@ =~= seq!['"']);
    assert(" "@ =~= seq![' ']);
    assert("\n"@ =~= seq!['\n']);
    assert(", "@ =~= seq![',', ' ']);
    let all = seq![path] + paths;
    let arguments = all.map_values(|path: Seq<char>| quoted(path));
    let names = all.map_values(|path: Seq<char>| folder_name(path));
    lemma_joined_from_front(arguments, " "@);
    lemma_joined_from_front(all, "\n"@);
    lemma_joined_from_front(names, ", "@);
    assert(arguments.skip(1) =~= paths.map_values(|path: Seq<char>| quoted(path)));
    assert(names.skip(1) =~= paths.map_values(|path: Seq<char>| folder_name(path)));
    assert(all.skip(1) =~= paths);
    let rest = entry_link(EntryView::Local(paths)).argument;
    assert(quoted(path) + " "@ + rest =~= seq!['"'] + path + seq!['"', ' '] + rest);
}

/// The texts that stand in double quotes, in order.
pub open spec fn between_quotes(text: Seq<char>) -> Seq<Seq<char>>
    decreases text.len(),
{
    match split_at_first(text, '"') {
        Some((_, rest)) => match split_at_first(rest, '"') {
            Some((part, more)) if more.len() < text.len() => seq![part] + between_quotes(more),
            _ => Seq::empty(),
        },
        None => Seq::empty(),
    }
}

/// A text in quotes is found, and then those behind it.
proof fn lemma_between_quotes(before: Seq<char>, part: Seq<char>, more: Seq<char>)
    requires
        !before.contains('"'),
        !part.contains('"'),
    ensures
        between_quotes(before + seq!['"'] + part + seq!['"'] + more) == seq![part] + between_quotes(
            more,
        ),
{
    let rest = part + seq!['"'] + more;
    lemma_split_at_first(before, rest, '"');
    lemma_split_at_first(part, more, '"');
    assert(before + seq!['"'] + part + seq!['"'] + more =~= before + seq!['"'] + rest);
}

/// What stands in quotes behind some space is found too.
proof fn lemma_argument_after(before: Seq<char>, paths: Seq<Seq<char>>)
    requires
        !before.contains('"'),
        forall|i: int| 0 <= i < paths.len() ==> !(#[trigger] paths[i]).contains('"'),
    ensures
        between_quotes(before + entry_link(EntryView::Local(paths)).argument) == paths,
    decreases paths.len(),
{
    let argument = entry_link(EntryView::Local(paths)).argument;
    let nothing = Seq::<char>::empty();
    if paths.len() == 0 {
        lemma_single_local_link(nothing);
        assert(paths =~= Seq::empty());
        assert(before + argument =~= before);
        lemma_split_at_first(before, nothing, '"');
    } else if paths.len() == 1 {
        lemma_single_local_link(paths[0]);
        assert(paths =~= seq![paths[0]]);
        lemma_between_quotes(before, paths[0], nothing);
        lemma_split_at_first(nothing, nothing, '"');
        assert(before + argument =~= before + seq!['"'] + paths[0] + seq!['"'] + nothing);
        assert(seq![paths[0]] + between_quotes(nothing) =~= paths);
    } else {
        let rest = paths.skip(1);
        let more = entry_link(EntryView::Local(rest)).argument;
        assert forall|i: int| 0 <= i < rest.len() implies !(#[trigger] rest[i]).contains('"') by {
            assert(rest[i] == paths[i + 1]);
        }
        lemma_argument_after(seq![' '], rest);
        lemma_local_link_of_more(paths[0], rest);
        assert(paths =~= seq![paths[0]] + rest);
        lemma_between_quotes(before, paths[0], seq![' '] + more);
        assert(before + argument =~= before + seq!['"'] + paths[0] + seq!['"'] + (seq![' ']
            + more));
    }
}

/// The arguments of a local link, taken out of the quotes, are the paths of the entry, in order,
/// if none of them holds a quote.
pub proof fn lemma_argument_gives_paths(paths: Seq<Seq<char>>)
    requires
        forall|i: int| 0 <= i < paths.len() ==> !(#[trigger] paths[i]).contains('"'),
    ensures
        between_quotes(entry_link(EntryView::Local(paths)).argument) == paths,
{
    let argument = entry_link(EntryView::Local(paths)).argument;
    lemma_argument_after(Seq::empty(), paths);
    assert(Seq::<char>::empty() + argument =~= argument);
}

/// The link of a remote workspace has its URL as description and, in quotes, as argument. Its title
/// is that of the folders, and the scheme and the target of the connection in brackets.
pub proof fn lemma_remote_link(connection: ConnectionView, paths: Seq<Seq<char>>)
    ensures
        ({
            let link = entry_link(EntryView::Remote { connection, paths });
            let folders = entry_link(EntryView::Local(paths)).display;
            &&& link.argument == seq!['"'] + link.description + seq!['"']
            &&& link.icon == Some("explorer.exe"@)
            &&& link.display == match connection {
                ConnectionView::Ssh { host, .. } => folders + " [ssh: "@ + host + "]"@,
                ConnectionView::Wsl { distro, .. } => folders + " [wsl: "@ + distro + "]"@,
                ConnectionView::Docker { name } => folders + " [docker: "@ + name + "]"@,
            }
        }),
{
    reveal_strlit("\"");
    reveal_strlit(" [");
    reveal_strlit(": ");
    reveal_strlit("]");
    reveal_strlit("ssh");
    reveal_strlit("wsl");
    reveal_strlit("docker");
    reveal_strlit(" [ssh: ");
    reveal_strlit(" [wsl: ");
    reveal_strlit(" [docker: ");
    assert("\""@ =~= seq!['"']);
    assert(" ["@ + "ssh"@ + ": "@ =~= " [ssh: "@);
    assert(" ["@ + "wsl"@ + ": "@ =~= " [wsl: "@);
    assert(" ["@ + "docker"@ + ": "@ =~= " [docker: "@);
    let folders = entry_link(EntryView::Local(paths)).display;
    let target = target_of(connection);
    assert(folders + " ["@ + "ssh"@ + ": "@ + target + "]"@ =~= folders + (" ["@ + "ssh"@ + ": "@)
        + target + "]"@);
    assert(folders + " ["@ + "wsl"@ + ": "@ + target + "]"@ =~= folders + (" ["@ + "wsl"@ + ": "@)
        + target + "]"@);
    assert(folders + " ["@ + "docker"@ + ": "@ + target + "]"@ =~= folders + (" ["@ + "docker"@
        + ": "@) + target + "]"@);
}

/// What is shown of two lists, one behind the other, is what is shown of the first and then what is
/// shown of the second; a single entry is shown unless an equal one was removed. So the order is
/// kept, and nothing is shown more or less often.
pub proof fn lemma_shown_concatenation(
    entries: Seq<EntryView>,
    more: Seq<EntryView>,
    removed: Seq<EntryView>,
)
    ensures
        shown_entries(entries + more, removed) == shown_entries(entries, removed) + shown_entries(
            more,
            removed,
        ),
        entries.len() == 0 ==> shown_entries(entries, removed).len() == 0,
        entries.len() == 1 ==> shown_entries(entries, removed) == if contains_entry(
            removed,
            entries[0],
        ) {
            Seq::empty()
        } else {
            entries
        },
    decreases more.len(),
{
    if entries.len() == 1 {
        assert(entries.drop_last() =~= Seq::empty());
        assert(entries =~= Seq::empty().push(entries[0]));
        assert(shown_entries(entries.drop_last(), removed) =~= Seq::empty());
    }
    if more.len() == 0 {
        assert(entries + more =~= entries);
        assert(shown_entries(entries, removed) + shown_entries(more, removed) =~= shown_entries(
            entries,
            removed,
        ));
    } else {
        lemma_shown_concatenation(entries, more.drop_last(), removed);
        assert((entries + more).drop_last() =~= entries + more.drop_last());
        assert((entries + more).last() == more.last());
    }
}

/// There is a link for each entry that is shown, in order, and it is the link of that entry.
pub proof fn lemma_recent_links(entries: Seq<EntryView>, removed: Seq<EntryView>)
    ensures
        recent_links(entries, removed).len() == shown_entries(entries, removed).len(),
        forall|i: int|
            0 <= i < shown_entries(entries, removed).len() ==> #[trigger] recent_links(
                entries,
                removed,
            )[i] == entry_link(shown_entries(entries, removed)[i]),
{
}

/// There is a link for each task, in order, which passes on the index of the task and has its name
/// and description.
pub proof fn lemma_task_links<A>(dock_menus: Seq<DockMenuItem<A>>)
    ensures
        task_links(dock_menus).len() == dock_menus.len(),
        forall|i: int|
            0 <= i < dock_menus.len() ==> #[trigger] task_links(dock_menus)[i] == (LinkView {
                argument: "--dock-action "@ + decimal(i as nat),
                description: dock_menus[i].description@,
                icon: None,
                display: dock_menus[i].name@,
            }),
{
}

/// An entry is shown that differs from every removed one in the connection, in the number of paths,
/// or in the components of a path.
pub proof fn lemma_other_entry_is_shown(
    entries: Seq<EntryView>,
    removed: Seq<EntryView>,
    entry: EntryView,
)
    requires
        entries.contains(entry),
        forall|k: int|
            0 <= k < removed.len() ==> connection_of(#[trigger] removed[k]) != connection_of(entry)
                || paths_of(removed[k]).len() != paths_of(entry).len() || exists|i: int|
                0 <= i < paths_of(entry).len() && #[trigger] paths_of(removed[k])[i] != paths_of(
                    entry,
                )[i] && !equal_components(paths_of(removed[k])[i], paths_of(entry)[i]),
    ensures
        shown_entries(entries, removed).contains(entry),
{
    lemma_contains_entry(removed, entry);
    lemma_shown_entries(entries, removed);
}

/// A description ends before the first zero, whatever comes behind it, and with the buffer where
/// there is none.
pub proof fn lemma_description_ends_at_zero(units: Seq<u16>, padding: Seq<u16>)
    requires
        forall|i: int| 0 <= i < units.len() ==> units[i] != 0,
    ensures
        description_in(units + seq![0u16] + padding) == utf16_text(units),
        description_in(units) == utf16_text(units),
        entry_in(units + seq![0u16] + padding) == described_entry(
            parsed_url(utf16_text(units)),
            utf16_text(units),
        ),
{
    let buffer = units + seq![0u16] + padding;
    assert(forall|i: int| 0 <= i < units.len() ==> buffer[i] == units[i]);
    lemma_terminated_length(buffer, units.len() as int);
    lemma_terminated_length(units, units.len() as int);
    assert(buffer.take(units.len() as int) =~= units);
    assert(units.take(units.len() as int) =~= units);
}

/// The value of a link is that of its components, and that of links is the value of each, in order.
pub proof fn lemma_link_values(links: Seq<ShellLink>)
    ensures
        link_views(links).len() == links.len(),
        forall|i: int|
            0 <= i < links.len() ==> {
                &&& (#[trigger] link_views(links)[i]).argument == links[i].argument@
                &&& link_views(links)[i].description == links[i].description@
                &&& link_views(links)[i].icon is Some <==> links[i].icon is Some
                &&& links[i].icon is Some ==> link_views(links)[i].icon->0 == links[i].icon->0@
                &&& link_views(links)[i].display == links[i].display@
            },
{
}

} // verus!
