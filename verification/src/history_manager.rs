//! The history of the workspaces that have been opened, and what the jump list shows of it.

use vstd::prelude::*;
use vstd::seq_lib::lemma_seq_contains_after_push;
use vstd::string::*;

use crate::destination_list::entry_behind;
use crate::destination_list::entry_link;
use crate::destination_list::is_found_again;
use crate::destination_list::lemma_shown_from_front;
use crate::destination_list::shown_entries;
use crate::destination_list::MenuItem;
use crate::entry::connection_of;
use crate::entry::contains_entry;
use crate::entry::entry_views;
use crate::entry::has_entry;
use crate::entry::lemma_contains_entry;
use crate::entry::optional_text;
use crate::entry::paths_of;
use crate::entry::same_entry;
use crate::entry::ConnectionView;
use crate::entry::EntryView;
use crate::entry::JumpListEntry;
use crate::entry::RemoteConnectionInfo;
use crate::paths::equal_components;
use crate::paths::EntryPaths;
use crate::text::decimal;
use crate::text::decimal_text;
use crate::text::texts;

verus! {

/// What a workspace is stored under.
#[derive(Debug, PartialEq, Eq, Structural, Clone, Copy)]
pub struct WorkspaceId(pub i64);

#[derive(Debug)]
pub struct SshConnectionOptions {
    pub username: Option<String>,
    pub host: String,
    pub port: Option<u16>,
}

#[derive(Debug)]
pub struct WslConnectionOptions {
    pub distro_name: String,
    pub user: Option<String>,
}

#[derive(Debug)]
pub struct DockerConnectionOptions {
    pub name: String,
}

#[derive(Debug)]
pub struct MockConnectionOptions {
    pub id: u64,
}

/// How a remote workspace was opened.
#[derive(Debug)]
pub enum RemoteConnectionOptions {
    Ssh(SshConnectionOptions),
    Wsl(WslConnectionOptions),
    Docker(DockerConnectionOptions),
    /// A connection for tests.
    Mock(MockConnectionOptions),
}

/// Where a workspace is.
#[derive(Debug)]
pub enum SerializedWorkspaceLocation {
    Local,
    Remote(RemoteConnectionOptions),
}

/// A workspace of the history.
#[derive(Debug)]
pub struct HistoryManagerEntry {
    pub id: WorkspaceId,
    pub location: SerializedWorkspaceLocation,
    pub paths: EntryPaths,
}

/// The connection that the jump list shows for a remote workspace. A connection for tests looks
/// like SSH to a host that is named after it.
pub open spec fn connection_info(options: RemoteConnectionOptions) -> ConnectionView {
    match options {
        RemoteConnectionOptions::Ssh(options) => ConnectionView::Ssh {
            username: optional_text(options.username),
            host: options.host@,
            port: options.port,
        },
        RemoteConnectionOptions::Wsl(options) => ConnectionView::Wsl {
            distro: options.distro_name@,
            user: optional_text(options.user),
        },
        RemoteConnectionOptions::Docker(options) => ConnectionView::Docker { name: options.name@ },
        RemoteConnectionOptions::Mock(options) => ConnectionView::Ssh {
            username: None,
            host: "mock-"@ + decimal(options.id as nat),
            port: None,
        },
    }
}

/// The entry of the jump list for a workspace with `paths` at `location`.
pub open spec fn located_entry(
    location: SerializedWorkspaceLocation,
    paths: Seq<Seq<char>>,
) -> EntryView {
    match location {
        SerializedWorkspaceLocation::Local => EntryView::Local(paths),
        SerializedWorkspaceLocation::Remote(options) => EntryView::Remote {
            connection: connection_info(options),
            paths,
        },
    }
}

/// The entry of the jump list for a workspace.
pub open spec fn jump_entry(entry: HistoryManagerEntry) -> EntryView {
    located_entry(entry.location, entry.paths@)
}

impl HistoryManagerEntry {
    /// The workspace stored under `id`, at `location`, with `paths`.
    pub fn new(
        id: WorkspaceId,
        location: SerializedWorkspaceLocation,
        paths: &Vec<String>,
    ) -> (entry: Self)
        ensures
            entry.id == id,
            entry.location == location,
            entry.paths@ == texts(paths@),
            entry.paths@.len() == paths@.len(),
            forall|i: int| 0 <= i < paths@.len() ==> #[trigger] entry.paths@[i] == paths@[i]@,
    {
        HistoryManagerEntry { id, location, paths: EntryPaths::from_texts(paths) }
    }

    /// The entry of the jump list for this workspace.
    pub fn to_jump_list_entry(&self) -> (entry: JumpListEntry)
        ensures
            entry@ == jump_entry(*self),
            paths_of(entry@) == self.paths@,
            self.location is Local <==> connection_of(entry@) is None,
            self.location matches SerializedWorkspaceLocation::Remote(options) ==> match options {
                RemoteConnectionOptions::Ssh(options) => connection_of(entry@) == Some(
                    ConnectionView::Ssh {
                        username: optional_text(options.username),
                        host: options.host@,
                        port: options.port,
                    },
                ),
                RemoteConnectionOptions::Wsl(options) => connection_of(entry@) == Some(
                    ConnectionView::Wsl {
                        distro: options.distro_name@,
                        user: optional_text(options.user),
                    },
                ),
                RemoteConnectionOptions::Docker(options) => connection_of(entry@) == Some(
                    ConnectionView::Docker { name: options.name@ },
                ),
                RemoteConnectionOptions::Mock(options) => connection_of(entry@) == Some(
                    ConnectionView::Ssh {
                        username: None,
                        host: "mock-"@ + decimal(options.id as nat),
                        port: None,
                    },
                ),
            },
    {
        match &self.location {
            SerializedWorkspaceLocation::Local => JumpListEntry::Local(self.paths.clone()),
            SerializedWorkspaceLocation::Remote(options) => {
                let connection = match options {
                    RemoteConnectionOptions::Ssh(options) => RemoteConnectionInfo::Ssh {
                        username: options.username.clone(),
                        host: options.host.clone(),
                        port: options.port,
                    },
                    RemoteConnectionOptions::Wsl(options) => RemoteConnectionInfo::Wsl {
                        distro: options.distro_name.clone(),
                        user: options.user.clone(),
                    },
                    RemoteConnectionOptions::Docker(options) => RemoteConnectionInfo::Docker {
                        name: options.name.clone(),
                    },
                    RemoteConnectionOptions::Mock(options) => RemoteConnectionInfo::Ssh {
                        username: None,
                        host: "mock-".to_owned().concat(decimal_text(options.id).as_str()),
                        port: None,
                    },
                };
                JumpListEntry::Remote { connection, paths: self.paths.clone() }
            },
        }
    }
}

/// The workspaces that have been opened. The most recent one comes last.
pub struct HistoryManager {
    history: Vec<HistoryManagerEntry>,
}

impl View for HistoryManager {
    type V = Seq<HistoryManagerEntry>;

    closed spec fn view(&self) -> Seq<HistoryManagerEntry> {
        self.history@
    }
}

/// Where the history first has a workspace stored under `id`.
pub open spec fn position_of(history: Seq<HistoryManagerEntry>, id: WorkspaceId) -> Option<int>
    decreases history.len(),
{
    if history.len() == 0 {
        None
    } else if history[0].id == id {
        Some(0)
    } else {
        match position_of(history.skip(1), id) {
            Some(i) => Some(i + 1),
            None => None,
        }
    }
}

/// The history without the first workspace stored under `id`.
pub open spec fn without(history: Seq<HistoryManagerEntry>, id: WorkspaceId) -> Seq<
    HistoryManagerEntry,
> {
    match position_of(history, id) {
        Some(i) => history.remove(i),
        None => history,
    }
}

/// The history after `entry` was opened in place of the workspace stored under `id`.
pub open spec fn updated(
    history: Seq<HistoryManagerEntry>,
    id: WorkspaceId,
    entry: HistoryManagerEntry,
) -> Seq<HistoryManagerEntry> {
    without(history, id).push(entry)
}

/// The entries of the jump list: the most recent workspace comes first.
pub open spec fn jump_entries(history: Seq<HistoryManagerEntry>) -> Seq<EntryView> {
    Seq::new(history.len(), |i: int| jump_entry(history[history.len() - 1 - i]))
}

/// The workspaces that are not among those that the user has removed from the jump list.
pub open spec fn remaining(
    history: Seq<HistoryManagerEntry>,
    removed: Seq<EntryView>,
) -> Seq<HistoryManagerEntry>
    decreases history.len(),
{
    if history.len() == 0 {
        Seq::empty()
    } else if contains_entry(removed, jump_entry(history.last())) {
        remaining(history.drop_last(), removed)
    } else {
        remaining(history.drop_last(), removed).push(history.last())
    }
}

/// What the workspaces are stored under that the user has removed, the most recent one first.
pub open spec fn removed_ids(
    history: Seq<HistoryManagerEntry>,
    removed: Seq<EntryView>,
) -> Seq<WorkspaceId>
    decreases history.len(),
{
    if history.len() == 0 {
        Seq::empty()
    } else if contains_entry(removed, jump_entry(history.last())) {
        seq![history.last().id] + removed_ids(history.drop_last(), removed)
    } else {
        removed_ids(history.drop_last(), removed)
    }
}

/// What the jump list is to be updated with.
pub struct JumpListRequest<A> {
    pub menus: Vec<MenuItem<A>>,
    pub entries: Vec<JumpListEntry>,
}

impl<A> JumpListRequest<A> {
    /// Whether the request shows `history`, and a task that opens a new window.
    pub open spec fn shows(self, history: Seq<HistoryManagerEntry>, new_window: A) -> bool {
        &&& entry_views(self.entries@) == jump_entries(history)
        &&& self.menus@.len() == 1
        &&& self.menus@[0] matches MenuItem::Action { name, action } && name@ == "New Window"@
            && action == new_window
    }
}

/// `position_of` is the least index of a workspace stored under the id.
pub proof fn lemma_position_of(history: Seq<HistoryManagerEntry>, id: WorkspaceId)
    ensures
        match position_of(history, id) {
            Some(i) => 0 <= i < history.len() && history[i].id == id && (forall|j: int|
                0 <= j < i ==> history[j].id != id),
            None => forall|j: int| 0 <= j < history.len() ==> history[j].id != id,
        },
    decreases history.len(),
{
    if history.len() > 0 && history[0].id != id {
        let rest = history.skip(1);
        lemma_position_of(rest, id);
        assert(forall|j: int| 1 <= j < history.len() ==> history[j] == rest[j - 1]);
    }
}

impl HistoryManager {
    /// An empty history.
    pub fn new() -> (manager: Self)
        ensures
            manager@ == Seq::<HistoryManagerEntry>::empty(),
    {
        HistoryManager { history: Vec::new() }
    }

    /// The workspaces, the most recent one last.
    pub fn history(&self) -> (history: &Vec<HistoryManagerEntry>)
        ensures
            history@ == self@,
    {
        &self.history
    }

    /// Fills the history with the workspaces that are stored, which come with the most recent one
    /// first. Where they cannot be had, the history is empty.
    pub fn init<A>(
        &mut self,
        stored: Option<Vec<(WorkspaceId, SerializedWorkspaceLocation, Vec<String>)>>,
        new_window: A,
    ) -> (request: JumpListRequest<A>)
        ensures
            match stored {
                Some(stored) => {
                    &&& final(self)@.len() == stored@.len()
                    &&& forall|i: int|
                        0 <= i < stored@.len() ==> {
                            let (id, location, paths) = stored@[stored@.len() - 1 - i];
                            let entry = #[trigger] final(self)@[i];
                            entry.id == id && entry.location == location && entry.paths@ == texts(
                                paths@,
                            )
                        }
                },
                None => final(self)@ == Seq::<HistoryManagerEntry>::empty(),
            },
            request.shows(final(self)@, new_window),
            stored matches Some(stored) ==> entry_views(request.entries@) == Seq::new(
                stored@.len(),
                |i: int| located_entry(stored@[i].1, texts(stored@[i].2@)),
            ),
            stored matches Some(stored) ==> (forall|i: int, j: int|
                0 <= i < j < stored@.len() ==> (#[trigger] stored@[i]).0 != (
                #[trigger] stored@[j]).0) ==> has_distinct_ids(final(self)@),
    {
        let mut history: Vec<HistoryManagerEntry> = Vec::new();
        let ghost all_stored = stored;
        if let Some(stored) = stored {
            let ghost all = stored@;
            let mut stored = stored;
            while stored.len() > 0
                invariant
                    stored@.len() + history@.len() == all.len(),
                    stored@ == all.take(stored@.len() as int),
                    forall|i: int|
                        0 <= i < history@.len() ==> {
                            let (id, location, paths) = all[all.len() - 1 - i];
                            let entry = #[trigger] history@[i];
                            entry.id == id && entry.location == location && entry.paths@ == texts(
                                paths@,
                            )
                        },
                decreases stored.len(),
            {
                if let Some((id, location, paths)) = stored.pop() {
                    history.push(HistoryManagerEntry::new(id, location, &paths));
                    assert(stored@ == all.take(stored@.len() as int));
                }
            }
        }
        self.history = history;
        let request = self.update_jump_list(new_window);
        proof {
            if let Some(stored) = all_stored {
                assert(entry_views(request.entries@) =~= Seq::new(
                    stored@.len(),
                    |i: int| located_entry(stored@[i].1, texts(stored@[i].2@)),
                ));
            }
        }
        request
    }

    /// Where the history first has a workspace stored under `id`.
    fn find(&self, id: WorkspaceId) -> (position: Option<usize>)
        ensures
            match position {
                Some(i) => position_of(self@, id) == Some(i as int),
                None => position_of(self@, id) is None,
            },
    {
        let mut i: usize = 0;
        while i < self.history.len()
            invariant
                i <= self.history.len(),
                forall|j: int| 0 <= j < i ==> self.history@[j].id != id,
            decreases self.history.len() - i,
        {
            if self.history[i].id == id {
                proof {
                    lemma_position_of(self@, id);
                }
                return Some(i);
            }
            i += 1;
        }
        proof {
            lemma_position_of(self@, id);
        }
        None
    }

    /// Puts `entry` last, in place of the workspace stored under `id`.
    pub fn update_history<A>(
        &mut self,
        id: WorkspaceId,
        entry: HistoryManagerEntry,
        new_window: A,
    ) -> (request: JumpListRequest<A>)
        ensures
            final(self)@ == updated(old(self)@, id, entry),
            request.shows(final(self)@, new_window),
            final(self)@.last() == entry,
            (forall|j: int| 0 <= j < old(self)@.len() ==> (#[trigger] old(self)@[j]).id != id)
                ==> final(self)@ == old(self)@.push(entry),
            forall|i: int|
                0 <= i < old(self)@.len() && (#[trigger] old(self)@[i]).id == id && (forall|j: int|
                    0 <= j < i ==> (#[trigger] old(self)@[j]).id != id) ==> {
                    &&& final(self)@.len() == old(self)@.len()
                    &&& forall|j: int| 0 <= j < i ==> #[trigger] final(self)@[j] == old(self)@[j]
                    &&& forall|j: int|
                        i <= j < old(self)@.len() - 1 ==> #[trigger] final(self)@[j] == old(
                            self,
                        )@[j + 1]
                },
            request.entries@.len() == final(self)@.len(),
            forall|i: int|
                0 <= i < final(self)@.len() ==> (#[trigger] request.entries@[i])@ == jump_entry(
                    final(self)@[final(self)@.len() - 1 - i],
                ),
    {
        proof {
            lemma_position_of(self@, id);
            lemma_without_unfound(self@, id);
            assert forall|i: int|
                0 <= i < self@.len() && (#[trigger] self@[i]).id == id && (forall|j: int|
                    0 <= j < i ==> (#[trigger] self@[j]).id != id) implies without(self@, id)
                == self@.remove(i) by {
                lemma_without(self@, id, i);
            }
        }
        if let Some(i) = self.find(id) {
            self.history.remove(i);
        }
        self.history.push(entry);
        self.update_jump_list(new_window)
    }

    /// Takes out the workspace stored under `id`. If there is none, there is nothing to update.
    pub fn delete_history<A>(&mut self, id: WorkspaceId, new_window: A) -> (request: Option<
        JumpListRequest<A>,
    >)
        ensures
            final(self)@ == without(old(self)@, id),
            match request {
                Some(request) => position_of(old(self)@, id) is Some && request.shows(
                    final(self)@,
                    new_window,
                ),
                None => position_of(old(self)@, id) is None,
            },
            request is None <==> forall|j: int|
                0 <= j < old(self)@.len() ==> (#[trigger] old(self)@[j]).id != id,
            request is None ==> final(self)@ == old(self)@,
            forall|i: int|
                0 <= i < old(self)@.len() && (#[trigger] old(self)@[i]).id == id && (forall|j: int|
                    0 <= j < i ==> (#[trigger] old(self)@[j]).id != id) ==> {
                    &&& final(self)@.len() == old(self)@.len() - 1
                    &&& forall|j: int| 0 <= j < i ==> #[trigger] final(self)@[j] == old(self)@[j]
                    &&& forall|j: int|
                        i <= j < final(self)@.len() ==> #[trigger] final(self)@[j] == old(self)@[j
                            + 1]
                },
            request matches Some(request) ==> request.entries@.len() == final(self)@.len()
                && forall|i: int|
                0 <= i < final(self)@.len() ==> (#[trigger] request.entries@[i])@ == jump_entry(
                    final(self)@[final(self)@.len() - 1 - i],
                ),
    {
        proof {
            lemma_position_of(self@, id);
            assert forall|i: int|
                0 <= i < self@.len() && (#[trigger] self@[i]).id == id && (forall|j: int|
                    0 <= j < i ==> (#[trigger] self@[j]).id != id) implies without(self@, id)
                == self@.remove(i) by {
                lemma_without(self@, id, i);
            }
        }
        match self.find(id) {
            Some(i) => {
                self.history.remove(i);
                Some(self.update_jump_list(new_window))
            },
            None => None,
        }
    }

    /// What the jump list is to show: the workspaces, the most recent one first, and a task that
    /// opens a new window.
    pub fn update_jump_list<A>(&self, new_window: A) -> (request: JumpListRequest<A>)
        ensures
            request.shows(self@, new_window),
            request.entries@.len() == self@.len(),
            forall|i: int|
                0 <= i < self@.len() ==> (#[trigger] request.entries@[i])@ == jump_entry(
                    self@[self@.len() - 1 - i],
                ),
            request.menus@.len() == 1,
            request.menus@[0] matches MenuItem::Action { name, action } && name@ == "New Window"@
                && action == new_window,
    {
        let mut menus: Vec<MenuItem<A>> = Vec::new();
        menus.push(MenuItem::Action { name: "New Window".to_owned(), action: new_window });
        let ghost wanted = jump_entries(self@);
        let mut entries: Vec<JumpListEntry> = Vec::new();
        let mut left: usize = self.history.len();
        while left > 0
            invariant
                left <= self.history@.len(),
                wanted == jump_entries(self.history@),
                entry_views(entries@) == wanted.take(self.history@.len() - left),
            decreases left,
        {
            let ghost before = entries@;
            left -= 1;
            entries.push(self.history[left].to_jump_list_entry());
            proof {
                let i = self.history@.len() - left - 1;
                assert(entry_views(entries@) == entry_views(before).push(wanted[i]));
                assert(wanted.take(i + 1) == wanted.take(i).push(wanted[i]));
            }
        }
        assert(wanted.take(self.history@.len() as int) == wanted);
        let request = JumpListRequest { menus, entries };
        proof {
            lemma_shows(request, self@, new_window);
        }
        request
    }

    /// Takes out the workspaces that the user has removed from the jump list. Gives what they are
    /// stored under, to be deleted there too.
    pub fn remove_user_removed_workspaces(&mut self, user_removed: &Vec<JumpListEntry>) -> (ids: Vec<
        WorkspaceId,
    >)
        ensures
            final(self)@ == remaining(old(self)@, entry_views(user_removed@)),
            ids@ == removed_ids(old(self)@, entry_views(user_removed@)),
    {
        let ghost initial = self.history@;
        let ghost removed = entry_views(user_removed@);
        let mut ids: Vec<WorkspaceId> = Vec::new();
        if user_removed.len() == 0 {
            proof {
                lemma_nothing_removed(initial, removed);
            }
            return ids;
        }
        let mut left: usize = self.history.len();
        assert(initial.take(left as int) == initial);
        while left > 0
            invariant
                removed == entry_views(user_removed@),
                left <= self.history@.len(),
                left <= initial.len(),
                self.history@.take(left as int) == initial.take(left as int),
                remaining(self.history@, removed) == remaining(initial, removed),
                forall|j: int|
                    left <= j < self.history@.len() ==> !contains_entry(
                        removed,
                        jump_entry(#[trigger] self.history@[j]),
                    ),
                ids@ + removed_ids(initial.take(left as int), removed) == removed_ids(
                    initial,
                    removed,
                ),
            decreases left,
        {
            let ghost before = self.history@;
            let ghost ids_before = ids@;
            left -= 1;
            proof {
                assert(before[left as int] == before.take(left + 1)[left as int]);
                assert(initial[left as int] == initial.take(left + 1)[left as int]);
                assert(initial.take(left + 1).drop_last() == initial.take(left as int));
                assert(before.take(left as int) == before.take(left + 1).take(left as int));
                assert(initial.take(left as int) == initial.take(left + 1).take(left as int));
            }
            let jump_entry = self.history[left].to_jump_list_entry();
            if has_entry(user_removed, &jump_entry) {
                ids.push(self.history[left].id);
                self.history.remove(left);
                proof {
                    lemma_remaining_without(before, removed, left as int);
                    assert(self.history@.take(left as int) == before.take(left as int));
                    assert(forall|j: int|
                        left <= j < self.history@.len() ==> self.history@[j] == before[j + 1]);
                    assert(ids@ + removed_ids(initial.take(left as int), removed) == ids_before + (
                    seq![initial[left as int].id] + removed_ids(
                        initial.take(left as int),
                        removed,
                    )));
                }
            }
        }
        proof {
            assert(initial.take(0) == Seq::<HistoryManagerEntry>::empty());
            assert(ids@ + Seq::empty() == ids@);
            lemma_nothing_removed(self.history@, removed);
        }
        ids
    }
}

/// A history without removed workspaces remains as it is.
proof fn lemma_nothing_removed(history: Seq<HistoryManagerEntry>, removed: Seq<EntryView>)
    requires
        forall|i: int|
            0 <= i < history.len() ==> !contains_entry(removed, jump_entry(#[trigger] history[i])),
    ensures
        remaining(history, removed) == history,
        removed_ids(history, removed) == Seq::<WorkspaceId>::empty(),
    decreases history.len(),
{
    if history.len() > 0 {
        let front = history.drop_last();
        assert(forall|i: int| 0 <= i < front.len() ==> front[i] == history[i]);
        lemma_nothing_removed(front, removed);
        assert(history[history.len() - 1] == history.last());
        assert(front.push(history.last()) == history);
    }
}

/// Taking out a removed workspace changes nothing of what remains.
proof fn lemma_remaining_without(
    history: Seq<HistoryManagerEntry>,
    removed: Seq<EntryView>,
    index: int,
)
    requires
        0 <= index < history.len(),
        contains_entry(removed, jump_entry(history[index])),
    ensures
        remaining(history.remove(index), removed) == remaining(history, removed),
    decreases history.len(),
{
    let shorter = history.remove(index);
    if index == history.len() - 1 {
        assert(shorter == history.drop_last());
    } else {
        lemma_remaining_without(history.drop_last(), removed, index);
        assert(shorter.drop_last() == history.drop_last().remove(index));
        assert(shorter.last() == history.last());
    }
}

/// A history in which nothing is stored under an id has nothing to take out.
pub proof fn lemma_without_unfound(history: Seq<HistoryManagerEntry>, id: WorkspaceId)
    ensures
        (forall|j: int| 0 <= j < history.len() ==> (#[trigger] history[j]).id != id) ==> without(
            history,
            id,
        ) == history,
{
    lemma_position_of(history, id);
}

/// Taking out the workspace of an id leaves every other one, in the same order: those before it
/// stay where they are, and those behind it move up by one.
pub proof fn lemma_without(history: Seq<HistoryManagerEntry>, id: WorkspaceId, index: int)
    requires
        0 <= index < history.len(),
        history[index].id == id,
        forall|j: int| 0 <= j < index ==> (#[trigger] history[j]).id != id,
    ensures
        position_of(history, id) == Some(index),
        without(history, id) == history.remove(index),
        without(history, id).len() == history.len() - 1,
        forall|j: int| 0 <= j < index ==> #[trigger] without(history, id)[j] == history[j],
        forall|j: int|
            index <= j < history.len() - 1 ==> #[trigger] without(history, id)[j] == history[j + 1],
{
    lemma_position_of(history, id);
}

/// Opening a workspace puts it behind all others, and leaves these as taking out the older version
/// does.
pub proof fn lemma_updated(
    history: Seq<HistoryManagerEntry>,
    id: WorkspaceId,
    entry: HistoryManagerEntry,
)
    ensures
        updated(history, id, entry).len() == without(history, id).len() + 1,
        updated(history, id, entry).last() == entry,
        updated(history, id, entry).drop_last() == without(history, id),
{
    assert(updated(history, id, entry).drop_last() =~= without(history, id));
}

/// A request shows the workspaces one by one, the last of the history first, and exactly one task.
pub proof fn lemma_shows<A>(
    request: JumpListRequest<A>,
    history: Seq<HistoryManagerEntry>,
    new_window: A,
)
    requires
        request.shows(history, new_window),
    ensures
        request.entries@.len() == history.len(),
        forall|i: int|
            0 <= i < history.len() ==> (#[trigger] request.entries@[i])@ == jump_entry(
                history[history.len() - 1 - i],
            ),
        request.menus@.len() == 1,
        request.menus@[0] matches MenuItem::Action { name, action } && name@ == "New Window"@
            && action == new_window,
{
    assert(entry_views(request.entries@).len() == request.entries@.len());
    assert forall|i: int| 0 <= i < history.len() implies (#[trigger] request.entries@[i])@
        == jump_entry(history[history.len() - 1 - i]) by {
        assert(entry_views(request.entries@)[i] == request.entries@[i]@);
    }
}

/// The jump list has one entry for each workspace, and the last workspace comes first.
pub proof fn lemma_jump_entries(history: Seq<HistoryManagerEntry>)
    ensures
        jump_entries(history).len() == history.len(),
        forall|i: int|
            0 <= i < history.len() ==> #[trigger] jump_entries(history)[i] == jump_entry(
                history[history.len() - 1 - i],
            ),
{
}

/// The entry of a workspace has its paths, and the components of its connection.
pub proof fn lemma_jump_entry(entry: HistoryManagerEntry)
    ensures
        paths_of(jump_entry(entry)) == entry.paths@,
        entry.location is Local <==> connection_of(jump_entry(entry)) is None,
        entry.location matches SerializedWorkspaceLocation::Remote(options) ==> match options {
            RemoteConnectionOptions::Ssh(options) => connection_of(jump_entry(entry)) == Some(
                ConnectionView::Ssh {
                    username: optional_text(options.username),
                    host: options.host@,
                    port: options.port,
                },
            ),
            RemoteConnectionOptions::Wsl(options) => connection_of(jump_entry(entry)) == Some(
                ConnectionView::Wsl {
                    distro: options.distro_name@,
                    user: optional_text(options.user),
                },
            ),
            RemoteConnectionOptions::Docker(options) => connection_of(jump_entry(entry)) == Some(
                ConnectionView::Docker { name: options.name@ },
            ),
            RemoteConnectionOptions::Mock(options) => connection_of(jump_entry(entry)) == Some(
                ConnectionView::Ssh {
                    username: None,
                    host: "mock-"@ + decimal(options.id as nat),
                    port: None,
                },
            ),
        },
{
}

/// What remains of two histories, one behind the other, is what remains of the first and then what
/// remains of the second, and the ids come from the second and then from the first; a single
/// workspace remains unless an equal entry was removed, and else its id is given. So the order is
/// kept, and every workspace counts once.
pub proof fn lemma_remaining_concatenation(
    history: Seq<HistoryManagerEntry>,
    more: Seq<HistoryManagerEntry>,
    removed: Seq<EntryView>,
)
    ensures
        remaining(history + more, removed) == remaining(history, removed) + remaining(more, removed),
        removed_ids(history + more, removed) == removed_ids(more, removed) + removed_ids(
            history,
            removed,
        ),
        history.len() == 0 ==> remaining(history, removed).len() == 0 && removed_ids(
            history,
            removed,
        ).len() == 0,
        history.len() == 1 ==> if contains_entry(removed, jump_entry(history[0])) {
            remaining(history, removed).len() == 0 && removed_ids(history, removed)
                == seq![history[0].id]
        } else {
            remaining(history, removed) == history && removed_ids(history, removed).len() == 0
        },
    decreases more.len(),
{
    if history.len() == 1 {
        assert(history.drop_last() =~= Seq::empty());
        assert(history =~= Seq::empty().push(history[0]));
        assert(remaining(history.drop_last(), removed) =~= Seq::empty());
        assert(removed_ids(history.drop_last(), removed) =~= Seq::empty());
        assert(seq![history[0].id] + Seq::empty() =~= seq![history[0].id]);
    }
    if more.len() == 0 {
        assert(history + more =~= history);
        assert(remaining(history, removed) + remaining(more, removed) =~= remaining(
            history,
            removed,
        ));
        assert(removed_ids(more, removed) + removed_ids(history, removed) =~= removed_ids(
            history,
            removed,
        ));
    } else {
        lemma_remaining_concatenation(history, more.drop_last(), removed);
        assert((history + more).drop_last() =~= history + more.drop_last());
        assert((history + more).last() == more.last());
        assert(seq![more.last().id] + (removed_ids(more.drop_last(), removed) + removed_ids(
            history,
            removed,
        )) =~= seq![more.last().id] + removed_ids(more.drop_last(), removed) + removed_ids(
            history,
            removed,
        ));
    }
}

/// A workspace stays in the history whose entry differs from every removed one in the connection, in
/// the number of paths, or in the components of a path; one leaves it whose entry differs from some
/// removed one in none of these.
pub proof fn lemma_other_workspace_stays(
    history: Seq<HistoryManagerEntry>,
    removed: Seq<EntryView>,
    entry: HistoryManagerEntry,
)
    requires
        history.contains(entry),
    ensures
        remaining(history, removed).contains(entry) <==> forall|k: int|
            0 <= k < removed.len() ==> connection_of(#[trigger] removed[k]) != connection_of(
                jump_entry(entry),
            ) || paths_of(removed[k]).len() != entry.paths@.len() || exists|i: int|
                0 <= i < entry.paths@.len() && #[trigger] paths_of(removed[k])[i] != entry.paths@[i]
                    && !equal_components(paths_of(removed[k])[i], entry.paths@[i]),
{
    lemma_jump_entry(entry);
    lemma_contains_entry(removed, jump_entry(entry));
    lemma_remaining(history, removed);
}

/// Whether no two workspaces are stored under the same id.
pub open spec fn has_distinct_ids(history: Seq<HistoryManagerEntry>) -> bool {
    forall|i: int, j: int|
        0 <= i < j < history.len() ==> (#[trigger] history[i]).id != (#[trigger] history[j]).id
}

/// Taking out a workspace keeps the ids distinct, and leaves none stored under its id.
pub proof fn lemma_without_distinct(history: Seq<HistoryManagerEntry>, id: WorkspaceId)
    requires
        has_distinct_ids(history),
    ensures
        has_distinct_ids(without(history, id)),
        position_of(without(history, id), id) is None,
{
    lemma_position_of(history, id);
    lemma_position_of(without(history, id), id);
    if let Some(i) = position_of(history, id) {
        let shorter = history.remove(i);
        assert(forall|j: int| 0 <= j < i ==> shorter[j] == history[j]);
        assert(forall|j: int| i <= j < shorter.len() ==> shorter[j] == history[j + 1]);
    }
}

/// Opening a workspace makes it the most recent one, and keeps the ids distinct exactly if none
/// of the others is stored under its id: always, if it is opened in place of an older version.
pub proof fn lemma_updated_distinct(
    history: Seq<HistoryManagerEntry>,
    id: WorkspaceId,
    entry: HistoryManagerEntry,
)
    requires
        has_distinct_ids(history),
    ensures
        updated(history, id, entry).last() == entry,
        has_distinct_ids(updated(history, id, entry)) <==> position_of(
            without(history, id),
            entry.id,
        ) is None,
        entry.id == id ==> has_distinct_ids(updated(history, id, entry)),
{
    let others = without(history, id);
    let longer = updated(history, id, entry);
    lemma_without_distinct(history, id);
    lemma_position_of(others, entry.id);
    assert(forall|j: int| 0 <= j < others.len() ==> longer[j] == others[j]);
    if let Some(i) = position_of(others, entry.id) {
        assert(longer[i].id == longer[longer.len() - 1].id);
    }
}

/// Deleting a workspace undoes that it was opened, but for an older version of it, if none of
/// the others is stored under its id.
pub proof fn lemma_delete_undoes_update(
    history: Seq<HistoryManagerEntry>,
    id: WorkspaceId,
    entry: HistoryManagerEntry,
)
    requires
        position_of(without(history, id), entry.id) is None,
    ensures
        without(updated(history, id, entry), entry.id) == without(history, id),
{
    let others = without(history, id);
    let longer = updated(history, id, entry);
    lemma_position_of(others, entry.id);
    lemma_position_of(longer, entry.id);
    assert(forall|j: int| 0 <= j < others.len() ==> longer[j] == others[j]);
    assert(longer[others.len() as int] == entry);
    assert(longer.remove(others.len() as int) =~= others);
}

/// Opening a workspace once more changes nothing, if none of the others is stored under its id.
pub proof fn lemma_update_idempotent(
    history: Seq<HistoryManagerEntry>,
    entry: HistoryManagerEntry,
)
    requires
        position_of(without(history, entry.id), entry.id) is None,
    ensures
        updated(updated(history, entry.id, entry), entry.id, entry) == updated(
            history,
            entry.id,
            entry,
        ),
{
    lemma_delete_undoes_update(history, entry.id, entry);
}

/// The workspace that was opened last heads the jump list.
pub proof fn lemma_updated_heads_jump_list(
    history: Seq<HistoryManagerEntry>,
    id: WorkspaceId,
    entry: HistoryManagerEntry,
)
    ensures
        jump_entries(updated(history, id, entry))[0] == jump_entry(entry),
        jump_entries(updated(history, id, entry)).skip(1) == jump_entries(without(history, id)),
{
    assert(jump_entries(updated(history, id, entry)).skip(1) =~= jump_entries(
        without(history, id),
    ));
}

/// A workspace remains exactly if the user has not removed it.
pub proof fn lemma_remaining(history: Seq<HistoryManagerEntry>, removed: Seq<EntryView>)
    ensures
        forall|entry: HistoryManagerEntry| #[trigger]
            remaining(history, removed).contains(entry) <==> history.contains(entry)
                && !contains_entry(removed, jump_entry(entry)),
    decreases history.len(),
{
    if history.len() > 0 {
        let front = history.drop_last();
        let last = history.last();
        let rest = remaining(front, removed);
        lemma_remaining(front, removed);
        assert(history == front.push(last));
        assert forall|entry: HistoryManagerEntry| #[trigger]
            remaining(history, removed).contains(entry) <==> history.contains(entry)
                && !contains_entry(removed, jump_entry(entry)) by {
            lemma_seq_contains_after_push(front, last, entry);
            lemma_seq_contains_after_push(rest, last, entry);
        }
    }
}

/// What the user has removed stays removed: nothing is left to take out a second time.
pub proof fn lemma_remaining_idempotent(
    history: Seq<HistoryManagerEntry>,
    removed: Seq<EntryView>,
)
    ensures
        remaining(remaining(history, removed), removed) == remaining(history, removed),
        removed_ids(remaining(history, removed), removed) == Seq::<WorkspaceId>::empty(),
{
    let rest = remaining(history, removed);
    lemma_remaining(history, removed);
    assert forall|i: int| 0 <= i < rest.len() implies !contains_entry(
        removed,
        jump_entry(#[trigger] rest[i]),
    ) by {
        assert(rest.contains(rest[i]));
    }
    lemma_nothing_removed(rest, removed);
}

/// Taking out what the user has removed keeps the ids distinct.
pub proof fn lemma_remaining_distinct(history: Seq<HistoryManagerEntry>, removed: Seq<EntryView>)
    requires
        has_distinct_ids(history),
    ensures
        has_distinct_ids(remaining(history, removed)),
    decreases history.len(),
{
    if history.len() > 0 {
        let front = history.drop_last();
        let rest = remaining(front, removed);
        assert(forall|i: int| 0 <= i < front.len() ==> front[i] == history[i]);
        lemma_remaining_distinct(front, removed);
        lemma_remaining(front, removed);
        assert forall|i: int| 0 <= i < rest.len() implies (#[trigger] rest[i]).id
            != history.last().id by {
            assert(rest.contains(rest[i]));
            let j = choose|j: int| 0 <= j < front.len() && front[j] == rest[i];
            assert(history[j].id != history[history.len() - 1].id);
        }
    }
}

/// Every workspace remains or is handed on for deletion, and nothing is handed on but what a
/// workspace is stored under that the user has removed.
pub proof fn lemma_removed_ids(history: Seq<HistoryManagerEntry>, removed: Seq<EntryView>)
    ensures
        forall|id: WorkspaceId| #[trigger]
            removed_ids(history, removed).contains(id) <==> exists|i: int|
                0 <= i < history.len() && (#[trigger] history[i]).id == id && contains_entry(
                    removed,
                    jump_entry(history[i]),
                ),
        remaining(history, removed).len() + removed_ids(history, removed).len() == history.len(),
    decreases history.len(),
{
    lemma_counts(history, removed);
    if history.len() > 0 {
        let front = history.drop_last();
        let last = history.last();
        let ids = removed_ids(history, removed);
        let front_ids = removed_ids(front, removed);
        lemma_removed_ids(front, removed);
        assert forall|id: WorkspaceId| #[trigger] ids.contains(id) <==> exists|i: int|
            0 <= i < history.len() && (#[trigger] history[i]).id == id && contains_entry(
                removed,
                jump_entry(history[i]),
            ) by {
            let offset: int = if contains_entry(removed, jump_entry(last)) {
                1
            } else {
                0
            };
            assert(forall|k: int| 0 <= k < front_ids.len() ==> front_ids[k] == ids[k + offset]);
            if ids.contains(id) {
                let k = choose|k: int| 0 <= k < ids.len() && ids[k] == id;
                if k < offset {
                    assert(history[history.len() - 1].id == id);
                } else {
                    assert(front_ids[k - offset] == id);
                    assert(front_ids.contains(id));
                    let i = choose|i: int|
                        0 <= i < front.len() && (#[trigger] front[i]).id == id && contains_entry(
                            removed,
                            jump_entry(front[i]),
                        );
                    assert(history[i] == front[i]);
                }
            }
            if exists|i: int|
                0 <= i < history.len() && (#[trigger] history[i]).id == id && contains_entry(
                    removed,
                    jump_entry(history[i]),
                ) {
                let i = choose|i: int|
                    0 <= i < history.len() && (#[trigger] history[i]).id == id && contains_entry(
                        removed,
                        jump_entry(history[i]),
                    );
                if i == history.len() - 1 {
                    assert(ids[0] == id);
                } else {
                    assert(front[i] == history[i]);
                    assert(front_ids.contains(id));
                    let k = choose|k: int| 0 <= k < front_ids.len() && front_ids[k] == id;
                    assert(ids[k + offset] == id);
                }
            }
        }
    }
}

/// Where the ids are distinct, no workspace remains whose id is handed on for deletion.
pub proof fn lemma_removed_ids_are_gone(
    history: Seq<HistoryManagerEntry>,
    removed: Seq<EntryView>,
    id: WorkspaceId,
)
    requires
        has_distinct_ids(history),
        removed_ids(history, removed).contains(id),
    ensures
        position_of(remaining(history, removed), id) is None,
{
    let rest = remaining(history, removed);
    lemma_removed_ids(history, removed);
    lemma_remaining(history, removed);
    lemma_position_of(rest, id);
    let i = choose|i: int|
        0 <= i < history.len() && (#[trigger] history[i]).id == id && contains_entry(
            removed,
            jump_entry(history[i]),
        );
    if let Some(k) = position_of(rest, id) {
        assert(rest.contains(rest[k]));
        let j = choose|j: int| 0 <= j < history.len() && history[j] == rest[k];
        assert(history[i].id == history[j].id);
        assert(i == j);
    }
}

/// The jump list shows what remains of the history once the removed workspaces are taken out, in
/// the same order.
pub proof fn lemma_jump_list_shows_what_remains(
    history: Seq<HistoryManagerEntry>,
    removed: Seq<EntryView>,
)
    ensures
        shown_entries(jump_entries(history), removed) == jump_entries(remaining(history, removed)),
    decreases history.len(),
{
    if history.len() == 0 {
        assert(jump_entries(history) =~= Seq::<EntryView>::empty());
        assert(jump_entries(remaining(history, removed)) =~= Seq::<EntryView>::empty());
    } else {
        let front = history.drop_last();
        let rest = remaining(front, removed);
        lemma_jump_list_shows_what_remains(front, removed);
        assert(jump_entries(history) =~= seq![jump_entry(history.last())] + jump_entries(front));
        lemma_shown_from_front(jump_entry(history.last()), jump_entries(front), removed);
        assert(jump_entries(rest.push(history.last())) =~= seq![jump_entry(history.last())]
            + jump_entries(rest));
    }
}

/// What remains and what is removed make up the history.
proof fn lemma_counts(history: Seq<HistoryManagerEntry>, removed: Seq<EntryView>)
    ensures
        remaining(history, removed).len() + removed_ids(history, removed).len() == history.len(),
    decreases history.len(),
{
    if history.len() > 0 {
        lemma_counts(history.drop_last(), removed);
    }
}

/// A workspace whose link the user has removed from the jump list leaves the history, if the
/// link leads back to an equal entry.
pub proof fn lemma_removed_link_leaves_history(
    history: Seq<HistoryManagerEntry>,
    removed: Seq<EntryView>,
    entry: HistoryManagerEntry,
)
    requires
        is_found_again(jump_entry(entry)),
        removed.contains(entry_behind(entry_link(jump_entry(entry)))),
    ensures
        !remaining(history, removed).contains(entry),
{
    lemma_remaining(history, removed);
    let i = choose|i: int|
        0 <= i < removed.len() && removed[i] == entry_behind(entry_link(jump_entry(entry)));
    assert(same_entry(removed[i], jump_entry(entry)));
}

} // verus!
