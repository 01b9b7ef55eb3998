//! The ordered set of managed clients.

mod focus;
mod stacking;
mod state;
mod workspaces;

use vstd::prelude::*;

use crate::client_map::ClientMap;
use crate::desk;
use crate::desk::Desk;
use crate::ids::{ClientId, WorkspaceId};
use crate::policy::{
    policy_with_decoration_override, Client, ClientRole, DecorationOverride, TransientTarget,
};
use crate::workspace::{WorkspaceAssignment, WorkspaceLayout};

verus! {

/// Ordered set of managed clients and focus history.
#[derive(Clone, Debug)]
pub struct ClientSet {
    clients: ClientMap,
    management_order: Vec<ClientId>,
    stacking: Vec<ClientId>,
    workspace_count: u32,
    current_workspace: WorkspaceId,
    last_workspace: WorkspaceId,
    workspace_layout: WorkspaceLayout,
    /// Focus histories of all workspaces in one list, most recent last.
    history: Vec<(WorkspaceId, ClientId)>,
    focused: Option<ClientId>,
    showing_desktop: bool,
}

/// The history of one workspace out of the common list.
pub open spec fn history_of(history: Seq<(WorkspaceId, ClientId)>, workspace: WorkspaceId) -> Seq<
    ClientId,
>
    decreases history.len(),
{
    if history.len() == 0 {
        Seq::empty()
    } else {
        let before = history_of(history.drop_last(), workspace);
        if history.last().0 == workspace {
            before.push(history.last().1)
        } else {
            before
        }
    }
}

/// Appending to the common list appends to one history.
proof fn lemma_history_push(
    history: Seq<(WorkspaceId, ClientId)>,
    entry: (WorkspaceId, ClientId),
    workspace: WorkspaceId,
)
    ensures
        history_of(history.push(entry), workspace) == (if entry.0 == workspace {
            history_of(history, workspace).push(entry.1)
        } else {
            history_of(history, workspace)
        }),
{
    assert(history.push(entry).drop_last() =~= history);
}

/// Taking one more entry of the common list extends one history.
proof fn lemma_history_take(
    history: Seq<(WorkspaceId, ClientId)>,
    index: int,
    workspace: WorkspaceId,
)
    requires
        0 <= index < history.len(),
    ensures
        history_of(history.take(index + 1), workspace) == (if history[index].0 == workspace {
            history_of(history.take(index), workspace).push(history[index].1)
        } else {
            history_of(history.take(index), workspace)
        }),
{
    assert(history.take(index + 1).drop_last() =~= history.take(index));
}

/// Taking out an identifier after appending another one.
proof fn lemma_without_push(ids: Seq<ClientId>, added: ClientId, id: ClientId)
    ensures
        desk::without(ids.push(added), id) == (if added == id {
            desk::without(ids, id)
        } else {
            desk::without(ids, id).push(added)
        }),
{
    assert(ids.push(added).drop_last() =~= ids);
}

/// What is left after an identifier was taken out.
pub(crate) proof fn lemma_without(ids: Seq<ClientId>, id: ClientId)
    ensures
        forall|x: ClientId| #[trigger] desk::without(ids, id).contains(x) <==> ids.contains(x) && x
            != id,
        ids.no_duplicates() ==> desk::without(ids, id).no_duplicates(),
        desk::without(ids, id).len() <= ids.len(),
    decreases ids.len(),
{
    let left = desk::without(ids, id);
    if ids.len() > 0 {
        let shorter = ids.drop_last();
        let before = desk::without(shorter, id);
        lemma_without(shorter, id);
        assert forall|x: ClientId| #[trigger] left.contains(x) <==> ids.contains(x) && x != id by {
            lemma_contains_last(ids, x);
            if ids.last() != id {
                lemma_contains_push(before, ids.last(), x);
            }
        }
        if ids.no_duplicates() {
            assert(shorter.no_duplicates());
            lemma_last_is_new(ids);
            if ids.last() != id {
                lemma_push_new(before, ids.last());
            }
        }
    }
}

pub(crate) proof fn lemma_contains_last(ids: Seq<ClientId>, x: ClientId)
    requires
        ids.len() > 0,
    ensures
        ids.contains(x) <==> ids.drop_last().contains(x) || ids.last() == x,
{
    let shorter = ids.drop_last();
    if ids.contains(x) {
        let i = choose|i: int| 0 <= i < ids.len() && ids[i] == x;
        if i < shorter.len() {
            assert(shorter[i] == x);
        }
    }
    if shorter.contains(x) {
        let i = choose|i: int| 0 <= i < shorter.len() && shorter[i] == x;
        assert(ids[i] == x);
    }
}

pub(crate) proof fn lemma_contains_push(ids: Seq<ClientId>, added: ClientId, x: ClientId)
    ensures
        ids.push(added).contains(x) <==> ids.contains(x) || added == x,
{
    assert(ids.push(added).drop_last() =~= ids);
    lemma_contains_last(ids.push(added), x);
}

pub(crate) proof fn lemma_last_is_new(ids: Seq<ClientId>)
    requires
        ids.len() > 0,
        ids.no_duplicates(),
    ensures
        !ids.drop_last().contains(ids.last()),
{
}

pub(crate) proof fn lemma_push_new(ids: Seq<ClientId>, added: ClientId)
    requires
        ids.no_duplicates(),
        !ids.contains(added),
    ensures
        ids.push(added).no_duplicates(),
{
    let pushed = ids.push(added);
    assert forall|i: int, j: int| 0 <= i < pushed.len() && 0 <= j < pushed.len() && i
        != j implies pushed[i] != pushed[j] by {
        if i < ids.len() && j < ids.len() {
            assert(ids[i] != ids[j]);
        } else if i < ids.len() {
            assert(ids.contains(ids[i]));
        } else {
            assert(ids.contains(ids[j]));
        }
    }
}

/// Distinct identifiers out of a distinct list are no more than the list.
pub(crate) proof fn lemma_sublist_len(part: Seq<ClientId>, all: Seq<ClientId>)
    requires
        part.no_duplicates(),
        forall|id: ClientId| #[trigger] part.contains(id) ==> all.contains(id),
    ensures
        part.len() <= all.len(),
{
    part.unique_seq_to_set();
    all.lemma_cardinality_of_set();
    assert(part.to_set().subset_of(all.to_set())) by {
        assert forall|id: ClientId| part.to_set().contains(id) implies all.to_set().contains(
            id,
        ) by {
            assert(part.contains(id));
            assert(all.contains(id));
        }
    }
    vstd::set_lib::lemma_len_subset(part.to_set(), all.to_set());
}

/// A distinct list of managed clients misses none once it is long enough.
pub(crate) proof fn lemma_full_list(part: Seq<ClientId>, all: Seq<ClientId>, id: ClientId)
    requires
        part.no_duplicates(),
        forall|x: ClientId| #[trigger] part.contains(x) ==> all.contains(x),
        all.contains(id),
        part.len() >= all.len(),
    ensures
        part.contains(id),
{
    if !part.contains(id) {
        lemma_push_new(part, id);
        assert forall|x: ClientId| #[trigger] part.push(id).contains(x) implies all.contains(
            x,
        ) by {
            lemma_contains_push(part, id, x);
        }
        lemma_sublist_len(part.push(id), all);
    }
}

/// The list with an identifier taken out.
fn retained(ids: &Vec<ClientId>, id: ClientId) -> (r: Vec<ClientId>)
    ensures
        r@ == desk::without(ids@, id),
{
    let mut r: Vec<ClientId> = Vec::new();
    let mut index: usize = 0;
    while index < ids.len()
        invariant
            index <= ids.len(),
            r@ == desk::without(ids@.take(index as int), id),
        decreases ids.len() - index,
    {
        assert(ids@.take(index + 1).drop_last() =~= ids@.take(index as int));
        if ids[index] != id {
            r.push(ids[index]);
        }
        index += 1;
    }
    assert(ids@.take(index as int) =~= ids@);
    r
}

pub(crate) fn holds(ids: &Vec<ClientId>, id: ClientId) -> (found: bool)
    ensures
        found == ids@.contains(id),
{
    let mut index: usize = 0;
    while index < ids.len()
        invariant
            index <= ids.len(),
            forall|i: int| 0 <= i < index ==> ids@[i] != id,
        decreases ids.len() - index,
    {
        if ids[index] == id {
            return true;
        }
        index += 1;
    }
    false
}

impl View for ClientSet {
    type V = Desk;

    closed spec fn view(&self) -> Desk {
        Desk {
            clients: self.clients@,
            managed: self.management_order@,
            stacking: self.stacking@,
            workspace_count: self.workspace_count,
            current: self.current_workspace,
            last: self.last_workspace,
            layout: self.workspace_layout,
            recent: Map::total(|w: WorkspaceId| history_of(self.history@, w)),
            focused: self.focused,
            showing_desktop: self.showing_desktop,
        }
    }
}

impl Default for ClientSet {
    /// No clients on a single workspace.
    fn default() -> (set: Self)
        ensures
            set@.wf(),
            set@.clients == Map::<u64, Client>::empty(),
            set@.managed == Seq::<ClientId>::empty(),
            set@.stacking == Seq::<ClientId>::empty(),
            set@.workspace_count == 1,
            set@.current == WorkspaceId(0),
            set@.last == WorkspaceId(0),
            set@.layout == WorkspaceLayout::row(1),
            set@.recent == Map::total(|w: WorkspaceId| Seq::<ClientId>::empty()),
            set@.focused is None,
            !set@.showing_desktop,
    {
        let set = Self {
            clients: ClientMap::new(),
            management_order: Vec::new(),
            stacking: Vec::new(),
            workspace_count: 1,
            current_workspace: WorkspaceId(0),
            last_workspace: WorkspaceId(0),
            workspace_layout: WorkspaceLayout::one_row(1),
            history: Vec::new(),
            focused: None,
            showing_desktop: false,
        };
        assert(set@.recent =~= Map::total(|w: WorkspaceId| Seq::<ClientId>::empty()));
        set
    }
}

/// The recovered focus, when there is one, can be given focus.
pub(crate) proof fn lemma_last_to_focus(d: Desk, ids: Seq<ClientId>)
    ensures
        d.last_to_focus(ids) matches Some(id) ==> d.can_focus(id) && ids.contains(id),
        d.last_to_focus(ids) is None ==> forall|i: int|
            0 <= i < ids.len() ==> !d.can_focus(#[trigger] ids[i]),
    decreases ids.len(),
{
    if ids.len() > 0 {
        let shorter = ids.drop_last();
        lemma_last_to_focus(d, shorter);
        if d.can_focus(ids.last()) {
            assert(ids[ids.len() - 1] == ids.last());
        } else {
            if let Some(id) = d.last_to_focus(ids) {
                lemma_contains_last(ids, id);
            } else {
                assert forall|i: int| 0 <= i < ids.len() implies !d.can_focus(#[trigger] ids[i]) by {
                    if i < shorter.len() {
                        assert(shorter[i] == ids[i]);
                    }
                }
            }
        }
    }
}

/// What can be given focus does not depend on what has it.
proof fn lemma_last_to_focus_ignores_focus(d: Desk, focused: Option<ClientId>, ids: Seq<ClientId>)
    ensures
        (Desk { focused, ..d }).last_to_focus(ids) == d.last_to_focus(ids),
    decreases ids.len(),
{
    if ids.len() > 0 {
        lemma_last_to_focus_ignores_focus(d, focused, ids.drop_last());
    }
}

/// Recovery gives the same result whatever had focus before.
pub(crate) proof fn lemma_recovery_ignores_focus(d: Desk, focused: Option<ClientId>)
    ensures
        (Desk { focused, ..d }).recovered() == d.recovered(),
{
    lemma_last_to_focus_ignores_focus(d, focused, d.recent[d.current]);
    lemma_last_to_focus_ignores_focus(d, focused, d.stacking);
}

/// Recovering focus keeps the invariant.
proof fn lemma_recovered_wf(d: Desk)
    requires
        d.wf(),
    ensures
        d.recovered().wf(),
{
    lemma_last_to_focus(d, d.recent[d.current]);
    lemma_last_to_focus(d, d.stacking);
    assert(d.recovered().recent == d.recent);
    assert(d.recovered().lists_all(d.managed));
    assert(d.recovered().lists_all(d.stacking));
    assert forall|w: WorkspaceId| #![trigger d.recovered().recent[w]] d.recovered().lists_some(
        d.recovered().recent[w],
    ) && (w.0 >= d.workspace_count ==> d.recovered().recent[w].len() == 0) by {
        assert(d.lists_some(d.recent[w]));
    }
}

/// Whether a sequence can serve as the history of a workspace.
pub open spec fn is_history(d: Desk, w: WorkspaceId, ids: Seq<ClientId>) -> bool {
    d.lists_some(ids) && (w.0 >= d.workspace_count ==> ids.len() == 0)
}

/// Replacing histories by others of managed clients keeps the invariant.
proof fn lemma_histories_wf(d: Desk, recent: Map<WorkspaceId, Seq<ClientId>>)
    requires
        d.wf(),
        recent.dom() == Set::<WorkspaceId>::full(),
        forall|w: WorkspaceId| is_history(d, w, #[trigger] recent[w]),
    ensures
        (Desk { recent, ..d }).wf(),
{
    let e = Desk { recent, ..d };
    assert(e.lists_all(d.managed));
    assert(e.lists_all(d.stacking));
    assert forall|w: WorkspaceId| #![trigger e.recent[w]] e.lists_some(e.recent[w]) && (w.0
        >= e.workspace_count ==> e.recent[w].len() == 0) by {
        assert(is_history(d, w, recent[w]));
    }
}

/// Replacing the state of a managed client keeps the invariant.
proof fn lemma_with_client_wf(d: Desk, client: Client)
    requires
        d.wf(),
        d.has(client.id),
        d.accepts(client.workspace),
        client.decorated_as_preferred(),
    ensures
        d.with_client(client).wf(),
{
    let e = d.with_client(client);
    assert(e.clients.dom() =~= d.clients.dom());
    assert(forall|id: ClientId| e.has(id) == d.has(id));
    assert(e.lists_all(d.managed));
    assert(e.lists_all(d.stacking));
    assert forall|w: WorkspaceId| #![trigger e.recent[w]] e.lists_some(e.recent[w]) && (w.0
        >= e.workspace_count ==> e.recent[w].len() == 0) by {
        assert(d.lists_some(d.recent[w]));
    }
}

/// Taking a client out of all histories keeps the invariant.
proof fn lemma_forgotten_wf(d: Desk, id: ClientId)
    requires
        d.wf(),
    ensures
        d.forgotten(id).wf(),
        forall|w: WorkspaceId| !(#[trigger] d.forgotten(id).recent[w]).contains(id),
{
    let recent = d.forgotten(id).recent;
    assert forall|w: WorkspaceId| is_history(d, w, #[trigger] recent[w]) by {
        lemma_without(d.recent[w], id);
        assert(d.lists_some(d.recent[w]));
    }
    assert forall|w: WorkspaceId| !(#[trigger] recent[w]).contains(id) by {
        lemma_without(d.recent[w], id);
    }
    lemma_histories_wf(d, recent);
    assert(d.forgotten(id) == Desk { recent, ..d });
}

/// Recording a managed client where it is not recorded keeps the invariant.
proof fn lemma_noted_wf(d: Desk, workspace: WorkspaceId, id: ClientId)
    requires
        d.wf(),
        d.has(id),
        workspace.0 < d.workspace_count,
        !d.recent[workspace].contains(id),
    ensures
        d.noted(workspace, id).wf(),
{
    let recent = d.noted(workspace, id).recent;
    assert(recent.dom() =~= Set::<WorkspaceId>::full());
    assert forall|w: WorkspaceId| is_history(d, w, #[trigger] recent[w]) by {
        assert(d.lists_some(d.recent[w]));
        if w == workspace {
            lemma_push_new(d.recent[w], id);
            assert forall|x: ClientId| #[trigger] recent[w].contains(x) implies d.has(x) by {
                lemma_contains_push(d.recent[w], id, x);
            }
        }
    }
    lemma_histories_wf(d, recent);
    assert(d.noted(workspace, id) == Desk { recent, ..d });
}

impl ClientSet {
    /// Writes back the state of a managed client.
    fn store(&mut self, client: Client)
        requires
            old(self)@.wf(),
            old(self)@.has(client.id),
            old(self)@.accepts(client.workspace),
            client.decorated_as_preferred(),
        ensures
            final(self)@ == old(self)@.with_client(client),
            final(self)@.wf(),
    {
        proof {
            lemma_with_client_wf(self@, client);
        }
        self.clients.insert(client.id, client);
        assert(self@ =~= old(self)@.with_client(client));
    }

    fn remove_from_focus_history(&mut self, id: ClientId)
        requires
            old(self)@.wf(),
        ensures
            final(self)@ == old(self)@.forgotten(id),
            final(self)@.wf(),
    {
        proof {
            lemma_forgotten_wf(self@, id);
        }
        let mut kept: Vec<(WorkspaceId, ClientId)> = Vec::new();
        let mut index: usize = 0;
        while index < self.history.len()
            invariant
                index <= self.history.len(),
                forall|w: WorkspaceId| #[trigger]
                    history_of(kept@, w) == desk::without(
                        history_of(self.history@.take(index as int), w),
                        id,
                    ),
            decreases self.history.len() - index,
        {
            let entry: (WorkspaceId, ClientId) = self.history[index];
            let ghost before = kept@;
            if entry.1 != id {
                kept.push(entry);
            }
            assert forall|w: WorkspaceId| #[trigger]
                history_of(kept@, w) == desk::without(
                    history_of(self.history@.take(index + 1), w),
                    id,
                ) by {
                lemma_history_take(self.history@, index as int, w);
                lemma_history_push(before, entry, w);
                lemma_without_push(
                    history_of(self.history@.take(index as int), w),
                    entry.1,
                    id,
                );
                assert(history_of(before, w) == desk::without(
                    history_of(self.history@.take(index as int), w),
                    id,
                ));
            }
            index += 1;
        }
        assert(self.history@.take(index as int) =~= self.history@);
        self.history = kept;
        assert(self@.recent =~= old(self)@.forgotten(id).recent);
        assert(self@ =~= old(self)@.forgotten(id));
    }

    fn note(&mut self, workspace: WorkspaceId, id: ClientId)
        requires
            old(self)@.wf(),
            old(self)@.has(id),
            workspace.0 < old(self)@.workspace_count,
            !old(self)@.recent[workspace].contains(id),
        ensures
            final(self)@ == old(self)@.noted(workspace, id),
            final(self)@.wf(),
    {
        proof {
            lemma_noted_wf(self@, workspace, id);
        }
        self.history.push((workspace, id));
        proof {
            assert forall|w: WorkspaceId| #[trigger] self@.recent[w] == old(self)@.noted(
                workspace,
                id,
            ).recent[w] by {
                lemma_history_push(old(self).history@, (workspace, id), w);
            }
            assert(self@.recent =~= old(self)@.noted(workspace, id).recent);
            assert(self@ =~= old(self)@.noted(workspace, id));
        }
    }

    fn record_workspace_membership(&mut self, id: ClientId, assignment: WorkspaceAssignment)
        requires
            old(self)@.wf(),
            old(self)@.has(id),
            old(self)@.accepts(assignment),
        ensures
            final(self)@ == old(self)@.joined(id, assignment),
            final(self)@.wf(),
    {
        proof {
            lemma_forgotten_wf(self@, id);
        }
        self.remove_from_focus_history(id);
        let workspace: WorkspaceId = match assignment {
            WorkspaceAssignment::Workspace(workspace) => workspace,
            WorkspaceAssignment::All => self.current_workspace,
        };
        self.note(workspace, id);
    }

    fn valid_assignment(&self, assignment: WorkspaceAssignment) -> (r: WorkspaceAssignment)
        ensures
            r == self@.existing(assignment),
    {
        match assignment {
            WorkspaceAssignment::Workspace(workspace) => {
                if workspace.0 >= self.workspace_count {
                    WorkspaceAssignment::Workspace(self.current_workspace)
                } else {
                    assignment
                }
            },
            WorkspaceAssignment::All => assignment,
        }
    }

    fn is_visible_client(&self, client: &Client) -> (r: bool)
        ensures
            r == self@.shows(*client),
    {
        client.workspace.is_visible_on(self.current_workspace) && (!self.showing_desktop
            || match client.policy.role {
            ClientRole::Desktop | ClientRole::Dock => true,
            _ => false,
        })
    }

    fn is_focus_candidate(&self, client: &Client) -> (r: bool)
        ensures
            r == self@.takes_focus(*client),
    {
        !client.iconic && client.policy.capabilities.focusable && self.is_visible_client(client)
    }

    fn is_automatic_focus_candidate(&self, client: &Client) -> (r: bool)
        ensures
            r == self@.cycles(*client),
    {
        self.is_focus_candidate(client) && (!client.presentation.skip_taskbar || client.modal
            || client.presentation.urgent || client.policy.role == ClientRole::Dialog)
    }

    fn can_take_focus(&self, id: ClientId) -> (r: bool)
        ensures
            r == self@.can_focus(id),
    {
        match self.clients.get(id) {
            Some(client) => self.is_focus_candidate(client),
            None => false,
        }
    }

    /// The active workspace's focus history, most recent last.
    fn current_history(&self) -> (r: Vec<ClientId>)
        ensures
            r@ == self@.recent[self@.current],
    {
        let mut r: Vec<ClientId> = Vec::new();
        let mut index: usize = 0;
        while index < self.history.len()
            invariant
                index <= self.history.len(),
                r@ == history_of(self.history@.take(index as int), self.current_workspace),
            decreases self.history.len() - index,
        {
            proof {
                lemma_history_take(self.history@, index as int, self.current_workspace);
            }
            let entry: (WorkspaceId, ClientId) = self.history[index];
            if entry.0 == self.current_workspace {
                r.push(entry.1);
            }
            index += 1;
        }
        assert(self.history@.take(index as int) =~= self.history@);
        r
    }

    fn last_focusable(&self, ids: &Vec<ClientId>) -> (r: Option<ClientId>)
        ensures
            r == self@.last_to_focus(ids@),
    {
        let mut index: usize = ids.len();
        assert(ids@.take(index as int) =~= ids@);
        while index > 0
            invariant
                index <= ids.len(),
                self@.last_to_focus(ids@) == self@.last_to_focus(ids@.take(index as int)),
            decreases index,
        {
            assert(ids@.take(index as int).drop_last() =~= ids@.take(index - 1));
            index = index - 1;
            if self.can_take_focus(ids[index]) {
                return Some(ids[index]);
            }
        }
        None
    }

    fn recover_focus(&mut self)
        requires
            old(self)@.wf(),
        ensures
            final(self)@ == old(self)@.recovered(),
            final(self)@.wf(),
    {
        proof {
            lemma_recovered_wf(self@);
        }
        let history: Vec<ClientId> = self.current_history();
        let recent: Option<ClientId> = self.last_focusable(&history);
        let focused: Option<ClientId> = if recent.is_some() {
            recent
        } else {
            self.last_focusable(&self.stacking)
        };
        self.focused = focused;
        assert(self@ =~= old(self)@.recovered());
    }

    /// Adds a client, or refreshes its geometry if it is already managed.
    ///
    /// Returns `true` only when a new client was added.
    pub fn manage(&mut self, client: Client) -> (added: bool)
        requires
            old(self)@.wf(),
        ensures
            final(self)@.wf(),
            final(self)@ == old(self)@.managing(client),
            added == !old(self)@.has(client.id),
    {
        let mut client: Client = client;
        client.workspace = self.valid_assignment(client.workspace);
        if client.decoration_override == DecorationOverride::Default {
            client.natural_decorations = client.policy.decorations;
        }
        client.policy = policy_with_decoration_override(
            client.policy,
            client.natural_decorations,
            client.decoration_override,
        );
        let previous: Option<Client> = match self.clients.get(client.id) {
            Some(existing) => Some(*existing),
            None => None,
        };
        if let Some(existing) = previous {
            self.store(client);
            if existing.workspace != client.workspace {
                self.record_workspace_membership(client.id, client.workspace);
                self.recover_focus();
            }
            return false;
        }
        let history_workspace: WorkspaceId = match client.workspace {
            WorkspaceAssignment::Workspace(workspace) => workspace,
            WorkspaceAssignment::All => self.current_workspace,
        };
        self.management_order.push(client.id);
        self.stacking.push(client.id);
        self.history.push((history_workspace, client.id));
        self.clients.insert(client.id, client);
        proof {
            let before = old(self)@;
            let after = before.managing(client);
            assert forall|w: WorkspaceId| #[trigger] self@.recent[w] == before.noted(
                history_workspace,
                client.id,
            ).recent[w] by {
                lemma_history_push(old(self).history@, (history_workspace, client.id), w);
            }
            assert(self@.recent =~= before.noted(history_workspace, client.id).recent);
            assert(self@ =~= after);
            lemma_added_wf(before, client, history_workspace);
        }
        true
    }

    /// Removes a client and all references to it.
    pub fn unmanage(&mut self, id: ClientId) -> (removed: bool)
        requires
            old(self)@.wf(),
        ensures
            final(self)@.wf(),
            final(self)@ == old(self)@.unmanaging(id),
            removed == old(self)@.has(id),
    {
        if !self.clients.contains(id) {
            return false;
        }
        let ghost before = self@;
        self.remove_from_focus_history(id);
        self.clients.remove(id);
        self.management_order = retained(&self.management_order, id);
        self.stacking = retained(&self.stacking, id);
        if self.focused == Some(id) {
            self.focused = None;
            proof {
                lemma_removed_wf(before, id, None);
                assert(self@ =~= removed_desk(before, id, None));
            }
            self.recover_focus();
        } else {
            proof {
                lemma_removed_wf(before, id, before.focused);
                assert(self@ =~= removed_desk(before, id, before.focused));
            }
        }
        let ghost refocused = self@;
        self.change_clients(ClientChange::Detach(id));
        proof {
            let detached = Desk {
                clients: refocused.clients.map_values(|client: Client| client.detached(id)),
                ..refocused
            };
            assert(self@.clients =~= detached.clients);
            assert(self@ =~= detached);
            assert forall|w: WorkspaceId| is_history(self@, w, #[trigger] self@.recent[w]) by {
                assert(refocused.lists_some(refocused.recent[w]));
            }
            assert(self@.clients.dom() =~= refocused.clients.dom());
            lemma_rebuilt_wf(refocused, self@);
            if before.focused == Some(id) {
                lemma_recovery_ignores_focus(removed_desk(before, id, None), before.focused);
                assert(removed_desk(before, id, before.focused) =~= Desk {
                    focused: before.focused,
                    ..removed_desk(before, id, None)
                });
            }
            assert(self@ =~= before.unmanaging(id));
        }
        true
    }

    /// Applies one change to every managed client.
    fn change_clients(&mut self, change: ClientChange)
        requires
            old(self)@.lists_all(old(self)@.managed),
            forall|raw: u64| #[trigger]
                old(self)@.clients.contains_key(raw) ==> old(self)@.clients[raw].id == ClientId(
                    raw,
                ) && change.fits(old(self)@.clients[raw]),
        ensures
            final(self)@ == (Desk {
                clients: old(self)@.clients.map_values(|client: Client| change.applied(client)),
                ..old(self)@
            }),
    {
        let ghost before = self@;
        let ghost order = self.management_order@;
        let mut index: usize = 0;
        while index < self.management_order.len()
            invariant
                before.lists_all(order),
                order == self.management_order@,
                forall|raw: u64| #[trigger]
                    before.clients.contains_key(raw) ==> before.clients[raw].id == ClientId(raw)
                        && change.fits(before.clients[raw]),
                index <= order.len(),
                self@ =~= (Desk { clients: self@.clients, ..before }),
                self@.clients.dom() =~= before.clients.dom(),
                forall|i: int|
                    0 <= i < index ==> self@.client(#[trigger] order[i]) == change.applied(
                        before.client(order[i]),
                    ),
                forall|i: int|
                    index <= i < order.len() ==> self@.client(#[trigger] order[i])
                        == before.client(order[i]),
            decreases order.len() - index,
        {
            let member: ClientId = self.management_order[index];
            let ghost current = self@;
            assert(order.contains(member));
            assert(before.has(member));
            if let Some(client) = self.clients.get(member) {
                let changed: Client = change.apply(*client);
                self.clients.insert(member, changed);
                assert(self@.clients.dom() =~= before.clients.dom());
                assert forall|i: int| 0 <= i < order.len() && i != index implies self@.client(
                    #[trigger] order[i],
                ) == current.client(order[i]) by {
                    assert(order[i] != order[index as int]);
                }
            }
            index += 1;
        }
        proof {
            let wanted = before.clients.map_values(|client: Client| change.applied(client));
            assert forall|raw: u64| #[trigger] before.clients.contains_key(raw) implies
                self@.clients[raw] == wanted[raw] by {
                assert(order.contains(ClientId(raw)));
                let i = choose|i: int| 0 <= i < order.len() && order[i] == ClientId(raw);
                assert(self@.client(order[i]) == change.applied(before.client(order[i])));
            }
            assert(self@.clients =~= wanted);
        }
    }
}

/// A change that applies to every client alike.
enum ClientChange {
    /// Drop the specific transient relationship to a removed client.
    Detach(ClientId),
    /// Move clients beyond a workspace count to its final workspace.
    Cut(u32),
    /// Shift clients at or after an inserted workspace.
    Insert(u32),
    /// Follow the removal of a workspace, given the remaining count.
    Remove(u32, u32),
}

impl ClientChange {
    spec fn workspace_after(self, workspace: WorkspaceId) -> WorkspaceId {
        match self {
            ClientChange::Detach(_) => workspace,
            ClientChange::Cut(count) => if workspace.0 >= count {
                WorkspaceId((count - 1) as u32)
            } else {
                workspace
            },
            ClientChange::Insert(index) => if workspace.0 >= index {
                WorkspaceId((workspace.0 + 1) as u32)
            } else {
                workspace
            },
            ClientChange::Remove(index, remaining) => WorkspaceId(
                desk::after_removal(workspace.0 as int, index as int, remaining as int) as u32,
            ),
        }
    }

    spec fn applied(self, client: Client) -> Client {
        match self {
            ClientChange::Detach(id) => client.detached(id),
            _ => match client.workspace {
                WorkspaceAssignment::Workspace(w) => client.assigned(
                    WorkspaceAssignment::Workspace(self.workspace_after(w)),
                ),
                WorkspaceAssignment::All => client,
            },
        }
    }

    spec fn fits_workspace(self, workspace: WorkspaceId) -> bool {
        match self {
            ClientChange::Detach(_) => true,
            ClientChange::Cut(count) => count > 0,
            ClientChange::Insert(_) => workspace.0 < u32::MAX,
            ClientChange::Remove(_, remaining) => remaining > 0,
        }
    }

    spec fn fits(self, client: Client) -> bool {
        match client.workspace {
            WorkspaceAssignment::Workspace(w) => self.fits_workspace(w),
            WorkspaceAssignment::All => true,
        }
    }

    fn shift(&self, workspace: WorkspaceId) -> (r: WorkspaceId)
        requires
            self.fits_workspace(workspace),
        ensures
            r == self.workspace_after(workspace),
    {
        match self {
            ClientChange::Detach(_) => workspace,
            ClientChange::Cut(count) => if workspace.0 >= *count {
                WorkspaceId(*count - 1)
            } else {
                workspace
            },
            ClientChange::Insert(index) => if workspace.0 >= *index {
                WorkspaceId(workspace.0 + 1)
            } else {
                workspace
            },
            ClientChange::Remove(index, remaining) => remap_removed_workspace(
                workspace,
                WorkspaceId(*index),
                *remaining,
            ),
        }
    }

    fn apply(&self, client: Client) -> (r: Client)
        requires
            self.fits(client),
        ensures
            r == self.applied(client),
    {
        let mut changed: Client = client;
        match self {
            ClientChange::Detach(id) => {
                if client.transient_for == Some(TransientTarget::Client(*id)) {
                    changed.transient_for = None;
                }
            },
            _ => {
                if let WorkspaceAssignment::Workspace(w) = client.workspace {
                    changed.workspace = WorkspaceAssignment::Workspace(self.shift(w));
                }
            },
        }
        changed
    }
}

fn remap_removed_workspace(
    assigned: WorkspaceId,
    removed: WorkspaceId,
    remaining_count: u32,
) -> (r: WorkspaceId)
    requires
        remaining_count > 0,
    ensures
        r.0 == desk::after_removal(assigned.0 as int, removed.0 as int, remaining_count as int),
{
    let index: u32 = assigned.0;
    if index > removed.0 {
        WorkspaceId(index - 1)
    } else if index >= remaining_count {
        WorkspaceId(remaining_count - 1)
    } else {
        assigned
    }
}

/// A desk rebuilt over the same clients keeps the invariant when its parts do.
proof fn lemma_rebuilt_wf(d: Desk, e: Desk)
    requires
        d.wf(),
        e.managed == d.managed,
        e.stacking == d.stacking,
        e.clients.dom() == d.clients.dom(),
        forall|raw: u64| #[trigger]
            e.clients.contains_key(raw) ==> e.clients[raw].id == ClientId(raw) && e.accepts(
                e.clients[raw].workspace,
            ) && e.clients[raw].decorated_as_preferred(),
        e.workspace_count >= 1,
        e.current.0 < e.workspace_count,
        e.last.0 < e.workspace_count,
        e.layout.workspaces() == e.workspace_count,
        e.layout.is_grid(),
        e.recent.dom() == Set::<WorkspaceId>::full(),
        forall|w: WorkspaceId| is_history(e, w, #[trigger] e.recent[w]),
        e.focused == d.focused,
    ensures
        e.wf(),
{
    assert(forall|id: ClientId| e.has(id) == d.has(id));
    assert(e.lists_all(d.managed));
    assert(e.lists_all(d.stacking));
    assert forall|w: WorkspaceId| #![trigger e.recent[w]] e.lists_some(e.recent[w]) && (w.0
        >= e.workspace_count ==> e.recent[w].len() == 0) by {
        assert(is_history(e, w, e.recent[w]));
    }
}

/// A desk whose client was removed, before focus is recovered.
spec fn removed_desk(d: Desk, id: ClientId, focused: Option<ClientId>) -> Desk {
    Desk {
        clients: d.clients.remove(id.0),
        managed: desk::without(d.managed, id),
        stacking: desk::without(d.stacking, id),
        recent: d.forgotten(id).recent,
        focused,
        ..d
    }
}

/// Removing a client that has no focus keeps the invariant.
proof fn lemma_removed_wf(d: Desk, id: ClientId, focused: Option<ClientId>)
    requires
        d.wf(),
        focused is None || focused == d.focused,
        focused != Some(id),
    ensures
        removed_desk(d, id, focused).wf(),
{
    let e = removed_desk(d, id, focused);
    lemma_forgotten_wf(d, id);
    lemma_without(d.managed, id);
    lemma_without(d.stacking, id);
    assert(e.lists_all(e.managed));
    assert(e.lists_all(e.stacking));
    assert forall|w: WorkspaceId| #![trigger e.recent[w]] e.lists_some(e.recent[w]) && (w.0
        >= e.workspace_count ==> e.recent[w].len() == 0) by {
        assert(d.forgotten(id).lists_some(d.forgotten(id).recent[w]));
    }
}

/// Adding a new client keeps the invariant.
proof fn lemma_added_wf(d: Desk, stored: Client, workspace: WorkspaceId)
    requires
        d.wf(),
        !d.has(stored.id),
        d.accepts(stored.workspace),
        stored.decorated_as_preferred(),
        workspace.0 < d.workspace_count,
    ensures
        (Desk {
            clients: d.clients.insert(stored.id.0, stored),
            managed: d.managed.push(stored.id),
            stacking: d.stacking.push(stored.id),
            recent: d.noted(workspace, stored.id).recent,
            ..d
        }).wf(),
{
    let id = stored.id;
    let e = Desk {
        clients: d.clients.insert(id.0, stored),
        managed: d.managed.push(id),
        stacking: d.stacking.push(id),
        recent: d.noted(workspace, id).recent,
        ..d
    };
    assert(!d.managed.contains(id));
    assert(!d.stacking.contains(id));
    lemma_push_new(d.managed, id);
    lemma_push_new(d.stacking, id);
    assert forall|x: ClientId| #[trigger] e.managed.contains(x) <==> e.has(x) by {
        lemma_contains_push(d.managed, id, x);
    }
    assert forall|x: ClientId| #[trigger] e.stacking.contains(x) <==> e.has(x) by {
        lemma_contains_push(d.stacking, id, x);
    }
    assert(e.recent.dom() =~= Set::<WorkspaceId>::full());
    assert forall|w: WorkspaceId| #![trigger e.recent[w]] e.lists_some(e.recent[w]) && (w.0
        >= e.workspace_count ==> e.recent[w].len() == 0) by {
        assert(d.lists_some(d.recent[w]));
        assert(!d.recent[w].contains(id));
        if w == workspace {
            lemma_push_new(d.recent[w], id);
            assert forall|x: ClientId| #[trigger] e.recent[w].contains(x) implies e.has(x) by {
                lemma_contains_push(d.recent[w], id, x);
            }
        }
    }
}

} // verus!
