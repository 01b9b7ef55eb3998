//! The mathematical model of a managed desktop.

use vstd::prelude::*;

use crate::geometry::Geometry;
use crate::ids::{ClientId, WorkspaceId};
use crate::outputs;
use crate::outputs::Output;
use crate::policy;
use crate::policy::{
    Client, ClientPolicy, ClientRole, DecorationOverride, FullscreenState, MaximizeState,
    StackingLayer, TransientTarget,
};
use crate::workspace::{WorkspaceAssignment, WorkspaceDirection, WorkspaceLayout};

verus! {

/// Managed clients, their orders, workspaces, and focus.
#[verifier::ext_equal]
pub struct Desk {
    /// Managed clients by raw identifier.
    pub clients: Map<u64, Client>,
    /// Identifiers in the order they were managed.
    pub managed: Seq<ClientId>,
    /// Identifiers from bottom to top.
    pub stacking: Seq<ClientId>,
    /// Number of workspaces.
    pub workspace_count: u32,
    /// The active workspace.
    pub current: WorkspaceId,
    /// The previously active workspace.
    pub last: WorkspaceId,
    /// The grid of workspaces.
    pub layout: WorkspaceLayout,
    /// Focus history of every workspace, most recent last.
    pub recent: Map<WorkspaceId, Seq<ClientId>>,
    /// The focused client.
    pub focused: Option<ClientId>,
    /// Whether ordinary clients are hidden to expose the desktop.
    pub showing_desktop: bool,
}

/// A sequence with every occurrence of an identifier taken out.
pub open spec fn without(ids: Seq<ClientId>, id: ClientId) -> Seq<ClientId>
    decreases ids.len(),
{
    if ids.len() == 0 {
        Seq::empty()
    } else {
        let before = without(ids.drop_last(), id);
        if ids.last() == id {
            before
        } else {
            before.push(ids.last())
        }
    }
}

/// The identifiers of `ids` that are not in `taken`, in order.
pub open spec fn excluding(ids: Seq<ClientId>, taken: Seq<ClientId>) -> Seq<ClientId>
    decreases ids.len(),
{
    if ids.len() == 0 {
        Seq::empty()
    } else {
        let before = excluding(ids.drop_last(), taken);
        if taken.contains(ids.last()) {
            before
        } else {
            before.push(ids.last())
        }
    }
}

/// A sequence followed by the identifiers of another one it does not hold yet.
pub open spec fn merged(first: Seq<ClientId>, second: Seq<ClientId>) -> Seq<ClientId>
    decreases second.len(),
{
    if second.len() == 0 {
        first
    } else {
        let before = merged(first, second.drop_last());
        if before.contains(second.last()) {
            before
        } else {
            before.push(second.last())
        }
    }
}

/// The workspace a surviving or merged workspace becomes after a removal.
pub open spec fn after_removal(index: int, removed: int, remaining: int) -> int {
    if index > removed {
        index - 1
    } else if index >= remaining {
        remaining - 1
    } else {
        index
    }
}

impl Client {
    /// The client with another workspace assignment.
    pub open spec fn assigned(self, workspace: WorkspaceAssignment) -> Client {
        Client { workspace, ..self }
    }

    /// The client without a transient relationship to `id`.
    pub open spec fn detached(self, id: ClientId) -> Client {
        if self.is_transient_for(id) {
            Client { transient_for: None, ..self }
        } else {
            self
        }
    }

    /// The client after new geometry was observed. Axes that are not maximized
    /// restore what was observed last.
    pub open spec fn with_geometry(self, geometry: Geometry) -> Client {
        Client {
            geometry,
            maximize: match self.maximize {
                None => None,
                Some(state) => Some(
                    MaximizeState {
                        horizontal: state.horizontal,
                        vertical: state.vertical,
                        restore: Geometry {
                            x: if state.horizontal {
                                state.restore.x
                            } else {
                                geometry.x
                            },
                            y: if state.vertical {
                                state.restore.y
                            } else {
                                geometry.y
                            },
                            width: if state.horizontal {
                                state.restore.width
                            } else {
                                geometry.width
                            },
                            height: if state.vertical {
                                state.restore.height
                            } else {
                                geometry.height
                            },
                        },
                    },
                ),
            },
            ..self
        }
    }

    /// The client after a maximize request; a fullscreen client applies it to
    /// the geometry it will return to.
    pub open spec fn after_maximize(
        self,
        horizontal: bool,
        vertical: bool,
        available: Geometry,
    ) -> Client {
        match self.fullscreen {
            None => self.with_maximized(horizontal, vertical, available),
            Some(state) => {
                let windowed = Client { geometry: state.restore, ..self }.with_maximized(
                    horizontal,
                    vertical,
                    available,
                );
                Client {
                    geometry: self.geometry,
                    fullscreen: Some(FullscreenState { restore: windowed.geometry }),
                    ..windowed
                }
            },
        }
    }

    /// The client after a fullscreen request.
    pub open spec fn after_fullscreen(self, fullscreen: bool, output: Geometry) -> Client {
        match (self.fullscreen, fullscreen) {
            (None, false) => self,
            (None, true) => Client {
                fullscreen: Some(FullscreenState { restore: self.geometry }),
                geometry: output,
                ..self
            },
            (Some(state), true) => Client { geometry: output, ..self },
            (Some(state), false) => Client {
                fullscreen: None,
                geometry: state.restore,
                ..self
            },
        }
    }

    /// The geometry a fullscreen request applies, when it changes anything.
    pub open spec fn fullscreen_result(self, fullscreen: bool, output: Geometry) -> Option<
        Geometry,
    > {
        match (self.fullscreen, fullscreen) {
            (None, false) => None,
            (None, true) => Some(output),
            (Some(state), true) => if self.geometry == output {
                None
            } else {
                Some(output)
            },
            (Some(state), false) => Some(state.restore),
        }
    }

    /// The client with a decoration preference applied over its natural
    /// decorations.
    pub open spec fn with_preference(self, preference: DecorationOverride) -> Client {
        Client {
            decoration_override: preference,
            policy: self.policy.decorated_with(
                policy::preferred_decorations(self.policy, self.natural_decorations, preference),
            ),
            ..self
        }
    }

    /// The client with another natural policy under its current preference.
    pub open spec fn with_policy(self, policy: ClientPolicy) -> Client {
        Client {
            natural_decorations: policy.decorations,
            policy: policy.decorated_with(
                policy::preferred_decorations(policy, policy.decorations, self.decoration_override),
            ),
            ..self
        }
    }

    /// Whether the client shows the decorations that its preference gives: without an override,
    /// its natural ones.
    pub open spec fn decorated_as_preferred(self) -> bool {
        policy::is_decorated(self.policy, self.natural_decorations, self.decoration_override)
    }

    /// Whether decorations of this client can be changed by the user now.
    pub open spec fn can_redecorate(self) -> bool {
        policy::role_decorations(self.policy.role).shows() && self.fullscreen is None
    }

    /// The preference that a toggle selects.
    pub open spec fn toggled_preference(self) -> DecorationOverride {
        if self.decoration_override != DecorationOverride::Default {
            DecorationOverride::Default
        } else if self.policy.decorations.shows() {
            DecorationOverride::Undecorated
        } else {
            DecorationOverride::Decorated
        }
    }

    /// The client's geometry kept, relationships replaced. A client is never
    /// its own parent.
    pub open spec fn with_relationships(
        self,
        transient_for: Option<TransientTarget>,
        group: Option<ClientId>,
        modal: bool,
    ) -> Client {
        Client {
            transient_for: if transient_for == Some(TransientTarget::Client(self.id)) {
                None
            } else {
                transient_for
            },
            group,
            modal,
            ..self
        }
    }

    /// Whether the role takes part in its application group.
    pub open spec fn is_group_member(self) -> bool {
        self.policy.role != ClientRole::Desktop && self.policy.role != ClientRole::Dock
            && self.policy.role != ClientRole::Splash
    }
}

impl Desk {
    /// Whether a client is managed.
    pub open spec fn has(self, id: ClientId) -> bool {
        self.clients.contains_key(id.0)
    }

    /// A managed client.
    pub open spec fn client(self, id: ClientId) -> Client {
        self.clients[id.0]
    }

    /// Whether a sequence holds every managed client exactly once.
    pub open spec fn lists_all(self, ids: Seq<ClientId>) -> bool {
        &&& ids.no_duplicates()
        &&& forall|id: ClientId| #[trigger] ids.contains(id) <==> self.has(id)
    }

    /// Whether a sequence holds managed clients only, each at most once.
    pub open spec fn lists_some(self, ids: Seq<ClientId>) -> bool {
        &&& ids.no_duplicates()
        &&& forall|id: ClientId| #[trigger] ids.contains(id) ==> self.has(id)
    }

    /// Whether an assignment names an existing workspace.
    pub open spec fn accepts(self, assignment: WorkspaceAssignment) -> bool {
        match assignment {
            WorkspaceAssignment::Workspace(workspace) => workspace.0 < self.workspace_count,
            WorkspaceAssignment::All => true,
        }
    }

    /// The invariant every operation keeps.
    pub open spec fn wf(self) -> bool {
        &&& self.workspace_count >= 1
        &&& self.current.0 < self.workspace_count
        &&& self.last.0 < self.workspace_count
        &&& self.layout.workspaces() == self.workspace_count
        &&& self.layout.is_grid()
        &&& self.lists_all(self.managed)
        &&& self.lists_all(self.stacking)
        &&& forall|raw: u64| #[trigger]
            self.clients.contains_key(raw) ==> self.clients[raw].id == ClientId(raw)
                && self.accepts(self.clients[raw].workspace)
                && self.clients[raw].decorated_as_preferred()
        &&& self.recent.dom() == Set::<WorkspaceId>::full()
        &&& forall|w: WorkspaceId|
            #![trigger self.recent[w]]
            self.lists_some(self.recent[w]) && (w.0 >= self.workspace_count ==> self.recent[w].len()
                == 0)
        &&& self.focused matches Some(id) ==> self.has(id)
    }

    /// The assignment itself, or the active workspace when it does not exist.
    pub open spec fn existing(self, assignment: WorkspaceAssignment) -> WorkspaceAssignment {
        if self.accepts(assignment) {
            assignment
        } else {
            WorkspaceAssignment::Workspace(self.current)
        }
    }

    /// The workspace whose history records a client so assigned.
    pub open spec fn home(self, assignment: WorkspaceAssignment) -> WorkspaceId {
        match assignment {
            WorkspaceAssignment::Workspace(workspace) => workspace,
            WorkspaceAssignment::All => self.current,
        }
    }

    /// Whether a client shows on the active workspace.
    pub open spec fn shows(self, client: Client) -> bool {
        client.workspace.shows_on(self.current) && (!self.showing_desktop
            || client.policy.role.is_shell())
    }

    /// Whether a client can be given focus.
    pub open spec fn takes_focus(self, client: Client) -> bool {
        !client.iconic && client.policy.capabilities.focusable && self.shows(client)
    }

    /// Whether a client is offered when focus is chosen automatically.
    pub open spec fn cycles(self, client: Client) -> bool {
        self.takes_focus(client) && (!client.presentation.skip_taskbar || client.modal
            || client.presentation.urgent || client.policy.role == ClientRole::Dialog)
    }

    /// The last identifier of a sequence that can be given focus.
    pub open spec fn last_to_focus(self, ids: Seq<ClientId>) -> Option<ClientId>
        decreases ids.len(),
    {
        if ids.len() == 0 {
            None
        } else if self.has(ids.last()) && self.takes_focus(self.client(ids.last())) {
            Some(ids.last())
        } else {
            self.last_to_focus(ids.drop_last())
        }
    }

    /// Focus given to the most recent client of the active workspace, or to
    /// the topmost one.
    pub open spec fn recovered(self) -> Desk {
        let recent = self.last_to_focus(self.recent[self.current]);
        Desk {
            focused: if recent is Some {
                recent
            } else {
                self.last_to_focus(self.stacking)
            },
            ..self
        }
    }

    /// A client taken out of every history.
    pub open spec fn forgotten(self, id: ClientId) -> Desk {
        Desk {
            recent: Map::total(|w: WorkspaceId| without(self.recent[w], id)),
            ..self
        }
    }

    /// A client put at the recent end of one history.
    pub open spec fn noted(self, workspace: WorkspaceId, id: ClientId) -> Desk {
        Desk {
            recent: self.recent.insert(workspace, self.recent[workspace].push(id)),
            ..self
        }
    }

    /// A client recorded in the one history its assignment selects.
    pub open spec fn joined(self, id: ClientId, assignment: WorkspaceAssignment) -> Desk {
        self.forgotten(id).noted(self.home(assignment), id)
    }

    /// The state of one client replaced.
    pub open spec fn with_client(self, client: Client) -> Desk {
        Desk { clients: self.clients.insert(client.id.0, client), ..self }
    }

    /// A client as it is stored: on an existing workspace, with its decoration
    /// preference applied.
    pub open spec fn prepared(self, client: Client) -> Client {
        let natural = if client.decoration_override == DecorationOverride::Default {
            client.policy.decorations
        } else {
            client.natural_decorations
        };
        Client {
            workspace: self.existing(client.workspace),
            natural_decorations: natural,
            policy: client.policy.decorated_with(
                policy::preferred_decorations(client.policy, natural, client.decoration_override),
            ),
            ..client
        }
    }

    /// A client added, or refreshed when it is managed already.
    pub open spec fn managing(self, client: Client) -> Desk {
        let stored = self.prepared(client);
        if self.has(client.id) {
            let refreshed = self.with_client(stored);
            if self.client(client.id).workspace == stored.workspace {
                refreshed
            } else {
                refreshed.joined(client.id, stored.workspace).recovered()
            }
        } else {
            Desk {
                clients: self.clients.insert(client.id.0, stored),
                managed: self.managed.push(client.id),
                stacking: self.stacking.push(client.id),
                recent: self.noted(self.home(stored.workspace), client.id).recent,
                ..self
            }
        }
    }

    /// A client and every reference to it removed.
    pub open spec fn unmanaging(self, id: ClientId) -> Desk {
        if !self.has(id) {
            self
        } else {
            let removed = Desk {
                clients: self.clients.remove(id.0),
                managed: without(self.managed, id),
                stacking: without(self.stacking, id),
                recent: self.forgotten(id).recent,
                ..self
            };
            let refocused = if self.focused == Some(id) {
                removed.recovered()
            } else {
                removed
            };
            Desk {
                clients: refocused.clients.map_values(|client: Client| client.detached(id)),
                ..refocused
            }
        }
    }

    /// Whether a focus request on this client succeeds.
    pub open spec fn can_focus(self, id: ClientId) -> bool {
        self.has(id) && self.takes_focus(self.client(id))
    }

    /// A client focused and most recent on the active workspace.
    pub open spec fn focusing(self, id: ClientId) -> Desk {
        if self.can_focus(id) {
            Desk {
                recent: self.recent.insert(
                    self.current,
                    without(self.recent[self.current], id).push(id),
                ),
                focused: Some(id),
                ..self
            }
        } else {
            self
        }
    }

    /// A client least recent on the active workspace.
    pub open spec fn demoting(self, id: ClientId) -> Desk {
        if self.has(id) {
            Desk {
                recent: self.recent.insert(
                    self.current,
                    seq![id] + without(self.recent[self.current], id),
                ),
                ..self
            }
        } else {
            self
        }
    }

    /// Whether a modal client blocks another client.
    pub open spec fn blocks(self, modal: ClientId, blocked: ClientId) -> bool {
        let group = if self.has(blocked) {
            self.client(blocked).group
        } else {
            None
        };
        let client = self.client(modal);
        &&& self.has(modal)
        &&& client.modal
        &&& !client.iconic
        &&& self.shows(client)
        &&& client.is_transient_for(blocked) || (client.is_group_transient() && client.group is Some
            && client.group == group)
    }

    /// The topmost of a bottom-to-top sequence that blocks a client, leaving
    /// out the ones already passed.
    pub open spec fn topmost_blocker(
        self,
        ids: Seq<ClientId>,
        blocked: ClientId,
        passed: Seq<ClientId>,
    ) -> Option<ClientId>
        decreases ids.len(),
    {
        if ids.len() == 0 {
            None
        } else if !passed.contains(ids.last()) && self.blocks(ids.last(), blocked) {
            Some(ids.last())
        } else {
            self.topmost_blocker(ids.drop_last(), blocked, passed)
        }
    }

    /// The end of a chain of modal clients, at most `steps` further on.
    pub open spec fn modal_end(self, target: ClientId, passed: Seq<ClientId>, steps: nat) -> ClientId
        decreases steps,
    {
        match self.topmost_blocker(self.stacking, target, passed) {
            Some(modal) => if steps == 0 {
                target
            } else {
                self.modal_end(modal, passed.push(modal), (steps - 1) as nat)
            },
            None => target,
        }
    }

    /// The client that a focus request leads to.
    pub open spec fn target_of(self, requested: ClientId) -> Option<ClientId> {
        if self.has(requested) && !self.client(requested).iconic && self.shows(
            self.client(requested),
        ) {
            Some(self.modal_end(requested, seq![requested], self.managed.len()))
        } else {
            None
        }
    }

    /// Whether a request leads to a fallback for a client losing focus.
    pub open spec fn falls_back(self, requested: ClientId, old: ClientId) -> bool {
        self.target_of(requested) matches Some(target) && target != old && self.has(target)
            && !self.client(target).shaded && self.cycles(self.client(target))
    }

    /// The target of the last identifier that leads to a fallback.
    pub open spec fn last_fallback(self, ids: Seq<ClientId>, old: ClientId) -> Option<ClientId>
        decreases ids.len(),
    {
        if ids.len() == 0 {
            None
        } else if self.falls_back(ids.last(), old) {
            self.target_of(ids.last())
        } else {
            self.last_fallback(ids.drop_last(), old)
        }
    }

    /// The client that focus falls back to from another one.
    pub open spec fn fallback_from(self, old: ClientId) -> Option<ClientId> {
        let recent = self.last_fallback(self.recent[self.current], old);
        if recent is Some {
            recent
        } else {
            self.last_fallback(self.stacking, old)
        }
    }

    /// Focus moved away from a client that has it.
    pub open spec fn falling_back(self, old: ClientId) -> Desk {
        if self.focused != Some(old) {
            self
        } else {
            let cleared = Desk { focused: None, ..self };
            match self.fallback_from(old) {
                Some(target) => cleared.focusing(target),
                None => cleared,
            }
        }
    }

    /// The distinct cycle targets that requests lead to, in order.
    pub open spec fn cycle_targets(self, requests: Seq<ClientId>) -> Seq<ClientId>
        decreases requests.len(),
    {
        if requests.len() == 0 {
            Seq::empty()
        } else {
            let before = self.cycle_targets(requests.drop_last());
            match self.target_of(requests.last()) {
                Some(target) => if self.has(target) && self.cycles(self.client(target))
                    && !before.contains(target) {
                    before.push(target)
                } else {
                    before
                },
                None => before,
            }
        }
    }

    /// The order in which focus cycling asks for clients: the focused one,
    /// then by recency, then from top to bottom.
    pub open spec fn cycle_requests(self) -> Seq<ClientId> {
        let focused = match self.focused {
            Some(id) => seq![id],
            None => Seq::empty(),
        };
        focused + self.recent[self.current].reverse() + self.stacking.reverse()
    }

    /// Desktop-showing mode entered or left.
    pub open spec fn showing(self, showing: bool) -> Desk {
        if self.showing_desktop == showing {
            self
        } else {
            Desk { showing_desktop: showing, ..self }.recovered()
        }
    }

    /// Another workspace made active.
    pub open spec fn switching(self, workspace: WorkspaceId) -> Desk {
        if workspace.0 >= self.workspace_count || workspace == self.current {
            self
        } else {
            Desk { last: self.current, current: workspace, ..self }.recovered()
        }
    }

    /// One client moved to another assignment.
    pub open spec fn assigning(self, id: ClientId, assignment: WorkspaceAssignment) -> Desk {
        let wanted = self.existing(assignment);
        if !self.has(id) || self.client(id).workspace == wanted {
            self
        } else {
            self.with_client(self.client(id).assigned(wanted)).joined(id, wanted).recovered()
        }
    }

    /// Whether a client's assignment lies beyond a workspace count.
    pub open spec fn is_beyond(self, raw: u64, count: u32) -> bool {
        self.clients.contains_key(raw) && (self.clients[raw].workspace matches
            WorkspaceAssignment::Workspace(w) && w.0 >= count)
    }

    /// Whether a sequence holds, by increasing identifier, the clients beyond
    /// a workspace count.
    pub open spec fn are_beyond(self, ids: Seq<ClientId>, count: u32) -> bool {
        &&& forall|i: int, j: int| 0 <= i < j < ids.len() ==> (#[trigger] ids[i]).0 < (
        #[trigger] ids[j]).0
        &&& forall|id: ClientId| #[trigger] ids.contains(id) <==> self.is_beyond(id.0, count)
    }

    /// Clients taken out of every history and put, in order, at the recent end
    /// of one.
    pub open spec fn gathered(self, ids: Seq<ClientId>, workspace: WorkspaceId) -> Desk
        decreases ids.len(),
    {
        if ids.len() == 0 {
            self
        } else {
            self.gathered(ids.drop_last(), workspace).forgotten(ids.last()).noted(
                workspace,
                ids.last(),
            )
        }
    }

    /// The desk cut or extended to another number of workspaces, before the
    /// histories of moved clients are joined.
    pub open spec fn cut_to(self, count: u32) -> Desk {
        let final_workspace = WorkspaceId((count - 1) as u32);
        Desk {
            clients: self.clients.map_values(
                |client: Client|
                    match client.workspace {
                        WorkspaceAssignment::Workspace(w) => if w.0 >= count {
                            client.assigned(WorkspaceAssignment::Workspace(final_workspace))
                        } else {
                            client
                        },
                        WorkspaceAssignment::All => client,
                    },
            ),
            workspace_count: count,
            current: if self.current.0 >= count {
                final_workspace
            } else {
                self.current
            },
            last: if self.last.0 >= count {
                final_workspace
            } else {
                self.last
            },
            layout: WorkspaceLayout::row(count),
            recent: Map::total(
                |w: WorkspaceId|
                    if w.0 < count {
                        self.recent[w]
                    } else {
                        Seq::empty()
                    },
            ),
            ..self
        }
    }

    /// The desk with another number of workspaces, `moved` being the clients
    /// whose workspace went away.
    pub open spec fn resized(self, count: u32, moved: Seq<ClientId>) -> Desk {
        self.cut_to(count).gathered(moved, WorkspaceId((count - 1) as u32)).recovered()
    }

    /// The desk with an empty workspace inserted.
    pub open spec fn inserting(self, index: u32) -> Desk {
        let count = (self.workspace_count + 1) as u32;
        Desk {
            clients: self.clients.map_values(
                |client: Client|
                    match client.workspace {
                        WorkspaceAssignment::Workspace(w) => if w.0 >= index {
                            client.assigned(
                                WorkspaceAssignment::Workspace(WorkspaceId((w.0 + 1) as u32)),
                            )
                        } else {
                            client
                        },
                        WorkspaceAssignment::All => client,
                    },
            ),
            workspace_count: count,
            current: if self.current.0 > index {
                WorkspaceId((self.current.0 + 1) as u32)
            } else {
                self.current
            },
            last: if self.last.0 >= index {
                WorkspaceId((self.last.0 + 1) as u32)
            } else {
                self.last
            },
            layout: WorkspaceLayout::row(count),
            recent: Map::total(
                |w: WorkspaceId|
                    if w.0 < index {
                        self.recent[w]
                    } else if w.0 == index {
                        Seq::empty()
                    } else {
                        self.recent[WorkspaceId((w.0 - 1) as u32)]
                    },
            ),
            ..self
        }.recovered()
    }

    /// The workspace that takes in a removed one, counted after the removal.
    pub open spec fn merge_index(self, index: u32) -> u32 {
        if index + 1 < self.workspace_count {
            index
        } else {
            (index - 1) as u32
        }
    }

    /// The desk with a workspace merged into its neighbor.
    pub open spec fn removing(self, index: u32) -> Desk {
        let count = (self.workspace_count - 1) as u32;
        let kept = |w: WorkspaceId|
            WorkspaceId(after_removal(w.0 as int, index as int, count as int) as u32);
        let merge = self.merge_index(index);
        Desk {
            clients: self.clients.map_values(
                |client: Client|
                    match client.workspace {
                        WorkspaceAssignment::Workspace(w) => client.assigned(
                            WorkspaceAssignment::Workspace(kept(w)),
                        ),
                        WorkspaceAssignment::All => client,
                    },
            ),
            workspace_count: count,
            current: kept(self.current),
            last: kept(self.last),
            layout: WorkspaceLayout::row(count),
            recent: Map::total(
                |w: WorkspaceId|
                    if w.0 < merge {
                        self.recent[w]
                    } else if w.0 == merge {
                        merged(self.recent[w], self.recent[WorkspaceId((merge + 1) as u32)])
                    } else if w.0 < u32::MAX {
                        self.recent[WorkspaceId((w.0 + 1) as u32)]
                    } else {
                        Seq::empty()
                    },
            ),
            ..self
        }.recovered()
    }

    /// The managed client that another one is transient for.
    pub open spec fn managed_parent(self, id: ClientId) -> Option<ClientId> {
        match self.client(id).parent() {
            Some(parent) => if self.has(id) && self.has(parent) {
                Some(parent)
            } else {
                None
            },
            None => None,
        }
    }

    /// The end of a chain of parents, at most `steps` further on; a cycle ends
    /// where it closes.
    pub open spec fn parent_end(self, id: ClientId, passed: Seq<ClientId>, steps: nat) -> ClientId
        decreases steps,
    {
        if steps == 0 || passed.contains(id) {
            id
        } else {
            match self.managed_parent(id) {
                Some(parent) => self.parent_end(parent, passed.push(id), (steps - 1) as nat),
                None => id,
            }
        }
    }

    /// The top of a client's transient family.
    pub open spec fn family_top(self, id: ClientId) -> Option<ClientId> {
        if self.has(id) {
            Some(self.parent_end(id, Seq::empty(), self.managed.len() + 1))
        } else {
            None
        }
    }

    /// The clients of a sequence that are transient for one client.
    pub open spec fn transients_among(self, ids: Seq<ClientId>, parent: ClientId) -> Seq<ClientId>
        decreases ids.len(),
    {
        if ids.len() == 0 {
            Seq::empty()
        } else {
            let before = self.transients_among(ids.drop_last(), parent);
            if self.has(ids.last()) && self.client(ids.last()).is_transient_for(parent) {
                before.push(ids.last())
            } else {
                before
            }
        }
    }

    /// The clients of a sequence that are transient for a whole group.
    pub open spec fn group_transients_among(self, ids: Seq<ClientId>, group: ClientId) -> Seq<
        ClientId,
    >
        decreases ids.len(),
    {
        if ids.len() == 0 {
            Seq::empty()
        } else {
            let before = self.group_transients_among(ids.drop_last(), group);
            let client = self.client(ids.last());
            if self.has(ids.last()) && client.group == Some(group) && client.is_group_transient() {
                before.push(ids.last())
            } else {
                before
            }
        }
    }

    /// What is visited first for a family: its root, and the group transients
    /// of an ordinary root's group.
    pub open spec fn family_seeds(self, root: ClientId) -> Seq<ClientId> {
        let client = self.client(root);
        match client.group {
            Some(group) => if self.has(root) && !client.is_group_transient()
                && client.is_group_member() {
                seq![root] + self.group_transients_among(self.managed, group)
            } else {
                seq![root]
            },
            None => seq![root],
        }
    }

    /// A family completed by visiting what is pending, last first, and adding
    /// the transients of whatever was visited.
    pub open spec fn descended(self, pending: Seq<ClientId>, family: Seq<ClientId>) -> Seq<ClientId>
        decreases self.managed.len() - family.len(), pending.len(),
    {
        if pending.len() == 0 {
            family
        } else if family.contains(pending.last()) {
            self.descended(pending.drop_last(), family)
        } else if family.len() >= self.managed.len() {
            family
        } else {
            self.descended(
                pending.drop_last() + self.transients_among(self.managed, pending.last()),
                family.push(pending.last()),
            )
        }
    }

    /// A client with its transient family, in the order they are moved.
    pub open spec fn family_of(self, root: ClientId) -> Seq<ClientId> {
        self.descended(self.family_seeds(root), Seq::empty())
    }

    /// Clients of a sequence moved to an assignment they do not have yet.
    pub open spec fn assigning_all(self, ids: Seq<ClientId>, wanted: WorkspaceAssignment) -> Desk
        decreases ids.len(),
    {
        if ids.len() == 0 {
            self
        } else {
            let before = self.assigning_all(ids.drop_last(), wanted);
            let id = ids.last();
            if before.has(id) && before.client(id).workspace != wanted {
                before.with_client(before.client(id).assigned(wanted)).joined(id, wanted)
            } else {
                before
            }
        }
    }

    /// The clients of a sequence that a common assignment moves.
    pub open spec fn moved_among(self, ids: Seq<ClientId>, wanted: WorkspaceAssignment) -> Seq<
        ClientId,
    >
        decreases ids.len(),
    {
        if ids.len() == 0 {
            Seq::empty()
        } else {
            let before = self.moved_among(ids.drop_last(), wanted);
            let desk = self.assigning_all(ids.drop_last(), wanted);
            let id = ids.last();
            if desk.has(id) && desk.client(id).workspace != wanted {
                before.push(id)
            } else {
                before
            }
        }
    }

    /// A client's family moved to an assignment.
    pub open spec fn assigning_family(self, id: ClientId, assignment: WorkspaceAssignment) -> Desk {
        let wanted = self.existing(assignment);
        match self.family_top(id) {
            None => self,
            Some(root) => {
                let family = self.family_of(root);
                let assigned = self.assigning_all(family, wanted);
                if self.moved_among(family, wanted).len() == 0 {
                    assigned
                } else {
                    assigned.recovered()
                }
            },
        }
    }

    /// The family members that a family assignment moves.
    pub open spec fn moved_family(self, id: ClientId, assignment: WorkspaceAssignment) -> Seq<
        ClientId,
    > {
        match self.family_top(id) {
            None => Seq::empty(),
            Some(root) => self.moved_among(self.family_of(root), self.existing(assignment)),
        }
    }

    /// Whether a client reaches another one by following parents.
    pub open spec fn descends(self, client: ClientId, ancestor: ClientId, steps: nat) -> bool
        decreases steps,
    {
        if steps == 0 {
            false
        } else if client == ancestor {
            true
        } else {
            match self.client(client).parent() {
                Some(parent) => self.has(client) && self.descends(
                    parent,
                    ancestor,
                    (steps - 1) as nat,
                ),
                None => false,
            }
        }
    }

    /// Whether a client is another one or one of its specific descendants.
    pub open spec fn is_within(self, client: ClientId, ancestor: ClientId) -> bool {
        self.descends(client, ancestor, self.managed.len() + 1)
    }

    /// Whether focus leaves a covering client on top: nothing else is focused,
    /// the focused client belongs to it, it is not on the active workspace, or
    /// the focused client is on another output.
    pub open spec fn stays_on_top(
        self,
        client: Client,
        outputs: Seq<Output>,
        covered: crate::ids::OutputId,
    ) -> bool {
        match self.focused {
            None => true,
            Some(focused) => {
                ||| self.is_within(focused, client.id)
                ||| !client.workspace.shows_on(self.current)
                ||| !self.has(focused)
                ||| outputs::best_output(outputs, self.client(focused).geometry).id != covered
            },
        }
    }

    /// A client's own layer, before it inherits one.
    pub open spec fn own_layer(self, client: Client, outputs: Seq<Output>) -> StackingLayer {
        if client.fullscreen is Some {
            if self.stays_on_top(
                client,
                outputs,
                outputs::best_output(outputs, client.geometry).id,
            ) {
                StackingLayer::Fullscreen
            } else {
                client.windowed_layer()
            }
        } else if client.maximize is None && !client.policy.role.is_shell() && (
        client.output_coverage matches Some(coverage) && self.stays_on_top(
            client,
            outputs,
            coverage.0,
        )) {
            StackingLayer::Fullscreen
        } else {
            client.windowed_layer()
        }
    }

    /// The highest of a layer and the own layers of a client's parents.
    pub open spec fn inherited_layer(
        self,
        id: ClientId,
        layer: StackingLayer,
        outputs: Seq<Output>,
        steps: nat,
    ) -> StackingLayer
        decreases steps,
    {
        if steps == 0 {
            layer
        } else {
            match self.managed_parent(id) {
                Some(parent) => self.inherited_layer(
                    parent,
                    layer.highest(self.own_layer(self.client(parent), outputs)),
                    outputs,
                    (steps - 1) as nat,
                ),
                None => layer,
            }
        }
    }

    /// The layer a client is stacked in.
    pub open spec fn layer_of(self, id: ClientId, outputs: Seq<Output>) -> Option<StackingLayer> {
        if self.has(id) {
            Some(
                self.inherited_layer(
                    id,
                    self.own_layer(self.client(id), outputs),
                    outputs,
                    self.managed.len() + 1,
                ),
            )
        } else {
            None
        }
    }
}

/// Progress of ordering clients by layer.
#[verifier::ext_equal]
pub struct Visit {
    /// Clients entered so far, in the order they were entered.
    pub visited: Seq<ClientId>,
    /// Clients placed so far, from bottom to top.
    pub ordered: Seq<ClientId>,
}

impl Desk {
    /// Whether a group transient is kept above another client: a member of the
    /// same group in the same layer that is neither a group transient itself
    /// nor a descendant.
    pub open spec fn is_kept_below(
        self,
        peer: ClientId,
        id: ClientId,
        layer: StackingLayer,
        outputs: Seq<Output>,
    ) -> bool {
        &&& peer != id
        &&& self.has(peer)
        &&& self.has(id)
        &&& self.client(id).is_group_transient()
        &&& self.client(id).group is Some
        &&& self.client(peer).group == self.client(id).group
        &&& !self.client(peer).is_group_transient()
        &&& self.client(peer).is_group_member()
        &&& !self.is_within(peer, id)
        &&& self.layer_of(peer, outputs) == Some(layer)
    }

    /// One client placed after the clients it is kept above.
    pub open spec fn visiting(
        self,
        id: ClientId,
        layer: StackingLayer,
        outputs: Seq<Output>,
        visit: Visit,
        steps: nat,
    ) -> Visit
        decreases steps, 0nat,
    {
        if steps == 0 || visit.visited.contains(id) {
            visit
        } else {
            let entered = Visit { visited: visit.visited.push(id), ordered: visit.ordered };
            let after_peers = self.visiting_peers(
                id,
                self.stacking,
                layer,
                outputs,
                entered,
                (steps - 1) as nat,
            );
            let after_parent = match self.client(id).parent() {
                Some(parent) => if self.has(id) && self.layer_of(parent, outputs) == Some(layer) {
                    self.visiting(parent, layer, outputs, after_peers, (steps - 1) as nat)
                } else {
                    after_peers
                },
                None => after_peers,
            };
            Visit { visited: after_parent.visited, ordered: after_parent.ordered.push(id) }
        }
    }

    /// The clients of a sequence that one is kept above, placed in order.
    pub open spec fn visiting_peers(
        self,
        id: ClientId,
        peers: Seq<ClientId>,
        layer: StackingLayer,
        outputs: Seq<Output>,
        visit: Visit,
        steps: nat,
    ) -> Visit
        decreases steps, peers.len() + 1,
    {
        if peers.len() == 0 {
            visit
        } else {
            let before = self.visiting_peers(id, peers.drop_last(), layer, outputs, visit, steps);
            if self.is_kept_below(peers.last(), id, layer, outputs) {
                self.visiting(peers.last(), layer, outputs, before, steps)
            } else {
                before
            }
        }
    }

    /// The clients of a sequence that belong to a layer, placed in order.
    pub open spec fn visiting_layer(
        self,
        ids: Seq<ClientId>,
        layer: StackingLayer,
        outputs: Seq<Output>,
        visit: Visit,
    ) -> Visit
        decreases ids.len(),
    {
        if ids.len() == 0 {
            visit
        } else {
            let before = self.visiting_layer(ids.drop_last(), layer, outputs, visit);
            if self.layer_of(ids.last(), outputs) == Some(layer) {
                self.visiting(ids.last(), layer, outputs, before, self.managed.len())
            } else {
                before
            }
        }
    }

    /// The layers from bottom to top.
    pub open spec fn layers() -> Seq<StackingLayer> {
        seq![
            StackingLayer::Desktop,
            StackingLayer::Below,
            StackingLayer::Normal,
            StackingLayer::Dock,
            StackingLayer::Above,
            StackingLayer::Fullscreen,
        ]
    }

    /// All clients of some layers placed, layer by layer.
    pub open spec fn visiting_layers(
        self,
        layers: Seq<StackingLayer>,
        outputs: Seq<Output>,
    ) -> Visit
        decreases layers.len(),
    {
        if layers.len() == 0 {
            Visit { visited: Seq::empty(), ordered: Seq::empty() }
        } else {
            self.visiting_layer(
                self.stacking,
                layers.last(),
                outputs,
                self.visiting_layers(layers.drop_last(), outputs),
            )
        }
    }

    /// The policy order from bottom to top.
    pub open spec fn policy_order(self, outputs: Seq<Output>) -> Seq<ClientId> {
        self.visiting_layers(Desk::layers(), outputs).ordered
    }

    /// The distinct managed clients of an observed order.
    pub open spec fn observed(self, order: Seq<ClientId>) -> Seq<ClientId>
        decreases order.len(),
    {
        if order.len() == 0 {
            Seq::empty()
        } else {
            let before = self.observed(order.drop_last());
            if self.has(order.last()) && !before.contains(order.last()) {
                before.push(order.last())
            } else {
                before
            }
        }
    }

    /// A managed client put on top of the stacking order.
    pub open spec fn raising(self, id: ClientId) -> Desk {
        if self.has(id) {
            Desk { stacking: without(self.stacking, id).push(id), ..self }
        } else {
            self
        }
    }

    /// A managed client put at the bottom of the stacking order.
    pub open spec fn lowering(self, id: ClientId) -> Desk {
        if self.has(id) {
            Desk { stacking: seq![id] + without(self.stacking, id), ..self }
        } else {
            self
        }
    }

    /// The stacking order replaced by an observed one, below which clients that it does not hold
    /// keep their order.
    pub open spec fn restacked(self, order: Seq<ClientId>) -> Desk {
        let observed = self.observed(order);
        Desk { stacking: excluding(self.stacking, observed) + observed, ..self }
    }

    /// The workspace before or after the active one, around the ends.
    pub open spec fn stepped(self, direction: WorkspaceDirection) -> int {
        let count = self.workspace_count as int;
        let current = self.current.0 as int;
        match direction {
            WorkspaceDirection::Previous => (current + count - 1) % count,
            WorkspaceDirection::Next => (current + 1) % count,
            _ => current,
        }
    }

    /// Whether managed clients have the same top of their transient family.
    pub open spec fn share_a_family(self, left: ClientId, right: ClientId) -> bool {
        self.has(left) && self.has(right) && self.family_top(left) == self.family_top(right)
    }

    /// Whether managed clients are of the same application group or transient family.
    pub open spec fn are_related(self, left: ClientId, right: ClientId) -> bool {
        self.has(left) && self.has(right) && (left == right || (self.client(left).group is Some
            && self.client(left).group == self.client(right).group) || self.family_top(left)
            == self.family_top(right))
    }
}

} // verus!
