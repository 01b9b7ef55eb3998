//! The world as an agent session may see it.

use vstd::prelude::*;

use crate::agent::{AgentModel, AgentState, Generation, Sequence, SessionId};
use crate::capability::Capability;
use crate::clients::ClientSet;
use crate::desk;
use crate::desk::Desk;
use crate::geometry::Geometry;
use crate::ids::{ClientId, OutputId, WorkspaceId};
use crate::outputs;
use crate::outputs::{Output, OutputSet};
use crate::policy::{Client, ClientLayer, TransientTarget};
use crate::visibility::AgentVisibility;
use crate::workspace::WorkspaceAssignment;

verus! {

/// Facts only a display-server backend knows about a client.
///
/// The backend supplies these; this module decides what a session may see of
/// them.
pub trait ClientDetails {
    /// What identifies an application.
    type Application;

    /// Returns the client's application identity.
    fn application(&self, client: ClientId) -> Self::Application;

    /// Returns the client's current title, if it has one.
    fn title(&self, client: ClientId) -> Option<String>;

    /// Returns the client's decorated frame rectangle.
    fn frame(&self, client: ClientId) -> Geometry;

    /// Returns a workspace's configured name, if it has one.
    fn workspace_name(&self, workspace: WorkspaceId) -> Option<String>;

    /// Returns an output's backend name, if it has one.
    fn output_name(&self, output: OutputId) -> Option<String>;

    /// Returns an output's rectangle after panels reserve space.
    fn work_area(&self, output: OutputId) -> Geometry;
}

/// A rectangle as sessions are told of it.
#[derive(Clone, Copy, Debug, PartialEq, Eq, Structural)]
pub struct Rect {
    /// Left edge.
    pub x: i32,
    /// Top edge.
    pub y: i32,
    /// Width.
    pub width: u32,
    /// Height.
    pub height: u32,
}

impl Rect {
    /// Builds a rectangle.
    #[must_use]
    pub fn new(x: i32, y: i32, width: u32, height: u32) -> (rect: Self)
        ensures
            rect == (Rect { x, y, width, height }),
    {
        Rect { x, y, width, height }
    }
}

/// A policy rectangle as sessions are told of it.
pub open spec fn rect_of(geometry: Geometry) -> Rect {
    Rect { x: geometry.x, y: geometry.y, width: geometry.width, height: geometry.height }
}

/// Converts a policy rectangle to its protocol form.
#[must_use]
pub fn rect(geometry: Geometry) -> (rect: Rect)
    ensures
        rect == rect_of(geometry),
{
    Rect::new(geometry.x, geometry.y, geometry.width, geometry.height)
}

/// What state a client is in.
#[derive(Clone, Copy, Debug, PartialEq, Eq, Structural)]
pub struct ClientState {
    /// It has the focus.
    pub focused: bool,
    /// It is on the active workspace.
    pub visible: bool,
    /// It is iconic.
    pub minimized: bool,
    /// It fills the work area's width.
    pub maximized_horizontal: bool,
    /// It fills the work area's height.
    pub maximized_vertical: bool,
    /// It fills an output.
    pub fullscreen: bool,
    /// Only its titlebar shows.
    pub shaded: bool,
    /// It is on every workspace.
    pub sticky: bool,
    /// It is kept above ordinary clients.
    pub above: bool,
    /// It is kept below ordinary clients.
    pub below: bool,
    /// It asks for attention.
    pub urgent: bool,
    /// It blocks the client it belongs to.
    pub modal: bool,
    /// It has a border or a titlebar.
    pub decorated: bool,
}

/// The state that a managed client is in.
pub open spec fn state_of(desk: Desk, client: Client) -> ClientState {
    ClientState {
        focused: desk.focused == Some(client.id),
        visible: desk.has(client.id) && desk.shows(desk.client(client.id)),
        minimized: client.iconic,
        maximized_horizontal: client.maximize matches Some(maximize) && maximize.horizontal,
        maximized_vertical: client.maximize matches Some(maximize) && maximize.vertical,
        fullscreen: client.fullscreen is Some,
        shaded: client.shaded,
        sticky: client.workspace is All,
        above: client.layer == ClientLayer::Above,
        below: client.layer == ClientLayer::Below,
        urgent: client.presentation.urgent,
        modal: client.modal,
        decorated: client.policy.decorations.shows(),
    }
}

/// The workspace that a client is told to be on, none for every one.
pub open spec fn workspace_of(client: Client) -> Option<WorkspaceId> {
    match client.workspace {
        WorkspaceAssignment::All => None,
        WorkspaceAssignment::Workspace(workspace) => Some(workspace),
    }
}

/// The client that a client belongs to.
pub open spec fn parent_of(client: Client) -> Option<ClientId> {
    match client.transient_for {
        Some(TransientTarget::Client(parent)) => Some(parent),
        _ => None,
    }
}

/// One client as a session may see it.
#[derive(Clone, Debug, PartialEq, Eq)]
pub struct ClientDescriptor<A> {
    /// The client.
    pub client: ClientId,
    /// How often it has changed.
    pub generation: Generation,
    /// Which application it belongs to.
    pub application: A,
    /// Its title, unless that is withheld.
    pub title: Option<String>,
    /// Whether its configuration withholds what it shows.
    pub redacted: bool,
    /// Its content rectangle.
    pub content: Rect,
    /// Its decorated rectangle.
    pub frame: Rect,
    /// Its workspace, none when it is on every one.
    pub workspace: Option<WorkspaceId>,
    /// The output that it is on.
    pub output: Option<OutputId>,
    /// Its state.
    pub state: ClientState,
    /// The client that it belongs to, unless that is absent to the session.
    pub transient_for: Option<ClientId>,
}

/// One output as sessions are told of it.
#[derive(Clone, Debug, PartialEq, Eq)]
pub struct OutputDescriptor {
    /// The output.
    pub output: OutputId,
    /// Its name.
    pub name: Option<String>,
    /// Its rectangle.
    pub geometry: Rect,
    /// Its rectangle after panels reserve space.
    pub work_area: Rect,
    /// Whether it is the primary output.
    pub primary: bool,
}

/// One workspace as sessions are told of it.
#[derive(Clone, Debug, PartialEq, Eq)]
pub struct WorkspaceDescriptor {
    /// The workspace.
    pub workspace: WorkspaceId,
    /// Its name.
    pub name: Option<String>,
}

/// The whole world model as a session may see it.
#[derive(Clone, Debug, PartialEq, Eq)]
pub struct DesktopSnapshot<A> {
    /// The point that the snapshot corresponds to.
    pub sequence: Sequence,
    /// The outputs in discovery order.
    pub outputs: Vec<OutputDescriptor>,
    /// The workspaces in order.
    pub workspaces: Vec<WorkspaceDescriptor>,
    /// The active workspace.
    pub current_workspace: WorkspaceId,
    /// The focused client, unless it is absent to the session.
    pub focused: Option<ClientId>,
    /// The perceived clients from bottom to top.
    pub stacking: Vec<ClientId>,
    /// The perceived clients in management order.
    pub clients: Vec<ClientDescriptor<A>>,
}

impl AgentModel {
    /// Whether a session is shown a client.
    pub open spec fn shows(self, session: SessionId, desk: Desk, client: ClientId) -> bool {
        self.perceives(session, client) && desk.has(client)
    }

    /// The clients among some that a session is shown.
    pub open spec fn shown(self, session: SessionId, desk: Desk, ids: Seq<ClientId>) -> Seq<
        ClientId,
    >
        decreases ids.len(),
    {
        if ids.len() == 0 {
            Seq::empty()
        } else {
            let before = self.shown(session, desk, ids.drop_last());
            if self.shows(session, desk, ids.last()) {
                before.push(ids.last())
            } else {
                before
            }
        }
    }

    /// The focus that a session is told of.
    pub open spec fn shown_focus(self, session: SessionId, desk: Desk) -> Option<ClientId> {
        match desk.focused {
            Some(client) => if self.shows(session, desk, client) {
                Some(client)
            } else {
                None
            },
            None => None,
        }
    }

    /// Whether a session is shown a client's title.
    pub open spec fn shows_title(self, session: SessionId, client: ClientId) -> bool {
        &&& self.visibility_of(client) != AgentVisibility::Redacted
        &&& self.sessions[session.0].grant.capabilities.contains(Capability::ObserveTitles)
    }

    /// Whether a descriptor tells a session of a client, with what the backend said of it.
    pub open spec fn describes<D: ClientDetails>(
        self,
        session: SessionId,
        client: ClientId,
        desk: Desk,
        outputs: Seq<Output>,
        details: &D,
        descriptor: ClientDescriptor<D::Application>,
    ) -> bool {
        let managed = desk.client(client);
        &&& descriptor.client == client
        &&& descriptor.generation == self.generation_of(client)
        &&& call_ensures(D::application, (details, client), descriptor.application)
        &&& if self.shows_title(session, client) {
            call_ensures(D::title, (details, client), descriptor.title)
        } else {
            descriptor.title is None
        }
        &&& descriptor.redacted == (self.visibility_of(client) == AgentVisibility::Redacted)
        &&& descriptor.content == rect_of(managed.geometry)
        &&& exists|frame: Geometry| #[trigger]
            call_ensures(D::frame, (details, client), frame) && descriptor.frame == rect_of(frame)
        &&& descriptor.workspace == workspace_of(managed)
        &&& descriptor.output == Some(outputs::best_output(outputs, managed.geometry).id)
        &&& descriptor.state == state_of(desk, managed)
        &&& descriptor.transient_for == self.shown_parent(session, desk, managed)
    }

    /// The client that a session is told another one belongs to, if it is shown that client.
    pub open spec fn shown_parent(self, session: SessionId, desk: Desk, client: Client) -> Option<
        ClientId,
    > {
        match parent_of(client) {
            Some(parent) => if self.shows(session, desk, parent) {
                Some(parent)
            } else {
                None
            },
            None => None,
        }
    }
}

/// Whether a descriptor tells of an output, with what the backend said of it.
pub open spec fn describes_output<D: ClientDetails>(
    details: &D,
    output: Output,
    descriptor: OutputDescriptor,
) -> bool {
    &&& descriptor.output == output.id
    &&& call_ensures(D::output_name, (details, output.id), descriptor.name)
    &&& descriptor.geometry == rect_of(output.geometry)
    &&& exists|area: Geometry| #[trigger]
        call_ensures(D::work_area, (details, output.id), area) && descriptor.work_area == rect_of(
            area,
        )
    &&& descriptor.primary == output.primary
}

/// Whether a descriptor tells of a workspace, with what the backend said of it.
pub open spec fn describes_workspace<D: ClientDetails>(
    details: &D,
    workspace: WorkspaceId,
    descriptor: WorkspaceDescriptor,
) -> bool {
    &&& descriptor.workspace == workspace
    &&& call_ensures(D::workspace_name, (details, workspace), descriptor.name)
}

fn client_state(clients: &ClientSet, client: &Client) -> (state: ClientState)
    ensures
        state == state_of(clients@, *client),
{
    let (horizontal, vertical) = match &client.maximize {
        Some(maximize) => (maximize.horizontal, maximize.vertical),
        None => (false, false),
    };
    ClientState {
        focused: match clients.focused() {
            Some(focused) => focused == client.id,
            None => false,
        },
        visible: clients.is_visible(client.id),
        minimized: client.iconic,
        maximized_horizontal: horizontal,
        maximized_vertical: vertical,
        fullscreen: client.fullscreen.is_some(),
        shaded: client.shaded,
        sticky: matches!(client.workspace, WorkspaceAssignment::All),
        above: matches!(client.layer, ClientLayer::Above),
        below: matches!(client.layer, ClientLayer::Below),
        urgent: client.presentation.urgent,
        modal: client.modal,
        decorated: client.policy.decorations.is_present(),
    }
}

fn describe_outputs<D: ClientDetails>(outputs: &OutputSet, details: &D) -> (descriptors: Vec<
    OutputDescriptor,
>)
    ensures
        descriptors@.len() == outputs@.len(),
        forall|i: int|
            0 <= i < outputs@.len() ==> describes_output(
                details,
                outputs@[i],
                #[trigger] descriptors@[i],
            ),
{
    let list = outputs.outputs();
    let mut descriptors: Vec<OutputDescriptor> = Vec::new();
    while descriptors.len() < list.len()
        invariant
            descriptors.len() <= list.len(),
            list@ == outputs@,
            forall|i: int|
                0 <= i < descriptors@.len() ==> describes_output(
                    details,
                    outputs@[i],
                    #[trigger] descriptors@[i],
                ),
        decreases list.len() - descriptors.len(),
    {
        let output = list[descriptors.len()];
        let area = details.work_area(output.id);
        let name = details.output_name(output.id);
        descriptors.push(
            OutputDescriptor {
                output: output.id,
                name,
                geometry: rect(output.geometry),
                work_area: rect(area),
                primary: output.primary,
            },
        );
    }
    descriptors
}

fn describe_workspaces<D: ClientDetails>(count: u32, details: &D) -> (descriptors: Vec<
    WorkspaceDescriptor,
>)
    ensures
        descriptors@.len() == count,
        forall|i: int|
            0 <= i < count ==> describes_workspace(
                details,
                WorkspaceId(i as u32),
                #[trigger] descriptors@[i],
            ),
{
    let mut descriptors: Vec<WorkspaceDescriptor> = Vec::new();
    let mut index: u32 = 0;
    while index < count
        invariant
            index <= count,
            descriptors@.len() == index,
            forall|i: int|
                0 <= i < index ==> describes_workspace(
                    details,
                    WorkspaceId(i as u32),
                    #[trigger] descriptors@[i],
                ),
        decreases count - index,
    {
        let workspace = WorkspaceId::new(index);
        let name = details.workspace_name(workspace);
        descriptors.push(WorkspaceDescriptor { workspace, name });
        index = index + 1;
    }
    descriptors
}

impl AgentState {
    /// Builds one client descriptor as `session` may see it, or `None` when
    /// the session cannot perceive the client.
    #[must_use]
    pub fn descriptor<D: ClientDetails>(
        &self,
        session: SessionId,
        client: ClientId,
        clients: &ClientSet,
        outputs: &OutputSet,
        details: &D,
    ) -> (descriptor: Option<ClientDescriptor<D::Application>>)
        requires
            self.wf(),
        ensures
            match descriptor {
                Some(descriptor) => self@.shows(session, clients@, client) && self@.describes(
                    session,
                    client,
                    clients@,
                    outputs@,
                    details,
                    descriptor,
                ),
                None => !self@.shows(session, clients@, client),
            },
    {
        if !self.perceives(session, client) {
            return None;
        }
        let state = match self.session(session) {
            Some(state) => state,
            None => return None,
        };
        let managed = match clients.get(client) {
            Some(managed) => managed,
            None => return None,
        };
        let redacted = self.visibility(client) == AgentVisibility::Redacted;
        let titles = state.grant().capabilities().holds(Capability::ObserveTitles);
        let title = if redacted || !titles {
            None
        } else {
            details.title(client)
        };
        let application = details.application(client);
        let frame = details.frame(client);
        let geometry = managed.geometry;
        Some(
            ClientDescriptor {
                client,
                generation: self.generation(client),
                application,
                title,
                redacted,
                content: rect(geometry),
                frame: rect(frame),
                workspace: match managed.workspace {
                    WorkspaceAssignment::All => None,
                    WorkspaceAssignment::Workspace(workspace) => Some(workspace),
                },
                output: Some(outputs.output_for(geometry).id),
                state: client_state(clients, managed),
                transient_for: match managed.transient_for {
                    Some(TransientTarget::Client(parent)) => if self.perceives(session, parent)
                        && clients.contains(parent) {
                        Some(parent)
                    } else {
                        None
                    },
                    Some(TransientTarget::Group) | None => None,
                },
            },
        )
    }

    /// The descriptors of the clients that a session is shown, in management order.
    fn describe_clients<D: ClientDetails>(
        &self,
        session: SessionId,
        clients: &ClientSet,
        outputs: &OutputSet,
        details: &D,
    ) -> (descriptors: Vec<ClientDescriptor<D::Application>>)
        requires
            self.wf(),
        ensures
            descriptors@.len() == self@.shown(session, clients@, clients@.managed).len(),
            forall|i: int|
                0 <= i < descriptors@.len() ==> self@.describes(
                    session,
                    self@.shown(session, clients@, clients@.managed)[i],
                    clients@,
                    outputs@,
                    details,
                    #[trigger] descriptors@[i],
                ),
    {
        let ids = clients.management_order();
        let ghost desk = clients@;
        let mut descriptors: Vec<ClientDescriptor<D::Application>> = Vec::new();
        let mut index: usize = 0;
        while index < ids.len()
            invariant
                index <= ids.len(),
                ids@ == desk.managed,
                desk == clients@,
                self.wf(),
                descriptors@.len() == self@.shown(session, desk, ids@.take(index as int)).len(),
                forall|i: int|
                    0 <= i < descriptors@.len() ==> self@.describes(
                        session,
                        self@.shown(session, desk, ids@.take(index as int))[i],
                        desk,
                        outputs@,
                        details,
                        #[trigger] descriptors@[i],
                    ),
            decreases ids.len() - index,
        {
            assert(ids@.take(index + 1).drop_last() =~= ids@.take(index as int));
            if let Some(descriptor) = self.descriptor(
                session,
                ids[index],
                clients,
                outputs,
                details,
            ) {
                descriptors.push(descriptor);
            }
            index = index + 1;
        }
        assert(ids@.take(index as int) =~= ids@);
        descriptors
    }

    /// The clients among some that a session is shown.
    fn shown_among(&self, session: SessionId, clients: &ClientSet, ids: &[ClientId]) -> (shown: Vec<
        ClientId,
    >)
        requires
            self.wf(),
        ensures
            shown@ == self@.shown(session, clients@, ids@),
    {
        let mut shown: Vec<ClientId> = Vec::new();
        let mut index: usize = 0;
        assert(ids@.take(0) =~= Seq::empty());
        while index < ids.len()
            invariant
                index <= ids.len(),
                self.wf(),
                shown@ == self@.shown(session, clients@, ids@.take(index as int)),
            decreases ids.len() - index,
        {
            assert(ids@.take(index + 1).drop_last() =~= ids@.take(index as int));
            let client = ids[index];
            if self.perceives(session, client) && clients.contains(client) {
                shown.push(client);
            }
            index = index + 1;
        }
        assert(ids@.take(index as int) =~= ids@);
        shown
    }

    /// Builds the whole world model as `session` may see it.
    #[must_use]
    pub fn snapshot<D: ClientDetails>(
        &self,
        session: SessionId,
        clients: &ClientSet,
        outputs: &OutputSet,
        details: &D,
    ) -> (snapshot: DesktopSnapshot<D::Application>)
        requires
            self.wf(),
            clients@.wf(),
        ensures
            snapshot.sequence == self@.sequence,
            snapshot.outputs@.len() == outputs@.len(),
            forall|i: int|
                0 <= i < outputs@.len() ==> describes_output(
                    details,
                    outputs@[i],
                    #[trigger] snapshot.outputs@[i],
                ),
            snapshot.workspaces@.len() == clients@.workspace_count,
            forall|i: int|
                0 <= i < clients@.workspace_count ==> describes_workspace(
                    details,
                    WorkspaceId(i as u32),
                    #[trigger] snapshot.workspaces@[i],
                ),
            snapshot.current_workspace == clients@.current,
            snapshot.focused == self@.shown_focus(session, clients@),
            snapshot.stacking@ == self@.shown(session, clients@, clients@.stacking),
            snapshot.clients@.len() == self@.shown(session, clients@, clients@.managed).len(),
            forall|i: int|
                0 <= i < snapshot.clients@.len() ==> self@.describes(
                    session,
                    self@.shown(session, clients@, clients@.managed)[i],
                    clients@,
                    outputs@,
                    details,
                    #[trigger] snapshot.clients@[i],
                ),
    {
        let descriptors = self.describe_clients(session, clients, outputs, details);
        let stacking = self.shown_among(session, clients, clients.stacking());
        let focused = match clients.focused() {
            Some(client) => if self.perceives(session, client) {
                Some(client)
            } else {
                None
            },
            None => None,
        };
        DesktopSnapshot {
            sequence: self.sequence(),
            outputs: describe_outputs(outputs, details),
            workspaces: describe_workspaces(clients.workspace_count(), details),
            current_workspace: clients.current_workspace(),
            focused,
            stacking,
            clients: descriptors,
        }
    }
}

/// The desk as if a client had never been managed.
pub open spec fn without_client(desk: Desk, client: ClientId) -> Desk {
    Desk { clients: desk.clients.remove(client.0), ..desk }
}

/// A client that a session does not perceive is indistinguishable from one that was never
/// managed: the session is shown the same clients in the same order, and the same focus.
pub proof fn law_hidden_clients_might_as_well_not_exist(
    state: AgentModel,
    session: SessionId,
    desk: Desk,
    client: ClientId,
    ids: Seq<ClientId>,
)
    requires
        !state.perceives(session, client),
    ensures
        !state.shown(session, desk, ids).contains(client),
        state.shown(session, desk, ids) == state.shown(
            session,
            without_client(desk, client),
            desk::without(ids, client),
        ),
        state.shown_focus(session, desk) != Some(client),
        state.shown_focus(session, desk) == state.shown_focus(
            session,
            without_client(desk, client),
        ),
    decreases ids.len(),
{
    if ids.len() > 0 {
        law_hidden_clients_might_as_well_not_exist(state, session, desk, client, ids.drop_last());
        let before = state.shown(session, desk, ids.drop_last());
        let after = state.shown(session, desk, ids);
        let kept = desk::without(ids.drop_last(), client);
        assert(kept.push(ids.last()).drop_last() =~= kept);
        if after.contains(client) {
            let i = choose|i: int| 0 <= i < after.len() && after[i] == client;
            if i < before.len() {
                assert(before[i] == client);
                assert(before.contains(client));
            }
        }
    }
}

/// Nothing that a session is told of a client gives away one that it does not perceive, whether
/// that one is hidden or out of scope: a descriptor tells of a shown client exactly if it would
/// have without the other one.
pub proof fn law_descriptors_give_no_hidden_client_away<D: ClientDetails>(
    state: AgentModel,
    session: SessionId,
    client: ClientId,
    desk: Desk,
    outputs: Seq<Output>,
    details: &D,
    descriptor: ClientDescriptor<D::Application>,
    hidden: ClientId,
)
    requires
        desk.wf(),
        state.shows(session, desk, client),
        !state.perceives(session, hidden),
    ensures
        state.shows(session, without_client(desk, hidden), client),
        state.describes(session, client, desk, outputs, details, descriptor) == state.describes(
            session,
            client,
            without_client(desk, hidden),
            outputs,
            details,
            descriptor,
        ),
        state.describes(session, client, desk, outputs, details, descriptor)
            ==> descriptor.client != hidden && descriptor.transient_for != Some(hidden),
{
    let without = without_client(desk, hidden);
    assert(client.0 != hidden.0);
    assert(without.client(client) == desk.client(client));
    assert(state.shown_parent(session, without, desk.client(client)) == state.shown_parent(
        session,
        desk,
        desk.client(client),
    )) by {
        if let Some(parent) = parent_of(desk.client(client)) {
            if parent != hidden {
                assert(parent.0 != hidden.0);
            }
        }
    }
    assert(state_of(without, desk.client(client)) == state_of(desk, desk.client(client)));
}

/// A session is shown exactly the clients that it perceives and that are managed.
pub proof fn law_shown_clients_are_the_perceived_ones(
    state: AgentModel,
    session: SessionId,
    desk: Desk,
    ids: Seq<ClientId>,
    client: ClientId,
)
    ensures
        state.shown(session, desk, ids).contains(client) == (ids.contains(client) && state.shows(
            session,
            desk,
            client,
        )),
    decreases ids.len(),
{
    if ids.len() > 0 {
        let rest = ids.drop_last();
        law_shown_clients_are_the_perceived_ones(state, session, desk, rest, client);
        let before = state.shown(session, desk, rest);
        let after = state.shown(session, desk, ids);
        if rest.contains(client) {
            let i = choose|i: int| 0 <= i < rest.len() && rest[i] == client;
            assert(ids[i] == client);
        }
        if before.contains(client) {
            let i = choose|i: int| 0 <= i < before.len() && before[i] == client;
            assert(after[i] == client);
        }
        if ids.contains(client) && !rest.contains(client) {
            let i = choose|i: int| 0 <= i < ids.len() && ids[i] == client;
            if i < rest.len() {
                assert(rest[i] == client);
            }
        }
        if after.contains(client) && !before.contains(client) {
            let i = choose|i: int| 0 <= i < after.len() && after[i] == client;
            if i < before.len() {
                assert(before[i] == client);
            }
        }
        if ids.last() == client && state.shows(session, desk, client) {
            assert(after[before.len() as int] == client);
            assert(ids[ids.len() - 1] == client);
        }
    }
}

/// Titles need their own atom, and a redacted client keeps its rectangle and loses its title.
pub proof fn law_titles_are_withheld<D: ClientDetails>(
    state: AgentModel,
    session: SessionId,
    client: ClientId,
    desk: Desk,
    outputs: Seq<Output>,
    details: &D,
    descriptor: ClientDescriptor<D::Application>,
)
    requires
        state.describes(session, client, desk, outputs, details, descriptor),
    ensures
        !state.sessions[session.0].grant.capabilities.contains(Capability::ObserveTitles)
            ==> descriptor.title is None,
        state.visibility_of(client) == AgentVisibility::Redacted ==> descriptor.title is None
            && descriptor.redacted && descriptor.content == rect_of(desk.client(client).geometry),
        state.visibility_of(client) != AgentVisibility::Redacted ==> !descriptor.redacted,
{
}

} // verus!
