//! What agent sessions see and may do.

use nobox::{
    AgentState, AgentVisibility, Capability, CapabilitySet, Client, ClientDetails, ClientId,
    ClientLayer, ClientPolicy, ClientPresentation, ClientRole, ClientSet, DecorationOverride,
    ErrorCode, Generation, Geometry, Grant, Gravity, Output, OutputId, OutputSet, ProtocolError,
    Rect, Sequence, SessionId, SessionStatus, SizeHints, TransientTarget,
    WorkspaceAssignment, WorkspaceId,
};

struct Details;

impl ClientDetails for Details {
    type Application = String;

    fn application(&self, client: ClientId) -> String {
        format!("Class{}", client.raw())
    }

    fn title(&self, client: ClientId) -> Option<String> {
        Some(format!("title {}", client.raw()))
    }

    fn frame(&self, _client: ClientId) -> Geometry {
        Geometry::new(0, 0, 120, 140)
    }

    fn workspace_name(&self, workspace: WorkspaceId) -> Option<String> {
        Some(format!("workspace {}", workspace.index() + 1))
    }

    fn output_name(&self, _output: OutputId) -> Option<String> {
        Some("HEAD-0".to_owned())
    }

    fn work_area(&self, _output: OutputId) -> Geometry {
        Geometry::new(0, 20, 800, 580)
    }
}

fn client(id: u64) -> Client {
    Client {
        id: ClientId::new(id),
        geometry: Geometry::new(10, 10, 100, 120),
        size_hints: SizeHints::default(),
        gravity: Gravity::default(),
        policy: ClientPolicy::for_role(ClientRole::Normal),
        natural_decorations: ClientPolicy::for_role(ClientRole::Normal).decorations,
        decoration_override: DecorationOverride::Default,
        presentation: ClientPresentation::default(),
        transient_for: None,
        group: None,
        modal: false,
        iconic: false,
        shaded: false,
        workspace: WorkspaceAssignment::Workspace(WorkspaceId::new(0)),
        layer: ClientLayer::Normal,
        maximize: None,
        fullscreen: None,
        output_coverage: None,
    }
}

fn desktop() -> (ClientSet, OutputSet) {
    let mut clients = ClientSet::default();
    clients.set_workspace_count(4);
    clients.manage(client(1));
    clients.manage(client(2));
    clients.manage(client(3));
    let outputs = OutputSet::new(&[Output {
        id: OutputId::new(0),
        geometry: Geometry::new(0, 0, 800, 600),
        primary: true,
    }]);
    (clients, outputs)
}

fn session(state: &mut AgentState, grant: Grant) -> SessionId {
    let id = SessionId::new(1);
    state.open(id, grant);
    id
}

fn observe_all(state: &mut AgentState, clients: &ClientSet, visible: AgentVisibility) {
    for client in clients.management_order().to_vec() {
        state.observe_client(client, visible, &|_| true);
    }
}

/// The atoms that a look at the desktop needs.
fn observing() -> CapabilitySet {
    CapabilitySet::empty().with(Capability::ObserveStructure)
}

/// The atoms that a switch of the workspace needs.
fn managing() -> CapabilitySet {
    CapabilitySet::empty().with(Capability::ManageActivate)
}

#[test]
fn a_hidden_client_is_absent_from_snapshots_and_from_perception() {
    let (clients, outputs) = desktop();
    let mut state = AgentState::new();
    let id = session(
        &mut state,
        Grant::new(CapabilitySet::of(&[
            Capability::ObserveStructure,
            Capability::ObserveTitles,
        ])),
    );
    observe_all(&mut state, &clients, AgentVisibility::Visible);
    state.observe_client(ClientId::new(2), AgentVisibility::Hidden, &|_| true);

    let snapshot = state.snapshot(id, &clients, &outputs, &Details);
    let seen: Vec<u64> = snapshot
        .clients
        .iter()
        .map(|descriptor| descriptor.client.raw())
        .collect();
    assert_eq!(seen, vec![1, 3]);
    assert!(!snapshot.stacking.contains(&ClientId::new(2)));
    assert!(!state.perceives(id, ClientId::new(2)));
    assert!(
        state
            .descriptor(id, ClientId::new(2), &clients, &outputs, &Details)
            .is_none()
    );
}

#[test]
fn a_redacted_client_keeps_its_geometry_and_loses_its_title() {
    let (clients, outputs) = desktop();
    let mut state = AgentState::new();
    let id = session(
        &mut state,
        Grant::new(CapabilitySet::of(&[
            Capability::ObserveStructure,
            Capability::ObserveTitles,
        ])),
    );
    observe_all(&mut state, &clients, AgentVisibility::Visible);
    state.observe_client(ClientId::new(2), AgentVisibility::Redacted, &|_| true);

    let descriptor = state
        .descriptor(id, ClientId::new(2), &clients, &outputs, &Details)
        .expect("present");
    assert!(descriptor.redacted);
    assert_eq!(descriptor.title, None);
    assert_eq!(descriptor.content, Rect::new(10, 10, 100, 120));
}

#[test]
fn titles_require_their_own_atom() {
    let (clients, outputs) = desktop();
    let mut state = AgentState::new();
    let id = session(
        &mut state,
        Grant::new(CapabilitySet::empty().with(Capability::ObserveStructure)),
    );
    observe_all(&mut state, &clients, AgentVisibility::Visible);
    let descriptor = state
        .descriptor(id, ClientId::new(1), &clients, &outputs, &Details)
        .expect("present");
    assert_eq!(descriptor.title, None);
    assert!(!descriptor.redacted, "withholding a title is not redaction");
}

#[test]
fn scope_makes_other_clients_absent_rather_than_inert() {
    let (clients, outputs) = desktop();
    let mut state = AgentState::new();
    let id = session(
        &mut state,
        Grant::scoped(CapabilitySet::empty().with(Capability::ObserveStructure)),
    );
    for client in clients.management_order().to_vec() {
        let matches = client == ClientId::new(3);
        state.observe_client(client, AgentVisibility::Visible, &|_| matches);
    }
    let snapshot = state.snapshot(id, &clients, &outputs, &Details);
    let seen: Vec<u64> = snapshot
        .clients
        .iter()
        .map(|descriptor| descriptor.client.raw())
        .collect();
    assert_eq!(seen, vec![3]);
    assert!(!state.perceives(id, ClientId::new(1)));
    assert_eq!(snapshot.stacking, vec![ClientId::new(3)]);
}

#[test]
fn focus_outside_the_scope_is_not_reported() {
    let (mut clients, outputs) = desktop();
    clients.focus(ClientId::new(1));
    let mut state = AgentState::new();
    let id = session(
        &mut state,
        Grant::scoped(CapabilitySet::empty().with(Capability::ObserveStructure)),
    );
    for client in clients.management_order().to_vec() {
        let matches = client == ClientId::new(3);
        state.observe_client(client, AgentVisibility::Visible, &|_| matches);
    }
    let snapshot = state.snapshot(id, &clients, &outputs, &Details);
    assert_eq!(snapshot.focused, None);
}

#[test]
fn authorization_requires_every_atom_a_call_needs() {
    let mut state = AgentState::new();
    let id = session(
        &mut state,
        Grant::new(CapabilitySet::empty().with(Capability::ObserveStructure)),
    );
    state
        .authorize(id, &observing())
        .expect("observe is granted");
    let denied = state
        .authorize(
            id,
            &managing(),
        )
        .expect_err("manage is not granted");
    assert_eq!(denied.code, ErrorCode::Denied);
}

#[test]
fn frozen_and_revoked_sessions_are_distinguishable_and_both_refuse() {
    let mut state = AgentState::new();
    let id = session(
        &mut state,
        Grant::new(CapabilitySet::empty().with(Capability::ObserveStructure)),
    );
    state.set_status(id, SessionStatus::Frozen);
    assert_eq!(
        state
            .authorize(id, &observing())
            .expect_err("frozen")
            .code,
        ErrorCode::SessionFrozen
    );
    state.set_status(id, SessionStatus::Revoked);
    assert_eq!(
        state
            .authorize(id, &observing())
            .expect_err("revoked")
            .code,
        ErrorCode::SessionRevoked
    );
    state.close(id);
    assert_eq!(
        state
            .authorize(id, &observing())
            .expect_err("closed")
            .code,
        ErrorCode::SessionRevoked
    );
}

#[test]
fn generations_and_sequences_advance_independently_per_client() {
    let mut state = AgentState::new();
    state.observe_client(ClientId::new(1), AgentVisibility::Visible, &|_| true);
    state.observe_client(ClientId::new(2), AgentVisibility::Visible, &|_| true);
    assert_eq!(state.generation(ClientId::new(1)), Generation::first());

    let (generation, sequence) = state.touch(ClientId::new(1));
    assert_eq!(generation, Generation::new(2));
    assert_eq!(sequence, Sequence::new(1));
    assert_eq!(state.generation(ClientId::new(2)), Generation::first());

    let (generation, sequence) = state.touch(ClientId::new(1));
    assert_eq!(generation, Generation::new(3));
    assert_eq!(sequence, Sequence::new(2));
    assert_eq!(state.sequence(), Sequence::new(2));
}

#[test]
fn forgetting_a_client_clears_its_visibility_and_scope_membership() {
    let (clients, outputs) = desktop();
    let mut state = AgentState::new();
    let id = session(
        &mut state,
        Grant::scoped(CapabilitySet::empty().with(Capability::ObserveStructure)),
    );
    state.observe_client(ClientId::new(1), AgentVisibility::Hidden, &|_| true);
    assert!(!state.perceives(id, ClientId::new(1)));
    state.forget_client(ClientId::new(1));
    assert_eq!(state.visibility(ClientId::new(1)), AgentVisibility::Visible);
    assert!(
        !state.perceives(id, ClientId::new(1)),
        "a forgotten client is outside every scope"
    );
    assert!(
        state
            .descriptor(id, ClientId::new(1), &clients, &outputs, &Details)
            .is_none()
    );
}

#[test]
fn snapshots_report_the_sequence_they_correspond_to() {
    let (clients, outputs) = desktop();
    let mut state = AgentState::new();
    let id = session(
        &mut state,
        Grant::new(CapabilitySet::empty().with(Capability::ObserveStructure)),
    );
    observe_all(&mut state, &clients, AgentVisibility::Visible);
    state.touch(ClientId::new(1));
    let snapshot = state.snapshot(id, &clients, &outputs, &Details);
    assert_eq!(snapshot.sequence, state.sequence());
    assert_eq!(snapshot.workspaces.len(), 4);
    assert_eq!(snapshot.current_workspace, WorkspaceId::new(0));
    assert_eq!(snapshot.outputs.len(), 1);
    assert_eq!(
        snapshot.outputs[0].work_area,
        Rect::new(0, 20, 800, 580)
    );
}

#[test]
fn sessions_are_listed_by_number_and_closed_once() {
    let mut state = AgentState::new();
    assert!(state.is_empty());
    for raw in [7, 2, 9] {
        state.open(SessionId::new(raw), Grant::denied());
    }
    state.open(SessionId::new(2), Grant::new(observing()));
    let listed: Vec<u64> = state.sessions().iter().map(|(id, _)| id.raw()).collect();
    assert_eq!(listed, vec![2, 7, 9]);
    let reopened = state.session(SessionId::new(2)).expect("open");
    assert!(reopened.grant().capabilities().holds(Capability::ObserveStructure));
    assert_eq!(reopened.status(), SessionStatus::Active);
    assert!(state.close(SessionId::new(7)));
    assert!(!state.close(SessionId::new(7)));
    assert!(state.session(SessionId::new(7)).is_none());
    assert!(!state.is_empty());
}

#[test]
fn refusals_say_why() {
    let mut state = AgentState::new();
    assert_eq!(
        state.authorize(SessionId::new(5), &observing()),
        Err(ProtocolError { code: ErrorCode::SessionRevoked, message: "this session is closed" })
    );
    let id = session(&mut state, Grant::denied());
    assert_eq!(
        state.authorize(id, &observing()),
        Err(ProtocolError {
            code: ErrorCode::Denied,
            message: "this session was not granted that capability",
        })
    );
    assert_eq!(state.authorize(id, &CapabilitySet::empty()), Ok(()));
    assert!(state.set_status(id, SessionStatus::Frozen));
    assert_eq!(
        state.authorize(id, &CapabilitySet::empty()).expect_err("frozen").message,
        "this session is frozen"
    );
    assert!(state.set_status(id, SessionStatus::Revoked));
    assert_eq!(
        state.authorize(id, &CapabilitySet::empty()).expect_err("revoked").message,
        "this session's grant was revoked"
    );
    assert!(!state.set_status(SessionId::new(5), SessionStatus::Frozen));
}

#[test]
fn no_atom_stands_for_another() {
    let atoms = [
        Capability::ObserveStructure,
        Capability::ObserveTitles,
        Capability::ObserveAccessibility,
        Capability::ManageActivate,
        Capability::ManageGeometry,
        Capability::InputPointer,
        Capability::Other(40),
    ];
    for held in atoms {
        let mut state = AgentState::new();
        let id = session(&mut state, Grant::new(CapabilitySet::of(&[held])));
        for wanted in atoms {
            let required = CapabilitySet::of(&[wanted]);
            assert_eq!(state.authorize(id, &required).is_ok(), wanted == held);
        }
        let both = CapabilitySet::of(&[held, Capability::Other(41)]);
        assert!(state.authorize(id, &both).is_err());
    }
}

#[test]
fn thawing_a_session_restores_what_it_was_granted() {
    let mut state = AgentState::new();
    let id = session(&mut state, Grant::new(observing()));
    state.set_status(id, SessionStatus::Frozen);
    assert!(state.authorize(id, &observing()).is_err());
    state.set_status(id, SessionStatus::Active);
    assert!(state.authorize(id, &observing()).is_ok());
    assert!(state.authorize(id, &managing()).is_err());
}

#[test]
fn a_scope_is_kept_per_session() {
    let mut state = AgentState::new();
    state.open(SessionId::new(1), Grant::scoped(observing()));
    state.open(SessionId::new(2), Grant::scoped(observing()));
    state.open(SessionId::new(3), Grant::new(observing()));
    let window = ClientId::new(8);
    state.observe_client(window, AgentVisibility::Visible, &|id| id == SessionId::new(2));
    assert!(!state.perceives(SessionId::new(1), window));
    assert!(state.perceives(SessionId::new(2), window));
    assert!(state.perceives(SessionId::new(3), window));
    assert!(!state.perceives(SessionId::new(4), window));
    assert!(state.session(SessionId::new(2)).expect("open").grant().is_scoped());
    assert!(!state.session(SessionId::new(3)).expect("open").grant().is_scoped());
    state.forget_client(window);
    assert!(!state.perceives(SessionId::new(2), window));
    assert!(state.perceives(SessionId::new(3), window));
    let mut grant = Grant::scoped(observing());
    grant.include_client(window);
    assert!(grant.covers(window));
    assert!(!grant.covers(ClientId::new(9)));
}

#[test]
fn generations_start_with_the_first_change_that_is_seen() {
    let mut state = AgentState::new();
    let (generation, sequence) = state.touch(ClientId::new(4));
    assert_eq!(generation, Generation::first());
    assert_eq!(sequence, Sequence::new(1));
    assert_eq!(state.touch(ClientId::new(4)), (Generation::new(2), Sequence::new(2)));
    state.observe_client(ClientId::new(4), AgentVisibility::Visible, &|_| false);
    assert_eq!(state.generation(ClientId::new(4)), Generation::new(2));
    state.forget_client(ClientId::new(4));
    assert_eq!(state.generation(ClientId::new(4)), Generation::first());
    assert_eq!(state.advance(), Sequence::new(3));
}

#[test]
fn descriptors_tell_the_state_of_a_client() {
    let (mut clients, outputs) = desktop();
    clients.set_layer(ClientId::new(1), ClientLayer::Above);
    clients.set_modal(ClientId::new(2), true);
    clients.assign_workspace(ClientId::new(3), WorkspaceAssignment::All);
    clients.focus(ClientId::new(1));
    let mut state = AgentState::new();
    let id = session(
        &mut state,
        Grant::new(CapabilitySet::of(&[Capability::ObserveStructure, Capability::ObserveTitles])),
    );
    let first = state
        .descriptor(id, ClientId::new(1), &clients, &outputs, &Details)
        .expect("present");
    assert_eq!(first.application, "Class1");
    assert_eq!(first.title.as_deref(), Some("title 1"));
    assert_eq!(first.frame, Rect::new(0, 0, 120, 140));
    assert_eq!(first.workspace, Some(WorkspaceId::new(0)));
    assert_eq!(first.output, Some(OutputId::new(0)));
    assert!(first.state.focused && first.state.visible && first.state.above);
    assert!(!first.state.modal && !first.state.sticky && !first.state.below);
    assert!(first.state.decorated);
    let second = state
        .descriptor(id, ClientId::new(2), &clients, &outputs, &Details)
        .expect("present");
    assert!(second.state.modal && !second.state.focused);
    let third = state
        .descriptor(id, ClientId::new(3), &clients, &outputs, &Details)
        .expect("present");
    assert!(third.state.sticky);
    assert_eq!(third.workspace, None);
    assert!(state.descriptor(id, ClientId::new(4), &clients, &outputs, &Details).is_none());
    let snapshot = state.snapshot(id, &clients, &outputs, &Details);
    assert_eq!(snapshot.focused, Some(ClientId::new(1)));
    assert_eq!(snapshot.workspaces[3].name.as_deref(), Some("workspace 4"));
    assert_eq!(snapshot.outputs[0].name.as_deref(), Some("HEAD-0"));
    assert!(snapshot.outputs[0].primary);
}

#[test]
fn descriptors_name_only_parents_that_are_shown() {
    let (mut clients, outputs) = desktop();
    let mut dialog = client(4);
    dialog.transient_for = Some(TransientTarget::Client(ClientId::new(2)));
    clients.manage(dialog);
    let mut state = AgentState::new();
    let id = session(
        &mut state,
        Grant::new(CapabilitySet::empty().with(Capability::ObserveStructure)),
    );
    observe_all(&mut state, &clients, AgentVisibility::Visible);
    let parent = |state: &AgentState, session: SessionId, clients: &ClientSet| {
        state
            .descriptor(session, ClientId::new(4), clients, &outputs, &Details)
            .expect("present")
            .transient_for
    };
    assert_eq!(parent(&state, id, &clients), Some(ClientId::new(2)));
    state.observe_client(ClientId::new(2), AgentVisibility::Hidden, &|_| true);
    assert_eq!(parent(&state, id, &clients), None);
    let snapshot = state.snapshot(id, &clients, &outputs, &Details);
    assert!(snapshot.clients.iter().all(|shown| shown.transient_for.is_none()));

    let scoped = SessionId::new(2);
    state.open(
        scoped,
        Grant::scoped(CapabilitySet::empty().with(Capability::ObserveStructure)),
    );
    for client in clients.management_order().to_vec() {
        let matches = client == ClientId::new(4);
        state.observe_client(client, AgentVisibility::Visible, &|_| matches);
    }
    assert_eq!(parent(&state, scoped, &clients), None);
    assert_eq!(parent(&state, id, &clients), Some(ClientId::new(2)));

    clients.unmanage(ClientId::new(2));
    assert_eq!(parent(&state, id, &clients), None);
}

#[test]
fn grants_are_compared_by_what_they_hold() {
    let mut scoped = Grant::scoped(observing());
    assert_ne!(scoped, Grant::new(observing()));
    assert_eq!(scoped, Grant::scoped(observing()));
    scoped.include_client(ClientId::new(2));
    scoped.include_client(ClientId::new(1));
    let mut other = Grant::scoped(observing());
    assert_ne!(scoped, other);
    other.include_client(ClientId::new(1));
    other.include_client(ClientId::new(2));
    assert_eq!(scoped, other);
    assert_eq!(Grant::default(), Grant::denied());
}
