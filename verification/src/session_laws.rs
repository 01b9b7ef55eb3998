//! Laws of agent sessions: what they are answered and what they are told of a client.

use vstd::prelude::*;

use crate::agent::world;
use crate::agent::{AgentModel, ErrorCode, Generation, GrantModel, SessionId, SessionStatus};
use crate::capability::Capability;
use crate::desk::Desk;
use crate::geometry::Geometry;
use crate::ids::ClientId;
use crate::policy::{Client, ClientLayer, TransientTarget};
use crate::visibility::AgentVisibility;
use crate::workspace::WorkspaceAssignment;

verus! {

/// A call is answered exactly where the session is open and active and holds everything that the
/// call needs. A closed session and one whose grant was withdrawn are told so, a frozen one is told
/// that it is frozen, whatever it holds, and one that lacks an atom is denied.
pub proof fn law_calls_need_an_active_session(
    state: AgentModel,
    session: SessionId,
    required: Set<Capability>,
)
    ensures
        ({
            let answer = state.answer(session, required);
            let open = state.sessions.contains_key(session.0);
            let known = state.sessions[session.0];
            &&& !open ==> (answer matches Some(refusal) && refusal.0 == ErrorCode::SessionRevoked)
            &&& open && known.status == SessionStatus::Revoked ==> (answer matches Some(refusal)
                && refusal.0 == ErrorCode::SessionRevoked)
            &&& open && known.status == SessionStatus::Frozen ==> (answer matches Some(refusal)
                && refusal.0 == ErrorCode::SessionFrozen)
            &&& open && known.status == SessionStatus::Active && !required.subset_of(
                known.grant.capabilities,
            ) ==> (answer matches Some(refusal) && refusal.0 == ErrorCode::Denied)
            &&& open && known.status == SessionStatus::Active && required.subset_of(
                known.grant.capabilities,
            ) ==> answer is None
        }),
{
}

/// A session perceives a client exactly where it is open, the client is not hidden, and the client
/// is in its scope, if it has one; a client that nothing is known of is visible.
pub proof fn law_scopes_and_hiding_decide_on_perception(
    state: AgentModel,
    session: SessionId,
    client: ClientId,
)
    requires
        state.sessions.contains_key(session.0),
    ensures
        ({
            let scope = state.sessions[session.0].grant.scope;
            let hidden = state.visibility.contains_key(client.0) && state.visibility[client.0]
                == AgentVisibility::Hidden;
            state.perceives(session, client) <==> !hidden && (scope matches Some(clients)
                ==> clients.contains(client.0))
        }),
{
}

/// Taking a client into a scope covers it and no other client; forgetting it takes it out of the
/// scope and no other client. A grant without a scope covers every client, and neither changes
/// what is granted.
pub proof fn law_scopes_change_by_one_client(
    grant: GrantModel,
    client: ClientId,
    other: ClientId,
)
    requires
        other.0 != client.0,
    ensures
        grant.including(client).covers(client),
        grant.including(client).covers(other) == grant.covers(other),
        grant.forgetting(client).covers(other) == grant.covers(other),
        grant.scope is Some ==> !grant.forgetting(client).covers(client),
        grant.scope is None ==> grant.covers(client) && grant.forgetting(client).covers(client),
        grant.including(client).capabilities == grant.capabilities,
        grant.forgetting(client).capabilities == grant.capabilities,
{
}

/// The generation of a client counts from one and rises by one with every change.
pub proof fn law_generations_count_changes(state: AgentModel, client: ClientId)
    ensures
        !state.generations.contains_key(client.0) ==> state.generation_of(client) == Generation(1)
            && state.touched(client) == Generation(1),
        state.generations.contains_key(client.0) && state.generation_of(client).0 < u64::MAX
            ==> state.touched(client).0 == state.generation_of(client).0 + 1,
{
}

/// What a session is told of a client's state is what holds of the client.
pub proof fn law_states_tell_what_holds(desk: Desk, client: Client)
    ensures
        ({
            let state = world::state_of(desk, client);
            &&& state.focused <==> desk.focused == Some(client.id)
            &&& state.minimized == client.iconic
            &&& state.fullscreen <==> client.fullscreen is Some
            &&& state.shaded == client.shaded
            &&& state.sticky <==> client.workspace == WorkspaceAssignment::All
            &&& state.above <==> client.layer == ClientLayer::Above
            &&& state.below <==> client.layer == ClientLayer::Below
            &&& !(state.above && state.below)
            &&& state.urgent == client.presentation.urgent
            &&& state.modal == client.modal
            &&& state.decorated <==> client.policy.decorations.border
                || client.policy.decorations.titlebar
            &&& client.maximize is None ==> !state.maximized_horizontal && !state.maximized_vertical
            &&& client.maximize matches Some(maximize) ==> state.maximized_horizontal
                == maximize.horizontal && state.maximized_vertical == maximize.vertical
            &&& desk.has(client.id) ==> state.visible == desk.shows(desk.client(client.id))
            &&& !desk.has(client.id) ==> !state.visible
        }),
{
}

/// A client is told to be on its workspace, and on none in particular where it is on all; it is
/// told to belong to the client that it is transient for, and to none where it is transient for a
/// group. Rectangles are told as they are.
pub proof fn law_places_are_told_as_they_are(client: Client, geometry: Geometry)
    ensures
        client.workspace == WorkspaceAssignment::All <==> world::workspace_of(client) is None,
        world::workspace_of(client) matches Some(workspace) ==> client.workspace
            == WorkspaceAssignment::Workspace(workspace),
        world::parent_of(client) matches Some(parent) ==> client.transient_for == Some(
            TransientTarget::Client(parent),
        ),
        client.transient_for is None || client.transient_for == Some(TransientTarget::Group)
            ==> world::parent_of(client) is None,
        client.transient_for matches Some(TransientTarget::Client(parent)) ==> world::parent_of(
            client,
        ) == Some(parent),
        world::rect_of(geometry).x == geometry.x,
        world::rect_of(geometry).y == geometry.y,
        world::rect_of(geometry).width == geometry.width,
        world::rect_of(geometry).height == geometry.height,
{
}

/// A session is told of the focus and of a parent only where it perceives that client.
pub proof fn law_focus_is_told_where_it_is_perceived(
    state: AgentModel,
    session: SessionId,
    desk: Desk,
    client: Client,
)
    ensures
        desk.focused matches Some(focused) ==> {
            &&& state.perceives(session, focused) && desk.has(focused) ==> state.shown_focus(
                session,
                desk,
            ) == Some(focused)
            &&& !state.perceives(session, focused) ==> state.shown_focus(session, desk) is None
        },
        desk.focused is None ==> state.shown_focus(session, desk) is None,
        client.parent() matches Some(parent) ==> {
            &&& state.perceives(session, parent) && desk.has(parent) ==> state.shown_parent(
                session,
                desk,
                client,
            ) == Some(parent)
            &&& !state.perceives(session, parent) ==> state.shown_parent(session, desk, client)
                is None
        },
        client.parent() is None ==> state.shown_parent(session, desk, client) is None,
{
}

/// A title is told exactly where the session may see titles and the client is not redacted.
pub proof fn law_titles_need_a_capability(state: AgentModel, session: SessionId, client: ClientId)
    ensures
        state.shows_title(session, client) <==> state.sessions[session.0].grant.capabilities
            .contains(Capability::ObserveTitles) && !(state.visibility.contains_key(client.0)
                && state.visibility[client.0]
            == AgentVisibility::Redacted),
{
}

} // verus!
