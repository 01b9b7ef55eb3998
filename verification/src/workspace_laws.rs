//! Laws of changing workspaces and the state of clients.

use vstd::prelude::*;

use crate::clients;
use crate::desk;
use crate::desk::Desk;
use crate::geometry::Geometry;
use crate::ids::{ClientId, WorkspaceId};
use crate::policy::{Client, TransientTarget};
use crate::workspace::WorkspaceAssignment;

verus! {

/// Inserting a workspace shifts the clients of the workspaces at and behind it by one and no
/// others, so that nothing is assigned to it alone; its history is empty, and those behind it are
/// shifted likewise.
pub proof fn law_inserting_shifts_what_follows(d: Desk, index: u32, id: ClientId, w: WorkspaceId)
    requires
        d.wf(),
        d.workspace_count < u32::MAX,
        index <= d.workspace_count,
        d.has(id),
        w.0 < d.workspace_count,
    ensures
        ({
            let after = d.inserting(index);
            let shifted = WorkspaceId(
                if w.0 >= index {
                    (w.0 + 1) as u32
                } else {
                    w.0
                },
            );
            &&& after.workspace_count == d.workspace_count + 1
            &&& d.client(id).workspace == WorkspaceAssignment::Workspace(w) ==> after.client(
                id,
            ).workspace == WorkspaceAssignment::Workspace(shifted)
            &&& d.client(id).workspace == WorkspaceAssignment::All ==> after.client(id).workspace
                == WorkspaceAssignment::All
            &&& after.client(id).workspace != WorkspaceAssignment::Workspace(WorkspaceId(index))
            &&& after.recent[shifted] == d.recent[w]
            &&& after.recent[WorkspaceId(index)].len() == 0
            &&& d.last == w ==> after.last == shifted
            &&& d.current == w && w.0 != index ==> after.current == shifted
            &&& d.current == w && w.0 == index ==> after.current == w
        }),
{
}

/// Removing a workspace moves its clients to the one behind it, or where it is the last one to the
/// one before it; the workspaces behind it are counted one lower, and no client is lost.
pub proof fn law_removing_merges_into_the_neighbor(
    d: Desk,
    index: u32,
    id: ClientId,
    w: WorkspaceId,
)
    requires
        d.wf(),
        d.workspace_count > 1,
        index < d.workspace_count,
        d.has(id),
        w.0 < d.workspace_count,
    ensures
        ({
            let after = d.removing(index);
            let kept = if w.0 > index || w.0 == index && index + 1 == d.workspace_count {
                WorkspaceId((w.0 - 1) as u32)
            } else {
                w
            };
            &&& after.workspace_count == d.workspace_count - 1
            &&& kept.0 < after.workspace_count
            &&& d.client(id).workspace == WorkspaceAssignment::Workspace(w) ==> after.client(
                id,
            ).workspace == WorkspaceAssignment::Workspace(kept)
            &&& d.client(id).workspace == WorkspaceAssignment::All ==> after.client(id).workspace
                == WorkspaceAssignment::All
            &&& d.current == w ==> after.current == kept
            &&& d.last == w ==> after.last == kept
            &&& d.recent[w].contains(id) ==> after.recent[kept].contains(id)
        }),
{
    let merge = d.merge_index(index);
    lemma_merged(d.recent[WorkspaceId(merge)], d.recent[WorkspaceId((merge + 1) as u32)], id);
}

/// Merging lists keeps the members of both, those of the first one in front.
proof fn lemma_merged(first: Seq<ClientId>, second: Seq<ClientId>, id: ClientId)
    ensures
        desk::merged(first, second).contains(id) <==> first.contains(id) || second.contains(id),
        first.is_prefix_of(desk::merged(first, second)),
    decreases second.len(),
{
    if second.len() > 0 {
        let shorter = second.drop_last();
        lemma_merged(first, shorter, id);
        clients::lemma_contains_last(second, id);
        let before = desk::merged(first, shorter);
        clients::lemma_contains_push(before, second.last(), id);
    } else {
        assert(!second.contains(id));
    }
}

/// Cutting the number of workspaces moves the clients of those that go away to the last one that
/// stays, and adding workspaces moves nothing; the active and the previous workspace follow.
pub proof fn law_resizing_gathers_in_the_last(
    d: Desk,
    count: u32,
    moved: Seq<ClientId>,
    id: ClientId,
    w: WorkspaceId,
)
    requires
        d.wf(),
        count >= 1,
        d.has(id),
    ensures
        ({
            let after = d.resized(count, moved);
            let kept = if w.0 >= count {
                WorkspaceId((count - 1) as u32)
            } else {
                w
            };
            &&& after.workspace_count == count
            &&& d.client(id).workspace == WorkspaceAssignment::Workspace(w) ==> after.client(
                id,
            ).workspace == WorkspaceAssignment::Workspace(kept)
            &&& d.client(id).workspace == WorkspaceAssignment::All ==> after.client(id).workspace
                == WorkspaceAssignment::All
            &&& d.current == w ==> after.current == kept
            &&& d.last == w ==> after.last == kept
        }),
{
    lemma_gathering_keeps(d.cut_to(count), moved, WorkspaceId((count - 1) as u32));
}

proof fn lemma_gathering_keeps(d: Desk, ids: Seq<ClientId>, workspace: WorkspaceId)
    ensures
        ({
            let after = d.gathered(ids, workspace);
            &&& after.clients == d.clients
            &&& after.workspace_count == d.workspace_count
            &&& after.current == d.current
            &&& after.last == d.last
        }),
    decreases ids.len(),
{
    if ids.len() > 0 {
        lemma_gathering_keeps(d, ids.drop_last(), workspace);
    }
}

/// Assigning a client moves it to the workspace, or to the active one where there is no such
/// workspace, and makes it the most recent there; it is in no other history any more. No other
/// client moves.
pub proof fn law_assigned_clients_move(
    d: Desk,
    id: ClientId,
    assignment: WorkspaceAssignment,
    other: ClientId,
    elsewhere: WorkspaceId,
)
    requires
        d.wf(),
        d.has(id),
        other != id,
    ensures
        ({
            let after = d.assigning(id, assignment);
            let wanted = match assignment {
                WorkspaceAssignment::Workspace(workspace) => if workspace.0 < d.workspace_count {
                    assignment
                } else {
                    WorkspaceAssignment::Workspace(d.current)
                },
                WorkspaceAssignment::All => WorkspaceAssignment::All,
            };
            let home = match wanted {
                WorkspaceAssignment::Workspace(workspace) => workspace,
                WorkspaceAssignment::All => d.current,
            };
            &&& after.client(id).workspace == wanted
            &&& after.client(other) == d.client(other)
            &&& d.client(id).workspace == wanted ==> after == d
            &&& d.client(id).workspace != wanted ==> {
                &&& after.recent[home].len() > 0 && after.recent[home].last() == id
                &&& elsewhere != home ==> !after.recent[elsewhere].contains(id)
                &&& d.recent[elsewhere].contains(other) == after.recent[elsewhere].contains(other)
            }
        }),
{
    let wanted = d.existing(assignment);
    assert(d.clients[id.0].id == id);
    clients::lemma_without(d.recent[elsewhere], id);
    if d.client(id).workspace != wanted {
        let home = d.home(wanted);
        let rest = desk::without(d.recent[elsewhere], id);
        clients::lemma_contains_push(rest, id, other);
        assert(rest.contains(other) == d.recent[elsewhere].contains(other));
    }
}

/// Switching to a workspace that does not exist, or to the active one, changes nothing, and showing
/// the desktop does not change which workspace is active.
pub proof fn law_switching_needs_another_workspace(d: Desk, workspace: WorkspaceId, showing: bool)
    ensures
        workspace.0 >= d.workspace_count || workspace == d.current ==> d.switching(workspace) == d,
        workspace.0 < d.workspace_count && workspace != d.current ==> d.switching(
            workspace,
        ).current == workspace && d.switching(workspace).last == d.current,
        d.showing(showing).showing_desktop == showing,
        d.showing(showing).current == d.current,
        d.showing(showing).last == d.last,
{
}

/// A fullscreen client has the geometry of the output and keeps the one that it had before to
/// return to; a windowed client that is asked to leave fullscreen does not change. Whether
/// anything changed is told from the geometry that is applied.
pub proof fn law_fullscreen_covers_the_output(client: Client, output: Geometry)
    ensures
        client.after_fullscreen(true, output).geometry == output,
        client.after_fullscreen(true, output).fullscreen is Some,
        client.after_fullscreen(false, output).fullscreen is None,
        client.fullscreen is None ==> {
            &&& client.after_fullscreen(true, output).fullscreen matches Some(state)
                && state.restore == client.geometry
            &&& client.after_fullscreen(false, output) == client
            &&& client.fullscreen_result(true, output) == Some(output)
            &&& client.fullscreen_result(false, output) is None
        },
        client.fullscreen matches Some(state) ==> {
            &&& client.after_fullscreen(true, output).fullscreen == client.fullscreen
            &&& client.after_fullscreen(false, output).geometry == state.restore
            &&& client.fullscreen_result(false, output) == Some(state.restore)
            &&& client.fullscreen_result(true, output) is None <==> client.geometry == output
        },
        client.after_fullscreen(true, output).maximize == client.maximize,
        client.after_fullscreen(false, output).maximize == client.maximize,
        client.after_fullscreen(true, output).natural_geometry() == client.natural_geometry(),
        client.after_fullscreen(false, output).natural_geometry() == client.natural_geometry(),
{
}

/// Maximizing a fullscreen client leaves what it shows as it is: leaving fullscreen gives the
/// client that maximizing it after leaving fullscreen gives.
pub proof fn law_maximizing_waits_for_the_end_of_fullscreen(
    client: Client,
    horizontal: bool,
    vertical: bool,
    available: Geometry,
    output: Geometry,
)
    ensures
        client.fullscreen is Some ==> client.after_maximize(
            horizontal,
            vertical,
            available,
        ).geometry == client.geometry,
        client.after_maximize(horizontal, vertical, available).after_fullscreen(false, output)
            == client.after_fullscreen(false, output).after_maximize(
            horizontal,
            vertical,
            available,
        ),
{
}

/// Observed geometry becomes the client's geometry. On an axis that is not maximized it is also
/// what the client goes back to, and on one that is maximized the remembered geometry stays.
pub proof fn law_observed_geometry_is_remembered(client: Client, geometry: Geometry)
    ensures
        ({
            let after = client.with_geometry(geometry);
            &&& after.geometry == geometry
            &&& after.maximize is Some <==> client.maximize is Some
            &&& client.maximize matches Some(state) ==> (after.maximize matches Some(kept) && {
                &&& kept.horizontal == state.horizontal && kept.vertical == state.vertical
                &&& state.horizontal ==> kept.restore.x == state.restore.x && kept.restore.width
                    == state.restore.width
                &&& !state.horizontal ==> kept.restore.x == geometry.x && kept.restore.width
                    == geometry.width
                &&& state.vertical ==> kept.restore.y == state.restore.y && kept.restore.height
                    == state.restore.height
                &&& !state.vertical ==> kept.restore.y == geometry.y && kept.restore.height
                    == geometry.height
            })
            &&& after.fullscreen == client.fullscreen
            &&& after.policy == client.policy
        }),
{
}

/// Relationships are replaced as given, but a client is never its own parent.
pub proof fn law_clients_are_not_their_own_parents(
    client: Client,
    transient_for: Option<TransientTarget>,
    group: Option<ClientId>,
    modal: bool,
)
    ensures
        ({
            let after = client.with_relationships(transient_for, group, modal);
            &&& after.parent() != Some(client.id)
            &&& transient_for != Some(TransientTarget::Client(client.id)) ==> after.transient_for
                == transient_for
            &&& transient_for == Some(TransientTarget::Client(client.id)) ==> after.transient_for
                is None
            &&& after.group == group && after.modal == modal
            &&& after.geometry == client.geometry && after.workspace == client.workspace
        }),
{
}

/// Whether a list holds the transients of each of its clients.
pub open spec fn is_closed_family(d: Desk, family: Seq<ClientId>) -> bool {
    forall|parent: ClientId, child: ClientId|
        #![trigger family.contains(parent), d.has(child)]
        family.contains(parent) && d.has(child) && d.client(child).parent() == Some(parent)
            ==> family.contains(child)
}

/// The transients of a client among others are those of them that are transient for it.
proof fn lemma_transients(d: Desk, ids: Seq<ClientId>, parent: ClientId, child: ClientId)
    ensures
        d.transients_among(ids, parent).contains(child) <==> ids.contains(child) && d.has(child)
            && d.client(child).parent() == Some(parent),
    decreases ids.len(),
{
    if ids.len() > 0 {
        let before = d.transients_among(ids.drop_last(), parent);
        lemma_transients(d, ids.drop_last(), parent, child);
        clients::lemma_contains_last(ids, child);
        clients::lemma_contains_push(before, ids.last(), child);
    } else {
        assert(!ids.contains(child));
        assert(!d.transients_among(ids, parent).contains(child));
    }
}

/// Whether what is pending leads to every transient of a family that is not in it yet.
spec fn leads_on(d: Desk, pending: Seq<ClientId>, family: Seq<ClientId>) -> bool {
    forall|parent: ClientId, child: ClientId|
        #![trigger family.contains(parent), d.has(child)]
        family.contains(parent) && d.has(child) && d.client(child).parent() == Some(parent)
            ==> family.contains(child) || pending.contains(child)
}

/// Visiting what is pending completes a family.
proof fn lemma_descended(d: Desk, pending: Seq<ClientId>, family: Seq<ClientId>)
    requires
        d.wf(),
        d.lists_some(family),
        forall|id: ClientId| #[trigger] pending.contains(id) ==> d.has(id),
        leads_on(d, pending, family),
    ensures
        is_closed_family(d, d.descended(pending, family)),
        forall|id: ClientId|
            pending.contains(id) || family.contains(id) ==> #[trigger] d.descended(
                pending,
                family,
            ).contains(id),
    decreases d.managed.len() - family.len(), pending.len(),
{
    let result = d.descended(pending, family);
    if pending.len() == 0 {
        assert forall|id: ClientId| !pending.contains(id) by {}
    } else {
        let rest = pending.drop_last();
        let last = pending.last();
        assert(pending.contains(last)) by {
            assert(pending[pending.len() - 1] == last);
        }
        assert forall|id: ClientId| #[trigger] rest.contains(id) implies d.has(id) by {
            clients::lemma_contains_last(pending, id);
        }
        if family.contains(last) {
            assert(leads_on(d, rest, family)) by {
                assert forall|parent: ClientId, child: ClientId|
                    #![trigger family.contains(parent), d.has(child)]
                    family.contains(parent) && d.has(child) && d.client(child).parent() == Some(
                        parent,
                    ) implies family.contains(child) || rest.contains(child) by {
                    clients::lemma_contains_last(pending, child);
                }
            }
            lemma_descended(d, rest, family);
            assert forall|id: ClientId|
                pending.contains(id) || family.contains(id) implies #[trigger] result.contains(
                id,
            ) by {
                clients::lemma_contains_last(pending, id);
            }
        } else {
            lemma_room_for_more(d, family, last);
            let transients = d.transients_among(d.managed, last);
            let next = rest + transients;
            let grown = family.push(last);
            clients::lemma_push_new(family, last);
            assert forall|id: ClientId| #[trigger] next.contains(id) <==> rest.contains(id)
                || transients.contains(id) by {
                lemma_contains_both(rest, transients, id);
            }
            assert forall|id: ClientId| #[trigger] next.contains(id) implies d.has(id) by {
                lemma_transients(d, d.managed, last, id);
            }
            assert forall|id: ClientId| #[trigger] grown.contains(id) implies d.has(id) by {
                clients::lemma_contains_push(family, last, id);
            }
            assert(leads_on(d, next, grown)) by {
                assert forall|parent: ClientId, child: ClientId|
                    #![trigger grown.contains(parent), d.has(child)]
                    grown.contains(parent) && d.has(child) && d.client(child).parent() == Some(
                        parent,
                    ) implies grown.contains(child) || next.contains(child) by {
                    clients::lemma_contains_push(family, last, parent);
                    clients::lemma_contains_push(family, last, child);
                    clients::lemma_contains_last(pending, child);
                    lemma_transients(d, d.managed, last, child);
                    assert(d.managed.contains(child));
                }
            }
            lemma_descended(d, next, grown);
            assert forall|id: ClientId|
                pending.contains(id) || family.contains(id) implies #[trigger] result.contains(
                id,
            ) by {
                clients::lemma_contains_last(pending, id);
                clients::lemma_contains_push(family, last, id);
            }
        }
    }
}

proof fn lemma_contains_both(first: Seq<ClientId>, second: Seq<ClientId>, id: ClientId)
    ensures
        (first + second).contains(id) <==> first.contains(id) || second.contains(id),
{
    let all = first + second;
    if all.contains(id) {
        let k = choose|k: int| 0 <= k < all.len() && all[k] == id;
        if k < first.len() {
            assert(first[k] == id);
        } else {
            assert(second[k - first.len()] == id);
        }
    }
    if first.contains(id) {
        let k = choose|k: int| 0 <= k < first.len() && first[k] == id;
        assert(all[k] == id);
    }
    if second.contains(id) {
        let k = choose|k: int| 0 <= k < second.len() && second[k] == id;
        assert(all[first.len() + k] == id);
    }
}

/// A family that lacks a managed client is smaller than all managed clients.
proof fn lemma_room_for_more(d: Desk, family: Seq<ClientId>, id: ClientId)
    requires
        d.wf(),
        d.lists_some(family),
        d.has(id),
        !family.contains(id),
    ensures
        family.len() < d.managed.len(),
{
    family.unique_seq_to_set();
    d.managed.unique_seq_to_set();
    let some = family.to_set();
    let all = d.managed.to_set();
    assert(some.subset_of(all.remove(id))) by {
        assert forall|x: ClientId| some.contains(x) implies all.remove(id).contains(x) by {
            assert(family.contains(x));
            assert(d.has(x));
            assert(d.managed.contains(x));
        }
    }
    assert(d.managed.contains(id));
    assert(all.contains(id));
    vstd::set_lib::lemma_len_subset(some, all.remove(id));
}

/// A family holds the client that it is the family of, and with each of its clients everything
/// that is transient for it; the family of a client that is no group transient itself also holds
/// every transient of its application group, unless the client is a desktop surface, a dock, or a
/// splash screen.
pub proof fn law_families_hold_all_transients(d: Desk, root: ClientId, other: ClientId)
    requires
        d.wf(),
        d.has(root),
    ensures
        d.family_of(root).contains(root),
        is_closed_family(d, d.family_of(root)),
        d.has(other) && d.client(root).is_group_member() && !d.client(root).is_group_transient()
            && d.client(root).group is Some && d.client(other).group == d.client(root).group
            && d.client(other).is_group_transient() ==> d.family_of(root).contains(other),
{
    let seeds = d.family_seeds(root);
    let none = Seq::<ClientId>::empty();
    let lone = seq![root];
    assert(lone[0] == root);
    if let Some(group) = d.client(root).group {
        let transients = d.group_transients_among(d.managed, group);
        assert forall|id: ClientId| #[trigger] (lone + transients).contains(id) implies d.has(
            id,
        ) by {
            lemma_contains_both(lone, transients, id);
            lemma_group_transients(d, d.managed, group, id);
        }
        lemma_contains_both(lone, transients, root);
        lemma_contains_both(lone, transients, other);
        lemma_group_transients(d, d.managed, group, other);
        if d.has(other) {
            assert(d.managed.contains(other));
        }
    }
    assert forall|id: ClientId| #[trigger] seeds.contains(id) implies d.has(id) by {
        if seeds == lone {
            assert(id == root);
        }
    }
    assert(seeds.contains(root));
    assert(d.lists_some(none));
    lemma_descended(d, seeds, none);
}

proof fn lemma_group_transients(d: Desk, ids: Seq<ClientId>, group: ClientId, id: ClientId)
    ensures
        d.group_transients_among(ids, group).contains(id) <==> ids.contains(id) && d.has(id)
            && d.client(id).group == Some(group) && d.client(id).is_group_transient(),
    decreases ids.len(),
{
    if ids.len() > 0 {
        let before = d.group_transients_among(ids.drop_last(), group);
        lemma_group_transients(d, ids.drop_last(), group, id);
        clients::lemma_contains_last(ids, id);
        clients::lemma_contains_push(before, ids.last(), id);
    } else {
        assert(!ids.contains(id));
        assert(!d.group_transients_among(ids, group).contains(id));
    }
}

} // verus!
