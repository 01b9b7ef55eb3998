//! Laws that relate the operations of a managed desktop.

use vstd::prelude::*;

use crate::clients;
use crate::desk;
use crate::desk::{Desk, Visit};
use crate::geometry::Geometry;
use crate::ids::{ClientId, WorkspaceId};
use crate::outputs::Output;
use crate::policy;
use crate::policy::{Client, DecorationOverride, StackingLayer};
use crate::workspace::WorkspaceAssignment;

verus! {

/// Recovered focus always rests on a client that can be given focus, and it is
/// empty only when no managed client can.
pub proof fn law_recovered_focus_is_usable(d: Desk)
    requires
        d.wf(),
    ensures
        d.recovered().focused matches Some(id) ==> d.can_focus(id),
        d.recovered().focused is None <==> forall|id: ClientId| !#[trigger] d.can_focus(id),
{
    clients::lemma_last_to_focus(d, d.recent[d.current]);
    clients::lemma_last_to_focus(d, d.stacking);
    if d.recovered().focused is None {
        assert forall|id: ClientId| !#[trigger] d.can_focus(id) by {
            if d.can_focus(id) {
                assert(d.stacking.contains(id));
                let i = choose|i: int| 0 <= i < d.stacking.len() && d.stacking[i] == id;
                assert(!d.can_focus(d.stacking[i]));
            }
        }
    }
}

/// A removed client leaves no reference behind: not in any order or history,
/// not as focus, and not as anybody's parent.
pub proof fn law_unmanaged_leaves_no_trace(d: Desk, id: ClientId)
    requires
        d.wf(),
    ensures
        ({
            let after = d.unmanaging(id);
            &&& !after.has(id)
            &&& !after.managed.contains(id)
            &&& !after.stacking.contains(id)
            &&& forall|w: WorkspaceId| !(#[trigger] after.recent[w]).contains(id)
            &&& after.focused != Some(id)
            &&& d.has(id) ==> forall|raw: u64| #[trigger]
                after.clients.contains_key(raw) ==> !after.clients[raw].is_transient_for(id)
        }),
{
    let after = d.unmanaging(id);
    clients::lemma_without(d.managed, id);
    clients::lemma_without(d.stacking, id);
    assert forall|w: WorkspaceId| !(#[trigger] after.recent[w]).contains(id) by {
        clients::lemma_without(d.recent[w], id);
        assert(d.lists_some(d.recent[w]));
    }
    if d.has(id) && d.focused == Some(id) {
        let removed = Desk {
            clients: d.clients.remove(id.0),
            managed: desk::without(d.managed, id),
            stacking: desk::without(d.stacking, id),
            recent: d.forgotten(id).recent,
            ..d
        };
        clients::lemma_last_to_focus(removed, removed.recent[removed.current]);
        clients::lemma_last_to_focus(removed, removed.stacking);
    }
}

/// Managing the same client again changes nothing.
pub proof fn law_managing_is_idempotent(d: Desk, client: Client)
    requires
        d.wf(),
    ensures
        d.managing(client).managing(client) == d.managing(client),
{
    let once = d.managing(client);
    let stored = d.prepared(client);
    assert(once.workspace_count == d.workspace_count);
    assert(once.current == d.current);
    assert(once.prepared(client) == stored);
    assert(once.has(client.id));
    assert(once.client(client.id) == stored);
    assert(once.clients.insert(client.id.0, stored) =~= once.clients);
    assert(once.with_client(stored) =~= once);
}

/// Entering and leaving fullscreen restores a client.
pub proof fn law_fullscreen_is_reversible(client: Client, output: Geometry, later: Geometry)
    requires
        client.fullscreen is None,
    ensures
        client.after_fullscreen(true, output).after_fullscreen(false, later) == client,
{
}

/// Toggling the decorations of a client without an override changes whether it shows any and
/// neither its role nor its capabilities, and toggling them again restores the desk.
pub proof fn law_toggling_twice_restores(d: Desk, id: ClientId)
    requires
        d.wf(),
        d.has(id),
        d.client(id).decoration_override == DecorationOverride::Default,
        d.client(id).can_redecorate(),
    ensures
        ({
            let client = d.client(id);
            let once = client.with_preference(client.toggled_preference());
            &&& once.policy.decorations.shows() != client.policy.decorations.shows()
            &&& once.policy.role == client.policy.role
            &&& once.policy.capabilities == client.policy.capabilities
            &&& once.can_redecorate()
            &&& once.with_preference(once.toggled_preference()) == client
            &&& d.with_client(once).with_client(client) == d
        }),
{
    reveal(policy::is_decorated);
    let client = d.client(id);
    assert(client.id == id && client.decorated_as_preferred());
    let once = client.with_preference(client.toggled_preference());
    assert(d.with_client(once).with_client(client).clients =~= d.clients);
}

/// The cycle offers each target once, and only clients that cycle.
pub proof fn law_cycle_targets_are_distinct(d: Desk, requests: Seq<ClientId>)
    ensures
        d.cycle_targets(requests).no_duplicates(),
        forall|id: ClientId| #[trigger]
            d.cycle_targets(requests).contains(id) ==> d.has(id) && d.cycles(d.client(id)),
    decreases requests.len(),
{
    if requests.len() > 0 {
        let before = d.cycle_targets(requests.drop_last());
        law_cycle_targets_are_distinct(d, requests.drop_last());
        if let Some(target) = d.target_of(requests.last()) {
            if !before.contains(target) {
                clients::lemma_push_new(before, target);
            }
            assert forall|id: ClientId| #[trigger]
                d.cycle_targets(requests).contains(id) implies d.has(id) && d.cycles(
                d.client(id),
            ) by {
                clients::lemma_contains_push(before, target, id);
            }
        }
    }
}

/// Whether clients are stored under their own identifiers.
pub open spec fn stores_by_id(d: Desk) -> bool {
    forall|raw: u64| #[trigger] d.clients.contains_key(raw) ==> d.clients[raw].id == ClientId(raw)
}

/// A common assignment moves every managed client of a list, and keeps the set
/// of managed clients.
pub proof fn law_family_moves_together(d: Desk, ids: Seq<ClientId>, wanted: WorkspaceAssignment)
    requires
        stores_by_id(d),
    ensures
        ({
            let after = d.assigning_all(ids, wanted);
            &&& stores_by_id(after)
            &&& after.clients.dom() == d.clients.dom()
            &&& forall|id: ClientId| #[trigger]
                ids.contains(id) && d.has(id) ==> after.client(id).workspace == wanted
        }),
    decreases ids.len(),
{
    if ids.len() > 0 {
        let shorter = ids.drop_last();
        let before = d.assigning_all(shorter, wanted);
        let after = d.assigning_all(ids, wanted);
        law_family_moves_together(d, shorter, wanted);
        if before.has(ids.last()) {
            assert(before.client(ids.last()).id == ids.last());
        }
        assert(after.clients.dom() =~= d.clients.dom());
        assert forall|id: ClientId| #[trigger] ids.contains(id) && d.has(id) implies after.client(
            id,
        ).workspace == wanted by {
            clients::lemma_contains_last(ids, id);
            if id != ids.last() {
                assert(shorter.contains(id));
            }
            assert(before.has(ids.last()) == d.has(ids.last()));
        }
    }
}

/// Inserting a workspace and removing it again restores assignments,
/// histories, and the active and previous workspace.
pub proof fn law_insert_then_remove(d: Desk, index: u32)
    requires
        d.wf(),
        d.workspace_count < u32::MAX,
        index <= d.workspace_count,
    ensures
        ({
            let after = d.inserting(index).removing(index);
            &&& after.clients == d.clients
            &&& after.managed == d.managed
            &&& after.stacking == d.stacking
            &&& after.workspace_count == d.workspace_count
            &&& after.current == d.current
            &&& after.last == d.last
            &&& after.recent == d.recent
        }),
{
    let after = d.inserting(index).removing(index);
    assert forall|raw: u64| #[trigger] d.clients.contains_key(raw) implies after.clients[raw]
        == d.clients[raw] by {
        lemma_assignment_restored(d, index, raw);
    }
    assert(after.clients =~= d.clients);
    assert forall|w: WorkspaceId| #[trigger] after.recent[w] == d.recent[w] by {
        lemma_history_restored(d, index, w);
    }
    assert(after.recent =~= d.recent);
}

proof fn lemma_assignment_restored(d: Desk, index: u32, raw: u64)
    requires
        d.wf(),
        d.workspace_count < u32::MAX,
        index <= d.workspace_count,
        d.clients.contains_key(raw),
    ensures
        d.inserting(index).removing(index).clients[raw] == d.clients[raw],
{
    let between = d.inserting(index);
    assert(between.clients.contains_key(raw));
    assert(between.removing(index).clients.contains_key(raw));
}

proof fn lemma_history_restored(d: Desk, index: u32, w: WorkspaceId)
    requires
        d.wf(),
        d.workspace_count < u32::MAX,
        index <= d.workspace_count,
    ensures
        d.inserting(index).removing(index).recent[w] == d.recent[w],
{
    let between = d.inserting(index);
    let merge = between.merge_index(index);
    let none = Seq::<ClientId>::empty();
    assert(d.lists_some(d.recent[w]));
    assert(between.workspace_count == d.workspace_count + 1);
    if w.0 == merge {
        let next = WorkspaceId((merge + 1) as u32);
        if index < d.workspace_count {
            assert(between.recent[w] =~= none);
            assert(between.recent[next] == d.recent[w]);
            lemma_merged_with_nothing(d.recent[w]);
        } else {
            assert(between.recent[next] =~= none);
            assert(between.recent[w] == d.recent[w]);
            assert(desk::merged(d.recent[w], none) == d.recent[w]);
        }
    } else if w.0 > merge {
        if w.0 < u32::MAX {
            let source = WorkspaceId((w.0 + 1) as u32);
            if source.0 == index {
                assert(d.recent[w].len() == 0);
                assert(d.recent[w] =~= none);
            } else {
                assert(between.recent[source] == d.recent[w]);
            }
        } else {
            assert(d.recent[w].len() == 0);
            assert(d.recent[w] =~= none);
        }
    }
}

/// A distinct list merged into an empty one stays as it is.
proof fn lemma_merged_with_nothing(ids: Seq<ClientId>)
    requires
        ids.no_duplicates(),
    ensures
        desk::merged(Seq::empty(), ids) == ids,
    decreases ids.len(),
{
    if ids.len() > 0 {
        assert(ids.drop_last().no_duplicates());
        lemma_merged_with_nothing(ids.drop_last());
        clients::lemma_last_is_new(ids);
        assert(ids.drop_last().push(ids.last()) =~= ids);
    } else {
        assert(ids =~= Seq::empty());
    }
}

/// What one visit adds: entered and placed clients agree, all in the layer.
spec fn is_extension(
    d: Desk,
    layer: StackingLayer,
    outputs: Seq<Output>,
    before: Visit,
    after: Visit,
) -> bool {
    &&& after.ordered.no_duplicates()
    &&& forall|x: ClientId| #[trigger]
        before.visited.contains(x) ==> after.visited.contains(x)
    &&& forall|x: ClientId| #[trigger]
        after.ordered.contains(x) <==> before.ordered.contains(x) || (after.visited.contains(x)
            && !before.visited.contains(x))
    &&& before.ordered.len() <= after.ordered.len()
    &&& forall|i: int|
        0 <= i < before.ordered.len() ==> #[trigger] after.ordered[i] == before.ordered[i]
    &&& forall|i: int|
        before.ordered.len() <= i < after.ordered.len() ==> d.layer_of(
            #[trigger] after.ordered[i],
            outputs,
        ) == Some(layer)
}

/// Whether placed clients are entered and distinct.
spec fn is_progress(visit: Visit) -> bool {
    &&& visit.ordered.no_duplicates()
    &&& forall|x: ClientId| #[trigger] visit.ordered.contains(x) ==> visit.visited.contains(x)
}

proof fn lemma_extension_chain(
    d: Desk,
    layer: StackingLayer,
    outputs: Seq<Output>,
    a: Visit,
    b: Visit,
    c: Visit,
)
    requires
        is_extension(d, layer, outputs, a, b),
        is_extension(d, layer, outputs, b, c),
    ensures
        is_extension(d, layer, outputs, a, c),
{
    assert forall|x: ClientId| #[trigger] c.ordered.contains(x) <==> a.ordered.contains(x) || (
    c.visited.contains(x) && !a.visited.contains(x)) by {
        assert(b.ordered.contains(x) <==> a.ordered.contains(x) || (b.visited.contains(x)
            && !a.visited.contains(x)));
        if a.visited.contains(x) {
            assert(b.visited.contains(x));
        }
        if b.visited.contains(x) {
            assert(c.visited.contains(x));
        }
    }
    assert forall|i: int| 0 <= i < a.ordered.len() implies #[trigger] c.ordered[i]
        == a.ordered[i] by {
        assert(b.ordered[i] == a.ordered[i]);
    }
    assert forall|i: int| a.ordered.len() <= i < c.ordered.len() implies d.layer_of(
        #[trigger] c.ordered[i],
        outputs,
    ) == Some(layer) by {
        if i < b.ordered.len() {
            assert(c.ordered[i] == b.ordered[i]);
        }
    }
}

proof fn lemma_extension_progress(
    d: Desk,
    layer: StackingLayer,
    outputs: Seq<Output>,
    a: Visit,
    b: Visit,
)
    requires
        is_progress(a),
        is_extension(d, layer, outputs, a, b),
    ensures
        is_progress(b),
{
    assert forall|x: ClientId| #[trigger] b.ordered.contains(x) implies b.visited.contains(x) by {
        if a.ordered.contains(x) {
            assert(a.visited.contains(x));
        }
    }
}

proof fn lemma_visiting(
    d: Desk,
    id: ClientId,
    layer: StackingLayer,
    outputs: Seq<Output>,
    visit: Visit,
    steps: nat,
)
    requires
        is_progress(visit),
        d.layer_of(id, outputs) == Some(layer),
    ensures
        is_extension(d, layer, outputs, visit, d.visiting(id, layer, outputs, visit, steps)),
    decreases steps, 0nat,
{
    if steps > 0 && !visit.visited.contains(id) {
        let entered = Visit { visited: visit.visited.push(id), ordered: visit.ordered };
        let fewer = (steps - 1) as nat;
        assert forall|x: ClientId| #[trigger] entered.visited.contains(x)
            <==> visit.visited.contains(x) || x == id by {
            clients::lemma_contains_push(visit.visited, id, x);
        }
        let after_peers = d.visiting_peers(id, d.stacking, layer, outputs, entered, fewer);
        lemma_visiting_peers(d, id, d.stacking, layer, outputs, entered, fewer);
        lemma_extension_progress(d, layer, outputs, entered, after_peers);
        let after_parent = match d.client(id).parent() {
            Some(parent) => if d.has(id) && d.layer_of(parent, outputs) == Some(layer) {
                d.visiting(parent, layer, outputs, after_peers, fewer)
            } else {
                after_peers
            },
            None => after_peers,
        };
        if let Some(parent) = d.client(id).parent() {
            if d.has(id) && d.layer_of(parent, outputs) == Some(layer) {
                lemma_visiting(d, parent, layer, outputs, after_peers, fewer);
                lemma_extension_chain(d, layer, outputs, entered, after_peers, after_parent);
            }
        }
        assert(is_extension(d, layer, outputs, entered, after_parent));
        let after = Visit {
            visited: after_parent.visited,
            ordered: after_parent.ordered.push(id),
        };
        assert(entered.visited.contains(id));
        assert(!after_parent.ordered.contains(id)) by {
            if visit.ordered.contains(id) {
                assert(visit.visited.contains(id));
            }
        }
        clients::lemma_push_new(after_parent.ordered, id);
        assert forall|x: ClientId| #[trigger] after.ordered.contains(x)
            <==> visit.ordered.contains(x) || (after.visited.contains(x)
            && !visit.visited.contains(x)) by {
            clients::lemma_contains_push(after_parent.ordered, id, x);
            assert(after_parent.ordered.contains(x) <==> entered.ordered.contains(x) || (
            after_parent.visited.contains(x) && !entered.visited.contains(x)));
            assert(entered.visited.contains(x) <==> visit.visited.contains(x) || x == id);
            if x == id {
                assert(after_parent.visited.contains(x));
            }
        }
        assert forall|x: ClientId| #[trigger] visit.visited.contains(
            x,
        ) implies after.visited.contains(x) by {
            assert(entered.visited.contains(x));
        }
        assert forall|i: int| 0 <= i < visit.ordered.len() implies #[trigger] after.ordered[i]
            == visit.ordered[i] by {
            assert(after_parent.ordered[i] == entered.ordered[i]);
        }
        assert forall|i: int| visit.ordered.len() <= i < after.ordered.len() implies d.layer_of(
            #[trigger] after.ordered[i],
            outputs,
        ) == Some(layer) by {
            if i < after_parent.ordered.len() {
                assert(after.ordered[i] == after_parent.ordered[i]);
            }
        }
    }
}

proof fn lemma_visiting_peers(
    d: Desk,
    id: ClientId,
    peers: Seq<ClientId>,
    layer: StackingLayer,
    outputs: Seq<Output>,
    visit: Visit,
    steps: nat,
)
    requires
        is_progress(visit),
    ensures
        is_extension(
            d,
            layer,
            outputs,
            visit,
            d.visiting_peers(id, peers, layer, outputs, visit, steps),
        ),
    decreases steps, peers.len() + 1,
{
    if peers.len() > 0 {
        let before = d.visiting_peers(id, peers.drop_last(), layer, outputs, visit, steps);
        lemma_visiting_peers(d, id, peers.drop_last(), layer, outputs, visit, steps);
        if d.is_kept_below(peers.last(), id, layer, outputs) {
            lemma_extension_progress(d, layer, outputs, visit, before);
            lemma_visiting(d, peers.last(), layer, outputs, before, steps);
            lemma_extension_chain(
                d,
                layer,
                outputs,
                visit,
                before,
                d.visiting(peers.last(), layer, outputs, before, steps),
            );
        }
    }
}

proof fn lemma_visiting_layer(
    d: Desk,
    ids: Seq<ClientId>,
    layer: StackingLayer,
    outputs: Seq<Output>,
    visit: Visit,
)
    requires
        is_progress(visit),
        d.managed.len() > 0 || ids.len() == 0,
    ensures
        is_extension(d, layer, outputs, visit, d.visiting_layer(ids, layer, outputs, visit)),
        forall|x: ClientId| #[trigger]
            ids.contains(x) && d.layer_of(x, outputs) == Some(layer) ==> d.visiting_layer(
                ids,
                layer,
                outputs,
                visit,
            ).visited.contains(x),
    decreases ids.len(),
{
    if ids.len() > 0 {
        let shorter = ids.drop_last();
        let before = d.visiting_layer(shorter, layer, outputs, visit);
        let after = d.visiting_layer(ids, layer, outputs, visit);
        lemma_visiting_layer(d, shorter, layer, outputs, visit);
        let last = ids.last();
        if d.layer_of(last, outputs) == Some(layer) {
            lemma_extension_progress(d, layer, outputs, visit, before);
            lemma_visiting(d, last, layer, outputs, before, d.managed.len());
            lemma_extension_chain(d, layer, outputs, visit, before, after);
            lemma_visited_itself(d, last, layer, outputs, before, d.managed.len());
        }
        assert forall|x: ClientId| #[trigger]
            ids.contains(x) && d.layer_of(x, outputs) == Some(
                layer,
            ) implies after.visited.contains(x) by {
            clients::lemma_contains_last(ids, x);
            if x != last {
                assert(shorter.contains(x));
                assert(before.visited.contains(x));
            }
        }
    }
}

/// A visit enters its own client.
proof fn lemma_visited_itself(
    d: Desk,
    id: ClientId,
    layer: StackingLayer,
    outputs: Seq<Output>,
    visit: Visit,
    steps: nat,
)
    requires
        is_progress(visit),
        d.layer_of(id, outputs) == Some(layer),
        steps > 0,
    ensures
        d.visiting(id, layer, outputs, visit, steps).visited.contains(id),
{
    let after = d.visiting(id, layer, outputs, visit, steps);
    lemma_visiting(d, id, layer, outputs, visit, steps);
    if !visit.visited.contains(id) {
        assert(after.ordered.last() == id);
        assert(after.ordered.contains(id)) by {
            assert(after.ordered[after.ordered.len() - 1] == id);
        }
        if visit.ordered.contains(id) {
            assert(visit.visited.contains(id));
        }
    }
}

/// Whether layers never decrease along an order.
pub open spec fn rises_by_layer(d: Desk, outputs: Seq<Output>, order: Seq<ClientId>) -> bool {
    forall|i: int, j: int|
        #![trigger order[i], order[j]]
        0 <= i < j < order.len() ==> d.layer_of(order[i], outputs)->0.level() <= d.layer_of(
            order[j],
            outputs,
        )->0.level()
}

/// Placing the first layers places exactly their clients, rising by layer.
proof fn lemma_visiting_layers(d: Desk, outputs: Seq<Output>, count: int)
    requires
        d.wf(),
        0 <= count <= 6,
    ensures
        ({
            let visit = d.visiting_layers(Desk::layers().take(count), outputs);
            &&& is_progress(visit)
            &&& rises_by_layer(d, outputs, visit.ordered)
            &&& forall|x: ClientId| #[trigger]
                visit.ordered.contains(x) <==> d.has(x) && d.layer_of(x, outputs)->0.level() < count
            &&& forall|x: ClientId| #[trigger]
                visit.visited.contains(x) <==> visit.ordered.contains(x)
        }),
    decreases count,
{
    let layers = Desk::layers().take(count);
    let visit = d.visiting_layers(layers, outputs);
    if count == 0 {
        assert(layers =~= Seq::<StackingLayer>::empty());
        assert forall|x: ClientId| #[trigger] visit.ordered.contains(x) <==> d.has(x) && d.layer_of(
            x,
            outputs,
        )->0.level() < count by {
            if visit.ordered.contains(x) {
                assert(false);
            }
        }
    } else {
        lemma_visiting_layers(d, outputs, count - 1);
        assert(layers.drop_last() =~= Desk::layers().take(count - 1));
        let layer = layers.last();
        assert(layer == Desk::layers()[count - 1]);
        assert(layer.level() == count - 1);
        let before = d.visiting_layers(Desk::layers().take(count - 1), outputs);
        if d.stacking.len() > 0 {
            assert(d.stacking.contains(d.stacking[0]));
            assert(d.managed.contains(d.stacking[0]));
        }
        lemma_visiting_layer(d, d.stacking, layer, outputs, before);
        lemma_extension_progress(d, layer, outputs, before, visit);
        assert forall|x: ClientId| #[trigger] visit.ordered.contains(x) <==> d.has(x) && d.layer_of(
            x,
            outputs,
        )->0.level() < count by {
            assert(before.ordered.contains(x) <==> d.has(x) && d.layer_of(x, outputs)->0.level()
                < count - 1);
            assert(before.visited.contains(x) <==> before.ordered.contains(x));
            if visit.ordered.contains(x) && !before.ordered.contains(x) {
                let i = choose|i: int| 0 <= i < visit.ordered.len() && visit.ordered[i] == x;
                if i < before.ordered.len() {
                    assert(before.ordered[i] == x);
                    assert(before.ordered.contains(x));
                }
                assert(d.layer_of(visit.ordered[i], outputs) == Some(layer));
            }
            if d.has(x) && d.layer_of(x, outputs)->0.level() == count - 1 {
                lemma_level_is_layer(d.layer_of(x, outputs)->0, layer);
                assert(d.stacking.contains(x));
                assert(visit.visited.contains(x));
                if before.visited.contains(x) {
                    assert(before.ordered.contains(x));
                }
            }
        }
        assert forall|x: ClientId| #[trigger] visit.visited.contains(x) <==> visit.ordered.contains(
            x,
        ) by {
            assert(before.visited.contains(x) <==> before.ordered.contains(x));
        }
        assert forall|i: int, j: int|
            #![trigger visit.ordered[i], visit.ordered[j]]
            0 <= i < j < visit.ordered.len() implies d.layer_of(
            visit.ordered[i],
            outputs,
        )->0.level() <= d.layer_of(visit.ordered[j], outputs)->0.level() by {
            if i < before.ordered.len() {
                assert(before.ordered.contains(before.ordered[i]));
                if j < before.ordered.len() {
                    assert(visit.ordered[j] == before.ordered[j]);
                }
            }
        }
    }
}

proof fn lemma_level_is_layer(a: StackingLayer, b: StackingLayer)
    requires
        a.level() == b.level(),
    ensures
        a == b,
{
}

/// The policy order holds every managed client exactly once, and layers never
/// decrease from bottom to top.
pub proof fn law_policy_order_is_complete(d: Desk, outputs: Seq<Output>)
    requires
        d.wf(),
    ensures
        d.lists_all(d.policy_order(outputs)),
        rises_by_layer(d, outputs, d.policy_order(outputs)),
{
    lemma_visiting_layers(d, outputs, 6);
    assert(Desk::layers().take(6) =~= Desk::layers());
}

/// Whether a rank falls along everything that ordering one client first places
/// below it.
pub open spec fn falls_downward(
    d: Desk,
    outputs: Seq<Output>,
    rank: spec_fn(ClientId) -> nat,
) -> bool {
    &&& forall|id: ClientId|
        #![trigger d.has(id)]
        d.has(id) ==> (d.client(id).parent() matches Some(parent) ==> rank(parent) < rank(id))
    &&& forall|id: ClientId, peer: ClientId, layer: StackingLayer|
        #![trigger d.is_kept_below(peer, id, layer, outputs)]
        d.is_kept_below(peer, id, layer, outputs) ==> rank(peer) < rank(id)
}

/// Whether a placed client has its parent of the same layer placed before it.
spec fn is_above_parent(d: Desk, outputs: Seq<Output>, order: Seq<ClientId>, at: int) -> bool {
    let id = order[at];
    match d.client(id).parent() {
        Some(parent) => d.has(id) && d.layer_of(parent, outputs).is_some() && d.layer_of(
            parent,
            outputs,
        ) == d.layer_of(id, outputs) ==> order.take(at).contains(parent),
        None => true,
    }
}

spec fn all_above_parents(d: Desk, outputs: Seq<Output>, order: Seq<ClientId>) -> bool {
    forall|i: int| 0 <= i < order.len() ==> #[trigger] is_above_parent(d, outputs, order, i)
}

/// Whether every client entered but not placed outranks a client.
spec fn open_ones_outrank(
    visit: Visit,
    rank: spec_fn(ClientId) -> nat,
    id: ClientId,
) -> bool {
    forall|x: ClientId| #[trigger]
        visit.visited.contains(x) && !visit.ordered.contains(x) ==> rank(x) > rank(id)
}

proof fn lemma_extension_keeps_open(
    d: Desk,
    layer: StackingLayer,
    outputs: Seq<Output>,
    a: Visit,
    b: Visit,
    rank: spec_fn(ClientId) -> nat,
    id: ClientId,
)
    requires
        is_extension(d, layer, outputs, a, b),
        open_ones_outrank(a, rank, id),
    ensures
        open_ones_outrank(b, rank, id),
{
    assert forall|x: ClientId| #[trigger] b.visited.contains(x) && !b.ordered.contains(
        x,
    ) implies rank(x) > rank(id) by {
        assert(!(a.ordered.contains(x) || !a.visited.contains(x)));
        assert(a.visited.contains(x) && !a.ordered.contains(x));
    }
}

proof fn lemma_visiting_above(
    d: Desk,
    id: ClientId,
    layer: StackingLayer,
    outputs: Seq<Output>,
    visit: Visit,
    steps: nat,
    rank: spec_fn(ClientId) -> nat,
)
    requires
        d.wf(),
        falls_downward(d, outputs, rank),
        is_progress(visit),
        d.lists_some(visit.visited),
        d.layer_of(id, outputs) == Some(layer),
        all_above_parents(d, outputs, visit.ordered),
        open_ones_outrank(visit, rank, id),
        steps + visit.visited.len() >= d.managed.len(),
    ensures
        all_above_parents(d, outputs, d.visiting(id, layer, outputs, visit, steps).ordered),
        d.visiting(id, layer, outputs, visit, steps).visited.contains(id),
        d.lists_some(d.visiting(id, layer, outputs, visit, steps).visited),
        visit.visited.len() <= d.visiting(id, layer, outputs, visit, steps).visited.len(),
    decreases steps, 0nat,
{
    assert(d.managed.contains(id));
    assert forall|x: ClientId| #[trigger] visit.visited.contains(x) implies d.managed.contains(
        x,
    ) by {
        assert(d.has(x));
    }
    if steps == 0 {
        clients::lemma_full_list(visit.visited, d.managed, id);
    }
    if !visit.visited.contains(id) {
        let entered = Visit { visited: visit.visited.push(id), ordered: visit.ordered };
        let fewer = (steps - 1) as nat;
        clients::lemma_push_new(visit.visited, id);
        assert forall|x: ClientId| #[trigger] entered.visited.contains(x)
            <==> visit.visited.contains(x) || x == id by {
            clients::lemma_contains_push(visit.visited, id, x);
        }
        let after_peers = d.visiting_peers(id, d.stacking, layer, outputs, entered, fewer);
        lemma_visiting_peers_above(
            d,
            id,
            d.stacking,
            layer,
            outputs,
            entered,
            fewer,
            rank,
        );
        lemma_visiting_peers(d, id, d.stacking, layer, outputs, entered, fewer);
        lemma_extension_progress(d, layer, outputs, entered, after_peers);
        let after = d.visiting(id, layer, outputs, visit, steps);
        match d.client(id).parent() {
            Some(parent) => {
                if d.layer_of(parent, outputs) == Some(layer) {
                    let after_parent = d.visiting(parent, layer, outputs, after_peers, fewer);
                    assert(rank(parent) < rank(id));
                    assert(open_ones_outrank(entered, rank, parent)) by {
                        assert forall|x: ClientId| #[trigger]
                            entered.visited.contains(x) && !entered.ordered.contains(
                                x,
                            ) implies rank(x) > rank(parent) by {
                            if x != id {
                                assert(visit.visited.contains(x) && !visit.ordered.contains(x));
                            }
                        }
                    }
                    lemma_extension_keeps_open(
                        d,
                        layer,
                        outputs,
                        entered,
                        after_peers,
                        rank,
                        parent,
                    );
                    lemma_visiting_above(d, parent, layer, outputs, after_peers, fewer, rank);
                    lemma_visiting(d, parent, layer, outputs, after_peers, fewer);
                    lemma_extension_keeps_open(
                        d,
                        layer,
                        outputs,
                        after_peers,
                        after_parent,
                        rank,
                        parent,
                    );
                    assert(after_parent.ordered.contains(parent)) by {
                        if !after_parent.ordered.contains(parent) {
                            assert(after_parent.visited.contains(parent));
                            assert(rank(parent) > rank(parent));
                        }
                    }
                    lemma_one_more_above(d, outputs, after_parent.ordered, id);
                    lemma_extension_chain(d, layer, outputs, entered, after_peers, after_parent);
                    assert(entered.visited.contains(id));
                    assert(after_parent.visited.contains(id));
                } else {
                    lemma_one_more_above(d, outputs, after_peers.ordered, id);
                    assert(entered.visited.contains(id));
                }
            },
            None => {
                lemma_one_more_above(d, outputs, after_peers.ordered, id);
                assert(entered.visited.contains(id));
            },
        }
    }
}

/// Placing one more client keeps every client above its parent when its own
/// parent is placed.
proof fn lemma_one_more_above(d: Desk, outputs: Seq<Output>, order: Seq<ClientId>, id: ClientId)
    requires
        all_above_parents(d, outputs, order),
        d.client(id).parent() matches Some(parent) ==> (d.has(id) && d.layer_of(
            parent,
            outputs,
        ).is_some() && d.layer_of(parent, outputs) == d.layer_of(id, outputs) ==> order.contains(
            parent,
        )),
    ensures
        all_above_parents(d, outputs, order.push(id)),
{
    let longer = order.push(id);
    assert forall|i: int| 0 <= i < longer.len() implies #[trigger] is_above_parent(
        d,
        outputs,
        longer,
        i,
    ) by {
        if i < order.len() {
            assert(is_above_parent(d, outputs, order, i));
            assert(longer.take(i) =~= order.take(i));
        } else {
            assert(longer.take(i) =~= order);
        }
    }
}

proof fn lemma_visiting_peers_above(
    d: Desk,
    id: ClientId,
    peers: Seq<ClientId>,
    layer: StackingLayer,
    outputs: Seq<Output>,
    visit: Visit,
    steps: nat,
    rank: spec_fn(ClientId) -> nat,
)
    requires
        d.wf(),
        falls_downward(d, outputs, rank),
        is_progress(visit),
        d.lists_some(visit.visited),
        all_above_parents(d, outputs, visit.ordered),
        forall|x: ClientId| #[trigger]
            visit.visited.contains(x) && !visit.ordered.contains(x) ==> rank(x) >= rank(id),
        steps + visit.visited.len() >= d.managed.len(),
    ensures
        ({
            let after = d.visiting_peers(id, peers, layer, outputs, visit, steps);
            &&& all_above_parents(d, outputs, after.ordered)
            &&& d.lists_some(after.visited)
            &&& visit.visited.len() <= after.visited.len()
        }),
    decreases steps, peers.len() + 1,
{
    if peers.len() > 0 {
        let before = d.visiting_peers(id, peers.drop_last(), layer, outputs, visit, steps);
        lemma_visiting_peers_above(
            d,
            id,
            peers.drop_last(),
            layer,
            outputs,
            visit,
            steps,
            rank,
        );
        lemma_visiting_peers(d, id, peers.drop_last(), layer, outputs, visit, steps);
        let peer = peers.last();
        if d.is_kept_below(peer, id, layer, outputs) {
            lemma_extension_progress(d, layer, outputs, visit, before);
            assert(rank(peer) < rank(id));
            assert(open_ones_outrank(visit, rank, peer));
            lemma_extension_keeps_open(d, layer, outputs, visit, before, rank, peer);
            lemma_visiting_above(d, peer, layer, outputs, before, steps, rank);
        }
    }
}

proof fn lemma_visiting_layer_above(
    d: Desk,
    ids: Seq<ClientId>,
    layer: StackingLayer,
    outputs: Seq<Output>,
    visit: Visit,
    rank: spec_fn(ClientId) -> nat,
)
    requires
        d.wf(),
        falls_downward(d, outputs, rank),
        is_progress(visit),
        d.lists_some(visit.visited),
        all_above_parents(d, outputs, visit.ordered),
        forall|x: ClientId| #[trigger] visit.visited.contains(x) ==> visit.ordered.contains(x),
        d.managed.len() > 0 || ids.len() == 0,
    ensures
        ({
            let after = d.visiting_layer(ids, layer, outputs, visit);
            &&& all_above_parents(d, outputs, after.ordered)
            &&& d.lists_some(after.visited)
            &&& is_progress(after)
            &&& forall|x: ClientId| #[trigger]
                after.visited.contains(x) ==> after.ordered.contains(x)
        }),
    decreases ids.len(),
{
    if ids.len() > 0 {
        let before = d.visiting_layer(ids.drop_last(), layer, outputs, visit);
        lemma_visiting_layer_above(d, ids.drop_last(), layer, outputs, visit, rank);
        if d.layer_of(ids.last(), outputs) == Some(layer) {
            let after = d.visiting(ids.last(), layer, outputs, before, d.managed.len());
            lemma_visiting_above(
                d,
                ids.last(),
                layer,
                outputs,
                before,
                d.managed.len(),
                rank,
            );
            lemma_visiting(d, ids.last(), layer, outputs, before, d.managed.len());
            lemma_extension_progress(d, layer, outputs, before, after);
            assert forall|x: ClientId| #[trigger] after.visited.contains(
                x,
            ) implies after.ordered.contains(x) by {
                if before.visited.contains(x) {
                    assert(before.ordered.contains(x));
                }
            }
        }
    }
}

proof fn lemma_visiting_layers_above(
    d: Desk,
    layers: Seq<StackingLayer>,
    outputs: Seq<Output>,
    rank: spec_fn(ClientId) -> nat,
)
    requires
        d.wf(),
        falls_downward(d, outputs, rank),
    ensures
        ({
            let after = d.visiting_layers(layers, outputs);
            &&& all_above_parents(d, outputs, after.ordered)
            &&& d.lists_some(after.visited)
            &&& is_progress(after)
            &&& forall|x: ClientId| #[trigger]
                after.visited.contains(x) ==> after.ordered.contains(x)
        }),
    decreases layers.len(),
{
    if layers.len() > 0 {
        let before = d.visiting_layers(layers.drop_last(), outputs);
        lemma_visiting_layers_above(d, layers.drop_last(), outputs, rank);
        if d.stacking.len() > 0 {
            assert(d.stacking.contains(d.stacking[0]));
            assert(d.managed.contains(d.stacking[0]));
        }
        lemma_visiting_layer_above(d, d.stacking, layers.last(), outputs, before, rank);
    }
}

/// Unless transient relationships run in a circle, the policy order keeps every
/// specific transient above its parent of the same layer.
pub proof fn law_transients_stay_above_parents(
    d: Desk,
    outputs: Seq<Output>,
    rank: spec_fn(ClientId) -> nat,
    at: int,
)
    requires
        d.wf(),
        falls_downward(d, outputs, rank),
        0 <= at < d.policy_order(outputs).len(),
    ensures
        ({
            let order = d.policy_order(outputs);
            let id = order[at];
            d.client(id).parent() matches Some(parent) ==> (d.has(parent) && d.layer_of(
                parent,
                outputs,
            ) == d.layer_of(id, outputs) ==> order.take(at).contains(parent))
        }),
{
    let order = d.policy_order(outputs);
    lemma_visiting_layers_above(d, Desk::layers(), outputs, rank);
    law_policy_order_is_complete(d, outputs);
    assert(is_above_parent(d, outputs, order, at));
    assert(order.contains(order[at]));
}

/// Showing the desktop changes no client and no order, and leaving it again gives focus as it
/// would have been recovered before.
pub proof fn law_showing_the_desktop_is_temporary(d: Desk)
    requires
        d.wf(),
        !d.showing_desktop,
    ensures
        d.showing(true).clients == d.clients,
        d.showing(true).managed == d.managed,
        d.showing(true).stacking == d.stacking,
        d.showing(true).recent == d.recent,
        d.showing(true).showing(false) == d.recovered(),
{
    let shown = d.showing(true);
    let back = Desk { showing_desktop: false, ..shown };
    assert(back == (Desk { focused: shown.focused, ..d }));
    clients::lemma_recovery_ignores_focus(d, shown.focused);
}

/// The position of the most recent client that can be given focus.
proof fn lemma_latest_to_focus(d: Desk, ids: Seq<ClientId>, index: int)
    requires
        0 <= index < ids.len(),
        d.can_focus(ids[index]),
        forall|later: int| index < later < ids.len() ==> !d.can_focus(#[trigger] ids[later]),
    ensures
        d.last_to_focus(ids) == Some(ids[index]),
    decreases ids.len(),
{
    if index < ids.len() - 1 {
        assert(!d.can_focus(ids[ids.len() - 1]));
        lemma_latest_to_focus(d, ids.drop_last(), index);
    }
}

/// Switching to another workspace remembers the one that was left, changes no client, and
/// focuses the most recent client of that workspace that can be given focus.
pub proof fn law_switching_restores_recent_focus(d: Desk, workspace: WorkspaceId, index: int)
    requires
        d.wf(),
        workspace.0 < d.workspace_count,
        workspace != d.current,
        0 <= index < d.recent[workspace].len(),
        d.switching(workspace).can_focus(d.recent[workspace][index]),
        forall|later: int|
            index < later < d.recent[workspace].len() ==> !d.switching(workspace).can_focus(
                #[trigger] d.recent[workspace][later],
            ),
    ensures
        d.switching(workspace).current == workspace,
        d.switching(workspace).last == d.current,
        d.switching(workspace).clients == d.clients,
        d.switching(workspace).focused == Some(d.recent[workspace][index]),
{
    let moved = Desk { last: d.current, current: workspace, ..d };
    let after = d.switching(workspace);
    assert forall|id: ClientId| #[trigger] moved.can_focus(id) == after.can_focus(id) by {
        assert(after.shows(after.client(id)) == moved.shows(moved.client(id)));
    }
    assert forall|later: int| index < later < d.recent[workspace].len() implies !moved.can_focus(
        #[trigger] d.recent[workspace][later],
    ) by {
        assert(!after.can_focus(d.recent[workspace][later]));
    }
    assert(moved.can_focus(d.recent[workspace][index]));
    lemma_latest_to_focus(moved, d.recent[workspace], index);
}

/// Joining histories changes no client and no order.
proof fn lemma_gathered_keeps(d: Desk, ids: Seq<ClientId>, workspace: WorkspaceId)
    ensures
        d.gathered(ids, workspace).clients == d.clients,
        d.gathered(ids, workspace).managed == d.managed,
        d.gathered(ids, workspace).stacking == d.stacking,
    decreases ids.len(),
{
    if ids.len() > 0 {
        lemma_gathered_keeps(d, ids.drop_last(), workspace);
    }
}

/// Whatever is done to the set of workspaces, the same clients stay managed, in the same orders,
/// and nothing of a client changes but where it is assigned.
pub proof fn law_workspace_changes_keep_clients(
    d: Desk,
    index: u32,
    count: u32,
    moved: Seq<ClientId>,
    raw: u64,
)
    requires
        d.wf(),
        d.clients.contains_key(raw),
    ensures
        forall|after: Desk|
            #![trigger after.clients]
            after == d.inserting(index) || after == d.removing(index) || after == d.resized(
                count,
                moved,
            ) ==> {
                &&& after.clients.dom() == d.clients.dom()
                &&& after.managed == d.managed
                &&& after.stacking == d.stacking
                &&& after.clients[raw] == d.clients[raw].assigned(after.clients[raw].workspace)
            },
{
    let final_workspace = WorkspaceId((count - 1) as u32);
    lemma_gathered_keeps(d.cut_to(count), moved, final_workspace);
    assert(d.inserting(index).clients.dom() =~= d.clients.dom());
    assert(d.removing(index).clients.dom() =~= d.clients.dom());
    assert(d.resized(count, moved).clients.dom() =~= d.clients.dom());
}

/// The managed client some number of parents above a client.
pub open spec fn ancestor(d: Desk, id: ClientId, distance: nat) -> Option<ClientId>
    decreases distance,
{
    if distance == 0 {
        Some(id)
    } else {
        match ancestor(d, id, (distance - 1) as nat) {
            Some(nearer) => d.managed_parent(nearer),
            None => None,
        }
    }
}

/// The ancestors of a parent are those of its child, one further on.
proof fn lemma_ancestor_of_parent(d: Desk, id: ClientId, parent: ClientId, distance: nat)
    requires
        d.managed_parent(id) == Some(parent),
    ensures
        ancestor(d, parent, distance) == ancestor(d, id, distance + 1),
    decreases distance,
{
    if distance > 0 {
        lemma_ancestor_of_parent(d, id, parent, (distance - 1) as nat);
    } else {
        assert(ancestor(d, id, 0) == Some(id));
    }
}

/// Ancestors that recur do so for ever.
proof fn lemma_ancestors_recur(d: Desk, id: ClientId, near: nat, far: nat, further: nat)
    requires
        ancestor(d, id, near) == ancestor(d, id, far),
    ensures
        ancestor(d, id, near + further) == ancestor(d, id, far + further),
    decreases further,
{
    if further > 0 {
        lemma_ancestors_recur(d, id, near, far, (further - 1) as nat);
    }
}

/// An inherited layer is at least the one begun with and each own layer on the way.
proof fn lemma_inherited_layer_covers(
    d: Desk,
    id: ClientId,
    layer: StackingLayer,
    outputs: Seq<Output>,
    steps: nat,
    distance: nat,
)
    requires
        distance <= steps,
    ensures
        d.inherited_layer(id, layer, outputs, steps).level() >= layer.level(),
        distance > 0 ==> (ancestor(d, id, distance) matches Some(found) ==> d.inherited_layer(
            id,
            layer,
            outputs,
            steps,
        ).level() >= d.own_layer(d.client(found), outputs).level()),
    decreases steps,
{
    if steps > 0 {
        if let Some(parent) = d.managed_parent(id) {
            let raised = layer.highest(d.own_layer(d.client(parent), outputs));
            let before = (steps - 1) as nat;
            if distance > 1 {
                lemma_inherited_layer_covers(
                    d,
                    parent,
                    raised,
                    outputs,
                    before,
                    (distance - 1) as nat,
                );
                lemma_ancestor_of_parent(d, id, parent, (distance - 1) as nat);
            } else {
                lemma_inherited_layer_covers(d, parent, raised, outputs, before, 0);
                lemma_ancestor_of_parent(d, id, parent, 0);
            }
        } else {
            lemma_no_ancestors(d, id, distance);
        }
    }
}

/// A client without a managed parent has no ancestors but itself.
proof fn lemma_no_ancestors(d: Desk, id: ClientId, distance: nat)
    requires
        d.managed_parent(id) is None,
    ensures
        distance > 0 ==> ancestor(d, id, distance) is None,
    decreases distance,
{
    if distance > 1 {
        lemma_no_ancestors(d, id, (distance - 1) as nat);
    } else if distance == 1 {
        assert(ancestor(d, id, 0) == Some(id));
    }
}

/// An inherited layer is the one begun with or an own layer on the way.
proof fn lemma_inherited_layer_comes_from(
    d: Desk,
    id: ClientId,
    layer: StackingLayer,
    outputs: Seq<Output>,
    steps: nat,
) -> (distance: nat)
    ensures
        distance <= steps,
        distance == 0 ==> d.inherited_layer(id, layer, outputs, steps) == layer,
        distance > 0 ==> (ancestor(d, id, distance) matches Some(found) && d.inherited_layer(
            id,
            layer,
            outputs,
            steps,
        ) == d.own_layer(d.client(found), outputs)),
    decreases steps,
{
    if steps > 0 && d.managed_parent(id) is Some {
        let parent = d.managed_parent(id)->0;
        let raised = layer.highest(d.own_layer(d.client(parent), outputs));
        let before = (steps - 1) as nat;
        let further = lemma_inherited_layer_comes_from(d, parent, raised, outputs, before);
        lemma_ancestor_of_parent(d, id, parent, further);
        if further == 0 && raised == layer {
            0
        } else {
            further + 1
        }
    } else {
        0
    }
}

/// Every ancestor of a managed client is met among the nearest ones, of which there are as many
/// as managed clients.
proof fn lemma_ancestors_are_near(d: Desk, id: ClientId) -> (distance: nat)
    requires
        d.wf(),
        d.has(id),
        ancestor(d, id, d.managed.len() + 1) is Some,
    ensures
        0 < distance <= d.managed.len(),
        ancestor(d, id, distance) == ancestor(d, id, d.managed.len() + 1),
{
    let count = d.managed.len();
    let chain = Seq::new((count + 1) as nat, |i: int| ancestor(d, id, (i + 1) as nat)->0);
    assert forall|i: int| 0 <= i < chain.len() implies ancestor(d, id, (i + 1) as nat) == Some(
        #[trigger] chain[i],
    ) && d.has(chain[i]) by {
        lemma_nearer_ancestor(d, id, (i + 1) as nat, (count + 1) as nat);
        lemma_ancestor_is_managed(d, id, (i + 1) as nat);
    }
    if chain.no_duplicates() {
        chain.unique_seq_to_set();
        d.managed.unique_seq_to_set();
        assert(chain.to_set().subset_of(d.managed.to_set())) by {
            assert forall|c: ClientId| chain.to_set().contains(c) implies #[trigger]
                d.managed.to_set().contains(c) by {
                let i = choose|i: int| 0 <= i < chain.len() && chain[i] == c;
                assert(d.has(chain[i]));
                assert(d.managed.contains(c));
            }
        }
        vstd::set_lib::lemma_len_subset(chain.to_set(), d.managed.to_set());
        assert(false);
    }
    let (i, j) = choose|i: int, j: int|
        0 <= i < chain.len() && 0 <= j < chain.len() && i != j && #[trigger] chain[i]
            == #[trigger] chain[j];
    let near = (if i < j { i } else { j } + 1) as nat;
    let far = (if i < j { j } else { i } + 1) as nat;
    lemma_ancestors_recur(d, id, near, far, (count + 1 - far) as nat);
    (near + (count + 1 - far)) as nat
}

/// The ancestors on the way to an ancestor.
proof fn lemma_nearer_ancestor(d: Desk, id: ClientId, near: nat, far: nat)
    requires
        near <= far,
        ancestor(d, id, far) is Some,
    ensures
        ancestor(d, id, near) is Some,
    decreases far,
{
    if near < far {
        lemma_nearer_ancestor(d, id, near, (far - 1) as nat);
    }
}

/// Ancestors are managed.
proof fn lemma_ancestor_is_managed(d: Desk, id: ClientId, distance: nat)
    requires
        d.has(id),
    ensures
        ancestor(d, id, distance) matches Some(found) ==> d.has(found),
{
}

/// A transient is never stacked in a layer below that of its managed parent; the layer of a client
/// without one that covers no output is its own.
pub proof fn law_transients_stay_with_their_parents(d: Desk, id: ClientId, outputs: Seq<Output>)
    requires
        d.wf(),
    ensures
        d.layer_of(id, outputs) is Some <==> d.has(id),
        d.managed_parent(id) matches Some(parent) ==> d.layer_of(id, outputs)->0.level()
            >= d.layer_of(parent, outputs)->0.level(),
        d.has(id) && d.managed_parent(id) is None && d.client(id).fullscreen is None
            && d.client(id).output_coverage is None ==> d.layer_of(id, outputs) == Some(
            d.client(id).windowed_layer(),
        ),
{
    let steps = (d.managed.len() + 1) as nat;
    if let Some(parent) = d.managed_parent(id) {
        let own = d.own_layer(d.client(id), outputs);
        let parents = d.own_layer(d.client(parent), outputs);
        let distance = lemma_inherited_layer_comes_from(d, parent, parents, outputs, steps);
        lemma_ancestor_of_parent(d, id, parent, distance);
        if distance < steps {
            lemma_inherited_layer_covers(d, id, own, outputs, steps, (distance + 1) as nat);
        } else {
            lemma_ancestor_of_parent(d, id, parent, (distance - 1) as nat);
            let near = lemma_ancestors_are_near(d, parent);
            lemma_ancestor_of_parent(d, id, parent, near);
            lemma_inherited_layer_covers(d, id, own, outputs, steps, (near + 1) as nat);
        }
    }
}

} // verus!
