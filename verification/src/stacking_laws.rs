//! Laws of stacking: which windows stand above which.

use vstd::prelude::*;

use crate::desk::Desk;
use crate::desk_laws;
use crate::ids::ClientId;
use crate::outputs::Output;
use crate::policy::{ClientLayer, ClientRole, StackingLayer};

verus! {

/// The layers lie above each other as desktop, below, normal, dock, above, and fullscreen, and the
/// higher of two layers is the one that lies above.
pub proof fn law_layers_lie_above_each_other(one: StackingLayer, other: StackingLayer)
    ensures
        StackingLayer::Desktop.level() < StackingLayer::Below.level(),
        StackingLayer::Below.level() < StackingLayer::Normal.level(),
        StackingLayer::Normal.level() < StackingLayer::Dock.level(),
        StackingLayer::Dock.level() < StackingLayer::Above.level(),
        StackingLayer::Above.level() < StackingLayer::Fullscreen.level(),
        one.highest(other) == one || one.highest(other) == other,
        one.highest(other).level() >= one.level(),
        one.highest(other).level() >= other.level(),
{
}

/// Whether a managed client is layered by what it asks for alone: it is not fullscreen, covers no
/// output, and is transient for no client.
pub open spec fn is_layered_alone(d: Desk, id: ClientId) -> bool {
    &&& d.has(id)
    &&& d.client(id).fullscreen is None
    &&& d.client(id).output_coverage is None
    &&& d.client(id).parent() is None
}

/// Whether one client is listed below another one, both being listed.
pub open spec fn is_listed_below(order: Seq<ClientId>, lower: ClientId, upper: ClientId) -> bool {
    &&& order.contains(lower)
    &&& order.contains(upper)
    &&& forall|i: int, j: int|
        #![trigger order[i], order[j]]
        0 <= i < order.len() && 0 <= j < order.len() && order[i] == lower && order[j] == upper
            ==> i < j
}

/// A client of a lower layer is listed below every client of a higher one.
pub proof fn law_lower_layers_are_listed_first(
    d: Desk,
    outputs: Seq<Output>,
    lower: ClientId,
    upper: ClientId,
)
    requires
        d.wf(),
        d.has(lower),
        d.has(upper),
        d.layer_of(lower, outputs)->0.level() < d.layer_of(upper, outputs)->0.level(),
    ensures
        is_listed_below(d.policy_order(outputs), lower, upper),
{
    let order = d.policy_order(outputs);
    desk_laws::law_policy_order_is_complete(d, outputs);
    assert(order.contains(lower));
    assert(order.contains(upper));
    assert forall|i: int, j: int|
        #![trigger order[i], order[j]]
        0 <= i < order.len() && 0 <= j < order.len() && order[i] == lower && order[j]
            == upper implies i < j by {
        if j < i {
            assert(d.layer_of(order[j], outputs)->0.level() <= d.layer_of(
                order[i],
                outputs,
            )->0.level());
        }
    }
}

/// Of clients that are not desktop surfaces and are layered by what they ask for alone, one kept
/// below lies in a lower layer than one with no such wish, and that one in a lower layer than one
/// kept above; the lower one is listed first.
pub proof fn law_requested_layers_are_kept(
    d: Desk,
    outputs: Seq<Output>,
    lower: ClientId,
    upper: ClientId,
)
    requires
        d.wf(),
        is_layered_alone(d, lower),
        is_layered_alone(d, upper),
        d.client(lower).policy.role != ClientRole::Desktop,
        d.client(upper).policy.role != ClientRole::Desktop,
        d.client(lower).layer == ClientLayer::Below && d.client(upper).layer != ClientLayer::Below
            || d.client(lower).layer != ClientLayer::Above && d.client(upper).layer
            == ClientLayer::Above,
    ensures
        d.layer_of(lower, outputs)->0.level() < d.layer_of(upper, outputs)->0.level(),
        is_listed_below(d.policy_order(outputs), lower, upper),
{
    law_lower_layers_are_listed_first(d, outputs, lower, upper);
}

/// Of clients that are layered by what they ask for alone, a desktop surface lies below every
/// other one, whatever it asks for, and a dock with no wish lies above every other client with
/// none that is not a dock.
pub proof fn law_roles_are_layered(d: Desk, outputs: Seq<Output>, lower: ClientId, upper: ClientId)
    requires
        d.wf(),
        is_layered_alone(d, lower),
        is_layered_alone(d, upper),
        d.client(lower).policy.role == ClientRole::Desktop && d.client(upper).policy.role
            != ClientRole::Desktop || d.client(lower).policy.role != ClientRole::Dock && d.client(
            upper,
        ).policy.role == ClientRole::Dock && d.client(lower).layer == ClientLayer::Normal
            && d.client(upper).layer == ClientLayer::Normal,
    ensures
        d.layer_of(lower, outputs)->0.level() < d.layer_of(upper, outputs)->0.level(),
        is_listed_below(d.policy_order(outputs), lower, upper),
{
    law_lower_layers_are_listed_first(d, outputs, lower, upper);
}

/// A fullscreen client lies above every other client that is layered by what it asks for alone,
/// while it has focus, or while nothing has.
pub proof fn law_focused_fullscreen_clients_are_on_top(
    d: Desk,
    outputs: Seq<Output>,
    lower: ClientId,
    upper: ClientId,
)
    requires
        d.wf(),
        is_layered_alone(d, lower),
        d.has(upper),
        d.client(upper).fullscreen is Some,
        d.client(upper).parent() is None,
        d.focused is None || d.focused == Some(upper),
    ensures
        d.layer_of(upper, outputs) == Some(StackingLayer::Fullscreen),
        is_listed_below(d.policy_order(outputs), lower, upper),
{
    law_lower_layers_are_listed_first(d, outputs, lower, upper);
}

/// A fullscreen client without a parent gives up its place on top while a client that does not
/// belong to it has focus on the same workspace and output, and is then layered by what it asks
/// for.
pub proof fn law_unfocused_fullscreen_clients_step_back(
    d: Desk,
    outputs: Seq<Output>,
    id: ClientId,
    focused: ClientId,
)
    requires
        d.wf(),
        d.has(id),
        d.has(focused),
        d.client(id).fullscreen is Some,
        d.client(id).parent() is None,
        d.client(id).policy.role == ClientRole::Normal,
        d.focused == Some(focused),
        focused != id,
        d.client(focused).parent() is None,
        d.client(id).workspace.shows_on(d.current),
        d.client(id).geometry == d.client(focused).geometry,
    ensures
        d.client(id).layer == ClientLayer::Below ==> d.layer_of(id, outputs) == Some(
            StackingLayer::Below,
        ),
        d.client(id).layer == ClientLayer::Normal ==> d.layer_of(id, outputs) == Some(
            StackingLayer::Normal,
        ),
        d.client(id).layer == ClientLayer::Above ==> d.layer_of(id, outputs) == Some(
            StackingLayer::Above,
        ),
{
}

} // verus!
