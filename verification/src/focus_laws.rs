//! Laws of focus, visibility, and the stacking order.

use vstd::prelude::*;

use crate::clients;
use crate::desk;
use crate::desk::Desk;
use crate::desk_laws;
use crate::ids::{ClientId, WorkspaceId};
use crate::policy::{Client, ClientRole};
use crate::stacking_laws;
use crate::workspace::{WorkspaceAssignment, WorkspaceDirection};

verus! {

/// A client shows where it is on the active workspace or on all of them, and while the desktop is
/// shown only if it is a desktop surface or a dock. It takes focus where it shows, unless it is
/// minimized or never takes focus, and it is offered for automatic focus unless it stays off task
/// lists and is neither modal, urgent, nor a dialog.
pub proof fn law_what_shows_can_be_focused(d: Desk, client: Client)
    ensures
        client.workspace == WorkspaceAssignment::Workspace(d.current) && !d.showing_desktop
            ==> d.shows(client),
        client.workspace == WorkspaceAssignment::All && !d.showing_desktop ==> d.shows(client),
        client.workspace != WorkspaceAssignment::Workspace(d.current) && client.workspace
            != WorkspaceAssignment::All ==> !d.shows(client),
        d.showing_desktop && client.policy.role != ClientRole::Desktop && client.policy.role
            != ClientRole::Dock ==> !d.shows(client),
        d.showing_desktop && (client.policy.role == ClientRole::Desktop || client.policy.role
            == ClientRole::Dock) ==> d.shows(client) == (client.workspace == (
        WorkspaceAssignment::Workspace(d.current)) || client.workspace == WorkspaceAssignment::All),
        d.takes_focus(client) ==> d.shows(client),
        client.iconic ==> !d.takes_focus(client),
        !client.policy.capabilities.focusable ==> !d.takes_focus(client),
        d.shows(client) && !client.iconic && client.policy.capabilities.focusable
            ==> d.takes_focus(client),
        d.cycles(client) ==> d.takes_focus(client),
        d.takes_focus(client) && !client.presentation.skip_taskbar ==> d.cycles(client),
        d.takes_focus(client) && client.modal ==> d.cycles(client),
        d.takes_focus(client) && client.presentation.urgent ==> d.cycles(client),
        d.takes_focus(client) && client.policy.role == ClientRole::Dialog ==> d.cycles(client),
        client.presentation.skip_taskbar && !client.modal && !client.presentation.urgent
            && client.policy.role != ClientRole::Dialog ==> !d.cycles(client),
{
}

/// Taking an identifier out of a list keeps the order of all others.
pub proof fn law_taking_out_keeps_the_order(
    ids: Seq<ClientId>,
    id: ClientId,
    first: ClientId,
    second: ClientId,
)
    requires
        ids.no_duplicates(),
        first != id,
        second != id,
    ensures
        !desk::without(ids, id).contains(id),
        stacking_laws::is_listed_below(ids, first, second) ==> stacking_laws::is_listed_below(
            desk::without(ids, id),
            first,
            second,
        ),
    decreases ids.len(),
{
    clients::lemma_without(ids, id);
    if ids.len() > 0 {
        let shorter = ids.drop_last();
        let before = desk::without(shorter, id);
        let after = desk::without(ids, id);
        clients::lemma_without(shorter, id);
        if stacking_laws::is_listed_below(ids, first, second) {
            let a = choose|a: int| 0 <= a < ids.len() && ids[a] == first;
            let b = choose|b: int| 0 <= b < ids.len() && ids[b] == second;
            assert(a < b);
            assert(shorter[a] == first);
            assert(before.contains(first));
            if b < shorter.len() {
                assert(shorter[b] == second);
                assert(stacking_laws::is_listed_below(shorter, first, second)) by {
                    assert forall|i: int, j: int|
                        #![trigger shorter[i], shorter[j]]
                        0 <= i < shorter.len() && 0 <= j < shorter.len() && shorter[i] == first
                            && shorter[j] == second implies i < j by {
                        assert(ids[i] == first && ids[j] == second);
                    }
                }
                law_taking_out_keeps_the_order(shorter, id, first, second);
                lemma_listed_before_more(before, ids.last(), first, second);
                assert(after == if ids.last() == id {
                    before
                } else {
                    before.push(ids.last())
                });
            } else {
                assert(ids.last() == second);
                assert(!shorter.contains(second)) by {
                    if shorter.contains(second) {
                        let k = choose|k: int| 0 <= k < shorter.len() && shorter[k] == second;
                        assert(ids[k] == ids[b]);
                    }
                }
                assert(!before.contains(second));
                lemma_listed_last(before, first, second);
            }
        }
    }
}

/// A list that is continued keeps its order.
proof fn lemma_listed_before_more(
    ids: Seq<ClientId>,
    more: ClientId,
    first: ClientId,
    second: ClientId,
)
    requires
        stacking_laws::is_listed_below(ids, first, second),
        more != first,
    ensures
        stacking_laws::is_listed_below(ids.push(more), first, second),
{
    let longer = ids.push(more);
    let a = choose|a: int| 0 <= a < ids.len() && ids[a] == first;
    let b = choose|b: int| 0 <= b < ids.len() && ids[b] == second;
    assert(longer[a] == first);
    assert(longer[b] == second);
    assert forall|i: int, j: int|
        #![trigger longer[i], longer[j]]
        0 <= i < longer.len() && 0 <= j < longer.len() && longer[i] == first && longer[j]
            == second implies i < j by {
        if j < ids.len() {
            assert(ids[i] == first && ids[j] == second);
        }
    }
}

/// What is put at the end of a list is listed behind everything else.
proof fn lemma_listed_last(ids: Seq<ClientId>, first: ClientId, second: ClientId)
    requires
        ids.contains(first),
        !ids.contains(second),
    ensures
        stacking_laws::is_listed_below(ids.push(second), first, second),
{
    let longer = ids.push(second);
    let a = choose|a: int| 0 <= a < ids.len() && ids[a] == first;
    assert(longer[a] == first);
    assert(longer[ids.len() as int] == second);
    assert forall|i: int, j: int|
        #![trigger longer[i], longer[j]]
        0 <= i < longer.len() && 0 <= j < longer.len() && longer[i] == first && longer[j]
            == second implies i < j by {
        if j < ids.len() {
            assert(ids[j] == second);
            assert(ids.contains(second));
        }
        if i >= ids.len() {
            assert(first == second);
        }
    }
}

/// What is put at the start of a list is listed before everything else, in whose order nothing
/// changes.
proof fn lemma_listed_first(ids: Seq<ClientId>, added: ClientId, first: ClientId, second: ClientId)
    requires
        !ids.contains(added),
        first != added,
        second != added,
    ensures
        ids.contains(first) ==> stacking_laws::is_listed_below(seq![added] + ids, added, first),
        stacking_laws::is_listed_below(ids, first, second) ==> stacking_laws::is_listed_below(
            seq![added] + ids,
            first,
            second,
        ),
{
    let longer = seq![added] + ids;
    assert forall|k: int| 0 <= k < ids.len() implies longer[k + 1] == #[trigger] ids[k] by {}
    assert(longer[0] == added);
    if ids.contains(first) {
        let a = choose|a: int| 0 <= a < ids.len() && ids[a] == first;
        assert(longer[a + 1] == first);
        assert forall|i: int, j: int|
            #![trigger longer[i], longer[j]]
            0 <= i < longer.len() && 0 <= j < longer.len() && longer[i] == added && longer[j]
                == first implies i < j by {
            if i > 0 {
                assert(ids[i - 1] == added);
                assert(ids.contains(added));
            }
        }
    }
    if stacking_laws::is_listed_below(ids, first, second) {
        let a = choose|a: int| 0 <= a < ids.len() && ids[a] == first;
        let b = choose|b: int| 0 <= b < ids.len() && ids[b] == second;
        assert(longer[a + 1] == first);
        assert(longer[b + 1] == second);
        assert forall|i: int, j: int|
            #![trigger longer[i], longer[j]]
            0 <= i < longer.len() && 0 <= j < longer.len() && longer[i] == first && longer[j]
                == second implies i < j by {
            assert(ids[i - 1] == first && ids[j - 1] == second);
        }
    }
}

/// Raising a client lists it above every other one, lowering it lists it below every other one,
/// and neither changes the order of the others, or anything else.
pub proof fn law_raising_and_lowering_move_one_client(
    d: Desk,
    id: ClientId,
    first: ClientId,
    second: ClientId,
)
    requires
        d.wf(),
        d.has(id),
        d.has(first),
        first != id,
        second != id,
    ensures
        stacking_laws::is_listed_below(d.raising(id).stacking, first, id),
        stacking_laws::is_listed_below(d.lowering(id).stacking, id, first),
        stacking_laws::is_listed_below(d.stacking, first, second)
            ==> stacking_laws::is_listed_below(d.raising(id).stacking, first, second)
            && stacking_laws::is_listed_below(d.lowering(id).stacking, first, second),
        (Desk { stacking: d.stacking, ..d.raising(id) }) == d,
        (Desk { stacking: d.stacking, ..d.lowering(id) }) == d,
{
    let rest = desk::without(d.stacking, id);
    clients::lemma_without(d.stacking, id);
    assert(d.stacking.contains(first));
    assert(rest.contains(first));
    assert(!rest.contains(id));
    lemma_listed_last(rest, first, id);
    lemma_listed_first(rest, id, first, second);
    law_taking_out_keeps_the_order(d.stacking, id, first, second);
    if stacking_laws::is_listed_below(rest, first, second) {
        lemma_listed_before_more(rest, id, first, second);
    }
}

/// Giving focus to a client that can take it focuses it and makes it the most recent one of the
/// active workspace, in whose history the order of the others stays; a client that cannot take
/// focus changes nothing. Moving a client to the end of the history makes it the least recent one
/// instead and leaves focus as it is. No other history changes.
pub proof fn law_focus_is_remembered(
    d: Desk,
    id: ClientId,
    first: ClientId,
    second: ClientId,
    elsewhere: WorkspaceId,
)
    requires
        d.wf(),
        first != id,
        second != id,
        elsewhere != d.current,
    ensures
        ({
            let history = d.recent[d.current];
            let after = d.focusing(id);
            let demoted = d.demoting(id);
            &&& d.can_focus(id) ==> {
                &&& after.focused == Some(id)
                &&& after.recent[d.current].last() == id
                &&& stacking_laws::is_listed_below(history, first, second)
                    ==> stacking_laws::is_listed_below(after.recent[d.current], first, second)
                &&& after.recent[elsewhere] == d.recent[elsewhere]
                &&& after.clients == d.clients
                &&& after.stacking == d.stacking
                &&& after.current == d.current
            }
            &&& !d.can_focus(id) ==> after == d
            &&& d.has(id) ==> {
                &&& demoted.focused == d.focused
                &&& demoted.recent[d.current][0] == id
                &&& stacking_laws::is_listed_below(history, first, second)
                    ==> stacking_laws::is_listed_below(demoted.recent[d.current], first, second)
                &&& demoted.recent[elsewhere] == d.recent[elsewhere]
                &&& demoted.clients == d.clients
                &&& demoted.stacking == d.stacking
            }
            &&& !d.has(id) ==> demoted == d
        }),
{
    let history = d.recent[d.current];
    assert(d.lists_some(history));
    let rest = desk::without(history, id);
    clients::lemma_without(history, id);
    assert(!rest.contains(id));
    law_taking_out_keeps_the_order(history, id, first, second);
    lemma_listed_first(rest, id, first, second);
    if stacking_laws::is_listed_below(rest, first, second) {
        lemma_listed_before_more(rest, id, first, second);
    }
}

/// Whether no managed client is modal.
pub open spec fn has_no_modal_client(d: Desk) -> bool {
    forall|id: ClientId| #[trigger] d.has(id) ==> !d.client(id).modal
}

/// Without modal clients nothing stands in the way of a request.
proof fn lemma_nothing_blocks(
    d: Desk,
    ids: Seq<ClientId>,
    target: ClientId,
    passed: Seq<ClientId>,
)
    requires
        has_no_modal_client(d),
    ensures
        d.topmost_blocker(ids, target, passed) is None,
    decreases ids.len(),
{
    if ids.len() > 0 {
        if d.has(ids.last()) {
            assert(!d.client(ids.last()).modal);
        }
        lemma_nothing_blocks(d, ids.drop_last(), target, passed);
    }
}

/// A request for a client that shows and is not minimized leads to that client where no modal
/// client stands in its way, and a request for any other client leads nowhere.
pub proof fn law_requests_lead_to_the_client(d: Desk, id: ClientId)
    requires
        has_no_modal_client(d),
    ensures
        d.has(id) && !d.client(id).iconic && d.shows(d.client(id)) ==> d.target_of(id) == Some(id),
        !d.has(id) || d.client(id).iconic || !d.shows(d.client(id)) ==> d.target_of(id) is None,
{
    lemma_nothing_blocks(d, d.stacking, id, seq![id]);
}

/// A visible modal client that is transient for a client, or for its application group, stands in
/// the way of it; no other client does.
pub proof fn law_modal_clients_block_their_parents(d: Desk, modal: ClientId, blocked: ClientId)
    requires
        d.has(modal),
        d.has(blocked),
    ensures
        ({
            let client = d.client(modal);
            let visible = client.modal && !client.iconic && d.shows(client);
            &&& !visible ==> !d.blocks(modal, blocked)
            &&& visible && client.parent() == Some(blocked) ==> d.blocks(modal, blocked)
            &&& visible && client.is_group_transient() && client.group is Some && client.group
                == d.client(blocked).group ==> d.blocks(modal, blocked)
            &&& visible && client.parent() is Some && client.parent() != Some(blocked)
                ==> !d.blocks(modal, blocked)
            &&& visible && client.is_group_transient() && client.group != d.client(blocked).group
                ==> !d.blocks(modal, blocked)
            &&& client.transient_for is None ==> !d.blocks(modal, blocked)
        }),
{
}

/// A request that one client stands in the way of, and nothing in the way of that one, leads to
/// the client in the way.
pub proof fn law_requests_lead_to_the_modal_client(d: Desk, id: ClientId, modal: ClientId)
    requires
        d.wf(),
        d.has(id),
        d.has(modal),
        id != modal,
        !d.client(id).iconic,
        d.shows(d.client(id)),
        d.blocks(modal, id),
        forall|other: ClientId| other != modal ==> !#[trigger] d.blocks(other, id),
        forall|other: ClientId| !#[trigger] d.blocks(other, modal),
    ensures
        d.target_of(id) == Some(modal),
{
    assert(d.stacking.contains(modal));
    lemma_only_blocker(d, d.stacking, id, modal, seq![id]);
    lemma_no_blocker(d, d.stacking, modal, seq![id].push(modal));
    assert(d.managed.contains(id));
    assert(d.managed.len() > 0);
    let left = (d.managed.len() - 1) as nat;
    assert(d.modal_end(modal, seq![id].push(modal), left) == modal);
}

proof fn lemma_only_blocker(
    d: Desk,
    ids: Seq<ClientId>,
    blocked: ClientId,
    modal: ClientId,
    passed: Seq<ClientId>,
)
    requires
        ids.contains(modal),
        !passed.contains(modal),
        d.blocks(modal, blocked),
        forall|other: ClientId| other != modal ==> !#[trigger] d.blocks(other, blocked),
    ensures
        d.topmost_blocker(ids, blocked, passed) == Some(modal),
    decreases ids.len(),
{
    if ids.last() != modal {
        clients::lemma_contains_last(ids, modal);
        assert(!d.blocks(ids.last(), blocked));
        lemma_only_blocker(d, ids.drop_last(), blocked, modal, passed);
    }
}

proof fn lemma_no_blocker(d: Desk, ids: Seq<ClientId>, blocked: ClientId, passed: Seq<ClientId>)
    requires
        forall|other: ClientId| !#[trigger] d.blocks(other, blocked),
    ensures
        d.topmost_blocker(ids, blocked, passed) is None,
    decreases ids.len(),
{
    if ids.len() > 0 {
        assert(!d.blocks(ids.last(), blocked));
        lemma_no_blocker(d, ids.drop_last(), blocked, passed);
    }
}

/// Whether focus can fall back to a client.
pub open spec fn is_fallback(d: Desk, id: ClientId) -> bool {
    d.has(id) && d.cycles(d.client(id)) && !d.client(id).shaded
}

proof fn lemma_latest_fallback(d: Desk, ids: Seq<ClientId>, index: int, leaving: ClientId)
    requires
        has_no_modal_client(d),
        0 <= index < ids.len(),
        ids[index] != leaving,
        is_fallback(d, ids[index]),
        forall|later: int|
            index < later < ids.len() ==> !is_fallback(d, #[trigger] ids[later]) || ids[later]
                == leaving,
    ensures
        d.last_fallback(ids, leaving) == Some(ids[index]),
    decreases ids.len(),
{
    let last = ids[ids.len() - 1];
    law_requests_lead_to_the_client(d, last);
    if index < ids.len() - 1 {
        assert(!is_fallback(d, last) || last == leaving);
        let shorter = ids.drop_last();
        assert forall|later: int| index < later < shorter.len() implies !is_fallback(
            d,
            #[trigger] shorter[later],
        ) || shorter[later] == leaving by {
            assert(shorter[later] == ids[later]);
        }
        lemma_latest_fallback(d, shorter, index, leaving);
    }
}

proof fn lemma_no_fallback(d: Desk, ids: Seq<ClientId>, leaving: ClientId)
    requires
        has_no_modal_client(d),
        forall|i: int|
            0 <= i < ids.len() ==> !is_fallback(d, #[trigger] ids[i]) || ids[i] == leaving,
    ensures
        d.last_fallback(ids, leaving) is None,
    decreases ids.len(),
{
    if ids.len() > 0 {
        let last = ids[ids.len() - 1];
        law_requests_lead_to_the_client(d, last);
        assert(!is_fallback(d, last) || last == leaving);
        let shorter = ids.drop_last();
        assert forall|i: int| 0 <= i < shorter.len() implies !is_fallback(d, #[trigger] shorter[i])
            || shorter[i] == leaving by {
            assert(shorter[i] == ids[i]);
        }
        lemma_no_fallback(d, shorter, leaving);
    }
}

/// Where no client is modal, a client that loses focus passes it to the most recent other client
/// of the active workspace that is offered for automatic focus and is not shaded; focus does not
/// move where the client does not have it.
pub proof fn law_focus_falls_back_to_the_most_recent(d: Desk, leaving: ClientId, index: int)
    requires
        d.wf(),
        has_no_modal_client(d),
        0 <= index < d.recent[d.current].len(),
        d.recent[d.current][index] != leaving,
        is_fallback(d, d.recent[d.current][index]),
        forall|later: int|
            index < later < d.recent[d.current].len() ==> !is_fallback(
                d,
                #[trigger] d.recent[d.current][later],
            ) || d.recent[d.current][later] == leaving,
    ensures
        d.focused == Some(leaving) ==> d.falling_back(leaving).focused == Some(
            d.recent[d.current][index],
        ),
        d.focused != Some(leaving) ==> d.falling_back(leaving) == d,
{
    lemma_latest_fallback(d, d.recent[d.current], index, leaving);
    let target = d.recent[d.current][index];
    let cleared = Desk { focused: None, ..d };
    assert(cleared.can_focus(target) == d.can_focus(target));
}

/// Where no client is modal and the history holds nothing to fall back to, focus passes to the
/// topmost other client that is offered for automatic focus and not shaded, and where there is
/// none it is given up.
pub proof fn law_focus_falls_back_to_the_topmost(d: Desk, leaving: ClientId, index: int)
    requires
        d.wf(),
        has_no_modal_client(d),
        d.focused == Some(leaving),
        forall|i: int|
            0 <= i < d.recent[d.current].len() ==> !is_fallback(
                d,
                #[trigger] d.recent[d.current][i],
            ) || d.recent[d.current][i] == leaving,
    ensures
        0 <= index < d.stacking.len() && d.stacking[index] != leaving && is_fallback(
            d,
            d.stacking[index],
        ) && (forall|later: int|
            index < later < d.stacking.len() ==> !is_fallback(d, #[trigger] d.stacking[later])
                || d.stacking[later] == leaving) ==> d.falling_back(leaving).focused == Some(
            d.stacking[index],
        ),
        (forall|i: int|
            0 <= i < d.stacking.len() ==> !is_fallback(d, #[trigger] d.stacking[i])
                || d.stacking[i] == leaving) ==> d.falling_back(leaving).focused is None,
{
    lemma_no_fallback(d, d.recent[d.current], leaving);
    let cleared = Desk { focused: None, ..d };
    if 0 <= index < d.stacking.len() && d.stacking[index] != leaving && is_fallback(
        d,
        d.stacking[index],
    ) && (forall|later: int|
        index < later < d.stacking.len() ==> !is_fallback(d, #[trigger] d.stacking[later])
            || d.stacking[later] == leaving) {
        lemma_latest_fallback(d, d.stacking, index, leaving);
        assert(cleared.can_focus(d.stacking[index]) == d.can_focus(d.stacking[index]));
    }
    if forall|i: int|
        0 <= i < d.stacking.len() ==> !is_fallback(d, #[trigger] d.stacking[i]) || d.stacking[i]
            == leaving {
        lemma_no_fallback(d, d.stacking, leaving);
    }
}

/// The targets of the first requests come first among those of all.
proof fn lemma_cycle_prefix(d: Desk, requests: Seq<ClientId>, count: int)
    requires
        0 <= count <= requests.len(),
    ensures
        d.cycle_targets(requests.take(count)).is_prefix_of(d.cycle_targets(requests)),
    decreases requests.len() - count,
{
    if count == requests.len() {
        assert(requests.take(count) =~= requests);
    } else {
        let next = requests.take(count + 1);
        assert(next.drop_last() =~= requests.take(count));
        lemma_cycle_prefix(d, requests, count + 1);
        let shorter = d.cycle_targets(requests.take(count));
        let longer = d.cycle_targets(next);
        let all = d.cycle_targets(requests);
        assert(shorter.is_prefix_of(longer));
        assert forall|i: int| 0 <= i < shorter.len() implies shorter[i] == all[i] by {
            assert(shorter[i] == longer[i]);
        }
    }
}

/// Where no client is modal, exactly the requested clients that are offered for automatic focus
/// are cycled through.
proof fn lemma_cycle_members(d: Desk, requests: Seq<ClientId>, id: ClientId)
    requires
        has_no_modal_client(d),
    ensures
        d.cycle_targets(requests).contains(id) <==> requests.contains(id) && d.has(id) && d.cycles(
            d.client(id),
        ),
    decreases requests.len(),
{
    if requests.len() == 0 {
        assert(d.cycle_targets(requests) =~= Seq::empty());
    } else {
        let shorter = requests.drop_last();
        let last = requests.last();
        let before = d.cycle_targets(shorter);
        lemma_cycle_members(d, shorter, id);
        clients::lemma_contains_last(requests, id);
        law_requests_lead_to_the_client(d, last);
        clients::lemma_contains_push(before, last, id);
    }
}

/// Where no client is modal, focus cycles through every client that is offered for automatic
/// focus, each once.
pub proof fn law_focus_cycles_through_all_clients(d: Desk, id: ClientId)
    requires
        d.wf(),
        has_no_modal_client(d),
    ensures
        d.cycle_targets(d.cycle_requests()).contains(id) <==> d.has(id) && d.cycles(d.client(id)),
        d.cycle_targets(d.cycle_requests()).no_duplicates(),
{
    let requests = d.cycle_requests();
    desk_laws::law_cycle_targets_are_distinct(d, requests);
    lemma_cycle_members(d, requests, id);
    if d.has(id) {
        assert(d.stacking.contains(id));
        let k = choose|k: int| 0 <= k < d.stacking.len() && d.stacking[k] == id;
        let at = requests.len() - 1 - k;
        assert(requests[at] == id);
        assert(requests.contains(id));
    }
}

/// Where no client is modal, of two requested clients that are offered for automatic focus the one
/// that is requested first is cycled to first.
proof fn lemma_cycle_order(d: Desk, requests: Seq<ClientId>, at: int, id: ClientId)
    requires
        has_no_modal_client(d),
        0 <= at < requests.len(),
        d.has(requests[at]),
        d.cycles(d.client(requests[at])),
        d.has(id),
        d.cycles(d.client(id)),
        requests.contains(id),
        !requests.take(at + 1).contains(id),
    ensures
        stacking_laws::is_listed_below(d.cycle_targets(requests), requests[at], id),
{
    let first = requests[at];
    let prefix = requests.take(at + 1);
    let early = d.cycle_targets(prefix);
    let all = d.cycle_targets(requests);
    desk_laws::law_cycle_targets_are_distinct(d, requests);
    lemma_cycle_prefix(d, requests, at + 1);
    lemma_cycle_members(d, prefix, first);
    lemma_cycle_members(d, prefix, id);
    lemma_cycle_members(d, requests, id);
    lemma_cycle_members(d, requests, first);
    assert(prefix[at] == first);
    assert(early.contains(first));
    let k = choose|k: int| 0 <= k < early.len() && early[k] == first;
    assert(all[k] == first);
    assert(requests.contains(first)) by {
        assert(requests[at] == first);
    }
    assert forall|i: int, j: int|
        #![trigger all[i], all[j]]
        0 <= i < all.len() && 0 <= j < all.len() && all[i] == first && all[j] == id implies i
        < j by {
        assert(i == k);
        if j <= k {
            assert(early[j] == all[j]);
            assert(early.contains(id));
        }
    }
}

/// Where no client is modal, focus cycles first to the client that has it, then to the clients of
/// the history, the more recent one first.
pub proof fn law_focus_cycles_by_recency(d: Desk, newer: int, older: int)
    requires
        d.wf(),
        has_no_modal_client(d),
        0 <= older < newer < d.recent[d.current].len(),
        d.has(d.recent[d.current][newer]),
        d.cycles(d.client(d.recent[d.current][newer])),
        d.has(d.recent[d.current][older]),
        d.cycles(d.client(d.recent[d.current][older])),
    ensures
        ({
            let history = d.recent[d.current];
            let order = d.cycle_targets(d.cycle_requests());
            &&& d.focused matches Some(focused) ==> {
                &&& d.cycles(d.client(focused)) ==> order.len() > 0 && order[0] == focused
                &&& focused != history[older] && d.cycles(d.client(focused))
                    ==> stacking_laws::is_listed_below(order, focused, history[older])
            }
            &&& d.focused != Some(history[older]) ==> stacking_laws::is_listed_below(
                order,
                history[newer],
                history[older],
            )
        }),
{
    let history = d.recent[d.current];
    let requests = d.cycle_requests();
    assert(d.lists_some(history));
    let offset = match d.focused {
        Some(_) => 1int,
        None => 0,
    };
    let new_at = offset + (history.len() - 1 - newer);
    let old_at = offset + (history.len() - 1 - older);
    assert(requests[new_at] == history[newer]);
    assert(requests[old_at] == history[older]);
    assert(requests.contains(history[older]));
    if d.focused != Some(history[older]) {
        assert(!requests.take(new_at + 1).contains(history[older])) by {
            let prefix = requests.take(new_at + 1);
            if prefix.contains(history[older]) {
                let k = choose|k: int| 0 <= k < prefix.len() && prefix[k] == history[older];
                assert(requests[k] == history[older]);
                if k >= offset {
                    let back = history.len() - 1 - (k - offset);
                    assert(requests[k] == history[back]);
                    assert(history[back] == history[older]);
                }
            }
        }
        lemma_cycle_order(d, requests, new_at, history[older]);
    }
    if let Some(focused) = d.focused {
        assert(requests[0] == focused);
        if d.cycles(d.client(focused)) {
            let first = requests.take(1);
            assert(first.drop_last() =~= Seq::empty());
            assert(first.last() == focused);
            law_requests_lead_to_the_client(d, focused);
            assert(d.cycle_targets(first.drop_last()) =~= Seq::empty());
            assert(d.cycle_targets(first) =~= seq![focused]);
            lemma_cycle_prefix(d, requests, 1);
            assert(d.cycle_targets(first)[0] == focused);
            if focused != history[older] {
                assert(!first.contains(history[older])) by {
                    if first.contains(history[older]) {
                        let k = choose|k: int| 0 <= k < first.len() && first[k] == history[older];
                        assert(k == 0);
                    }
                }
                lemma_cycle_order(d, requests, 0, history[older]);
            }
        }
    }
}

/// A step to the next workspace leads one further, from the last one to the first; a step to the
/// previous one leads one back, from the first one to the last; the other directions lead nowhere
/// in a row.
pub proof fn law_steps_go_around(d: Desk)
    requires
        d.wf(),
    ensures
        d.current.0 + 1 < d.workspace_count ==> d.stepped(WorkspaceDirection::Next) == d.current.0
            + 1,
        d.current.0 + 1 == d.workspace_count ==> d.stepped(WorkspaceDirection::Next) == 0,
        d.current.0 > 0 ==> d.stepped(WorkspaceDirection::Previous) == d.current.0 - 1,
        d.current.0 == 0 ==> d.stepped(WorkspaceDirection::Previous) == d.workspace_count - 1,
        d.stepped(WorkspaceDirection::Left) == d.current.0,
        d.stepped(WorkspaceDirection::Right) == d.current.0,
        d.stepped(WorkspaceDirection::Up) == d.current.0,
        d.stepped(WorkspaceDirection::Down) == d.current.0,
{
    let count = d.workspace_count as int;
    let at = d.current.0 as int;
    if at == 0 {
        vstd::arithmetic::div_mod::lemma_small_mod((count - 1) as nat, count as nat);
    } else {
        vstd::arithmetic::div_mod::lemma_mod_add_multiples_vanish(at - 1, count);
        vstd::arithmetic::div_mod::lemma_small_mod((at - 1) as nat, count as nat);
    }
    if at + 1 == count {
        vstd::arithmetic::div_mod::lemma_mod_self_0(count);
    } else {
        vstd::arithmetic::div_mod::lemma_small_mod((at + 1) as nat, count as nat);
    }
}

/// A new client is put on top of the stacking order and becomes the most recent of its workspace,
/// the active one if it is on all of them or on one that does not exist; focus stays where it is.
/// A client that is managed already keeps its places.
pub proof fn law_new_clients_start_on_top(d: Desk, client: Client)
    requires
        d.wf(),
    ensures
        ({
            let after = d.managing(client);
            let home = match client.workspace {
                WorkspaceAssignment::Workspace(workspace) => if workspace.0 < d.workspace_count {
                    workspace
                } else {
                    d.current
                },
                WorkspaceAssignment::All => d.current,
            };
            &&& !d.has(client.id) ==> {
                &&& after.has(client.id)
                &&& after.stacking == d.stacking.push(client.id)
                &&& after.managed == d.managed.push(client.id)
                &&& after.recent[home] == d.recent[home].push(client.id)
                &&& after.focused == d.focused
                &&& after.current == d.current
            }
            &&& d.has(client.id) ==> after.stacking == d.stacking && after.managed == d.managed
            &&& after.client(client.id).geometry == client.geometry
            &&& after.client(client.id).workspace == match client.workspace {
                WorkspaceAssignment::Workspace(_) => WorkspaceAssignment::Workspace(home),
                WorkspaceAssignment::All => WorkspaceAssignment::All,
            }
        }),
{
}

/// An observed stacking order of managed clients is taken over: the clients that it lists lie on
/// top in that order, and every other managed client lies below them.
pub proof fn law_observed_orders_are_taken_over(d: Desk, order: Seq<ClientId>, other: ClientId)
    requires
        d.wf(),
        order.no_duplicates(),
        forall|id: ClientId| #[trigger] order.contains(id) ==> d.has(id),
    ensures
        order.is_suffix_of(d.restacked(order).stacking),
        d.has(other) && !order.contains(other) ==> d.restacked(order).stacking.take(
            d.restacked(order).stacking.len() - order.len(),
        ).contains(other),
{
    lemma_observed(d, order);
    let taken = desk::excluding(d.stacking, order);
    let all = d.restacked(order).stacking;
    assert(all == taken + order);
    assert(all.subrange(all.len() - order.len(), all.len() as int) =~= order);
    if d.has(other) && !order.contains(other) {
        assert(d.stacking.contains(other));
        lemma_excluded(d.stacking, order, other);
        assert(all.take(all.len() - order.len()) =~= taken);
    }
}

proof fn lemma_observed(d: Desk, order: Seq<ClientId>)
    requires
        order.no_duplicates(),
        forall|id: ClientId| #[trigger] order.contains(id) ==> d.has(id),
    ensures
        d.observed(order) == order,
    decreases order.len(),
{
    if order.len() == 0 {
        assert(d.observed(order) =~= order);
    } else {
        let shorter = order.drop_last();
        let last = order[order.len() - 1];
        assert(order.contains(last));
        assert forall|id: ClientId| #[trigger] shorter.contains(id) implies d.has(id) by {
            clients::lemma_contains_last(order, id);
        }
        lemma_observed(d, shorter);
        clients::lemma_last_is_new(order);
        assert(shorter.push(last) =~= order);
    }
}

proof fn lemma_excluded(ids: Seq<ClientId>, taken: Seq<ClientId>, id: ClientId)
    requires
        ids.contains(id),
        !taken.contains(id),
    ensures
        desk::excluding(ids, taken).contains(id),
    decreases ids.len(),
{
    let shorter = ids.drop_last();
    let before = desk::excluding(shorter, taken);
    clients::lemma_contains_last(ids, id);
    if ids.last() == id {
        assert(before.push(id)[before.len() as int] == id);
    } else {
        lemma_excluded(shorter, taken, id);
        let k = choose|k: int| 0 <= k < before.len() && before[k] == id;
        assert(desk::excluding(ids, taken)[k] == id);
    }
}

} // verus!
