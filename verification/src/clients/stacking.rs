//! Stacking order and stacking layers.

use vstd::prelude::*;
use super::{holds, retained, ClientSet};
use crate::desk;
use crate::desk::{Desk, Visit};
use crate::ids::{ClientId, OutputId, WorkspaceId};
use crate::outputs::{Output, OutputSet};
use crate::policy::{Client, ClientRole, StackingLayer, TransientTarget};

verus! {

/// Replacing the stacking order by another list of all clients keeps the
/// invariant.
proof fn lemma_restacked_wf(d: Desk, stacking: Seq<ClientId>)
    requires
        d.wf(),
        d.lists_all(stacking),
    ensures
        (Desk { stacking, ..d }).wf(),
{
    let e = Desk { stacking, ..d };
    assert(e.lists_all(d.managed));
    assert(e.lists_all(stacking));
    assert forall|w: WorkspaceId| #![trigger e.recent[w]] e.lists_some(e.recent[w]) && (w.0
        >= e.workspace_count ==> e.recent[w].len() == 0) by {
        assert(d.lists_some(d.recent[w]));
    }
}

/// What is left of a list beside another one.
proof fn lemma_excluding(ids: Seq<ClientId>, taken: Seq<ClientId>)
    ensures
        forall|x: ClientId| #[trigger]
            desk::excluding(ids, taken).contains(x) <==> ids.contains(x) && !taken.contains(x),
        ids.no_duplicates() ==> desk::excluding(ids, taken).no_duplicates(),
    decreases ids.len(),
{
    if ids.len() > 0 {
        let shorter = ids.drop_last();
        let before = desk::excluding(shorter, taken);
        lemma_excluding(shorter, taken);
        assert forall|x: ClientId| #[trigger]
            desk::excluding(ids, taken).contains(x) <==> ids.contains(x) && !taken.contains(x) by {
            super::lemma_contains_last(ids, x);
            super::lemma_contains_push(before, ids.last(), x);
        }
        if ids.no_duplicates() {
            assert(shorter.no_duplicates());
            super::lemma_last_is_new(ids);
            if !taken.contains(ids.last()) {
                super::lemma_push_new(before, ids.last());
            }
        }
    }
}

/// Two distinct lists without a common identifier make one distinct list.
proof fn lemma_joined_lists(first: Seq<ClientId>, second: Seq<ClientId>)
    requires
        first.no_duplicates(),
        second.no_duplicates(),
        forall|x: ClientId| !(#[trigger] first.contains(x) && second.contains(x)),
    ensures
        (first + second).no_duplicates(),
        forall|x: ClientId| #[trigger]
            (first + second).contains(x) <==> first.contains(x) || second.contains(x),
{
    let all = first + second;
    assert forall|i: int, j: int| 0 <= i < all.len() && 0 <= j < all.len() && i != j implies all[i]
        != all[j] by {
        if i < first.len() {
            assert(first.contains(all[i]));
        } else {
            assert(second[i - first.len()] == all[i]);
            assert(second.contains(all[i]));
        }
        if j < first.len() {
            assert(first.contains(all[j]));
        } else {
            assert(second[j - first.len()] == all[j]);
            assert(second.contains(all[j]));
        }
    }
    assert forall|x: ClientId| #[trigger] all.contains(x) <==> first.contains(x) || second.contains(
        x,
    ) by {
        if all.contains(x) {
            let i = choose|i: int| 0 <= i < all.len() && all[i] == x;
            if i < first.len() {
                assert(first[i] == x);
            } else {
                assert(second[i - first.len()] == x);
            }
        }
        if first.contains(x) {
            let i = choose|i: int| 0 <= i < first.len() && first[i] == x;
            assert(all[i] == x);
        }
        if second.contains(x) {
            let i = choose|i: int| 0 <= i < second.len() && second[i] == x;
            assert(all[first.len() + i] == x);
        }
    }
}

/// The observed list holds managed clients once.
proof fn lemma_observed(d: Desk, order: Seq<ClientId>)
    ensures
        d.lists_some(d.observed(order)),
    decreases order.len(),
{
    if order.len() > 0 {
        let before = d.observed(order.drop_last());
        lemma_observed(d, order.drop_last());
        if d.has(order.last()) && !before.contains(order.last()) {
            super::lemma_push_new(before, order.last());
            assert forall|x: ClientId| #[trigger] d.observed(order).contains(x) implies d.has(
                x,
            ) by {
                super::lemma_contains_push(before, order.last(), x);
            }
        }
    }
}

impl ClientSet {
    /// Marks a managed client highest in the stacking order.
    pub fn raise(&mut self, id: ClientId) -> (managed: bool)
        requires
            old(self)@.wf(),
        ensures
            final(self)@.wf(),
            managed == old(self)@.has(id),
            final(self)@ == old(self)@.raising(id),
    {
        if !self.clients.contains(id) {
            return false;
        }
        let ghost before = self@;
        let mut stacking: Vec<ClientId> = retained(&self.stacking, id);
        let ghost rest = stacking@;
        stacking.push(id);
        proof {
            super::lemma_without(before.stacking, id);
            super::lemma_push_new(rest, id);
            assert forall|x: ClientId| #[trigger] rest.push(id).contains(x) <==> before.has(x) by {
                super::lemma_contains_push(rest, id, x);
                assert(before.stacking.contains(x) <==> before.has(x));
            }
            lemma_restacked_wf(before, rest.push(id));
        }
        self.stacking = stacking;
        assert(self@ =~= Desk { stacking: rest.push(id), ..before });
        true
    }

    /// Marks a managed client lowest in its effective policy layer.
    pub fn lower(&mut self, id: ClientId) -> (managed: bool)
        requires
            old(self)@.wf(),
        ensures
            final(self)@.wf(),
            managed == old(self)@.has(id),
            final(self)@ == old(self)@.lowering(id),
    {
        if !self.clients.contains(id) {
            return false;
        }
        let ghost before = self@;
        let mut stacking: Vec<ClientId> = retained(&self.stacking, id);
        let ghost rest = stacking@;
        stacking.insert(0, id);
        proof {
            let bottom = seq![id];
            super::lemma_without(before.stacking, id);
            assert(stacking@ =~= bottom + rest);
            assert forall|x: ClientId| !(#[trigger] bottom.contains(x) && rest.contains(x)) by {
                if bottom.contains(x) {
                    assert(x == id);
                }
            }
            lemma_joined_lists(bottom, rest);
            assert forall|x: ClientId| #[trigger] (bottom + rest).contains(x) <==> before.has(x) by {
                assert(before.stacking.contains(x) <==> before.has(x));
                assert(bottom[0] == id);
                if bottom.contains(x) {
                    assert(x == id);
                }
            }
            lemma_restacked_wf(before, bottom + rest);
        }
        self.stacking = stacking;
        assert(self@ =~= Desk { stacking: seq![id] + rest, ..before });
        true
    }

    /// Replaces stacking order with a backend-observed bottom-to-top order.
    ///
    /// Unknown and duplicate identifiers are discarded. Managed clients absent
    /// from `order` retain their previous relative order at the bottom.
    pub fn sync_stacking(&mut self, order: &[ClientId])
        requires
            old(self)@.wf(),
        ensures
            final(self)@.wf(),
            final(self)@ == old(self)@.restacked(order@),
    {
        let ghost before = self@;
        let mut observed: Vec<ClientId> = Vec::new();
        let mut index: usize = 0;
        while index < order.len()
            invariant
                index <= order.len(),
                observed@ == self@.observed(order@.take(index as int)),
            decreases order.len() - index,
        {
            assert(order@.take(index + 1).drop_last() =~= order@.take(index as int));
            let id: ClientId = order[index];
            if self.clients.contains(id) && !holds(&observed, id) {
                observed.push(id);
            }
            index += 1;
        }
        assert(order@.take(index as int) =~= order@);
        let mut stacking: Vec<ClientId> = Vec::new();
        let mut position: usize = 0;
        while position < self.stacking.len()
            invariant
                position <= self.stacking.len(),
                stacking@ == desk::excluding(self.stacking@.take(position as int), observed@),
            decreases self.stacking.len() - position,
        {
            assert(self.stacking@.take(position + 1).drop_last() =~= self.stacking@.take(
                position as int,
            ));
            let id: ClientId = self.stacking[position];
            if !holds(&observed, id) {
                stacking.push(id);
            }
            position += 1;
        }
        assert(self.stacking@.take(position as int) =~= self.stacking@);
        let ghost rest = stacking@;
        let ghost top = observed@;
        stacking.append(&mut observed);
        proof {
            lemma_observed(before, order@);
            lemma_excluding(before.stacking, top);
            lemma_joined_lists(rest, top);
            assert forall|x: ClientId| #[trigger] (rest + top).contains(x) <==> before.has(x) by {
                assert(before.stacking.contains(x) <==> before.has(x));
            }
            lemma_restacked_wf(before, rest + top);
        }
        self.stacking = stacking;
        assert(self@ =~= Desk { stacking: rest + top, ..before });
    }

    /// Returns client identifiers from bottom to top of the stacking order.
    #[must_use]
    pub fn stacking(&self) -> (ids: &[ClientId])
        ensures
            ids@ == self@.stacking,
    {
        self.stacking.as_slice()
    }

    fn is_self_or_specific_descendant(&self, ancestor: ClientId, client: ClientId) -> (r: bool)
        requires
            self@.wf(),
        ensures
            r == self@.is_within(client, ancestor),
    {
        let ghost steps = self@.managed.len() + 1;
        let mut current: ClientId = client;
        let mut passed: usize = 0;
        while passed <= self.management_order.len()
            invariant
                passed <= self.management_order.len() + 1,
                steps == self@.managed.len() + 1,
                self@.descends(client, ancestor, steps) == self@.descends(
                    current,
                    ancestor,
                    (steps - passed) as nat,
                ),
            decreases self.management_order.len() + 1 - passed,
        {
            if current == ancestor {
                return true;
            }
            match self.clients.get(current) {
                Some(client) => match client.parent_id() {
                    Some(parent) => {
                        current = parent;
                    },
                    None => {
                        return false;
                    },
                },
                None => {
                    return false;
                },
            }
            if passed == self.management_order.len() {
                assert(!self@.descends(current, ancestor, 0));
                return false;
            }
            passed = passed + 1;
        }
        false
    }

    fn stays_on_top(&self, client: &Client, outputs: &OutputSet, covered: OutputId) -> (r: bool)
        requires
            self@.wf(),
        ensures
            r == self@.stays_on_top(*client, outputs@, covered),
    {
        let focused: ClientId = match self.focused {
            Some(focused) => focused,
            None => {
                return true;
            },
        };
        if self.is_self_or_specific_descendant(client.id, focused)
            || !client.workspace.is_visible_on(self.current_workspace) {
            return true;
        }
        match self.clients.get(focused) {
            Some(focused_client) => outputs.output_for(focused_client.geometry).id != covered,
            None => true,
        }
    }

    fn client_stacking_layer_of(&self, client: &Client, outputs: &OutputSet) -> (layer: StackingLayer)
        requires
            self@.wf(),
        ensures
            layer == self@.own_layer(*client, outputs@),
    {
        if client.fullscreen.is_some() {
            let covered: OutputId = outputs.output_for(client.geometry).id;
            if self.stays_on_top(client, outputs, covered) {
                return StackingLayer::Fullscreen;
            }
            return client.base_stacking_layer();
        }
        let shell: bool = match client.policy.role {
            ClientRole::Desktop | ClientRole::Dock => true,
            _ => false,
        };
        if client.maximize.is_none() && !shell {
            if let Some(coverage) = client.output_coverage {
                if self.stays_on_top(client, outputs, coverage.output()) {
                    return StackingLayer::Fullscreen;
                }
            }
        }
        client.stacking_layer()
    }

    /// Resolves a client's layer, inheriting any higher specific-parent layer.
    #[must_use]
    pub fn effective_stacking_layer(&self, id: ClientId, outputs: &OutputSet) -> (layer: Option<
        StackingLayer,
    >)
        requires
            self@.wf(),
        ensures
            layer == self@.layer_of(id, outputs@),
    {
        let mut layer: StackingLayer = match self.clients.get(id) {
            Some(client) => self.client_stacking_layer_of(client, outputs),
            None => {
                return None;
            },
        };
        let ghost own = layer;
        let ghost steps = self@.managed.len() + 1;
        let mut current: ClientId = id;
        let mut remaining: usize = self.management_order.len();
        loop
            invariant_except_break
                self@.wf(),
                steps == self@.managed.len() + 1,
                remaining <= self.management_order.len(),
                self@.inherited_layer(id, own, outputs@, steps) == self@.inherited_layer(
                    current,
                    layer,
                    outputs@,
                    (remaining + 1) as nat,
                ),
            ensures
                layer == self@.inherited_layer(id, own, outputs@, steps),
            decreases remaining,
        {
            match self.managed_parent_of(current) {
                Some(parent) => {
                    if let Some(client) = self.clients.get(parent) {
                        let inherited: StackingLayer = self.client_stacking_layer_of(
                            client,
                            outputs,
                        );
                        if inherited.rank() > layer.rank() {
                            layer = inherited;
                        }
                    }
                    current = parent;
                },
                None => {
                    break;
                },
            }
            if remaining == 0 {
                assert(self@.inherited_layer(current, layer, outputs@, 0) == layer);
                break;
            }
            remaining = remaining - 1;
        }
        Some(layer)
    }

    /// Computes every stacked client's effective layer once.
    fn effective_layer_table(&self, outputs: &OutputSet) -> (table: Vec<
        (ClientId, Option<StackingLayer>),
    >)
        requires
            self@.wf(),
        ensures
            is_layer_table(self@, outputs@, table@),
    {
        let mut table: Vec<(ClientId, Option<StackingLayer>)> = Vec::new();
        let mut index: usize = 0;
        while index < self.stacking.len()
            invariant
                self@.wf(),
                index <= self.stacking.len(),
                is_layer_table(self@, outputs@, table@),
            decreases self.stacking.len() - index,
        {
            let id: ClientId = self.stacking[index];
            table.push((id, self.effective_stacking_layer(id, outputs)));
            index += 1;
        }
        table
    }

    fn memoized_layer(
        &self,
        table: &Vec<(ClientId, Option<StackingLayer>)>,
        id: ClientId,
        outputs: &OutputSet,
    ) -> (layer: Option<StackingLayer>)
        requires
            self@.wf(),
            is_layer_table(self@, outputs@, table@),
        ensures
            layer == self@.layer_of(id, outputs@),
    {
        let mut index: usize = 0;
        while index < table.len()
            invariant
                index <= table.len(),
                is_layer_table(self@, outputs@, table@),
            decreases table.len() - index,
        {
            if table[index].0 == id {
                return table[index].1;
            }
            index += 1;
        }
        self.effective_stacking_layer(id, outputs)
    }

    fn is_peer_below(
        &self,
        peer: ClientId,
        id: ClientId,
        layer: StackingLayer,
        outputs: &OutputSet,
        table: &Vec<(ClientId, Option<StackingLayer>)>,
    ) -> (r: bool)
        requires
            self@.wf(),
            is_layer_table(self@, outputs@, table@),
        ensures
            r == self@.is_kept_below(peer, id, layer, outputs@),
    {
        if peer == id {
            return false;
        }
        let group: ClientId = match self.clients.get(id) {
            Some(client) => {
                if client.transient_for != Some(TransientTarget::Group) {
                    return false;
                }
                match client.group {
                    Some(group) => group,
                    None => {
                        return false;
                    },
                }
            },
            None => {
                return false;
            },
        };
        match self.clients.get(peer) {
            Some(client) => {
                let member: bool = match client.policy.role {
                    ClientRole::Desktop | ClientRole::Dock | ClientRole::Splash => false,
                    _ => true,
                };
                if !member || client.group != Some(group) || client.transient_for == Some(
                    TransientTarget::Group,
                ) {
                    return false;
                }
            },
            None => {
                return false;
            },
        }
        !self.is_self_or_specific_descendant(id, peer) && self.memoized_layer(
            table,
            peer,
            outputs,
        ) == Some(layer)
    }

    fn visit_stacking_parent(
        &self,
        id: ClientId,
        layer: StackingLayer,
        outputs: &OutputSet,
        table: &Vec<(ClientId, Option<StackingLayer>)>,
        visited: &mut Vec<ClientId>,
        ordered: &mut Vec<ClientId>,
        Ghost(steps): Ghost<nat>,
    )
        requires
            self@.wf(),
            is_layer_table(self@, outputs@, table@),
            self@.has(id),
            self@.lists_some(old(visited)@),
            steps + old(visited)@.len() >= self@.managed.len(),
        ensures
            ({
                let before = Visit { visited: old(visited)@, ordered: old(ordered)@ };
                let after = self@.visiting(id, layer, outputs@, before, steps);
                &&& final(visited)@ == after.visited
                &&& final(ordered)@ == after.ordered
            }),
            self@.lists_some(final(visited)@),
            final(visited)@.len() >= old(visited)@.len(),
        decreases steps,
    {
        let ghost all = self@.managed;
        let ghost start = Visit { visited: visited@, ordered: ordered@ };
        proof {
            assert(all.contains(id));
            assert forall|x: ClientId| #[trigger] visited@.contains(x) implies all.contains(x) by {
                assert(self@.has(x));
            }
            if steps == 0 {
                super::lemma_full_list(visited@, all, id);
            }
        }
        if holds(visited, id) {
            return;
        }
        proof {
            super::lemma_push_new(visited@, id);
            assert forall|x: ClientId| #[trigger] visited@.push(id).contains(x) implies self@.has(
                x,
            ) by {
                super::lemma_contains_push(visited@, id, x);
            }
        }
        visited.push(id);
        let ghost entered = Visit { visited: visited@, ordered: ordered@ };
        let ghost fewer = (steps - 1) as nat;
        let mut index: usize = 0;
        assert(self.stacking@.take(0) =~= Seq::<ClientId>::empty());
        while index < self.stacking.len()
            invariant
                self@.wf(),
                is_layer_table(self@, outputs@, table@),
                index <= self.stacking.len(),
                steps > 0,
                fewer == steps - 1,
                self@.lists_some(visited@),
                visited@.len() >= entered.visited.len(),
                steps + entered.visited.len() >= self@.managed.len() + 1,
                (Visit { visited: visited@, ordered: ordered@ }) == self@.visiting_peers(
                    id,
                    self.stacking@.take(index as int),
                    layer,
                    outputs@,
                    entered,
                    fewer,
                ),
            decreases self.stacking.len() - index,
        {
            let peer: ClientId = self.stacking[index];
            assert(self.stacking@.take(index + 1).drop_last() =~= self.stacking@.take(
                index as int,
            ));
            if self.is_peer_below(peer, id, layer, outputs, table) {
                self.visit_stacking_parent(
                    peer,
                    layer,
                    outputs,
                    table,
                    visited,
                    ordered,
                    Ghost(fewer),
                );
            }
            index += 1;
        }
        assert(self.stacking@.take(index as int) =~= self.stacking@);
        let parent: Option<ClientId> = match self.clients.get(id) {
            Some(client) => client.parent_id(),
            None => None,
        };
        if let Some(parent) = parent {
            if self.memoized_layer(table, parent, outputs) == Some(layer) {
                self.visit_stacking_parent(
                    parent,
                    layer,
                    outputs,
                    table,
                    visited,
                    ordered,
                    Ghost(fewer),
                );
            }
        }
        ordered.push(id);
    }

    /// Returns bottom-to-top policy order with parents below specific transients.
    #[must_use]
    pub fn policy_stacking(&self, outputs: &OutputSet) -> (order: Vec<ClientId>)
        requires
            self@.wf(),
        ensures
            order@ == self@.policy_order(outputs@),
    {
        let table: Vec<(ClientId, Option<StackingLayer>)> = self.effective_layer_table(outputs);
        let mut ordered: Vec<ClientId> = Vec::new();
        let mut visited: Vec<ClientId> = Vec::new();
        let layers: [StackingLayer; 6] = [
            StackingLayer::Desktop,
            StackingLayer::Below,
            StackingLayer::Normal,
            StackingLayer::Dock,
            StackingLayer::Above,
            StackingLayer::Fullscreen,
        ];
        assert(layers@ =~= Desk::layers());
        let mut step: usize = 0;
        assert(layers@.take(0) =~= Seq::<StackingLayer>::empty());
        while step < 6
            invariant
                self@.wf(),
                is_layer_table(self@, outputs@, table@),
                step <= 6,
                layers@.len() == 6,
                self@.lists_some(visited@),
                (Visit { visited: visited@, ordered: ordered@ }) == self@.visiting_layers(
                    layers@.take(step as int),
                    outputs@,
                ),
            decreases 6 - step,
        {
            let layer: StackingLayer = layers[step];
            assert(layers@.take(step + 1).drop_last() =~= layers@.take(step as int));
            let ghost before = Visit { visited: visited@, ordered: ordered@ };
            let mut index: usize = 0;
            assert(self.stacking@.take(0) =~= Seq::<ClientId>::empty());
            while index < self.stacking.len()
                invariant
                    self@.wf(),
                    is_layer_table(self@, outputs@, table@),
                    index <= self.stacking.len(),
                    self@.lists_some(visited@),
                    (Visit { visited: visited@, ordered: ordered@ }) == self@.visiting_layer(
                        self.stacking@.take(index as int),
                        layer,
                        outputs@,
                        before,
                    ),
                decreases self.stacking.len() - index,
            {
                let id: ClientId = self.stacking[index];
                assert(self.stacking@.take(index + 1).drop_last() =~= self.stacking@.take(
                    index as int,
                ));
                if self.memoized_layer(&table, id, outputs) == Some(layer) {
                    let ghost steps = self@.managed.len();
                    self.visit_stacking_parent(
                        id,
                        layer,
                        outputs,
                        &table,
                        &mut visited,
                        &mut ordered,
                        Ghost(steps),
                    );
                }
                index += 1;
            }
            assert(self.stacking@.take(index as int) =~= self.stacking@);
            step += 1;
        }
        assert(layers@.take(step as int) =~= Desk::layers());
        ordered
    }
}

/// Whether every entry of a table records an effective layer.
spec fn is_layer_table(
    d: Desk,
    outputs: Seq<Output>,
    table: Seq<(ClientId, Option<StackingLayer>)>,
) -> bool {
    forall|i: int|
        0 <= i < table.len() ==> (#[trigger] table[i]).1 == d.layer_of(table[i].0, outputs)
}

} // verus!
