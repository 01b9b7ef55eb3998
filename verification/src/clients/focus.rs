//! Focus requests, fallback, and cycling.

use vstd::prelude::*;
use super::{holds, ClientSet};
use crate::desk;
use crate::desk::Desk;
use crate::ids::{ClientId, WorkspaceId};
use crate::policy::TransientTarget;

verus! {

/// Putting an entry in front of the common list puts it in front of one
/// history.
proof fn lemma_history_front(
    entry: (WorkspaceId, ClientId),
    history: Seq<(WorkspaceId, ClientId)>,
    workspace: WorkspaceId,
)
    ensures
        super::history_of(seq![entry] + history, workspace) == (if entry.0 == workspace {
            seq![entry.1] + super::history_of(history, workspace)
        } else {
            super::history_of(history, workspace)
        }),
    decreases history.len(),
{
    let all = seq![entry] + history;
    if history.len() == 0 {
        assert(all =~= seq![entry]);
        assert(all.drop_last() =~= Seq::<(WorkspaceId, ClientId)>::empty());
        assert(super::history_of(all.drop_last(), workspace) =~= Seq::<ClientId>::empty());
        assert(seq![entry.1] + super::history_of(history, workspace) =~= seq![entry.1]);
        assert(Seq::<ClientId>::empty().push(entry.1) =~= seq![entry.1]);
    } else {
        let shorter = history.drop_last();
        assert(all.drop_last() =~= seq![entry] + shorter);
        assert(all.last() == history.last());
        lemma_history_front(entry, shorter, workspace);
        assert(seq![entry.1] + super::history_of(history, workspace) =~= (if history.last().0
            == workspace {
            (seq![entry.1] + super::history_of(shorter, workspace)).push(history.last().1)
        } else {
            seq![entry.1] + super::history_of(shorter, workspace)
        }));
    }
}

/// The topmost blocker is a managed client that was not passed.
proof fn lemma_topmost_blocker(
    d: Desk,
    ids: Seq<ClientId>,
    blocked: ClientId,
    passed: Seq<ClientId>,
)
    ensures
        d.topmost_blocker(ids, blocked, passed) matches Some(modal) ==> d.has(modal)
            && !passed.contains(modal) && d.blocks(modal, blocked),
    decreases ids.len(),
{
    if ids.len() > 0 {
        lemma_topmost_blocker(d, ids.drop_last(), blocked, passed);
    }
}

/// Every focus target is managed.
pub(crate) proof fn lemma_modal_end_managed(
    d: Desk,
    target: ClientId,
    passed: Seq<ClientId>,
    steps: nat,
)
    requires
        d.has(target),
    ensures
        d.has(d.modal_end(target, passed, steps)),
    decreases steps,
{
    lemma_topmost_blocker(d, d.stacking, target, passed);
    if let Some(modal) = d.topmost_blocker(d.stacking, target, passed) {
        if steps > 0 {
            lemma_modal_end_managed(d, modal, passed.push(modal), (steps - 1) as nat);
        }
    }
}

/// The fallback, when there is one, can be given focus.
proof fn lemma_last_fallback(d: Desk, ids: Seq<ClientId>, old: ClientId)
    ensures
        d.last_fallback(ids, old) matches Some(target) ==> d.can_focus(target) && target != old,
    decreases ids.len(),
{
    if ids.len() > 0 && !d.falls_back(ids.last(), old) {
        lemma_last_fallback(d, ids.drop_last(), old);
    }
}

impl ClientSet {
    /// Takes one client out of one workspace's history.
    fn drop_entry(&mut self, workspace: WorkspaceId, id: ClientId)
        requires
            old(self)@.wf(),
        ensures
            final(self)@ == (Desk {
                recent: old(self)@.recent.insert(
                    workspace,
                    desk::without(old(self)@.recent[workspace], id),
                ),
                ..old(self)@
            }),
            final(self)@.wf(),
            !final(self)@.recent[workspace].contains(id),
    {
        let mut kept: Vec<(WorkspaceId, ClientId)> = Vec::new();
        let mut index: usize = 0;
        while index < self.history.len()
            invariant
                index <= self.history.len(),
                forall|w: WorkspaceId|
                    #![trigger super::history_of(kept@, w)]
                    super::history_of(kept@, w) == (if w == workspace {
                        desk::without(
                            super::history_of(self.history@.take(index as int), w),
                            id,
                        )
                    } else {
                        super::history_of(self.history@.take(index as int), w)
                    }),
            decreases self.history.len() - index,
        {
            let entry: (WorkspaceId, ClientId) = self.history[index];
            let ghost before = kept@;
            if !(entry.0 == workspace && entry.1 == id) {
                kept.push(entry);
            }
            assert forall|w: WorkspaceId|
                #![trigger super::history_of(kept@, w)]
                super::history_of(kept@, w) == (if w == workspace {
                    desk::without(super::history_of(self.history@.take(index + 1), w), id)
                } else {
                    super::history_of(self.history@.take(index + 1), w)
                }) by {
                let earlier = super::history_of(self.history@.take(index as int), w);
                super::lemma_history_take(self.history@, index as int, w);
                super::lemma_history_push(before, entry, w);
                super::lemma_without_push(earlier, entry.1, id);
                assert(super::history_of(before, w) == (if w == workspace {
                    desk::without(earlier, id)
                } else {
                    earlier
                }));
            }
            index += 1;
        }
        assert(self.history@.take(index as int) =~= self.history@);
        self.history = kept;
        proof {
            let before = old(self)@;
            let recent = before.recent.insert(
                workspace,
                desk::without(before.recent[workspace], id),
            );
            assert(self@.recent =~= recent);
            assert(self@ =~= Desk { recent, ..before });
            super::lemma_without(before.recent[workspace], id);
            assert forall|w: WorkspaceId| super::is_history(before, w, #[trigger] recent[w]) by {
                assert(before.lists_some(before.recent[w]));
            }
            assert(recent.dom() =~= Set::<WorkspaceId>::full());
            super::lemma_histories_wf(before, recent);
        }
    }

    /// Marks a managed client focused and most recently used.
    pub fn focus(&mut self, id: ClientId) -> (focused: bool)
        requires
            old(self)@.wf(),
        ensures
            final(self)@.wf(),
            focused == old(self)@.can_focus(id),
            final(self)@ == old(self)@.focusing(id),
    {
        if !self.can_take_focus(id) {
            return false;
        }
        let workspace: WorkspaceId = self.current_workspace;
        self.drop_entry(workspace, id);
        let ghost dropped = self@;
        self.note(workspace, id);
        let ghost noted = self@;
        self.focused = Some(id);
        proof {
            assert(self@ =~= Desk { focused: Some(id), ..noted });
            assert(self@.recent =~= old(self)@.focusing(id).recent);
            assert(self@ =~= old(self)@.focusing(id));
            assert forall|w: WorkspaceId| #![trigger self@.recent[w]] self@.lists_some(
                self@.recent[w],
            ) && (w.0 >= self@.workspace_count ==> self@.recent[w].len() == 0) by {
                assert(noted.lists_some(noted.recent[w]));
            }
            assert(self@.lists_all(noted.managed));
            assert(self@.lists_all(noted.stacking));
        }
        true
    }

    /// Moves a managed client to the least-recent end of this workspace's focus history.
    ///
    /// Current focus is intentionally unchanged. This supports ordered action
    /// sequences that demote a client before selecting a fallback target.
    pub fn focus_to_bottom(&mut self, id: ClientId) -> (moved: bool)
        requires
            old(self)@.wf(),
        ensures
            final(self)@.wf(),
            moved == (old(self)@.has(id) && !(old(self)@.recent[old(self)@.current].len() > 0
                && old(self)@.recent[old(self)@.current][0] == id)),
            final(self)@ == old(self)@.demoting(id),
    {
        if !self.clients.contains(id) {
            return false;
        }
        let workspace: WorkspaceId = self.current_workspace;
        let history: Vec<ClientId> = self.current_history();
        let at_bottom: bool = history.len() > 0 && history[0] == id;
        self.drop_entry(workspace, id);
        let ghost dropped = self@;
        let ghost flat = self.history@;
        self.history.insert(0, (workspace, id));
        proof {
            let before = old(self)@;
            assert(self.history@ =~= seq![(workspace, id)] + flat);
            assert forall|w: WorkspaceId| #[trigger] self@.recent[w] == before.demoting(
                id,
            ).recent[w] by {
                lemma_history_front((workspace, id), flat, w);
                assert(dropped.recent[w] == super::history_of(flat, w));
            }
            assert(self@.recent =~= before.demoting(id).recent);
            assert(self@ =~= before.demoting(id));
            let recent = self@.recent;
            assert forall|w: WorkspaceId| super::is_history(dropped, w, #[trigger] recent[w]) by {
                assert(dropped.lists_some(dropped.recent[w]));
                if w == workspace {
                    let rest = dropped.recent[w];
                    assert(recent[w] == seq![id] + rest);
                    assert forall|i: int, j: int| 0 <= i < recent[w].len() && 0 <= j
                        < recent[w].len() && i != j implies recent[w][i] != recent[w][j] by {
                        if i > 0 {
                            assert(recent[w][i] == rest[i - 1]);
                            assert(rest.contains(rest[i - 1]));
                        }
                        if j > 0 {
                            assert(recent[w][j] == rest[j - 1]);
                            assert(rest.contains(rest[j - 1]));
                        }
                    }
                    assert forall|x: ClientId| #[trigger] recent[w].contains(x) implies dropped.has(
                        x,
                    ) by {
                        let i = choose|i: int| 0 <= i < recent[w].len() && recent[w][i] == x;
                        if i > 0 {
                            assert(rest[i - 1] == x);
                            assert(rest.contains(x));
                        }
                    }
                }
            }
            super::lemma_histories_wf(dropped, recent);
            assert(self@ =~= Desk { recent, ..dropped });
        }
        !at_bottom
    }

    fn blocks_target(&self, candidate: ClientId, target: ClientId) -> (r: bool)
        ensures
            r == self@.blocks(candidate, target),
    {
        let target_group: Option<ClientId> = match self.clients.get(target) {
            Some(client) => client.group,
            None => None,
        };
        match self.clients.get(candidate) {
            Some(client) => client.modal && !client.iconic && self.is_visible_client(client)
                && match client.transient_for {
                Some(TransientTarget::Client(parent)) => parent == target,
                Some(TransientTarget::Group) => client.group.is_some() && client.group
                    == target_group,
                None => false,
            },
            None => false,
        }
    }

    fn topmost_modal(&self, target: ClientId, passed: &Vec<ClientId>) -> (r: Option<ClientId>)
        ensures
            r == self@.topmost_blocker(self@.stacking, target, passed@),
    {
        let mut index: usize = self.stacking.len();
        assert(self.stacking@.take(index as int) =~= self.stacking@);
        while index > 0
            invariant
                index <= self.stacking.len(),
                self@.topmost_blocker(self@.stacking, target, passed@) == self@.topmost_blocker(
                    self.stacking@.take(index as int),
                    target,
                    passed@,
                ),
            decreases index,
        {
            assert(self.stacking@.take(index as int).drop_last() =~= self.stacking@.take(index - 1));
            index = index - 1;
            let candidate: ClientId = self.stacking[index];
            if !holds(passed, candidate) && self.blocks_target(candidate, target) {
                return Some(candidate);
            }
        }
        None
    }

    /// Resolves a focus request through the topmost modal transient chain.
    #[must_use]
    pub fn focus_target(&self, requested: ClientId) -> (target: Option<ClientId>)
        requires
            self@.wf(),
        ensures
            target == self@.target_of(requested),
            target matches Some(id) ==> self@.has(id),
    {
        match self.clients.get(requested) {
            Some(client) => {
                if client.iconic || !self.is_visible_client(client) {
                    return None;
                }
            },
            None => {
                return None;
            },
        }
        let ghost all = self@.managed;
        let mut target: ClientId = requested;
        let mut visited: Vec<ClientId> = Vec::new();
        visited.push(requested);
        proof {
            assert(visited@ =~= seq![requested]);
            assert(all.contains(requested));
        }
        loop
            invariant
                self@.wf(),
                all == self@.managed,
                self@.has(target),
                visited@.no_duplicates(),
                1 <= visited@.len() <= all.len(),
                forall|id: ClientId| #[trigger] visited@.contains(id) ==> all.contains(id),
                self@.modal_end(requested, seq![requested], all.len()) == self@.modal_end(
                    target,
                    visited@,
                    (all.len() + 1 - visited@.len()) as nat,
                ),
            ensures
                self@.has(target),
                target == self@.modal_end(requested, seq![requested], all.len()),
            decreases all.len() + 1 - visited@.len(),
        {
            proof {
                lemma_topmost_blocker(self@, self@.stacking, target, visited@);
            }
            match self.topmost_modal(target, &visited) {
                Some(modal) => {
                    proof {
                        assert(all.contains(modal));
                        super::lemma_push_new(visited@, modal);
                        assert forall|id: ClientId| #[trigger]
                            visited@.push(modal).contains(id) implies all.contains(id) by {
                            super::lemma_contains_push(visited@, modal, id);
                        }
                        super::lemma_sublist_len(visited@.push(modal), all);
                    }
                    visited.push(modal);
                    target = modal;
                },
                None => {
                    break;
                },
            }
        }
        Some(target)
    }

    fn last_fallback_target(&self, ids: &Vec<ClientId>, old: ClientId) -> (r: Option<ClientId>)
        requires
            self@.wf(),
        ensures
            r == self@.last_fallback(ids@, old),
    {
        let mut index: usize = ids.len();
        assert(ids@.take(index as int) =~= ids@);
        while index > 0
            invariant
                self@.wf(),
                index <= ids.len(),
                self@.last_fallback(ids@, old) == self@.last_fallback(
                    ids@.take(index as int),
                    old,
                ),
            decreases index,
        {
            assert(ids@.take(index as int).drop_last() =~= ids@.take(index - 1));
            index = index - 1;
            if let Some(target) = self.focus_target(ids[index]) {
                if target != old {
                    if let Some(client) = self.clients.get(target) {
                        if !client.shaded && self.is_automatic_focus_candidate(client) {
                            return Some(target);
                        }
                    }
                }
            }
        }
        None
    }

    /// Replaces current focus with the most recent valid target other than `leaving`.
    ///
    /// Shaded, iconic, hidden, ordinary task-list-skipped, and non-focusable
    /// clients are excluded. Modal, urgent, and dialog targets retain Openbox's
    /// skip-taskbar exception. Redirects are resolved before de-duplication.
    /// When no fallback exists, focus is cleared.
    pub fn focus_fallback_from(&mut self, leaving: ClientId) -> (focused: Option<ClientId>)
        requires
            old(self)@.wf(),
        ensures
            final(self)@.wf(),
            final(self)@ == old(self)@.falling_back(leaving),
            focused == final(self)@.focused,
            old(self)@.focused == Some(leaving) ==> focused == old(self)@.fallback_from(leaving),
    {
        if self.focused != Some(leaving) {
            return self.focused;
        }
        let history: Vec<ClientId> = self.current_history();
        let recent: Option<ClientId> = self.last_fallback_target(&history, leaving);
        let target: Option<ClientId> = if recent.is_some() {
            recent
        } else {
            self.last_fallback_target(&self.stacking, leaving)
        };
        proof {
            lemma_last_fallback(self@, history@, leaving);
            lemma_last_fallback(self@, self@.stacking, leaving);
        }
        let ghost before = self@;
        self.focused = None;
        proof {
            let cleared = Desk { focused: None, ..before };
            assert(self@ =~= cleared);
            assert forall|w: WorkspaceId| #![trigger cleared.recent[w]] cleared.lists_some(
                cleared.recent[w],
            ) && (w.0 >= cleared.workspace_count ==> cleared.recent[w].len() == 0) by {
                assert(before.lists_some(before.recent[w]));
            }
            assert(cleared.lists_all(before.managed));
            assert(cleared.lists_all(before.stacking));
        }
        if let Some(id) = target {
            let _ = self.focus(id);
        }
        self.focused
    }

    /// Returns the focused client.
    #[must_use]
    pub fn focused(&self) -> (focused: Option<ClientId>)
        ensures
            focused == self@.focused,
    {
        self.focused
    }

    /// Returns visible focus targets in most-recently-used order.
    ///
    /// Modal redirects are resolved before de-duplication, so a blocked parent
    /// and its active modal appear as one cycle candidate.
    #[must_use]
    pub fn focus_cycle_candidates(&self) -> (candidates: Vec<ClientId>)
        requires
            self@.wf(),
        ensures
            candidates@ == self@.cycle_targets(self@.cycle_requests()),
    {
        let mut requests: Vec<ClientId> = Vec::new();
        if let Some(id) = self.focused {
            requests.push(id);
        }
        let history: Vec<ClientId> = self.current_history();
        push_reversed(&mut requests, &history);
        push_reversed(&mut requests, &self.stacking);
        assert(requests@ =~= self@.cycle_requests());
        let mut candidates: Vec<ClientId> = Vec::new();
        let mut index: usize = 0;
        while index < requests.len()
            invariant
                self@.wf(),
                index <= requests.len(),
                candidates@ == self@.cycle_targets(requests@.take(index as int)),
            decreases requests.len() - index,
        {
            assert(requests@.take(index + 1).drop_last() =~= requests@.take(index as int));
            if let Some(target) = self.focus_target(requests[index]) {
                if let Some(client) = self.clients.get(target) {
                    if self.is_automatic_focus_candidate(client) && !holds(&candidates, target) {
                        candidates.push(target);
                    }
                }
            }
            index += 1;
        }
        assert(requests@.take(index as int) =~= requests@);
        candidates
    }

    /// Clears focus without changing focus history.
    pub fn clear_focus(&mut self)
        requires
            old(self)@.wf(),
        ensures
            final(self)@.wf(),
            final(self)@ == (Desk { focused: None, ..old(self)@ }),
    {
        let ghost before = self@;
        self.focused = None;
        proof {
            assert(self@ =~= Desk { focused: None, ..before });
            assert forall|w: WorkspaceId| #![trigger self@.recent[w]] self@.lists_some(
                self@.recent[w],
            ) && (w.0 >= self@.workspace_count ==> self@.recent[w].len() == 0) by {
                assert(before.lists_some(before.recent[w]));
            }
            assert(self@.lists_all(before.managed));
            assert(self@.lists_all(before.stacking));
        }
    }
}

fn push_reversed(list: &mut Vec<ClientId>, ids: &Vec<ClientId>)
    ensures
        final(list)@ == old(list)@ + ids@.reverse(),
{
    let ghost before = list@;
    let mut index: usize = ids.len();
    while index > 0
        invariant
            index <= ids.len(),
            list@.len() == before.len() + (ids.len() - index),
            forall|i: int| 0 <= i < before.len() ==> list@[i] == before[i],
            forall|i: int|
                0 <= i < ids.len() - index ==> #[trigger] list@[before.len() + i] == ids@[ids.len()
                    - 1 - i],
        decreases index,
    {
        let ghost prior = list@;
        index = index - 1;
        list.push(ids[index]);
        assert forall|i: int| 0 <= i < ids.len() - index implies #[trigger] list@[before.len() + i]
            == ids@[ids.len() - 1 - i] by {
            if i < ids.len() - index - 1 {
                assert(list@[before.len() + i] == prior[before.len() + i]);
            }
        }
    }
    assert forall|i: int| before.len() <= i < list@.len() implies list@[i] == (before
        + ids@.reverse())[i] by {
        let offset = i - before.len();
        assert(list@[before.len() + offset] == ids@[ids.len() - 1 - offset]);
    }
    assert(list@ =~= before + ids@.reverse());
}

} // verus!
