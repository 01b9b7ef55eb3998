//! Workspace switching, assignment, and reconfiguration.

use vstd::prelude::*;
use super::{holds, ClientChange, ClientSet};
use crate::desk;
use crate::desk::Desk;
use crate::ids::{ClientId, WorkspaceId};
use crate::num;
use crate::policy::{Client, ClientRole, TransientTarget};
use crate::workspace::{WorkspaceAssignment, WorkspaceDirection, WorkspaceLayout};

verus! {

/// What a merged history holds.
proof fn lemma_merged(first: Seq<ClientId>, second: Seq<ClientId>)
    requires
        first.no_duplicates(),
    ensures
        desk::merged(first, second).no_duplicates(),
        forall|x: ClientId| #[trigger]
            desk::merged(first, second).contains(x) <==> first.contains(x) || second.contains(x),
    decreases second.len(),
{
    if second.len() > 0 {
        let shorter = second.drop_last();
        let before = desk::merged(first, shorter);
        lemma_merged(first, shorter);
        if !before.contains(second.last()) {
            super::lemma_push_new(before, second.last());
        }
        assert forall|x: ClientId| #[trigger]
            desk::merged(first, second).contains(x) <==> first.contains(x) || second.contains(
                x,
            ) by {
            super::lemma_contains_last(second, x);
            super::lemma_contains_push(before, second.last(), x);
        }
    }
}

/// A desk with its workspaces cut to a count keeps the invariant.
proof fn lemma_cut_wf(d: Desk, count: u32)
    requires
        d.wf(),
        count >= 1,
    ensures
        d.cut_to(count).wf(),
{
    let e = d.cut_to(count);
    WorkspaceLayout::lemma_row(count);
    assert(e.clients.dom() =~= d.clients.dom());
    assert forall|w: WorkspaceId| super::is_history(e, w, #[trigger] e.recent[w]) by {
        assert(d.lists_some(d.recent[w]));
        if w.0 >= count {
            assert(e.recent[w] =~= Seq::<ClientId>::empty());
        }
    }
    super::lemma_rebuilt_wf(d, e);
}

/// The desk with a workspace inserted, before focus is recovered.
spec fn inserted(d: Desk, index: u32) -> Desk {
    Desk { focused: d.focused, ..d.inserting(index) }
}

/// Inserting a workspace keeps the invariant.
proof fn lemma_inserted_wf(d: Desk, index: u32)
    requires
        d.wf(),
        d.workspace_count < u32::MAX,
        index <= d.workspace_count,
    ensures
        inserted(d, index).wf(),
{
    let e = inserted(d, index);
    WorkspaceLayout::lemma_row((d.workspace_count + 1) as u32);
    assert(e.clients.dom() =~= d.clients.dom());
    assert forall|w: WorkspaceId| super::is_history(e, w, #[trigger] e.recent[w]) by {
        if w.0 < index {
            assert(d.lists_some(d.recent[w]));
        } else if w.0 > index {
            let source = WorkspaceId((w.0 - 1) as u32);
            assert(d.lists_some(d.recent[source]));
            assert(e.recent[w] == d.recent[source]);
        } else {
            assert(e.recent[w] =~= Seq::<ClientId>::empty());
        }
    }
    super::lemma_rebuilt_wf(d, e);
}

/// The desk with a workspace removed, before focus is recovered.
spec fn removed(d: Desk, index: u32) -> Desk {
    Desk { focused: d.focused, ..d.removing(index) }
}

/// Removing a workspace keeps the invariant.
proof fn lemma_removed_wf(d: Desk, index: u32)
    requires
        d.wf(),
        d.workspace_count > 1,
        index < d.workspace_count,
    ensures
        removed(d, index).wf(),
{
    let e = removed(d, index);
    let merge = d.merge_index(index);
    WorkspaceLayout::lemma_row((d.workspace_count - 1) as u32);
    assert(e.clients.dom() =~= d.clients.dom());
    assert forall|w: WorkspaceId| super::is_history(e, w, #[trigger] e.recent[w]) by {
        if w.0 < merge {
            assert(d.lists_some(d.recent[w]));
        } else if w.0 == merge {
            let next = WorkspaceId((merge + 1) as u32);
            assert(d.lists_some(d.recent[w]));
            assert(d.lists_some(d.recent[next]));
            lemma_merged(d.recent[w], d.recent[next]);
        } else if w.0 < u32::MAX {
            let source = WorkspaceId((w.0 + 1) as u32);
            assert(d.lists_some(d.recent[source]));
            assert(e.recent[w] == d.recent[source]);
        } else {
            assert(e.recent[w] =~= Seq::<ClientId>::empty());
        }
    }
    super::lemma_rebuilt_wf(d, e);
}

impl ClientSet {
    /// Returns the number of configured workspaces.
    #[must_use]
    pub fn workspace_count(&self) -> (count: u32)
        ensures
            count == self@.workspace_count,
    {
        self.workspace_count
    }

    /// Returns the active workspace.
    #[must_use]
    pub fn current_workspace(&self) -> (workspace: WorkspaceId)
        ensures
            workspace == self@.current,
    {
        self.current_workspace
    }

    /// Returns the previously active workspace.
    #[must_use]
    pub fn last_workspace(&self) -> (workspace: WorkspaceId)
        ensures
            workspace == self@.last,
    {
        self.last_workspace
    }

    /// Returns whether ordinary clients are temporarily hidden to expose the desktop.
    #[must_use]
    pub fn showing_desktop(&self) -> (showing: bool)
        ensures
            showing == self@.showing_desktop,
    {
        self.showing_desktop
    }

    /// Enters or leaves desktop-showing mode without changing iconic state.
    pub fn set_showing_desktop(&mut self, showing: bool) -> (changed: bool)
        requires
            old(self)@.wf(),
        ensures
            final(self)@.wf(),
            changed == (old(self)@.showing_desktop != showing),
            final(self)@ == old(self)@.showing(showing),
    {
        if self.showing_desktop == showing {
            return false;
        }
        let ghost before = self@;
        self.showing_desktop = showing;
        proof {
            assert(self@ =~= Desk { showing_desktop: showing, ..before });
            assert forall|w: WorkspaceId| super::is_history(self@, w, #[trigger] self@.recent[w]) by {
                assert(before.lists_some(before.recent[w]));
            }
            super::lemma_rebuilt_wf(before, self@);
        }
        self.recover_focus();
        true
    }

    /// Resolves an adjacent workspace using wraparound navigation.
    #[must_use]
    pub fn workspace_in_direction(&self, direction: WorkspaceDirection) -> (workspace: WorkspaceId)
        requires
            self@.wf(),
        ensures
            workspace.0 == self@.stepped(direction),
    {
        let current: u32 = self.current_workspace.0;
        proof {
            let count = self@.workspace_count as int;
            let at = self@.current.0 as int;
            if at == 0 {
                vstd::arithmetic::div_mod::lemma_small_mod((count - 1) as nat, count as nat);
            } else {
                vstd::arithmetic::div_mod::lemma_mod_add_multiples_vanish(at - 1, count);
                vstd::arithmetic::div_mod::lemma_small_mod((at - 1) as nat, count as nat);
            }
            if at + 1 == count {
                vstd::arithmetic::div_mod::lemma_mod_self_0(count);
            } else {
                vstd::arithmetic::div_mod::lemma_small_mod((at + 1) as nat, count as nat);
            }
        }
        match direction {
            WorkspaceDirection::Previous => {
                if current == 0 {
                    WorkspaceId(self.workspace_count - 1)
                } else {
                    WorkspaceId(current - 1)
                }
            },
            WorkspaceDirection::Next => {
                if current + 1 == self.workspace_count {
                    WorkspaceId(0)
                } else {
                    WorkspaceId(current + 1)
                }
            },
            WorkspaceDirection::Left
            | WorkspaceDirection::Right
            | WorkspaceDirection::Up
            | WorkspaceDirection::Down => self.current_workspace,
        }
    }

    /// Returns the active workspace's neighbor in the configured grid.
    #[must_use]
    pub fn workspace_in_grid_direction(
        &self,
        direction: WorkspaceDirection,
        wrap: bool,
    ) -> (workspace: WorkspaceId)
        ensures
            workspace == self@.layout.neighbor_of(self@.current, direction, wrap),
    {
        self.workspace_layout.neighbor(self.current_workspace, direction, wrap)
    }

    /// Replaces the workspace grid when it describes this workspace set.
    pub fn set_workspace_layout(&mut self, layout: WorkspaceLayout) -> (changed: bool)
        requires
            old(self)@.wf(),
        ensures
            final(self)@.wf(),
            changed == (layout.workspaces() == old(self)@.workspace_count && layout != old(self)@.layout),
            final(self)@ == (if changed {
                Desk { layout, ..old(self)@ }
            } else {
                old(self)@
            }),
    {
        layout.reveal_grid();
        if layout.count() != self.workspace_count || layout == self.workspace_layout {
            return false;
        }
        let ghost before = self@;
        self.workspace_layout = layout;
        proof {
            assert(self@ =~= Desk { layout, ..before });
            assert forall|w: WorkspaceId| super::is_history(self@, w, #[trigger] self@.recent[w]) by {
                assert(before.lists_some(before.recent[w]));
            }
            super::lemma_rebuilt_wf(before, self@);
        }
        true
    }

    /// The clients assigned beyond a workspace count, by identifier.
    fn clients_beyond(&self, count: u32) -> (ids: Vec<ClientId>)
        requires
            self@.wf(),
        ensures
            self@.are_beyond(ids@, count),
    {
        let mut ids: Vec<ClientId> = Vec::new();
        let mut index: usize = 0;
        while index < self.management_order.len()
            invariant
                self@.wf(),
                index <= self.management_order.len(),
                forall|i: int, j: int|
                    0 <= i < j < ids@.len() ==> (#[trigger] ids@[i]).0 < (#[trigger] ids@[j]).0,
                forall|id: ClientId| #[trigger]
                    ids@.contains(id) <==> self.management_order@.take(index as int).contains(id)
                        && self@.is_beyond(id.0, count),
            decreases self.management_order.len() - index,
        {
            let id: ClientId = self.management_order[index];
            let ghost before = ids@;
            let ghost taken = self.management_order@.take(index as int);
            assert(self.management_order@.take(index + 1) =~= taken.push(id));
            assert(!taken.contains(id)) by {
                assert(self@.managed.no_duplicates());
            }
            let beyond: bool = match self.clients.get(id) {
                Some(client) => match client.workspace {
                    WorkspaceAssignment::Workspace(w) => w.0 >= count,
                    WorkspaceAssignment::All => false,
                },
                None => false,
            };
            if beyond {
                insert_sorted(&mut ids, id);
            }
            assert forall|x: ClientId| #[trigger] ids@.contains(x) <==> taken.push(id).contains(x)
                && self@.is_beyond(x.0, count) by {
                super::lemma_contains_push(taken, id, x);
                assert(before.contains(x) <==> taken.contains(x) && self@.is_beyond(x.0, count));
            }
            index += 1;
        }
        proof {
            assert(self.management_order@.take(index as int) =~= self.management_order@);
            assert forall|id: ClientId| #[trigger] ids@.contains(id) <==> self@.is_beyond(
                id.0,
                count,
            ) by {
                assert(self@.managed.contains(id) <==> self@.has(id));
            }
        }
        ids
    }

    /// Drops the histories of workspaces beyond a count.
    fn cut_history(&mut self, count: u32)
        ensures
            final(self)@ == (Desk {
                recent: Map::total(
                    |w: WorkspaceId|
                        if w.0 < count {
                            old(self)@.recent[w]
                        } else {
                            Seq::empty()
                        },
                ),
                ..old(self)@
            }),
    {
        let mut kept: Vec<(WorkspaceId, ClientId)> = Vec::new();
        let mut index: usize = 0;
        while index < self.history.len()
            invariant
                index <= self.history.len(),
                forall|w: WorkspaceId|
                    #![trigger super::history_of(kept@, w)]
                    super::history_of(kept@, w) == (if w.0 < count {
                        super::history_of(self.history@.take(index as int), w)
                    } else {
                        Seq::empty()
                    }),
            decreases self.history.len() - index,
        {
            let entry: (WorkspaceId, ClientId) = self.history[index];
            let ghost before = kept@;
            if entry.0.0 < count {
                kept.push(entry);
            }
            assert forall|w: WorkspaceId|
                #![trigger super::history_of(kept@, w)]
                super::history_of(kept@, w) == (if w.0 < count {
                    super::history_of(self.history@.take(index + 1), w)
                } else {
                    Seq::empty()
                }) by {
                super::lemma_history_take(self.history@, index as int, w);
                super::lemma_history_push(before, entry, w);
                assert(super::history_of(before, w) == (if w.0 < count {
                    super::history_of(self.history@.take(index as int), w)
                } else {
                    Seq::empty()
                }));
            }
            index += 1;
        }
        assert(self.history@.take(index as int) =~= self.history@);
        self.history = kept;
        proof {
            let wanted = Map::total(
                |w: WorkspaceId|
                    if w.0 < count {
                        old(self)@.recent[w]
                    } else {
                        Seq::empty()
                    },
            );
            assert forall|w: WorkspaceId| #[trigger] self@.recent[w] == wanted[w] by {
                assert(self@.recent[w] == super::history_of(self.history@, w));
            }
            assert(self@.recent =~= wanted);
            assert(self@ =~= Desk { recent: wanted, ..old(self)@ });
        }
    }

    /// Reconfigures the workspace set, preserving clients and valid histories.
    ///
    /// A count of zero is normalized to one. Clients on removed workspaces move
    /// to the final surviving workspace.
    pub fn set_workspace_count(&mut self, count: u32) -> (changed: bool)
        requires
            old(self)@.wf(),
        ensures
            final(self)@.wf(),
            ({
                let wanted = num::greater(count as int, 1) as u32;
                &&& changed == (wanted != old(self)@.workspace_count)
                &&& !changed ==> final(self)@ == old(self)@
                &&& changed ==> exists|moved: Seq<ClientId>|
                    #![trigger old(self)@.are_beyond(moved, wanted)]
                    old(self)@.are_beyond(moved, wanted) && final(self)@ == old(self)@.resized(
                        wanted,
                        moved,
                    )
            }),
    {
        let count: u32 = num::max_u32(count, 1);
        if count == self.workspace_count {
            return false;
        }
        let ghost before = self@;
        let moved: Vec<ClientId> = self.clients_beyond(count);
        let last: WorkspaceId = WorkspaceId(count - 1);
        self.change_clients(ClientChange::Cut(count));
        self.cut_history(count);
        self.workspace_count = count;
        self.workspace_layout = WorkspaceLayout::one_row(count);
        if self.current_workspace.0 >= count {
            self.current_workspace = last;
        }
        if self.last_workspace.0 >= count {
            self.last_workspace = last;
        }
        proof {
            assert(self@.clients =~= before.cut_to(count).clients);
            assert(self@ =~= before.cut_to(count));
            lemma_cut_wf(before, count);
        }
        let mut index: usize = 0;
        assert(moved@.take(0) =~= Seq::<ClientId>::empty());
        while index < moved.len()
            invariant
                index <= moved.len(),
                count >= 1,
                last == WorkspaceId((count - 1) as u32),
                self@.wf(),
                self@.workspace_count == count,
                before.are_beyond(moved@, count),
                forall|id: ClientId| before.has(id) ==> self@.has(id),
                self@ == before.cut_to(count).gathered(moved@.take(index as int), last),
            decreases moved.len() - index,
        {
            let id: ClientId = moved[index];
            assert(moved@.take(index + 1).drop_last() =~= moved@.take(index as int));
            assert(moved@.contains(id));
            assert(before.has(id));
            proof {
                super::lemma_forgotten_wf(self@, id);
            }
            self.remove_from_focus_history(id);
            self.note(last, id);
            index += 1;
        }
        assert(moved@.take(index as int) =~= moved@);
        self.recover_focus();
        true
    }

    /// Renumbers the histories at or after an inserted workspace.
    fn shift_history(&mut self, from: u32)
        requires
            forall|w: WorkspaceId| w.0 == u32::MAX ==> (#[trigger] old(self)@.recent[w]).len() == 0,
        ensures
            final(self)@ == (Desk {
                recent: Map::total(
                    |w: WorkspaceId|
                        if w.0 < from {
                            old(self)@.recent[w]
                        } else if w.0 == from {
                            Seq::empty()
                        } else {
                            old(self)@.recent[WorkspaceId((w.0 - 1) as u32)]
                        },
                ),
                ..old(self)@
            }),
    {
        let mut shifted: Vec<(WorkspaceId, ClientId)> = Vec::new();
        let mut index: usize = 0;
        assert forall|w: WorkspaceId| w.0 == u32::MAX implies (#[trigger] super::history_of(
            self.history@,
            w,
        )).len() == 0 by {
            assert(self@.recent[w] == super::history_of(self.history@, w));
        }
        while index < self.history.len()
            invariant
                index <= self.history.len(),
                forall|w: WorkspaceId|
                    w.0 == u32::MAX ==> (#[trigger] super::history_of(self.history@, w)).len() == 0,
                forall|w: WorkspaceId|
                    #![trigger super::history_of(shifted@, w)]
                    super::history_of(shifted@, w) == (if w.0 < from {
                        super::history_of(self.history@.take(index as int), w)
                    } else if w.0 == from {
                        Seq::empty()
                    } else {
                        super::history_of(
                            self.history@.take(index as int),
                            WorkspaceId((w.0 - 1) as u32),
                        )
                    }),
            decreases self.history.len() - index,
        {
            let entry: (WorkspaceId, ClientId) = self.history[index];
            let ghost before = shifted@;
            proof {
                lemma_history_holds(self.history@, index as int);
            }
            let target: WorkspaceId = if entry.0.0 >= from {
                WorkspaceId(entry.0.0 + 1)
            } else {
                entry.0
            };
            shifted.push((target, entry.1));
            assert forall|w: WorkspaceId|
                #![trigger super::history_of(shifted@, w)]
                super::history_of(shifted@, w) == (if w.0 < from {
                    super::history_of(self.history@.take(index + 1), w)
                } else if w.0 == from {
                    Seq::empty()
                } else {
                    super::history_of(
                        self.history@.take(index + 1),
                        WorkspaceId((w.0 - 1) as u32),
                    )
                }) by {
                super::lemma_history_take(self.history@, index as int, w);
                if w.0 > from {
                    super::lemma_history_take(
                        self.history@,
                        index as int,
                        WorkspaceId((w.0 - 1) as u32),
                    );
                }
                super::lemma_history_push(before, (target, entry.1), w);
                assert(super::history_of(before, w) == (if w.0 < from {
                    super::history_of(self.history@.take(index as int), w)
                } else if w.0 == from {
                    Seq::empty()
                } else {
                    super::history_of(
                        self.history@.take(index as int),
                        WorkspaceId((w.0 - 1) as u32),
                    )
                }));
            }
            index += 1;
        }
        assert(self.history@.take(index as int) =~= self.history@);
        self.history = shifted;
        proof {
            let wanted = Map::total(
                |w: WorkspaceId|
                    if w.0 < from {
                        old(self)@.recent[w]
                    } else if w.0 == from {
                        Seq::empty()
                    } else {
                        old(self)@.recent[WorkspaceId((w.0 - 1) as u32)]
                    },
            );
            assert forall|w: WorkspaceId| #[trigger] self@.recent[w] == wanted[w] by {
                assert(self@.recent[w] == super::history_of(self.history@, w));
            }
            assert(self@.recent =~= wanted);
            assert(self@ =~= Desk { recent: wanted, ..old(self)@ });
        }
    }

    /// Inserts an empty workspace at a zero-based index.
    ///
    /// Existing clients and focus histories at or after the insertion point
    /// shift right. Inserting at the current workspace leaves the numeric
    /// current index unchanged, making the new empty workspace visible.
    pub fn insert_workspace(&mut self, workspace: WorkspaceId) -> (inserted: bool)
        requires
            old(self)@.wf(),
        ensures
            final(self)@.wf(),
            inserted == (old(self)@.workspace_count < u32::MAX && workspace.0 <= old(self)@.workspace_count),
            final(self)@ == (if inserted {
                old(self)@.inserting(workspace.0)
            } else {
                old(self)@
            }),
    {
        let index: u32 = workspace.0;
        if self.workspace_count == u32::MAX || index > self.workspace_count {
            return false;
        }
        let count: u32 = self.workspace_count + 1;
        let ghost before = self@;
        self.change_clients(ClientChange::Insert(index));
        self.shift_history(index);
        if self.current_workspace.0 > index {
            self.current_workspace = WorkspaceId(self.current_workspace.0 + 1);
        }
        if self.last_workspace.0 >= index {
            self.last_workspace = WorkspaceId(self.last_workspace.0 + 1);
        }
        self.workspace_count = count;
        self.workspace_layout = WorkspaceLayout::one_row(count);
        proof {
            assert(self@.clients =~= inserted(before, index).clients);
            assert(self@.recent =~= inserted(before, index).recent);
            assert(self@ =~= inserted(before, index));
            lemma_inserted_wf(before, index);
            super::lemma_recovery_ignores_focus(before.inserting(index), before.focused);
            lemma_recovered_twice(inserted(before, index));
        }
        self.recover_focus();
        assert(self@ =~= before.inserting(index));
        true
    }

    /// Renumbers the histories around a removed workspace, merging the two
    /// that become one.
    fn merge_history(&mut self, merge: u32)
        requires
            merge < u32::MAX,
            forall|w: WorkspaceId|
                (#[trigger] old(self)@.recent[w]).no_duplicates(),
        ensures
            final(self)@ == (Desk {
                recent: Map::total(
                    |w: WorkspaceId|
                        if w.0 < merge {
                            old(self)@.recent[w]
                        } else if w.0 == merge {
                            desk::merged(
                                old(self)@.recent[w],
                                old(self)@.recent[WorkspaceId((merge + 1) as u32)],
                            )
                        } else if w.0 < u32::MAX {
                            old(self)@.recent[WorkspaceId((w.0 + 1) as u32)]
                        } else {
                            Seq::empty()
                        },
                ),
                ..old(self)@
            }),
    {
        let ghost target = WorkspaceId(merge);
        let ghost next = WorkspaceId((merge + 1) as u32);
        let mut kept: Vec<(WorkspaceId, ClientId)> = Vec::new();
        let mut index: usize = 0;
        while index < self.history.len()
            invariant
                merge < u32::MAX,
                index <= self.history.len(),
                forall|w: WorkspaceId|
                    #![trigger super::history_of(kept@, w)]
                    super::history_of(kept@, w) == (if w.0 <= merge {
                        super::history_of(self.history@.take(index as int), w)
                    } else if w.0 < u32::MAX {
                        super::history_of(
                            self.history@.take(index as int),
                            WorkspaceId((w.0 + 1) as u32),
                        )
                    } else {
                        Seq::empty()
                    }),
            decreases self.history.len() - index,
        {
            let entry: (WorkspaceId, ClientId) = self.history[index];
            let ghost before = kept@;
            if entry.0.0 <= merge {
                kept.push(entry);
            } else if entry.0.0 > merge + 1 {
                kept.push((WorkspaceId(entry.0.0 - 1), entry.1));
            }
            assert forall|w: WorkspaceId|
                #![trigger super::history_of(kept@, w)]
                super::history_of(kept@, w) == (if w.0 <= merge {
                    super::history_of(self.history@.take(index + 1), w)
                } else if w.0 < u32::MAX {
                    super::history_of(
                        self.history@.take(index + 1),
                        WorkspaceId((w.0 + 1) as u32),
                    )
                } else {
                    Seq::empty()
                }) by {
                super::lemma_history_take(self.history@, index as int, w);
                if w.0 < u32::MAX {
                    super::lemma_history_take(
                        self.history@,
                        index as int,
                        WorkspaceId((w.0 + 1) as u32),
                    );
                }
                super::lemma_history_push(before, entry, w);
                if entry.0.0 > 0 {
                    super::lemma_history_push(
                        before,
                        (WorkspaceId((entry.0.0 - 1) as u32), entry.1),
                        w,
                    );
                }
                assert(super::history_of(before, w) == (if w.0 <= merge {
                    super::history_of(self.history@.take(index as int), w)
                } else if w.0 < u32::MAX {
                    super::history_of(
                        self.history@.take(index as int),
                        WorkspaceId((w.0 + 1) as u32),
                    )
                } else {
                    Seq::empty()
                }));
            }
            index += 1;
        }
        assert(self.history@.take(index as int) =~= self.history@);
        let ghost base = kept@;
        let mut target_ids: Vec<ClientId> = Vec::new();
        let mut position: usize = 0;
        while position < self.history.len()
            invariant
                position <= self.history.len(),
                target == WorkspaceId(merge),
                target_ids@ == super::history_of(self.history@.take(position as int), target),
            decreases self.history.len() - position,
        {
            proof {
                super::lemma_history_take(self.history@, position as int, target);
            }
            let entry: (WorkspaceId, ClientId) = self.history[position];
            if entry.0.0 == merge {
                target_ids.push(entry.1);
            }
            position += 1;
        }
        assert(self.history@.take(position as int) =~= self.history@);
        assert(super::history_of(base, target) == super::history_of(self.history@, target));
        let mut second: usize = 0;
        while second < self.history.len()
            invariant
                merge < u32::MAX,
                target == WorkspaceId(merge),
                next == WorkspaceId((merge + 1) as u32),
                second <= self.history.len(),
                target_ids@ == super::history_of(kept@, target),
                super::history_of(kept@, target) == desk::merged(
                    super::history_of(self.history@, target),
                    super::history_of(self.history@.take(second as int), next),
                ),
                forall|w: WorkspaceId|
                    #![trigger super::history_of(kept@, w)]
                    w != target ==> super::history_of(kept@, w) == super::history_of(base, w),
            decreases self.history.len() - second,
        {
            let entry: (WorkspaceId, ClientId) = self.history[second];
            let ghost before = kept@;
            proof {
                super::lemma_history_take(self.history@, second as int, next);
                let taken = super::history_of(self.history@.take(second as int), next);
                assert(taken.push(entry.1).drop_last() =~= taken);
            }
            if entry.0.0 == merge + 1 && !holds(&target_ids, entry.1) {
                kept.push((WorkspaceId(merge), entry.1));
                target_ids.push(entry.1);
                assert forall|w: WorkspaceId|
                    #![trigger super::history_of(kept@, w)]
                    super::history_of(kept@, w) == (if w == target {
                        super::history_of(before, w).push(entry.1)
                    } else {
                        super::history_of(before, w)
                    }) by {
                    super::lemma_history_push(before, (target, entry.1), w);
                }
            }
            second += 1;
        }
        assert(self.history@.take(second as int) =~= self.history@);
        let ghost flat = self.history@;
        self.history = kept;
        proof {
            let wanted = Map::total(
                |w: WorkspaceId|
                    if w.0 < merge {
                        old(self)@.recent[w]
                    } else if w.0 == merge {
                        desk::merged(
                            old(self)@.recent[w],
                            old(self)@.recent[WorkspaceId((merge + 1) as u32)],
                        )
                    } else if w.0 < u32::MAX {
                        old(self)@.recent[WorkspaceId((w.0 + 1) as u32)]
                    } else {
                        Seq::empty()
                    },
            );
            assert forall|w: WorkspaceId| #[trigger] self@.recent[w] == wanted[w] by {
                assert(self@.recent[w] == super::history_of(kept@, w));
                if w != target {
                    assert(super::history_of(kept@, w) == super::history_of(base, w));
                } else {
                    assert(w.0 == merge);
                    assert(old(self)@.recent[target] == super::history_of(flat, target));
                    assert(old(self)@.recent[next] == super::history_of(flat, next));
                }
            }
            assert(self@.recent =~= wanted);
            assert(self@ =~= Desk { recent: wanted, ..old(self)@ });
        }
    }

    /// Removes and merges a workspace at a zero-based index.
    ///
    /// A non-final workspace merges into the workspace that follows it; the
    /// final workspace merges into its predecessor. At least one workspace is
    /// always retained.
    pub fn remove_workspace(&mut self, workspace: WorkspaceId) -> (removed: bool)
        requires
            old(self)@.wf(),
        ensures
            final(self)@.wf(),
            removed == (old(self)@.workspace_count > 1 && workspace.0 < old(self)@.workspace_count),
            final(self)@ == (if removed {
                old(self)@.removing(workspace.0)
            } else {
                old(self)@
            }),
    {
        let index: u32 = workspace.0;
        if self.workspace_count <= 1 || index >= self.workspace_count {
            return false;
        }
        let count: u32 = self.workspace_count - 1;
        let merge: u32 = if index + 1 < self.workspace_count {
            index
        } else {
            index - 1
        };
        let ghost before = self@;
        let change: ClientChange = ClientChange::Remove(index, count);
        self.current_workspace = change.shift(self.current_workspace);
        self.last_workspace = change.shift(self.last_workspace);
        self.change_clients(change);
        proof {
            assert forall|w: WorkspaceId| (#[trigger] self@.recent[w]).no_duplicates() by {
                assert(self@.recent[w] == before.recent[w]);
                assert(before.lists_some(before.recent[w]));
            }
        }
        self.merge_history(merge);
        self.workspace_count = count;
        self.workspace_layout = WorkspaceLayout::one_row(count);
        proof {
            assert(self@.clients =~= removed(before, index).clients);
            assert(self@.recent =~= removed(before, index).recent);
            assert(self@ =~= removed(before, index));
            lemma_removed_wf(before, index);
            lemma_recovered_twice(removed(before, index));
            super::lemma_recovery_ignores_focus(before.removing(index), before.focused);
        }
        self.recover_focus();
        assert(self@ =~= before.removing(index));
        true
    }

    /// Switches to a valid workspace and restores its most recent focus.
    pub fn switch_workspace(&mut self, workspace: WorkspaceId) -> (switched: bool)
        requires
            old(self)@.wf(),
        ensures
            final(self)@.wf(),
            switched == (workspace.0 < old(self)@.workspace_count && workspace != old(self)@.current),
            final(self)@ == old(self)@.switching(workspace),
    {
        if workspace.0 >= self.workspace_count || workspace == self.current_workspace {
            return false;
        }
        let ghost before = self@;
        self.last_workspace = self.current_workspace;
        self.current_workspace = workspace;
        proof {
            assert(self@ =~= Desk { last: before.current, current: workspace, ..before });
            assert forall|w: WorkspaceId| super::is_history(self@, w, #[trigger] self@.recent[w]) by {
                assert(before.lists_some(before.recent[w]));
            }
            super::lemma_rebuilt_wf(before, self@);
        }
        self.recover_focus();
        true
    }

    /// Changes a client's workspace membership.
    pub fn assign_workspace(&mut self, id: ClientId, assignment: WorkspaceAssignment) -> (changed:
        bool)
        requires
            old(self)@.wf(),
        ensures
            final(self)@.wf(),
            changed == (old(self)@.has(id) && old(self)@.client(id).workspace != old(self)@.existing(assignment)),
            final(self)@ == old(self)@.assigning(id, assignment),
    {
        let assignment: WorkspaceAssignment = self.valid_assignment(assignment);
        let mut client: Client = match self.copy_of(id) {
            Some(client) => client,
            None => {
                return false;
            },
        };
        if client.workspace == assignment {
            return false;
        }
        client.workspace = assignment;
        self.store(client);
        self.record_workspace_membership(id, assignment);
        self.recover_focus();
        true
    }

    pub(super) fn managed_parent_of(&self, id: ClientId) -> (parent: Option<ClientId>)
        ensures
            parent == self@.managed_parent(id),
    {
        match self.clients.get(id) {
            Some(client) => match client.parent_id() {
                Some(parent) => {
                    if self.clients.contains(parent) {
                        Some(parent)
                    } else {
                        None
                    }
                },
                None => None,
            },
            None => None,
        }
    }

    fn family_root(&self, id: ClientId) -> (root: Option<ClientId>)
        requires
            self@.wf(),
        ensures
            root == self@.family_top(id),
            root matches Some(top) ==> self@.has(top),
    {
        if !self.clients.contains(id) {
            return None;
        }
        let ghost all = self@.managed;
        let mut root: ClientId = id;
        let mut visited: Vec<ClientId> = Vec::new();
        assert(visited@ =~= Seq::<ClientId>::empty());
        while !holds(&visited, root)
            invariant_except_break
                self@.wf(),
                all == self@.managed,
                self@.has(root),
                visited@.no_duplicates(),
                visited@.len() <= all.len(),
                forall|x: ClientId| #[trigger] visited@.contains(x) ==> all.contains(x),
                self@.parent_end(id, Seq::empty(), all.len() + 1) == self@.parent_end(
                    root,
                    visited@,
                    (all.len() + 1 - visited@.len()) as nat,
                ),
            ensures
                self@.has(root),
                root == self@.parent_end(id, Seq::empty(), all.len() + 1),
            decreases all.len() + 1 - visited@.len(),
        {
            match self.managed_parent_of(root) {
                Some(parent) => {
                    proof {
                        assert(all.contains(root));
                        super::lemma_push_new(visited@, root);
                        assert forall|x: ClientId| #[trigger]
                            visited@.push(root).contains(x) implies all.contains(x) by {
                            super::lemma_contains_push(visited@, root, x);
                        }
                        super::lemma_sublist_len(visited@.push(root), all);
                    }
                    visited.push(root);
                    root = parent;
                },
                None => {
                    break;
                },
            }
        }
        Some(root)
    }

    fn transients_of(&self, parent: ClientId) -> (ids: Vec<ClientId>)
        ensures
            ids@ == self@.transients_among(self@.managed, parent),
            forall|i: int| 0 <= i < ids@.len() ==> self@.has(#[trigger] ids@[i]),
    {
        let mut ids: Vec<ClientId> = Vec::new();
        let mut index: usize = 0;
        while index < self.management_order.len()
            invariant
                index <= self.management_order.len(),
                ids@ == self@.transients_among(
                    self.management_order@.take(index as int),
                    parent,
                ),
                forall|i: int| 0 <= i < ids@.len() ==> self@.has(#[trigger] ids@[i]),
            decreases self.management_order.len() - index,
        {
            assert(self.management_order@.take(index + 1).drop_last()
                =~= self.management_order@.take(index as int));
            let candidate: ClientId = self.management_order[index];
            if let Some(client) = self.clients.get(candidate) {
                if client.transient_for == Some(TransientTarget::Client(parent)) {
                    ids.push(candidate);
                }
            }
            index += 1;
        }
        assert(self.management_order@.take(index as int) =~= self.management_order@);
        ids
    }

    fn group_transients_of(&self, group: ClientId) -> (ids: Vec<ClientId>)
        ensures
            ids@ == self@.group_transients_among(self@.managed, group),
            forall|i: int| 0 <= i < ids@.len() ==> self@.has(#[trigger] ids@[i]),
    {
        let mut ids: Vec<ClientId> = Vec::new();
        let mut index: usize = 0;
        while index < self.management_order.len()
            invariant
                index <= self.management_order.len(),
                ids@ == self@.group_transients_among(
                    self.management_order@.take(index as int),
                    group,
                ),
                forall|i: int| 0 <= i < ids@.len() ==> self@.has(#[trigger] ids@[i]),
            decreases self.management_order.len() - index,
        {
            assert(self.management_order@.take(index + 1).drop_last()
                =~= self.management_order@.take(index as int));
            let candidate: ClientId = self.management_order[index];
            if let Some(client) = self.clients.get(candidate) {
                if client.group == Some(group) && client.transient_for == Some(
                    TransientTarget::Group,
                ) {
                    ids.push(candidate);
                }
            }
            index += 1;
        }
        assert(self.management_order@.take(index as int) =~= self.management_order@);
        ids
    }

    fn transient_descendants(&self, root: ClientId) -> (family: Vec<ClientId>)
        requires
            self@.wf(),
            self@.has(root),
        ensures
            family@ == self@.family_of(root),
            self@.lists_some(family@),
    {
        let ghost all = self@.managed;
        let mut family: Vec<ClientId> = Vec::new();
        let mut pending: Vec<ClientId> = Vec::new();
        pending.push(root);
        if let Some(client) = self.clients.get(root) {
            let member: bool = match client.policy.role {
                ClientRole::Desktop | ClientRole::Dock | ClientRole::Splash => false,
                _ => true,
            };
            if client.transient_for != Some(TransientTarget::Group) && member {
                if let Some(group) = client.group {
                    let mut peers: Vec<ClientId> = self.group_transients_of(group);
                    pending.append(&mut peers);
                }
            }
        }
        assert(pending@ =~= self@.family_seeds(root));
        assert(family@ =~= Seq::<ClientId>::empty());
        while pending.len() > 0
            invariant
                self@.wf(),
                all == self@.managed,
                self@.lists_some(family@),
                family@.len() <= all.len(),
                forall|i: int| 0 <= i < pending@.len() ==> self@.has(#[trigger] pending@[i]),
                self@.family_of(root) == self@.descended(pending@, family@),
            decreases all.len() - family@.len(), pending@.len(),
        {
            let ghost before = pending@;
            let popped: Option<ClientId> = pending.pop();
            if let Some(parent) = popped {
                assert(before.drop_last() =~= pending@);
                assert(self@.has(before[before.len() - 1]));
                if !holds(&family, parent) {
                    let ghost earlier = family@;
                    proof {
                        assert(all.contains(parent));
                        assert forall|x: ClientId| #[trigger]
                            earlier.contains(x) implies all.contains(x) by {
                            assert(self@.has(x));
                        }
                        if earlier.len() >= all.len() {
                            super::lemma_full_list(earlier, all, parent);
                        }
                        super::lemma_push_new(earlier, parent);
                    }
                    family.push(parent);
                    let mut children: Vec<ClientId> = self.transients_of(parent);
                    pending.append(&mut children);
                    assert forall|x: ClientId| #[trigger] family@.contains(x) implies self@.has(
                        x,
                    ) by {
                        super::lemma_contains_push(earlier, parent, x);
                    }
                }
            }
        }
        family
    }

    /// Moves a client and its Openbox-compatible transient family as one unit.
    ///
    /// Specific descendants follow their top parent. A group transient follows
    /// an ordinary member of its application group, while moving that group
    /// transient directly moves only its own specific-descendant branch.
    ///
    /// Returns the identifiers whose assignments changed.
    pub fn assign_workspace_family(
        &mut self,
        id: ClientId,
        assignment: WorkspaceAssignment,
    ) -> (changed: Vec<ClientId>)
        requires
            old(self)@.wf(),
        ensures
            final(self)@.wf(),
            final(self)@ == old(self)@.assigning_family(id, assignment),
            changed@ == old(self)@.moved_family(id, assignment),
    {
        let wanted: WorkspaceAssignment = self.valid_assignment(assignment);
        let root: ClientId = match self.family_root(id) {
            Some(root) => root,
            None => {
                return Vec::new();
            },
        };
        let ghost before = self@;
        let family: Vec<ClientId> = self.transient_descendants(root);
        let mut changed: Vec<ClientId> = Vec::new();
        let mut index: usize = 0;
        assert(family@.take(0) =~= Seq::<ClientId>::empty());
        while index < family.len()
            invariant
                index <= family.len(),
                self@.wf(),
                self@.accepts(wanted),
                self@ == before.assigning_all(family@.take(index as int), wanted),
                changed@ == before.moved_among(family@.take(index as int), wanted),
            decreases family.len() - index,
        {
            let member: ClientId = family[index];
            assert(family@.take(index + 1).drop_last() =~= family@.take(index as int));
            if let Some(client) = self.copy_of(member) {
                if client.workspace != wanted {
                    let mut moved: Client = client;
                    moved.workspace = wanted;
                    self.store(moved);
                    self.record_workspace_membership(member, wanted);
                    changed.push(member);
                }
            }
            index += 1;
        }
        assert(family@.take(index as int) =~= family@);
        if changed.len() > 0 {
            self.recover_focus();
        }
        changed
    }

    /// Returns whether two clients belong to the same specific-transient or
    /// application-group family for focus policy.
    #[must_use]
    pub fn clients_are_related(&self, left: ClientId, right: ClientId) -> (related: bool)
        requires
            self@.wf(),
        ensures
            related == self@.are_related(left, right),
    {
        if left == right {
            return self.clients.contains(left);
        }
        match (self.clients.get(left), self.clients.get(right)) {
            (Some(left_client), Some(right_client)) => {
                if left_client.group.is_some() && left_client.group == right_client.group {
                    return true;
                }
            },
            _ => {
                return false;
            },
        }
        self.clients_share_transient_family(left, right)
    }

    /// Returns whether two clients share one specific-transient tree.
    #[must_use]
    pub fn clients_share_transient_family(&self, left: ClientId, right: ClientId) -> (shared: bool)
        requires
            self@.wf(),
        ensures
            shared == self@.share_a_family(left, right),
    {
        if left == right {
            return self.clients.contains(left);
        }
        match (self.family_root(left), self.family_root(right)) {
            (Some(left_root), Some(right_root)) => left_root == right_root,
            _ => false,
        }
    }
}

/// Recovering focus twice is recovering it once.
proof fn lemma_recovered_twice(d: Desk)
    ensures
        d.recovered().recovered() == d.recovered(),
{
    super::lemma_recovery_ignores_focus(d, d.recovered().focused);
}

/// An entry of the common list occurs in the history of its workspace.
proof fn lemma_history_holds(history: Seq<(WorkspaceId, ClientId)>, index: int)
    requires
        0 <= index < history.len(),
    ensures
        super::history_of(history, history[index].0).len() > 0,
    decreases history.len(),
{
    let shorter = history.drop_last();
    if index < shorter.len() {
        assert(shorter[index] == history[index]);
        lemma_history_holds(shorter, index);
    }
}

fn insert_sorted(ids: &mut Vec<ClientId>, id: ClientId)
    requires
        forall|i: int, j: int|
            0 <= i < j < old(ids)@.len() ==> (#[trigger] old(ids)@[i]).0 < (#[trigger] old(ids)@[j]).0,
        !old(ids)@.contains(id),
    ensures
        forall|i: int, j: int|
            0 <= i < j < final(ids)@.len() ==> (#[trigger] final(ids)@[i]).0 < (#[trigger] final(ids)@[j]).0,
        forall|x: ClientId| #[trigger]
            final(ids)@.contains(x) <==> old(ids)@.contains(x) || x == id,
{
    let ghost before = ids@;
    let mut index: usize = 0;
    while index < ids.len() && ids[index].0 < id.0
        invariant
            ids@ == before,
            index <= ids.len(),
            forall|i: int| 0 <= i < index ==> (#[trigger] before[i]).0 < id.0,
        decreases ids.len() - index,
    {
        index += 1;
    }
    ids.insert(index, id);
    let ghost at = index as int;
    proof {
        let after = ids@;
        assert(after == before.insert(at, id));
        assert forall|i: int| 0 <= i < after.len() implies #[trigger] after[i] == (if i < at {
            before[i]
        } else if i == at {
            id
        } else {
            before[i - 1]
        }) by {}
        assert forall|i: int, j: int| 0 <= i < j < after.len() implies (#[trigger] after[i]).0 < (
        #[trigger] after[j]).0 by {
            if at < before.len() {
                assert(before.contains(before[at]));
                assert(before[at].0 > id.0);
            }
            if i < at && j < at {
                assert(before[i].0 < before[j].0);
            } else if i < at && j > at {
                assert(before[i].0 < before[j - 1].0);
            } else if i == at {
                if j - 1 > at {
                    assert(before[at].0 < before[j - 1].0);
                }
            } else if i > at {
                assert(before[i - 1].0 < before[j - 1].0);
            }
        }
        assert forall|x: ClientId| #[trigger] after.contains(x) <==> before.contains(x) || x
            == id by {
            if after.contains(x) {
                let i = choose|i: int| 0 <= i < after.len() && after[i] == x;
                if i < at {
                    assert(before[i] == x);
                } else if i > at {
                    assert(before[i - 1] == x);
                }
            }
            if before.contains(x) {
                let i = choose|i: int| 0 <= i < before.len() && before[i] == x;
                if i < at {
                    assert(after[i] == x);
                } else {
                    assert(after[i + 1] == x);
                }
            }
            assert(after[at] == id);
        }
    }
}

} // verus!
