//! Agent sessions by ascending number.

use vstd::prelude::*;

use crate::agent::{AgentModel, AgentSession, SessionId, SessionModel, SessionStatus};
use crate::ids::ClientId;

verus! {

/// A session and its number.
#[derive(Clone, Debug)]
struct Entry {
    id: u64,
    session: AgentSession,
}

/// Sessions by ascending number, each number once.
#[derive(Clone, Debug)]
pub struct SessionTable {
    entries: Vec<Entry>,
}

/// The place of a session's entry.
spec fn place(entries: Seq<Entry>, id: u64) -> int {
    choose|i: int| 0 <= i < entries.len() && (#[trigger] entries[i]).id == id
}

/// The sessions that entries hold.
spec fn held(entries: Seq<Entry>) -> Map<u64, SessionModel> {
    Map::new(
        |id: u64| exists|i: int| 0 <= i < entries.len() && (#[trigger] entries[i]).id == id,
        |id: u64| entries[place(entries, id)].session@,
    )
}

/// Whether numbers ascend.
spec fn ascending(entries: Seq<Entry>) -> bool {
    forall|i: int, j: int|
        0 <= i < j < entries.len() ==> (#[trigger] entries[i]).id < (#[trigger] entries[j]).id
}

/// What is held at a place is what the table holds under that number.
proof fn lemma_held(entries: Seq<Entry>, index: int)
    requires
        ascending(entries),
        0 <= index < entries.len(),
    ensures
        held(entries).contains_key(entries[index].id),
        held(entries)[entries[index].id] == entries[index].session@,
{
    let id = entries[index].id;
    assert(entries[index].id == id);
    let found = place(entries, id);
    assert(0 <= found < entries.len() && entries[found].id == id);
    if found < index {
        assert(entries[found].id < entries[index].id);
    } else if index < found {
        assert(entries[index].id < entries[found].id);
    }
}

impl View for SessionTable {
    type V = Map<u64, SessionModel>;

    closed spec fn view(&self) -> Map<u64, SessionModel> {
        held(self.entries@)
    }
}

impl SessionTable {
    pub(crate) closed spec fn wf(self) -> bool {
        ascending(self.entries@)
    }

    pub(crate) fn new() -> (table: Self)
        ensures
            table.wf(),
            table@ == Map::<u64, SessionModel>::empty(),
    {
        let table = SessionTable { entries: Vec::new() };
        assert(table@ =~= Map::empty());
        table
    }

    /// The place of the first entry whose number is not below the wanted one.
    fn slot(&self, id: u64) -> (slot: usize)
        requires
            self.wf(),
        ensures
            slot <= self.entries@.len(),
            forall|i: int| 0 <= i < slot ==> (#[trigger] self.entries@[i]).id < id,
            forall|i: int| slot <= i < self.entries@.len() ==> (#[trigger] self.entries@[i]).id >= id,
            self@.contains_key(id) == (slot < self.entries@.len() && self.entries@[slot as int].id
                == id),
    {
        let mut slot: usize = 0;
        while slot < self.entries.len() && self.entries[slot].id < id
            invariant
                slot <= self.entries@.len(),
                self.wf(),
                forall|i: int| 0 <= i < slot ==> (#[trigger] self.entries@[i]).id < id,
            decreases self.entries.len() - slot,
        {
            slot = slot + 1;
        }
        proof {
            assert forall|i: int| slot <= i < self.entries@.len() implies (
            #[trigger] self.entries@[i]).id >= id by {
                if i > slot {
                    assert(self.entries@[slot as int].id < self.entries@[i].id);
                }
            }
            if slot < self.entries@.len() && self.entries@[slot as int].id == id {
                lemma_held(self.entries@, slot as int);
            }
            if self@.contains_key(id) {
                let i = choose|i: int|
                    0 <= i < self.entries@.len() && (#[trigger] self.entries@[i]).id == id;
                assert(i >= slot);
                if i > slot {
                    assert(self.entries@[slot as int].id < self.entries@[i].id);
                }
            }
        }
        slot
    }

    pub(crate) fn get(&self, session: SessionId) -> (found: Option<&AgentSession>)
        requires
            self.wf(),
        ensures
            match found {
                Some(found) => self@.contains_key(session.0) && found@ == self@[session.0],
                None => !self@.contains_key(session.0),
            },
    {
        let slot = self.slot(session.0);
        if slot < self.entries.len() && self.entries[slot].id == session.0 {
            proof {
                lemma_held(self.entries@, slot as int);
            }
            Some(&self.entries[slot].session)
        } else {
            None
        }
    }

    pub(crate) fn is_empty(&self) -> (empty: bool)
        requires
            self.wf(),
        ensures
            empty == (self@ == Map::<u64, SessionModel>::empty()),
    {
        proof {
            if self.entries@.len() > 0 {
                lemma_held(self.entries@, 0);
            } else {
                assert(self@ =~= Map::empty());
            }
        }
        self.entries.len() == 0
    }

    pub(crate) fn list(&self) -> (list: Vec<(SessionId, &AgentSession)>)
        requires
            self.wf(),
        ensures
            forall|i: int, j: int|
                0 <= i < j < list@.len() ==> (#[trigger] list@[i]).0.0 < (#[trigger] list@[j]).0.0,
            forall|i: int|
                0 <= i < list@.len() ==> self@.contains_key((#[trigger] list@[i]).0.0)
                    && list@[i].1@ == self@[list@[i].0.0],
            forall|id: u64| #[trigger]
                self@.contains_key(id) ==> exists|i: int|
                    0 <= i < list@.len() && (#[trigger] list@[i]).0.0 == id,
    {
        let mut list: Vec<(SessionId, &AgentSession)> = Vec::new();
        let mut index: usize = 0;
        while index < self.entries.len()
            invariant
                index <= self.entries.len(),
                list@.len() == index,
                self.wf(),
                forall|i: int|
                    0 <= i < index ==> (#[trigger] list@[i]).0.0 == self.entries@[i].id
                        && list@[i].1@ == self.entries@[i].session@,
            decreases self.entries.len() - index,
        {
            let entry = &self.entries[index];
            list.push((SessionId(entry.id), &entry.session));
            index = index + 1;
        }
        proof {
            assert forall|i: int, j: int| 0 <= i < j < list@.len() implies (
            #[trigger] list@[i]).0.0 < (#[trigger] list@[j]).0.0 by {
                assert(self.entries@[i].id < self.entries@[j].id);
            }
            assert forall|i: int| 0 <= i < list@.len() implies self@.contains_key(
                (#[trigger] list@[i]).0.0,
            ) && list@[i].1@ == self@[list@[i].0.0] by {
                lemma_held(self.entries@, i);
            }
            assert forall|id: u64| #[trigger] self@.contains_key(id) implies exists|i: int|
                0 <= i < list@.len() && (#[trigger] list@[i]).0.0 == id by {
                let i = place(self.entries@, id);
                assert(list@[i].0.0 == id);
            }
        }
        list
    }

    pub(crate) fn insert(&mut self, session: SessionId, state: AgentSession)
        requires
            old(self).wf(),
        ensures
            final(self).wf(),
            final(self)@ == old(self)@.insert(session.0, state@),
    {
        let ghost before = self.entries@;
        let slot = self.slot(session.0);
        let entry = Entry { id: session.0, session: state };
        if slot < self.entries.len() && self.entries[slot].id == session.0 {
            self.entries.set(slot, entry);
            assert(self.entries@ == before.update(slot as int, entry));
        } else {
            self.entries.insert(slot, entry);
            assert(self.entries@ == before.insert(slot as int, entry));
            proof {
                assert forall|i: int, j: int| 0 <= i < j < self.entries@.len() implies (
                #[trigger] self.entries@[i]).id < (#[trigger] self.entries@[j]).id by {
                    let left = if i < slot {
                        i
                    } else {
                        i - 1
                    };
                    let right = if j < slot {
                        j
                    } else {
                        j - 1
                    };
                    if i != slot && j != slot {
                        assert(before[left].id < before[right].id);
                    } else if i == slot {
                        assert(before[right].id >= session.0);
                    } else {
                        assert(before[left].id < session.0);
                    }
                }
            }
        }
        proof {
            let after = self.entries@;
            assert(ascending(after));
            let wanted = held(before).insert(session.0, entry.session@);
            assert(after[slot as int] == entry);
            lemma_held(after, slot as int);
            assert forall|id: u64|
                #![trigger held(after).dom().contains(id)]
                #![trigger wanted.dom().contains(id)]
                held(after).dom().contains(id) == wanted.dom().contains(id) && (held(
                    after,
                ).dom().contains(id) ==> held(after)[id] == wanted[id]) by {
                if held(after).contains_key(id) && id != session.0 {
                    let i = place(after, id);
                    let j = if after.len() == before.len() || i < slot {
                        i
                    } else {
                        i - 1
                    };
                    assert(before[j] == after[i]);
                    lemma_held(after, i);
                    lemma_held(before, j);
                }
                if held(before).contains_key(id) && id != session.0 {
                    let j = place(before, id);
                    let i = if after.len() == before.len() || j < slot {
                        j
                    } else {
                        j + 1
                    };
                    assert(after[i] == before[j]);
                    lemma_held(after, i);
                }
            }
            assert(held(after) =~= wanted);
        }
    }

    pub(crate) fn remove(&mut self, session: SessionId) -> (removed: bool)
        requires
            old(self).wf(),
        ensures
            final(self).wf(),
            removed == old(self)@.contains_key(session.0),
            final(self)@ == old(self)@.remove(session.0),
    {
        let ghost before = self.entries@;
        let slot = self.slot(session.0);
        if slot < self.entries.len() && self.entries[slot].id == session.0 {
            let _ = self.entries.remove(slot);
            proof {
                let after = self.entries@;
                assert(after == before.remove(slot as int));
                assert forall|i: int, j: int| 0 <= i < j < after.len() implies (
                #[trigger] after[i]).id < (#[trigger] after[j]).id by {
                    let left = if i < slot {
                        i
                    } else {
                        i + 1
                    };
                    let right = if j < slot {
                        j
                    } else {
                        j + 1
                    };
                    assert(before[left].id < before[right].id);
                }
                let wanted = held(before).remove(session.0);
                assert forall|id: u64|
                    #![trigger held(after).dom().contains(id)]
                    #![trigger wanted.dom().contains(id)]
                    held(after).dom().contains(id) == wanted.dom().contains(id) && (held(
                        after,
                    ).dom().contains(id) ==> held(after)[id] == wanted[id]) by {
                    if held(after).contains_key(id) {
                        let i = place(after, id);
                        let j = if i < slot {
                            i
                        } else {
                            i + 1
                        };
                        assert(before[j] == after[i]);
                        lemma_held(after, i);
                        lemma_held(before, j);
                        if j < slot {
                            assert(before[j].id < before[slot as int].id);
                        } else {
                            assert(before[slot as int].id < before[j].id);
                        }
                    }
                    if held(before).contains_key(id) && id != session.0 {
                        let j = place(before, id);
                        let i = if j < slot {
                            j
                        } else {
                            j - 1
                        };
                        assert(after[i] == before[j]);
                        lemma_held(after, i);
                    }
                }
                assert(held(after) =~= wanted);
            }
            true
        } else {
            assert(self@.remove(session.0) =~= self@);
            false
        }
    }

    pub(crate) fn set_status(&mut self, session: SessionId, status: SessionStatus) -> (found: bool)
        requires
            old(self).wf(),
        ensures
            final(self).wf(),
            found == old(self)@.contains_key(session.0),
            final(self)@ == (if found {
                old(self)@.insert(
                    session.0,
                    SessionModel { status, ..old(self)@[session.0] },
                )
            } else {
                old(self)@
            }),
    {
        let ghost before = self.entries@;
        let slot = self.slot(session.0);
        if slot < self.entries.len() && self.entries[slot].id == session.0 {
            proof {
                lemma_held(before, slot as int);
            }
            let entry = &mut self.entries[slot];
            entry.session.set_status(status);
            proof {
                let after = self.entries@;
                lemma_same_numbers(before, after);
                let wanted = held(before).insert(
                    session.0,
                    SessionModel { status, ..held(before)[session.0] },
                );
                assert forall|id: u64| held(after).contains_key(id) implies held(after)[id]
                    == wanted[id] by {
                    let i = place(after, id);
                    lemma_held(after, i);
                    lemma_held(before, i);
                    if i < slot {
                        assert(after[i].id < after[slot as int].id);
                    } else if slot < i {
                        assert(after[slot as int].id < after[i].id);
                    }
                }
                assert(held(after) =~= wanted);
            }
            true
        } else {
            false
        }
    }

    pub(crate) fn observe<F: Fn(SessionId) -> bool>(&mut self, client: ClientId, in_scope: &F)
        requires
            old(self).wf(),
            forall|session: SessionId| #[trigger] call_requires(*in_scope, (session,)),
        ensures
            final(self).wf(),
            AgentModel::observed_by(old(self)@, final(self)@, client, *in_scope),
    {
        let ghost before = self.entries@;
        let mut index: usize = 0;
        while index < self.entries.len()
            invariant
                index <= self.entries.len(),
                self.entries@.len() == before.len(),
                forall|session: SessionId| #[trigger] call_requires(*in_scope, (session,)),
                forall|i: int|
                    0 <= i < before.len() ==> (#[trigger] self.entries@[i]).id == before[i].id,
                forall|i: int|
                    index <= i < before.len() ==> (#[trigger] self.entries@[i]).session
                        == before[i].session,
                forall|i: int|
                    0 <= i < index ==> (#[trigger] self.entries@[i]).session@.observes(
                        before[i].session@,
                        SessionId(before[i].id),
                        client,
                        *in_scope,
                    ),
            decreases self.entries.len() - index,
        {
            let ghost current = self.entries@;
            let id = self.entries[index].id;
            let member = in_scope(SessionId(id));
            let entry = &mut self.entries[index];
            entry.session.observe(client, member);
            proof {
                assert(call_ensures(*in_scope, (SessionId(before[index as int].id),), member));
                assert forall|i: int| 0 <= i < before.len() && i != index implies (
                #[trigger] self.entries@[i]) == current[i] by {}
            }
            index = index + 1;
        }
        proof {
            let after = self.entries@;
            lemma_same_numbers(before, after);
            assert forall|id: u64| #[trigger] held(after).contains_key(id) implies held(
                after,
            )[id].observes(held(before)[id], SessionId(id), client, *in_scope) by {
                let i = place(after, id);
                lemma_held(after, i);
                lemma_held(before, i);
                assert(self.entries@[i].id == before[i].id);
            }
            assert(held(after).dom() =~= held(before).dom());
        }
    }

    pub(crate) fn forget(&mut self, client: ClientId)
        requires
            old(self).wf(),
        ensures
            final(self).wf(),
            final(self)@ == AgentModel::forgotten_by(old(self)@, client),
    {
        let ghost before = self.entries@;
        let mut index: usize = 0;
        while index < self.entries.len()
            invariant
                index <= self.entries.len(),
                self.entries@.len() == before.len(),
                forall|i: int|
                    0 <= i < before.len() ==> (#[trigger] self.entries@[i]).id == before[i].id,
                forall|i: int|
                    index <= i < before.len() ==> (#[trigger] self.entries@[i]).session
                        == before[i].session,
                forall|i: int|
                    0 <= i < index ==> (#[trigger] self.entries@[i]).session@
                        == before[i].session@.forgetting(client),
            decreases self.entries.len() - index,
        {
            let ghost current = self.entries@;
            let entry = &mut self.entries[index];
            entry.session.forget(client);
            proof {
                assert forall|i: int| 0 <= i < before.len() && i != index implies (
                #[trigger] self.entries@[i]) == current[i] by {}
            }
            index = index + 1;
        }
        proof {
            let after = self.entries@;
            lemma_same_numbers(before, after);
            let wanted = AgentModel::forgotten_by(held(before), client);
            assert forall|id: u64| held(after).contains_key(id) implies held(after)[id]
                == wanted[id] by {
                let i = place(after, id);
                lemma_held(after, i);
                lemma_held(before, i);
                assert(self.entries@[i].id == before[i].id);
            }
            assert(held(after) =~= wanted);
        }
    }
}

/// Entries with the same numbers hold sessions under the same numbers.
proof fn lemma_same_numbers(before: Seq<Entry>, after: Seq<Entry>)
    requires
        ascending(before),
        after.len() == before.len(),
        forall|i: int| 0 <= i < before.len() ==> (#[trigger] after[i]).id == before[i].id,
    ensures
        ascending(after),
        held(after).dom() == held(before).dom(),
{
    assert forall|i: int, j: int| 0 <= i < j < after.len() implies (#[trigger] after[i]).id < (
    #[trigger] after[j]).id by {
        assert(before[i].id < before[j].id);
    }
    assert forall|id: u64| held(after).contains_key(id) == held(before).contains_key(id) by {
        if held(after).contains_key(id) {
            let i = place(after, id);
            assert(after[i].id == id);
            lemma_held(before, i);
        }
        if held(before).contains_key(id) {
            let i = place(before, id);
            assert(before[i].id == id);
            assert(after[i].id == id);
            lemma_held(after, i);
        }
    }
    assert(held(after).dom() =~= held(before).dom());
}

} // verus!
