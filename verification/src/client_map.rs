//! Managed clients by raw identifier.

use std::collections::BTreeMap;
use vstd::prelude::*;

use crate::ids::ClientId;
use crate::policy::Client;

verus! {

broadcast use {vstd::std_specs::btree::group_btree_axioms, vstd::laws_cmp::group_laws_cmp};

/// A map from raw identifiers to client state.
#[derive(Clone, Debug)]
pub struct ClientMap {
    entries: BTreeMap<u64, Client>,
}

impl View for ClientMap {
    type V = Map<u64, Client>;

    closed spec fn view(&self) -> Map<u64, Client> {
        self.entries@
    }
}

impl ClientMap {
    pub(crate) fn new() -> (map: Self)
        ensures
            map@ == Map::<u64, Client>::empty(),
    {
        Self { entries: BTreeMap::new() }
    }

    pub(crate) fn get(&self, id: ClientId) -> (client: Option<&Client>)
        ensures
            client == (if self@.contains_key(id.0) {
                Some(&self@[id.0])
            } else {
                None
            }),
    {
        self.entries.get(&id.0)
    }

    pub(crate) fn contains(&self, id: ClientId) -> (found: bool)
        ensures
            found == self@.contains_key(id.0),
    {
        self.entries.contains_key(&id.0)
    }

    pub(crate) fn insert(&mut self, id: ClientId, client: Client)
        ensures
            final(self)@ == old(self)@.insert(id.0, client),
    {
        self.entries.insert(id.0, client);
    }

    pub(crate) fn remove(&mut self, id: ClientId)
        ensures
            final(self)@ == old(self)@.remove(id.0),
    {
        self.entries.remove(&id.0);
    }
}

} // verus!
