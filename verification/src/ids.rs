//! Identifiers shared by every policy module.

use vstd::prelude::*;

verus! {

/// An opaque identifier assigned by a display-server backend.
#[derive(Clone, Copy, Debug, PartialEq, Eq, PartialOrd, Ord, Hash, Structural)]
pub struct ClientId(pub u64);

impl ClientId {
    /// Wraps a backend identifier.
    #[must_use]
    pub fn new(raw: u64) -> (id: Self)
        ensures
            id == ClientId(raw),
    {
        Self(raw)
    }

    /// Returns the backend identifier.
    #[must_use]
    pub fn raw(self) -> (raw: u64)
        ensures
            raw == self.0,
    {
        self.0
    }
}

/// A zero-based policy workspace identifier.
#[derive(Clone, Copy, Debug, PartialEq, Eq, PartialOrd, Ord, Hash, Structural)]
pub struct WorkspaceId(pub u32);

impl Default for WorkspaceId {
    /// The first workspace.
    fn default() -> (id: Self)
        ensures
            id == WorkspaceId(0),
    {
        Self(0)
    }
}

impl WorkspaceId {
    /// Creates a workspace identifier from a zero-based index.
    #[must_use]
    pub fn new(index: u32) -> (id: Self)
        ensures
            id == WorkspaceId(index),
    {
        Self(index)
    }

    /// Returns the zero-based workspace index.
    #[must_use]
    pub fn index(self) -> (index: u32)
        ensures
            index == self.0,
    {
        self.0
    }
}

/// An opaque output identifier assigned by a display-server backend.
#[derive(Clone, Copy, Debug, PartialEq, Eq, PartialOrd, Ord, Hash, Structural)]
pub struct OutputId(pub u64);

impl OutputId {
    /// Wraps a backend identifier.
    #[must_use]
    pub fn new(raw: u64) -> (id: Self)
        ensures
            id == OutputId(raw),
    {
        Self(raw)
    }

    /// Returns the backend identifier.
    #[must_use]
    pub fn raw(self) -> (raw: u64)
        ensures
            raw == self.0,
    {
        self.0
    }
}

} // verus!
