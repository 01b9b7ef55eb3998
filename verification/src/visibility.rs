//! How visible a client is to agent sessions.

use vstd::prelude::*;

verus! {

/// How visible a client is to agent sessions.
#[derive(Clone, Copy, Debug, PartialEq, Eq, Structural)]
pub enum AgentVisibility {
    /// Ordinary: subject only to the session's grant and scope.
    Visible,
    /// Present with geometry but no title; capture and input are refused.
    Redacted,
    /// Absent from every response and event. Acting on its identity returns
    /// the same answer as a client that never existed.
    Hidden,
}

impl Default for AgentVisibility {
    /// Ordinary visibility.
    fn default() -> (visibility: Self)
        ensures
            visibility == AgentVisibility::Visible,
    {
        AgentVisibility::Visible
    }
}

} // verus!
