//! Agent-seat policy.
//!
//! Everything an agent session is allowed to know or do is decided here: capability evaluation,
//! application scope, sensitive-client visibility, snapshot assembly, and the counters that make
//! a pushed world model trustworthy.
//!
//! Two invariants shape the code. A hidden client is indistinguishable from a client that never
//! existed, in every answer and every error. And no capability implies another: a session holds
//! exactly the atoms it was granted, and each request is checked against all of the atoms it
//! needs.

pub mod session_table;
pub mod world;

use std::collections::{BTreeMap, BTreeSet};
use vstd::prelude::*;

use crate::agent::session_table::SessionTable;
use crate::capability::{Capability, CapabilitySet};
use crate::ids::ClientId;
use crate::visibility::AgentVisibility;

verus! {

broadcast use {vstd::std_specs::btree::group_btree_axioms, vstd::laws_cmp::group_laws_cmp};

/// The identity of one agent session.
#[derive(Clone, Copy, Debug, PartialEq, Eq, PartialOrd, Ord, Hash, Structural)]
pub struct SessionId(pub u64);

impl SessionId {
    /// Wraps a session number.
    #[must_use]
    pub fn new(raw: u64) -> (id: Self)
        ensures
            id == SessionId(raw),
    {
        SessionId(raw)
    }

    /// Returns the session number.
    #[must_use]
    pub fn raw(self) -> (raw: u64)
        ensures
            raw == self.0,
    {
        self.0
    }
}

/// How often a client has changed since it was first observed.
#[derive(Clone, Copy, Debug, PartialEq, Eq, PartialOrd, Ord, Hash, Structural)]
pub struct Generation(pub u64);

impl Generation {
    /// Wraps a generation number.
    #[must_use]
    pub fn new(raw: u64) -> (generation: Self)
        ensures
            generation == Generation(raw),
    {
        Generation(raw)
    }

    /// The generation of a client that has not changed.
    #[must_use]
    pub fn first() -> (generation: Self)
        ensures
            generation == Generation(1),
    {
        Generation(1)
    }

    /// The generation after this one.
    #[must_use]
    pub fn next(self) -> (generation: Self)
        requires
            self.0 < u64::MAX,
        ensures
            generation == Generation((self.0 + 1) as u64),
    {
        Generation(self.0 + 1)
    }
}

/// A point in the order of everything that sessions are told.
#[derive(Clone, Copy, Debug, PartialEq, Eq, PartialOrd, Ord, Hash, Structural)]
pub struct Sequence(pub u64);

impl Default for Sequence {
    /// Before anything was told.
    fn default() -> (sequence: Self)
        ensures
            sequence == Sequence(0),
    {
        Sequence(0)
    }
}

impl Sequence {
    /// Wraps a sequence number.
    #[must_use]
    pub fn new(raw: u64) -> (sequence: Self)
        ensures
            sequence == Sequence(raw),
    {
        Sequence(raw)
    }

    /// The point after this one.
    #[must_use]
    pub fn next(self) -> (sequence: Self)
        requires
            self.0 < u64::MAX,
        ensures
            sequence == Sequence((self.0 + 1) as u64),
    {
        Sequence(self.0 + 1)
    }
}

/// Why a call is refused.
#[derive(Clone, Copy, Debug, PartialEq, Eq, Structural)]
pub enum ErrorCode {
    /// The session is closed, or its grant was withdrawn.
    SessionRevoked,
    /// The human froze the session.
    SessionFrozen,
    /// The session lacks a capability.
    Denied,
}

/// The structured refusal of a call.
#[derive(Clone, Copy, Debug, PartialEq, Eq)]
pub struct ProtocolError {
    /// Why the call is refused.
    pub code: ErrorCode,
    /// The same for a human reader.
    pub message: &'static str,
}

/// What a grant allows.
pub ghost struct GrantModel {
    /// The atoms held.
    pub capabilities: Set<Capability>,
    /// The raw identifiers of the clients in scope, where a scope restricts the grant.
    pub scope: Option<Set<u64>>,
}

impl GrantModel {
    /// Whether a client is inside the scope.
    pub open spec fn covers(self, client: ClientId) -> bool {
        match self.scope {
            Some(scope) => scope.contains(client.0),
            None => true,
        }
    }

    /// The grant once a client matches its scope.
    pub open spec fn including(self, client: ClientId) -> GrantModel {
        match self.scope {
            Some(scope) => GrantModel { scope: Some(scope.insert(client.0)), ..self },
            None => self,
        }
    }

    /// The grant once a client is no longer managed.
    pub open spec fn forgetting(self, client: ClientId) -> GrantModel {
        match self.scope {
            Some(scope) => GrantModel { scope: Some(scope.remove(client.0)), ..self },
            None => self,
        }
    }
}

/// What one session was granted.
#[derive(Clone, Debug, PartialEq, Eq)]
pub struct Grant {
    capabilities: CapabilitySet,
    scope: Option<BTreeSet<u64>>,
}

impl View for Grant {
    type V = GrantModel;

    closed spec fn view(&self) -> GrantModel {
        GrantModel {
            capabilities: self.capabilities@,
            scope: match self.scope {
                Some(scope) => Some(scope@),
                None => None,
            },
        }
    }
}

impl Default for Grant {
    /// The empty grant.
    fn default() -> (grant: Self)
        ensures
            grant@ == (GrantModel { capabilities: Set::empty(), scope: None }),
    {
        Grant::denied()
    }
}

impl Grant {
    /// Builds an unscoped grant.
    #[must_use]
    pub fn new(capabilities: CapabilitySet) -> (grant: Self)
        ensures
            grant@ == (GrantModel { capabilities: capabilities@, scope: None }),
    {
        Grant { capabilities, scope: None }
    }

    /// Builds a grant restricted to an application scope. Membership is
    /// decided by the backend when a client is managed, so scope evaluation
    /// and rule matching stay in one place.
    #[must_use]
    pub fn scoped(capabilities: CapabilitySet) -> (grant: Self)
        ensures
            grant@ == (GrantModel { capabilities: capabilities@, scope: Some(Set::empty()) }),
    {
        Grant { capabilities, scope: Some(BTreeSet::new()) }
    }

    /// The empty grant: a live session that may do nothing.
    #[must_use]
    pub fn denied() -> (grant: Self)
        ensures
            grant@ == (GrantModel { capabilities: Set::empty(), scope: None }),
    {
        Grant::new(CapabilitySet::empty())
    }

    /// Returns the atoms held.
    #[must_use]
    pub fn capabilities(&self) -> (capabilities: &CapabilitySet)
        ensures
            capabilities@ == self@.capabilities,
    {
        &self.capabilities
    }

    /// Returns whether an application scope restricts this grant.
    #[must_use]
    pub fn is_scoped(&self) -> (scoped: bool)
        ensures
            scoped == (self@.scope is Some),
    {
        self.scope.is_some()
    }

    /// Returns whether `client` is inside the scope.
    #[must_use]
    pub fn covers(&self, client: ClientId) -> (covered: bool)
        ensures
            covered == self@.covers(client),
    {
        match &self.scope {
            Some(scope) => scope.contains(&client.0),
            None => true,
        }
    }

    /// Records that `client` matches this grant's scope.
    pub fn include_client(&mut self, client: ClientId)
        ensures
            final(self)@ == old(self)@.including(client),
    {
        if let Some(scope) = &mut self.scope {
            scope.insert(client.0);
        }
    }

    fn forget(&mut self, client: ClientId)
        ensures
            final(self)@ == old(self)@.forgetting(client),
    {
        if let Some(scope) = &mut self.scope {
            scope.remove(&client.0);
        }
    }
}

/// Whether a session may still act.
#[derive(Clone, Copy, Debug, PartialEq, Eq, Structural)]
pub enum SessionStatus {
    /// Ordinary.
    Active,
    /// Frozen by the human. Freezing is not revocation: the grant survives,
    /// and the human decides afterward whether the session resumes.
    Frozen,
    /// The grant was withdrawn.
    Revoked,
}

impl Default for SessionStatus {
    /// Ordinary.
    fn default() -> (status: Self)
        ensures
            status == SessionStatus::Active,
    {
        SessionStatus::Active
    }
}

/// What a session may do.
pub ghost struct SessionModel {
    pub grant: GrantModel,
    pub status: SessionStatus,
}

impl SessionModel {
    /// The session once a client was observed that may match its scope.
    pub open spec fn observing(self, client: ClientId, member: bool) -> SessionModel {
        if member {
            SessionModel { grant: self.grant.including(client), ..self }
        } else {
            self
        }
    }

    /// Whether a session came from another by an observed client, which it took into its scope
    /// if a test said so.
    pub open spec fn observes<F: Fn(SessionId) -> bool>(
        self,
        before: SessionModel,
        id: SessionId,
        client: ClientId,
        in_scope: F,
    ) -> bool {
        exists|member: bool| #[trigger]
            call_ensures(in_scope, (id,), member) && self == before.observing(client, member)
    }

    /// The session once a client is no longer managed.
    pub open spec fn forgetting(self, client: ClientId) -> SessionModel {
        SessionModel { grant: self.grant.forgetting(client), ..self }
    }
}

/// One agent session's policy state.
#[derive(Clone, Debug)]
pub struct AgentSession {
    grant: Grant,
    status: SessionStatus,
}

impl View for AgentSession {
    type V = SessionModel;

    closed spec fn view(&self) -> SessionModel {
        SessionModel { grant: self.grant@, status: self.status }
    }
}

impl AgentSession {
    /// Returns the session's grant.
    #[must_use]
    pub fn grant(&self) -> (grant: &Grant)
        ensures
            grant@ == self@.grant,
    {
        &self.grant
    }

    /// Returns the session's status.
    #[must_use]
    pub fn status(&self) -> (status: SessionStatus)
        ensures
            status == self@.status,
    {
        self.status
    }

    fn set_status(&mut self, status: SessionStatus)
        ensures
            final(self)@ == (SessionModel { status, ..old(self)@ }),
    {
        self.status = status;
    }

    fn observe(&mut self, client: ClientId, member: bool)
        ensures
            final(self)@ == old(self)@.observing(client, member),
    {
        if member {
            self.grant.include_client(client);
        }
    }

    fn forget(&mut self, client: ClientId)
        ensures
            final(self)@ == old(self)@.forgetting(client),
    {
        self.grant.forget(client);
    }
}

/// What every session may know and do.
pub ghost struct AgentModel {
    /// The open sessions by their numbers.
    pub sessions: Map<u64, SessionModel>,
    /// The configured visibility by the clients' raw identifiers.
    pub visibility: Map<u64, AgentVisibility>,
    /// The generations by the clients' raw identifiers.
    pub generations: Map<u64, Generation>,
    /// The current point in the order of everything that sessions are told.
    pub sequence: Sequence,
}

impl AgentModel {
    /// A client's visibility.
    pub open spec fn visibility_of(self, client: ClientId) -> AgentVisibility {
        if self.visibility.contains_key(client.0) {
            self.visibility[client.0]
        } else {
            AgentVisibility::Visible
        }
    }

    /// A client's generation.
    pub open spec fn generation_of(self, client: ClientId) -> Generation {
        if self.generations.contains_key(client.0) {
            self.generations[client.0]
        } else {
            Generation(1)
        }
    }

    /// The generation that a client gets when it changes.
    pub open spec fn touched(self, client: ClientId) -> Generation {
        if self.generations.contains_key(client.0) {
            Generation((self.generations[client.0].0 + 1) as u64)
        } else {
            Generation(1)
        }
    }

    /// Whether a session may perceive a client at all.
    pub open spec fn perceives(self, session: SessionId, client: ClientId) -> bool {
        &&& self.sessions.contains_key(session.0)
        &&& self.visibility_of(client) != AgentVisibility::Hidden
        &&& self.sessions[session.0].grant.covers(client)
    }

    /// How a call that needs atoms is answered.
    pub open spec fn answer(self, session: SessionId, required: Set<Capability>) -> Option<
        (ErrorCode, Seq<char>),
    > {
        if !self.sessions.contains_key(session.0) {
            Some((ErrorCode::SessionRevoked, "this session is closed"@))
        } else {
            match self.sessions[session.0].status {
                SessionStatus::Frozen => Some((ErrorCode::SessionFrozen, "this session is frozen"@)),
                SessionStatus::Revoked => Some(
                    (ErrorCode::SessionRevoked, "this session's grant was revoked"@),
                ),
                SessionStatus::Active => if required.subset_of(
                    self.sessions[session.0].grant.capabilities,
                ) {
                    None
                } else {
                    Some((ErrorCode::Denied, "this session was not granted that capability"@))
                },
            }
        }
    }

    /// Every session once a client was observed, where a session may take it into its scope.
    pub open spec fn observed_by<F: Fn(SessionId) -> bool>(
        before: Map<u64, SessionModel>,
        after: Map<u64, SessionModel>,
        client: ClientId,
        in_scope: F,
    ) -> bool {
        &&& after.dom() == before.dom()
        &&& forall|id: u64| #[trigger]
            after.contains_key(id) ==> after[id].observes(
                before[id],
                SessionId(id),
                client,
                in_scope,
            )
    }

    /// Every session once a client is no longer managed.
    pub open spec fn forgotten_by(sessions: Map<u64, SessionModel>, client: ClientId) -> Map<
        u64,
        SessionModel,
    > {
        sessions.map_values(|session: SessionModel| session.forgetting(client))
    }
}

/// Every agent session, and the counters their world models depend on.
#[derive(Clone, Debug)]
pub struct AgentState {
    sessions: SessionTable,
    visibility: BTreeMap<u64, AgentVisibility>,
    generations: BTreeMap<u64, Generation>,
    sequence: Sequence,
}

impl View for AgentState {
    type V = AgentModel;

    closed spec fn view(&self) -> AgentModel {
        AgentModel {
            sessions: self.sessions@,
            visibility: self.visibility@,
            generations: self.generations@,
            sequence: self.sequence,
        }
    }
}

impl Default for AgentState {
    /// No sessions.
    fn default() -> (state: Self)
        ensures
            state.wf(),
            state@ == (AgentModel {
                sessions: Map::empty(),
                visibility: Map::empty(),
                generations: Map::empty(),
                sequence: Sequence(0),
            }),
    {
        AgentState {
            sessions: SessionTable::new(),
            visibility: BTreeMap::new(),
            generations: BTreeMap::new(),
            sequence: Sequence::default(),
        }
    }
}

impl AgentState {
    /// The sessions are listed in order, each once.
    pub closed spec fn wf(self) -> bool {
        self.sessions.wf()
    }

    /// Returns an empty state.
    #[must_use]
    pub fn new() -> (state: Self)
        ensures
            state.wf(),
            state@ == (AgentModel {
                sessions: Map::empty(),
                visibility: Map::empty(),
                generations: Map::empty(),
                sequence: Sequence(0),
            }),
    {
        AgentState::default()
    }

    /// Returns the manager's current sequence number.
    #[must_use]
    pub fn sequence(&self) -> (sequence: Sequence)
        ensures
            sequence == self@.sequence,
    {
        self.sequence
    }

    /// Advances and returns the sequence. Every snapshot and every event is
    /// stamped from this one counter, so an agent can order them absolutely.
    pub fn advance(&mut self) -> (sequence: Sequence)
        requires
            old(self).wf(),
            old(self)@.sequence.0 < u64::MAX,
        ensures
            final(self).wf(),
            sequence == Sequence((old(self)@.sequence.0 + 1) as u64),
            final(self)@ == (AgentModel { sequence, ..old(self)@ }),
    {
        self.sequence = self.sequence.next();
        self.sequence
    }

    /// Opens a session with an already-decided grant.
    pub fn open(&mut self, session: SessionId, grant: Grant)
        requires
            old(self).wf(),
        ensures
            final(self).wf(),
            final(self)@ == (AgentModel {
                sessions: old(self)@.sessions.insert(
                    session.0,
                    SessionModel { grant: grant@, status: SessionStatus::Active },
                ),
                ..old(self)@
            }),
    {
        self.sessions.insert(session, AgentSession { grant, status: SessionStatus::Active });
    }

    /// Ends a session.
    pub fn close(&mut self, session: SessionId) -> (closed: bool)
        requires
            old(self).wf(),
        ensures
            final(self).wf(),
            closed == old(self)@.sessions.contains_key(session.0),
            final(self)@ == (AgentModel {
                sessions: old(self)@.sessions.remove(session.0),
                ..old(self)@
            }),
    {
        self.sessions.remove(session)
    }

    /// Returns a session.
    #[must_use]
    pub fn session(&self, session: SessionId) -> (found: Option<&AgentSession>)
        requires
            self.wf(),
        ensures
            match found {
                Some(found) => self@.sessions.contains_key(session.0) && found@
                    == self@.sessions[session.0],
                None => !self@.sessions.contains_key(session.0),
            },
    {
        self.sessions.get(session)
    }

    /// Returns every open session, by ascending number.
    #[must_use]
    pub fn sessions(&self) -> (list: Vec<(SessionId, &AgentSession)>)
        requires
            self.wf(),
        ensures
            forall|i: int, j: int|
                0 <= i < j < list@.len() ==> (#[trigger] list@[i]).0.0 < (#[trigger] list@[j]).0.0,
            forall|i: int|
                0 <= i < list@.len() ==> self@.sessions.contains_key((#[trigger] list@[i]).0.0)
                    && list@[i].1@ == self@.sessions[list@[i].0.0],
            forall|id: u64| #[trigger]
                self@.sessions.contains_key(id) ==> exists|i: int|
                    0 <= i < list@.len() && (#[trigger] list@[i]).0.0 == id,
    {
        self.sessions.list()
    }

    /// Returns whether no session is open.
    #[must_use]
    pub fn is_empty(&self) -> (empty: bool)
        requires
            self.wf(),
        ensures
            empty == (self@.sessions == Map::<u64, SessionModel>::empty()),
    {
        self.sessions.is_empty()
    }

    /// Sets a session's status.
    pub fn set_status(&mut self, session: SessionId, status: SessionStatus) -> (found: bool)
        requires
            old(self).wf(),
        ensures
            final(self).wf(),
            found == old(self)@.sessions.contains_key(session.0),
            final(self)@ == (if found {
                AgentModel {
                    sessions: old(self)@.sessions.insert(
                        session.0,
                        SessionModel { status, ..old(self)@.sessions[session.0] },
                    ),
                    ..old(self)@
                }
            } else {
                old(self)@
            }),
    {
        self.sessions.set_status(session, status)
    }

    /// Records a client's configured visibility and its scope membership in
    /// every session whose grant is scoped to it.
    pub fn observe_client<F: Fn(SessionId) -> bool>(
        &mut self,
        client: ClientId,
        visibility: AgentVisibility,
        in_scope: &F,
    )
        requires
            old(self).wf(),
            forall|session: SessionId| #[trigger] call_requires(*in_scope, (session,)),
        ensures
            final(self).wf(),
            final(self)@.sequence == old(self)@.sequence,
            final(self)@.visibility == old(self)@.visibility.insert(client.0, visibility),
            final(self)@.generations == old(self)@.generations.insert(
                client.0,
                old(self)@.generation_of(client),
            ),
            AgentModel::observed_by(
                old(self)@.sessions,
                final(self)@.sessions,
                client,
                *in_scope,
            ),
    {
        self.visibility.insert(client.0, visibility);
        if !self.generations.contains_key(&client.0) {
            self.generations.insert(client.0, Generation::first());
        }
        assert(self.generations@ =~= old(self)@.generations.insert(
            client.0,
            old(self)@.generation_of(client),
        ));
        self.sessions.observe(client, in_scope);
    }

    /// Forgets a client that is no longer managed.
    pub fn forget_client(&mut self, client: ClientId)
        requires
            old(self).wf(),
        ensures
            final(self).wf(),
            final(self)@ == (AgentModel {
                sessions: AgentModel::forgotten_by(old(self)@.sessions, client),
                visibility: old(self)@.visibility.remove(client.0),
                generations: old(self)@.generations.remove(client.0),
                ..old(self)@
            }),
    {
        self.visibility.remove(&client.0);
        self.generations.remove(&client.0);
        self.sessions.forget(client);
    }

    /// Returns a client's configured visibility.
    #[must_use]
    pub fn visibility(&self, client: ClientId) -> (visibility: AgentVisibility)
        ensures
            visibility == self@.visibility_of(client),
    {
        match self.visibility.get(&client.0) {
            Some(visibility) => *visibility,
            None => AgentVisibility::Visible,
        }
    }

    /// Returns a client's current generation.
    #[must_use]
    pub fn generation(&self, client: ClientId) -> (generation: Generation)
        ensures
            generation == self@.generation_of(client),
    {
        match self.generations.get(&client.0) {
            Some(generation) => *generation,
            None => Generation::first(),
        }
    }

    /// Bumps a client's generation and advances the sequence, returning both.
    pub fn touch(&mut self, client: ClientId) -> (stamp: (Generation, Sequence))
        requires
            old(self).wf(),
            old(self)@.sequence.0 < u64::MAX,
            old(self)@.generation_of(client).0 < u64::MAX,
        ensures
            final(self).wf(),
            stamp.0 == old(self)@.touched(client),
            stamp.1 == Sequence((old(self)@.sequence.0 + 1) as u64),
            final(self)@ == (AgentModel {
                generations: old(self)@.generations.insert(client.0, stamp.0),
                sequence: stamp.1,
                ..old(self)@
            }),
    {
        let generation = match self.generations.get(&client.0) {
            Some(generation) => generation.next(),
            None => Generation::first(),
        };
        self.generations.insert(client.0, generation);
        (generation, self.advance())
    }

    /// Returns whether a session may perceive a client at all.
    ///
    /// Hidden clients and out-of-scope clients are equally absent. Callers
    /// must answer requests naming them exactly as they answer requests
    /// naming a client that never existed.
    #[must_use]
    pub fn perceives(&self, session: SessionId, client: ClientId) -> (perceived: bool)
        requires
            self.wf(),
        ensures
            perceived == self@.perceives(session, client),
    {
        match self.sessions.get(session) {
            Some(state) => self.visibility(client) != AgentVisibility::Hidden && state.grant.covers(
                client,
            ),
            None => false,
        }
    }

    /// Checks a call, given the atoms that it needs, against a session's grant and status.
    ///
    /// # Errors
    ///
    /// Returns the structured refusal to send back: the session is gone,
    /// frozen, revoked, or missing at least one required capability.
    pub fn authorize(&self, session: SessionId, required: &CapabilitySet) -> (outcome: Result<
        (),
        ProtocolError,
    >)
        requires
            self.wf(),
        ensures
            match outcome {
                Ok(_) => self@.answer(session, required@) is None,
                Err(error) => self@.answer(session, required@) == Some((error.code, error.message@)),
            },
    {
        let state = match self.sessions.get(session) {
            Some(state) => state,
            None => return Err(
                ProtocolError {
                    code: ErrorCode::SessionRevoked,
                    message: "this session is closed",
                },
            ),
        };
        match state.status {
            SessionStatus::Active => {},
            SessionStatus::Frozen => return Err(
                ProtocolError {
                    code: ErrorCode::SessionFrozen,
                    message: "this session is frozen",
                },
            ),
            SessionStatus::Revoked => return Err(
                ProtocolError {
                    code: ErrorCode::SessionRevoked,
                    message: "this session's grant was revoked",
                },
            ),
        }
        if required.is_subset_of(&state.grant.capabilities) {
            Ok(())
        } else {
            Err(
                ProtocolError {
                    code: ErrorCode::Denied,
                    message: "this session was not granted that capability",
                },
            )
        }
    }
}

/// No capability implies another: an active session may make a call that needs one atom exactly
/// if it was granted that atom.
pub proof fn law_no_capability_implies_another(
    state: AgentModel,
    session: SessionId,
    atom: Capability,
)
    requires
        state.sessions.contains_key(session.0),
        state.sessions[session.0].status == SessionStatus::Active,
    ensures
        (state.answer(session, Set::empty().insert(atom)) is None)
            == state.sessions[session.0].grant.capabilities.contains(atom),
{
    let required = Set::empty().insert(atom);
    assert(required.contains(atom));
}

/// Only an active session is ever answered, and a call that needs nothing more than an allowed
/// one is allowed.
pub proof fn law_every_required_atom_counts(
    state: AgentModel,
    session: SessionId,
    required: Set<Capability>,
    fewer: Set<Capability>,
)
    requires
        state.answer(session, required) is None,
        fewer.subset_of(required),
    ensures
        state.sessions.contains_key(session.0),
        state.sessions[session.0].status == SessionStatus::Active,
        state.answer(session, fewer) is None,
{
}

/// Freezing is not revocation: a session that is active again is answered as before.
pub proof fn law_thawing_restores_the_session(
    sessions: Map<u64, SessionModel>,
    session: SessionId,
    status: SessionStatus,
)
    requires
        sessions.contains_key(session.0),
        sessions[session.0].status == SessionStatus::Active,
    ensures
        ({
            let changed = sessions.insert(
                session.0,
                SessionModel { status, ..sessions[session.0] },
            );
            changed.insert(
                session.0,
                SessionModel { status: SessionStatus::Active, ..changed[session.0] },
            ) == sessions
        }),
{
    let changed = sessions.insert(session.0, SessionModel { status, ..sessions[session.0] });
    assert(changed.insert(
        session.0,
        SessionModel { status: SessionStatus::Active, ..changed[session.0] },
    ) =~= sessions);
}

/// A hidden client and a client outside the scope are equally absent.
pub proof fn law_hidden_and_out_of_scope_are_equally_absent(
    state: AgentModel,
    session: SessionId,
    client: ClientId,
)
    ensures
        state.visibility_of(client) == AgentVisibility::Hidden ==> !state.perceives(session, client),
        state.sessions.contains_key(session.0) && !state.sessions[session.0].grant.covers(client)
            ==> !state.perceives(session, client),
        !state.sessions.contains_key(session.0) ==> !state.perceives(session, client),
{
}

/// A forgotten client is outside every scope, and nothing is remembered of its visibility.
pub proof fn law_forgotten_clients_leave_every_scope(
    state: AgentModel,
    session: SessionId,
    client: ClientId,
)
    requires
        state.sessions.contains_key(session.0),
    ensures
        ({
            let after = AgentModel {
                sessions: AgentModel::forgotten_by(state.sessions, client),
                visibility: state.visibility.remove(client.0),
                generations: state.generations.remove(client.0),
                ..state
            };
            &&& after.visibility_of(client) == AgentVisibility::Visible
            &&& after.generation_of(client) == Generation(1)
            &&& after.perceives(session, client) == (state.sessions[session.0].grant.scope is None)
        }),
{
}

} // verus!
