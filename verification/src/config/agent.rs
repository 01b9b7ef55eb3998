//! The agent section: whether an agent seat exists, and what it may do.
//!
//! Two rules shape this section. Nothing is enabled by default, and a stored grant binds to
//! verified peer identity, the executable behind the socket, never to a name that a connecting
//! process declares about itself.

use vstd::prelude::*;

use crate::capability::{Capability, CapabilitySet};
use crate::config::error;
use crate::config::error::{ConfigError, Fault};
use crate::config::keys::{KeyChord, KeyboardModifier};
use crate::config::rules::ApplicationMatcher;
use crate::config::settings;
use crate::path;
use crate::path::is_absolute;
use crate::text;
use crate::text::{byte_size, holds_char, same};

verus! {

/// Longest usable UNIX socket path, from the platform's `sockaddr_un`.
pub const MAX_AGENT_SOCKET_PATH: usize = 107;

/// Most grants one configuration may declare.
pub const MAX_AGENT_GRANTS: usize = 64;

/// Most desktop-entry identifiers one launch list may hold.
pub const MAX_LAUNCH_ENTRIES: usize = 256;

/// Longest accepted desktop-entry identifier.
pub const MAX_DESKTOP_ENTRY_LEN: usize = 256;

/// Longest accepted human-suppression window.
pub const MAX_SUPPRESSION_MS: u32 = 60_000;

/// What happens when a companion connects without a stored grant.
#[derive(Clone, Copy, Debug, PartialEq, Eq, Structural)]
pub enum AgentPolicy {
    /// Refuse every capability. The session still completes its handshake, so
    /// a harness learns it was denied rather than hanging.
    Deny,
    /// Ask the human with the manager's own consent dialog.
    Ask,
}

impl Default for AgentPolicy {
    /// Refuse.
    fn default() -> (policy: Self)
        ensures
            policy == AgentPolicy::Deny,
    {
        AgentPolicy::Deny
    }
}

/// Which desktop entries an agent may start.
#[derive(Clone, Copy, Debug, PartialEq, Eq, Structural)]
pub enum LaunchPolicy {
    /// Launch nothing.
    Deny,
    /// Launch only the entries named in `allow`.
    AllowListed,
    /// Launch any installed entry except those named in `deny`.
    AllowInstalled,
}

impl Default for LaunchPolicy {
    /// Launch nothing.
    fn default() -> (policy: Self)
        ensures
            policy == LaunchPolicy::Deny,
    {
        LaunchPolicy::Deny
    }
}

impl LaunchPolicy {
    /// The configuration spelling.
    pub open spec fn name(self) -> Seq<char> {
        match self {
            LaunchPolicy::Deny => "deny"@,
            LaunchPolicy::AllowListed => "allow_listed"@,
            LaunchPolicy::AllowInstalled => "allow_installed"@,
        }
    }

    /// Returns the configuration spelling.
    #[must_use]
    pub fn as_str(self) -> (name: &'static str)
        ensures
            name@ == self.name(),
    {
        match self {
            LaunchPolicy::Deny => "deny",
            LaunchPolicy::AllowListed => "allow_listed",
            LaunchPolicy::AllowInstalled => "allow_installed",
        }
    }
}

/// Whether text is a desktop-entry identifier: a bounded name, never a path.
pub open spec fn entry_id(entry: Seq<char>) -> bool {
    &&& entry.len() > 0
    &&& text::size(entry) <= MAX_DESKTOP_ENTRY_LEN
    &&& !entry.contains('/')
    &&& !entry.contains('\0')
}

/// Returns whether text is a desktop-entry identifier.
pub fn is_desktop_entry_id(entry: &str) -> (r: bool)
    ensures
        r == entry_id(entry@),
{
    !entry.is_empty() && byte_size(entry) <= MAX_DESKTOP_ENTRY_LEN && !holds_char(entry, '/')
        && !holds_char(entry, '\0')
}

/// A capability written in configuration: either one atom or one consent
/// bundle standing for its atoms.
#[derive(Clone, Debug, PartialEq, Eq)]
pub enum GrantedCapability {
    /// A consent bundle, by its configured spelling and the atoms that it stands for.
    Bundle(String, CapabilitySet),
    /// A single atom, by its configured spelling.
    Atom(String, Capability),
}

impl GrantedCapability {
    /// The atoms that this entry grants.
    pub open spec fn granted(self) -> Set<Capability> {
        match self {
            GrantedCapability::Bundle(_, atoms) => atoms@,
            GrantedCapability::Atom(_, atom) => Set::empty().insert(atom),
        }
    }

    /// The configured spelling.
    pub open spec fn name(self) -> Seq<char> {
        match self {
            GrantedCapability::Bundle(name, _) => name@,
            GrantedCapability::Atom(name, _) => name@,
        }
    }

    /// Returns the atoms this entry grants.
    #[must_use]
    pub fn atoms(&self) -> (atoms: CapabilitySet)
        ensures
            atoms@ == self.granted(),
    {
        match self {
            GrantedCapability::Bundle(_, atoms) => atoms.clone(),
            GrantedCapability::Atom(_, atom) => CapabilitySet::empty().with(*atom),
        }
    }

    /// Returns the configured spelling.
    #[must_use]
    pub fn as_str(&self) -> (name: &str)
        ensures
            name@ == self.name(),
    {
        match self {
            GrantedCapability::Bundle(name, _) => name.as_str(),
            GrantedCapability::Atom(name, _) => name.as_str(),
        }
    }
}

/// The atoms that entries grant together.
pub open spec fn granted_atoms(entries: Seq<GrantedCapability>) -> Set<Capability>
    decreases entries.len(),
{
    if entries.len() == 0 {
        Set::empty()
    } else {
        granted_atoms(entries.drop_last()).union(entries.last().granted())
    }
}

/// One stored grant.
///
/// `executable` is the binding: the manager compares it against the executable
/// behind the connected socket, not against anything the peer says. On X11
/// this identification is informative rather than a hard boundary, since any
/// same-user process can bypass the manager entirely; it is enforced because
/// the Wayland backend makes it a real one.
#[derive(Clone, Debug, PartialEq, Eq)]
pub struct AgentGrant {
    /// Display text for consent and tracing. Never a matching key.
    pub label: String,
    /// Absolute path of the companion executable this grant belongs to.
    pub executable: String,
    /// User the companion must run as, when the grant should be narrower than
    /// the session's own user.
    pub uid: Option<u32>,
    /// Bundles and atoms this companion holds.
    pub capabilities: Vec<GrantedCapability>,
    /// Application scope. Out-of-scope clients are absent from responses and
    /// events, not merely inert.
    pub scope: Option<ApplicationMatcher>,
}

impl AgentGrant {
    /// Whether the grant applies to a peer.
    pub open spec fn applies(self, executable: Option<Seq<char>>, uid: u32) -> bool {
        &&& self.uid is Some ==> self.uid == Some(uid)
        &&& executable is Some
        &&& path::same_path(executable->Some_0, self.executable@)
    }

    /// The first thing wrong with the grant, given its one-based position.
    pub open spec fn fault(self, position: usize) -> Option<Fault> {
        if !path::absolute(self.executable@) {
            Some(Fault::AgentGrantExecutable(position))
        } else if self.capabilities@.len() == 0 {
            Some(Fault::AgentGrantWithoutCapabilities(position))
        } else {
            error::fault_when(
                self.scope is Some && (self.scope->Some_0.unset()
                    || self.scope->Some_0.has_empty_pattern()),
                Fault::EmptyAgentGrantScope(position),
            )
        }
    }

    /// Returns every atom this grant confers.
    #[must_use]
    pub fn capabilities(&self) -> (atoms: CapabilitySet)
        ensures
            atoms@ == granted_atoms(self.capabilities@),
    {
        let mut atoms = CapabilitySet::empty();
        let mut index: usize = 0;
        assert(self.capabilities@.take(0) =~= Seq::empty());
        while index < self.capabilities.len()
            invariant
                index <= self.capabilities.len(),
                atoms@ == granted_atoms(self.capabilities@.take(index as int)),
            decreases self.capabilities.len() - index,
        {
            assert(self.capabilities@.take(index + 1).drop_last() =~= self.capabilities@.take(
                index as int,
            ));
            let granted = self.capabilities[index].atoms();
            atoms = atoms.union(&granted);
            index = index + 1;
        }
        assert(self.capabilities@.take(index as int) =~= self.capabilities@);
        atoms
    }

    /// Returns whether this grant applies to a peer with `executable` and
    /// `uid`. A grant with no configured user applies to any user that can
    /// reach the socket, which the socket's own permissions already restrict
    /// to the session owner.
    #[must_use]
    pub fn matches_peer(&self, executable: Option<&str>, uid: u32) -> (matched: bool)
        ensures
            matched == self.applies(
                match executable {
                    Some(path) => Some(path@),
                    None => None,
                },
                uid,
            ),
    {
        if let Some(expected) = self.uid {
            if expected != uid {
                return false;
            }
        }
        match executable {
            Some(path) => path::is_same_path(path, self.executable.as_str()),
            None => false,
        }
    }

    fn validate(&self, position: usize) -> (outcome: Result<(), ConfigError>)
        ensures
            error::fault_in(outcome) == self.fault(position),
    {
        if !is_absolute(self.executable.as_str()) {
            return Err(ConfigError::AgentGrantExecutable(position));
        }
        if self.capabilities.len() == 0 {
            return Err(ConfigError::AgentGrantWithoutCapabilities(position));
        }
        if let Some(scope) = &self.scope {
            if scope.is_empty() || scope.holds_empty_pattern() {
                return Err(ConfigError::EmptyAgentGrantScope(position));
            }
        }
        Ok(())
    }
}

/// Launch policy for agent sessions.
#[derive(Clone, Debug, PartialEq, Eq)]
pub struct AgentLaunchConfig {
    /// Which entries may be started.
    pub policy: LaunchPolicy,
    /// Entries allowed under [`LaunchPolicy::AllowListed`].
    pub allow: Vec<String>,
    /// Entries refused under [`LaunchPolicy::AllowInstalled`].
    pub deny: Vec<String>,
    /// Whether user-installed entries are launchable at all. A desktop entry
    /// runs code, and a user-writable entry is the easiest thing on the system
    /// for an agent to have arranged to exist.
    pub user_entries: bool,
}

impl AgentLaunchConfig {
    /// Whether these are the values that nobox ships with.
    pub open spec fn is_standard(self) -> bool {
        &&& self.policy == LaunchPolicy::Deny
        &&& self.allow@.len() == 0
        &&& self.deny@.len() == 0
        &&& !self.user_entries
    }
}

impl Default for AgentLaunchConfig {
    /// Launch nothing.
    fn default() -> (launch: Self)
        ensures
            launch.is_standard(),
    {
        AgentLaunchConfig {
            policy: LaunchPolicy::Deny,
            allow: Vec::new(),
            deny: Vec::new(),
            user_entries: false,
        }
    }
}

/// Whether a text is in a list of strings.
pub(crate) fn lists(entries: &Vec<String>, wanted: &str) -> (r: bool)
    ensures
        r == text::lines_of(entries@).contains(wanted@),
{
    let ghost texts = text::lines_of(entries@);
    let mut index: usize = 0;
    while index < entries.len()
        invariant
            index <= entries.len(),
            texts == text::lines_of(entries@),
            forall|i: int| 0 <= i < index ==> texts[i] != wanted@,
        decreases entries.len() - index,
    {
        assert(texts[index as int] == entries@[index as int]@);
        if same(entries[index].as_str(), wanted) {
            return true;
        }
        index = index + 1;
    }
    false
}

/// The check of one launch entry: it is a desktop-entry identifier.
pub open spec fn launch_check(entries: Seq<Seq<char>>) -> spec_fn(int) -> Option<Fault> {
    |i: int| error::fault_when(!entry_id(entries[i]), Fault::InvalidLaunchEntry(entries[i]))
}

/// The first thing wrong with a launch list.
pub open spec fn launch_fault(entries: Seq<Seq<char>>) -> Option<Fault> {
    if entries.len() > MAX_LAUNCH_ENTRIES {
        Some(Fault::TooManyLaunchEntries(entries.len() as usize))
    } else {
        error::first_fault(entries.len(), launch_check(entries))
    }
}

fn validate_launch(entries: &Vec<String>) -> (outcome: Result<(), ConfigError>)
    ensures
        error::fault_in(outcome) == launch_fault(text::lines_of(entries@)),
{
    if entries.len() > MAX_LAUNCH_ENTRIES {
        return Err(ConfigError::TooManyLaunchEntries(entries.len()));
    }
    let ghost texts = text::lines_of(entries@);
    let ghost check = launch_check(texts);
    let mut index: usize = 0;
    while index < entries.len()
        invariant
            index <= entries.len() <= MAX_LAUNCH_ENTRIES,
            texts == text::lines_of(entries@),
            check == launch_check(texts),
            error::first_fault(index as nat, check) is None,
        decreases entries.len() - index,
    {
        let entry = &entries[index];
        assert(texts[index as int] == entry@);
        if !is_desktop_entry_id(entry.as_str()) {
            proof {
                assert(check(index as int) is Some);
                error::lemma_first_fault((index + 1) as nat, texts.len(), check);
            }
            return Err(ConfigError::InvalidLaunchEntry(entry.clone()));
        }
        assert(check(index as int) is None);
        index = index + 1;
    }
    Ok(())
}

impl AgentLaunchConfig {
    /// Whether an entry may be launched.
    pub open spec fn permits(self, entry: Seq<char>, user_installed: bool) -> bool {
        &&& user_installed ==> self.user_entries
        &&& match self.policy {
            LaunchPolicy::Deny => false,
            LaunchPolicy::AllowListed => text::lines_of(self.allow@).contains(entry),
            LaunchPolicy::AllowInstalled => !text::lines_of(self.deny@).contains(entry),
        }
    }

    /// Returns whether `entry` may be launched.
    #[must_use]
    pub fn allows(&self, entry: &str, user_installed: bool) -> (allowed: bool)
        ensures
            allowed == self.permits(entry@, user_installed),
    {
        if user_installed && !self.user_entries {
            return false;
        }
        match self.policy {
            LaunchPolicy::Deny => false,
            LaunchPolicy::AllowListed => lists(&self.allow, entry),
            LaunchPolicy::AllowInstalled => !lists(&self.deny, entry),
        }
    }
}

/// The agent section.
#[derive(Clone, Debug, PartialEq, Eq)]
pub struct AgentConfig {
    /// Whether the manager listens for agent companions at all. No socket is
    /// created, and no seat is advertised, while this is false.
    pub enabled: bool,
    /// Socket path override. Empty means the manager's default location.
    pub socket: String,
    /// What to do with a companion that has no stored grant.
    pub policy: AgentPolicy,
    /// Stored grants, evaluated in order; the first match wins.
    pub grants: Vec<AgentGrant>,
    /// Launch policy.
    pub launch: AgentLaunchConfig,
    /// How long human input keeps agent input out, in milliseconds. The human
    /// wins structurally: politeness is not delegated to the agent.
    pub suppression_ms: u32,
    /// Chord that freezes every agent session at once. It is handled in the
    /// manager's own input path ahead of all agent traffic, so it works while
    /// an agent is flooding input.
    pub kill_chord: KeyChord,
}

impl AgentConfig {
    /// Whether these are the values that nobox ships with.
    pub open spec fn is_standard(self) -> bool {
        &&& !self.enabled
        &&& self.socket@ == Seq::<char>::empty()
        &&& self.policy == AgentPolicy::Deny
        &&& self.grants@.len() == 0
        &&& self.launch.is_standard()
        &&& self.suppression_ms == 750
        &&& self.kill_chord@ == settings::chord(
            seq![KeyboardModifier::Control, KeyboardModifier::Alt],
            "Escape"@,
        )
    }
}

impl Default for AgentConfig {
    /// No agent seat.
    fn default() -> (agent: Self)
        ensures
            agent.is_standard(),
    {
        let modifiers = vec![KeyboardModifier::Control, KeyboardModifier::Alt];
        assert(modifiers@ =~= seq![KeyboardModifier::Control, KeyboardModifier::Alt]);
        AgentConfig {
            enabled: false,
            socket: String::new(),
            policy: AgentPolicy::Deny,
            grants: Vec::new(),
            launch: AgentLaunchConfig::default(),
            suppression_ms: 750,
            kill_chord: KeyChord::new(modifiers.as_slice(), "Escape"),
        }
    }
}

/// The position of the first grant that applies to a peer.
pub open spec fn grant_position(
    grants: Seq<AgentGrant>,
    executable: Option<Seq<char>>,
    uid: u32,
) -> Option<int>
    decreases grants.len(),
{
    if grants.len() == 0 {
        None
    } else {
        match grant_position(grants.drop_last(), executable, uid) {
            Some(found) => Some(found),
            None => if grants.last().applies(executable, uid) {
                Some(grants.len() - 1)
            } else {
                None
            },
        }
    }
}

proof fn lemma_grant_prefix(
    grants: Seq<AgentGrant>,
    executable: Option<Seq<char>>,
    uid: u32,
    length: int,
)
    requires
        0 <= length <= grants.len(),
        grant_position(grants.take(length), executable, uid) is Some,
    ensures
        grant_position(grants, executable, uid) == grant_position(
            grants.take(length),
            executable,
            uid,
        ),
    decreases grants.len(),
{
    if length < grants.len() {
        assert(grants.drop_last().take(length) =~= grants.take(length));
        lemma_grant_prefix(grants.drop_last(), executable, uid, length);
    } else {
        assert(grants.take(length) =~= grants);
    }
}

/// The text of an optional path.
pub open spec fn path_text(path: Option<&str>) -> Option<Seq<char>> {
    match path {
        Some(path) => Some(path@),
        None => None,
    }
}

/// The check of one grant.
pub open spec fn grant_check(grants: Seq<AgentGrant>) -> spec_fn(int) -> Option<Fault> {
    |i: int| grants[i].fault((i + 1) as usize)
}

impl AgentConfig {
    /// The atoms that a peer holds: those of the first grant that applies to it.
    pub open spec fn held(self, executable: Option<Seq<char>>, uid: u32) -> Set<Capability> {
        match grant_position(self.grants@, executable, uid) {
            Some(found) => granted_atoms(self.grants@[found].capabilities@),
            None => Set::empty(),
        }
    }

    /// The first thing wrong with the section.
    pub open spec fn fault(self) -> Option<Fault> {
        let allow = text::lines_of(self.launch.allow@);
        let deny = text::lines_of(self.launch.deny@);
        if self.socket@.len() > 0 && !path::absolute(self.socket@) {
            Some(Fault::AgentSocketNotAbsolute(self.socket@))
        } else if text::size(self.socket@) > MAX_AGENT_SOCKET_PATH {
            Some(
                Fault::AgentSocketTooLong {
                    length: text::size(self.socket@) as usize,
                    limit: MAX_AGENT_SOCKET_PATH,
                },
            )
        } else if self.suppression_ms > MAX_SUPPRESSION_MS {
            Some(Fault::InvalidSuppressionWindow(self.suppression_ms))
        } else if self.grants@.len() > MAX_AGENT_GRANTS {
            Some(Fault::TooManyAgentGrants(self.grants@.len() as usize))
        } else if error::first_fault(self.grants@.len(), grant_check(self.grants@)) is Some {
            error::first_fault(self.grants@.len(), grant_check(self.grants@))
        } else {
            error::first(launch_fault(allow), launch_fault(deny))
        }
    }

    /// Returns how long human input suppresses agent input, in milliseconds.
    #[must_use]
    pub fn suppression(&self) -> (milliseconds: u64)
        ensures
            milliseconds == self.suppression_ms,
    {
        self.suppression_ms as u64
    }

    /// Returns the first grant matching a verified peer identity.
    #[must_use]
    pub fn grant_for(&self, executable: Option<&str>, uid: u32) -> (grant: Option<&AgentGrant>)
        ensures
            match grant {
                Some(grant) => exists|i: int|
                    0 <= i < self.grants@.len() && grant_position(
                        self.grants@,
                        path_text(executable),
                        uid,
                    ) == Some(i) && *grant == #[trigger] self.grants@[i] && grant.applies(
                        path_text(executable),
                        uid,
                    ),
                None => grant_position(self.grants@, path_text(executable), uid) is None,
            },
    {
        let ghost path = path_text(executable);
        let mut index: usize = 0;
        assert(self.grants@.take(0) =~= Seq::empty());
        while index < self.grants.len()
            invariant
                index <= self.grants.len(),
                path == path_text(executable),
                grant_position(self.grants@.take(index as int), path, uid) is None,
            decreases self.grants.len() - index,
        {
            let ghost next = self.grants@.take(index + 1);
            assert(next.drop_last() =~= self.grants@.take(index as int));
            if self.grants[index].matches_peer(executable, uid) {
                assert(grant_position(next, path, uid) == Some(index as int));
                proof {
                    lemma_grant_prefix(self.grants@, path, uid, index + 1);
                }
                assert(self.grants@[index as int].applies(path, uid));
                return Some(&self.grants[index]);
            }
            index = index + 1;
        }
        assert(self.grants@.take(index as int) =~= self.grants@);
        None
    }

    /// Returns the capabilities a peer holds, which is nothing unless a stored
    /// grant names it.
    #[must_use]
    pub fn capabilities_for(&self, executable: Option<&str>, uid: u32) -> (atoms: CapabilitySet)
        ensures
            atoms@ == self.held(path_text(executable), uid),
    {
        match self.grant_for(executable, uid) {
            Some(grant) => grant.capabilities(),
            None => CapabilitySet::empty(),
        }
    }

    /// Checks bounds and consistency.
    ///
    /// # Errors
    ///
    /// Returns the first problem found.
    pub fn validate(&self) -> (outcome: Result<(), ConfigError>)
        ensures
            error::fault_in(outcome) == self.fault(),
    {
        let length = byte_size(self.socket.as_str());
        if !self.socket.as_str().is_empty() {
            if !is_absolute(self.socket.as_str()) {
                return Err(ConfigError::AgentSocketNotAbsolute(self.socket.clone()));
            }
            if length > MAX_AGENT_SOCKET_PATH {
                return Err(
                    ConfigError::AgentSocketTooLong { length, limit: MAX_AGENT_SOCKET_PATH },
                );
            }
        }
        if self.suppression_ms > MAX_SUPPRESSION_MS {
            return Err(ConfigError::InvalidSuppressionWindow(self.suppression_ms));
        }
        if self.grants.len() > MAX_AGENT_GRANTS {
            return Err(ConfigError::TooManyAgentGrants(self.grants.len()));
        }
        if let Err(error) = self.validate_grants() {
            return Err(error);
        }
        if let Err(error) = validate_launch(&self.launch.allow) {
            return Err(error);
        }
        validate_launch(&self.launch.deny)
    }

    fn validate_grants(&self) -> (outcome: Result<(), ConfigError>)
        ensures
            error::fault_in(outcome) == error::first_fault(
                self.grants@.len(),
                grant_check(self.grants@),
            ),
    {
        let ghost check = grant_check(self.grants@);
        let mut index: usize = 0;
        while index < self.grants.len()
            invariant
                index <= self.grants.len(),
                check == grant_check(self.grants@),
                error::first_fault(index as nat, check) is None,
            decreases self.grants.len() - index,
        {
            if let Err(error) = self.grants[index].validate(index + 1) {
                proof {
                    assert(check(index as int) == Some(error@));
                    error::lemma_first_fault((index + 1) as nat, self.grants@.len(), check);
                }
                return Err(error);
            }
            assert(check(index as int) is None);
            index = index + 1;
        }
        Ok(())
    }
}

/// A peer that no stored grant names holds nothing, and so does a peer whose executable is not
/// known.
pub proof fn law_nothing_is_held_without_a_grant(agent: AgentConfig, uid: u32)
    ensures
        agent.held(None, uid) == Set::<Capability>::empty(),
        agent.grants@.len() == 0 ==> forall|executable: Option<Seq<char>>|
            #[trigger] agent.held(executable, uid) == Set::<Capability>::empty(),
{
    lemma_unknown_peer(agent.grants@, uid);
}

proof fn lemma_unknown_peer(grants: Seq<AgentGrant>, uid: u32)
    ensures
        grant_position(grants, None, uid) is None,
    decreases grants.len(),
{
    if grants.len() > 0 {
        lemma_unknown_peer(grants.drop_last(), uid);
    }
}

/// Which grant applies to a peer does not depend on how grants are labelled.
pub proof fn law_labels_are_not_matching_keys(
    grant: AgentGrant,
    relabelled: AgentGrant,
    executable: Option<Seq<char>>,
    uid: u32,
)
    requires
        relabelled.executable@ == grant.executable@,
        relabelled.uid == grant.uid,
    ensures
        relabelled.applies(executable, uid) == grant.applies(executable, uid),
{
}

/// Under the closed policy nothing is launched, and entries that a user installed stay closed
/// until they are enabled.
pub proof fn law_launching_starts_closed(launch: AgentLaunchConfig, entry: Seq<char>)
    ensures
        launch.policy == LaunchPolicy::Deny ==> !launch.permits(entry, false),
        !launch.user_entries ==> !launch.permits(entry, true),
        launch.permits(entry, true) ==> launch.permits(entry, false),
{
}

} // verus!
