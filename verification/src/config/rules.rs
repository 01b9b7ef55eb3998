//! Application rules: who they match and what they settle.

use vstd::prelude::*;

use crate::config::amounts::{AxisPosition, OutputTarget, Positive, PositiveRelativeAmount, SizeBasis};
use crate::config::keys::is_word;
use crate::config::wildcard;
use crate::config::wildcard::matches_if_given;
use crate::text;
use crate::text::{characters, lower_chars, parse_unsigned};
use crate::visibility::AgentVisibility;

verus! {

/// Protocol-neutral application metadata used by ordered rules.
#[derive(Clone, Copy, Debug, PartialEq, Eq)]
pub struct ApplicationIdentity<'a> {
    /// Application instance/name.
    pub name: &'a str,
    /// Application class.
    pub class: &'a str,
    /// Window-group leader instance/name, when one exists.
    pub group_name: &'a str,
    /// Window-group leader class, when one exists.
    pub group_class: &'a str,
    /// Toolkit/application role string.
    pub role: &'a str,
    /// Current window title.
    pub title: &'a str,
    /// Functional top-level type.
    pub kind: ApplicationKind,
}

/// Functional type available to application-rule matching.
#[derive(Clone, Copy, Debug, PartialEq, Eq, Structural)]
pub enum ApplicationKind {
    /// Ordinary application window.
    Normal,
    /// Dialog.
    Dialog,
    /// Utility window.
    Utility,
    /// Toolbar.
    Toolbar,
    /// Menu.
    Menu,
    /// Splash window.
    Splash,
    /// Desktop surface.
    Desktop,
    /// Dock or panel.
    Dock,
    /// Drop-down menu.
    DropdownMenu,
    /// Pop-up menu.
    PopupMenu,
    /// Tooltip.
    Tooltip,
    /// Notification.
    Notification,
    /// Combo-box pop-up.
    Combo,
    /// Drag-and-drop surface.
    DragAndDrop,
}

/// Conjunctive application identity matcher.
#[derive(Clone, Debug, PartialEq, Eq)]
pub struct ApplicationMatcher {
    /// Instance/name wildcard.
    pub name: Option<String>,
    /// Class wildcard.
    pub class: Option<String>,
    /// Window-group leader instance/name wildcard.
    pub group_name: Option<String>,
    /// Window-group leader class wildcard.
    pub group_class: Option<String>,
    /// Role wildcard.
    pub role: Option<String>,
    /// Title wildcard.
    pub title: Option<String>,
    /// Functional type.
    pub kind: Option<ApplicationKind>,
}

impl Default for ApplicationMatcher {
    /// A matcher without any field.
    fn default() -> (matcher: Self)
        ensures
            matcher.unset(),
    {
        ApplicationMatcher {
            name: None,
            class: None,
            group_name: None,
            group_class: None,
            role: None,
            title: None,
            kind: None,
        }
    }
}

impl ApplicationMatcher {
    /// Whether no field is given.
    pub open spec fn unset(self) -> bool {
        &&& self.name is None
        &&& self.class is None
        &&& self.group_name is None
        &&& self.group_class is None
        &&& self.role is None
        &&& self.title is None
        &&& self.kind is None
    }

    /// Whether some pattern is given and empty.
    pub open spec fn has_empty_pattern(self) -> bool {
        ||| text::maybe(self.name) == Some(Seq::<char>::empty())
        ||| text::maybe(self.class) == Some(Seq::<char>::empty())
        ||| text::maybe(self.group_name) == Some(Seq::<char>::empty())
        ||| text::maybe(self.group_class) == Some(Seq::<char>::empty())
        ||| text::maybe(self.role) == Some(Seq::<char>::empty())
        ||| text::maybe(self.title) == Some(Seq::<char>::empty())
    }

    /// Whether every given field accepts the identity.
    pub open spec fn accepts(self, identity: ApplicationIdentity<'_>) -> bool {
        &&& wildcard::accepted_if_given(self.name, identity.name@)
        &&& wildcard::accepted_if_given(self.class, identity.class@)
        &&& wildcard::accepted_if_given(self.group_name, identity.group_name@)
        &&& wildcard::accepted_if_given(self.group_class, identity.group_class@)
        &&& wildcard::accepted_if_given(self.role, identity.role@)
        &&& wildcard::accepted_if_given(self.title, identity.title@)
        &&& self.kind is None || self.kind == Some(identity.kind)
    }

    pub(crate) fn is_empty(&self) -> (r: bool)
        ensures
            r == self.unset(),
    {
        self.name.is_none()
            && self.class.is_none()
            && self.group_name.is_none()
            && self.group_class.is_none()
            && self.role.is_none()
            && self.title.is_none() && self.kind.is_none()
    }

    pub(crate) fn holds_empty_pattern(&self) -> (r: bool)
        ensures
            r == self.has_empty_pattern(),
    {
        is_given_and_empty(&self.name)
            || is_given_and_empty(&self.class)
            || is_given_and_empty(&self.group_name)
            || is_given_and_empty(&self.group_class)
            || is_given_and_empty(&self.role)
            || is_given_and_empty(&self.title)
    }

    /// Returns whether every configured matcher accepts `identity`.
    #[must_use]
    pub fn matches(&self, identity: ApplicationIdentity<'_>) -> (matched: bool)
        ensures
            matched == self.accepts(identity),
    {
        matches_if_given(&self.name, identity.name)
            && matches_if_given(&self.class, identity.class)
            && matches_if_given(&self.group_name, identity.group_name)
            && matches_if_given(&self.group_class, identity.group_class)
            && matches_if_given(&self.role, identity.role)
            && matches_if_given(&self.title, identity.title)
            && (match self.kind {
            Some(kind) => kind == identity.kind,
            None => true,
        })
    }
}

/// Whether a pattern is given and has no characters.
pub(crate) fn is_given_and_empty(pattern: &Option<String>) -> (r: bool)
    ensures
        r == (text::maybe(*pattern) == Some(Seq::<char>::empty())),
{
    match pattern {
        Some(pattern) => {
            let empty = pattern.as_str().is_empty();
            assert(empty ==> pattern@ =~= Seq::empty());
            empty
        },
        None => false,
    }
}

/// Workspace assignment requested by an application rule.
#[derive(Clone, Copy, Debug, PartialEq, Eq, Structural)]
pub enum ApplicationWorkspace {
    /// Make the client visible on every workspace.
    All,
    /// One-based configured workspace.
    Index(Positive),
}

/// Why a workspace assignment was refused.
#[derive(Clone, Copy, Debug, PartialEq, Eq, Structural)]
pub enum ApplicationWorkspaceError {
    /// Neither `all` nor a number.
    NotAWorkspace,
    /// Workspace numbers are one-based.
    Zero,
}

impl ApplicationWorkspace {
    /// The assignment for a one-based number.
    pub open spec fn at(index: u32) -> Result<ApplicationWorkspace, ApplicationWorkspaceError> {
        if index > 0 {
            Ok(ApplicationWorkspace::Index(Positive::of(index)))
        } else {
            Err(ApplicationWorkspaceError::Zero)
        }
    }

    /// The assignment that text spells: `all` in any case, or a one-based number.
    pub open spec fn spelled(text: Seq<char>) -> Result<
        ApplicationWorkspace,
        ApplicationWorkspaceError,
    > {
        if text::lower(text) == "all"@ {
            Ok(ApplicationWorkspace::All)
        } else {
            match text::unsigned(text) {
                Some(index) => ApplicationWorkspace::at(index),
                None => Err(ApplicationWorkspaceError::NotAWorkspace),
            }
        }
    }

    /// Assigns a one-based workspace.
    ///
    /// # Errors
    ///
    /// Returns an error for zero.
    pub fn from_index(index: u32) -> (assigned: Result<Self, ApplicationWorkspaceError>)
        ensures
            assigned == ApplicationWorkspace::at(index),
    {
        match Positive::new(index) {
            Some(index) => Ok(ApplicationWorkspace::Index(index)),
            None => Err(ApplicationWorkspaceError::Zero),
        }
    }

    /// Parses `all` or a one-based workspace number.
    ///
    /// # Errors
    ///
    /// Returns an error for other text and for zero.
    pub fn parse(value: &str) -> (assigned: Result<Self, ApplicationWorkspaceError>)
        ensures
            assigned == ApplicationWorkspace::spelled(value@),
    {
        let chars = characters(value);
        let lowered = lower_chars(chars.as_slice());
        if is_word(lowered.as_slice(), "all") {
            return Ok(ApplicationWorkspace::All);
        }
        match parse_unsigned(chars.as_slice()) {
            Some(index) => Self::from_index(index),
            None => Err(ApplicationWorkspaceError::NotAWorkspace),
        }
    }
}

/// Initial maximization requested by an application rule.
#[derive(Clone, Copy, Debug, PartialEq, Eq, Structural)]
pub enum ApplicationMaximized {
    /// Explicitly start unmaximized.
    Neither,
    /// Maximize only horizontally.
    Horizontal,
    /// Maximize only vertically.
    Vertical,
    /// Maximize along both axes.
    Both,
}

impl ApplicationMaximized {
    /// The request that text spells, in any case.
    pub open spec fn spelled(text: Seq<char>) -> Option<ApplicationMaximized> {
        let name = text::lower(text);
        if name == "none"@ {
            Some(ApplicationMaximized::Neither)
        } else if name == "horizontal"@ || name == "horiz"@ {
            Some(ApplicationMaximized::Horizontal)
        } else if name == "vertical"@ || name == "vert"@ {
            Some(ApplicationMaximized::Vertical)
        } else if name == "both"@ {
            Some(ApplicationMaximized::Both)
        } else {
            None
        }
    }

    /// Reads a switch for both axes.
    #[must_use]
    pub fn from_enabled(enabled: bool) -> (maximized: Self)
        ensures
            maximized == (if enabled {
                ApplicationMaximized::Both
            } else {
                ApplicationMaximized::Neither
            }),
    {
        if enabled {
            ApplicationMaximized::Both
        } else {
            ApplicationMaximized::Neither
        }
    }

    /// Parses the names of axes.
    #[must_use]
    pub fn parse(value: &str) -> (maximized: Option<Self>)
        ensures
            maximized == ApplicationMaximized::spelled(value@),
    {
        let chars = characters(value);
        let lowered = lower_chars(chars.as_slice());
        let name = lowered.as_slice();
        if is_word(name, "none") {
            Some(ApplicationMaximized::Neither)
        } else if is_word(name, "horizontal") || is_word(name, "horiz") {
            Some(ApplicationMaximized::Horizontal)
        } else if is_word(name, "vertical") || is_word(name, "vert") {
            Some(ApplicationMaximized::Vertical)
        } else if is_word(name, "both") {
            Some(ApplicationMaximized::Both)
        } else {
            None
        }
    }

    /// Returns the horizontal and vertical requested states.
    #[must_use]
    pub fn axes(self) -> (axes: (bool, bool))
        ensures
            axes.0 == (self == ApplicationMaximized::Horizontal || self
                == ApplicationMaximized::Both),
            axes.1 == (self == ApplicationMaximized::Vertical || self
                == ApplicationMaximized::Both),
    {
        match self {
            ApplicationMaximized::Neither => (false, false),
            ApplicationMaximized::Horizontal => (true, false),
            ApplicationMaximized::Vertical => (false, true),
            ApplicationMaximized::Both => (true, true),
        }
    }
}

/// Initial gravity-style application placement within a work area.
#[derive(Clone, Copy, Debug, PartialEq, Eq, Structural)]
pub struct ApplicationPosition {
    /// Horizontal position; omitted preserves normal placement on this axis.
    pub x: Option<AxisPosition>,
    /// Vertical position; omitted preserves normal placement on this axis.
    pub y: Option<AxisPosition>,
    /// Work area used to resolve the position.
    pub output: OutputTarget,
    /// Override an application's explicit program/user position hint.
    pub force: bool,
}

impl Default for ApplicationPosition {
    /// Normal placement on the current output.
    fn default() -> (position: Self)
        ensures
            position == (ApplicationPosition {
                x: None,
                y: None,
                output: OutputTarget::Current,
                force: false,
            }),
    {
        ApplicationPosition { x: None, y: None, output: OutputTarget::Current, force: false }
    }
}

/// Initial application dimensions relative to its selected work area.
#[derive(Clone, Copy, Debug, PartialEq, Eq, Structural)]
pub struct ApplicationSize {
    /// Width in pixels or as a positive fraction of the work area.
    pub width: Option<PositiveRelativeAmount>,
    /// Height in pixels or as a positive fraction of the work area.
    pub height: Option<PositiveRelativeAmount>,
    /// Whether width describes the decorated outer or client content size.
    pub width_basis: SizeBasis,
    /// Whether height describes the decorated outer or client content size.
    pub height_basis: SizeBasis,
}

impl Default for ApplicationSize {
    /// No dimension.
    fn default() -> (size: Self)
        ensures
            size == (ApplicationSize {
                width: None,
                height: None,
                width_basis: SizeBasis::Outer,
                height_basis: SizeBasis::Outer,
            }),
    {
        ApplicationSize {
            width: None,
            height: None,
            width_basis: SizeBasis::Outer,
            height_basis: SizeBasis::Outer,
        }
    }
}

/// User-requested rule layer independent of display protocol.
#[derive(Clone, Copy, Debug, PartialEq, Eq, Structural)]
pub enum ApplicationLayer {
    /// Below ordinary clients.
    Below,
    /// Default layer.
    Normal,
    /// Above ordinary clients and docks.
    Above,
}

/// Optional policy values merged from matching rules in declaration order.
#[derive(Clone, Copy, Debug, PartialEq, Eq, Structural)]
pub struct ApplicationSettings {
    /// One-based workspace number or every workspace.
    pub workspace: Option<ApplicationWorkspace>,
    /// Requested stacking layer.
    pub layer: Option<ApplicationLayer>,
    /// Whether nobox should decorate the client.
    pub decorated: Option<bool>,
    /// Whether a newly mapped client should receive focus.
    pub focus: Option<bool>,
    /// Whether the client starts minimized.
    pub minimized: Option<bool>,
    /// Whether the client starts shaded.
    pub shaded: Option<bool>,
    /// Whether the client is omitted from pagers.
    pub skip_pager: Option<bool>,
    /// Whether the client is omitted from task lists.
    pub skip_taskbar: Option<bool>,
    /// Whether the client starts fullscreen.
    pub fullscreen: Option<bool>,
    /// Initial maximization axes.
    pub maximized: Option<ApplicationMaximized>,
    /// Initial absolute placement.
    pub position: Option<ApplicationPosition>,
    /// Initial client dimensions.
    pub size: Option<ApplicationSize>,
    /// How visible the client is to agent sessions.
    pub agent_visibility: Option<AgentVisibility>,
}

/// The newer of two optional values, or the older where there is no newer one.
pub open spec fn newest<T>(older: Option<T>, newer: Option<T>) -> Option<T> {
    if newer is Some {
        newer
    } else {
        older
    }
}

impl ApplicationSettings {
    /// Settings without any value.
    pub open spec fn unset() -> ApplicationSettings {
        ApplicationSettings {
            workspace: None,
            layer: None,
            decorated: None,
            focus: None,
            minimized: None,
            shaded: None,
            skip_pager: None,
            skip_taskbar: None,
            fullscreen: None,
            maximized: None,
            position: None,
            size: None,
            agent_visibility: None,
        }
    }

    /// These settings with every value that newer settings give.
    pub open spec fn merged(self, newer: ApplicationSettings) -> ApplicationSettings {
        ApplicationSettings {
            workspace: newest(self.workspace, newer.workspace),
            layer: newest(self.layer, newer.layer),
            decorated: newest(self.decorated, newer.decorated),
            focus: newest(self.focus, newer.focus),
            minimized: newest(self.minimized, newer.minimized),
            shaded: newest(self.shaded, newer.shaded),
            skip_pager: newest(self.skip_pager, newer.skip_pager),
            skip_taskbar: newest(self.skip_taskbar, newer.skip_taskbar),
            fullscreen: newest(self.fullscreen, newer.fullscreen),
            maximized: newest(self.maximized, newer.maximized),
            position: newest(self.position, newer.position),
            size: newest(self.size, newer.size),
            agent_visibility: newest(self.agent_visibility, newer.agent_visibility),
        }
    }

    pub(crate) fn merge(&mut self, newer: Self)
        ensures
            *final(self) == old(self).merged(newer),
    {
        if newer.workspace.is_some() {
            self.workspace = newer.workspace;
        }
        if newer.layer.is_some() {
            self.layer = newer.layer;
        }
        if newer.decorated.is_some() {
            self.decorated = newer.decorated;
        }
        if newer.focus.is_some() {
            self.focus = newer.focus;
        }
        if newer.minimized.is_some() {
            self.minimized = newer.minimized;
        }
        if newer.shaded.is_some() {
            self.shaded = newer.shaded;
        }
        if newer.skip_pager.is_some() {
            self.skip_pager = newer.skip_pager;
        }
        if newer.skip_taskbar.is_some() {
            self.skip_taskbar = newer.skip_taskbar;
        }
        if newer.fullscreen.is_some() {
            self.fullscreen = newer.fullscreen;
        }
        if newer.maximized.is_some() {
            self.maximized = newer.maximized;
        }
        if newer.position.is_some() {
            self.position = newer.position;
        }
        if newer.size.is_some() {
            self.size = newer.size;
        }
        if newer.agent_visibility.is_some() {
            self.agent_visibility = newer.agent_visibility;
        }
    }
}

impl Default for ApplicationSettings {
    /// Settings without any value.
    fn default() -> (settings: Self)
        ensures
            settings == ApplicationSettings::unset(),
    {
        ApplicationSettings {
            workspace: None,
            layer: None,
            decorated: None,
            focus: None,
            minimized: None,
            shaded: None,
            skip_pager: None,
            skip_taskbar: None,
            fullscreen: None,
            maximized: None,
            position: None,
            size: None,
            agent_visibility: None,
        }
    }
}

/// One ordered application rule.
#[derive(Clone, Debug, PartialEq, Eq)]
pub struct ApplicationRule {
    /// Fields that must all match.
    pub matcher: ApplicationMatcher,
    /// Optional policy values supplied by this rule.
    pub settings: ApplicationSettings,
}

impl ApplicationRule {
    /// Returns whether every configured matcher accepts `identity`.
    #[must_use]
    pub fn matches(&self, identity: ApplicationIdentity<'_>) -> (matched: bool)
        ensures
            matched == self.matcher.accepts(identity),
    {
        self.matcher.matches(identity)
    }
}

/// What rules settle for an application: the values of the matching rules, later over earlier.
pub open spec fn settled(
    rules: Seq<ApplicationRule>,
    identity: ApplicationIdentity<'_>,
) -> ApplicationSettings
    decreases rules.len(),
{
    if rules.len() == 0 {
        ApplicationSettings::unset()
    } else {
        let before = settled(rules.drop_last(), identity);
        if rules.last().matcher.accepts(identity) {
            before.merged(rules.last().settings)
        } else {
            before
        }
    }
}

/// Resolves ordered matching rules; later values override earlier ones.
pub(crate) fn settle(
    rules: &Vec<ApplicationRule>,
    identity: ApplicationIdentity<'_>,
) -> (settings: ApplicationSettings)
    ensures
        settings == settled(rules@, identity),
{
    let mut settings = ApplicationSettings::default();
    let mut index: usize = 0;
    while index < rules.len()
        invariant
            index <= rules.len(),
            settings == settled(rules@.take(index as int), identity),
        decreases rules.len() - index,
    {
        assert(rules@.take(index + 1).drop_last() =~= rules@.take(index as int));
        if rules[index].matches(identity) {
            settings.merge(rules[index].settings);
        }
        index = index + 1;
    }
    assert(rules@.take(index as int) =~= rules@);
    settings
}

/// A rule that comes last and matches settles every value that it gives, and leaves every other
/// value as the rules before it settled it.
pub proof fn law_later_rules_override(
    rules: Seq<ApplicationRule>,
    rule: ApplicationRule,
    identity: ApplicationIdentity<'_>,
)
    ensures
        rule.matcher.accepts(identity) ==> settled(rules.push(rule), identity) == settled(
            rules,
            identity,
        ).merged(rule.settings),
        !rule.matcher.accepts(identity) ==> settled(rules.push(rule), identity) == settled(
            rules,
            identity,
        ),
{
    assert(rules.push(rule).drop_last() =~= rules);
}

/// Merging settings in two steps is merging them at once, and settings merged into themselves
/// stay as they are.
pub proof fn law_merging_is_associative(
    first: ApplicationSettings,
    second: ApplicationSettings,
    third: ApplicationSettings,
)
    ensures
        first.merged(second).merged(third) == first.merged(second.merged(third)),
        first.merged(first) == first,
        first.merged(ApplicationSettings::unset()) == first,
{
}

} // verus!
