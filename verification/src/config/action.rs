//! Actions, the queries that guard them, and their models.

use vstd::prelude::*;

use crate::config::amounts::{
    AxisPosition, OutputTarget, Positive, PositiveRelativeAmount, RelativeAmount, SizeBasis,
};
use crate::config::rules::{ApplicationIdentity, ApplicationKind};
use crate::config::wildcard;
use crate::config::wildcard::matches_if_given;
use crate::text;
use crate::text::{byte_size, has_control, is_blank};

verus! {

/// Fixed edge or corner used by an interactive pointer resize.
#[derive(Clone, Copy, Debug, PartialEq, Eq, Structural)]
pub enum ResizeEdge {
    /// Top edge.
    Top,
    /// Bottom edge.
    Bottom,
    /// Left edge.
    Left,
    /// Right edge.
    Right,
    /// Top-left corner.
    TopLeft,
    /// Top-right corner.
    TopRight,
    /// Bottom-left corner.
    BottomLeft,
    /// Bottom-right corner.
    BottomRight,
}

/// Target selected by a configured screenshot action.
#[derive(Clone, Copy, Debug, PartialEq, Eq, Structural)]
pub enum ScreenshotTarget {
    /// Capture the complete screen.
    Screen,
    /// Capture the currently active window and its decoration.
    Window,
}

impl Default for ScreenshotTarget {
    fn default() -> (value: Self)
        ensures
            value == ScreenshotTarget::Screen,
    {
        ScreenshotTarget::Screen
    }
}

/// Client selected for a conditional action query.
#[derive(Clone, Copy, Debug, PartialEq, Eq, Structural)]
pub enum ActionQueryTarget {
    /// The binding, menu, or current `for_each` action target.
    Action,
    /// The currently focused client, independently of the action target.
    Focused,
}

impl Default for ActionQueryTarget {
    fn default() -> (value: Self)
        ensures
            value == ActionQueryTarget::Action,
    {
        ActionQueryTarget::Action
    }
}

/// Relative workspace selector used by conditional action queries.
#[derive(Clone, Copy, Debug, PartialEq, Eq, Structural)]
pub enum ActionQueryWorkspaceRelation {
    /// The currently active workspace, including sticky clients.
    Current,
    /// A workspace other than the active one; sticky clients do not match.
    Other,
    /// The previously active workspace; sticky clients do not match.
    Last,
}

/// Workspace predicate used by a conditional action query.
#[derive(Clone, Copy, Debug, PartialEq, Eq, Structural)]
pub enum ActionQueryWorkspace {
    /// A relative workspace name.
    Relative(ActionQueryWorkspaceRelation),
    /// An absolute one-based workspace number.
    Number(Positive),
}

/// Axes affected by an explicit maximize or unmaximize action.
#[derive(Clone, Copy, Debug, PartialEq, Eq, Structural)]
pub enum MaximizeDirection {
    /// Change both axes.
    Both,
    /// Change only the horizontal axis.
    Horizontal,
    /// Change only the vertical axis.
    Vertical,
}

impl Default for MaximizeDirection {
    fn default() -> (value: Self)
        ensures
            value == MaximizeDirection::Both,
    {
        MaximizeDirection::Both
    }
}

/// Explicit stacking layer selected by an action.
#[derive(Clone, Copy, Debug, PartialEq, Eq, Structural)]
pub enum LayerTarget {
    /// Keep the client below ordinary application windows.
    Below,
    /// Restore the role's normal layer.
    Normal,
    /// Keep the client above ordinary windows and docks.
    Above,
}

/// Position used by runtime workspace insertion and removal actions.
#[derive(Clone, Copy, Debug, PartialEq, Eq, Structural)]
pub enum WorkspacePlacement {
    /// Insert or remove at the end of the workspace list.
    Last,
    /// Insert or remove at the currently active index.
    Current,
}

impl Default for WorkspacePlacement {
    fn default() -> (value: Self)
        ensures
            value == WorkspacePlacement::Last,
    {
        WorkspacePlacement::Last
    }
}

/// Cardinal direction used by edge-oriented geometry actions.
#[derive(Clone, Copy, Debug, PartialEq, Eq, Structural)]
pub enum EdgeDirection {
    /// Move toward smaller horizontal coordinates.
    Left,
    /// Move toward larger horizontal coordinates.
    Right,
    /// Move toward smaller vertical coordinates.
    Up,
    /// Move toward larger vertical coordinates.
    Down,
}

impl Default for EdgeDirection {
    fn default() -> (value: Self)
        ensures
            value == EdgeDirection::Up,
    {
        EdgeDirection::Up
    }
}

/// Eight-way direction used for spatial window focus.
#[derive(Clone, Copy, Debug, PartialEq, Eq, Structural)]
pub enum WindowDirection {
    /// Search toward smaller horizontal coordinates.
    Left,
    /// Search toward larger horizontal coordinates.
    Right,
    /// Search toward smaller vertical coordinates.
    Up,
    /// Search toward larger vertical coordinates.
    Down,
    /// Search diagonally toward smaller horizontal and vertical coordinates.
    UpLeft,
    /// Search diagonally toward larger horizontal and smaller vertical coordinates.
    UpRight,
    /// Search diagonally toward smaller horizontal and larger vertical coordinates.
    DownLeft,
    /// Search diagonally toward larger horizontal and vertical coordinates.
    DownRight,
}

/// Backend-neutral metadata for tracking one application launch.
#[derive(Debug, PartialEq, Eq)]
pub struct StartupNotification {
    /// Human-readable application or document name.
    pub name: Option<String>,
    /// Freedesktop icon name.
    pub icon: Option<String>,
    /// Application identity expected on the first mapped window.
    pub wm_class: Option<String>,
}

impl Default for StartupNotification {
    /// No metadata.
    fn default() -> (notification: Self)
        ensures
            notification.name is None,
            notification.icon is None,
            notification.wm_class is None,
    {
        StartupNotification { name: None, icon: None, wm_class: None }
    }
}

/// An action dispatched by the window manager.
#[derive(Debug, PartialEq, Eq)]
pub enum Action {
    /// Start a command through `/bin/sh -c`.
    Execute {
        /// Shell command to start.
        command: String,
        /// Optional confirmation text shown before launching.
        prompt: Option<String>,
        /// Optional desktop-startup notification metadata.
        startup_notify: Option<StartupNotification>,
    },
    /// Start the configured preferred terminal command.
    LaunchTerminal,
    /// Start the configured screenshot command for one target.
    Screenshot {
        /// Whole screen or active window.
        target: ScreenshotTarget,
    },
    /// Open a named menu using the triggering input location when available.
    ShowMenu {
        /// Menu identifier from `menu.definitions`.
        menu: String,
    },
    /// Validate and reload the effective configuration in place.
    Reconfigure,
    /// Cleanly restart nobox, or hand X11 ownership to another command.
    Restart {
        /// Optional shell command that replaces nobox after clean shutdown.
        command: Option<String>,
    },
    /// Ask the external session manager to save and end the desktop session.
    SessionLogout {
        /// Show a grabbed confirmation prompt before requesting logout.
        prompt: bool,
    },
    /// Write a bounded user-supplied message to the structured runtime log.
    Debug {
        /// Message to log.
        message: String,
    },
    /// Run one branch after every configured query matches.
    If {
        /// Conjunctive queries evaluated against action or focused targets.
        queries: Vec<ActionQuery>,
        /// Actions run when every query matches.
        then_actions: Vec<Action>,
        /// Actions run when any query does not match.
        else_actions: Vec<Action>,
    },
    /// Evaluate queries and branches once for every managed client.
    ForEach {
        /// Conjunctive queries evaluated for each action target.
        queries: Vec<ActionQuery>,
        /// Actions run for each matching client.
        then_actions: Vec<Action>,
        /// Actions run for each non-matching client.
        else_actions: Vec<Action>,
        /// Actions run once when no managed client matches.
        none: Vec<Action>,
    },
    /// Stop the current nested action list and enclosing `for_each` loop.
    Stop,
    /// Ask the focused client to close using ICCCM when supported.
    Close,
    /// Immediately disconnect the X11 connection that owns the action target.
    Kill,
    /// Activate the action target, following its workspace unless it is brought here.
    Focus {
        /// Move a target from another workspace to the active workspace.
        here: bool,
    },
    /// Move the action target to the least-recent end of focus history.
    FocusToBottom,
    /// Focus the most recent valid client other than the action target.
    Unfocus,
    /// Compatibility name for focusing a fallback away from the action target.
    FocusFallback,
    /// Raise the action target within its policy layer.
    Raise,
    /// Lower the action target within its policy layer.
    Lower,
    /// Raise when obscured, lower when obscuring, otherwise preserve stacking.
    RaiseLower,
    /// Minimize the action target through the shared iconic lifecycle.
    Minimize,
    /// Enable maximization on the selected axes without toggling them.
    Maximize {
        /// Axes to maximize.
        direction: MaximizeDirection,
    },
    /// Disable maximization on the selected axes without toggling them.
    Unmaximize {
        /// Axes to restore.
        direction: MaximizeDirection,
    },
    /// Toggle both maximize axes on the action target.
    ToggleMaximize,
    /// Toggle only the horizontal maximize axis on the action target.
    ToggleMaximizeHorizontal,
    /// Toggle only the vertical maximize axis on the action target.
    ToggleMaximizeVertical,
    /// Toggle whether the action target fills its output without decorations.
    ToggleFullscreen,
    /// Toggle whether the action target stays above ordinary windows and docks.
    ToggleAlwaysOnTop,
    /// Toggle whether the action target stays below ordinary windows.
    ToggleAlwaysOnBottom,
    /// Place the action target on an explicit policy layer.
    SendToLayer {
        /// Requested layer independent of display protocol.
        layer: LayerTarget,
    },
    /// Restore the action target's natural server-side decoration policy.
    Decorate,
    /// Suppress server-side decorations on the action target.
    Undecorate,
    /// Toggle a reversible user override for server-side decorations.
    ToggleDecorations,
    /// Toggle whether the action target appears on every workspace.
    ToggleSticky,
    /// Collapse the action target to its titlebar without toggling.
    Shade,
    /// Expand a shaded action target without toggling.
    Unshade,
    /// Collapse or restore the action target's titlebar-bearing frame.
    ToggleShade,
    /// Shade an expanded target, or lower one that is already shaded.
    ShadeLower,
    /// Unshade a shaded target, or raise one that is already expanded.
    UnshadeRaise,
    /// Temporarily hide or restore ordinary clients to expose the desktop.
    ToggleShowDesktop {
        /// Keep new ordinary windows hidden until show-desktop is toggled off.
        strict: bool,
    },
    /// Start an interactive pointer or keyboard move.
    Move,
    /// Start an interactive pointer or keyboard resize.
    Resize {
        /// Fixed pointer edge; omitted means infer it from the invocation.
        edge: Option<ResizeEdge>,
    },
    /// Move the action target by pixel or work-area-relative offsets.
    MoveRelative {
        /// Horizontal offset; percentages and fractions use work-area width.
        x: RelativeAmount,
        /// Vertical offset; percentages and fractions use work-area height.
        y: RelativeAmount,
    },
    /// Resize each edge by pixel or client-size-relative amounts.
    ResizeRelative {
        /// Amount to grow the left edge outward.
        left: RelativeAmount,
        /// Amount to grow the right edge outward.
        right: RelativeAmount,
        /// Amount to grow the top edge outward.
        top: RelativeAmount,
        /// Amount to grow the bottom edge outward.
        bottom: RelativeAmount,
    },
    /// Move the action target to the next work-area or client edge.
    MoveToEdge {
        /// Direction in which to search for the next edge.
        direction: EdgeDirection,
    },
    /// Grow one edge toward the next obstacle, shrinking when growth is blocked.
    GrowToEdge {
        /// Edge to grow and direction in which to search.
        direction: EdgeDirection,
    },
    /// Grow every edge into surrounding free space.
    GrowToFill,
    /// Shrink the edge opposite the requested direction toward an obstacle.
    ShrinkToEdge {
        /// Direction toward which the opposite edge moves.
        direction: EdgeDirection,
    },
    /// Move and optionally resize the target within a selected output area.
    MoveResizeTo {
        /// Horizontal gravity-style position; omitted preserves the source offset.
        x: Option<AxisPosition>,
        /// Vertical gravity-style position; omitted preserves the source offset.
        y: Option<AxisPosition>,
        /// Target width in pixels or as a fraction of the selected work area.
        width: Option<PositiveRelativeAmount>,
        /// Target height in pixels or as a fraction of the selected work area.
        height: Option<PositiveRelativeAmount>,
        /// Whether width describes decorated outer or client content size.
        width_basis: SizeBasis,
        /// Whether height describes decorated outer or client content size.
        height_basis: SizeBasis,
        /// Output area in which to place the target.
        output: OutputTarget,
    },
    /// Center the target without changing its size.
    MoveToCenter {
        /// Output area in which to center the target.
        output: OutputTarget,
    },
    /// Focus, unshade, and raise the nearest client in a spatial direction.
    FocusDirection {
        /// Direction in which to search from the action target or focused client.
        direction: WindowDirection,
    },
    /// Preview spatial focus targets until the binding modifiers are released.
    CycleDirection {
        /// Direction in which to advance from the current preview target.
        direction: WindowDirection,
    },
    /// Focus the next client in the current most-recently-used cycle.
    NextWindow,
    /// Focus the previous client in the current most-recently-used cycle.
    PreviousWindow,
    /// Switch to the previous workspace, wrapping at the first.
    PreviousWorkspace,
    /// Switch to the next workspace, wrapping at the last.
    NextWorkspace,
    /// Switch to the previously active workspace.
    LastWorkspace,
    /// Insert an empty workspace at the current position or at the end.
    AddWorkspace {
        /// Position at which to insert the workspace.
        at: WorkspacePlacement,
    },
    /// Remove and merge the current or final workspace.
    RemoveWorkspace {
        /// Workspace position to remove.
        at: WorkspacePlacement,
    },
    /// Switch to the workspace geometrically left in the active layout.
    WorkspaceLeft {
        /// Override the configured grid-edge wrap policy.
        wrap: Option<bool>,
    },
    /// Switch to the workspace geometrically right in the active layout.
    WorkspaceRight {
        /// Override the configured grid-edge wrap policy.
        wrap: Option<bool>,
    },
    /// Switch to the workspace geometrically above in the active layout.
    WorkspaceUp {
        /// Override the configured grid-edge wrap policy.
        wrap: Option<bool>,
    },
    /// Switch to the workspace geometrically below in the active layout.
    WorkspaceDown {
        /// Override the configured grid-edge wrap policy.
        wrap: Option<bool>,
    },
    /// Switch to a one-based configured workspace.
    SwitchWorkspace {
        /// One-based workspace number used in user configuration.
        workspace: u32,
    },
    /// Move the focused client to a one-based configured workspace.
    MoveToWorkspace {
        /// One-based workspace number used in user configuration.
        workspace: u32,
        /// Switch to the destination after moving the client.
        follow: bool,
    },
    /// Move the focused client to the previous workspace.
    MoveToPreviousWorkspace {
        /// Switch to the destination after moving the client.
        follow: bool,
    },
    /// Move the focused client to the next workspace.
    MoveToNextWorkspace {
        /// Switch to the destination after moving the client.
        follow: bool,
    },
    /// Move the focused client to the previously active workspace.
    MoveToLastWorkspace {
        /// Switch to the destination after moving the client.
        follow: bool,
    },
    /// Move the focused client left in the active workspace layout.
    MoveToWorkspaceLeft {
        /// Switch to the destination after moving the client.
        follow: bool,
        /// Override the configured grid-edge wrap policy.
        wrap: Option<bool>,
    },
    /// Move the focused client right in the active workspace layout.
    MoveToWorkspaceRight {
        /// Switch to the destination after moving the client.
        follow: bool,
        /// Override the configured grid-edge wrap policy.
        wrap: Option<bool>,
    },
    /// Move the focused client upward in the active workspace layout.
    MoveToWorkspaceUp {
        /// Switch to the destination after moving the client.
        follow: bool,
        /// Override the configured grid-edge wrap policy.
        wrap: Option<bool>,
    },
    /// Move the focused client downward in the active workspace layout.
    MoveToWorkspaceDown {
        /// Switch to the destination after moving the client.
        follow: bool,
        /// Override the configured grid-edge wrap policy.
        wrap: Option<bool>,
    },
    /// Exit the window manager without ending the surrounding desktop session.
    Exit {
        /// Show a grabbed confirmation prompt before releasing X11 ownership.
        prompt: bool,
    },
}

/// Conjunctive, protocol-neutral predicate used by `if` and `for_each`.
#[derive(Debug, PartialEq, Eq)]
pub struct ActionQuery {
    /// Client against which this query is evaluated.
    pub target: ActionQueryTarget,
    /// Shaded state.
    pub shaded: Option<bool>,
    /// Both maximize axes are active.
    pub maximized: Option<bool>,
    /// Horizontal maximize state.
    pub maximized_horizontal: Option<bool>,
    /// Vertical maximize state.
    pub maximized_vertical: Option<bool>,
    /// Minimized/iconic state.
    pub minimized: Option<bool>,
    /// Fullscreen state.
    pub fullscreen: Option<bool>,
    /// Whether this client owns focus.
    pub focused: Option<bool>,
    /// Whether this client is permitted to receive focus.
    pub focusable: Option<bool>,
    /// Urgency or demands-attention state.
    pub urgent: Option<bool>,
    /// Whether a visible server-side titlebar is present.
    pub decorated: Option<bool>,
    /// All-workspaces/sticky state.
    pub sticky: Option<bool>,
    /// Client workspace relation or one-based number.
    pub workspace: Option<ActionQueryWorkspace>,
    /// One-based active workspace number, independent of client presence.
    pub active_workspace: Option<Positive>,
    /// One-based output number containing the client.
    pub output: Option<Positive>,
    /// Application instance/name wildcard.
    pub name: Option<String>,
    /// Application class wildcard.
    pub class: Option<String>,
    /// Application role wildcard.
    pub role: Option<String>,
    /// Window title wildcard.
    pub title: Option<String>,
    /// Functional client kind.
    pub kind: Option<ApplicationKind>,
}

/// Backend-supplied facts evaluated by an [`ActionQuery`].
#[derive(Clone, Copy, Debug, PartialEq, Eq)]
pub struct ActionQueryContext<'a> {
    /// Protocol-neutral application metadata.
    pub identity: ApplicationIdentity<'a>,
    /// Zero-based assigned workspace, or `None` for a sticky client.
    pub workspace: Option<u32>,
    /// Zero-based active workspace.
    pub active_workspace: u32,
    /// Zero-based previously active workspace.
    pub last_workspace: u32,
    /// One-based output number containing the client.
    pub output: u32,
    /// Current client-state facts.
    pub shaded: bool,
    /// Horizontal maximize state.
    pub maximized_horizontal: bool,
    /// Vertical maximize state.
    pub maximized_vertical: bool,
    /// Minimized/iconic state.
    pub minimized: bool,
    /// Fullscreen state.
    pub fullscreen: bool,
    /// Whether this client owns focus.
    pub focused: bool,
    /// Whether this client is permitted to receive focus.
    pub focusable: bool,
    /// Urgency or demands-attention state.
    pub urgent: bool,
    /// Whether a visible server-side titlebar is present.
    pub decorated: bool,
}

impl Default for ActionQuery {
    /// A query without any predicate.
    fn default() -> (query: Self)
        ensures
            query.model() == QueryModel::unset(),
    {
        ActionQuery {
            target: ActionQueryTarget::Action,
            shaded: None,
            maximized: None,
            maximized_horizontal: None,
            maximized_vertical: None,
            minimized: None,
            fullscreen: None,
            focused: None,
            focusable: None,
            urgent: None,
            decorated: None,
            sticky: None,
            workspace: None,
            active_workspace: None,
            output: None,
            name: None,
            class: None,
            role: None,
            title: None,
            kind: None,
        }
    }
}

/// What launch metadata says.
pub ghost struct StartupModel {
    pub name: Option<Seq<char>>,
    pub icon: Option<Seq<char>>,
    pub wm_class: Option<Seq<char>>,
}

/// What a query asks.
pub ghost struct QueryModel {
    pub target: ActionQueryTarget,
    pub shaded: Option<bool>,
    pub maximized: Option<bool>,
    pub maximized_horizontal: Option<bool>,
    pub maximized_vertical: Option<bool>,
    pub minimized: Option<bool>,
    pub fullscreen: Option<bool>,
    pub focused: Option<bool>,
    pub focusable: Option<bool>,
    pub urgent: Option<bool>,
    pub decorated: Option<bool>,
    pub sticky: Option<bool>,
    pub workspace: Option<ActionQueryWorkspace>,
    pub active_workspace: Option<Positive>,
    pub output: Option<Positive>,
    pub name: Option<Seq<char>>,
    pub class: Option<Seq<char>>,
    pub role: Option<Seq<char>>,
    pub title: Option<Seq<char>>,
    pub kind: Option<ApplicationKind>,
}

/// What an action does.
pub ghost enum ActionModel {
    /// Starts a command.
    Execute { command: Seq<char>, prompt: Option<Seq<char>>, startup: Option<StartupModel> },
    /// Opens a menu.
    ShowMenu { menu: Seq<char> },
    /// Restarts, or hands over to a command.
    Restart { command: Option<Seq<char>> },
    /// Logs a message.
    Debug { message: Seq<char> },
    /// Runs one of two branches.
    If { queries: Seq<QueryModel>, yes: Seq<ActionModel>, no: Seq<ActionModel> },
    /// Runs branches for every client.
    ForEach {
        queries: Seq<QueryModel>,
        yes: Seq<ActionModel>,
        no: Seq<ActionModel>,
        none: Seq<ActionModel>,
    },
    /// Does what an action without text and without branches does.
    Plain(Action),
}

impl QueryModel {
    /// A query without any predicate.
    pub open spec fn unset() -> QueryModel {
        QueryModel {
            target: ActionQueryTarget::Action,
            shaded: None,
            maximized: None,
            maximized_horizontal: None,
            maximized_vertical: None,
            minimized: None,
            fullscreen: None,
            focused: None,
            focusable: None,
            urgent: None,
            decorated: None,
            sticky: None,
            workspace: None,
            active_workspace: None,
            output: None,
            name: None,
            class: None,
            role: None,
            title: None,
            kind: None,
        }
    }
}

impl StartupNotification {
    /// What the metadata says.
    pub open spec fn model(self) -> StartupModel {
        StartupModel {
            name: text::maybe(self.name),
            icon: text::maybe(self.icon),
            wm_class: text::maybe(self.wm_class),
        }
    }

    pub(crate) fn is_valid(&self) -> (r: bool)
        ensures
            r == self.model().valid(),
    {
        is_displayable(&self.name) && is_displayable(&self.icon) && is_displayable(&self.wm_class)
    }

    fn copy(&self) -> (copied: Self)
        ensures
            copied.model() == self.model(),
    {
        StartupNotification {
            name: copy_text(&self.name),
            icon: copy_text(&self.icon),
            wm_class: copy_text(&self.wm_class),
        }
    }
}

impl Clone for StartupNotification {
    fn clone(&self) -> (copied: Self)
        ensures
            copied.model() == self.model(),
    {
        self.copy()
    }
}

impl StartupModel {
    /// Whether every given field is displayable text.
    pub open spec fn valid(self) -> bool {
        displayable(self.name) && displayable(self.icon) && displayable(self.wm_class)
    }
}

/// Whether optional text is left out or is at most 255 bytes of visible text without control
/// characters.
pub open spec fn displayable(given: Option<Seq<char>>) -> bool {
    match given {
        Some(value) => {
            &&& !text::blank(value)
            &&& text::size(value) <= 255
            &&& forall|i: int| 0 <= i < value.len() ==> !text::control(#[trigger] value[i])
        },
        None => true,
    }
}

fn is_displayable(given: &Option<String>) -> (r: bool)
    ensures
        r == displayable(text::maybe(*given)),
{
    match given {
        Some(value) => !is_blank(value.as_str()) && byte_size(value.as_str()) <= 255
            && !has_control(value.as_str()),
        None => true,
    }
}

/// A copy of optional text.
pub(crate) fn copy_text(given: &Option<String>) -> (copied: Option<String>)
    ensures
        text::maybe(copied) == text::maybe(*given),
        copied == *given,
{
    match given {
        Some(value) => Some(value.clone()),
        None => None,
    }
}

/// The models of queries.
pub open spec fn query_models(queries: Seq<ActionQuery>) -> Seq<QueryModel> {
    Seq::new(queries.len(), |i: int| queries[i].model())
}

/// The models of actions.
pub open spec fn action_models(actions: Seq<Action>) -> Seq<ActionModel>
    decreases actions,
{
    if actions.len() == 0 {
        Seq::empty()
    } else {
        action_models(actions.drop_last()).push(actions.last().model())
    }
}

/// The models of actions are theirs one by one.
pub proof fn lemma_action_models(actions: Seq<Action>)
    ensures
        action_models(actions).len() == actions.len(),
        forall|i: int|
            0 <= i < actions.len() ==> #[trigger] action_models(actions)[i] == actions[i].model(),
    decreases actions.len(),
{
    if actions.len() > 0 {
        lemma_action_models(actions.drop_last());
    }
}

impl Action {
    /// What the action does.
    pub open spec fn model(self) -> ActionModel
        decreases self,
    {
        match self {
            Action::Execute { command, prompt, startup_notify } => ActionModel::Execute {
                command: command@,
                prompt: text::maybe(prompt),
                startup: match startup_notify {
                    Some(notification) => Some(notification.model()),
                    None => None,
                },
            },
            Action::ShowMenu { menu } => ActionModel::ShowMenu { menu: menu@ },
            Action::Restart { command } => ActionModel::Restart { command: text::maybe(command) },
            Action::Debug { message } => ActionModel::Debug { message: message@ },
            Action::If { queries, then_actions, else_actions } => ActionModel::If {
                queries: query_models(queries@),
                yes: action_models(then_actions@),
                no: action_models(else_actions@),
            },
            Action::ForEach { queries, then_actions, else_actions, none } => ActionModel::ForEach {
                queries: query_models(queries@),
                yes: action_models(then_actions@),
                no: action_models(else_actions@),
                none: action_models(none@),
            },
            _ => ActionModel::Plain(self),
        }
    }
}

impl ActionQuery {
    /// What the query asks.
    pub open spec fn model(self) -> QueryModel {
        QueryModel {
            target: self.target,
            shaded: self.shaded,
            maximized: self.maximized,
            maximized_horizontal: self.maximized_horizontal,
            maximized_vertical: self.maximized_vertical,
            minimized: self.minimized,
            fullscreen: self.fullscreen,
            focused: self.focused,
            focusable: self.focusable,
            urgent: self.urgent,
            decorated: self.decorated,
            sticky: self.sticky,
            workspace: self.workspace,
            active_workspace: self.active_workspace,
            output: self.output,
            name: text::maybe(self.name),
            class: text::maybe(self.class),
            role: text::maybe(self.role),
            title: text::maybe(self.title),
            kind: self.kind,
        }
    }

    fn copy(&self) -> (copied: Self)
        ensures
            copied.model() == self.model(),
    {
        ActionQuery {
            target: self.target,
            shaded: self.shaded,
            maximized: self.maximized,
            maximized_horizontal: self.maximized_horizontal,
            maximized_vertical: self.maximized_vertical,
            minimized: self.minimized,
            fullscreen: self.fullscreen,
            focused: self.focused,
            focusable: self.focusable,
            urgent: self.urgent,
            decorated: self.decorated,
            sticky: self.sticky,
            workspace: self.workspace,
            active_workspace: self.active_workspace,
            output: self.output,
            name: copy_text(&self.name),
            class: copy_text(&self.class),
            role: copy_text(&self.role),
            title: copy_text(&self.title),
            kind: self.kind,
        }
    }

    /// Whether the query accepts a client, or no client, on an active workspace.
    pub open spec fn accepts(
        self,
        context: Option<ActionQueryContext<'_>>,
        active_workspace: u32,
    ) -> bool {
        let active = self.active_workspace is Some ==> self.active_workspace->Some_0.value() - 1
            == active_workspace;
        match context {
            None => active && self.active_workspace is Some,
            Some(context) => active && self.accepts_client(context),
        }
    }

    /// Whether every predicate on the client holds.
    pub open spec fn accepts_client(self, context: ActionQueryContext<'_>) -> bool {
        &&& agrees(self.shaded, context.shaded)
        &&& agrees(self.maximized, (context.maximized_horizontal && context.maximized_vertical))
        &&& agrees(self.maximized_horizontal, context.maximized_horizontal)
        &&& agrees(self.maximized_vertical, context.maximized_vertical)
        &&& agrees(self.minimized, context.minimized)
        &&& agrees(self.fullscreen, context.fullscreen)
        &&& agrees(self.focused, context.focused)
        &&& agrees(self.focusable, context.focusable)
        &&& agrees(self.urgent, context.urgent)
        &&& agrees(self.decorated, context.decorated)
        &&& agrees(self.sticky, context.workspace is None)
        &&& self.workspace is Some ==> self.workspace->Some_0.holds(context)
        &&& self.output is Some ==> self.output->Some_0.value() == context.output
        &&& wildcard::accepted_if_given(self.name, context.identity.name@)
        &&& wildcard::accepted_if_given(self.class, context.identity.class@)
        &&& wildcard::accepted_if_given(self.role, context.identity.role@)
        &&& wildcard::accepted_if_given(self.title, context.identity.title@)
        &&& self.kind is Some ==> self.kind == Some(context.identity.kind)
    }

    /// Returns whether this query accepts the supplied client and active workspace.
    #[must_use]
    pub fn matches(
        &self,
        context: Option<ActionQueryContext<'_>>,
        active_workspace: u32,
    ) -> (matched: bool)
        ensures
            matched == self.accepts(context, active_workspace),
    {
        if let Some(workspace) = self.active_workspace {
            if workspace.get() - 1 != active_workspace {
                return false;
            }
        }
        let context = match context {
            Some(context) => context,
            None => {
                return self.active_workspace.is_some();
            },
        };
        let maximized = context.maximized_horizontal && context.maximized_vertical;
        let sticky = context.workspace.is_none();
        agrees_with(self.shaded, context.shaded) && agrees_with(self.maximized, maximized)
            && agrees_with(self.maximized_horizontal, context.maximized_horizontal)
            && agrees_with(self.maximized_vertical, context.maximized_vertical)
            && agrees_with(self.minimized, context.minimized)
            && agrees_with(self.fullscreen, context.fullscreen)
            && agrees_with(self.focused, context.focused)
            && agrees_with(self.focusable, context.focusable)
            && agrees_with(self.urgent, context.urgent)
            && agrees_with(self.decorated, context.decorated)
            && agrees_with(self.sticky, sticky)
            && (match self.workspace {
                Some(workspace) => workspace.is_met(context),
                None => true,
            })
            && (match self.output {
                Some(output) => output.get() == context.output,
                None => true,
            })
            && matches_if_given(&self.name, context.identity.name)
            && matches_if_given(&self.class, context.identity.class)
            && matches_if_given(&self.role, context.identity.role)
            && matches_if_given(&self.title, context.identity.title)
            && (match self.kind {
                Some(kind) => kind == context.identity.kind,
                None => true,
            })
    }
}

/// Whether a predicate is left out or has the actual value.
pub open spec fn agrees(expected: Option<bool>, actual: bool) -> bool {
    expected is None || expected == Some(actual)
}

fn agrees_with(expected: Option<bool>, actual: bool) -> (r: bool)
    ensures
        r == agrees(expected, actual),
{
    match expected {
        Some(expected) => expected == actual,
        None => true,
    }
}

impl ActionQueryWorkspace {
    /// Whether a client's workspace meets the predicate; a sticky client is on every workspace
    /// but on none in particular.
    pub open spec fn holds(self, context: ActionQueryContext<'_>) -> bool {
        match self {
            ActionQueryWorkspace::Relative(ActionQueryWorkspaceRelation::Current) => {
                context.workspace is None || context.workspace == Some(context.active_workspace)
            },
            ActionQueryWorkspace::Relative(ActionQueryWorkspaceRelation::Other) => {
                context.workspace is Some && context.workspace != Some(context.active_workspace)
            },
            ActionQueryWorkspace::Relative(ActionQueryWorkspaceRelation::Last) => {
                context.workspace == Some(context.last_workspace)
            },
            ActionQueryWorkspace::Number(workspace) => {
                context.workspace is None || context.workspace->Some_0 == workspace.value() - 1
            },
        }
    }

    fn is_met(self, context: ActionQueryContext<'_>) -> (r: bool)
        ensures
            r == self.holds(context),
    {
        match (self, context.workspace) {
            (ActionQueryWorkspace::Relative(ActionQueryWorkspaceRelation::Current), workspace) => {
                match workspace {
                    Some(workspace) => workspace == context.active_workspace,
                    None => true,
                }
            },
            (ActionQueryWorkspace::Relative(ActionQueryWorkspaceRelation::Other), workspace) => {
                match workspace {
                    Some(workspace) => workspace != context.active_workspace,
                    None => false,
                }
            },
            (ActionQueryWorkspace::Relative(ActionQueryWorkspaceRelation::Last), workspace) => {
                match workspace {
                    Some(workspace) => workspace == context.last_workspace,
                    None => false,
                }
            },
            (ActionQueryWorkspace::Number(number), workspace) => {
                match workspace {
                    Some(workspace) => workspace == number.get() - 1,
                    None => true,
                }
            },
        }
    }
}

impl Clone for ActionQuery {
    fn clone(&self) -> (copied: Self)
        ensures
            copied.model() == self.model(),
    {
        self.copy()
    }
}

/// A copy of queries.
fn copy_queries(queries: &Vec<ActionQuery>) -> (copied: Vec<ActionQuery>)
    ensures
        query_models(copied@) == query_models(queries@),
{
    let mut copied: Vec<ActionQuery> = Vec::new();
    let mut index: usize = 0;
    while index < queries.len()
        invariant
            index <= queries.len(),
            copied.len() == index,
            forall|i: int|
                0 <= i < index ==> (#[trigger] copied@[i]).model() == queries@[i].model(),
        decreases queries.len() - index,
    {
        copied.push(queries[index].copy());
        index = index + 1;
    }
    assert(query_models(copied@) =~= query_models(queries@));
    copied
}

/// A copy of actions.
pub(crate) fn copy_actions(actions: &Vec<Action>) -> (copied: Vec<Action>)
    ensures
        action_models(copied@) == action_models(actions@),
        copied.len() == actions.len(),
    decreases actions,
{
    let mut copied: Vec<Action> = Vec::new();
    let mut index: usize = 0;
    while index < actions.len()
        invariant
            index <= actions.len(),
            copied.len() == index,
            action_models(copied@) == action_models(actions@.take(index as int)),
        decreases actions.len() - index,
    {
        let next = actions[index].copy();
        assert(actions@.take(index + 1).drop_last() =~= actions@.take(index as int));
        let ghost longer = copied@.push(next);
        assert(longer.drop_last() =~= copied@);
        copied.push(next);
        index = index + 1;
    }
    assert(actions@.take(index as int) =~= actions@);
    copied
}

impl Action {
    fn copy(&self) -> (copied: Self)
        ensures
            copied.model() == self.model(),
        decreases self,
    {
        match self {
            Action::Execute { command, prompt, startup_notify } => Action::Execute {
                command: command.clone(),
                prompt: copy_text(prompt),
                startup_notify: match startup_notify {
                    Some(notification) => Some(notification.copy()),
                    None => None,
                },
            },
            Action::LaunchTerminal => Action::LaunchTerminal,
            Action::Screenshot { target } => Action::Screenshot { target: *target },
            Action::ShowMenu { menu } => Action::ShowMenu { menu: menu.clone() },
            Action::Reconfigure => Action::Reconfigure,
            Action::Restart { command } => Action::Restart { command: copy_text(command) },
            Action::SessionLogout { prompt } => Action::SessionLogout { prompt: *prompt },
            Action::Debug { message } => Action::Debug { message: message.clone() },
            Action::If { queries, then_actions, else_actions } => Action::If {
                queries: copy_queries(queries),
                then_actions: copy_actions(then_actions),
                else_actions: copy_actions(else_actions),
            },
            Action::ForEach { queries, then_actions, else_actions, none } => Action::ForEach {
                queries: copy_queries(queries),
                then_actions: copy_actions(then_actions),
                else_actions: copy_actions(else_actions),
                none: copy_actions(none),
            },
            Action::Stop => Action::Stop,
            Action::Close => Action::Close,
            Action::Kill => Action::Kill,
            Action::Focus { here } => Action::Focus { here: *here },
            Action::FocusToBottom => Action::FocusToBottom,
            Action::Unfocus => Action::Unfocus,
            Action::FocusFallback => Action::FocusFallback,
            Action::Raise => Action::Raise,
            Action::Lower => Action::Lower,
            Action::RaiseLower => Action::RaiseLower,
            Action::Minimize => Action::Minimize,
            Action::Maximize { direction } => Action::Maximize { direction: *direction },
            Action::Unmaximize { direction } => Action::Unmaximize { direction: *direction },
            Action::ToggleMaximize => Action::ToggleMaximize,
            Action::ToggleMaximizeHorizontal => Action::ToggleMaximizeHorizontal,
            Action::ToggleMaximizeVertical => Action::ToggleMaximizeVertical,
            Action::ToggleFullscreen => Action::ToggleFullscreen,
            Action::ToggleAlwaysOnTop => Action::ToggleAlwaysOnTop,
            Action::ToggleAlwaysOnBottom => Action::ToggleAlwaysOnBottom,
            Action::SendToLayer { layer } => Action::SendToLayer { layer: *layer },
            Action::Decorate => Action::Decorate,
            Action::Undecorate => Action::Undecorate,
            Action::ToggleDecorations => Action::ToggleDecorations,
            Action::ToggleSticky => Action::ToggleSticky,
            Action::Shade => Action::Shade,
            Action::Unshade => Action::Unshade,
            Action::ToggleShade => Action::ToggleShade,
            Action::ShadeLower => Action::ShadeLower,
            Action::UnshadeRaise => Action::UnshadeRaise,
            Action::ToggleShowDesktop { strict } => Action::ToggleShowDesktop { strict: *strict },
            Action::Move => Action::Move,
            Action::Resize { edge } => Action::Resize { edge: *edge },
            Action::MoveRelative { x, y } => Action::MoveRelative { x: *x, y: *y },
            Action::ResizeRelative { left, right, top, bottom } => Action::ResizeRelative {
                left: *left,
                right: *right,
                top: *top,
                bottom: *bottom,
            },
            Action::MoveToEdge { direction } => Action::MoveToEdge { direction: *direction },
            Action::GrowToEdge { direction } => Action::GrowToEdge { direction: *direction },
            Action::GrowToFill => Action::GrowToFill,
            Action::ShrinkToEdge { direction } => Action::ShrinkToEdge { direction: *direction },
            Action::MoveResizeTo { x, y, width, height, width_basis, height_basis, output } => Action::MoveResizeTo {
                x: *x,
                y: *y,
                width: *width,
                height: *height,
                width_basis: *width_basis,
                height_basis: *height_basis,
                output: *output,
            },
            Action::MoveToCenter { output } => Action::MoveToCenter { output: *output },
            Action::FocusDirection { direction } => Action::FocusDirection {
                direction: *direction,
            },
            Action::CycleDirection { direction } => Action::CycleDirection {
                direction: *direction,
            },
            Action::NextWindow => Action::NextWindow,
            Action::PreviousWindow => Action::PreviousWindow,
            Action::PreviousWorkspace => Action::PreviousWorkspace,
            Action::NextWorkspace => Action::NextWorkspace,
            Action::LastWorkspace => Action::LastWorkspace,
            Action::AddWorkspace { at } => Action::AddWorkspace { at: *at },
            Action::RemoveWorkspace { at } => Action::RemoveWorkspace { at: *at },
            Action::WorkspaceLeft { wrap } => Action::WorkspaceLeft { wrap: *wrap },
            Action::WorkspaceRight { wrap } => Action::WorkspaceRight { wrap: *wrap },
            Action::WorkspaceUp { wrap } => Action::WorkspaceUp { wrap: *wrap },
            Action::WorkspaceDown { wrap } => Action::WorkspaceDown { wrap: *wrap },
            Action::SwitchWorkspace { workspace } => Action::SwitchWorkspace {
                workspace: *workspace,
            },
            Action::MoveToWorkspace { workspace, follow } => Action::MoveToWorkspace {
                workspace: *workspace,
                follow: *follow,
            },
            Action::MoveToPreviousWorkspace { follow } => Action::MoveToPreviousWorkspace {
                follow: *follow,
            },
            Action::MoveToNextWorkspace { follow } => Action::MoveToNextWorkspace {
                follow: *follow,
            },
            Action::MoveToLastWorkspace { follow } => Action::MoveToLastWorkspace {
                follow: *follow,
            },
            Action::MoveToWorkspaceLeft { follow, wrap } => Action::MoveToWorkspaceLeft {
                follow: *follow,
                wrap: *wrap,
            },
            Action::MoveToWorkspaceRight { follow, wrap } => Action::MoveToWorkspaceRight {
                follow: *follow,
                wrap: *wrap,
            },
            Action::MoveToWorkspaceUp { follow, wrap } => Action::MoveToWorkspaceUp {
                follow: *follow,
                wrap: *wrap,
            },
            Action::MoveToWorkspaceDown { follow, wrap } => Action::MoveToWorkspaceDown {
                follow: *follow,
                wrap: *wrap,
            },
            Action::Exit { prompt } => Action::Exit { prompt: *prompt },
        }
    }
}

impl Clone for Action {
    fn clone(&self) -> (copied: Self)
        ensures
            copied.model() == self.model(),
    {
        self.copy()
    }
}

/// A query without a client holds only if it asks for the active workspace and nothing is
/// wrong with that.
pub proof fn law_queries_without_a_client(query: ActionQuery, active_workspace: u32)
    ensures
        query.accepts(None, active_workspace) <==> query.active_workspace is Some
            && query.active_workspace->Some_0.value() - 1 == active_workspace,
{
}

/// A query without any predicate accepts every client.
pub proof fn law_unset_queries_accept_every_client(
    query: ActionQuery,
    context: ActionQueryContext<'_>,
    active_workspace: u32,
)
    requires
        query.model() == QueryModel::unset(),
    ensures
        query.accepts(Some(context), active_workspace),
{
    assert(text::maybe(query.name) is None);
    assert(text::maybe(query.class) is None);
    assert(text::maybe(query.role) is None);
    assert(text::maybe(query.title) is None);
}

} // verus!
