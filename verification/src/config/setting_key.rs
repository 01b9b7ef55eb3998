//! The settings that the editor exposes.

use vstd::prelude::*;

use crate::text;

verus! {

/// One setting exposed by the friendly editor.
#[derive(Clone, Copy, Debug, PartialEq, Eq, Structural)]
pub enum SettingKey {
    /// Preferred terminal command.
    TerminalCommand,
    /// Full-screen screenshot command.
    ScreenshotCommand,
    /// Active-window screenshot command.
    WindowScreenshotCommand,
    /// Optional external session/logout dialog command.
    SessionCommand,
    /// Whether the window manager offers an agent seat at all.
    AgentEnabled,
    /// What happens when a companion connects with no stored grant.
    AgentPolicy,
    /// How long human input keeps agent input out, in milliseconds.
    AgentSuppressionMs,
    /// Chord that freezes every agent session at once.
    AgentKillChord,
    /// Additional traditional terminal shortcut.
    TerminalShortcut,
    /// Full-screen screenshot shortcut.
    ScreenshotShortcut,
    /// Active-window screenshot shortcut.
    WindowScreenshotShortcut,
    /// Focus newly opened windows.
    FocusNew,
    /// Focus windows as the pointer enters them.
    FollowMouse,
    /// Reject stale application focus requests.
    PreventFocusStealing,
    /// Raise windows when focus changes.
    RaiseOnFocus,
    /// Center smart placement inside a free field.
    CenterFreeSpace,
    /// Ordered workspace names.
    WorkspaceNames,
    /// Number of workspace grid columns.
    WorkspaceColumns,
    /// Wrap workspace navigation.
    WorkspaceWrap,
    /// Workspace selected when no saved session overrides it.
    InitialWorkspace,
    /// Reserved top screen edge.
    MarginTop,
    /// Reserved right screen edge.
    MarginRight,
    /// Reserved bottom screen edge.
    MarginBottom,
    /// Reserved left screen edge.
    MarginLeft,
    /// Show the focus-cycle overlay.
    SwitcherEnabled,
    /// Focus-cycle overlay width.
    SwitcherWidth,
    /// Focus-cycle overlay row height.
    SwitcherRowHeight,
    /// Maximum visible focus-cycle rows.
    SwitcherMaxRows,
    /// Menu width.
    MenuWidth,
    /// Menu row height.
    MenuRowHeight,
    /// Maximum menu entries per page, including an overflow continuation.
    MenuMaxRows,
    /// Start the optional panel with the session.
    PanelEnabled,
    /// Screen edge occupied by the panel.
    PanelPosition,
    /// Panel height in pixels.
    PanelHeight,
    /// Panel background color.
    PanelBackground,
    /// Panel text color.
    PanelForeground,
    /// Active workspace and task background.
    PanelActiveBackground,
    /// Urgent task background.
    PanelUrgentBackground,
    /// Outer panel padding.
    PanelPadding,
    /// Space between panel components.
    PanelSpacing,
    /// Maximum task-button width.
    PanelTaskMaxWidth,
    /// Workspaces represented in the task list.
    PanelTaskScope,
    /// Ordered panel components.
    PanelItems,
    /// Ordered desktop-entry launchers.
    PanelLaunchers,
    /// Local clock format.
    PanelClockFormat,
    /// Show workspace buttons in the panel.
    PanelShowWorkspaces,
    /// Show task buttons in the panel.
    PanelShowTasks,
    /// Show the local clock in the panel.
    PanelShowClock,
    /// Work-area edge resistance.
    EdgeResistance,
    /// Pointer drag threshold.
    DragThreshold,
    /// Double-click interval.
    DoubleClickMs,
    /// Decoration border width.
    BorderWidth,
    /// Decoration titlebar height.
    TitlebarHeight,
    /// X11 core font name.
    Font,
    /// Title alignment.
    TitleAlignment,
    /// Title text padding.
    TitlePadding,
    /// Focused border color.
    ActiveBorder,
    /// Unfocused border color.
    InactiveBorder,
    /// Urgent border color.
    UrgentBorder,
    /// Focused titlebar color.
    ActiveTitlebar,
    /// Unfocused titlebar color.
    InactiveTitlebar,
    /// Urgent titlebar color.
    UrgentTitlebar,
    /// Title text color.
    TitleText,
    /// Minimize button color.
    MinimizeButton,
    /// Maximize button color.
    MaximizeButton,
    /// Close button color.
    CloseButton,
    /// Button glyph color.
    ButtonGlyph,
}

/// The kind of value that a setting takes.
#[derive(Clone, Copy, Debug, PartialEq, Eq, Structural)]
pub enum SettingKind {
    /// Boolean switch.
    Boolean,
    /// Non-negative integer.
    Integer,
    /// UTF-8 string.
    Text,
    /// Ordered UTF-8 string list.
    TextList,
}

/// Typed value accepted by one friendly setting.
#[derive(Clone, Debug, PartialEq, Eq)]
pub enum SettingValue {
    /// Boolean switch.
    Boolean(bool),
    /// Non-negative integer.
    Integer(u32),
    /// UTF-8 string.
    Text(String),
    /// Ordered UTF-8 string list.
    TextList(Vec<String>),
}

/// What a setting's value is.
pub ghost enum SettingModel {
    Boolean(bool),
    Integer(u32),
    Text(Seq<char>),
    TextList(Seq<Seq<char>>),
}

impl View for SettingValue {
    type V = SettingModel;

    open spec fn view(&self) -> SettingModel {
        match self {
            SettingValue::Boolean(value) => SettingModel::Boolean(*value),
            SettingValue::Integer(value) => SettingModel::Integer(*value),
            SettingValue::Text(value) => SettingModel::Text(value@),
            SettingValue::TextList(values) => SettingModel::TextList(text::lines_of(values@)),
        }
    }
}

impl SettingModel {
    /// The kind of the value.
    pub open spec fn kind(self) -> SettingKind {
        match self {
            SettingModel::Boolean(_) => SettingKind::Boolean,
            SettingModel::Integer(_) => SettingKind::Integer,
            SettingModel::Text(_) => SettingKind::Text,
            SettingModel::TextList(_) => SettingKind::TextList,
        }
    }
}

impl SettingValue {
    /// Returns the kind of the value.
    #[must_use]
    pub fn kind(&self) -> (kind: SettingKind)
        ensures
            kind == self@.kind(),
    {
        match self {
            SettingValue::Boolean(_) => SettingKind::Boolean,
            SettingValue::Integer(_) => SettingKind::Integer,
            SettingValue::Text(_) => SettingKind::Text,
            SettingValue::TextList(_) => SettingKind::TextList,
        }
    }
}

impl SettingKey {
    /// The section and the field that hold the setting.
    pub open spec fn place(self) -> (Seq<char>, Seq<char>) {
        match self {
            SettingKey::TerminalCommand => ("commands"@, "terminal"@),
            SettingKey::ScreenshotCommand => ("commands"@, "screenshot"@),
            SettingKey::WindowScreenshotCommand => ("commands"@, "window_screenshot"@),
            SettingKey::SessionCommand => ("commands"@, "session"@),
            SettingKey::AgentEnabled => ("agent"@, "enabled"@),
            SettingKey::AgentPolicy => ("agent"@, "policy"@),
            SettingKey::AgentSuppressionMs => ("agent"@, "suppression_ms"@),
            SettingKey::AgentKillChord => ("agent"@, "kill_chord"@),
            SettingKey::TerminalShortcut => ("shortcuts"@, "terminal"@),
            SettingKey::ScreenshotShortcut => ("shortcuts"@, "screenshot"@),
            SettingKey::WindowScreenshotShortcut => ("shortcuts"@, "window_screenshot"@),
            SettingKey::FocusNew => ("focus"@, "focus_new"@),
            SettingKey::FollowMouse => ("focus"@, "follow_mouse"@),
            SettingKey::PreventFocusStealing => ("focus"@, "prevent_focus_stealing"@),
            SettingKey::RaiseOnFocus => ("focus"@, "raise_on_focus"@),
            SettingKey::CenterFreeSpace => ("placement"@, "center_free_space"@),
            SettingKey::WorkspaceNames => ("workspaces"@, "names"@),
            SettingKey::WorkspaceColumns => ("workspaces"@, "columns"@),
            SettingKey::WorkspaceWrap => ("workspaces"@, "wrap"@),
            SettingKey::InitialWorkspace => ("workspaces"@, "initial"@),
            SettingKey::MarginTop => ("margins"@, "top"@),
            SettingKey::MarginRight => ("margins"@, "right"@),
            SettingKey::MarginBottom => ("margins"@, "bottom"@),
            SettingKey::MarginLeft => ("margins"@, "left"@),
            SettingKey::SwitcherEnabled => ("switcher"@, "enabled"@),
            SettingKey::SwitcherWidth => ("switcher"@, "width"@),
            SettingKey::SwitcherRowHeight => ("switcher"@, "row_height"@),
            SettingKey::SwitcherMaxRows => ("switcher"@, "max_rows"@),
            SettingKey::MenuWidth => ("menu"@, "width"@),
            SettingKey::MenuRowHeight => ("menu"@, "row_height"@),
            SettingKey::MenuMaxRows => ("menu"@, "max_rows"@),
            SettingKey::PanelEnabled => ("panel"@, "enabled"@),
            SettingKey::PanelPosition => ("panel"@, "position"@),
            SettingKey::PanelHeight => ("panel"@, "height"@),
            SettingKey::PanelBackground => ("panel"@, "background"@),
            SettingKey::PanelForeground => ("panel"@, "foreground"@),
            SettingKey::PanelActiveBackground => ("panel"@, "active_background"@),
            SettingKey::PanelUrgentBackground => ("panel"@, "urgent_background"@),
            SettingKey::PanelPadding => ("panel"@, "padding"@),
            SettingKey::PanelSpacing => ("panel"@, "spacing"@),
            SettingKey::PanelTaskMaxWidth => ("panel"@, "task_max_width"@),
            SettingKey::PanelTaskScope => ("panel"@, "task_scope"@),
            SettingKey::PanelItems => ("panel"@, "items"@),
            SettingKey::PanelLaunchers => ("panel"@, "launchers"@),
            SettingKey::PanelClockFormat => ("panel"@, "clock_format"@),
            SettingKey::PanelShowWorkspaces => ("panel"@, "show_workspaces"@),
            SettingKey::PanelShowTasks => ("panel"@, "show_tasks"@),
            SettingKey::PanelShowClock => ("panel"@, "show_clock"@),
            SettingKey::EdgeResistance => ("mouse"@, "edge_resistance"@),
            SettingKey::DragThreshold => ("mouse"@, "drag_threshold"@),
            SettingKey::DoubleClickMs => ("mouse"@, "double_click_ms"@),
            SettingKey::BorderWidth => ("theme"@, "border_width"@),
            SettingKey::TitlebarHeight => ("theme"@, "titlebar_height"@),
            SettingKey::Font => ("theme"@, "font"@),
            SettingKey::TitleAlignment => ("theme"@, "title_alignment"@),
            SettingKey::TitlePadding => ("theme"@, "title_padding"@),
            SettingKey::ActiveBorder => ("theme"@, "active_border"@),
            SettingKey::InactiveBorder => ("theme"@, "inactive_border"@),
            SettingKey::UrgentBorder => ("theme"@, "urgent_border"@),
            SettingKey::ActiveTitlebar => ("theme"@, "active_titlebar"@),
            SettingKey::InactiveTitlebar => ("theme"@, "inactive_titlebar"@),
            SettingKey::UrgentTitlebar => ("theme"@, "urgent_titlebar"@),
            SettingKey::TitleText => ("theme"@, "title_text"@),
            SettingKey::MinimizeButton => ("theme"@, "minimize_button"@),
            SettingKey::MaximizeButton => ("theme"@, "maximize_button"@),
            SettingKey::CloseButton => ("theme"@, "close_button"@),
            SettingKey::ButtonGlyph => ("theme"@, "button_glyph"@),
        }
    }

    /// The kind of value that the setting takes.
    pub open spec fn takes(self) -> SettingKind {
        match self {
            SettingKey::AgentEnabled
            | SettingKey::FocusNew
            | SettingKey::FollowMouse
            | SettingKey::PreventFocusStealing
            | SettingKey::RaiseOnFocus
            | SettingKey::CenterFreeSpace
            | SettingKey::WorkspaceWrap
            | SettingKey::SwitcherEnabled
            | SettingKey::PanelEnabled
            | SettingKey::PanelShowWorkspaces
            | SettingKey::PanelShowTasks
            | SettingKey::PanelShowClock => SettingKind::Boolean,
            SettingKey::WorkspaceNames
            | SettingKey::PanelItems
            | SettingKey::PanelLaunchers => SettingKind::TextList,
            SettingKey::TerminalCommand
            | SettingKey::ScreenshotCommand
            | SettingKey::WindowScreenshotCommand
            | SettingKey::SessionCommand
            | SettingKey::AgentPolicy
            | SettingKey::AgentKillChord
            | SettingKey::TerminalShortcut
            | SettingKey::ScreenshotShortcut
            | SettingKey::WindowScreenshotShortcut
            | SettingKey::PanelPosition
            | SettingKey::PanelBackground
            | SettingKey::PanelForeground
            | SettingKey::PanelActiveBackground
            | SettingKey::PanelUrgentBackground
            | SettingKey::PanelTaskScope
            | SettingKey::PanelClockFormat
            | SettingKey::Font
            | SettingKey::TitleAlignment
            | SettingKey::ActiveBorder
            | SettingKey::InactiveBorder
            | SettingKey::UrgentBorder
            | SettingKey::ActiveTitlebar
            | SettingKey::InactiveTitlebar
            | SettingKey::UrgentTitlebar
            | SettingKey::TitleText
            | SettingKey::MinimizeButton
            | SettingKey::MaximizeButton
            | SettingKey::CloseButton
            | SettingKey::ButtonGlyph => SettingKind::Text,
            SettingKey::AgentSuppressionMs
            | SettingKey::WorkspaceColumns
            | SettingKey::InitialWorkspace
            | SettingKey::MarginTop
            | SettingKey::MarginRight
            | SettingKey::MarginBottom
            | SettingKey::MarginLeft
            | SettingKey::SwitcherWidth
            | SettingKey::SwitcherRowHeight
            | SettingKey::SwitcherMaxRows
            | SettingKey::MenuWidth
            | SettingKey::MenuRowHeight
            | SettingKey::MenuMaxRows
            | SettingKey::PanelHeight
            | SettingKey::PanelPadding
            | SettingKey::PanelSpacing
            | SettingKey::PanelTaskMaxWidth
            | SettingKey::EdgeResistance
            | SettingKey::DragThreshold
            | SettingKey::DoubleClickMs
            | SettingKey::BorderWidth
            | SettingKey::TitlebarHeight
            | SettingKey::TitlePadding => SettingKind::Integer,
        }
    }

    /// Returns the section and the field that hold the setting.
    #[must_use]
    pub fn path(self) -> (path: (&'static str, &'static str))
        ensures
            path.0@ == self.place().0,
            path.1@ == self.place().1,
    {
        match self {
            SettingKey::TerminalCommand => ("commands", "terminal"),
            SettingKey::ScreenshotCommand => ("commands", "screenshot"),
            SettingKey::WindowScreenshotCommand => ("commands", "window_screenshot"),
            SettingKey::SessionCommand => ("commands", "session"),
            SettingKey::AgentEnabled => ("agent", "enabled"),
            SettingKey::AgentPolicy => ("agent", "policy"),
            SettingKey::AgentSuppressionMs => ("agent", "suppression_ms"),
            SettingKey::AgentKillChord => ("agent", "kill_chord"),
            SettingKey::TerminalShortcut => ("shortcuts", "terminal"),
            SettingKey::ScreenshotShortcut => ("shortcuts", "screenshot"),
            SettingKey::WindowScreenshotShortcut => ("shortcuts", "window_screenshot"),
            SettingKey::FocusNew => ("focus", "focus_new"),
            SettingKey::FollowMouse => ("focus", "follow_mouse"),
            SettingKey::PreventFocusStealing => ("focus", "prevent_focus_stealing"),
            SettingKey::RaiseOnFocus => ("focus", "raise_on_focus"),
            SettingKey::CenterFreeSpace => ("placement", "center_free_space"),
            SettingKey::WorkspaceNames => ("workspaces", "names"),
            SettingKey::WorkspaceColumns => ("workspaces", "columns"),
            SettingKey::WorkspaceWrap => ("workspaces", "wrap"),
            SettingKey::InitialWorkspace => ("workspaces", "initial"),
            SettingKey::MarginTop => ("margins", "top"),
            SettingKey::MarginRight => ("margins", "right"),
            SettingKey::MarginBottom => ("margins", "bottom"),
            SettingKey::MarginLeft => ("margins", "left"),
            SettingKey::SwitcherEnabled => ("switcher", "enabled"),
            SettingKey::SwitcherWidth => ("switcher", "width"),
            SettingKey::SwitcherRowHeight => ("switcher", "row_height"),
            SettingKey::SwitcherMaxRows => ("switcher", "max_rows"),
            SettingKey::MenuWidth => ("menu", "width"),
            SettingKey::MenuRowHeight => ("menu", "row_height"),
            SettingKey::MenuMaxRows => ("menu", "max_rows"),
            SettingKey::PanelEnabled => ("panel", "enabled"),
            SettingKey::PanelPosition => ("panel", "position"),
            SettingKey::PanelHeight => ("panel", "height"),
            SettingKey::PanelBackground => ("panel", "background"),
            SettingKey::PanelForeground => ("panel", "foreground"),
            SettingKey::PanelActiveBackground => ("panel", "active_background"),
            SettingKey::PanelUrgentBackground => ("panel", "urgent_background"),
            SettingKey::PanelPadding => ("panel", "padding"),
            SettingKey::PanelSpacing => ("panel", "spacing"),
            SettingKey::PanelTaskMaxWidth => ("panel", "task_max_width"),
            SettingKey::PanelTaskScope => ("panel", "task_scope"),
            SettingKey::PanelItems => ("panel", "items"),
            SettingKey::PanelLaunchers => ("panel", "launchers"),
            SettingKey::PanelClockFormat => ("panel", "clock_format"),
            SettingKey::PanelShowWorkspaces => ("panel", "show_workspaces"),
            SettingKey::PanelShowTasks => ("panel", "show_tasks"),
            SettingKey::PanelShowClock => ("panel", "show_clock"),
            SettingKey::EdgeResistance => ("mouse", "edge_resistance"),
            SettingKey::DragThreshold => ("mouse", "drag_threshold"),
            SettingKey::DoubleClickMs => ("mouse", "double_click_ms"),
            SettingKey::BorderWidth => ("theme", "border_width"),
            SettingKey::TitlebarHeight => ("theme", "titlebar_height"),
            SettingKey::Font => ("theme", "font"),
            SettingKey::TitleAlignment => ("theme", "title_alignment"),
            SettingKey::TitlePadding => ("theme", "title_padding"),
            SettingKey::ActiveBorder => ("theme", "active_border"),
            SettingKey::InactiveBorder => ("theme", "inactive_border"),
            SettingKey::UrgentBorder => ("theme", "urgent_border"),
            SettingKey::ActiveTitlebar => ("theme", "active_titlebar"),
            SettingKey::InactiveTitlebar => ("theme", "inactive_titlebar"),
            SettingKey::UrgentTitlebar => ("theme", "urgent_titlebar"),
            SettingKey::TitleText => ("theme", "title_text"),
            SettingKey::MinimizeButton => ("theme", "minimize_button"),
            SettingKey::MaximizeButton => ("theme", "maximize_button"),
            SettingKey::CloseButton => ("theme", "close_button"),
            SettingKey::ButtonGlyph => ("theme", "button_glyph"),
        }
    }

    /// Returns the kind of value that the setting takes.
    #[must_use]
    pub fn kind(self) -> (kind: SettingKind)
        ensures
            kind == self.takes(),
    {
        match self {
            SettingKey::AgentEnabled
            | SettingKey::FocusNew
            | SettingKey::FollowMouse
            | SettingKey::PreventFocusStealing
            | SettingKey::RaiseOnFocus
            | SettingKey::CenterFreeSpace
            | SettingKey::WorkspaceWrap
            | SettingKey::SwitcherEnabled
            | SettingKey::PanelEnabled
            | SettingKey::PanelShowWorkspaces
            | SettingKey::PanelShowTasks
            | SettingKey::PanelShowClock => SettingKind::Boolean,
            SettingKey::WorkspaceNames
            | SettingKey::PanelItems
            | SettingKey::PanelLaunchers => SettingKind::TextList,
            SettingKey::TerminalCommand
            | SettingKey::ScreenshotCommand
            | SettingKey::WindowScreenshotCommand
            | SettingKey::SessionCommand
            | SettingKey::AgentPolicy
            | SettingKey::AgentKillChord
            | SettingKey::TerminalShortcut
            | SettingKey::ScreenshotShortcut
            | SettingKey::WindowScreenshotShortcut
            | SettingKey::PanelPosition
            | SettingKey::PanelBackground
            | SettingKey::PanelForeground
            | SettingKey::PanelActiveBackground
            | SettingKey::PanelUrgentBackground
            | SettingKey::PanelTaskScope
            | SettingKey::PanelClockFormat
            | SettingKey::Font
            | SettingKey::TitleAlignment
            | SettingKey::ActiveBorder
            | SettingKey::InactiveBorder
            | SettingKey::UrgentBorder
            | SettingKey::ActiveTitlebar
            | SettingKey::InactiveTitlebar
            | SettingKey::UrgentTitlebar
            | SettingKey::TitleText
            | SettingKey::MinimizeButton
            | SettingKey::MaximizeButton
            | SettingKey::CloseButton
            | SettingKey::ButtonGlyph => SettingKind::Text,
            SettingKey::AgentSuppressionMs
            | SettingKey::WorkspaceColumns
            | SettingKey::InitialWorkspace
            | SettingKey::MarginTop
            | SettingKey::MarginRight
            | SettingKey::MarginBottom
            | SettingKey::MarginLeft
            | SettingKey::SwitcherWidth
            | SettingKey::SwitcherRowHeight
            | SettingKey::SwitcherMaxRows
            | SettingKey::MenuWidth
            | SettingKey::MenuRowHeight
            | SettingKey::MenuMaxRows
            | SettingKey::PanelHeight
            | SettingKey::PanelPadding
            | SettingKey::PanelSpacing
            | SettingKey::PanelTaskMaxWidth
            | SettingKey::EdgeResistance
            | SettingKey::DragThreshold
            | SettingKey::DoubleClickMs
            | SettingKey::BorderWidth
            | SettingKey::TitlebarHeight
            | SettingKey::TitlePadding => SettingKind::Integer,
        }
    }
}

} // verus!
