//! Window-manager policy that knows no display server: what a desktop of clients is and how it
//! changes, what a configuration may say, what an agent may see and do, and which applications
//! there are.

pub mod agent;
pub mod arrange;
pub mod arrange_laws;
pub mod capability;
mod client_map;
pub mod clients;
pub mod config;
pub mod desk;
pub mod desk_laws;
pub mod desktop;
pub mod focus_laws;
pub mod geometry;
pub mod geometry_laws;
pub mod grid_laws;
pub mod ids;
pub mod num;
pub mod outputs;
pub mod path;
pub mod placement;
pub mod policy;
pub mod policy_laws;
pub mod session_laws;
pub mod size;
pub mod stacking_laws;
pub mod text;
mod text_map;
pub mod visibility;
pub mod workspace;
pub mod workspace_laws;

pub use crate::agent::world::{
    rect, ClientDescriptor, ClientDetails, ClientState, DesktopSnapshot, OutputDescriptor, Rect,
    WorkspaceDescriptor,
};
pub use crate::agent::{
    AgentSession, AgentState, ErrorCode, Generation, Grant, ProtocolError, Sequence, SessionId,
    SessionStatus,
};
pub use crate::arrange::{
    adaptive_restack, directional_grow_geometry, directional_move_geometry,
    directional_shrink_geometry, directional_target, grow_to_fill_geometry, move_resize_geometry,
    relative_resize_geometry, AxisPlacement, BlockingEdgePolicy, CardinalDirection,
    SpatialDirection,
};
pub use crate::capability::{Capability, CapabilitySet};
pub use crate::clients::ClientSet;
pub use crate::config::action::{
    Action, ActionQuery, ActionQueryContext, ActionQueryTarget, ActionQueryWorkspace,
    ActionQueryWorkspaceRelation, EdgeDirection, LayerTarget, MaximizeDirection, ResizeEdge,
    ScreenshotTarget, StartupNotification, WindowDirection, WorkspacePlacement,
};
pub use crate::config::agent::{
    AgentConfig, AgentGrant, AgentLaunchConfig, AgentPolicy, GrantedCapability, LaunchPolicy,
    MAX_AGENT_GRANTS, MAX_AGENT_SOCKET_PATH, MAX_DESKTOP_ENTRY_LEN, MAX_LAUNCH_ENTRIES,
    MAX_SUPPRESSION_MS,
};
pub use crate::config::amounts::{
    AxisPosition, AxisPositionError, OutputTarget, OutputTargetError, Positive,
    PositiveRelativeAmount, PositiveRelativeAmountError, RelativeAmount, RelativeAmountError,
    SizeBasis,
};
pub use crate::config::bindings::{
    standard_key_bindings, standard_mouse_bindings, KeyBinding, MouseBinding, MouseBindingSelector,
};
pub use crate::config::color::{ColorError, RgbColor};
pub use crate::config::display::{
    OutputConfig, OutputModeConfig, OutputModeError, OutputPosition, OutputScale, OutputTransform,
    OutputsConfig, MAX_OUTPUTS,
};
pub use crate::config::document::{
    ConfigDocument, ConfigDocumentError, SettingsDocument, SettingsError,
    MAX_SETTINGS_SOURCE_BYTES,
};
pub use crate::config::error::ConfigError;
pub use crate::config::input::{KeyboardConfig, MouseConfig};
pub use crate::config::keys::{
    KeyChord, KeyChordError, KeySequence, KeySequenceError, KeyboardModifier,
};
pub use crate::config::menu::{MenuDefinition, MenuEntry, MenuSource};
pub use crate::config::menus::MenuConfig;
pub use crate::config::openbox_theme::{OpenboxThemeImport, OpenboxThemeImportError};
pub use crate::config::panel::{
    PanelConfig, PanelItem, PanelPosition, PanelTaskScope, MAX_PANEL_ITEMS, MAX_PANEL_LAUNCHERS,
};
pub use crate::config::paths::{config_dir, config_path, state_path};
pub use crate::config::pointer::{
    mouse_context_chain, MouseButton, MouseChord, MouseChordError, MouseContext, MouseModifier,
    MouseTrigger,
};
pub use crate::config::rules::{
    ApplicationIdentity, ApplicationKind, ApplicationLayer, ApplicationMatcher,
    ApplicationMaximized, ApplicationPosition, ApplicationRule, ApplicationSettings,
    ApplicationSize, ApplicationWorkspace,
};
pub use crate::config::setting_key::{SettingKey, SettingKind, SettingValue};
pub use crate::config::settings::{
    CommandsConfig, FocusConfig, MarginConfig, PlacementConfig, ShortcutsConfig, SwitcherConfig,
    WaylandConfig, WorkspaceConfig, MAX_WORKSPACES,
};
pub use crate::config::theme::{ThemeConfig, TitleAlignment};
pub use crate::config::{Config, MAX_COMMAND_MENU_BYTES};
pub use crate::desktop::application::{ApplicationCategory, DesktopApplication, LaunchCommand};
pub use crate::desktop::catalog::{ApplicationCatalog, ApplicationGroup, DesktopFile};
pub use crate::geometry::{
    DecorationExtents, EdgeReservation, EdgeReservations, Geometry, ResizeDeltas,
};
pub use crate::ids::{ClientId, OutputId, WorkspaceId};
pub use crate::outputs::{Output, OutputCoverage, OutputSet};
pub use crate::placement::{centered_placement, smart_placement};
pub use crate::policy::{
    Client, ClientCapabilities, ClientDecorations, ClientLayer, ClientOperations, ClientPolicy,
    ClientPresentation, ClientRole, DecorationOverride, FullscreenState, Gravity, MaximizeState,
    RestackDecision, StackingLayer, TransientTarget,
};
pub use crate::size::{AspectRange, AspectRatio, Size, SizeHints};
pub use crate::visibility::AgentVisibility;
pub use crate::workspace::{
    WorkspaceAssignment, WorkspaceCorner, WorkspaceDirection, WorkspaceLayout, WorkspaceOrientation,
};
