//! Client roles, capabilities, decorations, and the state of one client.

use vstd::prelude::*;

use crate::geometry;
use crate::geometry::{DecorationExtents, Geometry};
use crate::ids::ClientId;
use crate::num;
use crate::outputs::OutputCoverage;
use crate::size::{Size, SizeHints};
use crate::workspace::WorkspaceAssignment;

verus! {

/// Policy-level target of a transient relationship.
#[derive(Clone, Copy, Debug, PartialEq, Eq, Structural)]
pub enum TransientTarget {
    /// A specific managed client.
    Client(ClientId),
    /// Every client sharing the transient's application group.
    Group,
}

/// Functional role of a top-level client, independent of display protocol.
#[derive(Clone, Copy, Debug, Default, PartialEq, Eq, Structural)]
pub enum ClientRole {
    /// A regular application window.
    #[default]
    Normal,
    /// A dialog associated with another window or application.
    Dialog,
    /// A compact utility window.
    Utility,
    /// A detachable application toolbar.
    Toolbar,
    /// A detachable application menu.
    Menu,
    /// A transient splash screen.
    Splash,
    /// A desktop surface that is not manipulated like an application.
    Desktop,
    /// A panel or dock surface.
    Dock,
    /// A drop-down menu surface.
    DropdownMenu,
    /// A pop-up menu surface.
    PopupMenu,
    /// A tooltip surface.
    Tooltip,
    /// A notification surface.
    Notification,
    /// A combo-box pop-up surface.
    Combo,
    /// A drag-and-drop feedback surface.
    DragAndDrop,
}

impl ClientRole {
    /// Regular windows, dialogs, and utilities, which take every operation.
    pub open spec fn is_application(self) -> bool {
        self == ClientRole::Normal || self == ClientRole::Dialog || self == ClientRole::Utility
    }

    /// Detached toolbars and menus, which stay at their size and place.
    pub open spec fn is_detached(self) -> bool {
        self == ClientRole::Toolbar || self == ClientRole::Menu
    }

    /// Surfaces of the desktop itself rather than of an application.
    pub open spec fn is_shell(self) -> bool {
        self == ClientRole::Desktop || self == ClientRole::Dock
    }
}

/// User-requested stacking preference independent of display protocol.
#[derive(Clone, Copy, Debug, Default, PartialEq, Eq, Structural)]
pub enum ClientLayer {
    /// Keep the client below ordinary application windows.
    Below,
    /// Use the default layer selected from the client's role.
    #[default]
    Normal,
    /// Keep the client above ordinary application windows and docks.
    Above,
}

/// Effective policy stacking layer, ordered from bottom to top.
#[derive(Clone, Copy, Debug, PartialEq, Eq, PartialOrd, Ord, Structural)]
pub enum StackingLayer {
    /// Desktop background surfaces.
    Desktop,
    /// Clients explicitly kept below ordinary windows.
    Below,
    /// Ordinary application windows.
    Normal,
    /// Panels and docks.
    Dock,
    /// Clients explicitly kept above ordinary windows and docks.
    Above,
    /// Fullscreen clients.
    Fullscreen,
}

impl StackingLayer {
    /// The layer's height above the desktop.
    pub open spec fn level(self) -> int {
        match self {
            StackingLayer::Desktop => 0,
            StackingLayer::Below => 1,
            StackingLayer::Normal => 2,
            StackingLayer::Dock => 3,
            StackingLayer::Above => 4,
            StackingLayer::Fullscreen => 5,
        }
    }

    /// The higher of two layers.
    pub open spec fn highest(self, other: Self) -> Self {
        if other.level() > self.level() {
            other
        } else {
            self
        }
    }

    pub(crate) fn rank(self) -> (rank: u8)
        ensures
            rank == self.level(),
    {
        match self {
            StackingLayer::Desktop => 0,
            StackingLayer::Below => 1,
            StackingLayer::Normal => 2,
            StackingLayer::Dock => 3,
            StackingLayer::Above => 4,
            StackingLayer::Fullscreen => 5,
        }
    }
}

/// Adaptive restack operation selected from visible overlap.
#[derive(Clone, Copy, Debug, Default, PartialEq, Eq, Structural)]
pub enum RestackDecision {
    /// Keep the current stacking position because no peer obscures either side.
    #[default]
    Unchanged,
    /// Raise the target because an overlapping peer is above it.
    Raise,
    /// Lower the target because it covers an overlapping peer below it.
    Lower,
}

/// Operations the policy engine permits for a client.
#[derive(Clone, Copy, Debug, PartialEq, Eq, Structural)]
pub struct ClientCapabilities {
    /// Whether the client can receive keyboard focus.
    pub focusable: bool,
    /// Whether the client can be moved interactively.
    pub movable: bool,
    /// Whether the client can be resized interactively.
    pub resizable: bool,
    /// Whether the client can be minimized.
    pub minimizable: bool,
    /// Whether the client can be maximized.
    pub maximizable: bool,
    /// Whether the client can cover an output without decorations.
    pub fullscreenable: bool,
    /// Whether the client can be closed by the window manager.
    pub closable: bool,
}

/// User operations currently exposed for a managed client.
#[derive(Clone, Copy, Debug, PartialEq, Eq, Structural)]
pub struct ClientOperations {
    /// Move the client interactively.
    pub movable: bool,
    /// Resize the client interactively.
    pub resizable: bool,
    /// Minimize the client.
    pub minimizable: bool,
    /// Collapse the client to its titlebar.
    pub shadeable: bool,
    /// Maximize either client axis.
    pub maximizable: bool,
    /// Enter or leave fullscreen.
    pub fullscreenable: bool,
    /// Enable or disable server-side decorations.
    pub decoratable: bool,
    /// Move the client between workspaces.
    pub workspace_movable: bool,
    /// Close the client.
    pub closable: bool,
    /// Place the client above its normal layer.
    pub above: bool,
    /// Place the client below its normal layer.
    pub below: bool,
}

/// Server-side decoration elements selected for a client.
#[derive(Clone, Copy, Debug, PartialEq, Eq, Structural)]
pub struct ClientDecorations {
    /// Draw an outer border.
    pub border: bool,
    /// Draw a titlebar.
    pub titlebar: bool,
    /// Show a minimize control in the titlebar.
    pub minimize: bool,
    /// Show a maximize control in the titlebar.
    pub maximize: bool,
    /// Show a close control in the titlebar.
    pub close: bool,
}

impl ClientDecorations {
    /// A policy with no server-side decoration elements.
    #[must_use]
    pub fn none() -> (decorations: Self)
        ensures
            decorations == (ClientDecorations {
                border: false,
                titlebar: false,
                minimize: false,
                maximize: false,
                close: false,
            }),
    {
        Self { border: false, titlebar: false, minimize: false, maximize: false, close: false }
    }

    /// Whether a border or a titlebar is drawn.
    pub open spec fn shows(self) -> bool {
        self.border || self.titlebar
    }

    /// Returns whether any server-side decoration element is enabled.
    #[must_use]
    pub fn is_present(self) -> (present: bool)
        ensures
            present == self.shows(),
    {
        self.border || self.titlebar
    }

    /// The space that the decorations take around the content.
    pub open spec fn taken_space(self, border_width: u32, titlebar_height: u32) -> DecorationExtents {
        let border = if self.border {
            border_width
        } else {
            0
        };
        let titlebar = if self.titlebar {
            titlebar_height
        } else {
            0
        };
        DecorationExtents {
            left: border,
            right: border,
            top: num::dimension(border + titlebar) as u32,
            bottom: border,
        }
    }

    /// Resolves visible decoration space against theme dimensions.
    #[must_use]
    pub fn extents(self, border_width: u32, titlebar_height: u32) -> (extents: DecorationExtents)
        ensures
            extents == self.taken_space(border_width, titlebar_height),
    {
        let border: u32 = if self.border {
            border_width
        } else {
            0
        };
        let titlebar: u32 = if self.titlebar {
            titlebar_height
        } else {
            0
        };
        DecorationExtents::new(border, border, border.saturating_add(titlebar), border)
    }
}

/// User preference layered over a client's natural decoration policy.
#[derive(Clone, Copy, Debug, Default, PartialEq, Eq, Structural)]
pub enum DecorationOverride {
    /// Follow client hints and configured application policy.
    #[default]
    Default,
    /// Force the role's standard server-side decorations.
    Decorated,
    /// Suppress all server-side decorations.
    Undecorated,
}

/// Protocol-neutral behavior selected for a client.
#[derive(Clone, Copy, Debug, PartialEq, Eq, Structural)]
pub struct ClientPolicy {
    /// Functional role used to select behavior.
    pub role: ClientRole,
    /// Operations exposed to users.
    pub capabilities: ClientCapabilities,
    /// Server-side decoration elements.
    pub decorations: ClientDecorations,
}

/// Backend-neutral presentation hints attached to a managed client.
#[derive(Clone, Copy, Debug, Default, PartialEq, Eq, Structural)]
pub struct ClientPresentation {
    /// Omit the client from task-oriented window lists and focus cycling.
    pub skip_taskbar: bool,
    /// Omit the client from workspace pagers.
    pub skip_pager: bool,
    /// Draw the user's attention to the client.
    pub urgent: bool,
}

/// Active maximize axes and the geometry restored when they are cleared.
#[derive(Clone, Copy, Debug, PartialEq, Eq, Structural)]
pub struct MaximizeState {
    /// Whether the horizontal axis fills the available area.
    pub horizontal: bool,
    /// Whether the vertical axis fills the available area.
    pub vertical: bool,
    /// Geometry that returns when an axis is cleared.
    pub restore: Geometry,
}

/// Active fullscreen state and the geometry restored when it is cleared.
#[derive(Clone, Copy, Debug, PartialEq, Eq, Structural)]
pub struct FullscreenState {
    /// Geometry that returns when fullscreen ends.
    pub restore: Geometry,
}

/// What a role may do by default: applications do everything, detached tools
/// keep their size state, splash screens only move, all others do nothing.
pub open spec fn role_capabilities(role: ClientRole) -> ClientCapabilities {
    let windowed = role.is_application() || role.is_detached();
    ClientCapabilities {
        focusable: windowed,
        movable: windowed || role == ClientRole::Splash,
        resizable: windowed,
        minimizable: role.is_application(),
        maximizable: role.is_application(),
        fullscreenable: role.is_application(),
        closable: windowed,
    }
}

/// What a role is decorated with by default.
pub open spec fn role_decorations(role: ClientRole) -> ClientDecorations {
    let windowed = role.is_application() || role.is_detached();
    ClientDecorations {
        border: windowed,
        titlebar: windowed,
        minimize: role.is_application(),
        maximize: role.is_application(),
        close: windowed,
    }
}

/// The decorations that result from a user preference over natural ones.
pub open spec fn preferred_decorations(
    policy: ClientPolicy,
    natural: ClientDecorations,
    preference: DecorationOverride,
) -> ClientDecorations {
    match preference {
        DecorationOverride::Default => natural,
        DecorationOverride::Decorated => {
            let standard = role_decorations(policy.role);
            ClientDecorations {
                border: standard.border,
                titlebar: standard.titlebar,
                minimize: standard.minimize && policy.capabilities.minimizable,
                maximize: standard.maximize && policy.capabilities.maximizable,
                close: standard.close && policy.capabilities.closable,
            }
        },
        DecorationOverride::Undecorated => ClientDecorations {
            border: false,
            titlebar: false,
            minimize: false,
            maximize: false,
            close: false,
        },
    }
}

/// Whether a policy shows the decorations that a user preference gives over natural ones.
#[verifier::opaque]
pub open spec fn is_decorated(
    policy: ClientPolicy,
    natural: ClientDecorations,
    preference: DecorationOverride,
) -> bool {
    policy.decorations == preferred_decorations(policy, natural, preference)
}

impl ClientPolicy {
    /// The same policy with other decorations.
    pub open spec fn decorated_with(self, decorations: ClientDecorations) -> ClientPolicy {
        ClientPolicy { role: self.role, capabilities: self.capabilities, decorations }
    }

    /// Returns the default policy for a functional client role.
    #[must_use]
    pub fn for_role(role: ClientRole) -> (policy: Self)
        ensures
            policy.role == role,
            policy.capabilities == role_capabilities(role),
            policy.decorations == role_decorations(role),
    {
        let standard_capabilities = ClientCapabilities {
            focusable: true,
            movable: true,
            resizable: true,
            minimizable: true,
            maximizable: true,
            fullscreenable: true,
            closable: true,
        };
        let standard_decorations = ClientDecorations {
            border: true,
            titlebar: true,
            minimize: true,
            maximize: true,
            close: true,
        };
        let no_capabilities = ClientCapabilities {
            focusable: false,
            movable: false,
            resizable: false,
            minimizable: false,
            maximizable: false,
            fullscreenable: false,
            closable: false,
        };
        match role {
            ClientRole::Normal | ClientRole::Dialog | ClientRole::Utility => Self {
                role,
                capabilities: standard_capabilities,
                decorations: standard_decorations,
            },
            ClientRole::Toolbar | ClientRole::Menu => Self {
                role,
                capabilities: ClientCapabilities {
                    minimizable: false,
                    maximizable: false,
                    fullscreenable: false,
                    ..standard_capabilities
                },
                decorations: ClientDecorations {
                    minimize: false,
                    maximize: false,
                    ..standard_decorations
                },
            },
            ClientRole::Splash => Self {
                role,
                capabilities: ClientCapabilities { movable: true, ..no_capabilities },
                decorations: ClientDecorations::none(),
            },
            ClientRole::Desktop
            | ClientRole::Dock
            | ClientRole::DropdownMenu
            | ClientRole::PopupMenu
            | ClientRole::Tooltip
            | ClientRole::Notification
            | ClientRole::Combo
            | ClientRole::DragAndDrop => Self {
                role,
                capabilities: no_capabilities,
                decorations: ClientDecorations::none(),
            },
        }
    }

    /// Applies a user decoration preference while retaining this policy as the
    /// natural state restored when the preference is cleared.
    #[must_use]
    pub fn with_decoration_override(self, preference: DecorationOverride) -> (policy: Self)
        ensures
            policy == self.decorated_with(
                preferred_decorations(self, self.decorations, preference),
            ),
    {
        policy_with_decoration_override(self, self.decorations, preference)
    }
}

pub(crate) fn policy_with_decoration_override(
    policy: ClientPolicy,
    natural: ClientDecorations,
    preference: DecorationOverride,
) -> (r: ClientPolicy)
    ensures
        r == policy.decorated_with(preferred_decorations(policy, natural, preference)),
        is_decorated(r, natural, preference),
{
    proof {
        reveal(is_decorated);
    }
    let decorations: ClientDecorations = match preference {
        DecorationOverride::Default => natural,
        DecorationOverride::Decorated => {
            let standard = ClientPolicy::for_role(policy.role).decorations;
            ClientDecorations {
                border: standard.border,
                titlebar: standard.titlebar,
                minimize: standard.minimize && policy.capabilities.minimizable,
                maximize: standard.maximize && policy.capabilities.maximizable,
                close: standard.close && policy.capabilities.closable,
            }
        },
        DecorationOverride::Undecorated => ClientDecorations::none(),
    };
    ClientPolicy { role: policy.role, capabilities: policy.capabilities, decorations }
}

/// State retained for a managed top-level client.
#[derive(Clone, Copy, Debug, PartialEq, Eq, Structural)]
pub struct Client {
    /// Backend identifier.
    pub id: ClientId,
    /// Last known geometry.
    pub geometry: Geometry,
    /// Client-supplied size constraints.
    pub size_hints: SizeHints,
    /// Anchor used when a resize omits coordinates.
    pub gravity: Gravity,
    /// Functional role, capabilities, and decoration policy.
    pub policy: ClientPolicy,
    /// Decoration policy derived from client hints and application rules.
    pub natural_decorations: ClientDecorations,
    /// Explicit user preference layered over natural decorations.
    pub decoration_override: DecorationOverride,
    /// User-interface presentation hints, independent of display protocol.
    pub presentation: ClientPresentation,
    /// Client or application group this client is transient for.
    pub transient_for: Option<TransientTarget>,
    /// Application group identifier, which need not be a managed client.
    pub group: Option<ClientId>,
    /// Whether this transient blocks interaction with its parent or group.
    pub modal: bool,
    /// Whether the client is managed but intentionally not mapped.
    pub iconic: bool,
    /// Whether only the client's server-side titlebar is visible.
    pub shaded: bool,
    /// Policy workspace membership, independent of display protocol.
    pub workspace: WorkspaceAssignment,
    /// User-requested stacking preference.
    pub layer: ClientLayer,
    /// Active maximize axes and their restore geometry.
    pub maximize: Option<MaximizeState>,
    /// Active fullscreen state and its restore geometry.
    pub fullscreen: Option<FullscreenState>,
    /// Exact output area covered without a managed fullscreen transition.
    pub output_coverage: Option<OutputCoverage>,
}

impl Client {
    /// Whether the horizontal axis is maximized.
    pub open spec fn wide(self) -> bool {
        self.maximize matches Some(state) && state.horizontal
    }

    /// Whether the vertical axis is maximized.
    pub open spec fn tall(self) -> bool {
        self.maximize matches Some(state) && state.vertical
    }

    /// The geometry shown once fullscreen and maximize state are cleared.
    pub open spec fn natural_geometry(self) -> Geometry {
        let windowed = match self.fullscreen {
            Some(state) => state.restore,
            None => self.geometry,
        };
        match self.maximize {
            Some(state) => Geometry {
                x: if state.horizontal {
                    state.restore.x
                } else {
                    windowed.x
                },
                y: if state.vertical {
                    state.restore.y
                } else {
                    windowed.y
                },
                width: if state.horizontal {
                    state.restore.width
                } else {
                    windowed.width
                },
                height: if state.vertical {
                    state.restore.height
                } else {
                    windowed.height
                },
            },
            None => windowed,
        }
    }

    /// Returns the content geometry that should survive after management ends.
    #[must_use]
    pub fn unmanaged_geometry(self) -> (geometry: Geometry)
        ensures
            geometry == self.natural_geometry(),
    {
        let mut geometry: Geometry = match self.fullscreen {
            Some(fullscreen) => fullscreen.restore,
            None => self.geometry,
        };
        if let Some(maximize) = self.maximize {
            if maximize.horizontal {
                geometry.x = maximize.restore.x;
                geometry.width = maximize.restore.width;
            }
            if maximize.vertical {
                geometry.y = maximize.restore.y;
                geometry.height = maximize.restore.height;
            }
        }
        geometry
    }

    /// The user operations available in the client's current state.
    pub open spec fn allowed_operations(self) -> ClientOperations {
        let windowed = self.fullscreen is None;
        let capabilities = self.policy.capabilities;
        let role = self.policy.role;
        ClientOperations {
            movable: capabilities.movable,
            resizable: capabilities.resizable && windowed,
            minimizable: capabilities.minimizable,
            shadeable: self.policy.decorations.titlebar && windowed,
            maximizable: capabilities.maximizable && windowed,
            fullscreenable: capabilities.fullscreenable,
            decoratable: role_decorations(role).shows() && windowed,
            workspace_movable: role != ClientRole::Desktop,
            closable: capabilities.closable,
            above: (role.is_application() || role.is_detached()) && windowed,
            below: role == ClientRole::Dock || ((role.is_application() || role.is_detached())
                && windowed),
        }
    }

    /// Resolves the user operations available in the client's current state.
    #[must_use]
    pub fn operations(self) -> (operations: ClientOperations)
        ensures
            operations == self.allowed_operations(),
    {
        let capabilities: ClientCapabilities = self.policy.capabilities;
        let fullscreen: bool = self.fullscreen.is_some();
        let (workspace_movable, above, below): (bool, bool, bool) = match self.policy.role {
            ClientRole::Desktop => (false, false, false),
            ClientRole::Dock => (true, false, true),
            ClientRole::Normal
            | ClientRole::Dialog
            | ClientRole::Utility
            | ClientRole::Toolbar
            | ClientRole::Menu => (true, !fullscreen, !fullscreen),
            ClientRole::Splash
            | ClientRole::DropdownMenu
            | ClientRole::PopupMenu
            | ClientRole::Tooltip
            | ClientRole::Notification
            | ClientRole::Combo
            | ClientRole::DragAndDrop => (true, false, false),
        };
        ClientOperations {
            movable: capabilities.movable,
            resizable: capabilities.resizable && !fullscreen,
            minimizable: capabilities.minimizable,
            shadeable: self.policy.decorations.titlebar && !fullscreen,
            maximizable: capabilities.maximizable && !fullscreen,
            fullscreenable: capabilities.fullscreenable,
            decoratable: ClientPolicy::for_role(self.policy.role).decorations.is_present()
                && !fullscreen,
            workspace_movable,
            closable: capabilities.closable,
            above,
            below,
        }
    }

    /// The layer of a client that is not fullscreen.
    pub open spec fn windowed_layer(self) -> StackingLayer {
        if self.policy.role == ClientRole::Desktop {
            StackingLayer::Desktop
        } else {
            match self.layer {
                ClientLayer::Below => StackingLayer::Below,
                ClientLayer::Above => StackingLayer::Above,
                ClientLayer::Normal => if self.policy.role == ClientRole::Dock {
                    StackingLayer::Dock
                } else {
                    StackingLayer::Normal
                },
            }
        }
    }

    /// Resolves the effective stacking layer from role and requested state.
    #[must_use]
    pub fn stacking_layer(self) -> (layer: StackingLayer)
        ensures
            layer == (if self.fullscreen is Some {
                StackingLayer::Fullscreen
            } else {
                self.windowed_layer()
            }),
    {
        if self.fullscreen.is_some() {
            return StackingLayer::Fullscreen;
        }
        self.base_stacking_layer()
    }

    pub(crate) fn base_stacking_layer(self) -> (layer: StackingLayer)
        ensures
            layer == self.windowed_layer(),
    {
        match self.policy.role {
            ClientRole::Desktop => StackingLayer::Desktop,
            ClientRole::Dock => match self.layer {
                ClientLayer::Below => StackingLayer::Below,
                ClientLayer::Normal => StackingLayer::Dock,
                ClientLayer::Above => StackingLayer::Above,
            },
            _ => match self.layer {
                ClientLayer::Below => StackingLayer::Below,
                ClientLayer::Normal => StackingLayer::Normal,
                ClientLayer::Above => StackingLayer::Above,
            },
        }
    }

    /// Whether the client is transient for this specific client.
    pub open spec fn is_transient_for(self, parent: ClientId) -> bool {
        self.transient_for == Some(TransientTarget::Client(parent))
    }

    /// Whether the client is transient for its whole application group.
    pub open spec fn is_group_transient(self) -> bool {
        self.transient_for == Some(TransientTarget::Group)
    }

    /// The specific client this client is transient for.
    pub open spec fn parent(self) -> Option<ClientId> {
        match self.transient_for {
            Some(TransientTarget::Client(parent)) => Some(parent),
            _ => None,
        }
    }

    pub(crate) fn parent_id(&self) -> (parent: Option<ClientId>)
        ensures
            parent == self.parent(),
    {
        match self.transient_for {
            Some(TransientTarget::Client(parent)) => Some(parent),
            _ => None,
        }
    }

    /// The geometry that applies the given maximize axes: maximized axes fill
    /// the available area, cleared ones return to their restore geometry, and
    /// all others stay.
    pub open spec fn maximized_geometry(
        self,
        horizontal: bool,
        vertical: bool,
        available: Geometry,
    ) -> Geometry {
        let restore = self.restore_geometry();
        let across = if horizontal {
            available
        } else if self.wide() {
            restore
        } else {
            self.geometry
        };
        let down = if vertical {
            available
        } else if self.tall() {
            restore
        } else {
            self.geometry
        };
        geometry::rect(across.x as int, down.y as int, across.width as int, down.height as int)
    }

    /// The geometry maximize state restores, the current one without a state.
    pub open spec fn restore_geometry(self) -> Geometry {
        match self.maximize {
            Some(state) => state.restore,
            None => self.geometry,
        }
    }

    /// The state after a request for maximize axes. Newly maximized axes
    /// remember the current geometry.
    pub open spec fn with_maximized(
        self,
        horizontal: bool,
        vertical: bool,
        available: Geometry,
    ) -> Client {
        let restore = self.restore_geometry();
        let remembered = Geometry {
            x: if horizontal && !self.wide() {
                self.geometry.x
            } else {
                restore.x
            },
            y: if vertical && !self.tall() {
                self.geometry.y
            } else {
                restore.y
            },
            width: if horizontal && !self.wide() {
                self.geometry.width
            } else {
                restore.width
            },
            height: if vertical && !self.tall() {
                self.geometry.height
            } else {
                restore.height
            },
        };
        Client {
            geometry: self.maximized_geometry(horizontal, vertical, available),
            maximize: if self.wide() == horizontal && self.tall() == vertical {
                self.maximize
            } else if horizontal || vertical {
                Some(MaximizeState { horizontal, vertical, restore: remembered })
            } else {
                None
            },
            ..self
        }
    }

    /// Whether a request for maximize axes changes the client.
    pub open spec fn maximize_changes(
        self,
        horizontal: bool,
        vertical: bool,
        available: Geometry,
    ) -> bool {
        ||| self.wide() != horizontal
        ||| self.tall() != vertical
        ||| self.maximized_geometry(horizontal, vertical, available) != self.geometry
    }
}

/// Applies maximize axes to a client, returning geometry when it changed.
pub(crate) fn update_maximized_geometry(
    client: &mut Client,
    horizontal: bool,
    vertical: bool,
    available: Geometry,
) -> (applied: Option<Geometry>)
    ensures
        *final(client) == old(client).with_maximized(horizontal, vertical, available),
        applied == (if old(client).maximize_changes(horizontal, vertical, available) {
            Some(old(client).maximized_geometry(horizontal, vertical, available))
        } else {
            None
        }),
{
    let old_horizontal: bool = match client.maximize {
        Some(state) => state.horizontal,
        None => false,
    };
    let old_vertical: bool = match client.maximize {
        Some(state) => state.vertical,
        None => false,
    };
    let mut restore: Geometry = match client.maximize {
        Some(state) => state.restore,
        None => client.geometry,
    };
    let across: Geometry = if horizontal {
        available
    } else if old_horizontal {
        restore
    } else {
        client.geometry
    };
    let down: Geometry = if vertical {
        available
    } else if old_vertical {
        restore
    } else {
        client.geometry
    };
    let geometry: Geometry = Geometry::new(across.x, down.y, across.width, down.height);
    if old_horizontal == horizontal && old_vertical == vertical {
        if geometry == client.geometry {
            return None;
        }
        client.geometry = geometry;
        return Some(geometry);
    }
    if horizontal && !old_horizontal {
        restore.x = client.geometry.x;
        restore.width = client.geometry.width;
    }
    if vertical && !old_vertical {
        restore.y = client.geometry.y;
        restore.height = client.geometry.height;
    }
    client.geometry = geometry;
    client.maximize = if horizontal || vertical {
        Some(MaximizeState { horizontal, vertical, restore })
    } else {
        None
    };
    Some(geometry)
}

/// ICCCM window gravity, expressed without X11 protocol types.
#[derive(Clone, Copy, Debug, Default, PartialEq, Eq, Structural)]
pub enum Gravity {
    /// Keep the north-west corner fixed.
    #[default]
    NorthWest,
    /// Keep the north edge centered.
    North,
    /// Keep the north-east corner fixed.
    NorthEast,
    /// Keep the west edge centered.
    West,
    /// Keep the center fixed.
    Center,
    /// Keep the east edge centered.
    East,
    /// Keep the south-west corner fixed.
    SouthWest,
    /// Keep the south edge centered.
    South,
    /// Keep the south-east corner fixed.
    SouthEast,
    /// Keep client coordinates fixed independently of decorations.
    Static,
    /// No useful gravity was specified.
    Forget,
}

/// Where an anchor lies along one axis.
#[derive(Clone, Copy, Debug, PartialEq, Eq, Structural)]
pub enum Anchor {
    /// The starting edge stays.
    Start,
    /// The middle stays.
    Middle,
    /// The ending edge stays.
    End,
}

/// The position of an axis start after its length grew by `growth`.
pub open spec fn anchored(start: int, growth: int, anchor: Anchor) -> int {
    match anchor {
        Anchor::Start => start,
        Anchor::Middle => start - num::half(growth),
        Anchor::End => start - growth,
    }
}

impl Gravity {
    /// The horizontal anchor.
    pub open spec fn across(self) -> Anchor {
        match self {
            Gravity::North | Gravity::Center | Gravity::South => Anchor::Middle,
            Gravity::NorthEast | Gravity::East | Gravity::SouthEast => Anchor::End,
            _ => Anchor::Start,
        }
    }

    /// The vertical anchor.
    pub open spec fn down(self) -> Anchor {
        match self {
            Gravity::West | Gravity::Center | Gravity::East => Anchor::Middle,
            Gravity::SouthWest | Gravity::South | Gravity::SouthEast => Anchor::End,
            _ => Anchor::Start,
        }
    }

    /// The position at which the anchor stays where it is, but for requested coordinates.
    pub open spec fn kept_position(
        self,
        geometry: Geometry,
        new_size: Size,
        x_was_requested: bool,
        y_was_requested: bool,
    ) -> (int, int) {
        (
            if x_was_requested {
                geometry.x as int
            } else {
                num::coordinate(
                    anchored(geometry.x as int, new_size.width - geometry.width, self.across()),
                )
            },
            if y_was_requested {
                geometry.y as int
            } else {
                num::coordinate(
                    anchored(geometry.y as int, new_size.height - geometry.height, self.down()),
                )
            },
        )
    }

    /// Adjusts omitted coordinates so the requested anchor remains stationary.
    #[must_use]
    pub fn adjust_resize(
        self,
        geometry: Geometry,
        new_size: Size,
        x_was_requested: bool,
        y_was_requested: bool,
    ) -> (position: (i32, i32))
        ensures
            (position.0 as int, position.1 as int) == self.kept_position(
                geometry,
                new_size,
                x_was_requested,
                y_was_requested,
            ),
    {
        let across: Anchor = match self {
            Gravity::North | Gravity::Center | Gravity::South => Anchor::Middle,
            Gravity::NorthEast | Gravity::East | Gravity::SouthEast => Anchor::End,
            _ => Anchor::Start,
        };
        let down: Anchor = match self {
            Gravity::West | Gravity::Center | Gravity::East => Anchor::Middle,
            Gravity::SouthWest | Gravity::South | Gravity::SouthEast => Anchor::End,
            _ => Anchor::Start,
        };
        let x: i32 = if x_was_requested {
            geometry.x
        } else {
            adjust_coordinate(geometry.x, geometry.width, new_size.width, across)
        };
        let y: i32 = if y_was_requested {
            geometry.y
        } else {
            adjust_coordinate(geometry.y, geometry.height, new_size.height, down)
        };
        (x, y)
    }
}

fn adjust_coordinate(start: i32, old_length: u32, new_length: u32, anchor: Anchor) -> (r: i32)
    ensures
        r == num::coordinate(anchored(start as int, new_length - old_length, anchor)),
{
    let growth: i64 = new_length as i64 - old_length as i64;
    match anchor {
        Anchor::Start => start,
        Anchor::Middle => num::clamp_i64_to_i32(start as i64 - num::half_i64(growth)),
        Anchor::End => num::clamp_i64_to_i32(start as i64 - growth),
    }
}

/// Maximizing an unmaximized client and clearing the axes again restores its
/// geometry and leaves no maximize state behind.
pub proof fn law_maximize_is_reversible(
    client: Client,
    horizontal: bool,
    vertical: bool,
    available: Geometry,
    later: Geometry,
)
    requires
        client.maximize is None,
        client.geometry.width >= 1,
        client.geometry.height >= 1,
    ensures
        client.with_maximized(horizontal, vertical, available).with_maximized(false, false, later)
            == client,
{
    let restored = client.with_maximized(horizontal, vertical, available).with_maximized(
        false,
        false,
        later,
    );
    assert(restored.geometry == client.geometry);
}

/// Clearing a decoration preference brings the natural decorations back.
pub proof fn law_override_is_reversible(policy: ClientPolicy, preference: DecorationOverride)
    ensures
        ({
            let natural = policy.decorations;
            let overridden = policy.decorated_with(
                preferred_decorations(policy, natural, preference),
            );
            overridden.decorated_with(
                preferred_decorations(overridden, natural, DecorationOverride::Default),
            ) == policy
        }),
{
}

} // verus!
