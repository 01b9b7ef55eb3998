//! Laws of the policy for one client: roles, decorations, operations, and sizes.

use vstd::prelude::*;

use crate::geometry::Geometry;
use crate::policy;
use crate::policy::{
    Client, ClientDecorations, ClientPolicy, ClientRole, DecorationOverride, Gravity,
};
use crate::size::Size;

verus! {

/// A gravity to the east keeps the right side where it is when a size changes, one in the middle
/// the center but for half a pixel, and any other the left side; one to the south keeps the bottom
/// side, one in the middle the center, and any other the top side. A requested coordinate stays.
pub proof fn law_gravity_keeps_its_anchor(gravity: Gravity, geometry: Geometry, size: Size)
    requires
        i32::MIN <= geometry.x - size.width && geometry.x + geometry.width <= i32::MAX,
        i32::MIN <= geometry.y - size.height && geometry.y + geometry.height <= i32::MAX,
    ensures
        ({
            let (x, y) = gravity.kept_position(geometry, size, false, false);
            let across = (2 * x + size.width) - (2 * geometry.x + geometry.width);
            let down = (2 * y + size.height) - (2 * geometry.y + geometry.height);
            &&& match gravity {
                Gravity::NorthEast | Gravity::East | Gravity::SouthEast => x + size.width
                    == geometry.x + geometry.width,
                Gravity::North | Gravity::Center | Gravity::South => -1 <= across <= 1,
                Gravity::NorthWest
                | Gravity::West
                | Gravity::SouthWest
                | Gravity::Static
                | Gravity::Forget => x == geometry.x,
            }
            &&& match gravity {
                Gravity::SouthWest | Gravity::South | Gravity::SouthEast => y + size.height
                    == geometry.y + geometry.height,
                Gravity::West | Gravity::Center | Gravity::East => -1 <= down <= 1,
                Gravity::NorthWest
                | Gravity::North
                | Gravity::NorthEast
                | Gravity::Static
                | Gravity::Forget => y == geometry.y,
            }
            &&& gravity.kept_position(geometry, size, true, false) == (geometry.x as int, y)
            &&& gravity.kept_position(geometry, size, false, true) == (x, geometry.y as int)
            &&& gravity.kept_position(geometry, size, true, true) == (
                geometry.x as int,
                geometry.y as int,
            )
        }),
{
}

/// Regular windows, dialogs, and utilities can do everything and have every decoration; toolbars
/// and menus can do and have everything but minimize, maximize, and fullscreen; a splash screen
/// can be moved; no other role can do or has anything.
pub proof fn law_roles_decide_what_clients_can_do(role: ClientRole)
    ensures
        ({
            let can = policy::role_capabilities(role);
            let shown = policy::role_decorations(role);
            match role {
                ClientRole::Normal | ClientRole::Dialog | ClientRole::Utility => can.focusable
                    && can.movable && can.resizable && can.minimizable && can.maximizable
                    && can.fullscreenable && can.closable && shown.border && shown.titlebar
                    && shown.minimize && shown.maximize && shown.close,
                ClientRole::Toolbar | ClientRole::Menu => can.focusable && can.movable
                    && can.resizable && !can.minimizable && !can.maximizable && !can.fullscreenable
                    && can.closable && shown.border && shown.titlebar && !shown.minimize
                        && !shown.maximize
                    && shown.close,
                ClientRole::Splash => !can.focusable && can.movable && !can.resizable
                    && !can.minimizable && !can.maximizable && !can.fullscreenable && !can.closable
                    && !shown.border && !shown.titlebar && !shown.minimize && !shown.maximize
                        && !shown.close,
                ClientRole::Desktop
                | ClientRole::Dock
                | ClientRole::DropdownMenu
                | ClientRole::PopupMenu
                | ClientRole::Tooltip
                | ClientRole::Notification
                | ClientRole::Combo
                | ClientRole::DragAndDrop => !can.focusable && !can.movable && !can.resizable
                    && !can.minimizable && !can.maximizable && !can.fullscreenable && !can.closable
                    && !shown.border && !shown.titlebar && !shown.minimize && !shown.maximize
                        && !shown.close,
            }
        }),
{
}

/// A role never shows a control for what it cannot do.
pub proof fn law_controls_match_capabilities(role: ClientRole)
    ensures
        policy::role_decorations(role).minimize == policy::role_capabilities(role).minimizable,
        policy::role_decorations(role).maximize == policy::role_capabilities(role).maximizable,
        policy::role_decorations(role).close == policy::role_capabilities(role).closable,
        policy::role_decorations(role).border == policy::role_decorations(role).titlebar,
{
}

/// A preference against decorations leaves none, one for them gives those of the role but for
/// controls of what the client cannot do, and no preference leaves the natural ones.
pub proof fn law_preferences_decide_decorations(
    policy: ClientPolicy,
    natural: ClientDecorations,
    preference: DecorationOverride,
)
    ensures
        ({
            let shown = policy::preferred_decorations(policy, natural, preference);
            let standard = policy::role_decorations(policy.role);
            match preference {
                DecorationOverride::Default => shown == natural,
                DecorationOverride::Undecorated => !shown.border && !shown.titlebar
                    && !shown.minimize && !shown.maximize && !shown.close,
                DecorationOverride::Decorated => {
                    &&& shown.border == standard.border
                    &&& shown.titlebar == standard.titlebar
                    &&& shown.minimize ==> policy.capabilities.minimizable
                    &&& shown.maximize ==> policy.capabilities.maximizable
                    &&& shown.close ==> policy.capabilities.closable
                    &&& policy.capabilities.minimizable ==> shown.minimize == standard.minimize
                    &&& policy.capabilities.maximizable ==> shown.maximize == standard.maximize
                    &&& policy.capabilities.closable ==> shown.close == standard.close
                },
            }
        }),
{
}

/// A border takes its width on all four sides, a titlebar takes its height at the top, and what is
/// not shown takes nothing.
pub proof fn law_decorations_take_their_space(
    decorations: ClientDecorations,
    border_width: u32,
    titlebar_height: u32,
)
    requires
        border_width + titlebar_height <= u32::MAX,
    ensures
        ({
            let space = decorations.taken_space(border_width, titlebar_height);
            &&& decorations.border ==> space.left == border_width && space.right == border_width
                && space.bottom == border_width
            &&& !decorations.border ==> space.left == 0 && space.right == 0 && space.bottom == 0
            &&& decorations.titlebar ==> space.top == space.bottom + titlebar_height
            &&& !decorations.titlebar ==> space.top == space.bottom
            &&& decorations.shows() <==> decorations.border || decorations.titlebar
        }),
{
}

/// A client offers nothing that it cannot do. Fullscreen takes away resizing, shading, maximizing,
/// decorating, and the layers above and below, but for docks, and nothing else.
pub proof fn law_fullscreen_clients_offer_less(client: Client, windowed: Client)
    requires
        client.fullscreen is Some,
        windowed == (Client { fullscreen: None, ..client }),
    ensures
        ({
            let less = client.allowed_operations();
            let more = windowed.allowed_operations();
            let can = client.policy.capabilities;
            let role = client.policy.role;
            &&& !less.resizable && !less.shadeable && !less.maximizable && !less.decoratable
                && !less.above && less.below == (role == ClientRole::Dock)
            &&& less.movable == more.movable && less.minimizable == more.minimizable
                && less.fullscreenable == more.fullscreenable && less.closable == more.closable
                && less.workspace_movable == more.workspace_movable
            &&& more.movable == can.movable && more.resizable == can.resizable
                && more.minimizable == can.minimizable && more.maximizable == can.maximizable
                && more.fullscreenable == can.fullscreenable && more.closable == can.closable
            &&& more.shadeable == client.policy.decorations.titlebar
            &&& more.workspace_movable == (role != ClientRole::Desktop)
            &&& more.above == more.decoratable
            &&& more.decoratable == (role == ClientRole::Normal || role == ClientRole::Dialog
                || role == ClientRole::Utility || role == ClientRole::Toolbar || role
                == ClientRole::Menu)
            &&& more.below == (more.above || role == ClientRole::Dock)
        }),
{
}

/// Maximizing an axis makes the client fill the available area on it and leaves the other axis as
/// it is, unless that is maximized as well or was before; an axis that is no longer maximized
/// goes back to where it was.
pub proof fn law_maximized_axes_fill_the_area(
    client: Client,
    horizontal: bool,
    vertical: bool,
    available: Geometry,
)
    requires
        client.geometry.width >= 1,
        client.geometry.height >= 1,
        available.width >= 1,
        available.height >= 1,
        client.maximize matches Some(state) ==> state.restore.width >= 1 && state.restore.height
            >= 1,
    ensures
        ({
            let after = client.with_maximized(horizontal, vertical, available).geometry;
            let was_wide = client.maximize matches Some(state) && state.horizontal;
            let was_tall = client.maximize matches Some(state) && state.vertical;
            &&& horizontal ==> after.x == available.x && after.width == available.width
            &&& vertical ==> after.y == available.y && after.height == available.height
            &&& !horizontal && !was_wide ==> after.x == client.geometry.x && after.width
                == client.geometry.width
            &&& !vertical && !was_tall ==> after.y == client.geometry.y && after.height
                == client.geometry.height
            &&& !horizontal && was_wide ==> after.x == client.maximize->Some_0.restore.x
                && after.width == client.maximize->Some_0.restore.width
            &&& !vertical && was_tall ==> after.y == client.maximize->Some_0.restore.y
                && after.height == client.maximize->Some_0.restore.height
        }),
{
}

/// Whether a maximize state, if there is one, maximizes an axis.
pub open spec fn is_consistently_maximized(client: Client) -> bool {
    client.maximize matches Some(state) ==> (state.horizontal || state.vertical)
        && state.restore.width >= 1 && state.restore.height >= 1
}

/// However a windowed client is maximized, where it goes back to once it is not managed any more
/// stays the same, and it is maximized on the axes that were asked for.
pub proof fn law_maximizing_remembers_the_natural_geometry(
    client: Client,
    horizontal: bool,
    vertical: bool,
    available: Geometry,
)
    requires
        client.fullscreen is None,
        is_consistently_maximized(client),
        client.geometry.width >= 1,
        client.geometry.height >= 1,
    ensures
        ({
            let after = client.with_maximized(horizontal, vertical, available);
            &&& after.natural_geometry() == client.natural_geometry()
            &&& is_consistently_maximized(after)
            &&& after.maximize is Some <==> horizontal || vertical
            &&& after.maximize matches Some(state) ==> state.horizontal == horizontal
                && state.vertical == vertical
        }),
{
}

/// Asking for the axes that are maximized already, in the area that they fill, changes nothing,
/// and is reported as no change.
pub proof fn law_maximizing_again_changes_nothing(
    client: Client,
    horizontal: bool,
    vertical: bool,
    available: Geometry,
)
    requires
        is_consistently_maximized(client),
        client.geometry.width >= 1,
        client.geometry.height >= 1,
        available.width >= 1,
        available.height >= 1,
    ensures
        ({
            let after = client.with_maximized(horizontal, vertical, available);
            &&& after.with_maximized(horizontal, vertical, available) == after
            &&& !after.maximize_changes(horizontal, vertical, available)
            &&& client.maximize_changes(horizontal, vertical, available) <==> after != client
        }),
{
    let after = client.with_maximized(horizontal, vertical, available);
    assert(after.with_maximized(horizontal, vertical, available).geometry == after.geometry);
}

/// The geometry to go back to is the current one where a client is neither fullscreen nor
/// maximized, and the one before fullscreen where it is fullscreen only.
pub proof fn law_natural_geometry_is_the_windowed_one(client: Client)
    requires
        client.maximize is None,
    ensures
        client.fullscreen is None ==> client.natural_geometry() == client.geometry,
        client.fullscreen matches Some(state) ==> client.natural_geometry() == state.restore,
{
}

} // verus!
