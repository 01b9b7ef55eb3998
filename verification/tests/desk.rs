//! State that display backends report about managed clients.

use nobox::desktop::application::is_readable;
use nobox::desktop::entry::DesktopEntry;
use nobox::{
    Client, ClientDecorations, ClientId, ClientLayer, ClientPolicy, ClientPresentation, ClientRole,
    ClientSet, DecorationOverride, Geometry, Gravity, OutputCoverage, OutputId, Size, SizeHints,
    WorkspaceAssignment, WorkspaceCorner, WorkspaceDirection, WorkspaceId, WorkspaceLayout,
    WorkspaceOrientation,
};

fn client(raw: u64) -> Client {
    Client {
        id: ClientId::new(raw),
        geometry: Geometry::new(0, 0, 640, 480),
        size_hints: SizeHints::default(),
        gravity: Gravity::default(),
        policy: ClientPolicy::for_role(ClientRole::Normal),
        natural_decorations: ClientPolicy::for_role(ClientRole::Normal).decorations,
        decoration_override: DecorationOverride::Default,
        presentation: ClientPresentation::default(),
        transient_for: None,
        group: None,
        modal: false,
        iconic: false,
        shaded: false,
        workspace: WorkspaceAssignment::default(),
        layer: ClientLayer::Normal,
        maximize: None,
        fullscreen: None,
        output_coverage: None,
    }
}

#[test]
fn reported_state_is_kept_for_managed_clients_only() {
    let mut clients = ClientSet::default();
    clients.manage(client(1));
    let id = ClientId::new(1);
    let stranger = ClientId::new(9);

    let coverage = Some(OutputCoverage::new(OutputId::new(4)));
    assert!(clients.set_output_coverage(id, coverage));
    assert!(!clients.set_output_coverage(id, coverage));
    assert!(!clients.set_output_coverage(stranger, coverage));
    assert_eq!(clients.get(id).expect("managed").output_coverage, coverage);

    let hints = SizeHints { minimum: Some(Size::new(10, 20)), ..SizeHints::default() };
    assert!(clients.set_size_hints(id, hints));
    assert!(!clients.set_size_hints(stranger, hints));
    assert_eq!(clients.get(id).expect("managed").size_hints, hints);

    assert!(clients.set_gravity(id, Gravity::Center));
    assert!(!clients.set_gravity(stranger, Gravity::Center));
    assert_eq!(clients.get(id).expect("managed").gravity, Gravity::Center);
    assert!(clients.get(stranger).is_none());
}

#[test]
fn cleared_focus_is_recovered_from_history() {
    let mut clients = ClientSet::default();
    clients.manage(client(1));
    clients.manage(client(2));
    clients.focus(ClientId::new(2));
    clients.focus(ClientId::new(1));
    clients.clear_focus();
    assert_eq!(clients.focused(), None);
    clients.set_showing_desktop(true);
    clients.set_showing_desktop(false);
    assert_eq!(clients.focused(), Some(ClientId::new(1)));
}

#[test]
fn grids_are_taken_over_only_for_the_same_number_of_workspaces() {
    let mut clients = ClientSet::default();
    clients.set_workspace_count(4);
    let grid = |count: u32| {
        WorkspaceLayout::new(
            count,
            2,
            0,
            WorkspaceOrientation::Horizontal,
            WorkspaceCorner::TopLeft,
        )
        .expect("grid")
    };
    assert!(!clients.set_workspace_layout(grid(6)));
    assert!(clients.set_workspace_layout(grid(4)));
    assert!(!clients.set_workspace_layout(grid(4)));
    assert_eq!(
        clients.workspace_in_grid_direction(WorkspaceDirection::Down, false),
        WorkspaceId::new(2)
    );
    assert_eq!(
        clients.workspace_in_grid_direction(WorkspaceDirection::Up, false),
        WorkspaceId::new(0)
    );
    assert_eq!(
        clients.workspace_in_grid_direction(WorkspaceDirection::Left, true),
        WorkspaceId::new(1)
    );
}

#[test]
fn decoration_preferences_can_be_taken_back() {
    let natural = ClientPolicy::for_role(ClientRole::Normal);
    let bare = natural.with_decoration_override(DecorationOverride::Undecorated);
    assert_eq!(
        bare.decorations,
        ClientDecorations {
            border: false,
            titlebar: false,
            minimize: false,
            maximize: false,
            close: false,
        }
    );
    assert_eq!(natural.with_decoration_override(DecorationOverride::Default), natural);
    assert_eq!(natural.with_decoration_override(DecorationOverride::Decorated), natural);
}

#[test]
fn desktop_files_are_short_and_regular() {
    assert!(is_readable(262_144, true));
    assert!(!is_readable(262_145, true));
    assert!(!is_readable(1, false));
    let entry = DesktopEntry::parse("[Desktop Entry]\nTryExec=xterm\n").expect("entry");
    assert_eq!(entry.try_exec(), Some("xterm"));
    assert_eq!(DesktopEntry::parse("").expect("entry").try_exec(), None);
}
