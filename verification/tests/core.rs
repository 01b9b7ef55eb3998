//! Behavior of geometry, workspaces, and managed clients.

use nobox::placement::{
    horizontal_placement_overlaps, placement_overlap_score, placement_overlap_score_in_column,
};
use nobox::{
    adaptive_restack, centered_placement, directional_grow_geometry, directional_move_geometry,
    directional_shrink_geometry, directional_target, grow_to_fill_geometry, move_resize_geometry,
    relative_resize_geometry, smart_placement, AspectRange, AspectRatio, AxisPlacement,
    BlockingEdgePolicy, CardinalDirection, Client, ClientDecorations, ClientId, ClientLayer,
    ClientPolicy, ClientPresentation, ClientRole, ClientSet, DecorationExtents, DecorationOverride,
    EdgeReservation, EdgeReservations, FullscreenState, Geometry, Gravity, Output, OutputCoverage,
    OutputId, OutputSet, ResizeDeltas, RestackDecision, Size, SizeHints, SpatialDirection,
    StackingLayer, TransientTarget, WorkspaceAssignment, WorkspaceCorner, WorkspaceDirection,
    WorkspaceId, WorkspaceLayout, WorkspaceOrientation,
};

fn client(raw: u64) -> Client {
    Client {
        id: ClientId::new(raw),
        geometry: Geometry::new(0, 0, 640, 480),
        size_hints: SizeHints::default(),
        gravity: Gravity::default(),
        policy: ClientPolicy::for_role(ClientRole::Normal),
        natural_decorations: ClientPolicy::for_role(ClientRole::Normal).decorations,
        decoration_override: DecorationOverride::Default,
        presentation: ClientPresentation::default(),
        transient_for: None,
        group: None,
        modal: false,
        iconic: false,
        shaded: false,
        workspace: WorkspaceAssignment::default(),
        layer: ClientLayer::Normal,
        maximize: None,
        fullscreen: None,
        output_coverage: None,
    }
}

#[test]
fn managing_the_same_client_twice_does_not_duplicate_it() {
    let mut clients = ClientSet::default();
    assert!(clients.manage(client(7)));
    assert!(!clients.manage(client(7)));
    assert_eq!(clients.len(), 1);
    assert_eq!(clients.stacking().to_vec(), [ClientId::new(7)]);
}

#[test]
fn removing_the_focused_client_uses_most_recent_survivor() {
    let mut clients = ClientSet::default();
    clients.manage(client(1));
    clients.manage(client(2));
    clients.focus(ClientId::new(1));
    clients.focus(ClientId::new(2));

    assert!(clients.unmanage(ClientId::new(2)));
    assert_eq!(clients.focused(), Some(ClientId::new(1)));
}

#[test]
fn showing_desktop_hides_ordinary_clients_without_iconifying_them() {
    let mut clients = ClientSet::default();
    let normal = client(1);
    let mut desktop = client(2);
    desktop.policy = ClientPolicy::for_role(ClientRole::Desktop);
    let mut dock = client(3);
    dock.policy = ClientPolicy::for_role(ClientRole::Dock);
    clients.manage(normal);
    clients.manage(desktop);
    clients.manage(dock);
    clients.focus(ClientId::new(1));

    assert!(clients.set_showing_desktop(true));
    assert!(clients.showing_desktop());
    assert!(!clients.is_visible(ClientId::new(1)));
    assert!(clients.is_visible(ClientId::new(2)));
    assert!(clients.is_visible(ClientId::new(3)));
    assert_eq!(clients.focused(), None);
    assert!(!clients.get(ClientId::new(1)).unwrap().iconic);
    assert!(!clients.set_showing_desktop(true));

    assert!(clients.set_showing_desktop(false));
    assert!(clients.is_visible(ClientId::new(1)));
    assert_eq!(clients.focused(), Some(ClientId::new(1)));
}

#[test]
fn shading_is_limited_to_decorated_nonfullscreen_clients() {
    let mut clients = ClientSet::default();
    clients.manage(client(1));
    assert!(clients.set_shaded(ClientId::new(1), true));
    assert!(clients.get(ClientId::new(1)).unwrap().shaded);
    assert!(
        clients
            .get(ClientId::new(1))
            .unwrap()
            .operations()
            .shadeable
    );
    assert!(clients.set_shaded(ClientId::new(1), false));

    let mut dock = client(2);
    dock.policy = ClientPolicy::for_role(ClientRole::Dock);
    clients.manage(dock);
    assert!(!clients.set_shaded(ClientId::new(2), true));

    clients.set_fullscreen(ClientId::new(1), true, Geometry::new(0, 0, 800, 600));
    assert!(
        !clients
            .get(ClientId::new(1))
            .unwrap()
            .operations()
            .shadeable
    );
    assert!(!clients.set_shaded(ClientId::new(1), true));
}

#[test]
fn focus_cycle_candidates_are_mru_visible_and_modal_aware() {
    let mut clients = ClientSet::default();
    clients.set_workspace_count(2);
    clients.manage(client(1));
    clients.manage(client(2));
    let mut hidden = client(3);
    hidden.workspace = WorkspaceAssignment::Workspace(WorkspaceId::new(1));
    clients.manage(hidden);
    let mut dock = client(4);
    dock.policy = ClientPolicy::for_role(ClientRole::Dock);
    clients.manage(dock);
    clients.focus(ClientId::new(1));
    clients.focus(ClientId::new(2));

    assert_eq!(
        clients.focus_cycle_candidates(),
        [ClientId::new(2), ClientId::new(1)]
    );

    let mut modal = client(5);
    modal.transient_for = Some(TransientTarget::Client(ClientId::new(1)));
    modal.modal = true;
    clients.manage(modal);
    assert_eq!(
        clients.focus_cycle_candidates(),
        [ClientId::new(2), ClientId::new(5)]
    );

    let mut skipped = client(6);
    skipped.presentation.skip_taskbar = true;
    clients.manage(skipped);
    assert_eq!(
        clients.focus_cycle_candidates(),
        [ClientId::new(2), ClientId::new(5)]
    );

    let mut urgent = skipped.presentation;
    urgent.urgent = true;
    clients.set_presentation(ClientId::new(6), urgent);
    assert_eq!(
        clients.focus_cycle_candidates(),
        [ClientId::new(2), ClientId::new(6), ClientId::new(5)],
        "urgent clients retain the Openbox skip-taskbar exception"
    );
}

#[test]
fn focus_order_demotion_and_fallback_filter_invalid_targets() {
    let mut clients = ClientSet::default();
    for id in 1..=3 {
        clients.manage(client(id));
    }
    clients.focus(ClientId::new(1));
    clients.focus(ClientId::new(2));
    clients.focus(ClientId::new(3));

    assert!(clients.focus_to_bottom(ClientId::new(3)));
    assert!(!clients.focus_to_bottom(ClientId::new(3)));
    assert!(!clients.focus_to_bottom(ClientId::new(99)));
    assert_eq!(clients.focused(), Some(ClientId::new(3)));
    clients.focus(ClientId::new(1));
    assert_eq!(
        clients.focus_cycle_candidates(),
        [ClientId::new(1), ClientId::new(2), ClientId::new(3)]
    );

    assert_eq!(
        clients.focus_fallback_from(ClientId::new(99)),
        Some(ClientId::new(1)),
        "a non-focused action target must not change focus"
    );
    assert_eq!(
        clients.focus_fallback_from(ClientId::new(1)),
        Some(ClientId::new(2))
    );
    clients.set_shaded(ClientId::new(1), true);
    clients.set_shaded(ClientId::new(3), true);
    assert_eq!(clients.focus_fallback_from(ClientId::new(2)), None);
    assert_eq!(clients.focused(), None);
}

#[test]
fn presentation_hints_are_replaced_atomically() {
    let mut clients = ClientSet::default();
    clients.manage(client(1));
    let presentation = ClientPresentation {
        skip_taskbar: true,
        skip_pager: true,
        urgent: true,
    };

    assert!(clients.set_presentation(ClientId::new(1), presentation));
    assert_eq!(
        clients
            .get(ClientId::new(1))
            .map(|client| client.presentation),
        Some(presentation)
    );
    assert!(!clients.set_presentation(ClientId::new(1), presentation));
    assert!(!clients.set_presentation(ClientId::new(99), presentation));
}

#[test]
fn workspace_switching_restores_independent_focus_history() {
    let mut clients = ClientSet::default();
    clients.set_workspace_count(3);
    clients.manage(client(1));
    let mut second = client(2);
    second.workspace = WorkspaceAssignment::Workspace(WorkspaceId::new(1));
    clients.manage(second);
    clients.focus(ClientId::new(1));

    assert!(clients.switch_workspace(WorkspaceId::new(1)));
    assert_eq!(clients.focused(), Some(ClientId::new(2)));
    assert!(!clients.is_visible(ClientId::new(1)));
    assert!(clients.is_visible(ClientId::new(2)));

    assert!(clients.switch_workspace(WorkspaceId::new(0)));
    assert_eq!(clients.focused(), Some(ClientId::new(1)));
}

#[test]
fn last_workspace_tracks_and_toggles_the_previous_selection() {
    let mut clients = ClientSet::default();
    clients.set_workspace_count(3);

    assert_eq!(clients.last_workspace(), WorkspaceId::new(0));
    assert!(clients.switch_workspace(WorkspaceId::new(2)));
    assert_eq!(clients.last_workspace(), WorkspaceId::new(0));
    assert!(clients.switch_workspace(clients.last_workspace()));
    assert_eq!(clients.current_workspace(), WorkspaceId::new(0));
    assert_eq!(clients.last_workspace(), WorkspaceId::new(2));
    assert!(clients.switch_workspace(clients.last_workspace()));
    assert_eq!(clients.current_workspace(), WorkspaceId::new(2));
    assert_eq!(clients.last_workspace(), WorkspaceId::new(0));
}

#[test]
fn workspace_insertion_and_removal_shift_and_merge_membership() {
    let mut clients = ClientSet::default();
    clients.set_workspace_count(3);
    for (id, workspace) in [(1, 0), (2, 1), (3, 2)] {
        let mut managed = client(id);
        managed.workspace = WorkspaceAssignment::Workspace(WorkspaceId::new(workspace));
        clients.manage(managed);
    }
    clients.switch_workspace(WorkspaceId::new(1));

    assert!(clients.insert_workspace(WorkspaceId::new(1)));
    assert_eq!(clients.workspace_count(), 4);
    assert_eq!(clients.current_workspace(), WorkspaceId::new(1));
    assert_eq!(
        clients.focused(),
        None,
        "inserted current workspace is empty"
    );
    assert_eq!(
        clients.get(ClientId::new(2)).unwrap().workspace,
        WorkspaceAssignment::Workspace(WorkspaceId::new(2))
    );
    assert_eq!(
        clients.get(ClientId::new(3)).unwrap().workspace,
        WorkspaceAssignment::Workspace(WorkspaceId::new(3))
    );
    assert!(!clients.insert_workspace(WorkspaceId::new(5)));

    assert!(clients.remove_workspace(WorkspaceId::new(1)));
    assert_eq!(clients.workspace_count(), 3);
    assert_eq!(clients.current_workspace(), WorkspaceId::new(1));
    assert_eq!(clients.focused(), Some(ClientId::new(2)));
    assert_eq!(
        clients.get(ClientId::new(2)).unwrap().workspace,
        WorkspaceAssignment::Workspace(WorkspaceId::new(1))
    );

    assert!(clients.remove_workspace(WorkspaceId::new(2)));
    assert_eq!(clients.workspace_count(), 2);
    assert_eq!(
        clients.get(ClientId::new(3)).unwrap().workspace,
        WorkspaceAssignment::Workspace(WorkspaceId::new(1)),
        "the final workspace merges into its predecessor"
    );
    assert!(!clients.remove_workspace(WorkspaceId::new(2)));
}

#[test]
fn moving_the_focused_client_away_recovers_visible_focus() {
    let mut clients = ClientSet::default();
    clients.set_workspace_count(2);
    clients.manage(client(1));
    clients.manage(client(2));
    clients.focus(ClientId::new(1));
    clients.focus(ClientId::new(2));

    assert!(clients.assign_workspace(
        ClientId::new(2),
        WorkspaceAssignment::Workspace(WorkspaceId::new(1)),
    ));
    assert_eq!(clients.focused(), Some(ClientId::new(1)));
    assert!(!clients.focus(ClientId::new(2)));

    clients.switch_workspace(WorkspaceId::new(1));
    assert_eq!(clients.focused(), Some(ClientId::new(2)));
}

#[test]
fn sticky_clients_remain_visible_and_focusable_everywhere() {
    let mut clients = ClientSet::default();
    clients.set_workspace_count(2);
    let mut sticky = client(1);
    sticky.workspace = WorkspaceAssignment::All;
    clients.manage(sticky);
    clients.focus(ClientId::new(1));

    clients.switch_workspace(WorkspaceId::new(1));
    assert!(clients.is_visible(ClientId::new(1)));
    assert_eq!(clients.focused(), Some(ClientId::new(1)));
    assert!(clients.focus(ClientId::new(1)));
}

#[test]
fn shrinking_workspaces_moves_clients_to_last_survivor() {
    let mut clients = ClientSet::default();
    clients.set_workspace_count(4);
    let mut client = client(1);
    client.workspace = WorkspaceAssignment::Workspace(WorkspaceId::new(3));
    clients.manage(client);
    clients.switch_workspace(WorkspaceId::new(3));

    assert!(clients.set_workspace_count(2));
    assert_eq!(clients.workspace_count(), 2);
    assert_eq!(clients.current_workspace(), WorkspaceId::new(1));
    assert_eq!(
        clients.get(ClientId::new(1)).unwrap().workspace,
        WorkspaceAssignment::Workspace(WorkspaceId::new(1))
    );
    assert_eq!(clients.focused(), Some(ClientId::new(1)));
}

#[test]
fn invalid_workspace_assignments_are_normalized_to_current() {
    let mut clients = ClientSet::default();
    clients.set_workspace_count(2);
    clients.switch_workspace(WorkspaceId::new(1));
    let mut invalid = client(1);
    invalid.workspace = WorkspaceAssignment::Workspace(WorkspaceId::new(99));

    clients.manage(invalid);

    assert_eq!(
        clients.get(ClientId::new(1)).unwrap().workspace,
        WorkspaceAssignment::Workspace(WorkspaceId::new(1))
    );
}

#[test]
fn relative_workspace_navigation_wraps_in_both_directions() {
    let mut clients = ClientSet::default();
    clients.set_workspace_count(3);

    assert_eq!(
        clients.workspace_in_direction(WorkspaceDirection::Previous),
        WorkspaceId::new(2)
    );
    assert_eq!(
        clients.workspace_in_direction(WorkspaceDirection::Next),
        WorkspaceId::new(1)
    );
    clients.switch_workspace(WorkspaceId::new(2));
    assert_eq!(
        clients.workspace_in_direction(WorkspaceDirection::Next),
        WorkspaceId::new(0)
    );
}

#[test]
fn horizontal_workspace_grid_navigates_and_wraps_ragged_rows() {
    let layout = WorkspaceLayout::new(
        5,
        3,
        0,
        WorkspaceOrientation::Horizontal,
        WorkspaceCorner::TopLeft,
    )
    .unwrap();
    assert_eq!((layout.columns(), layout.rows()), (3, 2));
    assert_eq!(
        layout.neighbor(WorkspaceId::new(0), WorkspaceDirection::Down, false),
        WorkspaceId::new(3)
    );
    assert_eq!(
        layout.neighbor(WorkspaceId::new(2), WorkspaceDirection::Down, true),
        WorkspaceId::new(2)
    );
    assert_eq!(
        layout.neighbor(WorkspaceId::new(4), WorkspaceDirection::Right, true),
        WorkspaceId::new(3)
    );
}

#[test]
fn vertical_bottom_right_layout_maps_direction_to_user_visible_geometry() {
    let layout = WorkspaceLayout::new(
        6,
        3,
        2,
        WorkspaceOrientation::Vertical,
        WorkspaceCorner::BottomRight,
    )
    .unwrap();

    assert_eq!(
        layout.neighbor(WorkspaceId::new(0), WorkspaceDirection::Left, false),
        WorkspaceId::new(2)
    );
    assert_eq!(
        layout.neighbor(WorkspaceId::new(0), WorkspaceDirection::Up, false),
        WorkspaceId::new(1)
    );
    assert_eq!(
        layout.neighbor(WorkspaceId::new(0), WorkspaceDirection::Right, true),
        WorkspaceId::new(4)
    );
}

#[test]
fn workspace_layout_rejects_two_derived_dimensions_and_bounds_hostile_sizes() {
    assert!(
        WorkspaceLayout::new(
            4,
            0,
            0,
            WorkspaceOrientation::Horizontal,
            WorkspaceCorner::TopLeft,
        )
        .is_none()
    );
    let bounded = WorkspaceLayout::new(
        4,
        u32::MAX,
        u32::MAX,
        WorkspaceOrientation::Horizontal,
        WorkspaceCorner::TopLeft,
    )
    .unwrap();
    assert_eq!((bounded.columns(), bounded.rows()), (4, 4));
}

#[test]
fn geometry_never_becomes_empty() {
    assert_eq!(Geometry::new(2, 3, 0, 0), Geometry::new(2, 3, 1, 1));
}

#[test]
fn translated_geometry_saturates_coordinates() {
    assert_eq!(
        Geometry::new(i32::MAX - 2, i32::MIN + 2, 40, 30).translated(10, -10),
        Geometry::new(i32::MAX, i32::MIN, 40, 30)
    );
}

#[test]
fn absolute_placement_resolves_anchors_and_preserves_output_offsets() {
    let source = Geometry::new(0, 0, 800, 600);
    let target = Geometry::new(800, 20, 1000, 700);
    let current = Geometry::new(100, 80, 300, 200);
    assert_eq!(
        move_resize_geometry(
            current,
            source,
            target,
            Size::new(400, 300),
            AxisPlacement::Keep,
            AxisPlacement::Keep,
        ),
        Geometry::new(900, 100, 400, 300)
    );
    assert_eq!(
        move_resize_geometry(
            current,
            source,
            target,
            Size::new(400, 300),
            AxisPlacement::Center,
            AxisPlacement::End(25),
        ),
        Geometry::new(1100, 395, 400, 300)
    );
    assert_eq!(
        move_resize_geometry(
            current,
            source,
            target,
            Size::new(400, 300),
            AxisPlacement::Start(30),
            AxisPlacement::Start(40),
        ),
        Geometry::new(830, 60, 400, 300)
    );
}

#[test]
fn absolute_placement_clamps_offsets_and_oversized_rectangles() {
    let bounds = Geometry::new(10, 20, 400, 300);
    assert_eq!(
        move_resize_geometry(
            Geometry::new(0, 0, 100, 100),
            bounds,
            bounds,
            Size::new(100, 100),
            AxisPlacement::End(-500),
            AxisPlacement::Start(-500),
        ),
        Geometry::new(310, 20, 100, 100)
    );
    assert_eq!(
        move_resize_geometry(
            Geometry::new(0, 0, 100, 100),
            bounds,
            bounds,
            Size::new(800, 600),
            AxisPlacement::Center,
            AxisPlacement::Center,
        ),
        Geometry::new(10, 20, 800, 600)
    );
}

#[test]
fn directional_targets_cover_cardinal_and_diagonal_neighbors() {
    let origin = Geometry::new(300, 300, 100, 100);
    let candidates = [
        (1_u8, origin),
        (2, Geometry::new(100, 300, 100, 100)),
        (3, Geometry::new(500, 300, 100, 100)),
        (4, Geometry::new(300, 100, 100, 100)),
        (5, Geometry::new(300, 500, 100, 100)),
        (6, Geometry::new(100, 100, 100, 100)),
        (7, Geometry::new(500, 100, 100, 100)),
        (8, Geometry::new(100, 500, 100, 100)),
        (9, Geometry::new(500, 500, 100, 100)),
    ];
    for (direction, expected) in [
        (SpatialDirection::Left, 2),
        (SpatialDirection::Right, 3),
        (SpatialDirection::Up, 4),
        (SpatialDirection::Down, 5),
        (SpatialDirection::UpLeft, 6),
        (SpatialDirection::UpRight, 7),
        (SpatialDirection::DownLeft, 8),
        (SpatialDirection::DownRight, 9),
    ] {
        assert_eq!(
            directional_target(1, origin, &candidates, direction),
            Some(expected),
            "wrong target for {direction:?}"
        );
    }
}

#[test]
fn directional_targets_prioritize_the_cone_and_keep_stable_ties() {
    let origin = Geometry::new(0, 0, 100, 100);
    assert_eq!(
        directional_target(
            1_u8,
            origin,
            &[
                (2, Geometry::new(10, 500, 100, 100)),
                (3, Geometry::new(2_000_000, 0, 100, 100)),
            ],
            SpatialDirection::Right,
        ),
        Some(3),
        "an in-cone target must beat a closer off-axis target"
    );
    assert_eq!(
        directional_target(
            1_u8,
            origin,
            &[
                (2, Geometry::new(200, -50, 100, 100)),
                (3, Geometry::new(200, 50, 100, 100)),
            ],
            SpatialDirection::Right,
        ),
        Some(2),
        "equal scores must preserve caller ordering"
    );
    assert_eq!(
        directional_target(1_u8, origin, &[(2, origin)], SpatialDirection::Right),
        None
    );
}

#[test]
fn adaptive_restack_raises_lowers_or_preserves_order_from_overlap() {
    let target = Geometry::new(100, 100, 200, 150);
    let below = Geometry::new(50, 50, 100, 100);
    let above = Geometry::new(250, 200, 100, 100);
    assert_eq!(
        adaptive_restack(2_u8, target, &[(1, below), (2, target), (3, above)]),
        RestackDecision::Raise,
        "overlap above takes precedence over overlap below"
    );
    assert_eq!(
        adaptive_restack(2_u8, target, &[(1, below), (2, target)]),
        RestackDecision::Lower
    );
    assert_eq!(
        adaptive_restack(
            2_u8,
            target,
            &[
                (1, Geometry::new(0, 0, 50, 50)),
                (2, target),
                (3, Geometry::new(300, 100, 50, 50)),
            ],
        ),
        RestackDecision::Unchanged,
        "touching edges do not obscure a rectangle"
    );
    assert_eq!(
        adaptive_restack(9_u8, target, &[(1, below), (2, target), (3, above)]),
        RestackDecision::Unchanged,
        "an absent target cannot be restacked"
    );
}

#[test]
fn relative_resize_moves_changed_start_edges() {
    let geometry = Geometry::new(100, 80, 200, 100);
    assert_eq!(
        relative_resize_geometry(
            geometry,
            ResizeDeltas {
                left: 20,
                right: 30,
                top: 10,
                bottom: 40,
            },
            SizeHints::default(),
        ),
        Geometry::new(80, 70, 250, 150)
    );
    assert_eq!(
        relative_resize_geometry(
            geometry,
            ResizeDeltas {
                left: -25,
                bottom: -30,
                ..ResizeDeltas::default()
            },
            SizeHints::default(),
        ),
        Geometry::new(125, 80, 175, 70)
    );
}

#[test]
fn relative_resize_honors_size_limits_and_increments() {
    let minimum = SizeHints {
        minimum: Some(Size::new(50, 1)),
        ..SizeHints::default()
    };
    assert_eq!(
        relative_resize_geometry(
            Geometry::new(100, 20, 100, 50),
            ResizeDeltas {
                left: -80,
                ..ResizeDeltas::default()
            },
            minimum,
        ),
        Geometry::new(150, 20, 50, 50)
    );

    let increments = SizeHints {
        base: Some(Size::new(10, 10)),
        increment: Some(Size::new(20, 10)),
        ..SizeHints::default()
    };
    assert_eq!(
        relative_resize_geometry(
            Geometry::new(100, 20, 90, 50),
            ResizeDeltas {
                left: 3,
                ..ResizeDeltas::default()
            },
            increments,
        ),
        Geometry::new(80, 20, 110, 50)
    );
}

#[test]
fn directional_move_steps_across_near_and_far_obstacle_edges() {
    let bounds = Geometry::new(0, 0, 800, 600);
    let left = Geometry::new(100, 150, 100, 200);
    let right = Geometry::new(500, 150, 100, 200);
    let subject = Geometry::new(300, 200, 100, 80);
    let obstacles = [left, right];

    let against_left =
        directional_move_geometry(subject, bounds, &obstacles, CardinalDirection::Left);
    assert_eq!(against_left, Geometry::new(200, 200, 100, 80));
    assert_eq!(
        directional_move_geometry(against_left, bounds, &obstacles, CardinalDirection::Left,),
        Geometry::new(0, 200, 100, 80)
    );

    let against_right =
        directional_move_geometry(subject, bounds, &obstacles, CardinalDirection::Right);
    assert_eq!(against_right, Geometry::new(400, 200, 100, 80));
    assert_eq!(
        directional_move_geometry(against_right, bounds, &obstacles, CardinalDirection::Right,),
        Geometry::new(600, 200, 100, 80)
    );
}

#[test]
fn directional_move_ignores_nonoverlapping_obstacles() {
    let bounds = Geometry::new(10, 20, 400, 300);
    let subject = Geometry::new(100, 100, 80, 60);
    let obstacle = Geometry::new(200, 200, 100, 50);
    assert_eq!(
        directional_move_geometry(subject, bounds, &[obstacle], CardinalDirection::Right,),
        Geometry::new(330, 100, 80, 60)
    );
    assert_eq!(
        directional_move_geometry(subject, bounds, &[obstacle], CardinalDirection::Up,),
        Geometry::new(100, 20, 80, 60)
    );
}

#[test]
fn directional_grow_stops_at_and_then_crosses_blocking_edges() {
    let bounds = Geometry::new(0, 0, 800, 600);
    let subject = Geometry::new(300, 200, 100, 80);
    let obstacle = Geometry::new(500, 150, 100, 200);

    let grown = directional_grow_geometry(
        subject,
        bounds,
        &[obstacle],
        CardinalDirection::Right,
        BlockingEdgePolicy::Cross,
    );
    assert_eq!(grown, Geometry::new(300, 200, 200, 80));
    assert_eq!(
        directional_grow_geometry(
            grown,
            bounds,
            &[obstacle],
            CardinalDirection::Right,
            BlockingEdgePolicy::Stop,
        ),
        grown
    );
    assert_eq!(
        directional_grow_geometry(
            grown,
            bounds,
            &[obstacle],
            CardinalDirection::Right,
            BlockingEdgePolicy::Cross,
        ),
        Geometry::new(300, 200, 300, 80)
    );
}

#[test]
fn directional_shrink_moves_the_opposite_edge_and_keeps_half() {
    let bounds = Geometry::new(0, 0, 800, 600);
    let subject = Geometry::new(300, 200, 100, 80);
    assert_eq!(
        directional_shrink_geometry(subject, bounds, &[], CardinalDirection::Right,),
        Geometry::new(350, 200, 50, 80)
    );
    assert_eq!(
        directional_shrink_geometry(
            subject,
            bounds,
            &[Geometry::new(320, 150, 10, 200)],
            CardinalDirection::Right,
        ),
        Geometry::new(320, 200, 80, 80)
    );
    assert_eq!(
        directional_shrink_geometry(subject, bounds, &[], CardinalDirection::Up),
        Geometry::new(300, 200, 100, 40)
    );
}

#[test]
fn grow_to_fill_crosses_blockers_only_when_every_side_is_blocked() {
    let bounds = Geometry::new(0, 0, 800, 600);
    let subject = Geometry::new(300, 200, 100, 100);
    let blockers = [
        Geometry::new(200, 200, 100, 100),
        Geometry::new(400, 200, 100, 100),
        Geometry::new(300, 100, 100, 100),
        Geometry::new(300, 300, 100, 100),
    ];
    assert_eq!(
        grow_to_fill_geometry(subject, bounds, &blockers),
        Geometry::new(200, 100, 300, 300)
    );
    assert_eq!(
        grow_to_fill_geometry(subject, bounds, &[blockers[1]]),
        Geometry::new(0, 0, 400, 600)
    );
}

#[test]
fn resize_deltas_capture_all_changed_edges() {
    assert_eq!(
        ResizeDeltas::between(
            Geometry::new(100, 80, 200, 100),
            Geometry::new(70, 60, 250, 150),
        ),
        ResizeDeltas {
            left: 30,
            right: 20,
            top: 20,
            bottom: 30,
        }
    );
}

#[test]
fn smart_placement_centers_in_empty_and_partitioned_free_space() {
    let bounds = Geometry::new(0, 0, 800, 600);
    let size = Size::new(200, 100);
    assert_eq!(
        smart_placement(size, bounds, &[], true),
        Geometry::new(300, 250, 200, 100)
    );
    assert_eq!(
        smart_placement(size, bounds, &[], false),
        Geometry::new(0, 0, 200, 100)
    );
    assert_eq!(
        smart_placement(size, bounds, &[Geometry::new(0, 0, 400, 600)], true),
        Geometry::new(500, 250, 200, 100)
    );
}

#[test]
fn smart_placement_prefers_one_overlap_and_bounds_hostile_sizes() {
    let bounds = Geometry::new(10, 20, 400, 300);
    let obstacles = [
        Geometry::new(10, 20, 180, 300),
        Geometry::new(210, 20, 100, 300),
        Geometry::new(310, 20, 100, 300),
    ];
    let placed = smart_placement(Size::new(220, 100), bounds, &obstacles, false);
    assert_eq!(placed, Geometry::new(10, 20, 220, 100));
    assert_eq!(
        smart_placement(Size::new(500, 400), bounds, &[], true),
        Geometry::new(10, 20, 500, 400)
    );
}

#[test]
fn placement_column_cache_preserves_exact_overlap_scores() {
    let obstacles = [
        Geometry::new(-30, 20, 80, 100),
        Geometry::new(45, -10, 150, 70),
        Geometry::new(100, 90, 200, 160),
        Geometry::new(i32::MAX - 10, i32::MAX - 10, u32::MAX, u32::MAX),
    ];
    for candidate in [
        Geometry::new(0, 0, 120, 90),
        Geometry::new(40, 50, 220, 170),
        Geometry::new(i32::MAX - 20, i32::MAX - 20, 100, 100),
    ] {
        let column = horizontal_placement_overlaps(candidate.x, candidate.width, &obstacles);
        assert_eq!(
            placement_overlap_score(candidate, &obstacles),
            placement_overlap_score_in_column(
                candidate.y,
                candidate.height,
                &column,
                u128::MAX,
            )
        );
    }
}

#[test]
fn centered_placement_uses_anchor_and_stays_inside_work_area() {
    let bounds = Geometry::new(0, 30, 800, 570);
    assert_eq!(
        centered_placement(
            Size::new(200, 100),
            bounds,
            Geometry::new(650, 500, 300, 200)
        ),
        Geometry::new(600, 500, 200, 100)
    );
}

#[test]
fn decoration_extents_expand_around_content_without_overflow() {
    let extents = DecorationExtents::new(2, 3, 24, 4);
    assert_eq!(
        extents.outer_geometry(Geometry::new(50, 40, 640, 480)),
        Geometry::new(48, 16, 645, 508)
    );
    assert_eq!(
        extents.content_geometry(Geometry::new(48, 16, 645, 508)),
        Geometry::new(50, 40, 640, 480)
    );
    assert_eq!(extents.content_offset(), (2, 24));
    assert_eq!(
        extents.outer_geometry(Geometry::new(i32::MIN, i32::MIN, u32::MAX, u32::MAX)),
        Geometry::new(i32::MIN, i32::MIN, u32::MAX, u32::MAX)
    );
}

#[test]
fn output_selection_uses_overlap_distance_and_primary_tiebreaks() {
    let outputs = OutputSet::new(&[
        Output {
            id: OutputId::new(10),
            geometry: Geometry::new(0, 0, 800, 600),
            primary: false,
        },
        Output {
            id: OutputId::new(20),
            geometry: Geometry::new(800, 0, 800, 600),
            primary: true,
        },
    ]);

    assert_eq!(outputs.primary().id, OutputId::new(20));
    assert_eq!(
        outputs.output_for(Geometry::new(600, 100, 300, 200)).id,
        OutputId::new(10)
    );
    assert_eq!(
        outputs.output_for(Geometry::new(2100, 100, 100, 100)).id,
        OutputId::new(20)
    );
    assert_eq!(
        outputs.overlapping_output(Geometry::new(2100, 100, 100, 100)),
        None
    );
    assert_eq!(
        outputs.output_for(Geometry::new(700, 100, 200, 100)).id,
        OutputId::new(20)
    );
}

#[test]
fn output_topology_normalizes_duplicates_and_empty_fallbacks() {
    let duplicate = OutputId::new(7);
    let outputs = OutputSet::new(&[
        Output {
            id: duplicate,
            geometry: Geometry::new(0, 0, 640, 480),
            primary: false,
        },
        Output {
            id: duplicate,
            geometry: Geometry::new(640, 0, 640, 480),
            primary: true,
        },
    ]);
    assert_eq!(outputs.outputs().len(), 1);
    assert!(outputs.primary().primary);

    let fallback = OutputSet::default();
    assert_eq!(fallback.outputs().len(), 1);
    assert_eq!(fallback.primary().geometry, Geometry::new(0, 0, 1, 1));
}

#[test]
fn clamping_position_preserves_size_and_handles_oversized_axes() {
    let bounds = Geometry::new(800, 30, 800, 570);
    assert_eq!(
        Geometry::new(1700, -20, 300, 200).clamp_position(bounds),
        Geometry::new(1300, 30, 300, 200)
    );
    assert_eq!(
        Geometry::new(900, 100, 1000, 700).clamp_position(bounds),
        Geometry::new(800, 30, 1000, 700)
    );
}

#[test]
fn work_area_uses_deepest_intersecting_reservation_per_edge() {
    let output = Geometry::new(0, 0, 800, 600);
    let shallow_top = EdgeReservations {
        top: EdgeReservation {
            depth: 20,
            start: 0,
            end: 799,
        },
        ..EdgeReservations::default()
    };
    let deep_top_and_left = EdgeReservations {
        left: EdgeReservation {
            depth: 30,
            start: 100,
            end: 500,
        },
        top: EdgeReservation {
            depth: 40,
            start: 200,
            end: 700,
        },
        ..EdgeReservations::default()
    };

    assert_eq!(
        output.work_area(&[shallow_top, deep_top_and_left]),
        Geometry::new(30, 40, 770, 560)
    );
}

#[test]
fn work_area_ignores_nonintersecting_partial_reservations() {
    let output = Geometry::new(100, 100, 800, 600);
    let reservation = EdgeReservations {
        top: EdgeReservation {
            depth: 50,
            start: 0,
            end: 99,
        },
        ..EdgeReservations::default()
    };

    assert_eq!(output.work_area(&[reservation]), output);
}

#[test]
fn hostile_reservations_cannot_make_work_area_empty() {
    let output = Geometry::new(0, 0, 10, 10);
    let reservation = EdgeReservations {
        left: EdgeReservation {
            depth: u32::MAX,
            start: 0,
            end: 9,
        },
        right: EdgeReservation {
            depth: u32::MAX,
            start: 0,
            end: 9,
        },
        top: EdgeReservation {
            depth: u32::MAX,
            start: 0,
            end: 9,
        },
        bottom: EdgeReservation {
            depth: u32::MAX,
            start: 0,
            end: 9,
        },
    };

    assert_eq!(output.work_area(&[reservation]), Geometry::new(9, 9, 1, 1));
}

#[test]
fn movement_snaps_nearest_outer_edges_within_resistance() {
    let bounds = Geometry::new(2, 26, 796, 572);
    assert_eq!(
        Geometry::new(7, 31, 360, 120).snap_movement(bounds, 10),
        Geometry::new(2, 26, 360, 120)
    );
    assert_eq!(
        Geometry::new(433, 473, 360, 120).snap_movement(bounds, 10),
        Geometry::new(438, 478, 360, 120)
    );
    assert_eq!(
        Geometry::new(20, 50, 360, 120).snap_movement(bounds, 10),
        Geometry::new(20, 50, 360, 120)
    );
}

#[test]
fn movement_snaps_beside_nearby_rectangles_and_aligns_corners() {
    let target = Geometry::new(300, 100, 200, 150);
    assert_eq!(
        Geometry::new(94, 106, 200, 150).snap_movement_to(&[target], 10),
        Geometry::new(100, 100, 200, 150)
    );
    assert_eq!(
        Geometry::new(506, 194, 200, 50).snap_movement_to(&[target], 10),
        Geometry::new(500, 200, 200, 50)
    );
}

#[test]
fn movement_window_snap_requires_perpendicular_overlap_and_uses_nearest_edge() {
    let distant_axis = Geometry::new(300, 300, 200, 100);
    assert_eq!(
        Geometry::new(94, 100, 200, 100).snap_movement_to(&[distant_axis], 10),
        Geometry::new(94, 100, 200, 100)
    );

    let farther = Geometry::new(300, 100, 200, 100);
    let nearer = Geometry::new(296, 100, 200, 100);
    assert_eq!(
        Geometry::new(94, 100, 200, 100).snap_movement_to(&[farther, nearer], 10),
        Geometry::new(96, 100, 200, 100)
    );
}

#[test]
fn resize_snaps_bottom_right_edges_within_resistance() {
    let bounds = Geometry::new(2, 26, 796, 572);
    assert_eq!(
        Geometry::new(2, 26, 791, 567).snap_resize(bounds, 10),
        bounds
    );
    assert_eq!(
        Geometry::new(2, 26, 700, 500).snap_resize(bounds, 10),
        Geometry::new(2, 26, 700, 500)
    );
}

#[test]
fn normal_and_toolbar_roles_select_distinct_capabilities() {
    let normal = ClientPolicy::for_role(ClientRole::Normal);
    assert!(normal.capabilities.resizable);
    assert!(normal.decorations.minimize);
    assert_eq!(
        normal.decorations.extents(2, 24),
        DecorationExtents::new(2, 2, 26, 2)
    );

    let toolbar = ClientPolicy::for_role(ClientRole::Toolbar);
    assert!(!toolbar.capabilities.minimizable);
    assert!(!toolbar.capabilities.maximizable);
    assert!(!toolbar.decorations.minimize);
    assert!(toolbar.decorations.titlebar);
}

#[test]
fn special_surfaces_are_not_decorated_or_manipulated() {
    for role in [
        ClientRole::Desktop,
        ClientRole::Dock,
        ClientRole::Notification,
        ClientRole::Tooltip,
    ] {
        let policy = ClientPolicy::for_role(role);
        assert_eq!(
            policy.decorations.extents(2, 24),
            DecorationExtents::default()
        );
        assert!(!policy.capabilities.movable);
        assert!(!policy.capabilities.closable);
    }
}

#[test]
fn full_maximize_round_trips_exact_restore_geometry() {
    let mut clients = ClientSet::default();
    let mut original = client(1);
    original.geometry = Geometry::new(40, 50, 640, 480);
    clients.manage(original);
    let available = Geometry::new(2, 26, 796, 572);

    assert_eq!(
        clients.set_maximized(ClientId::new(1), true, true, available),
        Some(available)
    );
    assert_eq!(clients.get(ClientId::new(1)).unwrap().geometry, available);
    assert_eq!(
        clients.set_maximized(ClientId::new(1), false, false, available),
        Some(original.geometry)
    );
    assert!(clients.get(ClientId::new(1)).unwrap().maximize.is_none());
}

#[test]
fn unmanaged_geometry_unwinds_fullscreen_and_maximize_state() {
    let mut clients = ClientSet::default();
    let mut original = client(1);
    original.geometry = Geometry::new(40, 50, 640, 480);
    clients.manage(original);
    let available = Geometry::new(2, 26, 796, 572);
    let output = Geometry::new(0, 0, 800, 600);
    clients.set_maximized(ClientId::new(1), true, true, available);
    clients.set_fullscreen(ClientId::new(1), true, output);

    assert_eq!(
        clients.get(ClientId::new(1)).unwrap().unmanaged_geometry(),
        original.geometry
    );
}

#[test]
fn maximize_axes_restore_independently() {
    let mut clients = ClientSet::default();
    let mut original = client(1);
    original.geometry = Geometry::new(40, 50, 640, 480);
    clients.manage(original);
    let available = Geometry::new(2, 26, 796, 572);

    assert_eq!(
        clients.set_maximized(ClientId::new(1), true, false, available),
        Some(Geometry::new(2, 50, 796, 480))
    );
    assert_eq!(
        clients.set_maximized(ClientId::new(1), true, true, available),
        Some(available)
    );
    assert_eq!(
        clients.set_maximized(ClientId::new(1), false, true, available),
        Some(Geometry::new(40, 26, 640, 572))
    );
    assert_eq!(
        clients.set_maximized(ClientId::new(1), false, false, available),
        Some(original.geometry)
    );
}

#[test]
fn nonmaximizable_role_rejects_entering_maximize_state() {
    let mut clients = ClientSet::default();
    let mut dock = client(1);
    dock.policy = ClientPolicy::for_role(ClientRole::Dock);
    clients.manage(dock);

    assert_eq!(
        clients.set_maximized(ClientId::new(1), true, true, Geometry::new(0, 0, 800, 600)),
        None
    );
    assert!(clients.get(ClientId::new(1)).unwrap().maximize.is_none());
}

#[test]
fn maximized_geometry_tracks_available_area_changes() {
    let mut clients = ClientSet::default();
    clients.manage(client(1));
    clients.set_maximized(ClientId::new(1), true, true, Geometry::new(2, 26, 796, 572));

    assert_eq!(
        clients.set_maximized(
            ClientId::new(1),
            true,
            true,
            Geometry::new(0, 24, 1024, 744),
        ),
        Some(Geometry::new(0, 24, 1024, 744))
    );
}

#[test]
fn fullscreen_round_trips_and_tracks_output_changes() {
    let mut clients = ClientSet::default();
    let original = client(1);
    clients.manage(original);
    let first_output = Geometry::new(0, 0, 800, 600);
    let second_output = Geometry::new(800, 0, 1024, 768);

    assert_eq!(
        clients.set_fullscreen(ClientId::new(1), true, first_output),
        Some(first_output)
    );
    assert_eq!(
        clients.set_fullscreen(ClientId::new(1), true, second_output),
        Some(second_output)
    );
    assert_eq!(
        clients.set_fullscreen(ClientId::new(1), false, second_output),
        Some(original.geometry)
    );
    assert!(clients.get(ClientId::new(1)).unwrap().fullscreen.is_none());
}

#[test]
fn fullscreen_preserves_maximize_state_across_work_area_changes() {
    let mut clients = ClientSet::default();
    clients.manage(client(1));
    clients.set_maximized(ClientId::new(1), true, true, Geometry::new(0, 30, 800, 570));
    clients.set_fullscreen(ClientId::new(1), true, Geometry::new(0, 0, 800, 600));

    assert_eq!(
        clients.set_maximized(ClientId::new(1), true, true, Geometry::new(0, 50, 800, 550)),
        None
    );
    assert_eq!(
        clients.set_fullscreen(ClientId::new(1), false, Geometry::new(0, 0, 800, 600)),
        Some(Geometry::new(0, 50, 800, 550))
    );
    assert!(
        clients
            .get(ClientId::new(1))
            .unwrap()
            .maximize
            .is_some_and(|state| state.horizontal && state.vertical)
    );
}

#[test]
fn roles_and_requested_state_resolve_stacking_layers() {
    let mut normal = client(1);
    assert_eq!(normal.stacking_layer(), StackingLayer::Normal);
    normal.layer = ClientLayer::Above;
    assert_eq!(normal.stacking_layer(), StackingLayer::Above);
    normal.fullscreen = Some(FullscreenState {
        restore: normal.geometry,
    });
    assert_eq!(normal.stacking_layer(), StackingLayer::Fullscreen);

    let mut dock = client(2);
    dock.policy = ClientPolicy::for_role(ClientRole::Dock);
    assert_eq!(dock.stacking_layer(), StackingLayer::Dock);
    dock.layer = ClientLayer::Below;
    assert_eq!(dock.stacking_layer(), StackingLayer::Below);

    let mut desktop = client(3);
    desktop.policy = ClientPolicy::for_role(ClientRole::Desktop);
    desktop.layer = ClientLayer::Above;
    assert_eq!(desktop.stacking_layer(), StackingLayer::Desktop);
}

#[test]
fn user_operations_follow_role_capabilities_and_runtime_state() {
    let mut normal = client(1);
    let operations = normal.operations();
    assert!(operations.movable && operations.resizable && operations.maximizable);
    assert!(operations.decoratable);
    assert!(operations.workspace_movable && operations.above && operations.below);

    normal.fullscreen = Some(FullscreenState {
        restore: normal.geometry,
    });
    let fullscreen = normal.operations();
    assert!(fullscreen.movable && fullscreen.minimizable && fullscreen.fullscreenable);
    assert!(!fullscreen.resizable && !fullscreen.maximizable);
    assert!(!fullscreen.decoratable);
    assert!(!fullscreen.above && !fullscreen.below);

    let mut dock = client(2);
    dock.policy = ClientPolicy::for_role(ClientRole::Dock);
    let dock = dock.operations();
    assert!(dock.workspace_movable && dock.below);
    assert!(!dock.above && !dock.movable && !dock.closable && !dock.decoratable);

    let mut desktop = client(3);
    desktop.policy = ClientPolicy::for_role(ClientRole::Desktop);
    let desktop = desktop.operations();
    assert!(!desktop.workspace_movable && !desktop.above && !desktop.below);
}

#[test]
fn decoration_override_round_trips_and_tracks_natural_policy() {
    let mut clients = ClientSet::default();
    clients.manage(client(1));

    let undecorated = clients
        .toggle_decorations(ClientId::new(1))
        .expect("normal client supports decorations");
    assert_eq!(undecorated.decorations, ClientDecorations::none());
    assert_eq!(
        clients.get(ClientId::new(1)).unwrap().decoration_override,
        DecorationOverride::Undecorated
    );

    let mut changed = ClientPolicy::for_role(ClientRole::Normal);
    changed.capabilities.maximizable = false;
    changed.decorations.maximize = false;
    clients.set_policy(ClientId::new(1), changed);
    assert_eq!(
        clients.get(ClientId::new(1)).unwrap().policy.decorations,
        ClientDecorations::none()
    );

    let restored = clients
        .toggle_decorations(ClientId::new(1))
        .expect("normal client supports decorations");
    assert_eq!(restored, changed);
    assert_eq!(
        clients.get(ClientId::new(1)).unwrap().decoration_override,
        DecorationOverride::Default
    );

    let mut naturally_undecorated = changed;
    naturally_undecorated.decorations = ClientDecorations::none();
    clients.set_policy(ClientId::new(1), naturally_undecorated);
    let forced = clients
        .toggle_decorations(ClientId::new(1))
        .expect("normal client supports decorations");
    assert!(forced.decorations.titlebar);
    assert!(!forced.decorations.maximize);
    assert_eq!(
        clients
            .toggle_decorations(ClientId::new(1))
            .expect("normal client supports decorations")
            .decorations,
        ClientDecorations::none()
    );

    assert!(
        clients
            .set_decoration_override(ClientId::new(1), DecorationOverride::Undecorated,)
            .is_some()
    );
    assert!(
        clients
            .set_decoration_override(ClientId::new(1), DecorationOverride::Undecorated,)
            .is_none(),
        "repeating an explicit preference is idempotent"
    );
    assert_eq!(
        clients
            .set_decoration_override(ClientId::new(1), DecorationOverride::Default)
            .expect("restoring the natural policy changes the preference")
            .decorations,
        ClientDecorations::none()
    );
}

#[test]
fn raising_changes_stacking_but_not_management_order() {
    let mut clients = ClientSet::default();
    clients.manage(client(1));
    clients.manage(client(2));

    clients.raise(ClientId::new(1));

    assert_eq!(
        clients.management_order().to_vec(),
        [ClientId::new(1), ClientId::new(2)]
    );
    assert_eq!(
        clients.stacking().to_vec(),
        [ClientId::new(2), ClientId::new(1)]
    );
}

#[test]
fn lowering_changes_stacking_but_not_management_order() {
    let mut clients = ClientSet::default();
    clients.manage(client(1));
    clients.manage(client(2));

    clients.lower(ClientId::new(2));

    assert_eq!(
        clients.management_order().to_vec(),
        [ClientId::new(1), ClientId::new(2)]
    );
    assert_eq!(
        clients.stacking().to_vec(),
        [ClientId::new(2), ClientId::new(1)]
    );
}

#[test]
fn backend_stacking_discards_unknowns_and_preserves_unobserved_clients() {
    let mut clients = ClientSet::default();
    clients.manage(client(1));
    clients.manage(client(2));
    clients.manage(client(3));

    clients.sync_stacking(&[
        ClientId::new(3),
        ClientId::new(99),
        ClientId::new(3),
        ClientId::new(1),
    ]);

    assert_eq!(
        clients.stacking().to_vec(),
        [ClientId::new(2), ClientId::new(3), ClientId::new(1)]
    );
}

#[test]
fn policy_stacking_keeps_transient_chains_above_their_parents() {
    let mut clients = ClientSet::default();
    clients.manage(client(1));
    clients.manage(client(2));
    clients.manage(client(3));
    clients.set_relationships(
        ClientId::new(2),
        Some(TransientTarget::Client(ClientId::new(1))),
        None,
        false,
    );
    clients.set_relationships(
        ClientId::new(3),
        Some(TransientTarget::Client(ClientId::new(2))),
        None,
        false,
    );
    clients.raise(ClientId::new(1));

    assert_eq!(
        clients.policy_stacking(&OutputSet::default()),
        [ClientId::new(1), ClientId::new(2), ClientId::new(3)]
    );
}

#[test]
fn transient_inherits_a_higher_parent_layer_without_losing_own_layer() {
    let mut clients = ClientSet::default();
    let mut parent = client(1);
    parent.layer = ClientLayer::Above;
    clients.manage(parent);
    clients.manage(client(2));
    clients.set_relationships(
        ClientId::new(2),
        Some(TransientTarget::Client(ClientId::new(1))),
        None,
        false,
    );
    assert_eq!(
        clients.effective_stacking_layer(ClientId::new(2), &OutputSet::default()),
        Some(StackingLayer::Above)
    );

    assert!(clients.set_layer(ClientId::new(2), ClientLayer::Above));
    assert!(!clients.set_layer(ClientId::new(2), ClientLayer::Above));
    assert!(clients.set_layer(ClientId::new(1), ClientLayer::Normal));
    assert_eq!(
        clients.effective_stacking_layer(ClientId::new(2), &OutputSet::default()),
        Some(StackingLayer::Above)
    );
}

#[test]
fn exact_output_coverage_tracks_focus_family_workspace_and_output() {
    let outputs = OutputSet::new(&[
        Output {
            id: OutputId::new(10),
            geometry: Geometry::new(0, 0, 800, 600),
            primary: true,
        },
        Output {
            id: OutputId::new(20),
            geometry: Geometry::new(800, 0, 800, 600),
            primary: false,
        },
    ]);
    let mut clients = ClientSet::default();
    let mut covering = client(1);
    covering.geometry = Geometry::new(0, 0, 800, 600);
    covering.output_coverage = Some(OutputCoverage::new(OutputId::new(10)));
    clients.manage(covering);
    clients.manage(client(2));

    assert_eq!(
        clients.effective_stacking_layer(ClientId::new(1), &outputs),
        Some(StackingLayer::Fullscreen)
    );
    clients.focus(ClientId::new(2));
    assert_eq!(
        clients.effective_stacking_layer(ClientId::new(1), &outputs),
        Some(StackingLayer::Normal)
    );

    clients.set_geometry(ClientId::new(2), Geometry::new(900, 50, 300, 200));
    assert_eq!(
        clients.effective_stacking_layer(ClientId::new(1), &outputs),
        Some(StackingLayer::Fullscreen)
    );

    let mut child = client(3);
    child.geometry = Geometry::new(50, 50, 200, 100);
    clients.manage(child);
    clients.set_relationships(
        ClientId::new(3),
        Some(TransientTarget::Client(ClientId::new(1))),
        None,
        false,
    );
    clients.focus(ClientId::new(3));
    assert_eq!(
        clients.effective_stacking_layer(ClientId::new(1), &outputs),
        Some(StackingLayer::Fullscreen)
    );
    assert_eq!(
        clients.effective_stacking_layer(ClientId::new(3), &outputs),
        Some(StackingLayer::Fullscreen)
    );

    clients.set_workspace_count(2);
    clients.assign_workspace_family(
        ClientId::new(1),
        WorkspaceAssignment::Workspace(WorkspaceId::new(1)),
    );
    clients.focus(ClientId::new(2));
    assert_eq!(
        clients.effective_stacking_layer(ClientId::new(1), &outputs),
        Some(StackingLayer::Fullscreen)
    );
}

#[test]
fn managed_fullscreen_yields_to_focused_windows_on_the_same_output() {
    let outputs = OutputSet::new(&[
        Output {
            id: OutputId::new(10),
            geometry: Geometry::new(0, 0, 800, 600),
            primary: true,
        },
        Output {
            id: OutputId::new(20),
            geometry: Geometry::new(800, 0, 800, 600),
            primary: false,
        },
    ]);
    let mut clients = ClientSet::default();
    let mut fullscreen = client(1);
    fullscreen.geometry = Geometry::new(0, 0, 800, 600);
    fullscreen.fullscreen = Some(FullscreenState {
        restore: Geometry::new(50, 50, 400, 300),
    });
    clients.manage(fullscreen);
    clients.focus(ClientId::new(1));
    clients.manage(client(2));

    assert_eq!(
        clients.effective_stacking_layer(ClientId::new(1), &outputs),
        Some(StackingLayer::Fullscreen)
    );
    clients.focus(ClientId::new(2));
    assert_eq!(
        clients.effective_stacking_layer(ClientId::new(1), &outputs),
        Some(StackingLayer::Normal)
    );
    assert_eq!(
        clients.policy_stacking(&outputs),
        [ClientId::new(1), ClientId::new(2)]
    );

    clients.set_geometry(ClientId::new(2), Geometry::new(900, 50, 300, 200));
    assert_eq!(
        clients.effective_stacking_layer(ClientId::new(1), &outputs),
        Some(StackingLayer::Fullscreen)
    );
}

#[test]
fn maximize_and_managed_fullscreen_take_precedence_over_output_coverage() {
    let outputs = OutputSet::new(&[Output {
        id: OutputId::new(10),
        geometry: Geometry::new(0, 0, 800, 600),
        primary: true,
    }]);
    let mut clients = ClientSet::default();
    let mut covering = client(1);
    covering.geometry = Geometry::new(0, 0, 800, 600);
    covering.output_coverage = Some(OutputCoverage::new(OutputId::new(10)));
    clients.manage(covering);
    clients.focus(ClientId::new(1));

    clients.set_maximized(ClientId::new(1), true, true, Geometry::new(0, 0, 800, 600));
    assert_eq!(
        clients.effective_stacking_layer(ClientId::new(1), &outputs),
        Some(StackingLayer::Normal)
    );
    clients.set_fullscreen(ClientId::new(1), true, Geometry::new(0, 0, 800, 600));
    assert_eq!(
        clients.effective_stacking_layer(ClientId::new(1), &outputs),
        Some(StackingLayer::Fullscreen)
    );
}

#[test]
fn moving_any_specific_transient_moves_the_complete_family() {
    let mut clients = ClientSet::default();
    clients.set_workspace_count(2);
    clients.manage(client(1));
    clients.manage(client(2));
    clients.manage(client(3));
    clients.set_relationships(
        ClientId::new(2),
        Some(TransientTarget::Client(ClientId::new(1))),
        None,
        false,
    );
    clients.set_relationships(
        ClientId::new(3),
        Some(TransientTarget::Client(ClientId::new(2))),
        None,
        false,
    );

    let changed = clients.assign_workspace_family(
        ClientId::new(2),
        WorkspaceAssignment::Workspace(WorkspaceId::new(1)),
    );
    assert_eq!(
        changed,
        [ClientId::new(1), ClientId::new(2), ClientId::new(3)]
    );
    assert!(changed.iter().all(|id| {
        clients.get(*id).unwrap().workspace
            == WorkspaceAssignment::Workspace(WorkspaceId::new(1))
    }));
}

#[test]
fn cyclic_transient_stacking_and_family_moves_terminate() {
    let mut clients = ClientSet::default();
    clients.set_workspace_count(2);
    clients.manage(client(1));
    clients.manage(client(2));
    clients.set_relationships(
        ClientId::new(1),
        Some(TransientTarget::Client(ClientId::new(2))),
        None,
        false,
    );
    clients.set_relationships(
        ClientId::new(2),
        Some(TransientTarget::Client(ClientId::new(1))),
        None,
        false,
    );

    assert_eq!(clients.policy_stacking(&OutputSet::default()).len(), 2);
    assert_eq!(
        clients
            .assign_workspace_family(
                ClientId::new(1),
                WorkspaceAssignment::Workspace(WorkspaceId::new(1)),
            )
            .len(),
        2
    );
}

#[test]
fn group_transients_stay_above_members_and_follow_their_workspace() {
    let mut clients = ClientSet::default();
    clients.set_workspace_count(2);
    for id in 1..=3 {
        clients.manage(client(id));
    }
    let group = Some(ClientId::new(99));
    clients.set_relationships(ClientId::new(1), None, group, false);
    clients.set_relationships(ClientId::new(2), Some(TransientTarget::Group), group, false);
    clients.set_relationships(
        ClientId::new(3),
        Some(TransientTarget::Client(ClientId::new(2))),
        group,
        false,
    );

    clients.raise(ClientId::new(1));
    assert_eq!(
        clients.policy_stacking(&OutputSet::default()),
        [ClientId::new(1), ClientId::new(2), ClientId::new(3)]
    );

    let changed = clients.assign_workspace_family(
        ClientId::new(1),
        WorkspaceAssignment::Workspace(WorkspaceId::new(1)),
    );
    assert_eq!(changed.len(), 3);
    assert!(changed.iter().all(|id| {
        clients.get(*id).unwrap().workspace
            == WorkspaceAssignment::Workspace(WorkspaceId::new(1))
    }));

    let changed = clients.assign_workspace_family(
        ClientId::new(2),
        WorkspaceAssignment::Workspace(WorkspaceId::new(0)),
    );
    assert_eq!(changed, [ClientId::new(2), ClientId::new(3)]);
    assert_eq!(
        clients.get(ClientId::new(1)).unwrap().workspace,
        WorkspaceAssignment::Workspace(WorkspaceId::new(1))
    );
}

#[test]
fn multiple_group_transients_do_not_become_each_others_children() {
    let mut clients = ClientSet::default();
    for id in 1..=3 {
        clients.manage(client(id));
    }
    let group = Some(ClientId::new(99));
    clients.set_relationships(ClientId::new(1), None, group, false);
    clients.set_relationships(ClientId::new(2), Some(TransientTarget::Group), group, false);
    clients.set_relationships(ClientId::new(3), Some(TransientTarget::Group), group, false);

    clients.raise(ClientId::new(1));
    assert_eq!(
        clients.policy_stacking(&OutputSet::default()),
        [ClientId::new(1), ClientId::new(2), ClientId::new(3)]
    );
    assert_eq!(
        clients.assign_workspace_family(ClientId::new(2), WorkspaceAssignment::All),
        [ClientId::new(2)]
    );
}

#[test]
fn focus_relationships_cover_transient_trees_and_application_groups() {
    let mut clients = ClientSet::default();
    for id in 1..=5 {
        clients.manage(client(id));
    }
    clients.set_relationships(
        ClientId::new(2),
        Some(TransientTarget::Client(ClientId::new(1))),
        None,
        false,
    );
    clients.set_relationships(
        ClientId::new(3),
        Some(TransientTarget::Client(ClientId::new(2))),
        None,
        false,
    );
    let group = ClientId::new(99);
    clients.set_relationships(ClientId::new(4), None, Some(group), false);
    clients.set_relationships(ClientId::new(5), None, Some(group), false);

    assert!(clients.clients_are_related(ClientId::new(1), ClientId::new(3)));
    assert!(clients.clients_are_related(ClientId::new(4), ClientId::new(5)));
    assert!(clients.clients_share_transient_family(ClientId::new(1), ClientId::new(3)));
    assert!(
        !clients.clients_share_transient_family(ClientId::new(4), ClientId::new(5)),
        "application groups are not specific-transient trees"
    );
    assert!(!clients.clients_are_related(ClientId::new(1), ClientId::new(4)));
    assert!(!clients.clients_are_related(ClientId::new(1), ClientId::new(42)));
}

#[test]
fn size_hints_clamp_and_snap_to_base_relative_increments() {
    let hints = SizeHints {
        minimum: Some(Size::new(50, 40)),
        maximum: Some(Size::new(200, 160)),
        base: Some(Size::new(10, 10)),
        increment: Some(Size::new(20, 15)),
        aspect: None,
    };

    assert_eq!(hints.constrain(Size::new(47, 500)), Size::new(50, 160));
    assert_eq!(hints.constrain(Size::new(99, 89)), Size::new(90, 85));
}

#[test]
fn invalid_maximum_is_raised_to_the_minimum() {
    let hints = SizeHints {
        minimum: Some(Size::new(100, 80)),
        maximum: Some(Size::new(20, 10)),
        ..SizeHints::default()
    };
    assert_eq!(hints.constrain(Size::new(50, 50)), Size::new(100, 80));
}

#[test]
fn aspect_ratio_adjusts_height_after_other_constraints() {
    let square = AspectRatio::new(1, 1).expect("positive ratio");
    let hints = SizeHints {
        aspect: AspectRange::new(square, square),
        ..SizeHints::default()
    };
    assert_eq!(hints.constrain(Size::new(400, 100)), Size::new(400, 400));
    assert_eq!(hints.constrain(Size::new(80, 300)), Size::new(80, 80));
}

#[test]
fn aspect_ratio_is_applied_to_content_above_the_base_size() {
    let ratio = AspectRatio::new(2, 1).expect("positive ratio");
    let hints = SizeHints {
        base: Some(Size {
            width: 10,
            height: 20,
        }),
        aspect: AspectRange::new(ratio, ratio),
        ..SizeHints::default()
    };
    assert_eq!(hints.constrain(Size::new(110, 220)), Size::new(110, 70));
}

#[test]
fn south_east_gravity_keeps_the_bottom_right_anchor_fixed() {
    let geometry = Geometry::new(100, 80, 400, 100);
    assert_eq!(
        Gravity::SouthEast.adjust_resize(geometry, Size::new(600, 160), false, false),
        (-100, 20)
    );
}

#[test]
fn explicit_coordinates_override_gravity_on_their_axis() {
    let geometry = Geometry::new(100, 80, 400, 100);
    assert_eq!(
        Gravity::Center.adjust_resize(geometry, Size::new(600, 160), true, false),
        (100, 50)
    );
}

#[test]
fn modal_transient_redirects_parent_focus() {
    let mut clients = ClientSet::default();
    clients.manage(client(1));
    clients.manage(client(2));
    clients.set_relationships(
        ClientId::new(2),
        Some(TransientTarget::Client(ClientId::new(1))),
        None,
        true,
    );
    assert_eq!(
        clients.focus_target(ClientId::new(1)),
        Some(ClientId::new(2))
    );
}

#[test]
fn group_modal_redirects_focus_for_group_members() {
    let mut clients = ClientSet::default();
    clients.manage(client(1));
    clients.manage(client(2));
    let group = Some(ClientId::new(99));
    clients.set_relationships(ClientId::new(1), None, group, false);
    clients.set_relationships(ClientId::new(2), Some(TransientTarget::Group), group, true);
    assert_eq!(
        clients.focus_target(ClientId::new(1)),
        Some(ClientId::new(2))
    );
}

#[test]
fn cyclic_modal_relationships_terminate() {
    let mut clients = ClientSet::default();
    clients.manage(client(1));
    clients.manage(client(2));
    clients.set_relationships(
        ClientId::new(1),
        Some(TransientTarget::Client(ClientId::new(2))),
        None,
        true,
    );
    clients.set_relationships(
        ClientId::new(2),
        Some(TransientTarget::Client(ClientId::new(1))),
        None,
        true,
    );
    assert!(clients.focus_target(ClientId::new(1)).is_some());
}

#[test]
fn iconifying_focused_client_falls_back_to_visible_history() {
    let mut clients = ClientSet::default();
    clients.manage(client(1));
    clients.manage(client(2));
    clients.focus(ClientId::new(1));
    clients.focus(ClientId::new(2));
    clients.set_iconic(ClientId::new(2), true);
    assert_eq!(clients.focused(), Some(ClientId::new(1)));
    assert_eq!(clients.focus_target(ClientId::new(2)), None);
}

#[test]
fn iconified_modal_does_not_block_its_parent() {
    let mut clients = ClientSet::default();
    clients.manage(client(1));
    clients.manage(client(2));
    clients.set_relationships(
        ClientId::new(2),
        Some(TransientTarget::Client(ClientId::new(1))),
        None,
        true,
    );
    clients.set_iconic(ClientId::new(2), true);
    assert_eq!(
        clients.focus_target(ClientId::new(1)),
        Some(ClientId::new(1))
    );
}

#[test]
fn granted_sizes_lie_in_the_aspect_range() {
    let range = AspectRange::new(
        AspectRatio::new(1, 1).expect("positive"),
        AspectRatio::new(3, 1).expect("positive"),
    );
    assert!(range.is_some());
    let hints = SizeHints { aspect: range, ..SizeHints::default() };
    assert_eq!(hints.constrain(Size::new(10, 1)), Size::new(10, 4));
    assert_eq!(hints.constrain(Size::new(10, 50)), Size::new(10, 10));
    assert_eq!(hints.constrain(Size::new(9, 3)), Size::new(9, 3));
    assert_eq!(hints.constrain(Size::new(10, 7)), Size::new(10, 7));
    for width in 1..40 {
        for height in 1..40 {
            let granted = hints.constrain(Size::new(width, height));
            assert!(granted.height <= granted.width && granted.width <= 3 * granted.height);
        }
    }
}

#[test]
fn a_free_place_is_found_and_kept_when_centered() {
    let bounds = Geometry::new(10, 20, 400, 300);
    let obstacles = [
        Geometry::new(0, 0, 150, 400),
        Geometry::new(300, 20, 200, 120),
        Geometry::new(150, 250, 100, 200),
    ];
    let size = Size::new(120, 90);
    for center in [false, true] {
        let placed = smart_placement(size, bounds, &obstacles, center);
        assert_eq!((placed.width, placed.height), (120, 90));
        assert!(placed.x >= 10 && placed.y >= 20);
        assert!(placed.x + 120 <= 410 && placed.y + 90 <= 320);
        assert_eq!(placement_overlap_score(placed, &obstacles), 0);
    }
    assert_eq!(
        smart_placement(size, bounds, &obstacles, false),
        Geometry::new(150, 20, 120, 90)
    );
}

#[test]
fn opposite_wrapped_steps_cancel_in_ragged_grids() {
    let pairs = [
        (WorkspaceDirection::Right, WorkspaceDirection::Left),
        (WorkspaceDirection::Left, WorkspaceDirection::Right),
        (WorkspaceDirection::Down, WorkspaceDirection::Up),
        (WorkspaceDirection::Up, WorkspaceDirection::Down),
        (WorkspaceDirection::Next, WorkspaceDirection::Previous),
    ];
    for orientation in [WorkspaceOrientation::Horizontal, WorkspaceOrientation::Vertical] {
        for corner in [WorkspaceCorner::TopLeft, WorkspaceCorner::BottomRight] {
            for (columns, rows) in [(3, 0), (0, 3), (2, 2), (4, 2)] {
                let layout = WorkspaceLayout::new(7, columns, rows, orientation, corner)
                    .expect("one side is given");
                for index in 0..7 {
                    let start = WorkspaceId::new(index);
                    for (there, back) in pairs {
                        let met = layout.neighbor(start, there, true);
                        assert!(met.index() < 7);
                        assert_eq!(layout.neighbor(met, back, true), start);
                    }
                    assert_eq!(layout.neighbor(start, WorkspaceDirection::Next, true), start);
                    assert_eq!(layout.neighbor(start, WorkspaceDirection::Previous, false), start);
                }
            }
        }
    }
    let layout = WorkspaceLayout::new(
        5,
        3,
        0,
        WorkspaceOrientation::Horizontal,
        WorkspaceCorner::TopLeft,
    )
    .expect("columns are given");
    assert_eq!(
        layout.neighbor(WorkspaceId::new(4), WorkspaceDirection::Right, true),
        WorkspaceId::new(3)
    );
    assert_eq!(
        layout.neighbor(WorkspaceId::new(2), WorkspaceDirection::Down, true),
        WorkspaceId::new(2)
    );
}

#[test]
fn toggling_decorations_twice_restores_the_policy() {
    let mut bare = client(2);
    bare.policy.decorations = ClientDecorations::none();
    // Natural decorations that differ from the policy are taken from it when managed.
    let mut clients = ClientSet::default();
    clients.manage(client(1));
    clients.manage(bare);
    for raw in [1, 2] {
        let id = ClientId::new(raw);
        let before = clients.get(id).expect("managed").policy;
        let once = clients.toggle_decorations(id).expect("decorated role");
        assert_ne!(once.decorations.is_present(), before.decorations.is_present());
        assert_eq!(once.role, before.role);
        assert_eq!(once.capabilities, before.capabilities);
        assert_eq!(clients.toggle_decorations(id), Some(before));
        let after = clients.get(id).expect("managed");
        assert_eq!(after.decoration_override, DecorationOverride::Default);
    }
    let mut dock = client(3);
    dock.policy = ClientPolicy::for_role(ClientRole::Dock);
    clients.manage(dock);
    assert_eq!(clients.toggle_decorations(ClientId::new(3)), None);
    clients.set_fullscreen(ClientId::new(1), true, Geometry::new(0, 0, 800, 600));
    assert_eq!(clients.toggle_decorations(ClientId::new(1)), None);
}

#[test]
fn transients_are_stacked_no_lower_than_their_parents() {
    let outputs = OutputSet::default();
    let mut clients = ClientSet::default();
    clients.manage(client(1));
    let mut dialog = client(2);
    dialog.transient_for = Some(TransientTarget::Client(ClientId::new(1)));
    dialog.layer = ClientLayer::Below;
    clients.manage(dialog);
    let mut question = client(3);
    question.transient_for = Some(TransientTarget::Client(ClientId::new(2)));
    clients.manage(question);
    assert_eq!(
        clients.effective_stacking_layer(ClientId::new(2), &outputs),
        Some(StackingLayer::Normal)
    );
    clients.set_layer(ClientId::new(1), ClientLayer::Above);
    for raw in [1, 2, 3] {
        assert_eq!(
            clients.effective_stacking_layer(ClientId::new(raw), &outputs),
            Some(StackingLayer::Above)
        );
    }
    assert_eq!(clients.effective_stacking_layer(ClientId::new(9), &outputs), None);
}
