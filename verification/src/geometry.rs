//! Rectangles in root-window coordinates and the operations on them.

use vstd::prelude::*;

use crate::num;
use crate::num::{
    add_coordinate, add_signed_coordinate, axis_end, clamp_i64_to_i32, coordinate_end, max_i64,
    max_u32, min_i64, min_u32, signed_difference, spans_overlap, subtract_coordinate,
};

verus! {

/// Client geometry in root-window coordinates.
#[derive(Clone, Copy, Debug, PartialEq, Eq, Structural)]
pub struct Geometry {
    /// Horizontal position.
    pub x: i32,
    /// Vertical position.
    pub y: i32,
    /// Width in pixels.
    pub width: u32,
    /// Height in pixels.
    pub height: u32,
}

/// The non-empty rectangle closest to the given position and dimensions.
pub open spec fn rect(x: int, y: int, width: int, height: int) -> Geometry {
    Geometry {
        x: num::coordinate(x) as i32,
        y: num::coordinate(y) as i32,
        width: num::bounded(width, 1, u32::MAX as int) as u32,
        height: num::bounded(height, 1, u32::MAX as int) as u32,
    }
}

/// Signed changes applied to each edge during a relative resize.
#[derive(Clone, Copy, Debug, Default, PartialEq, Eq, Structural)]
pub struct ResizeDeltas {
    /// Positive values grow the left edge outward.
    pub left: i32,
    /// Positive values grow the right edge outward.
    pub right: i32,
    /// Positive values grow the top edge outward.
    pub top: i32,
    /// Positive values grow the bottom edge outward.
    pub bottom: i32,
}

impl ResizeDeltas {
    /// Derives edge changes needed to transform one rectangle into another.
    #[must_use]
    pub fn between(current: Geometry, desired: Geometry) -> (deltas: Self)
        ensures
            deltas.left == num::coordinate(current.x - desired.x),
            deltas.right == num::coordinate(desired.right() - current.right()),
            deltas.top == num::coordinate(current.y - desired.y),
            deltas.bottom == num::coordinate(desired.bottom() - current.bottom()),
    {
        Self {
            left: signed_difference(current.x as i64, desired.x as i64),
            right: signed_difference(
                axis_end(desired.x, desired.width),
                axis_end(current.x, current.width),
            ),
            top: signed_difference(current.y as i64, desired.y as i64),
            bottom: signed_difference(
                axis_end(desired.y, desired.height),
                axis_end(current.y, current.height),
            ),
        }
    }
}

/// One edge reservation with an inclusive span on the perpendicular axis.
#[derive(Clone, Copy, Debug, Default, PartialEq, Eq, Structural)]
pub struct EdgeReservation {
    /// Depth reserved inward from the output edge.
    pub depth: u32,
    /// Inclusive root-coordinate start of the reservation span.
    pub start: i32,
    /// Inclusive root-coordinate end of the reservation span.
    pub end: i32,
}

impl EdgeReservation {
    /// The depth this reservation takes from an edge with the given span.
    pub open spec fn depth_on(self, start: int, end: int) -> int {
        if num::spans_meet(self.start as int, self.end as int, start, end) {
            self.depth as int
        } else {
            0
        }
    }

    fn effective_depth(self, start: i32, end: i32) -> (depth: u32)
        ensures
            depth == self.depth_on(start as int, end as int),
    {
        if spans_overlap(self.start, self.end, start, end) {
            self.depth
        } else {
            0
        }
    }
}

/// Space reserved at output edges by panels, docks, or user policy.
#[derive(Clone, Copy, Debug, Default, PartialEq, Eq, Structural)]
pub struct EdgeReservations {
    /// Left-edge reservation spanning vertical coordinates.
    pub left: EdgeReservation,
    /// Right-edge reservation spanning vertical coordinates.
    pub right: EdgeReservation,
    /// Top-edge reservation spanning horizontal coordinates.
    pub top: EdgeReservation,
    /// Bottom-edge reservation spanning horizontal coordinates.
    pub bottom: EdgeReservation,
}

/// The deepest left, right, top, and bottom depths that reservations take from
/// a rectangle, each counted only where its span meets the rectangle.
pub open spec fn reserved_depths(
    geometry: Geometry,
    reservations: Seq<EdgeReservations>,
) -> (int, int, int, int)
    decreases reservations.len(),
{
    if reservations.len() == 0 {
        (0, 0, 0, 0)
    } else {
        let before = reserved_depths(geometry, reservations.drop_last());
        let last = reservations.last();
        let x_end = num::last_coordinate(geometry.x as int, geometry.width as int);
        let y_end = num::last_coordinate(geometry.y as int, geometry.height as int);
        (
            num::greater(before.0, last.left.depth_on(geometry.y as int, y_end)),
            num::greater(before.1, last.right.depth_on(geometry.y as int, y_end)),
            num::greater(before.2, last.top.depth_on(geometry.x as int, x_end)),
            num::greater(before.3, last.bottom.depth_on(geometry.x as int, x_end)),
        )
    }
}

/// Space reserved around client content for server-side decoration.
#[derive(Clone, Copy, Debug, Default, PartialEq, Eq, Structural)]
pub struct DecorationExtents {
    /// Pixels to the left of client content.
    pub left: u32,
    /// Pixels to the right of client content.
    pub right: u32,
    /// Pixels above client content.
    pub top: u32,
    /// Pixels below client content.
    pub bottom: u32,
}

impl DecorationExtents {
    /// Creates decoration extents for each content edge.
    #[must_use]
    pub fn new(left: u32, right: u32, top: u32, bottom: u32) -> (extents: Self)
        ensures
            extents == (DecorationExtents { left, right, top, bottom }),
    {
        Self { left, right, top, bottom }
    }

    /// The decorated rectangle around `content`.
    pub open spec fn outer(self, content: Geometry) -> Geometry {
        rect(
            content.x - self.left,
            content.y - self.top,
            content.width + self.left + self.right,
            content.height + self.top + self.bottom,
        )
    }

    /// The content rectangle inside a decorated one.
    pub open spec fn content(self, outer: Geometry) -> Geometry {
        rect(
            outer.x + self.left,
            outer.y + self.top,
            outer.width - self.left - self.right,
            outer.height - self.top - self.bottom,
        )
    }

    /// Expands content geometry to the outer decorated geometry.
    #[must_use]
    pub fn outer_geometry(self, content: Geometry) -> (outer: Geometry)
        ensures
            outer == self.outer(content),
    {
        Geometry::new(
            subtract_coordinate(content.x, self.left),
            subtract_coordinate(content.y, self.top),
            content.width.saturating_add(self.left).saturating_add(self.right),
            content.height.saturating_add(self.top).saturating_add(self.bottom),
        )
    }

    /// Contracts decorated outer geometry back to client content geometry.
    #[must_use]
    pub fn content_geometry(self, outer: Geometry) -> (content: Geometry)
        ensures
            content == self.content(outer),
    {
        Geometry::new(
            add_coordinate(outer.x, self.left),
            add_coordinate(outer.y, self.top),
            outer.width.saturating_sub(self.left).saturating_sub(self.right),
            outer.height.saturating_sub(self.top).saturating_sub(self.bottom),
        )
    }

    /// Returns the client's offset inside its decoration frame.
    #[must_use]
    pub fn content_offset(self) -> (offset: (i32, i32))
        ensures
            offset.0 == num::coordinate(self.left as int),
            offset.1 == num::coordinate(self.top as int),
    {
        (clamp_i64_to_i32(self.left as i64), clamp_i64_to_i32(self.top as i64))
    }
}

/// The start of an axis snapped to the nearer of two bounds edges in reach.
pub open spec fn snapped_start(
    start: int,
    length: int,
    bounds_start: int,
    bounds_length: int,
    distance: int,
) -> int {
    let far = bounds_start + bounds_length - length;
    let near_gap = num::distance_between(start, bounds_start);
    let far_gap = num::distance_between(start, far);
    if near_gap <= distance && near_gap <= far_gap {
        bounds_start
    } else if far_gap <= distance {
        far
    } else {
        start
    }
}

/// The length of an axis whose end snaps to the bounds edge in reach.
pub open spec fn snapped_length(
    start: int,
    length: int,
    bounds_end: int,
    distance: int,
) -> int {
    if num::distance_between(start + length, bounds_end) > distance || bounds_end <= start {
        length
    } else {
        bounds_end - start
    }
}

/// The closest candidate position in reach with its distance; the first one
/// wins a tie.
pub open spec fn nearest_snap(
    current: int,
    first: int,
    second: int,
    distance: int,
) -> Option<(int, int)> {
    let first_gap = num::distance_between(current, first);
    let second_gap = num::distance_between(current, second);
    if first_gap <= distance && (second_gap > distance || first_gap <= second_gap) {
        Some((first_gap, first))
    } else if second_gap <= distance {
        Some((second_gap, second))
    } else {
        None
    }
}

/// The closer of two snaps; the later one wins a tie.
pub open spec fn closer_snap(
    best: Option<(int, int)>,
    candidate: Option<(int, int)>,
) -> Option<(int, int)> {
    match (best, candidate) {
        (_, None) => best,
        (None, Some(_)) => candidate,
        (Some(b), Some(c)) => if c.0 <= b.0 {
            candidate
        } else {
            best
        },
    }
}

/// The best horizontal and vertical snaps of a moved rectangle beside the
/// given targets. Facing edges snap first; a facing snap also lets the
/// matching corners align on the other axis.
pub open spec fn target_snaps(
    moved: Geometry,
    targets: Seq<Geometry>,
    distance: int,
) -> (Option<(int, int)>, Option<(int, int)>)
    decreases targets.len(),
{
    if targets.len() == 0 {
        (None, None)
    } else {
        let before = target_snaps(moved, targets.drop_last(), distance);
        let t = targets.last();
        let facing_x = if moved.y < t.bottom() && t.y < moved.bottom() {
            nearest_snap(moved.x as int, t.right(), t.x - moved.width, distance)
        } else {
            None
        };
        let facing_y = if moved.x < t.right() && t.x < moved.right() {
            nearest_snap(moved.y as int, t.bottom(), t.y - moved.height, distance)
        } else {
            None
        };
        let corner_x = if facing_y is Some {
            nearest_snap(moved.x as int, t.x as int, t.right() - moved.width, distance)
        } else {
            None
        };
        let corner_y = if facing_x is Some {
            nearest_snap(moved.y as int, t.y as int, t.bottom() - moved.height, distance)
        } else {
            None
        };
        (
            closer_snap(closer_snap(before.0, facing_x), corner_x),
            closer_snap(closer_snap(before.1, facing_y), corner_y),
        )
    }
}

/// The position a snap selects, or the current one without a snap.
pub open spec fn snap_position(snap: Option<(int, int)>, current: int) -> int {
    match snap {
        Some(s) => s.1,
        None => current,
    }
}

/// A position moved so that a span of `length` starts inside bounds; an
/// oversized span aligns with the start of the bounds.
pub open spec fn placed_within(position: int, start: int, bounds_length: int, length: int) -> int {
    num::bounded(position, start, start + num::greater(bounds_length - length, 0))
}

impl Geometry {
    /// The first horizontal position past the rectangle.
    pub open spec fn right(self) -> int {
        self.x + self.width
    }

    /// The first vertical position past the rectangle.
    pub open spec fn bottom(self) -> int {
        self.y + self.height
    }

    /// Whether `inner` lies completely inside this rectangle.
    pub open spec fn encloses(self, inner: Geometry) -> bool {
        &&& self.x <= inner.x
        &&& self.y <= inner.y
        &&& inner.right() <= self.right()
        &&& inner.bottom() <= self.bottom()
    }

    /// Whether the interiors of two rectangles meet.
    pub open spec fn meets(self, other: Geometry) -> bool {
        &&& self.x < other.right()
        &&& other.x < self.right()
        &&& self.y < other.bottom()
        &&& other.y < self.bottom()
    }

    /// Creates non-empty geometry.
    #[must_use]
    pub fn new(x: i32, y: i32, width: u32, height: u32) -> (geometry: Self)
        ensures
            geometry == rect(x as int, y as int, width as int, height as int),
    {
        Self { x, y, width: max_u32(width, 1), height: max_u32(height, 1) }
    }

    /// The rectangle shifted by an offset.
    pub open spec fn shifted(self, x: int, y: int) -> Geometry {
        rect(self.x + x, self.y + y, self.width as int, self.height as int)
    }

    /// Translates geometry without allowing signed coordinate overflow.
    #[must_use]
    pub fn translated(self, x: i32, y: i32) -> (geometry: Self)
        ensures
            geometry == self.shifted(x as int, y as int),
    {
        Self::new(
            add_signed_coordinate(self.x, x as i64),
            add_signed_coordinate(self.y, y as i64),
            self.width,
            self.height,
        )
    }

    /// The rectangle left between the reserved depths, each of which leaves at
    /// least one pixel.
    pub open spec fn remaining_area(self, reservations: Seq<EdgeReservations>) -> Geometry {
        let depths = reserved_depths(self, reservations);
        let left = num::lesser(depths.0, num::greater(self.width - 1, 0));
        let right = num::lesser(depths.1, num::greater(self.width - left - 1, 0));
        let top = num::lesser(depths.2, num::greater(self.height - 1, 0));
        let bottom = num::lesser(depths.3, num::greater(self.height - top - 1, 0));
        rect(self.x + left, self.y + top, self.width - left - right, self.height - top - bottom)
    }

    /// Returns the largest rectangular area left after intersecting edge reservations.
    #[must_use]
    pub fn work_area(self, reservations: &[EdgeReservations]) -> (area: Self)
        ensures
            area == self.remaining_area(reservations@),
    {
        let mut left: u32 = 0;
        let mut right: u32 = 0;
        let mut top: u32 = 0;
        let mut bottom: u32 = 0;
        let x_end: i32 = coordinate_end(self.x, self.width);
        let y_end: i32 = coordinate_end(self.y, self.height);
        let mut index: usize = 0;
        while index < reservations.len()
            invariant
                index <= reservations.len(),
                x_end == num::last_coordinate(self.x as int, self.width as int),
                y_end == num::last_coordinate(self.y as int, self.height as int),
                (left as int, right as int, top as int, bottom as int) == reserved_depths(
                    self,
                    reservations@.take(index as int),
                ),
            decreases reservations.len() - index,
        {
            let reservation: EdgeReservations = reservations[index];
            assert(reservations@.take(index + 1).drop_last() =~= reservations@.take(index as int));
            left = max_u32(left, reservation.left.effective_depth(self.y, y_end));
            right = max_u32(right, reservation.right.effective_depth(self.y, y_end));
            top = max_u32(top, reservation.top.effective_depth(self.x, x_end));
            bottom = max_u32(bottom, reservation.bottom.effective_depth(self.x, x_end));
            index += 1;
        }
        assert(reservations@.take(index as int) =~= reservations@);
        let left: u32 = min_u32(left, self.width.saturating_sub(1));
        let right: u32 = min_u32(right, self.width.saturating_sub(left).saturating_sub(1));
        let top: u32 = min_u32(top, self.height.saturating_sub(1));
        let bottom: u32 = min_u32(bottom, self.height.saturating_sub(top).saturating_sub(1));
        Self::new(
            add_coordinate(self.x, left),
            add_coordinate(self.y, top),
            self.width.saturating_sub(left).saturating_sub(right),
            self.height.saturating_sub(top).saturating_sub(bottom),
        )
    }

    /// The rectangle moved inside bounds, keeping its size.
    pub open spec fn moved_inside(self, bounds: Geometry) -> Geometry {
        rect(
            placed_within(self.x as int, bounds.x as int, bounds.width as int, self.width as int),
            placed_within(self.y as int, bounds.y as int, bounds.height as int, self.height as int),
            self.width as int,
            self.height as int,
        )
    }

    /// Moves a rectangle fully inside bounds when its size permits, preserving
    /// its dimensions. Oversized axes align with the corresponding start edge.
    #[must_use]
    pub fn clamp_position(self, bounds: Self) -> (geometry: Self)
        ensures
            geometry == self.moved_inside(bounds),
    {
        Self::new(
            clamp_placement_axis(self.x as i64, bounds.x, bounds.width, self.width),
            clamp_placement_axis(self.y as i64, bounds.y, bounds.height, self.height),
            self.width,
            self.height,
        )
    }

    /// The rectangle moved to the nearest sides of bounds in reach.
    pub open spec fn snapped_in(self, bounds: Geometry, distance: int) -> Geometry {
        rect(
            snapped_start(
                self.x as int,
                self.width as int,
                bounds.x as int,
                bounds.width as int,
                distance,
            ),
            snapped_start(
                self.y as int,
                self.height as int,
                bounds.y as int,
                bounds.height as int,
                distance,
            ),
            self.width as int,
            self.height as int,
        )
    }

    /// Snaps moved geometry to the nearest matching bounds edges.
    #[must_use]
    pub fn snap_movement(self, bounds: Self, distance: u32) -> (geometry: Self)
        ensures
            geometry == self.snapped_in(bounds, distance as int),
    {
        Self::new(
            snap_axis_start(self.x, self.width, bounds.x, bounds.width, distance),
            snap_axis_start(self.y, self.height, bounds.y, bounds.height, distance),
            self.width,
            self.height,
        )
    }

    /// The rectangle moved beside the nearest targets in reach.
    pub open spec fn snapped_beside(self, targets: Seq<Geometry>, distance: int) -> Geometry {
        let snaps = target_snaps(self, targets, distance);
        rect(
            snap_position(snaps.0, self.x as int),
            snap_position(snaps.1, self.y as int),
            self.width as int,
            self.height as int,
        )
    }

    /// Snaps moved outer edges beside nearby rectangles.
    ///
    /// The closest edge on each axis wins. When adjacent edges snap, matching
    /// corners may also align within the same distance. Later targets win exact
    /// ties, allowing callers to supply bottom-to-top stacking order.
    #[must_use]
    pub fn snap_movement_to(self, targets: &[Geometry], distance: u32) -> (geometry: Self)
        ensures
            geometry == self.snapped_beside(targets@, distance as int),
    {
        let mut best_x: Option<(u64, i64)> = None;
        let mut best_y: Option<(u64, i64)> = None;
        let left: i64 = self.x as i64;
        let top: i64 = self.y as i64;
        let right: i64 = geometry_right(self);
        let bottom: i64 = geometry_bottom(self);
        let mut index: usize = 0;
        while index < targets.len()
            invariant
                index <= targets.len(),
                left == self.x,
                top == self.y,
                right == self.right(),
                bottom == self.bottom(),
                (snap_view(best_x), snap_view(best_y)) == target_snaps(
                    self,
                    targets@.take(index as int),
                    distance as int,
                ),
            decreases targets.len() - index,
        {
            let target: Geometry = targets[index];
            assert(targets@.take(index + 1).drop_last() =~= targets@.take(index as int));
            let target_left: i64 = target.x as i64;
            let target_top: i64 = target.y as i64;
            let target_right: i64 = geometry_right(target);
            let target_bottom: i64 = geometry_bottom(target);
            let facing_x: Option<(u64, i64)> = if top < target_bottom && target_top < bottom {
                nearest_axis_snap(left, target_right, target_left - self.width as i64, distance)
            } else {
                None
            };
            let facing_y: Option<(u64, i64)> = if left < target_right && target_left < right {
                nearest_axis_snap(top, target_bottom, target_top - self.height as i64, distance)
            } else {
                None
            };
            update_axis_snap(&mut best_x, facing_x);
            update_axis_snap(&mut best_y, facing_y);
            if facing_x.is_some() {
                update_axis_snap(
                    &mut best_y,
                    nearest_axis_snap(
                        top,
                        target_top,
                        target_bottom - self.height as i64,
                        distance,
                    ),
                );
            }
            if facing_y.is_some() {
                update_axis_snap(
                    &mut best_x,
                    nearest_axis_snap(
                        left,
                        target_left,
                        target_right - self.width as i64,
                        distance,
                    ),
                );
            }
            index += 1;
        }
        assert(targets@.take(index as int) =~= targets@);
        let x: i32 = match best_x {
            Some((_, position)) => clamp_i64_to_i32(position),
            None => self.x,
        };
        let y: i32 = match best_y {
            Some((_, position)) => clamp_i64_to_i32(position),
            None => self.y,
        };
        Self::new(x, y, self.width, self.height)
    }

    /// The rectangle with its far sides moved to those of bounds in reach.
    pub open spec fn resize_snapped(self, bounds: Geometry, distance: int) -> Geometry {
        rect(
            self.x as int,
            self.y as int,
            snapped_length(self.x as int, self.width as int, bounds.right(), distance),
            snapped_length(self.y as int, self.height as int, bounds.bottom(), distance),
        )
    }

    /// Snaps bottom-right resize edges to matching bounds edges.
    #[must_use]
    pub fn snap_resize(self, bounds: Self, distance: u32) -> (geometry: Self)
        ensures
            geometry == self.resize_snapped(bounds, distance as int),
    {
        Self::new(
            self.x,
            self.y,
            snap_axis_length(self.x, self.width, bounds.x, bounds.width, distance),
            snap_axis_length(self.y, self.height, bounds.y, bounds.height, distance),
        )
    }
}

pub(crate) fn geometry_right(geometry: Geometry) -> (r: i64)
    ensures
        r == geometry.right(),
{
    axis_end(geometry.x, geometry.width)
}

pub(crate) fn geometry_bottom(geometry: Geometry) -> (r: i64)
    ensures
        r == geometry.bottom(),
{
    axis_end(geometry.y, geometry.height)
}

pub(crate) fn geometry_contains(bounds: Geometry, candidate: Geometry) -> (r: bool)
    ensures
        r == bounds.encloses(candidate),
{
    candidate.x >= bounds.x && candidate.y >= bounds.y && geometry_right(candidate)
        <= geometry_right(bounds) && geometry_bottom(candidate) <= geometry_bottom(bounds)
}

pub(crate) fn geometries_intersect(left: Geometry, right: Geometry) -> (r: bool)
    ensures
        r == left.meets(right),
{
    (left.x as i64) < geometry_right(right) && geometry_right(left) > right.x as i64 && (
    left.y as i64) < geometry_bottom(right) && geometry_bottom(left) > right.y as i64
}

/// The length shared by two spans.
pub open spec fn shared_length(a: int, a_end: int, b: int, b_end: int) -> int {
    num::greater(num::lesser(a_end, b_end) - num::greater(a, b), 0)
}

/// The area shared by two rectangles.
pub open spec fn shared_area(left: Geometry, right: Geometry) -> int {
    shared_length(left.x as int, left.right(), right.x as int, right.right()) * shared_length(
        left.y as int,
        left.bottom(),
        right.y as int,
        right.bottom(),
    )
}

pub(crate) fn shared_span(a: i32, a_length: u32, b: i32, b_length: u32) -> (r: u64)
    ensures
        r == shared_length(a as int, a + a_length, b as int, b + b_length),
        r <= a_length,
        r <= b_length,
{
    let length: i64 = min_i64(axis_end(a, a_length), axis_end(b, b_length)) - max_i64(
        a as i64,
        b as i64,
    );
    if length <= 0 {
        0
    } else {
        length as u64
    }
}

pub(crate) fn intersection_area(left: Geometry, right: Geometry) -> (r: u64)
    ensures
        r == shared_area(left, right),
{
    let width: u64 = shared_span(left.x, left.width, right.x, right.width);
    let height: u64 = shared_span(left.y, left.height, right.y, right.height);
    assert(0 <= width * height <= 0xffff_ffff * 0xffff_ffff) by (nonlinear_arith)
        requires
            width <= 0xffff_ffff,
            height <= 0xffff_ffff,
    ;
    width * height
}

/// The gap between two spans; touching or overlapping spans have none.
pub open spec fn span_gap(a: int, a_end: int, b: int, b_end: int) -> int {
    num::greater(num::greater(b - a_end, a - b_end), 0)
}

/// The squared distance between two rectangles.
pub open spec fn squared_distance(left: Geometry, right: Geometry) -> int {
    let horizontal = span_gap(left.x as int, left.right(), right.x as int, right.right());
    let vertical = span_gap(left.y as int, left.bottom(), right.y as int, right.bottom());
    horizontal * horizontal + vertical * vertical
}

fn gap(a: i32, a_length: u32, b: i32, b_length: u32) -> (r: u64)
    ensures
        r == span_gap(a as int, a + a_length, b as int, b + b_length),
        r <= 0xffff_ffff,
{
    let a_end: i64 = axis_end(a, a_length);
    let b_end: i64 = axis_end(b, b_length);
    if a_end < b as i64 {
        (b as i64 - a_end) as u64
    } else if b_end < a as i64 {
        (a as i64 - b_end) as u64
    } else {
        0
    }
}

pub(crate) fn rectangle_distance_squared(left: Geometry, right: Geometry) -> (r: u128)
    ensures
        r == squared_distance(left, right),
{
    let horizontal: u64 = gap(left.x, left.width, right.x, right.width);
    let vertical: u64 = gap(left.y, left.height, right.y, right.height);
    assert(0 <= horizontal * horizontal <= 0xffff_ffff * 0xffff_ffff) by (nonlinear_arith)
        requires
            horizontal <= 0xffff_ffff,
    ;
    assert(0 <= vertical * vertical <= 0xffff_ffff * 0xffff_ffff) by (nonlinear_arith)
        requires
            vertical <= 0xffff_ffff,
    ;
    (horizontal * horizontal) as u128 + (vertical * vertical) as u128
}

pub(crate) fn clamp_placement_axis(position: i64, start: i32, length: u32, requested: u32) -> (r:
    i32)
    ensures
        r == num::coordinate(
            placed_within(position as int, start as int, length as int, requested as int),
        ),
{
    let maximum: i64 = start as i64 + length.saturating_sub(requested) as i64;
    clamp_i64_to_i32(max_i64(start as i64, min_i64(position, maximum)))
}

fn snap_axis_start(
    start: i32,
    length: u32,
    bounds_start: i32,
    bounds_length: u32,
    distance: u32,
) -> (r: i32)
    ensures
        r == num::coordinate(
            snapped_start(
                start as int,
                length as int,
                bounds_start as int,
                bounds_length as int,
                distance as int,
            ),
        ),
{
    let near: i64 = bounds_start as i64;
    let far: i64 = near + bounds_length as i64 - length as i64;
    let near_gap: u64 = num::abs_diff(start as i64, near);
    let far_gap: u64 = num::abs_diff(start as i64, far);
    let snapped: i64 = if near_gap <= distance as u64 && near_gap <= far_gap {
        near
    } else if far_gap <= distance as u64 {
        far
    } else {
        start as i64
    };
    clamp_i64_to_i32(snapped)
}

fn snap_axis_length(
    start: i32,
    length: u32,
    bounds_start: i32,
    bounds_length: u32,
    distance: u32,
) -> (r: u32)
    ensures
        num::bounded(r as int, 1, u32::MAX as int) == num::bounded(
            snapped_length(
                start as int,
                length as int,
                bounds_start + bounds_length,
                distance as int,
            ),
            1,
            u32::MAX as int,
        ),
{
    let edge: i64 = axis_end(start, length);
    let target: i64 = axis_end(bounds_start, bounds_length);
    if num::abs_diff(edge, target) > distance as u64 || target <= start as i64 {
        return length;
    }
    num::span_dimension(start as i64, target)
}

/// The mathematical value of a recorded snap.
pub open spec fn snap_view(snap: Option<(u64, i64)>) -> Option<(int, int)> {
    match snap {
        Some((gap, position)) => Some((gap as int, position as int)),
        None => None,
    }
}

fn nearest_axis_snap(current: i64, first: i64, second: i64, distance: u32) -> (r: Option<
    (u64, i64),
>)
    requires
        -0x1_0000_0000_0000 < current < 0x1_0000_0000_0000,
        -0x1_0000_0000_0000 < first < 0x1_0000_0000_0000,
        -0x1_0000_0000_0000 < second < 0x1_0000_0000_0000,
    ensures
        snap_view(r) == nearest_snap(
            current as int,
            first as int,
            second as int,
            distance as int,
        ),
{
    let first_gap: u64 = num::abs_diff(current, first);
    let second_gap: u64 = num::abs_diff(current, second);
    if first_gap <= distance as u64 && (second_gap > distance as u64 || first_gap <= second_gap) {
        Some((first_gap, first))
    } else if second_gap <= distance as u64 {
        Some((second_gap, second))
    } else {
        None
    }
}

fn update_axis_snap(best: &mut Option<(u64, i64)>, candidate: Option<(u64, i64)>)
    ensures
        snap_view(*final(best)) == closer_snap(snap_view(*old(best)), snap_view(candidate)),
{
    if let Some(found) = candidate {
        let closer: bool = match *best {
            Some(current) => found.0 <= current.0,
            None => true,
        };
        if closer {
            *best = Some(found);
        }
    }
}

/// Decorating content and taking the decoration off again gives the content
/// back, as long as neither step leaves the representable range.
pub proof fn law_content_of_outer(extents: DecorationExtents, content: Geometry)
    requires
        content.width >= 1,
        content.height >= 1,
        content.x - extents.left >= i32::MIN,
        content.y - extents.top >= i32::MIN,
        content.width + extents.left + extents.right <= u32::MAX,
        content.height + extents.top + extents.bottom <= u32::MAX,
    ensures
        extents.content(extents.outer(content)) == content,
{
}

/// Reserved depths are never negative.
proof fn lemma_depths_non_negative(geometry: Geometry, reservations: Seq<EdgeReservations>)
    ensures
        reserved_depths(geometry, reservations).0 >= 0,
        reserved_depths(geometry, reservations).1 >= 0,
        reserved_depths(geometry, reservations).2 >= 0,
        reserved_depths(geometry, reservations).3 >= 0,
    decreases reservations.len(),
{
    if reservations.len() > 0 {
        lemma_depths_non_negative(geometry, reservations.drop_last());
    }
}

/// The work area of a non-empty rectangle lies inside it, whatever is
/// reserved, as long as the rectangle itself is representable.
pub proof fn law_work_area_is_enclosed(geometry: Geometry, reservations: Seq<EdgeReservations>)
    requires
        geometry.width >= 1,
        geometry.height >= 1,
        geometry.right() <= i32::MAX,
        geometry.bottom() <= i32::MAX,
    ensures
        geometry.encloses(geometry.remaining_area(reservations)),
{
    lemma_depths_non_negative(geometry, reservations);
}

/// A rectangle that fits into bounds lies inside them once it was moved there,
/// and moving it there again changes nothing.
pub proof fn law_moved_inside(geometry: Geometry, bounds: Geometry)
    requires
        1 <= geometry.width <= bounds.width,
        1 <= geometry.height <= bounds.height,
        bounds.right() <= i32::MAX,
        bounds.bottom() <= i32::MAX,
    ensures
        bounds.encloses(geometry.moved_inside(bounds)),
        geometry.moved_inside(bounds).moved_inside(bounds) == geometry.moved_inside(bounds),
{
}

/// Snapping beside targets moves each axis by at most the snap distance.
pub proof fn law_snaps_stay_in_reach(moved: Geometry, targets: Seq<Geometry>, distance: int)
    requires
        distance >= 0,
    ensures
        num::distance_between(
            snap_position(target_snaps(moved, targets, distance).0, moved.x as int),
            moved.x as int,
        ) <= distance,
        num::distance_between(
            snap_position(target_snaps(moved, targets, distance).1, moved.y as int),
            moved.y as int,
        ) <= distance,
    decreases targets.len(),
{
    if targets.len() > 0 {
        law_snaps_stay_in_reach(moved, targets.drop_last(), distance);
    }
}

} // verus!
