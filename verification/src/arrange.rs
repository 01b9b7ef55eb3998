//! Moving, resizing, and navigating between rectangles.

use vstd::prelude::*;
use vstd::std_specs::cmp::PartialEqSpec;
use crate::geometry;
use crate::geometry::{geometries_intersect, Geometry, ResizeDeltas};
use crate::num;
use crate::num::{
    add_signed_coordinate, axis_end, clamp_i64_to_i32, coordinate_end, max_i64, min_i64,
    span_dimension, spans_overlap,
};
use crate::policy::RestackDecision;
use crate::size::{Size, SizeHints};

verus! {

/// Cardinal direction for window geometry operations.
#[derive(Clone, Copy, Debug, PartialEq, Eq, Structural)]
pub enum CardinalDirection {
    /// Toward smaller horizontal coordinates.
    Left,
    /// Toward larger horizontal coordinates.
    Right,
    /// Toward smaller vertical coordinates.
    Up,
    /// Toward larger vertical coordinates.
    Down,
}

impl CardinalDirection {
    /// Whether the direction runs along the horizontal axis.
    pub open spec fn is_horizontal(self) -> bool {
        self == CardinalDirection::Left || self == CardinalDirection::Right
    }

    /// Whether the direction runs toward smaller coordinates.
    pub open spec fn is_backward(self) -> bool {
        self == CardinalDirection::Left || self == CardinalDirection::Up
    }

    /// The direction that leads back.
    pub open spec fn reversed(self) -> CardinalDirection {
        match self {
            CardinalDirection::Left => CardinalDirection::Right,
            CardinalDirection::Right => CardinalDirection::Left,
            CardinalDirection::Up => CardinalDirection::Down,
            CardinalDirection::Down => CardinalDirection::Up,
        }
    }

    fn horizontal(self) -> (r: bool)
        ensures
            r == self.is_horizontal(),
    {
        match self {
            CardinalDirection::Left | CardinalDirection::Right => true,
            CardinalDirection::Up | CardinalDirection::Down => false,
        }
    }

    fn backward(self) -> (r: bool)
        ensures
            r == self.is_backward(),
    {
        match self {
            CardinalDirection::Left | CardinalDirection::Up => true,
            CardinalDirection::Right | CardinalDirection::Down => false,
        }
    }

    fn opposite(self) -> (r: CardinalDirection)
        ensures
            r == self.reversed(),
    {
        match self {
            CardinalDirection::Left => CardinalDirection::Right,
            CardinalDirection::Right => CardinalDirection::Left,
            CardinalDirection::Up => CardinalDirection::Down,
            CardinalDirection::Down => CardinalDirection::Up,
        }
    }
}

/// Eight-way direction for selecting a spatial window target.
#[derive(Clone, Copy, Debug, PartialEq, Eq, Structural)]
pub enum SpatialDirection {
    /// Toward smaller horizontal coordinates.
    Left,
    /// Toward larger horizontal coordinates.
    Right,
    /// Toward smaller vertical coordinates.
    Up,
    /// Toward larger vertical coordinates.
    Down,
    /// Diagonally toward smaller horizontal and vertical coordinates.
    UpLeft,
    /// Diagonally toward larger horizontal and smaller vertical coordinates.
    UpRight,
    /// Diagonally toward smaller horizontal and larger vertical coordinates.
    DownLeft,
    /// Diagonally toward larger horizontal and vertical coordinates.
    DownRight,
}

/// Whether directional growth may advance through an edge it already touches.
#[derive(Clone, Copy, Debug, PartialEq, Eq, Structural)]
pub enum BlockingEdgePolicy {
    /// Keep a side fixed while it touches a candidate edge.
    Stop,
    /// Advance to the next edge beyond a currently touching candidate.
    Cross,
}

/// Placement of one window axis within target bounds.
#[derive(Clone, Copy, Debug, PartialEq, Eq, Structural)]
pub enum AxisPlacement {
    /// Preserve the offset the window had within its source bounds.
    Keep,
    /// Place this many pixels from the target's starting edge.
    Start(i32),
    /// Center the window on this axis.
    Center,
    /// Place this many pixels inward from the target's ending edge.
    End(i32),
}

/// The position an axis placement asks for.
pub open spec fn requested_position(
    current: int,
    source_start: int,
    target_start: int,
    target_length: int,
    length: int,
    placement: AxisPlacement,
) -> int {
    match placement {
        AxisPlacement::Keep => target_start + (current - source_start),
        AxisPlacement::Start(offset) => target_start + offset,
        AxisPlacement::Center => target_start + num::half(target_length - length),
        AxisPlacement::End(inset) => target_start + target_length - length - inset,
    }
}

/// A rectangle of a requested size placed within target bounds.
pub open spec fn moved_and_resized(
    current: Geometry,
    source_bounds: Geometry,
    target_bounds: Geometry,
    size: Size,
    x: AxisPlacement,
    y: AxisPlacement,
) -> Geometry {
    geometry::rect(
        requested_position(
            current.x as int,
            source_bounds.x as int,
            target_bounds.x as int,
            target_bounds.width as int,
            size.width as int,
            x,
        ),
        requested_position(
            current.y as int,
            source_bounds.y as int,
            target_bounds.y as int,
            target_bounds.height as int,
            size.height as int,
            y,
        ),
        size.width as int,
        size.height as int,
    ).moved_inside(target_bounds)
}

/// Places a requested outer size within target bounds.
///
/// Unspecified axes represented by [`AxisPlacement::Keep`] retain their offset
/// from the source bounds, which makes output-to-output moves predictable.
/// The final rectangle is kept inside the target whenever its size permits.
#[must_use]
pub fn move_resize_geometry(
    current: Geometry,
    source_bounds: Geometry,
    target_bounds: Geometry,
    size: Size,
    x: AxisPlacement,
    y: AxisPlacement,
) -> (moved: Geometry)
    ensures
        moved == moved_and_resized(current, source_bounds, target_bounds, size, x, y),
{
    Geometry::new(
        place_axis(
            current.x,
            source_bounds.x,
            target_bounds.x,
            target_bounds.width,
            size.width,
            x,
        ),
        place_axis(
            current.y,
            source_bounds.y,
            target_bounds.y,
            target_bounds.height,
            size.height,
            y,
        ),
        size.width,
        size.height,
    ).clamp_position(target_bounds)
}

fn place_axis(
    current: i32,
    source_start: i32,
    target_start: i32,
    target_length: u32,
    length: u32,
    placement: AxisPlacement,
) -> (r: i32)
    ensures
        r == num::coordinate(
            requested_position(
                current as int,
                source_start as int,
                target_start as int,
                target_length as int,
                length as int,
                placement,
            ),
        ),
{
    let start: i64 = target_start as i64;
    let placed: i64 = match placement {
        AxisPlacement::Keep => start + (current as i64 - source_start as i64),
        AxisPlacement::Start(offset) => start + offset as i64,
        AxisPlacement::Center => start + num::half_i64(target_length as i64 - length as i64),
        AxisPlacement::End(inset) => start + target_length as i64 - length as i64 - inset as i64,
    };
    clamp_i64_to_i32(placed)
}

/// A resize delta, raised to one increment when it is smaller than that.
pub open spec fn promoted_delta(delta: int, increment: int) -> int {
    let step = num::greater(increment, 1);
    if 0 < delta < step {
        step
    } else if -step < delta < 0 {
        -step
    } else {
        delta
    }
}

/// How far a start edge may follow its requested offset once the size changed
/// by `size_difference` only.
pub open spec fn edge_offset(requested: int, size_difference: int) -> int {
    if requested < 0 {
        num::greater(requested, size_difference)
    } else if requested > 0 {
        num::lesser(requested, size_difference)
    } else {
        0
    }
}

/// The rectangle after a relative resize under size constraints.
pub open spec fn resized(geometry: Geometry, deltas: ResizeDeltas, hints: SizeHints) -> Geometry {
    let step = hints.step();
    let step_width = num::non_empty(step.width as int);
    let step_height = num::non_empty(step.height as int);
    let left = promoted_delta(deltas.left as int, step_width);
    let right = promoted_delta(deltas.right as int, step_width);
    let top = promoted_delta(deltas.top as int, step_height);
    let bottom = promoted_delta(deltas.bottom as int, step_height);
    let granted = hints.granted(
        num::bounded(geometry.width + left + right, 1, u32::MAX as int),
        num::bounded(geometry.height + top + bottom, 1, u32::MAX as int),
    );
    geometry::rect(
        geometry.x + edge_offset(-left, geometry.width - granted.0),
        geometry.y + edge_offset(-top, geometry.height - granted.1),
        granted.0,
        granted.1,
    )
}

/// Applies edge-relative resize deltas while preserving constrained anchors.
///
/// Non-zero changes smaller than an ICCCM size increment are promoted to one
/// increment, matching the behavior users expect from Openbox relative resize
/// actions. If size constraints alter the requested result, the opposite edge
/// remains fixed as far as the resulting dimensions permit.
#[must_use]
pub fn relative_resize_geometry(
    geometry: Geometry,
    deltas: ResizeDeltas,
    hints: SizeHints,
) -> (after: Geometry)
    ensures
        after == resized(geometry, deltas, hints),
{
    let increment: Size = match hints.increment {
        Some(increment) => increment,
        None => Size::new(1, 1),
    };
    let left: i64 = promote_resize_delta(deltas.left, increment.width);
    let right: i64 = promote_resize_delta(deltas.right, increment.width);
    let top: i64 = promote_resize_delta(deltas.top, increment.height);
    let bottom: i64 = promote_resize_delta(deltas.bottom, increment.height);
    let requested: Size = Size::new(
        resize_dimension(geometry.width, left, right),
        resize_dimension(geometry.height, top, bottom),
    );
    let constrained: Size = hints.constrain(requested);
    let x_offset: i64 = constrained_edge_offset(
        -left,
        geometry.width as i64 - constrained.width as i64,
    );
    let y_offset: i64 = constrained_edge_offset(
        -top,
        geometry.height as i64 - constrained.height as i64,
    );
    Geometry::new(
        add_signed_coordinate(geometry.x, x_offset),
        add_signed_coordinate(geometry.y, y_offset),
        constrained.width,
        constrained.height,
    )
}

fn promote_resize_delta(delta: i32, increment: u32) -> (r: i64)
    ensures
        r == promoted_delta(delta as int, num::non_empty(increment as int)),
        -0x1_0000_0000 < r < 0x1_0000_0000,
{
    let delta: i64 = delta as i64;
    let step: i64 = max_i64(increment as i64, 1);
    if 0 < delta && delta < step {
        step
    } else if delta < 0 && -step < delta {
        -step
    } else {
        delta
    }
}

fn resize_dimension(current: u32, first: i64, second: i64) -> (r: u32)
    requires
        -0x1_0000_0000 < first < 0x1_0000_0000,
        -0x1_0000_0000 < second < 0x1_0000_0000,
    ensures
        r == num::bounded(current + first + second, 1, u32::MAX as int),
{
    span_dimension(0, current as i64 + first + second)
}

fn constrained_edge_offset(requested: i64, size_difference: i64) -> (r: i64)
    ensures
        r == edge_offset(requested as int, size_difference as int),
{
    if requested < 0 {
        max_i64(requested, size_difference)
    } else if requested > 0 {
        min_i64(requested, size_difference)
    } else {
        0
    }
}

/// Twice the center of a span, which is always an integer.
pub open spec fn doubled_center(start: int, length: int) -> int {
    2 * start + length
}

/// Whether a center lies outside the direction's cone, the total distance, the
/// offset across the direction, and the distance along it.
pub struct DirectionalScore {
    /// The offset exceeds the forward distance.
    pub outside_cone: bool,
    /// Forward and perpendicular distance together.
    pub total: u64,
    /// Perpendicular distance.
    pub offset: u64,
    /// Forward distance.
    pub distance: u64,
}

/// The forward and perpendicular offsets of a center difference.
pub open spec fn directional_offsets(
    horizontal: int,
    vertical: int,
    direction: SpatialDirection,
) -> (int, int) {
    match direction {
        SpatialDirection::Left => (-horizontal, vertical),
        SpatialDirection::Right => (horizontal, vertical),
        SpatialDirection::Up => (-vertical, horizontal),
        SpatialDirection::Down => (vertical, horizontal),
        SpatialDirection::UpLeft => (-(horizontal + vertical), vertical - horizontal),
        SpatialDirection::UpRight => (horizontal - vertical, horizontal + vertical),
        SpatialDirection::DownLeft => (vertical - horizontal, horizontal + vertical),
        SpatialDirection::DownRight => (horizontal + vertical, vertical - horizontal),
    }
}

/// The forward distance and perpendicular offset of a candidate's center, or
/// `None` when the candidate does not lie in the direction.
pub open spec fn directional_reach(
    origin: Geometry,
    candidate: Geometry,
    direction: SpatialDirection,
) -> Option<(int, int)> {
    let horizontal = doubled_center(candidate.x as int, candidate.width as int) - doubled_center(
        origin.x as int,
        origin.width as int,
    );
    let vertical = doubled_center(candidate.y as int, candidate.height as int) - doubled_center(
        origin.y as int,
        origin.height as int,
    );
    let (forward, across) = directional_offsets(horizontal, vertical, direction);
    if forward > 0 {
        Some((forward, num::distance_between(across, 0)))
    } else {
        None
    }
}

/// Whether one reach is strictly preferred: inside the cone first, then by
/// total distance, then by alignment, then by forward distance.
pub open spec fn reaches_closer(a: (int, int), b: (int, int)) -> bool {
    let a_outside = a.1 > a.0;
    let b_outside = b.1 > b.0;
    if a_outside != b_outside {
        b_outside
    } else if a.0 + a.1 != b.0 + b.1 {
        a.0 + a.1 < b.0 + b.1
    } else if a.1 != b.1 {
        a.1 < b.1
    } else {
        a.0 < b.0
    }
}

/// The reach of a candidate that is not the origin itself.
pub open spec fn candidate_reach<T: PartialEq>(
    origin: T,
    origin_geometry: Geometry,
    candidate: (T, Geometry),
    direction: SpatialDirection,
) -> Option<(int, int)> {
    if candidate.0.eq_spec(&origin) {
        None
    } else {
        directional_reach(origin_geometry, candidate.1, direction)
    }
}

/// Whether `index` holds the preferred candidate, the earliest of equals.
pub open spec fn is_directional_target<T: PartialEq>(
    origin: T,
    origin_geometry: Geometry,
    candidates: Seq<(T, Geometry)>,
    direction: SpatialDirection,
    index: int,
) -> bool {
    &&& 0 <= index < candidates.len()
    &&& candidate_reach(origin, origin_geometry, candidates[index], direction) is Some
    &&& forall|j: int|
        #![trigger candidates[j]]
        0 <= j < candidates.len() ==> {
            let own = candidate_reach(origin, origin_geometry, candidates[index], direction)->0;
            match candidate_reach(origin, origin_geometry, candidates[j], direction) {
                None => true,
                Some(other) => if j < index {
                    reaches_closer(own, other)
                } else {
                    !reaches_closer(other, own)
                },
            }
        }
}

/// Selects the nearest candidate in an eight-way spatial direction.
///
/// Candidate centers inside the direction's 90-degree cone always outrank
/// candidates outside it. Within either group, forward and perpendicular
/// distances are weighted equally, matching Openbox directional navigation
/// without its fixed-distance penalty; equal totals favor closer alignment.
/// Fully equal scores preserve input order, so a caller can use
/// most-recently-used order as a deterministic final tie-breaker.
#[must_use]
pub fn directional_target<T: Copy + Eq>(
    origin: T,
    origin_geometry: Geometry,
    candidates: &[(T, Geometry)],
    direction: SpatialDirection,
) -> (target: Option<T>)
    ensures
        T::obeys_eq_spec() ==> match target {
            None => forall|i: int|
                0 <= i < candidates@.len() ==> candidate_reach(
                    origin,
                    origin_geometry,
                    #[trigger] candidates@[i],
                    direction,
                ) is None,
            Some(found) => exists|i: int|
                #![trigger candidates@[i]]
                is_directional_target(origin, origin_geometry, candidates@, direction, i) && found
                    == candidates@[i].0,
        },
{
    let mut best: Option<(usize, DirectionalScore)> = None;
    let mut index: usize = 0;
    while index < candidates.len()
        invariant
            index <= candidates.len(),
            T::obeys_eq_spec() ==> match best {
                None => forall|i: int|
                    0 <= i < index ==> candidate_reach(
                        origin,
                        origin_geometry,
                        #[trigger] candidates@[i],
                        direction,
                    ) is None,
                Some((found, score)) => {
                    &&& is_directional_target(
                        origin,
                        origin_geometry,
                        candidates@.take(index as int),
                        direction,
                        found as int,
                    )
                    &&& score_reach(score) == candidate_reach(
                        origin,
                        origin_geometry,
                        candidates@[found as int],
                        direction,
                    )->0
                },
            },
            best matches Some((found, score)) ==> found < index && is_score(score),
        decreases candidates.len() - index,
    {
        let same: bool = candidates[index].0 == origin;
        proof {
            let before = candidates@.take(index as int);
            let after = candidates@.take(index + 1);
            assert(forall|j: int| 0 <= j < index ==> before[j] == after[j]);
            assert(after[index as int] == candidates@[index as int]);
        }
        if !same {
            if let Some(score) = directional_score(
                origin_geometry,
                candidates[index].1,
                direction,
            ) {
                let closer: bool = match &best {
                    Some((_, current)) => score_precedes(&score, current),
                    None => true,
                };
                if closer {
                    best = Some((index, score));
                }
            }
        }
        index += 1;
    }
    proof {
        assert(candidates@.take(index as int) =~= candidates@);
    }
    match best {
        Some((found, _)) => Some(candidates[found].0),
        None => None,
    }
}

/// The forward distance and offset recorded in a score.
pub open spec fn score_reach(score: DirectionalScore) -> (int, int) {
    (score.distance as int, score.offset as int)
}

/// Whether the derived parts of a score agree with its distances.
pub open spec fn is_score(score: DirectionalScore) -> bool {
    &&& score.outside_cone == (score.offset > score.distance)
    &&& score.total == score.offset + score.distance
}

fn score_precedes(a: &DirectionalScore, b: &DirectionalScore) -> (r: bool)
    requires
        is_score(*a),
        is_score(*b),
    ensures
        r == reaches_closer(score_reach(*a), score_reach(*b)),
{
    if a.outside_cone != b.outside_cone {
        b.outside_cone
    } else if a.total != b.total {
        a.total < b.total
    } else if a.offset != b.offset {
        a.offset < b.offset
    } else {
        a.distance < b.distance
    }
}

fn directional_score(
    origin: Geometry,
    candidate: Geometry,
    direction: SpatialDirection,
) -> (r: Option<DirectionalScore>)
    ensures
        r is Some <==> directional_reach(origin, candidate, direction) is Some,
        r matches Some(score) ==> is_score(score) && Some(score_reach(score)) == directional_reach(
            origin,
            candidate,
            direction,
        ),
{
    let horizontal: i64 = 2 * candidate.x as i64 + candidate.width as i64 - (2 * origin.x as i64
        + origin.width as i64);
    let vertical: i64 = 2 * candidate.y as i64 + candidate.height as i64 - (2 * origin.y as i64
        + origin.height as i64);
    let (forward, across): (i64, i64) = match direction {
        SpatialDirection::Left => (-horizontal, vertical),
        SpatialDirection::Right => (horizontal, vertical),
        SpatialDirection::Up => (-vertical, horizontal),
        SpatialDirection::Down => (vertical, horizontal),
        SpatialDirection::UpLeft => (-(horizontal + vertical), vertical - horizontal),
        SpatialDirection::UpRight => (horizontal - vertical, horizontal + vertical),
        SpatialDirection::DownLeft => (vertical - horizontal, horizontal + vertical),
        SpatialDirection::DownRight => (horizontal + vertical, vertical - horizontal),
    };
    if forward <= 0 {
        return None;
    }
    let distance: u64 = forward as u64;
    let offset: u64 = num::abs_diff(across, 0);
    Some(
        DirectionalScore {
            outside_cone: offset > distance,
            total: distance + offset,
            offset,
            distance,
        },
    )
}

/// Whether a stacking entry is the target itself.
pub open spec fn is_target<T: PartialEq>(entry: (T, Geometry), target: T) -> bool {
    entry.0.eq_spec(&target)
}

/// Whether a stacking entry is another window that overlaps the target.
pub open spec fn is_obstruction<T: PartialEq>(
    entry: (T, Geometry),
    target: T,
    target_geometry: Geometry,
) -> bool {
    !is_target(entry, target) && target_geometry.meets(entry.1)
}

/// Chooses Openbox-style opposite restacking from bottom-to-top rectangles.
///
/// The caller supplies only visible peers in the target's effective stacking
/// layer. Any overlapping peer above the target selects [`RestackDecision::Raise`].
/// Otherwise an overlapping peer below selects [`RestackDecision::Lower`].
/// With no overlap, or when the target is absent, the order is unchanged.
#[must_use]
pub fn adaptive_restack<T: Eq>(
    target: T,
    target_geometry: Geometry,
    stacking: &[(T, Geometry)],
) -> (decision: RestackDecision)
    ensures
        T::obeys_eq_spec() ==> ({
            let present = exists|i: int|
                0 <= i < stacking@.len() && is_target(#[trigger] stacking@[i], target);
            let covered = exists|i: int, j: int|
                0 <= i < j < stacking@.len() && is_target(#[trigger] stacking@[i], target)
                    && is_obstruction(#[trigger] stacking@[j], target, target_geometry);
            let overlapping = exists|i: int|
                0 <= i < stacking@.len() && is_obstruction(
                    #[trigger] stacking@[i],
                    target,
                    target_geometry,
                );
            decision == (if covered {
                RestackDecision::Raise
            } else if present && overlapping {
                RestackDecision::Lower
            } else {
                RestackDecision::Unchanged
            })
        }),
{
    let mut found_target: bool = false;
    let mut overlaps_below: bool = false;
    let mut index: usize = 0;
    while index < stacking.len()
        invariant
            index <= stacking.len(),
            T::obeys_eq_spec() ==> {
                &&& found_target == exists|i: int|
                    0 <= i < index && is_target(#[trigger] stacking@[i], target)
                &&& overlaps_below == exists|i: int|
                    0 <= i < index && is_obstruction(
                        #[trigger] stacking@[i],
                        target,
                        target_geometry,
                    )
                &&& !exists|i: int, j: int|
                    0 <= i < j < index && is_target(#[trigger] stacking@[i], target)
                        && is_obstruction(#[trigger] stacking@[j], target, target_geometry)
            },
        decreases stacking.len() - index,
    {
        if stacking[index].0 == target {
            found_target = true;
        } else if geometries_intersect(target_geometry, stacking[index].1) {
            if found_target {
                return RestackDecision::Raise;
            }
            overlaps_below = true;
        }
        index += 1;
    }
    if found_target && overlaps_below {
        RestackDecision::Lower
    } else {
        RestackDecision::Unchanged
    }
}

/// The coordinate where a rectangle starts along a direction's axis.
pub open spec fn axis_start(geometry: Geometry, direction: CardinalDirection) -> int {
    if direction.is_horizontal() {
        geometry.x as int
    } else {
        geometry.y as int
    }
}

/// The length of a rectangle along a direction's axis.
pub open spec fn axis_length(geometry: Geometry, direction: CardinalDirection) -> int {
    if direction.is_horizontal() {
        geometry.width as int
    } else {
        geometry.height as int
    }
}

/// The side of a rectangle that faces a direction.
pub open spec fn facing_side(geometry: Geometry, direction: CardinalDirection) -> int {
    match direction {
        CardinalDirection::Left => geometry.x as int,
        CardinalDirection::Right => geometry.right(),
        CardinalDirection::Up => geometry.y as int,
        CardinalDirection::Down => geometry.bottom(),
    }
}

/// Whether an obstacle lies in the path of a rectangle along a direction.
pub open spec fn is_in_path(
    geometry: Geometry,
    obstacle: Geometry,
    direction: CardinalDirection,
) -> bool {
    if direction.is_horizontal() {
        num::spans_meet(
            geometry.y as int,
            num::last_coordinate(geometry.y as int, geometry.height as int),
            obstacle.y as int,
            num::last_coordinate(obstacle.y as int, obstacle.height as int),
        )
    } else {
        num::spans_meet(
            geometry.x as int,
            num::last_coordinate(geometry.x as int, geometry.width as int),
            obstacle.x as int,
            num::last_coordinate(obstacle.x as int, obstacle.width as int),
        )
    }
}

/// The positions offered by obstacles in the path: `inset` before each near
/// edge, and each far edge.
pub open spec fn stop_positions(
    geometry: Geometry,
    obstacles: Seq<Geometry>,
    direction: CardinalDirection,
    inset: int,
) -> Seq<int>
    decreases obstacles.len(),
{
    if obstacles.len() == 0 {
        Seq::empty()
    } else {
        let before = stop_positions(geometry, obstacles.drop_last(), direction, inset);
        let last = obstacles.last();
        if is_in_path(geometry, last, direction) {
            let start = axis_start(last, direction);
            before.push(start - inset).push(start + axis_length(last, direction))
        } else {
            before
        }
    }
}

/// Whether a position lies beyond `current` and within the limits.
pub open spec fn is_reachable(
    position: int,
    current: int,
    low: int,
    high: int,
    backward: bool,
) -> bool {
    low <= position <= high && (if backward {
        position < current
    } else {
        position > current
    })
}

/// The reachable position nearest to the current one, or `fallback` when no
/// reachable position is nearer than that.
pub open spec fn nearest_stop(
    positions: Seq<int>,
    current: int,
    low: int,
    high: int,
    backward: bool,
    fallback: int,
) -> int
    decreases positions.len(),
{
    if positions.len() == 0 {
        fallback
    } else {
        nearer_stop(
            nearest_stop(positions.drop_last(), current, low, high, backward, fallback),
            positions.last(),
            current,
            low,
            high,
            backward,
        )
    }
}

/// The nearer of a selected position and a reachable candidate.
pub open spec fn nearer_stop(
    selected: int,
    candidate: int,
    current: int,
    low: int,
    high: int,
    backward: bool,
) -> int {
    if is_reachable(candidate, current, low, high, backward) && (if backward {
        candidate > selected
    } else {
        candidate < selected
    }) {
        candidate
    } else {
        selected
    }
}

fn nearer_stop_of(
    selected: i64,
    candidate: i64,
    current: i64,
    low: i64,
    high: i64,
    backward: bool,
) -> (r: i64)
    ensures
        r == nearer_stop(
            selected as int,
            candidate as int,
            current as int,
            low as int,
            high as int,
            backward,
        ),
{
    let nearer: bool = if backward {
        candidate < current && candidate > selected
    } else {
        candidate > current && candidate < selected
    };
    if low <= candidate && candidate <= high && nearer {
        candidate
    } else {
        selected
    }
}

/// Adding two positions applies two selection steps.
proof fn lemma_two_more_stops(
    positions: Seq<int>,
    first: int,
    second: int,
    current: int,
    low: int,
    high: int,
    backward: bool,
    fallback: int,
)
    ensures
        nearest_stop(
            positions.push(first).push(second),
            current,
            low,
            high,
            backward,
            fallback,
        ) == nearer_stop(
            nearer_stop(
                nearest_stop(positions, current, low, high, backward, fallback),
                first,
                current,
                low,
                high,
                backward,
            ),
            second,
            current,
            low,
            high,
            backward,
        ),
{
    reveal_with_fuel(nearest_stop, 3);
    assert(positions.push(first).push(second).drop_last() =~= positions.push(first));
    assert(positions.push(first).drop_last() =~= positions);
}

fn perpendicular_overlap(
    geometry: Geometry,
    obstacle: Geometry,
    direction: CardinalDirection,
) -> (r: bool)
    ensures
        r == is_in_path(geometry, obstacle, direction),
{
    if direction.horizontal() {
        spans_overlap(
            geometry.y,
            coordinate_end(geometry.y, geometry.height),
            obstacle.y,
            coordinate_end(obstacle.y, obstacle.height),
        )
    } else {
        spans_overlap(
            geometry.x,
            coordinate_end(geometry.x, geometry.width),
            obstacle.x,
            coordinate_end(obstacle.x, obstacle.width),
        )
    }
}

/// Selects the nearest stop among the obstacles in the path.
fn select_stop(
    geometry: Geometry,
    obstacles: &[Geometry],
    direction: CardinalDirection,
    inset: u32,
    current: i64,
    low: i64,
    high: i64,
    fallback: i64,
) -> (r: i64)
    ensures
        r == nearest_stop(
            stop_positions(geometry, obstacles@, direction, inset as int),
            current as int,
            low as int,
            high as int,
            direction.is_backward(),
            fallback as int,
        ),
{
    let backward: bool = direction.backward();
    let mut selected: i64 = fallback;
    let mut index: usize = 0;
    while index < obstacles.len()
        invariant
            index <= obstacles.len(),
            backward == direction.is_backward(),
            selected == nearest_stop(
                stop_positions(geometry, obstacles@.take(index as int), direction, inset as int),
                current as int,
                low as int,
                high as int,
                backward,
                fallback as int,
            ),
        decreases obstacles.len() - index,
    {
        let obstacle: Geometry = obstacles[index];
        assert(obstacles@.take(index + 1).drop_last() =~= obstacles@.take(index as int));
        if perpendicular_overlap(geometry, obstacle, direction) {
            let (start, length): (i32, u32) = if direction.horizontal() {
                (obstacle.x, obstacle.width)
            } else {
                (obstacle.y, obstacle.height)
            };
            let before: i64 = start as i64 - inset as i64;
            let after: i64 = axis_end(start, length);
            proof {
                lemma_two_more_stops(
                    stop_positions(
                        geometry,
                        obstacles@.take(index as int),
                        direction,
                        inset as int,
                    ),
                    before as int,
                    after as int,
                    current as int,
                    low as int,
                    high as int,
                    backward,
                    fallback as int,
                );
            }
            selected = nearer_stop_of(selected, before, current, low, high, backward);
            selected = nearer_stop_of(selected, after, current, low, high, backward);
        }
        index += 1;
    }
    assert(obstacles@.take(index as int) =~= obstacles@);
    selected
}

/// The last position a rectangle can start at within bounds along a direction.
pub open spec fn last_start(
    geometry: Geometry,
    bounds: Geometry,
    direction: CardinalDirection,
) -> int {
    axis_start(bounds, direction) + num::greater(
        axis_length(bounds, direction) - axis_length(geometry, direction),
        0,
    )
}

/// Where a directional move ends: at the nearest stop ahead, or at the edge of
/// the bounds.
pub open spec fn move_destination(
    geometry: Geometry,
    bounds: Geometry,
    obstacles: Seq<Geometry>,
    direction: CardinalDirection,
) -> int {
    let low = axis_start(bounds, direction);
    let high = last_start(geometry, bounds, direction);
    nearest_stop(
        stop_positions(geometry, obstacles, direction, axis_length(geometry, direction)),
        axis_start(geometry, direction),
        low,
        high,
        direction.is_backward(),
        if direction.is_backward() {
            low
        } else {
            high
        },
    )
}

/// The rectangle after a directional move.
pub open spec fn moved_toward(
    geometry: Geometry,
    bounds: Geometry,
    obstacles: Seq<Geometry>,
    direction: CardinalDirection,
) -> Geometry {
    let destination = move_destination(geometry, bounds, obstacles, direction);
    if direction.is_horizontal() {
        geometry::rect(
            destination,
            geometry.y as int,
            geometry.width as int,
            geometry.height as int,
        )
    } else {
        geometry::rect(
            geometry.x as int,
            destination,
            geometry.width as int,
            geometry.height as int,
        )
    }
}

/// Moves geometry to the next overlapping obstacle edge or work-area edge.
///
/// A second invocation at a near edge advances to the corresponding far edge,
/// preserving Openbox's useful ability to step across adjacent windows.
#[must_use]
pub fn directional_move_geometry(
    geometry: Geometry,
    bounds: Geometry,
    obstacles: &[Geometry],
    direction: CardinalDirection,
) -> (moved: Geometry)
    ensures
        moved == moved_toward(geometry, bounds, obstacles@, direction),
{
    let horizontal: bool = direction.horizontal();
    let (start, length): (i32, u32) = if horizontal {
        (geometry.x, geometry.width)
    } else {
        (geometry.y, geometry.height)
    };
    let (bounds_start, bounds_length): (i32, u32) = if horizontal {
        (bounds.x, bounds.width)
    } else {
        (bounds.y, bounds.height)
    };
    let minimum: i64 = bounds_start as i64;
    let maximum: i64 = minimum + max_i64(bounds_length as i64 - length as i64, 0);
    let edge: i64 = if direction.backward() {
        minimum
    } else {
        maximum
    };
    let destination: i32 = clamp_i64_to_i32(
        select_stop(
            geometry,
            obstacles,
            direction,
            length,
            start as i64,
            minimum,
            maximum,
            edge,
        ),
    );
    if horizontal {
        Geometry::new(destination, geometry.y, geometry.width, geometry.height)
    } else {
        Geometry::new(geometry.x, destination, geometry.width, geometry.height)
    }
}

/// The edge that a side moves to: the nearest obstacle edge ahead, at most the
/// boundary; the side stays when the boundary is not ahead.
pub open spec fn next_edge(
    geometry: Geometry,
    obstacles: Seq<Geometry>,
    direction: CardinalDirection,
    current: int,
    boundary: int,
) -> int {
    let ahead = if direction.is_backward() {
        boundary < current
    } else {
        boundary > current
    };
    nearest_stop(
        stop_positions(geometry, obstacles, direction, 0),
        current,
        if direction.is_backward() {
            boundary
        } else {
            i64::MIN as int
        },
        if direction.is_backward() {
            i64::MAX as int
        } else {
            boundary
        },
        direction.is_backward(),
        if ahead {
            boundary
        } else {
            current
        },
    )
}

fn next_edge_of(
    geometry: Geometry,
    obstacles: &[Geometry],
    direction: CardinalDirection,
    current: i64,
    boundary: i64,
) -> (r: i64)
    ensures
        r == next_edge(geometry, obstacles@, direction, current as int, boundary as int),
{
    if direction.backward() {
        let fallback: i64 = min_i64(boundary, current);
        select_stop(geometry, obstacles, direction, 0, current, boundary, i64::MAX, fallback)
    } else {
        let fallback: i64 = max_i64(boundary, current);
        select_stop(geometry, obstacles, direction, 0, current, i64::MIN, boundary, fallback)
    }
}

/// The rectangle with one side moved to a position, the opposite side fixed.
pub open spec fn with_side(
    geometry: Geometry,
    direction: CardinalDirection,
    target: int,
) -> Geometry {
    match direction {
        CardinalDirection::Left => geometry::rect(
            target,
            geometry.y as int,
            num::span(target, geometry.right()),
            geometry.height as int,
        ),
        CardinalDirection::Right => geometry::rect(
            geometry.x as int,
            geometry.y as int,
            num::span(geometry.x as int, target),
            geometry.height as int,
        ),
        CardinalDirection::Up => geometry::rect(
            geometry.x as int,
            target,
            geometry.width as int,
            num::span(target, geometry.bottom()),
        ),
        CardinalDirection::Down => geometry::rect(
            geometry.x as int,
            geometry.y as int,
            geometry.width as int,
            num::span(geometry.y as int, target),
        ),
    }
}

fn geometry_with_side(geometry: Geometry, direction: CardinalDirection, target: i64) -> (r:
    Geometry)
    requires
        -0x1000_0000_0000_0000 < target < 0x1000_0000_0000_0000,
    ensures
        r == with_side(geometry, direction, target as int),
{
    let left: i64 = geometry.x as i64;
    let right: i64 = axis_end(geometry.x, geometry.width);
    let top: i64 = geometry.y as i64;
    let bottom: i64 = axis_end(geometry.y, geometry.height);
    match direction {
        CardinalDirection::Left => Geometry::new(
            clamp_i64_to_i32(target),
            geometry.y,
            span_dimension(target, right),
            geometry.height,
        ),
        CardinalDirection::Right => Geometry::new(
            geometry.x,
            geometry.y,
            span_dimension(left, target),
            geometry.height,
        ),
        CardinalDirection::Up => Geometry::new(
            geometry.x,
            clamp_i64_to_i32(target),
            geometry.width,
            span_dimension(target, bottom),
        ),
        CardinalDirection::Down => Geometry::new(
            geometry.x,
            geometry.y,
            geometry.width,
            span_dimension(top, target),
        ),
    }
}

fn directional_side(geometry: Geometry, direction: CardinalDirection) -> (r: i64)
    ensures
        r == facing_side(geometry, direction),
        -0x1_0000_0000 < r < 0x2_0000_0000,
{
    match direction {
        CardinalDirection::Left => geometry.x as i64,
        CardinalDirection::Right => axis_end(geometry.x, geometry.width),
        CardinalDirection::Up => geometry.y as i64,
        CardinalDirection::Down => axis_end(geometry.y, geometry.height),
    }
}

/// Whether a side already touches the boundary or an obstacle edge.
pub open spec fn is_blocked(
    geometry: Geometry,
    bounds: Geometry,
    obstacles: Seq<Geometry>,
    direction: CardinalDirection,
) -> bool {
    let side = facing_side(geometry, direction);
    facing_side(bounds, direction) == side || stop_positions(
        geometry,
        obstacles,
        direction,
        0,
    ).contains(side)
}

fn touches_edge(
    geometry: Geometry,
    bounds: Geometry,
    obstacles: &[Geometry],
    direction: CardinalDirection,
) -> (r: bool)
    ensures
        r == is_blocked(geometry, bounds, obstacles@, direction),
{
    let side: i64 = directional_side(geometry, direction);
    if directional_side(bounds, direction) == side {
        return true;
    }
    let mut index: usize = 0;
    while index < obstacles.len()
        invariant
            index <= obstacles.len(),
            side == facing_side(geometry, direction),
            !stop_positions(geometry, obstacles@.take(index as int), direction, 0).contains(
                side as int,
            ),
        decreases obstacles.len() - index,
    {
        let obstacle: Geometry = obstacles[index];
        assert(obstacles@.take(index + 1).drop_last() =~= obstacles@.take(index as int));
        let ghost before = stop_positions(
            geometry,
            obstacles@.take(index as int),
            direction,
            0,
        );
        let ghost after = stop_positions(geometry, obstacles@.take(index + 1), direction, 0);
        if perpendicular_overlap(geometry, obstacle, direction) {
            let (start, length): (i32, u32) = if direction.horizontal() {
                (obstacle.x, obstacle.width)
            } else {
                (obstacle.y, obstacle.height)
            };
            let near: i64 = start as i64;
            let far: i64 = axis_end(start, length);
            assert(after =~= before.push(near as int).push(far as int));
            if near == side || far == side {
                proof {
                    assert(after[before.len() as int] == near as int);
                    assert(after[before.len() as int + 1] == far as int);
                    lemma_more_stops(geometry, obstacles@, direction, index + 1, side as int);
                }
                return true;
            }
            assert forall|i: int| 0 <= i < after.len() implies after[i] != side as int by {
                if i < before.len() {
                    assert(after[i] == before[i]);
                }
            }
        }
        index += 1;
    }
    assert(obstacles@.take(index as int) =~= obstacles@);
    false
}

/// Positions offered by the first obstacles are offered by all of them.
proof fn lemma_more_stops(
    geometry: Geometry,
    obstacles: Seq<Geometry>,
    direction: CardinalDirection,
    count: int,
    position: int,
)
    requires
        0 <= count <= obstacles.len(),
        stop_positions(geometry, obstacles.take(count), direction, 0).contains(position),
    ensures
        stop_positions(geometry, obstacles, direction, 0).contains(position),
    decreases obstacles.len() - count,
{
    if count == obstacles.len() {
        assert(obstacles.take(count) =~= obstacles);
    } else {
        let before = stop_positions(geometry, obstacles.take(count), direction, 0);
        let after = stop_positions(geometry, obstacles.take(count + 1), direction, 0);
        assert(obstacles.take(count + 1).drop_last() =~= obstacles.take(count));
        let i = choose|i: int| 0 <= i < before.len() && before[i] == position;
        assert(after[i] == position);
        lemma_more_stops(geometry, obstacles, direction, count + 1, position);
    }
}

/// The rectangle after growing toward a direction.
pub open spec fn grown(
    geometry: Geometry,
    bounds: Geometry,
    obstacles: Seq<Geometry>,
    direction: CardinalDirection,
    blocking_edge: BlockingEdgePolicy,
) -> Geometry {
    if blocking_edge == BlockingEdgePolicy::Stop && is_blocked(
        geometry,
        bounds,
        obstacles,
        direction,
    ) {
        geometry
    } else {
        with_side(
            geometry,
            direction,
            next_edge(
                geometry,
                obstacles,
                direction,
                facing_side(geometry, direction),
                facing_side(bounds, direction),
            ),
        )
    }
}

/// Grows one rectangle edge toward the next obstacle or work-area edge.
///
/// With [`BlockingEdgePolicy::Stop`], a side already touching any candidate
/// edge remains unchanged. This is the first-pass behavior used by
/// [`grow_to_fill_geometry`].
#[must_use]
pub fn directional_grow_geometry(
    geometry: Geometry,
    bounds: Geometry,
    obstacles: &[Geometry],
    direction: CardinalDirection,
    blocking_edge: BlockingEdgePolicy,
) -> (after: Geometry)
    ensures
        after == grown(geometry, bounds, obstacles@, direction, blocking_edge),
{
    if blocking_edge == BlockingEdgePolicy::Stop && touches_edge(
        geometry,
        bounds,
        obstacles,
        direction,
    ) {
        return geometry;
    }
    let current: i64 = directional_side(geometry, direction);
    let boundary: i64 = directional_side(bounds, direction);
    let target: i64 = next_edge_of(geometry, obstacles, direction, current, boundary);
    proof {
        lemma_next_edge_range(
            geometry,
            obstacles@,
            direction,
            current as int,
            boundary as int,
        );
    }
    geometry_with_side(geometry, direction, target)
}

/// The next edge lies between the side and the boundary ahead of it.
proof fn lemma_next_edge_range(
    geometry: Geometry,
    obstacles: Seq<Geometry>,
    direction: CardinalDirection,
    current: int,
    boundary: int,
)
    ensures
        ({
            let edge = next_edge(geometry, obstacles, direction, current, boundary);
            if direction.is_backward() {
                num::lesser(boundary, current) <= edge <= current
            } else {
                current <= edge <= num::greater(boundary, current)
            }
        }),
{
    let backward = direction.is_backward();
    let fallback = if backward {
        num::lesser(boundary, current)
    } else {
        num::greater(boundary, current)
    };
    lemma_nearest_stop_range(
        stop_positions(geometry, obstacles, direction, 0),
        current,
        if backward {
            boundary
        } else {
            i64::MIN as int
        },
        if backward {
            i64::MAX as int
        } else {
            boundary
        },
        backward,
        fallback,
    );
}

proof fn lemma_nearest_stop_range(
    positions: Seq<int>,
    current: int,
    low: int,
    high: int,
    backward: bool,
    fallback: int,
)
    requires
        backward ==> fallback <= current,
        !backward ==> fallback >= current,
    ensures
        ({
            let stop = nearest_stop(positions, current, low, high, backward, fallback);
            &&& backward ==> fallback <= stop <= current
            &&& !backward ==> current <= stop <= fallback
        }),
    decreases positions.len(),
{
    if positions.len() > 0 {
        lemma_nearest_stop_range(positions.drop_last(), current, low, high, backward, fallback);
    }
}

/// The rectangle after shrinking the side opposite a direction; half of the
/// axis, and at least one pixel, remains.
pub open spec fn shrunk(
    geometry: Geometry,
    bounds: Geometry,
    obstacles: Seq<Geometry>,
    direction: CardinalDirection,
) -> Geometry {
    let moving = direction.reversed();
    let edge = next_edge(
        geometry,
        obstacles,
        direction,
        facing_side(geometry, moving),
        facing_side(bounds, direction),
    );
    let kept = num::non_empty(axis_length(geometry, direction) / 2);
    let anchor = facing_side(geometry, direction);
    with_side(
        geometry,
        moving,
        if direction.is_backward() {
            num::greater(edge, anchor + kept)
        } else {
            num::lesser(edge, anchor - kept)
        },
    )
}

/// Shrinks the edge opposite `direction` toward the next obstacle.
///
/// At least half of the original axis remains, matching Openbox's guard
/// against an edge action unexpectedly collapsing a window.
#[must_use]
pub fn directional_shrink_geometry(
    geometry: Geometry,
    bounds: Geometry,
    obstacles: &[Geometry],
    direction: CardinalDirection,
) -> (after: Geometry)
    ensures
        after == shrunk(geometry, bounds, obstacles@, direction),
{
    let moving_side: CardinalDirection = direction.opposite();
    let current: i64 = directional_side(geometry, moving_side);
    let boundary: i64 = directional_side(bounds, direction);
    let edge: i64 = next_edge_of(geometry, obstacles, direction, current, boundary);
    proof {
        lemma_next_edge_range(
            geometry,
            obstacles@,
            direction,
            current as int,
            boundary as int,
        );
    }
    let half: i64 = if direction.horizontal() {
        (geometry.width / 2) as i64
    } else {
        (geometry.height / 2) as i64
    };
    let kept: i64 = max_i64(half, 1);
    let anchor: i64 = directional_side(geometry, direction);
    let target: i64 = if direction.backward() {
        max_i64(edge, anchor + kept)
    } else {
        min_i64(edge, anchor - kept)
    };
    geometry_with_side(geometry, moving_side, target)
}

/// The rectangle after growing all four edges with one policy.
pub open spec fn grown_all(
    geometry: Geometry,
    bounds: Geometry,
    obstacles: Seq<Geometry>,
    blocking_edge: BlockingEdgePolicy,
) -> Geometry {
    let left = grown(geometry, bounds, obstacles, CardinalDirection::Left, blocking_edge);
    let right = grown(geometry, bounds, obstacles, CardinalDirection::Right, blocking_edge);
    let up = grown(geometry, bounds, obstacles, CardinalDirection::Up, blocking_edge);
    let down = grown(geometry, bounds, obstacles, CardinalDirection::Down, blocking_edge);
    geometry::rect(
        left.x as int,
        up.y as int,
        num::span(left.x as int, right.right()),
        num::span(up.y as int, down.bottom()),
    )
}

/// The rectangle after growing into surrounding free space: past edges that it touches only where
/// it cannot grow otherwise.
pub open spec fn filled(
    geometry: Geometry,
    bounds: Geometry,
    obstacles: Seq<Geometry>,
) -> Geometry {
    let first = grown_all(geometry, bounds, obstacles, BlockingEdgePolicy::Stop);
    if first == geometry {
        grown_all(geometry, bounds, obstacles, BlockingEdgePolicy::Cross)
    } else {
        first
    }
}

/// Grows all four edges into surrounding free space.
///
/// The first pass leaves sides that already touch an obstacle in place. Only
/// when no side can grow does the second pass advance past those blockers.
#[must_use]
pub fn grow_to_fill_geometry(
    geometry: Geometry,
    bounds: Geometry,
    obstacles: &[Geometry],
) -> (after: Geometry)
    ensures
        after == filled(geometry, bounds, obstacles@),
{
    let first: Geometry = grow_all_edges(geometry, bounds, obstacles, BlockingEdgePolicy::Stop);
    if first == geometry {
        grow_all_edges(geometry, bounds, obstacles, BlockingEdgePolicy::Cross)
    } else {
        first
    }
}

fn grow_all_edges(
    geometry: Geometry,
    bounds: Geometry,
    obstacles: &[Geometry],
    blocking_edge: BlockingEdgePolicy,
) -> (r: Geometry)
    ensures
        r == grown_all(geometry, bounds, obstacles@, blocking_edge),
{
    let left: Geometry = directional_grow_geometry(
        geometry,
        bounds,
        obstacles,
        CardinalDirection::Left,
        blocking_edge,
    );
    let right: Geometry = directional_grow_geometry(
        geometry,
        bounds,
        obstacles,
        CardinalDirection::Right,
        blocking_edge,
    );
    let up: Geometry = directional_grow_geometry(
        geometry,
        bounds,
        obstacles,
        CardinalDirection::Up,
        blocking_edge,
    );
    let down: Geometry = directional_grow_geometry(
        geometry,
        bounds,
        obstacles,
        CardinalDirection::Down,
        blocking_edge,
    );
    Geometry::new(
        left.x,
        up.y,
        span_dimension(left.x as i64, axis_end(right.x, right.width)),
        span_dimension(up.y as i64, axis_end(down.y, down.height)),
    )
}

/// A rectangle inside bounds still lies inside them after growing toward any
/// direction, and it covers what it covered before.
pub proof fn law_growth_stays_within_bounds(
    geometry: Geometry,
    bounds: Geometry,
    obstacles: Seq<Geometry>,
    direction: CardinalDirection,
    blocking_edge: BlockingEdgePolicy,
)
    requires
        bounds.encloses(geometry),
        geometry.width >= 1,
        geometry.height >= 1,
        bounds.right() <= i32::MAX,
        bounds.bottom() <= i32::MAX,
    ensures
        bounds.encloses(grown(geometry, bounds, obstacles, direction, blocking_edge)),
        grown(geometry, bounds, obstacles, direction, blocking_edge).encloses(geometry),
{
    lemma_next_edge_range(
        geometry,
        obstacles,
        direction,
        facing_side(geometry, direction),
        facing_side(bounds, direction),
    );
}

/// Growing all edges of a rectangle inside bounds keeps it inside them and
/// gives up nothing it covered.
pub proof fn law_filling_stays_within_bounds(
    geometry: Geometry,
    bounds: Geometry,
    obstacles: Seq<Geometry>,
    blocking_edge: BlockingEdgePolicy,
)
    requires
        bounds.encloses(geometry),
        geometry.width >= 1,
        geometry.height >= 1,
        bounds.right() <= i32::MAX,
        bounds.bottom() <= i32::MAX,
    ensures
        bounds.encloses(grown_all(geometry, bounds, obstacles, blocking_edge)),
        grown_all(geometry, bounds, obstacles, blocking_edge).encloses(geometry),
{
    law_growth_stays_within_bounds(
        geometry,
        bounds,
        obstacles,
        CardinalDirection::Left,
        blocking_edge,
    );
    law_growth_stays_within_bounds(
        geometry,
        bounds,
        obstacles,
        CardinalDirection::Right,
        blocking_edge,
    );
    law_growth_stays_within_bounds(
        geometry,
        bounds,
        obstacles,
        CardinalDirection::Up,
        blocking_edge,
    );
    law_growth_stays_within_bounds(
        geometry,
        bounds,
        obstacles,
        CardinalDirection::Down,
        blocking_edge,
    );
}

/// Shrinking leaves at least half of the axis, rounded down to whole pixels, and at least one
/// pixel.
pub proof fn law_shrinking_keeps_half(
    geometry: Geometry,
    bounds: Geometry,
    obstacles: Seq<Geometry>,
    direction: CardinalDirection,
)
    requires
        geometry.width >= 1,
        geometry.height >= 1,
    ensures
        axis_length(shrunk(geometry, bounds, obstacles, direction), direction) >= num::non_empty(
            axis_length(geometry, direction) / 2,
        ),
{
}

/// A directional move of a rectangle that fits into bounds ends inside them on
/// the axis it moves along.
pub proof fn law_move_ends_within_bounds(
    geometry: Geometry,
    bounds: Geometry,
    obstacles: Seq<Geometry>,
    direction: CardinalDirection,
)
    requires
        axis_length(geometry, direction) <= axis_length(bounds, direction),
    ensures
        axis_start(bounds, direction) <= move_destination(geometry, bounds, obstacles, direction),
        move_destination(geometry, bounds, obstacles, direction) + axis_length(geometry, direction)
            <= axis_start(bounds, direction) + axis_length(bounds, direction),
{
    let low = axis_start(bounds, direction);
    let high = last_start(geometry, bounds, direction);
    let backward = direction.is_backward();
    lemma_nearest_stop_within_limits(
        stop_positions(geometry, obstacles, direction, axis_length(geometry, direction)),
        axis_start(geometry, direction),
        low,
        high,
        backward,
        if backward {
            low
        } else {
            high
        },
    );
}

proof fn lemma_nearest_stop_within_limits(
    positions: Seq<int>,
    current: int,
    low: int,
    high: int,
    backward: bool,
    fallback: int,
)
    requires
        low <= fallback <= high,
    ensures
        low <= nearest_stop(positions, current, low, high, backward, fallback) <= high,
    decreases positions.len(),
{
    if positions.len() > 0 {
        lemma_nearest_stop_within_limits(
            positions.drop_last(),
            current,
            low,
            high,
            backward,
            fallback,
        );
    }
}

/// A chosen target lies outside the direction's cone only when no candidate lies inside it, no
/// candidate in the same group is nearer in total, and of candidates that score the same the
/// earliest is chosen.
pub proof fn law_cone_outranks_distance<T: PartialEq>(
    origin: T,
    origin_geometry: Geometry,
    candidates: Seq<(T, Geometry)>,
    direction: SpatialDirection,
    index: int,
    other: int,
)
    requires
        is_directional_target(origin, origin_geometry, candidates, direction, index),
        0 <= other < candidates.len(),
        candidate_reach(origin, origin_geometry, candidates[other], direction) is Some,
    ensures
        ({
            let own = candidate_reach(origin, origin_geometry, candidates[index], direction)->0;
            let rival = candidate_reach(origin, origin_geometry, candidates[other], direction)->0;
            &&& own.1 > own.0 ==> rival.1 > rival.0
            &&& (own.1 > own.0) == (rival.1 > rival.0) ==> own.0 + own.1 <= rival.0 + rival.1
            &&& own == rival ==> index <= other
        }),
{
    assert(candidates[other] == candidates[other]);
}

} // verus!
