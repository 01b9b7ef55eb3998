//! Laws of moving, resizing, and choosing windows by direction.

use vstd::prelude::*;

use crate::arrange;
use crate::arrange::{
    AxisPlacement, BlockingEdgePolicy, CardinalDirection, SpatialDirection,
};
use crate::geometry::{Geometry, ResizeDeltas};
use crate::size::{Size, SizeHints};

verus! {

/// Whether two rectangles are mirror images of each other, left and right exchanged.
pub open spec fn mirrors(a: Geometry, b: Geometry) -> bool {
    b.x == -(a.x + a.width) && b.y == a.y && b.width == a.width && b.height == a.height
}

/// Whether two rectangles are mirror images of each other, top and bottom exchanged.
pub open spec fn flips(a: Geometry, b: Geometry) -> bool {
    b.y == -(a.y + a.height) && b.x == a.x && b.width == a.width && b.height == a.height
}

/// Whether two rectangles are the same but for the axes, which are exchanged.
pub open spec fn transposes(a: Geometry, b: Geometry) -> bool {
    b.x == a.y && b.y == a.x && b.width == a.height && b.height == a.width
}

/// A direction with left and right exchanged.
pub open spec fn mirrored(direction: SpatialDirection) -> SpatialDirection {
    match direction {
        SpatialDirection::Left => SpatialDirection::Right,
        SpatialDirection::Right => SpatialDirection::Left,
        SpatialDirection::Up => SpatialDirection::Up,
        SpatialDirection::Down => SpatialDirection::Down,
        SpatialDirection::UpLeft => SpatialDirection::UpRight,
        SpatialDirection::UpRight => SpatialDirection::UpLeft,
        SpatialDirection::DownLeft => SpatialDirection::DownRight,
        SpatialDirection::DownRight => SpatialDirection::DownLeft,
    }
}

/// A direction with up and down exchanged.
pub open spec fn flipped(direction: SpatialDirection) -> SpatialDirection {
    match direction {
        SpatialDirection::Left => SpatialDirection::Left,
        SpatialDirection::Right => SpatialDirection::Right,
        SpatialDirection::Up => SpatialDirection::Down,
        SpatialDirection::Down => SpatialDirection::Up,
        SpatialDirection::UpLeft => SpatialDirection::DownLeft,
        SpatialDirection::UpRight => SpatialDirection::DownRight,
        SpatialDirection::DownLeft => SpatialDirection::UpLeft,
        SpatialDirection::DownRight => SpatialDirection::UpRight,
    }
}

/// A direction with the axes exchanged.
pub open spec fn transposed(direction: SpatialDirection) -> SpatialDirection {
    match direction {
        SpatialDirection::Left => SpatialDirection::Up,
        SpatialDirection::Right => SpatialDirection::Down,
        SpatialDirection::Up => SpatialDirection::Left,
        SpatialDirection::Down => SpatialDirection::Right,
        SpatialDirection::UpLeft => SpatialDirection::UpLeft,
        SpatialDirection::UpRight => SpatialDirection::DownLeft,
        SpatialDirection::DownLeft => SpatialDirection::UpRight,
        SpatialDirection::DownRight => SpatialDirection::DownRight,
    }
}

/// Mirroring windows left and right turns the target in a direction into the target in the
/// direction that is changed the same way.
pub proof fn law_targets_agree_under_mirror_images<T: PartialEq>(
    origin: T,
    from: Geometry,
    image: Geometry,
    candidates: Seq<(T, Geometry)>,
    images: Seq<(T, Geometry)>,
    direction: SpatialDirection,
    index: int,
)
    requires
        mirrors(from, image),
        candidates.len() == images.len(),
        forall|i: int|
            0 <= i < candidates.len() ==> (#[trigger] images[i]).0 == candidates[i].0 && mirrors(
                candidates[i].1,
                images[i].1,
            ),
    ensures
        arrange::is_directional_target(origin, from, candidates, direction, index)
            == arrange::is_directional_target(origin, image, images, mirrored(direction), index),
        forall|i: int|
            0 <= i < candidates.len() ==> (arrange::candidate_reach(
                origin,
                from,
                #[trigger] candidates[i],
                direction,
            ) is None) == (arrange::candidate_reach(origin, image, images[i], mirrored(direction))
                is None),
{
    assert forall|i: int| 0 <= i < candidates.len() implies arrange::candidate_reach(
        origin,
        from,
        #[trigger] candidates[i],
        direction,
    ) == arrange::candidate_reach(origin, image, images[i], mirrored(direction)) by {
        assert(mirrors(candidates[i].1, images[i].1));
    }
    let left = arrange::is_directional_target(origin, from, candidates, direction, index);
    let right = arrange::is_directional_target(origin, image, images, mirrored(direction), index);
    if left {
        assert forall|j: int|
            #![trigger images[j]]
            0 <= j < images.len() implies {
            let own = arrange::candidate_reach(
                origin,
                image,
                images[index],
                mirrored(direction),
            )->0;
            match arrange::candidate_reach(origin, image, images[j], mirrored(direction)) {
                None => true,
                Some(other) => if j < index {
                    arrange::reaches_closer(own, other)
                } else {
                    !arrange::reaches_closer(other, own)
                },
            }
        } by {
            assert(candidates[j].0 == images[j].0);
            assert(candidates[index].0 == images[index].0);
        }
    }
    if right {
        assert forall|j: int|
            #![trigger candidates[j]]
            0 <= j < candidates.len() implies {
            let own = arrange::candidate_reach(origin, from, candidates[index], direction)->0;
            match arrange::candidate_reach(origin, from, candidates[j], direction) {
                None => true,
                Some(other) => if j < index {
                    arrange::reaches_closer(own, other)
                } else {
                    !arrange::reaches_closer(other, own)
                },
            }
        } by {
            assert(candidates[j].0 == images[j].0);
            assert(candidates[index].0 == images[index].0);
        }
    }
}

/// Mirroring windows top and bottom turns the target in a direction into the target in the
/// direction that is changed the same way.
pub proof fn law_targets_agree_under_upside_down_images<T: PartialEq>(
    origin: T,
    from: Geometry,
    image: Geometry,
    candidates: Seq<(T, Geometry)>,
    images: Seq<(T, Geometry)>,
    direction: SpatialDirection,
    index: int,
)
    requires
        flips(from, image),
        candidates.len() == images.len(),
        forall|i: int|
            0 <= i < candidates.len() ==> (#[trigger] images[i]).0 == candidates[i].0 && flips(
                candidates[i].1,
                images[i].1,
            ),
    ensures
        arrange::is_directional_target(origin, from, candidates, direction, index)
            == arrange::is_directional_target(origin, image, images, flipped(direction), index),
        forall|i: int|
            0 <= i < candidates.len() ==> (arrange::candidate_reach(
                origin,
                from,
                #[trigger] candidates[i],
                direction,
            ) is None) == (arrange::candidate_reach(origin, image, images[i], flipped(direction))
                is None),
{
    assert forall|i: int| 0 <= i < candidates.len() implies arrange::candidate_reach(
        origin,
        from,
        #[trigger] candidates[i],
        direction,
    ) == arrange::candidate_reach(origin, image, images[i], flipped(direction)) by {
        assert(flips(candidates[i].1, images[i].1));
    }
    let left = arrange::is_directional_target(origin, from, candidates, direction, index);
    let right = arrange::is_directional_target(origin, image, images, flipped(direction), index);
    if left {
        assert forall|j: int|
            #![trigger images[j]]
            0 <= j < images.len() implies {
            let own = arrange::candidate_reach(origin, image, images[index], flipped(direction))->0;
            match arrange::candidate_reach(origin, image, images[j], flipped(direction)) {
                None => true,
                Some(other) => if j < index {
                    arrange::reaches_closer(own, other)
                } else {
                    !arrange::reaches_closer(other, own)
                },
            }
        } by {
            assert(candidates[j].0 == images[j].0);
            assert(candidates[index].0 == images[index].0);
        }
    }
    if right {
        assert forall|j: int|
            #![trigger candidates[j]]
            0 <= j < candidates.len() implies {
            let own = arrange::candidate_reach(origin, from, candidates[index], direction)->0;
            match arrange::candidate_reach(origin, from, candidates[j], direction) {
                None => true,
                Some(other) => if j < index {
                    arrange::reaches_closer(own, other)
                } else {
                    !arrange::reaches_closer(other, own)
                },
            }
        } by {
            assert(candidates[j].0 == images[j].0);
            assert(candidates[index].0 == images[index].0);
        }
    }
}

/// Exchanging the axes of windows turns the target in a direction into the target in the direction
/// that is changed the same way.
pub proof fn law_targets_agree_under_exchanged_axes<T: PartialEq>(
    origin: T,
    from: Geometry,
    image: Geometry,
    candidates: Seq<(T, Geometry)>,
    images: Seq<(T, Geometry)>,
    direction: SpatialDirection,
    index: int,
)
    requires
        transposes(from, image),
        candidates.len() == images.len(),
        forall|i: int|
            0 <= i < candidates.len() ==> (#[trigger] images[i]).0 == candidates[i].0 && transposes(
                candidates[i].1,
                images[i].1,
            ),
    ensures
        arrange::is_directional_target(origin, from, candidates, direction, index)
            == arrange::is_directional_target(origin, image, images, transposed(direction), index),
        forall|i: int|
            0 <= i < candidates.len() ==> (arrange::candidate_reach(
                origin,
                from,
                #[trigger] candidates[i],
                direction,
            ) is None) == (arrange::candidate_reach(origin, image, images[i], transposed(direction))
                is None),
{
    assert forall|i: int| 0 <= i < candidates.len() implies arrange::candidate_reach(
        origin,
        from,
        #[trigger] candidates[i],
        direction,
    ) == arrange::candidate_reach(origin, image, images[i], transposed(direction)) by {
        assert(transposes(candidates[i].1, images[i].1));
    }
    let left = arrange::is_directional_target(origin, from, candidates, direction, index);
    let right = arrange::is_directional_target(origin, image, images, transposed(direction), index);
    if left {
        assert forall|j: int|
            #![trigger images[j]]
            0 <= j < images.len() implies {
            let own = arrange::candidate_reach(
                origin,
                image,
                images[index],
                transposed(direction),
            )->0;
            match arrange::candidate_reach(origin, image, images[j], transposed(direction)) {
                None => true,
                Some(other) => if j < index {
                    arrange::reaches_closer(own, other)
                } else {
                    !arrange::reaches_closer(other, own)
                },
            }
        } by {
            assert(candidates[j].0 == images[j].0);
            assert(candidates[index].0 == images[index].0);
        }
    }
    if right {
        assert forall|j: int|
            #![trigger candidates[j]]
            0 <= j < candidates.len() implies {
            let own = arrange::candidate_reach(origin, from, candidates[index], direction)->0;
            match arrange::candidate_reach(origin, from, candidates[j], direction) {
                None => true,
                Some(other) => if j < index {
                    arrange::reaches_closer(own, other)
                } else {
                    !arrange::reaches_closer(other, own)
                },
            }
        } by {
            assert(candidates[j].0 == images[j].0);
            assert(candidates[index].0 == images[index].0);
        }
    }
}

/// How far the center of a rectangle lies right of another one's, in half pixels.
pub open spec fn rightward(from: Geometry, to: Geometry) -> int {
    (2 * to.x + to.width) - (2 * from.x + from.width)
}

/// How far the center of a rectangle lies below another one's, in half pixels.
pub open spec fn downward(from: Geometry, to: Geometry) -> int {
    (2 * to.y + to.height) - (2 * from.y + from.height)
}

/// A number without its sign.
pub open spec fn magnitude(offset: int) -> int {
    if offset < 0 {
        -offset
    } else {
        offset
    }
}

/// How far a rectangle lies ahead in a direction, and how far it lies aside. Diagonals measure
/// along and across the line between the axes.
pub open spec fn ahead_and_aside(from: Geometry, to: Geometry, direction: SpatialDirection) -> (
    int,
    int,
) {
    let right = rightward(from, to);
    let down = downward(from, to);
    match direction {
        SpatialDirection::Right => (right, magnitude(down)),
        SpatialDirection::Left => (-right, magnitude(down)),
        SpatialDirection::Down => (down, magnitude(right)),
        SpatialDirection::Up => (-down, magnitude(right)),
        SpatialDirection::DownRight => (down + right, magnitude(down - right)),
        SpatialDirection::UpLeft => (-down - right, magnitude(down - right)),
        SpatialDirection::UpRight => (right - down, magnitude(down + right)),
        SpatialDirection::DownLeft => (down - right, magnitude(down + right)),
    }
}

/// The target lies ahead and is not the origin. A candidate ahead that lies no further aside than
/// ahead is preferred to every one further aside than ahead; among candidates of the same kind the
/// target has the least distance ahead and aside together, of those with the same distance the
/// least distance aside, and of those the same in both respects it comes first.
pub proof fn law_targets_are_nearest<T: PartialEq>(
    origin: T,
    from: Geometry,
    candidates: Seq<(T, Geometry)>,
    direction: SpatialDirection,
    index: int,
    other: int,
)
    requires
        arrange::is_directional_target(origin, from, candidates, direction, index),
        0 <= other < candidates.len(),
        !vstd::std_specs::cmp::PartialEqSpec::eq_spec(&candidates[other].0, &origin),
        ahead_and_aside(from, candidates[other].1, direction).0 > 0,
    ensures
        ({
            let (ahead, aside) = ahead_and_aside(from, candidates[index].1, direction);
            let (their_ahead, their_aside) = ahead_and_aside(from, candidates[other].1, direction);
            &&& !vstd::std_specs::cmp::PartialEqSpec::eq_spec(&candidates[index].0, &origin)
            &&& ahead > 0
            &&& their_aside <= their_ahead ==> aside <= ahead
            &&& (their_aside <= their_ahead) == (aside <= ahead) ==> {
                &&& ahead + aside <= their_ahead + their_aside
                &&& ahead + aside == their_ahead + their_aside ==> aside <= their_aside
                &&& ahead == their_ahead && aside == their_aside ==> index <= other
            }
        }),
{
    law_windows_ahead_are_reached(origin, from, candidates[index], direction);
    law_windows_ahead_are_reached(origin, from, candidates[other], direction);
    lemma_preferred_reach(
        ahead_and_aside(from, candidates[index].1, direction),
        ahead_and_aside(from, candidates[other].1, direction),
    );
}

/// What it means that one reach is not preferred to another.
proof fn lemma_preferred_reach(own: (int, int), other: (int, int))
    requires
        own.1 >= 0,
        other.1 >= 0,
        !arrange::reaches_closer(other, own),
    ensures
        other.1 <= other.0 ==> own.1 <= own.0,
        (other.1 <= other.0) == (own.1 <= own.0) ==> own.0 + own.1 <= other.0 + other.1 && (own.0
            + own.1 == other.0 + other.1 ==> own.1 <= other.1),
{
}

/// A window is reached exactly where it is not the origin and lies ahead, and its reach is how far
/// it lies ahead and aside.
pub proof fn law_windows_ahead_are_reached<T: PartialEq>(
    origin: T,
    from: Geometry,
    candidate: (T, Geometry),
    direction: SpatialDirection,
)
    ensures
        arrange::candidate_reach(origin, from, candidate, direction) is Some <==> (
        !vstd::std_specs::cmp::PartialEqSpec::eq_spec(&candidate.0, &origin) && ahead_and_aside(
            from,
            candidate.1,
            direction,
        ).0 > 0),
        arrange::candidate_reach(origin, from, candidate, direction) is Some
            ==> arrange::candidate_reach(origin, from, candidate, direction) == Some(
            ahead_and_aside(from, candidate.1, direction),
        ),
{
}

/// A window level with the origin is preferred to one that lies further aside than ahead.
pub proof fn law_level_windows_are_preferred<T: PartialEq>(
    origin: T,
    from: Geometry,
    candidates: Seq<(T, Geometry)>,
    index: int,
    level: int,
)
    requires
        0 <= level < candidates.len(),
        !vstd::std_specs::cmp::PartialEqSpec::eq_spec(&candidates[level].0, &origin),
    ensures
        arrange::is_directional_target(origin, from, candidates, SpatialDirection::Left, index)
            && downward(from, candidates[level].1) == 0 && rightward(from, candidates[level].1) < 0
            ==> {
            let across = downward(from, candidates[index].1);
            let along = rightward(from, candidates[index].1);
            along < 0 && along <= across <= -along
        },
        arrange::is_directional_target(origin, from, candidates, SpatialDirection::Right, index)
            && downward(from, candidates[level].1) == 0 && rightward(from, candidates[level].1) > 0
            ==> {
            let across = downward(from, candidates[index].1);
            let along = rightward(from, candidates[index].1);
            along > 0 && -along <= across <= along
        },
        arrange::is_directional_target(origin, from, candidates, SpatialDirection::Up, index)
            && rightward(from, candidates[level].1) == 0 && downward(from, candidates[level].1) < 0
            ==> {
            let across = rightward(from, candidates[index].1);
            let along = downward(from, candidates[index].1);
            along < 0 && along <= across <= -along
        },
        arrange::is_directional_target(origin, from, candidates, SpatialDirection::Down, index)
            && rightward(from, candidates[level].1) == 0 && downward(from, candidates[level].1) > 0
            ==> {
            let across = rightward(from, candidates[index].1);
            let along = downward(from, candidates[index].1);
            along > 0 && -along <= across <= along
        },
{
    assert(candidates[level] == candidates[level]);
}

/// A rectangle as seen by someone who looks into a direction: how far away its near and far sides
/// are, and where it begins and ends across the line of sight.
pub ghost struct Sight {
    /// The side that is nearer.
    pub near: int,
    /// The side that is farther away.
    pub far: int,
    /// Where it begins across the line of sight.
    pub low: int,
    /// Where it ends across the line of sight.
    pub high: int,
}

/// A rectangle seen by someone who looks into a direction.
pub open spec fn seen(geometry: Geometry, direction: CardinalDirection) -> Sight {
    let left = geometry.x as int;
    let right = geometry.x + geometry.width;
    let top = geometry.y as int;
    let bottom = geometry.y + geometry.height;
    match direction {
        CardinalDirection::Right => Sight { near: left, far: right, low: top, high: bottom },
        CardinalDirection::Left => Sight { near: -right, far: -left, low: top, high: bottom },
        CardinalDirection::Down => Sight { near: top, far: bottom, low: left, high: right },
        CardinalDirection::Up => Sight { near: -bottom, far: -top, low: left, high: right },
    }
}

/// Whether a rectangle is not empty and its sides are coordinates.
pub open spec fn is_regular(geometry: Geometry) -> bool {
    &&& geometry.width >= 1
    &&& geometry.height >= 1
    &&& geometry.x + geometry.width <= i32::MAX
    &&& geometry.y + geometry.height <= i32::MAX
}

/// Whether two rectangles overlap across the line of sight.
pub open spec fn is_in_the_way(one: Sight, other: Sight) -> bool {
    one.low < other.high && other.low < one.high
}

/// Whether one of the obstacles in the way has a side at a distance.
pub open spec fn has_side_at(
    geometry: Geometry,
    obstacles: Seq<Geometry>,
    direction: CardinalDirection,
    distance: int,
) -> bool {
    exists|i: int|
        #![trigger obstacles[i]]
        0 <= i < obstacles.len() && is_in_the_way(
            seen(geometry, direction),
            seen(obstacles[i], direction),
        ) && (distance == seen(obstacles[i], direction).near || distance == seen(
            obstacles[i],
            direction,
        ).far)
}

/// An obstacle lies in the path of a window exactly where they overlap across the direction.
proof fn lemma_in_path(geometry: Geometry, obstacle: Geometry, direction: CardinalDirection)
    requires
        is_regular(geometry),
        is_regular(obstacle),
    ensures
        arrange::is_in_path(geometry, obstacle, direction) == is_in_the_way(
            seen(geometry, direction),
            seen(obstacle, direction),
        ),
{
}

/// An obstacle in the path offers both of its sides.
proof fn lemma_offers(
    geometry: Geometry,
    obstacles: Seq<Geometry>,
    direction: CardinalDirection,
    inset: int,
    i: int,
)
    requires
        0 <= i < obstacles.len(),
        arrange::is_in_path(geometry, obstacles[i], direction),
    ensures
        arrange::stop_positions(geometry, obstacles, direction, inset).contains(
            arrange::axis_start(obstacles[i], direction) - inset,
        ),
        arrange::stop_positions(geometry, obstacles, direction, inset).contains(
            arrange::axis_start(obstacles[i], direction) + arrange::axis_length(
                obstacles[i],
                direction,
            ),
        ),
    decreases obstacles.len(),
{
    let positions = arrange::stop_positions(geometry, obstacles, direction, inset);
    let shorter = obstacles.drop_last();
    let before = arrange::stop_positions(geometry, shorter, direction, inset);
    let near = arrange::axis_start(obstacles[i], direction) - inset;
    let far = arrange::axis_start(obstacles[i], direction) + arrange::axis_length(
        obstacles[i],
        direction,
    );
    if i < shorter.len() {
        assert(shorter[i] == obstacles[i]);
        lemma_offers(geometry, shorter, direction, inset, i);
        let k = choose|k: int| 0 <= k < before.len() && before[k] == near;
        let l = choose|l: int| 0 <= l < before.len() && before[l] == far;
        assert(positions[k] == near);
        assert(positions[l] == far);
    } else {
        assert(obstacles.last() == obstacles[i]);
        assert(positions[before.len() as int] == near);
        assert(positions[before.len() as int + 1] == far);
    }
}

/// The obstacle in the path that offers a position.
proof fn lemma_offered(
    geometry: Geometry,
    obstacles: Seq<Geometry>,
    direction: CardinalDirection,
    inset: int,
    position: int,
) -> (i: int)
    requires
        arrange::stop_positions(geometry, obstacles, direction, inset).contains(position),
    ensures
        0 <= i < obstacles.len(),
        arrange::is_in_path(geometry, obstacles[i], direction),
        position == arrange::axis_start(obstacles[i], direction) - inset || position
            == arrange::axis_start(obstacles[i], direction) + arrange::axis_length(
            obstacles[i],
            direction,
        ),
    decreases obstacles.len(),
{
    let positions = arrange::stop_positions(geometry, obstacles, direction, inset);
    let k = choose|k: int| 0 <= k < positions.len() && positions[k] == position;
    let shorter = obstacles.drop_last();
    let before = arrange::stop_positions(geometry, shorter, direction, inset);
    if k < before.len() {
        assert(before[k] == position);
        let i = lemma_offered(geometry, shorter, direction, inset, position);
        assert(shorter[i] == obstacles[i]);
        i
    } else {
        obstacles.len() - 1
    }
}

/// The nearest stop is the fallback or a reachable position.
proof fn lemma_stop_is_reachable(
    positions: Seq<int>,
    current: int,
    low: int,
    high: int,
    backward: bool,
    fallback: int,
)
    ensures
        ({
            let stop = arrange::nearest_stop(positions, current, low, high, backward, fallback);
            &&& stop == fallback || positions.contains(stop) && arrange::is_reachable(
                stop,
                current,
                low,
                high,
                backward,
            )
            &&& backward ==> fallback <= stop
            &&& !backward ==> stop <= fallback
        }),
    decreases positions.len(),
{
    if positions.len() > 0 {
        let shorter = positions.drop_last();
        lemma_stop_is_reachable(shorter, current, low, high, backward, fallback);
        let before = arrange::nearest_stop(shorter, current, low, high, backward, fallback);
        assert(positions[positions.len() - 1] == positions.last());
        if shorter.contains(before) {
            let k = choose|k: int| 0 <= k < shorter.len() && shorter[k] == before;
            assert(positions[k] == before);
        }
    }
}

/// No reachable position is nearer than the nearest stop.
proof fn lemma_stop_is_nearest(
    positions: Seq<int>,
    current: int,
    low: int,
    high: int,
    backward: bool,
    fallback: int,
    position: int,
)
    requires
        positions.contains(position),
        arrange::is_reachable(position, current, low, high, backward),
    ensures
        ({
            let stop = arrange::nearest_stop(positions, current, low, high, backward, fallback);
            if backward {
                position <= stop
            } else {
                stop <= position
            }
        }),
    decreases positions.len(),
{
    let shorter = positions.drop_last();
    let k = choose|k: int| 0 <= k < positions.len() && positions[k] == position;
    if k < shorter.len() {
        assert(shorter[k] == position);
        lemma_stop_is_nearest(shorter, current, low, high, backward, fallback, position);
    }
}

/// A directional move of a window inside bounds keeps its size and its place across the
/// direction, and brings it forward to the first place ahead where it touches a side of an
/// obstacle in its way, from before it or from behind it, or else to the far side of the bounds.
pub proof fn law_moves_stop_at_the_next_edge(
    geometry: Geometry,
    bounds: Geometry,
    obstacles: Seq<Geometry>,
    direction: CardinalDirection,
)
    requires
        is_regular(geometry),
        is_regular(bounds),
        bounds.encloses(geometry),
        forall|i: int| 0 <= i < obstacles.len() ==> is_regular(#[trigger] obstacles[i]),
    ensures
        ({
            let moved = seen(
                arrange::moved_toward(geometry, bounds, obstacles, direction),
                direction,
            );
            let before = seen(geometry, direction);
            let area = seen(bounds, direction);
            &&& moved.low == before.low && moved.high == before.high
            &&& moved.far - moved.near == before.far - before.near
            &&& before.near <= moved.near && moved.far <= area.far
            &&& moved.far == area.far || exists|i: int|
                #![trigger obstacles[i]]
                0 <= i < obstacles.len() && is_in_the_way(before, seen(obstacles[i], direction))
                    && (moved.far == seen(obstacles[i], direction).near || moved.near == seen(
                    obstacles[i],
                    direction,
                ).far) && before.near < moved.near
            &&& forall|i: int|
                #![trigger obstacles[i]]
                0 <= i < obstacles.len() && is_in_the_way(before, seen(obstacles[i], direction))
                    ==> {
                    let obstacle = seen(obstacles[i], direction);
                    &&& before.far < obstacle.near ==> moved.far <= obstacle.near
                    &&& before.near < obstacle.far ==> moved.near <= obstacle.far
                }
        }),
{
    let low = arrange::axis_start(bounds, direction);
    let high = arrange::last_start(geometry, bounds, direction);
    let length = arrange::axis_length(geometry, direction);
    let current = arrange::axis_start(geometry, direction);
    let backward = direction.is_backward();
    let fallback = if backward {
        low
    } else {
        high
    };
    let positions = arrange::stop_positions(geometry, obstacles, direction, length);
    let stop = arrange::nearest_stop(positions, current, low, high, backward, fallback);
    lemma_stop_is_reachable(positions, current, low, high, backward, fallback);
    let moved = seen(arrange::moved_toward(geometry, bounds, obstacles, direction), direction);
    let before = seen(geometry, direction);
    assert(stop == arrange::move_destination(geometry, bounds, obstacles, direction));
    assert forall|i: int|
        #![trigger obstacles[i]]
        0 <= i < obstacles.len() && is_in_the_way(before, seen(obstacles[i], direction)) implies {
        let obstacle = seen(obstacles[i], direction);
        &&& before.far < obstacle.near ==> moved.far <= obstacle.near
        &&& before.near < obstacle.far ==> moved.near <= obstacle.far
    } by {
        lemma_in_path(geometry, obstacles[i], direction);
        lemma_offers(geometry, obstacles, direction, length, i);
        let near = arrange::axis_start(obstacles[i], direction) - length;
        let far = arrange::axis_start(obstacles[i], direction) + arrange::axis_length(
            obstacles[i],
            direction,
        );
        if arrange::is_reachable(near, current, low, high, backward) {
            lemma_stop_is_nearest(positions, current, low, high, backward, fallback, near);
        }
        if arrange::is_reachable(far, current, low, high, backward) {
            lemma_stop_is_nearest(positions, current, low, high, backward, fallback, far);
        }
    }
    if stop != fallback {
        let i = lemma_offered(geometry, obstacles, direction, length, stop);
        lemma_in_path(geometry, obstacles[i], direction);
    }
}

/// The positions offered by obstacles are their sides.
proof fn lemma_sides_are_offered(
    geometry: Geometry,
    obstacles: Seq<Geometry>,
    direction: CardinalDirection,
    position: int,
)
    requires
        is_regular(geometry),
        forall|i: int| 0 <= i < obstacles.len() ==> is_regular(#[trigger] obstacles[i]),
    ensures
        arrange::stop_positions(geometry, obstacles, direction, 0).contains(position)
            == has_side_at(
            geometry,
            obstacles,
            direction,
            if direction.is_backward() {
                -position
            } else {
                position
            },
        ),
{
    let distance = if direction.is_backward() {
        -position
    } else {
        position
    };
    if arrange::stop_positions(geometry, obstacles, direction, 0).contains(position) {
        let i = lemma_offered(geometry, obstacles, direction, 0, position);
        lemma_in_path(geometry, obstacles[i], direction);
    }
    if has_side_at(geometry, obstacles, direction, distance) {
        let i = choose|i: int|
            #![trigger obstacles[i]]
            0 <= i < obstacles.len() && is_in_the_way(
                seen(geometry, direction),
                seen(obstacles[i], direction),
            ) && (distance == seen(obstacles[i], direction).near || distance == seen(
                obstacles[i],
                direction,
            ).far);
        lemma_in_path(geometry, obstacles[i], direction);
        lemma_offers(geometry, obstacles, direction, 0, i);
    }
}

/// What growing and shrinking move a side to: the first side of an obstacle in the way beyond it,
/// or the boundary.
proof fn lemma_next_edge(
    geometry: Geometry,
    obstacles: Seq<Geometry>,
    direction: CardinalDirection,
    current: int,
    boundary: int,
)
    requires
        is_regular(geometry),
        forall|i: int| 0 <= i < obstacles.len() ==> is_regular(#[trigger] obstacles[i]),
        i32::MIN <= current <= i32::MAX,
        i32::MIN <= boundary <= i32::MAX,
    ensures
        ({
            let edge = arrange::next_edge(geometry, obstacles, direction, current, boundary);
            let from = if direction.is_backward() {
                -current
            } else {
                current
            };
            let to = if direction.is_backward() {
                -boundary
            } else {
                boundary
            };
            let reached = if direction.is_backward() {
                -edge
            } else {
                edge
            };
            &&& from < to ==> from < reached <= to && (reached == to || has_side_at(
                geometry,
                obstacles,
                direction,
                reached,
            ))
            &&& from >= to ==> reached == from
            &&& forall|distance: int|
                from < distance < reached ==> !#[trigger] has_side_at(
                    geometry,
                    obstacles,
                    direction,
                    distance,
                )
        }),
{
    let backward = direction.is_backward();
    let positions = arrange::stop_positions(geometry, obstacles, direction, 0);
    let low = if backward {
        boundary
    } else {
        i64::MIN as int
    };
    let high = if backward {
        i64::MAX as int
    } else {
        boundary
    };
    let ahead = if backward {
        boundary < current
    } else {
        boundary > current
    };
    let fallback = if ahead {
        boundary
    } else {
        current
    };
    lemma_stop_is_reachable(positions, current, low, high, backward, fallback);
    let edge = arrange::next_edge(geometry, obstacles, direction, current, boundary);
    assert(edge == arrange::nearest_stop(positions, current, low, high, backward, fallback));
    let from = if backward {
        -current
    } else {
        current
    };
    let reached = if backward {
        -edge
    } else {
        edge
    };
    if edge != fallback {
        lemma_sides_are_offered(geometry, obstacles, direction, edge);
    }
    assert forall|distance: int| from < distance < reached implies !#[trigger] has_side_at(
        geometry,
        obstacles,
        direction,
        distance,
    ) by {
        let position = if backward {
            -distance
        } else {
            distance
        };
        lemma_sides_are_offered(geometry, obstacles, direction, position);
        if positions.contains(position) {
            lemma_stop_is_nearest(positions, current, low, high, backward, fallback, position);
        }
    }
}

/// Growing a window inside bounds moves the side that faces the direction, and no other, to the
/// first side ahead of an obstacle in the way, or else to the side of the bounds. A side that
/// already touches one of these stays there where growth stops at such edges.
pub proof fn law_growth_stops_at_the_next_edge(
    geometry: Geometry,
    bounds: Geometry,
    obstacles: Seq<Geometry>,
    direction: CardinalDirection,
    blocking_edge: BlockingEdgePolicy,
)
    requires
        is_regular(geometry),
        is_regular(bounds),
        bounds.encloses(geometry),
        forall|i: int| 0 <= i < obstacles.len() ==> is_regular(#[trigger] obstacles[i]),
    ensures
        ({
            let grown = seen(
                arrange::grown(geometry, bounds, obstacles, direction, blocking_edge),
                direction,
            );
            let before = seen(geometry, direction);
            let area = seen(bounds, direction);
            let touches = before.far == area.far || has_side_at(
                geometry,
                obstacles,
                direction,
                before.far,
            );
            &&& grown.near == before.near && grown.low == before.low && grown.high == before.high
            &&& before.far <= grown.far <= area.far
            &&& blocking_edge == BlockingEdgePolicy::Stop && touches ==> grown.far == before.far
            &&& (blocking_edge == BlockingEdgePolicy::Cross || !touches) && before.far < area.far
                ==> grown.far > before.far && (grown.far == area.far || has_side_at(
                geometry,
                obstacles,
                direction,
                grown.far,
            ))
            &&& forall|distance: int|
                before.far < distance < grown.far ==> !#[trigger] has_side_at(
                    geometry,
                    obstacles,
                    direction,
                    distance,
                )
        }),
{
    let side = arrange::facing_side(geometry, direction);
    let boundary = arrange::facing_side(bounds, direction);
    lemma_next_edge(geometry, obstacles, direction, side, boundary);
    lemma_sides_are_offered(geometry, obstacles, direction, side);
}

/// Shrinking a window inside bounds moves the side away from the direction, and no other, toward
/// it: to the first side of an obstacle in the way, but no further than that half of the window,
/// rounded down, and at least one pixel, is left.
pub proof fn law_shrinking_stops_at_the_next_edge(
    geometry: Geometry,
    bounds: Geometry,
    obstacles: Seq<Geometry>,
    direction: CardinalDirection,
)
    requires
        is_regular(geometry),
        is_regular(bounds),
        bounds.encloses(geometry),
        forall|i: int| 0 <= i < obstacles.len() ==> is_regular(#[trigger] obstacles[i]),
    ensures
        ({
            let shrunk = seen(
                arrange::shrunk(geometry, bounds, obstacles, direction),
                direction,
            );
            let before = seen(geometry, direction);
            let half = (before.far - before.near) / 2;
            let kept = if half < 1 {
                1
            } else {
                half
            };
            &&& shrunk.far == before.far && shrunk.low == before.low && shrunk.high == before.high
            &&& before.near <= shrunk.near <= before.far - kept
            &&& shrunk.near == before.far - kept || shrunk.near > before.near && has_side_at(
                geometry,
                obstacles,
                direction,
                shrunk.near,
            )
            &&& forall|distance: int|
                before.near < distance < shrunk.near ==> !#[trigger] has_side_at(
                    geometry,
                    obstacles,
                    direction,
                    distance,
                )
        }),
{
    let side = arrange::facing_side(geometry, direction.reversed());
    let boundary = arrange::facing_side(bounds, direction);
    lemma_next_edge(geometry, obstacles, direction, side, boundary);
}

/// Growing all edges moves each side to where growing that side alone would move it.
pub proof fn law_sides_grow_independently(
    geometry: Geometry,
    bounds: Geometry,
    obstacles: Seq<Geometry>,
    direction: CardinalDirection,
    blocking_edge: BlockingEdgePolicy,
)
    requires
        is_regular(geometry),
        is_regular(bounds),
        bounds.encloses(geometry),
        forall|i: int| 0 <= i < obstacles.len() ==> is_regular(#[trigger] obstacles[i]),
    ensures
        seen(
            arrange::grown_all(geometry, bounds, obstacles, blocking_edge),
            direction,
        ).far == seen(
            arrange::grown(geometry, bounds, obstacles, direction, blocking_edge),
            direction,
        ).far,
{
    law_growth_stops_at_the_next_edge(
        geometry,
        bounds,
        obstacles,
        CardinalDirection::Left,
        blocking_edge,
    );
    law_growth_stops_at_the_next_edge(
        geometry,
        bounds,
        obstacles,
        CardinalDirection::Right,
        blocking_edge,
    );
    law_growth_stops_at_the_next_edge(
        geometry,
        bounds,
        obstacles,
        CardinalDirection::Up,
        blocking_edge,
    );
    law_growth_stops_at_the_next_edge(
        geometry,
        bounds,
        obstacles,
        CardinalDirection::Down,
        blocking_edge,
    );
}

/// Filling free space grows every side that can grow without passing an edge that it touches, and
/// passes such edges only where no side can.
pub proof fn law_filling_passes_edges_only_when_stuck(
    geometry: Geometry,
    bounds: Geometry,
    obstacles: Seq<Geometry>,
    direction: CardinalDirection,
)
    requires
        is_regular(geometry),
        is_regular(bounds),
        bounds.encloses(geometry),
        forall|i: int| 0 <= i < obstacles.len() ==> is_regular(#[trigger] obstacles[i]),
    ensures
        ({
            let stopping = arrange::grown(
                geometry,
                bounds,
                obstacles,
                direction,
                BlockingEdgePolicy::Stop,
            );
            let crossing = arrange::grown(
                geometry,
                bounds,
                obstacles,
                direction,
                BlockingEdgePolicy::Cross,
            );
            let stuck = forall|side: CardinalDirection| #[trigger]
                arrange::grown(geometry, bounds, obstacles, side, BlockingEdgePolicy::Stop)
                    == geometry;
            let filled = arrange::filled(geometry, bounds, obstacles);
            &&& stuck ==> seen(filled, direction).far == seen(crossing, direction).far
            &&& !stuck ==> seen(filled, direction).far == seen(stopping, direction).far
        }),
{
    let stop = BlockingEdgePolicy::Stop;
    let first = arrange::grown_all(geometry, bounds, obstacles, stop);
    law_sides_grow_independently(geometry, bounds, obstacles, direction, stop);
    law_sides_grow_independently(
        geometry,
        bounds,
        obstacles,
        direction,
        BlockingEdgePolicy::Cross,
    );
    assert forall|side: CardinalDirection| (#[trigger] arrange::grown(
        geometry,
        bounds,
        obstacles,
        side,
        stop,
    ) == geometry) == (seen(first, side).far == seen(geometry, side).far) by {
        law_sides_grow_independently(geometry, bounds, obstacles, side, stop);
        law_growth_stops_at_the_next_edge(geometry, bounds, obstacles, side, stop);
    }
    let left = arrange::grown(geometry, bounds, obstacles, CardinalDirection::Left, stop);
    let right = arrange::grown(geometry, bounds, obstacles, CardinalDirection::Right, stop);
    let up = arrange::grown(geometry, bounds, obstacles, CardinalDirection::Up, stop);
    let down = arrange::grown(geometry, bounds, obstacles, CardinalDirection::Down, stop);
    assert(first == geometry <==> (left == geometry && right == geometry && up == geometry && down
        == geometry));
}

/// Where an axis placement puts a length in a stretch: so far from its start, so far from its end,
/// in the middle, or as far from its start as it was from the start of another one.
pub open spec fn is_placed(
    placement: AxisPlacement,
    position: int,
    length: int,
    start: int,
    end: int,
    current: int,
    source: int,
) -> bool {
    match placement {
        AxisPlacement::Start(offset) => position - start == offset,
        AxisPlacement::End(inset) => end - (position + length) == inset,
        AxisPlacement::Center => {
            let before = position - start;
            let after = end - (position + length);
            before == after || before + 1 == after
        },
        AxisPlacement::Keep => position - start == current - source,
    }
}

/// Moving and resizing gives a window the requested size inside target bounds that hold it. On
/// each axis it stands where the placement says, if there is such a place inside the bounds, and
/// otherwise at one of their ends.
pub proof fn law_windows_are_placed_as_asked(
    current: Geometry,
    source: Geometry,
    target: Geometry,
    size: Size,
    x: AxisPlacement,
    y: AxisPlacement,
    position: int,
)
    requires
        is_regular(target),
        1 <= size.width <= target.width,
        1 <= size.height <= target.height,
    ensures
        ({
            let moved = arrange::moved_and_resized(current, source, target, size, x, y);
            let right = target.x + target.width;
            let bottom = target.y + target.height;
            &&& moved.width == size.width && moved.height == size.height
            &&& target.encloses(moved)
            &&& target.x <= position && position + size.width <= right && is_placed(
                x,
                position,
                size.width as int,
                target.x as int,
                right,
                current.x as int,
                source.x as int,
            ) ==> moved.x == position
            &&& target.y <= position && position + size.height <= bottom && is_placed(
                y,
                position,
                size.height as int,
                target.y as int,
                bottom,
                current.y as int,
                source.y as int,
            ) ==> moved.y == position
            &&& is_placed(
                x,
                moved.x as int,
                size.width as int,
                target.x as int,
                right,
                current.x as int,
                source.x as int,
            ) || moved.x == target.x || moved.x + moved.width == right
            &&& is_placed(
                y,
                moved.y as int,
                size.height as int,
                target.y as int,
                bottom,
                current.y as int,
                source.y as int,
            ) || moved.y == target.y || moved.y + moved.height == bottom
        }),
{
}

/// A relative resize without size hints moves each side outward by its delta, as far as something
/// is left of the window.
pub proof fn law_resizing_moves_each_side(
    geometry: Geometry,
    deltas: ResizeDeltas,
    hints: SizeHints,
)
    requires
        is_regular(geometry),
        hints.minimum is None,
        hints.maximum is None,
        hints.base is None,
        hints.increment is None,
        hints.aspect is None,
        1 <= geometry.width + deltas.left + deltas.right <= u32::MAX,
        1 <= geometry.height + deltas.top + deltas.bottom <= u32::MAX,
        i32::MIN <= geometry.x - deltas.left <= i32::MAX,
        i32::MIN <= geometry.y - deltas.top <= i32::MAX,
        deltas.left >= 0 && deltas.right >= 0 || deltas.left <= 0 && deltas.right <= 0,
        deltas.top >= 0 && deltas.bottom >= 0 || deltas.top <= 0 && deltas.bottom <= 0,
    ensures
        ({
            let resized = arrange::resized(geometry, deltas, hints);
            &&& resized.x == geometry.x - deltas.left
            &&& resized.y == geometry.y - deltas.top
            &&& resized.x + resized.width == geometry.x + geometry.width + deltas.right
            &&& resized.y + resized.height == geometry.y + geometry.height + deltas.bottom
        }),
{
}

/// Whatever the size hints but an aspect range, a relative resize that leaves the left side alone
/// keeps the left side, and one that leaves the top side alone keeps the top side. One that moves
/// only the left side keeps the right side, where the hints change the width no further than was
/// asked and in the same sense, and one that moves only the top side keeps the bottom side
/// likewise.
pub proof fn law_resizing_keeps_the_opposite_side(
    geometry: Geometry,
    deltas: ResizeDeltas,
    hints: SizeHints,
)
    requires
        is_regular(geometry),
        hints.minimum matches Some(minimum) ==> minimum.width >= 1 && minimum.height >= 1,
        hints.aspect is None,
    ensures
        ({
            let resized = arrange::resized(geometry, deltas, hints);
            let wider = resized.width - geometry.width;
            let higher = resized.height - geometry.height;
            &&& deltas.left == 0 ==> resized.x == geometry.x
            &&& deltas.top == 0 ==> resized.y == geometry.y
            &&& deltas.left > 0 && 0 <= wider <= deltas.left && geometry.x - wider >= i32::MIN
                ==> resized.x + resized.width == geometry.x + geometry.width
            &&& deltas.left < 0 && deltas.left <= wider <= 0 ==> resized.x + resized.width
                == geometry.x + geometry.width
            &&& deltas.top > 0 && 0 <= higher <= deltas.top && geometry.y - higher >= i32::MIN
                ==> resized.y + resized.height == geometry.y + geometry.height
            &&& deltas.top < 0 && deltas.top <= higher <= 0 ==> resized.y + resized.height
                == geometry.y + geometry.height
        }),
{
}

/// A change smaller than the size increment counts as one increment in the same sense, and no
/// other change is altered.
pub proof fn law_small_changes_count_as_one_increment(delta: int, increment: int)
    requires
        increment >= 1,
    ensures
        0 < delta < increment ==> arrange::promoted_delta(delta, increment) == increment,
        -increment < delta < 0 ==> arrange::promoted_delta(delta, increment) == -increment,
        delta == 0 || delta >= increment || delta <= -increment ==> arrange::promoted_delta(
            delta,
            increment,
        ) == delta,
        arrange::promoted_delta(-delta, increment) == -arrange::promoted_delta(delta, increment),
{
}

} // verus!
