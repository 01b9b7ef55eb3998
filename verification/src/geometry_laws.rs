//! Laws of rectangles: overlap, distance, reserved space, and snapping.

use vstd::prelude::*;

use crate::arrange_laws;
use crate::geometry;
use crate::geometry::{DecorationExtents, EdgeReservation, EdgeReservations, Geometry};
use crate::num;

verus! {

/// Whether a rectangle covers a pixel.
pub open spec fn covers(geometry: Geometry, x: int, y: int) -> bool {
    geometry.x <= x < geometry.x + geometry.width && geometry.y <= y < geometry.y + geometry.height
}

/// Rectangles that are not empty meet exactly where they have a pixel in common, and one encloses
/// another exactly where it covers every pixel of it.
pub proof fn law_meeting_is_sharing_a_pixel(one: Geometry, other: Geometry)
    requires
        one.width >= 1,
        one.height >= 1,
        other.width >= 1,
        other.height >= 1,
    ensures
        one.meets(other) <==> exists|x: int, y: int| #[trigger]
            covers(one, x, y) && covers(other, x, y),
        one.encloses(other) <==> forall|x: int, y: int| #[trigger]
            covers(other, x, y) ==> covers(one, x, y),
{
    let x = num::greater(one.x as int, other.x as int);
    let y = num::greater(one.y as int, other.y as int);
    if one.meets(other) {
        assert(covers(one, x, y) && covers(other, x, y));
    }
    if forall|x: int, y: int| #[trigger] covers(other, x, y) ==> covers(one, x, y) {
        assert(covers(other, other.x as int, other.y as int));
        assert(covers(other, other.x + other.width - 1, other.y + other.height - 1));
    }
}

/// The area that rectangles share does not depend on their order, is the whole of one that lies
/// in the other, and that of a common part which touches sides of both otherwise.
pub proof fn law_shared_area_is_that_of_the_common_part(
    one: Geometry,
    other: Geometry,
    common: Geometry,
)
    requires
        forall|x: int, y: int| #[trigger]
            covers(common, x, y) <==> covers(one, x, y) && covers(other, x, y),
        common.width >= 1,
        common.height >= 1,
    ensures
        geometry::shared_area(one, other) == common.width * common.height,
        geometry::shared_area(other, one) == common.width * common.height,
{
    let right = common.x + common.width;
    let bottom = common.y + common.height;
    assert(covers(common, common.x as int, common.y as int));
    assert(covers(common, right - 1, bottom - 1));
    assert(!covers(common, common.x - 1, common.y as int));
    assert(!covers(common, common.x as int, common.y - 1));
    assert(!covers(common, right, bottom - 1));
    assert(!covers(common, right - 1, bottom));
    assert(geometry::shared_length(one.x as int, one.right(), other.x as int, other.right())
        == common.width);
    assert(geometry::shared_length(one.y as int, one.bottom(), other.y as int, other.bottom())
        == common.height);
    assert(geometry::shared_length(other.x as int, other.right(), one.x as int, one.right())
        == common.width);
    assert(geometry::shared_length(other.y as int, other.bottom(), one.y as int, one.bottom())
        == common.height);
}

/// The squared distance of rectangles is that of the gaps between them: none on an axis on which
/// they overlap or touch, and otherwise from the end of the first one to the start of the second.
pub proof fn law_distance_spans_the_gaps(one: Geometry, other: Geometry, across: int, down: int)
    requires
        across >= 0,
        down >= 0,
        other.x == one.x + one.width + across || across == 0 && one.x <= other.x + other.width
            && other.x <= one.x + one.width,
        other.y == one.y + one.height + down || down == 0 && one.y <= other.y + other.height
            && other.y <= one.y + one.height,
    ensures
        geometry::squared_distance(one, other) == across * across + down * down,
        geometry::squared_distance(other, one) == across * across + down * down,
{
}

/// Whether a reservation takes from an edge that spans positions.
pub open spec fn applies(reservation: EdgeReservation, start: int, end: int) -> bool {
    reservation.start <= reservation.end && reservation.start < end && start <= reservation.end
}

/// The deepest reservation on an edge is the depth that is taken from it.
proof fn lemma_deepest(geometry: Geometry, reservations: Seq<EdgeReservations>)
    requires
        arrange_laws::is_regular(geometry),
    ensures
        ({
            let depths = geometry::reserved_depths(geometry, reservations);
            let right = geometry.x + geometry.width;
            let bottom = geometry.y + geometry.height;
            &&& forall|i: int|
                #![trigger reservations[i]]
                0 <= i < reservations.len() ==> {
                    &&& applies(reservations[i].left, geometry.y as int, bottom) ==> depths.0
                        >= reservations[i].left.depth
                    &&& applies(reservations[i].right, geometry.y as int, bottom) ==> depths.1
                        >= reservations[i].right.depth
                    &&& applies(reservations[i].top, geometry.x as int, right) ==> depths.2
                        >= reservations[i].top.depth
                    &&& applies(reservations[i].bottom, geometry.x as int, right) ==> depths.3
                        >= reservations[i].bottom.depth
                }
            &&& depths.0 > 0 ==> exists|i: int|
                #![trigger reservations[i]]
                0 <= i < reservations.len() && applies(
                    reservations[i].left,
                    geometry.y as int,
                    bottom,
                ) && depths.0 == reservations[i].left.depth
            &&& depths.1 > 0 ==> exists|i: int|
                #![trigger reservations[i]]
                0 <= i < reservations.len() && applies(
                    reservations[i].right,
                    geometry.y as int,
                    bottom,
                ) && depths.1 == reservations[i].right.depth
            &&& depths.2 > 0 ==> exists|i: int|
                #![trigger reservations[i]]
                0 <= i < reservations.len() && applies(
                    reservations[i].top,
                    geometry.x as int,
                    right,
                ) && depths.2 == reservations[i].top.depth
            &&& depths.3 > 0 ==> exists|i: int|
                #![trigger reservations[i]]
                0 <= i < reservations.len() && applies(
                    reservations[i].bottom,
                    geometry.x as int,
                    right,
                ) && depths.3 == reservations[i].bottom.depth
            &&& depths.0 >= 0 && depths.1 >= 0 && depths.2 >= 0 && depths.3 >= 0
        }),
    decreases reservations.len(),
{
    if reservations.len() > 0 {
        let shorter = reservations.drop_last();
        lemma_deepest(geometry, shorter);
        assert forall|i: int| 0 <= i < shorter.len() implies #[trigger] shorter[i]
            == reservations[i] by {}
        assert forall|i: int| 0 <= i < reservations.len() - 1 implies #[trigger] reservations[i]
            == shorter[i] by {}
        assert(reservations[reservations.len() - 1] == reservations.last());
    }
}

/// The work area begins on each axis behind the deepest reservation on the near edge that applies
/// to the rectangle, and ends before the deepest one on the far edge; at least one pixel is left
/// on each axis, at the expense of the far edge first.
#[verifier::spinoff_prover]
pub proof fn law_work_area_lies_between_reservations(
    geometry: Geometry,
    reservations: Seq<EdgeReservations>,
)
    requires
        arrange_laws::is_regular(geometry),
    ensures
        ({
            let area = geometry.remaining_area(reservations);
            let right = geometry.x + geometry.width;
            let bottom = geometry.y + geometry.height;
            &&& area.width >= 1 && area.height >= 1
            &&& forall|i: int|
                #![trigger reservations[i]]
                0 <= i < reservations.len() ==> {
                    &&& applies(reservations[i].left, geometry.y as int, bottom) ==> area.x
                        >= num::lesser(geometry.x + reservations[i].left.depth, right - 1)
                    &&& applies(reservations[i].right, geometry.y as int, bottom) ==> area.x
                        + area.width <= num::greater(
                        right - reservations[i].right.depth,
                        area.x + 1,
                    )
                    &&& applies(reservations[i].top, geometry.x as int, right) ==> area.y
                        >= num::lesser(geometry.y + reservations[i].top.depth, bottom - 1)
                    &&& applies(reservations[i].bottom, geometry.x as int, right) ==> area.y
                        + area.height <= num::greater(
                        bottom - reservations[i].bottom.depth,
                        area.y + 1,
                    )
                }
            &&& area.x == geometry.x || area.x > geometry.x && exists|i: int|
                #![trigger reservations[i]]
                0 <= i < reservations.len() && applies(
                    reservations[i].left,
                    geometry.y as int,
                    bottom,
                ) && area.x <= geometry.x + reservations[i].left.depth
            &&& area.x + area.width == right || area.x + area.width < right && exists|i: int|
                #![trigger reservations[i]]
                0 <= i < reservations.len() && applies(
                    reservations[i].right,
                    geometry.y as int,
                    bottom,
                ) && area.x + area.width >= right - reservations[i].right.depth
            &&& area.y == geometry.y || area.y > geometry.y && exists|i: int|
                #![trigger reservations[i]]
                0 <= i < reservations.len() && applies(
                    reservations[i].top,
                    geometry.x as int,
                    right,
                ) && area.y <= geometry.y + reservations[i].top.depth
            &&& area.y + area.height == bottom || area.y + area.height < bottom && exists|i: int|
                #![trigger reservations[i]]
                0 <= i < reservations.len() && applies(
                    reservations[i].bottom,
                    geometry.x as int,
                    right,
                ) && area.y + area.height >= bottom - reservations[i].bottom.depth
        }),
{
    lemma_deepest(geometry, reservations);
}

/// Shifting a rectangle by an offset moves its corner by it and keeps its size, and shifting it
/// back restores it, where it does not leave the coordinates.
pub proof fn law_shifting_back_restores(geometry: Geometry, x: int, y: int)
    requires
        geometry.width >= 1,
        geometry.height >= 1,
        i32::MIN <= geometry.x + x <= i32::MAX,
        i32::MIN <= geometry.y + y <= i32::MAX,
    ensures
        geometry.shifted(x, y).x == geometry.x + x,
        geometry.shifted(x, y).y == geometry.y + y,
        geometry.shifted(x, y).shifted(-x, -y) == geometry,
{
}

/// Decoration surrounds the content: it reaches out on each side by its extent there.
pub proof fn law_decoration_surrounds_content(extents: DecorationExtents, content: Geometry)
    requires
        content.width >= 1,
        content.height >= 1,
        content.x - extents.left >= i32::MIN,
        content.y - extents.top >= i32::MIN,
        content.width + extents.left + extents.right <= u32::MAX,
        content.height + extents.top + extents.bottom <= u32::MAX,
    ensures
        ({
            let outer = extents.outer(content);
            &&& content.x - outer.x == extents.left
            &&& content.y - outer.y == extents.top
            &&& (outer.x + outer.width) - (content.x + content.width) == extents.right
            &&& (outer.y + outer.height) - (content.y + content.height) == extents.bottom
        }),
{
}

/// Moving a rectangle inside bounds moves it no further than it must: an axis on which it lies
/// inside them stays, one that begins before them or is longer begins where they begin, and one
/// that ends behind them ends where they end.
pub proof fn law_moving_inside_moves_least(geometry: Geometry, bounds: Geometry)
    requires
        arrange_laws::is_regular(geometry),
        arrange_laws::is_regular(bounds),
    ensures
        ({
            let moved = geometry.moved_inside(bounds);
            let right = bounds.x + bounds.width;
            let bottom = bounds.y + bounds.height;
            &&& moved.width == geometry.width && moved.height == geometry.height
            &&& bounds.x <= geometry.x && geometry.x + geometry.width <= right ==> moved.x
                == geometry.x
            &&& geometry.x < bounds.x || geometry.width > bounds.width ==> moved.x == bounds.x
            &&& geometry.x + geometry.width > right && geometry.width <= bounds.width ==> moved.x
                + moved.width == right
            &&& bounds.y <= geometry.y && geometry.y + geometry.height <= bottom ==> moved.y
                == geometry.y
            &&& geometry.y < bounds.y || geometry.height > bounds.height ==> moved.y == bounds.y
            &&& geometry.y + geometry.height > bottom && geometry.height <= bounds.height
                ==> moved.y + moved.height == bottom
        }),
{
}

/// How far apart two positions are.
pub open spec fn apart(one: int, other: int) -> int {
    if one <= other {
        other - one
    } else {
        one - other
    }
}

/// Snapping a moved rectangle in bounds keeps its size and brings the nearer of its two sides on
/// each axis to the side of the bounds on the same hand, if that is in reach, the near side first
/// where both are as near; a rectangle with no side in reach stays.
pub proof fn law_moves_snap_to_the_nearer_side(geometry: Geometry, bounds: Geometry, distance: int)
    requires
        arrange_laws::is_regular(geometry),
        arrange_laws::is_regular(bounds),
        bounds.encloses(geometry),
        distance >= 0,
    ensures
        ({
            let snapped = geometry.snapped_in(bounds, distance);
            let left = apart(geometry.x as int, bounds.x as int);
            let right = apart(geometry.x + geometry.width, bounds.x + bounds.width);
            let top = apart(geometry.y as int, bounds.y as int);
            let bottom = apart(geometry.y + geometry.height, bounds.y + bounds.height);
            &&& snapped.width == geometry.width && snapped.height == geometry.height
            &&& left <= distance && left <= right ==> snapped.x == bounds.x
            &&& right <= distance && right < left ==> snapped.x + snapped.width == bounds.x
                + bounds.width
            &&& left > distance && right > distance ==> snapped.x == geometry.x
            &&& top <= distance && top <= bottom ==> snapped.y == bounds.y
            &&& bottom <= distance && bottom < top ==> snapped.y + snapped.height == bounds.y
                + bounds.height
            &&& top > distance && bottom > distance ==> snapped.y == geometry.y
        }),
{
}

/// Snapping a resized rectangle leaves its near sides where they are and brings each far side to
/// that of the bounds, where that is in reach and behind the near side.
pub proof fn law_resizes_snap_the_far_sides(geometry: Geometry, bounds: Geometry, distance: int)
    requires
        arrange_laws::is_regular(geometry),
        arrange_laws::is_regular(bounds),
        distance >= 0,
    ensures
        ({
            let snapped = geometry.resize_snapped(bounds, distance);
            let right = bounds.x + bounds.width;
            let bottom = bounds.y + bounds.height;
            let across = apart(geometry.x + geometry.width, right);
            let down = apart(geometry.y + geometry.height, bottom);
            &&& snapped.x == geometry.x && snapped.y == geometry.y
            &&& across <= distance && right > geometry.x ==> snapped.x + snapped.width == right
            &&& across > distance || right <= geometry.x ==> snapped.width == geometry.width
            &&& down <= distance && bottom > geometry.y ==> snapped.y + snapped.height == bottom
            &&& down > distance || bottom <= geometry.y ==> snapped.height == geometry.height
        }),
{
}

/// Whether rectangles overlap from top to bottom, so that their vertical sides face each other.
pub open spec fn faces_across(one: Geometry, other: Geometry) -> bool {
    one.y < other.y + other.height && other.y < one.y + one.height
}

/// Whether rectangles overlap from left to right, so that their horizontal sides face each other.
pub open spec fn faces_down(one: Geometry, other: Geometry) -> bool {
    one.x < other.x + other.width && other.x < one.x + one.width
}

/// Whether a rectangle put at a horizontal position stands beside a target that it faces, or in
/// line with a side of a target above or below it that it comes to stand beside.
pub open spec fn is_snap_across(moved: Geometry, target: Geometry, distance: int, x: int) -> bool {
    ||| faces_across(moved, target) && (x == target.x + target.width || x + moved.width == target.x)
    ||| {
        &&& faces_down(moved, target)
        &&& apart(moved.y as int, target.y + target.height) <= distance || apart(
            moved.y + moved.height,
            target.y as int,
        ) <= distance
        &&& x == target.x || x + moved.width == target.x + target.width
    }
}

/// What a snap beside targets comes to: a place in reach beside one of them, and none is nearer.
proof fn lemma_horizontal_snap(moved: Geometry, targets: Seq<Geometry>, distance: int)
    requires
        distance >= 0,
    ensures
        match geometry::target_snaps(moved, targets, distance).0 {
            Some(snap) => {
                &&& snap.0 == apart(snap.1, moved.x as int) && snap.0 <= distance
                &&& exists|i: int|
                    #![trigger targets[i]]
                    0 <= i < targets.len() && is_snap_across(moved, targets[i], distance, snap.1)
                &&& forall|i: int, x: int|
                    #![trigger is_snap_across(moved, targets[i], distance, x)]
                    0 <= i < targets.len() && is_snap_across(moved, targets[i], distance, x)
                        ==> snap.0 <= apart(x, moved.x as int)
            },
            None => forall|i: int, x: int|
                #![trigger is_snap_across(moved, targets[i], distance, x)]
                0 <= i < targets.len() && is_snap_across(moved, targets[i], distance, x)
                    ==> distance < apart(x, moved.x as int),
        },
    decreases targets.len(),
{
    if targets.len() > 0 {
        let shorter = targets.drop_last();
        lemma_horizontal_snap(moved, shorter, distance);
        let t = targets[targets.len() - 1];
        assert(targets.last() == t);
        let before = geometry::target_snaps(moved, shorter, distance).0;
        let after = geometry::target_snaps(moved, targets, distance).0;
        assert forall|i: int, x: int|
            #![trigger is_snap_across(moved, targets[i], distance, x)]
            0 <= i < targets.len() - 1 && is_snap_across(moved, targets[i], distance, x) implies
            is_snap_across(moved, shorter[i], distance, x) by {
            assert(shorter[i] == targets[i]);
        }
        lemma_one_target(moved, t, distance);
        if let Some(snap) = before {
            let i = choose|i: int|
                #![trigger shorter[i]]
                0 <= i < shorter.len() && is_snap_across(moved, shorter[i], distance, snap.1);
            assert(targets[i] == shorter[i]);
        }
        if let Some(snap) = after {
            if after != before {
                assert(is_snap_across(moved, t, distance, snap.1));
            }
        }
    }
}

/// The snap beside one target.
spec fn own_snap(moved: Geometry, t: Geometry, distance: int) -> Option<(int, int)> {
    let facing_x = if moved.y < t.bottom() && t.y < moved.bottom() {
        geometry::nearest_snap(moved.x as int, t.right(), t.x - moved.width, distance)
    } else {
        None
    };
    let facing_y = if moved.x < t.right() && t.x < moved.right() {
        geometry::nearest_snap(moved.y as int, t.bottom(), t.y - moved.height, distance)
    } else {
        None
    };
    let corner_x = if facing_y is Some {
        geometry::nearest_snap(moved.x as int, t.x as int, t.right() - moved.width, distance)
    } else {
        None
    };
    geometry::closer_snap(facing_x, corner_x)
}

proof fn lemma_one_target(moved: Geometry, t: Geometry, distance: int)
    requires
        distance >= 0,
    ensures
        match own_snap(moved, t, distance) {
            Some(snap) => {
                &&& snap.0 == apart(snap.1, moved.x as int) && snap.0 <= distance
                &&& is_snap_across(moved, t, distance, snap.1)
                &&& forall|x: int| #[trigger]
                    is_snap_across(moved, t, distance, x) ==> snap.0 <= apart(x, moved.x as int)
            },
            None => forall|x: int| #[trigger]
                is_snap_across(moved, t, distance, x) ==> distance < apart(x, moved.x as int),
        },
{
}

/// Snapping beside targets keeps the size of a rectangle and moves it across to the nearest place
/// in reach where it stands beside a target that it faces, or in line with one above or below it
/// that it can stand beside; without such a place it stays on that axis.
pub proof fn law_moves_snap_beside_the_nearest_target(
    moved: Geometry,
    targets: Seq<Geometry>,
    distance: int,
)
    requires
        moved.width >= 1,
        moved.height >= 1,
        distance >= 0,
    ensures
        ({
            let snapped = moved.snapped_beside(targets, distance);
            let near = |x: int|
                exists|i: int|
                    #![trigger targets[i]]
                    0 <= i < targets.len() && is_snap_across(moved, targets[i], distance, x);
            &&& snapped.width == moved.width && snapped.height == moved.height
            &&& snapped.x != moved.x && i32::MIN + distance <= moved.x <= i32::MAX - distance
                ==> apart(snapped.x as int, moved.x as int) <= distance && near(snapped.x as int)
            &&& forall|i: int, x: int|
                #![trigger is_snap_across(moved, targets[i], distance, x)]
                0 <= i < targets.len() && is_snap_across(moved, targets[i], distance, x) && apart(
                    x,
                    moved.x as int,
                ) <= distance ==> apart(snapped.x as int, moved.x as int) <= apart(
                    x,
                    moved.x as int,
                )
        }),
{
    lemma_horizontal_snap(moved, targets, distance);
}

/// Snapping beside targets treats both axes alike: exchanging the axes of all rectangles exchanges
/// the axes of what comes of it.
pub proof fn law_snapping_treats_axes_alike(
    moved: Geometry,
    image: Geometry,
    targets: Seq<Geometry>,
    images: Seq<Geometry>,
    distance: int,
)
    requires
        arrange_laws::transposes(moved, image),
        targets.len() == images.len(),
        forall|i: int|
            0 <= i < targets.len() ==> arrange_laws::transposes(targets[i], #[trigger] images[i]),
    ensures
        arrange_laws::transposes(
            moved.snapped_beside(targets, distance),
            image.snapped_beside(images, distance),
        ),
{
    lemma_exchanged_snaps(moved, image, targets, images, distance);
}

proof fn lemma_exchanged_snaps(
    moved: Geometry,
    image: Geometry,
    targets: Seq<Geometry>,
    images: Seq<Geometry>,
    distance: int,
)
    requires
        arrange_laws::transposes(moved, image),
        targets.len() == images.len(),
        forall|i: int|
            0 <= i < targets.len() ==> arrange_laws::transposes(targets[i], #[trigger] images[i]),
    ensures
        geometry::target_snaps(image, images, distance).0 == geometry::target_snaps(
            moved,
            targets,
            distance,
        ).1,
        geometry::target_snaps(image, images, distance).1 == geometry::target_snaps(
            moved,
            targets,
            distance,
        ).0,
    decreases targets.len(),
{
    if targets.len() > 0 {
        let fewer = targets.drop_last();
        let others = images.drop_last();
        assert forall|i: int| 0 <= i < fewer.len() implies arrange_laws::transposes(
            fewer[i],
            #[trigger] others[i],
        ) by {
            assert(arrange_laws::transposes(targets[i], images[i]));
        }
        lemma_exchanged_snaps(moved, image, fewer, others, distance);
        assert(arrange_laws::transposes(
            targets[targets.len() - 1],
            images[images.len() - 1],
        ));
    }
}

} // verus!
