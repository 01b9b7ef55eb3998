//! Initial placement of windows among the ones already visible.

use vstd::prelude::*;

use crate::geometry;
use crate::geometry::{
    clamp_placement_axis, geometries_intersect, geometry_bottom, geometry_contains,
    geometry_right, shared_span, Geometry,
};
use crate::num;
use crate::size::Size;

verus! {

/// The fixed cost of covering one more window.
pub const OVERLAP_PENALTY: u128 = 6_000;

/// Adds to a score, stopping at the largest score.
pub open spec fn raised_score(score: int, area: int) -> int {
    num::lesser(score + area + OVERLAP_PENALTY, u128::MAX as int)
}

/// The cost of placing a candidate: for every obstacle it covers, the covered
/// area and a fixed penalty.
pub open spec fn overlap_score(candidate: Geometry, obstacles: Seq<Geometry>) -> int
    decreases obstacles.len(),
{
    if obstacles.len() == 0 {
        0
    } else {
        let before = overlap_score(candidate, obstacles.drop_last());
        let area = geometry::shared_area(candidate, obstacles.last());
        if area > 0 {
            raised_score(before, area)
        } else {
            before
        }
    }
}

/// The obstacles whose interior meets the bounds, in order.
pub open spec fn obstacles_within(obstacles: Seq<Geometry>, bounds: Geometry) -> Seq<Geometry>
    decreases obstacles.len(),
{
    if obstacles.len() == 0 {
        Seq::empty()
    } else {
        let before = obstacles_within(obstacles.drop_last(), bounds);
        if obstacles.last().meets(bounds) {
            before.push(obstacles.last())
        } else {
            before
        }
    }
}

/// The first index from `start` on whose edge is at least `value`, or the
/// length when there is none.
pub open spec fn first_at_least(edges: Seq<i64>, value: int, start: nat) -> nat
    decreases edges.len() - start,
{
    if start >= edges.len() {
        edges.len()
    } else if edges[start as int] >= value {
        start
    } else {
        first_at_least(edges, value, start + 1)
    }
}

/// An increasing sequence with a value put in its place, unless it is there.
pub open spec fn with_edge(edges: Seq<i64>, value: i64) -> Seq<i64> {
    let index = first_at_least(edges, value as int, 0);
    if index < edges.len() && edges[index as int] == value {
        edges
    } else {
        edges.insert(index as int, value)
    }
}

/// The distinct horizontal edges of bounds and obstacles, in increasing order.
pub open spec fn vertical_lines(bounds: Geometry, obstacles: Seq<Geometry>) -> Seq<i64>
    decreases obstacles.len(),
{
    if obstacles.len() == 0 {
        with_edge(with_edge(Seq::empty(), bounds.x as i64), bounds.right() as i64)
    } else {
        let before = vertical_lines(bounds, obstacles.drop_last());
        let last = obstacles.last();
        with_edge(with_edge(before, last.x as i64), last.right() as i64)
    }
}

/// The distinct vertical edges of bounds and obstacles, in increasing order.
pub open spec fn horizontal_lines(bounds: Geometry, obstacles: Seq<Geometry>) -> Seq<i64>
    decreases obstacles.len(),
{
    if obstacles.len() == 0 {
        with_edge(with_edge(Seq::empty(), bounds.y as i64), bounds.bottom() as i64)
    } else {
        let before = horizontal_lines(bounds, obstacles.drop_last());
        let last = obstacles.last();
        with_edge(with_edge(before, last.y as i64), last.bottom() as i64)
    }
}

/// A placement considered so far and its score.
pub struct Choice {
    /// The placement.
    pub placement: Geometry,
    /// Its score; the largest score before anything was considered.
    pub score: u128,
}

/// The fixed inputs of one placement search.
pub struct Search {
    /// Outer size to place.
    pub size: Size,
    /// Area to place it in.
    pub bounds: Geometry,
    /// Obstacles that meet the area.
    pub obstacles: Seq<Geometry>,
}

impl Search {
    /// Whether a position is representable and keeps the window in bounds.
    pub open spec fn admits(self, x: int, y: int) -> bool {
        &&& i32::MIN <= x <= i32::MAX
        &&& i32::MIN <= y <= i32::MAX
        &&& self.bounds.encloses(self.at(x, y))
    }

    /// The window at a position.
    pub open spec fn at(self, x: int, y: int) -> Geometry {
        geometry::rect(x, y, self.size.width as int, self.size.height as int)
    }

    /// The cheaper of the choice so far and an admitted position.
    pub open spec fn considered(self, choice: Choice, x: int, y: int) -> Choice {
        if self.admits(x, y) && overlap_score(self.at(x, y), self.obstacles) < choice.score {
            Choice {
                placement: self.at(x, y),
                score: overlap_score(self.at(x, y), self.obstacles) as u128,
            }
        } else {
            choice
        }
    }

    /// The four corners of a window put on a crossing of two lines.
    pub open spec fn crossing(self, choice: Choice, x: int, y: int) -> Choice {
        let width = self.size.width as int;
        let height = self.size.height as int;
        let first = self.considered(choice, x, y);
        let second = self.considered(first, x, y - height);
        let third = self.considered(second, x - width, y);
        self.considered(third, x - width, y - height)
    }

    /// All crossings of one vertical line.
    pub open spec fn along(self, choice: Choice, x: int, ys: Seq<i64>) -> Choice
        decreases ys.len(),
    {
        if ys.len() == 0 {
            choice
        } else {
            self.crossing(self.along(choice, x, ys.drop_last()), x, ys.last() as int)
        }
    }

    /// All crossings of a grid, line by line.
    pub open spec fn across(self, choice: Choice, xs: Seq<i64>, ys: Seq<i64>) -> Choice
        decreases xs.len(),
    {
        if xs.len() == 0 {
            choice
        } else {
            self.along(self.across(choice, xs.drop_last(), ys), xs.last() as int, ys)
        }
    }

    /// The choice before any crossing was considered.
    pub open spec fn initial(self) -> Choice {
        Choice { placement: self.at(self.bounds.x as int, self.bounds.y as int), score: u128::MAX }
    }

    /// The first cheapest crossing of the grid.
    pub open spec fn best(self) -> Choice {
        self.across(
            self.initial(),
            vertical_lines(self.bounds, self.obstacles),
            horizontal_lines(self.bounds, self.obstacles),
        )
    }
}

/// Whether the rectangle of a placement's corner and the given dimensions is
/// representable, lies in bounds, and covers nothing.
pub open spec fn is_free_field(
    placement: Geometry,
    bounds: Geometry,
    obstacles: Seq<Geometry>,
    width: int,
    height: int,
) -> bool {
    let field = geometry::rect(placement.x as int, placement.y as int, width, height);
    &&& 0 <= width <= u32::MAX
    &&& 0 <= height <= u32::MAX
    &&& bounds.encloses(field)
    &&& overlap_score(field, obstacles) == 0
}

/// How far a free field reaches right from an edge.
pub open spec fn reach_right(
    placement: Geometry,
    bounds: Geometry,
    obstacles: Seq<Geometry>,
    edges: Seq<i64>,
    height: int,
    index: nat,
) -> nat
    decreases edges.len() - index,
{
    if index + 1 < edges.len() && is_free_field(
        placement,
        bounds,
        obstacles,
        edges[index as int + 1] - placement.x,
        height,
    ) {
        reach_right(placement, bounds, obstacles, edges, height, index + 1)
    } else {
        index
    }
}

/// How far a free field reaches down from an edge.
pub open spec fn reach_down(
    placement: Geometry,
    bounds: Geometry,
    obstacles: Seq<Geometry>,
    edges: Seq<i64>,
    width: int,
    index: nat,
) -> nat
    decreases edges.len() - index,
{
    if index + 1 < edges.len() && is_free_field(
        placement,
        bounds,
        obstacles,
        width,
        edges[index as int + 1] - placement.y,
    ) {
        reach_down(placement, bounds, obstacles, edges, width, index + 1)
    } else {
        index
    }
}

/// A coordinate when it is representable, another one when it is not.
pub open spec fn representable_or(value: int, fallback: int) -> int {
    if i32::MIN <= value <= i32::MAX {
        value
    } else {
        fallback
    }
}

/// A placement centered in the free field that starts at its corner. The field
/// grows past its first edges only on an axis that can grow alone.
pub open spec fn centered_in_field(
    placement: Geometry,
    bounds: Geometry,
    obstacles: Seq<Geometry>,
    xs: Seq<i64>,
    ys: Seq<i64>,
) -> Geometry {
    let right = first_at_least(xs, placement.right(), 0);
    let bottom = first_at_least(ys, placement.bottom(), 0);
    let width = xs[right as int] - placement.x;
    let height = ys[bottom as int] - placement.y;
    if right >= xs.len() || bottom >= ys.len() || !(0 <= width <= u32::MAX) || !(0 <= height
        <= u32::MAX) {
        placement
    } else {
        let wide = reach_right(placement, bounds, obstacles, xs, height, right);
        let deep = reach_down(placement, bounds, obstacles, ys, width, bottom);
        let field_width = if wide != right && deep == bottom {
            xs[wide as int] - placement.x
        } else {
            width
        };
        let field_height = if wide == right && deep != bottom {
            ys[deep as int] - placement.y
        } else {
            height
        };
        geometry::rect(
            representable_or(
                placement.x + num::half(field_width - placement.width),
                placement.x as int,
            ),
            representable_or(
                placement.y + num::half(field_height - placement.height),
                placement.y as int,
            ),
            placement.width as int,
            placement.height as int,
        )
    }
}

/// Where a window of the given size is placed.
pub open spec fn placed(
    size: Size,
    bounds: Geometry,
    obstacles: Seq<Geometry>,
    center_free_space: bool,
) -> Geometry {
    let corner = geometry::rect(
        bounds.x as int,
        bounds.y as int,
        size.width as int,
        size.height as int,
    );
    let relevant = obstacles_within(obstacles, bounds);
    let search = Search { size, bounds, obstacles: relevant };
    if size.width > bounds.width || size.height > bounds.height {
        corner
    } else if relevant.len() == 0 {
        if center_free_space {
            centered_on(size, bounds, bounds)
        } else {
            corner
        }
    } else if center_free_space && search.best().score == 0 {
        centered_in_field(
            search.best().placement,
            bounds,
            relevant,
            vertical_lines(bounds, relevant),
            horizontal_lines(bounds, relevant),
        )
    } else {
        search.best().placement
    }
}

/// Whether no obstacle has an empty side.
pub open spec fn are_solid(obstacles: Seq<Geometry>) -> bool {
    forall|i: int|
        0 <= i < obstacles.len() ==> (#[trigger] obstacles[i]).width > 0 && obstacles[i].height > 0
}

/// Whether a placement meets no obstacle.
pub open spec fn is_clear(placement: Geometry, obstacles: Seq<Geometry>) -> bool {
    forall|i: int| 0 <= i < obstacles.len() ==> !placement.meets(#[trigger] obstacles[i])
}

/// Whether a window at a position lies in bounds and meets no obstacle.
pub open spec fn is_free_place(
    size: Size,
    bounds: Geometry,
    obstacles: Seq<Geometry>,
    x: i32,
    y: i32,
) -> bool {
    let window = geometry::rect(x as int, y as int, size.width as int, size.height as int);
    bounds.encloses(window) && is_clear(window, obstacles)
}

/// Whether a stretch begins or ends at an end of another one.
pub open spec fn shares_an_end(position: int, length: int, start: int, end: int) -> bool {
    position == start || position == end || position + length == start || position + length == end
}

/// Whether a window at a position has a vertical and a horizontal side on a side of the bounds or
/// of an obstacle that meets them.
pub open spec fn is_on_edges(
    size: Size,
    bounds: Geometry,
    obstacles: Seq<Geometry>,
    x: i32,
    y: i32,
) -> bool {
    &&& shares_an_end(
        x as int,
        size.width as int,
        bounds.x as int,
        bounds.x + bounds.width,
    ) || exists|i: int|
        #![trigger obstacles[i]]
        0 <= i < obstacles.len() && obstacles[i].meets(bounds) && shares_an_end(
            x as int,
            size.width as int,
            obstacles[i].x as int,
            obstacles[i].x + obstacles[i].width,
        )
    &&& shares_an_end(
        y as int,
        size.height as int,
        bounds.y as int,
        bounds.y + bounds.height,
    ) || exists|i: int|
        #![trigger obstacles[i]]
        0 <= i < obstacles.len() && obstacles[i].meets(bounds) && shares_an_end(
            y as int,
            size.height as int,
            obstacles[i].y as int,
            obstacles[i].y + obstacles[i].height,
        )
}

/// Places an outer window rectangle on the least-overlap edge grid.
///
/// Candidate positions are derived from visible obstacle and work-area edges.
/// Overlapping an additional window carries a fixed penalty, matching the
/// useful Openbox behavior that prefers one substantial overlap over covering
/// several clients through narrow gaps.
#[must_use]
pub fn smart_placement(
    size: Size,
    bounds: Geometry,
    obstacles: &[Geometry],
    center_free_space: bool,
) -> (placement: Geometry)
    ensures
        placement == placed(size, bounds, obstacles@, center_free_space),
        size.width > 0 && size.height > 0 && are_solid(obstacles@) && (exists|x: i32, y: i32|
            is_free_place(size, bounds, obstacles@, x, y)) ==> bounds.encloses(placement)
            && is_clear(placement, obstacles@),
        1 <= size.width <= bounds.width && 1 <= size.height <= bounds.height && (are_solid(
            obstacles@,
        ) || !center_free_space) ==> {
            &&& bounds.encloses(placement)
            &&& placement.width == size.width && placement.height == size.height
            &&& forall|x: i32, y: i32|
                #![trigger is_on_edges(size, bounds, obstacles@, x, y)]
                is_on_edges(size, bounds, obstacles@, x, y) && bounds.encloses(
                    geometry::rect(x as int, y as int, size.width as int, size.height as int),
                ) ==> overlap_score(placement, obstacles@) <= overlap_score(
                    geometry::rect(x as int, y as int, size.width as int, size.height as int),
                    obstacles@,
                )
        },
{
    proof {
        if 1 <= size.width <= bounds.width && 1 <= size.height <= bounds.height && (are_solid(
            obstacles@,
        ) || !center_free_space) {
            lemma_placement_is_cheapest(size, bounds, obstacles@, center_free_space);
        }
        if size.width > 0 && size.height > 0 && are_solid(obstacles@) && (exists|x: i32, y: i32|
            is_free_place(size, bounds, obstacles@, x, y)) {
            let (x, y) = choose|x: i32, y: i32| is_free_place(size, bounds, obstacles@, x, y);
            law_a_free_place_is_found(size, bounds, obstacles@, center_free_space, x, y);
        }
    }
    if size.width > bounds.width || size.height > bounds.height {
        return Geometry::new(bounds.x, bounds.y, size.width, size.height);
    }
    let relevant: Vec<Geometry> = relevant_obstacles(obstacles, bounds);
    if relevant.len() == 0 {
        return if center_free_space {
            centered_placement(size, bounds, bounds)
        } else {
            Geometry::new(bounds.x, bounds.y, size.width, size.height)
        };
    }
    let mut x_edges: Vec<i64> = Vec::new();
    let mut y_edges: Vec<i64> = Vec::new();
    add_edge(&mut x_edges, bounds.x as i64);
    add_edge(&mut x_edges, geometry_right(bounds));
    add_edge(&mut y_edges, bounds.y as i64);
    add_edge(&mut y_edges, geometry_bottom(bounds));
    let mut index: usize = 0;
    assert(relevant@.take(0) =~= Seq::<Geometry>::empty());
    while index < relevant.len()
        invariant
            index <= relevant.len(),
            x_edges@ == vertical_lines(bounds, relevant@.take(index as int)),
            y_edges@ == horizontal_lines(bounds, relevant@.take(index as int)),
        decreases relevant.len() - index,
    {
        let obstacle: Geometry = relevant[index];
        assert(relevant@.take(index + 1).drop_last() =~= relevant@.take(index as int));
        add_edge(&mut x_edges, obstacle.x as i64);
        add_edge(&mut x_edges, geometry_right(obstacle));
        add_edge(&mut y_edges, obstacle.y as i64);
        add_edge(&mut y_edges, geometry_bottom(obstacle));
        index += 1;
    }
    assert(relevant@.take(index as int) =~= relevant@);
    proof {
        lemma_lines_are_positions(bounds, relevant@);
    }
    let best: Choice = search_grid(size, bounds, &relevant, &x_edges, &y_edges);
    if center_free_space && best.score == 0 {
        center_in_free_field(best.placement, bounds, &relevant, &x_edges, &y_edges)
    } else {
        best.placement
    }
}

/// The window centered on an anchor and moved inside bounds.
pub open spec fn centered_on(size: Size, bounds: Geometry, anchor: Geometry) -> Geometry {
    geometry::rect(
        geometry::placed_within(
            anchor.x + anchor.width / 2 - size.width / 2,
            bounds.x as int,
            bounds.width as int,
            size.width as int,
        ),
        geometry::placed_within(
            anchor.y + anchor.height / 2 - size.height / 2,
            bounds.y as int,
            bounds.height as int,
            size.height as int,
        ),
        size.width as int,
        size.height as int,
    )
}

/// Centers an outer window rectangle over an anchor and clamps it to bounds.
///
/// Passing the work area itself as `anchor` centers on the complete work area.
#[must_use]
pub fn centered_placement(size: Size, bounds: Geometry, anchor: Geometry) -> (placement: Geometry)
    ensures
        placement == centered_on(size, bounds, anchor),
{
    let centered_x: i64 = anchor.x as i64 + (anchor.width / 2) as i64 - (size.width / 2) as i64;
    let centered_y: i64 = anchor.y as i64 + (anchor.height / 2) as i64 - (size.height / 2) as i64;
    Geometry::new(
        clamp_placement_axis(centered_x, bounds.x, bounds.width, size.width),
        clamp_placement_axis(centered_y, bounds.y, bounds.height, size.height),
        size.width,
        size.height,
    )
}

fn relevant_obstacles(obstacles: &[Geometry], bounds: Geometry) -> (relevant: Vec<Geometry>)
    ensures
        relevant@ == obstacles_within(obstacles@, bounds),
{
    let mut relevant: Vec<Geometry> = Vec::new();
    let mut index: usize = 0;
    while index < obstacles.len()
        invariant
            index <= obstacles.len(),
            relevant@ == obstacles_within(obstacles@.take(index as int), bounds),
        decreases obstacles.len() - index,
    {
        assert(obstacles@.take(index + 1).drop_last() =~= obstacles@.take(index as int));
        if geometries_intersect(obstacles[index], bounds) {
            relevant.push(obstacles[index]);
        }
        index += 1;
    }
    assert(obstacles@.take(index as int) =~= obstacles@);
    relevant
}

fn lower_index(edges: &Vec<i64>, value: i64) -> (index: usize)
    ensures
        index == first_at_least(edges@, value as int, 0),
        index <= edges@.len(),
        forall|i: int| 0 <= i < index ==> edges@[i] < value,
        index < edges@.len() ==> edges@[index as int] >= value,
{
    let mut index: usize = 0;
    while index < edges.len()
        invariant
            index <= edges.len(),
            forall|i: int| 0 <= i < index ==> edges@[i] < value,
            first_at_least(edges@, value as int, 0) == first_at_least(
                edges@,
                value as int,
                index as nat,
            ),
        decreases edges.len() - index,
    {
        if edges[index] >= value {
            return index;
        }
        index += 1;
    }
    index
}

fn add_edge(edges: &mut Vec<i64>, value: i64)
    ensures
        final(edges)@ == with_edge(old(edges)@, value),
{
    let index: usize = lower_index(edges, value);
    if index < edges.len() && edges[index] == value {
        return;
    }
    edges.insert(index, value);
}

/// Whether every line is an edge position of some rectangle.
pub open spec fn are_positions(edges: Seq<i64>) -> bool {
    forall|i: int| 0 <= i < edges.len() ==> i32::MIN <= #[trigger] edges[i] < 0x2_0000_0000
}

proof fn lemma_with_edge_position(edges: Seq<i64>, value: i64)
    requires
        are_positions(edges),
        i32::MIN <= value < 0x2_0000_0000,
    ensures
        are_positions(with_edge(edges, value)),
{
    let index = first_at_least(edges, value as int, 0);
    lemma_first_at_least_range(edges, value as int, 0);
    let inserted = edges.insert(index as int, value);
    assert forall|i: int| 0 <= i < inserted.len() implies i32::MIN <= #[trigger] inserted[i]
        < 0x2_0000_0000 by {
        if i < index {
            assert(inserted[i] == edges[i]);
        } else if i > index {
            assert(inserted[i] == edges[i - 1]);
        }
    }
}

proof fn lemma_first_at_least_range(edges: Seq<i64>, value: int, start: nat)
    ensures
        start <= edges.len() ==> start <= first_at_least(edges, value, start) <= edges.len(),
        first_at_least(edges, value, start) <= edges.len(),
    decreases edges.len() - start,
{
    if start < edges.len() && edges[start as int] < value {
        lemma_first_at_least_range(edges, value, start + 1);
    }
}

proof fn lemma_lines_are_positions(bounds: Geometry, obstacles: Seq<Geometry>)
    ensures
        are_positions(vertical_lines(bounds, obstacles)),
        are_positions(horizontal_lines(bounds, obstacles)),
    decreases obstacles.len(),
{
    if obstacles.len() == 0 {
        let none = Seq::<i64>::empty();
        lemma_with_edge_position(none, bounds.x as i64);
        lemma_with_edge_position(with_edge(none, bounds.x as i64), bounds.right() as i64);
        lemma_with_edge_position(none, bounds.y as i64);
        lemma_with_edge_position(with_edge(none, bounds.y as i64), bounds.bottom() as i64);
    } else {
        lemma_lines_are_positions(bounds, obstacles.drop_last());
        let last = obstacles.last();
        let xs = vertical_lines(bounds, obstacles.drop_last());
        let ys = horizontal_lines(bounds, obstacles.drop_last());
        lemma_with_edge_position(xs, last.x as i64);
        lemma_with_edge_position(with_edge(xs, last.x as i64), last.right() as i64);
        lemma_with_edge_position(ys, last.y as i64);
        lemma_with_edge_position(with_edge(ys, last.y as i64), last.bottom() as i64);
    }
}

/// A choice that costs nothing survives every further crossing.
proof fn lemma_free_choice_stays(search: Search, choice: Choice, x: int, ys: Seq<i64>)
    requires
        choice.score == 0,
    ensures
        search.along(choice, x, ys) == choice,
    decreases ys.len(),
{
    if ys.len() > 0 {
        lemma_free_choice_stays(search, choice, x, ys.drop_last());
        lemma_free_crossing(search, choice, x, ys.last() as int);
    }
}

proof fn lemma_free_crossing(search: Search, choice: Choice, x: int, y: int)
    requires
        choice.score == 0,
    ensures
        search.crossing(choice, x, y) == choice,
{
    let width = search.size.width as int;
    let height = search.size.height as int;
    lemma_score_range(search.at(x, y), search.obstacles);
    lemma_score_range(search.at(x, y - height), search.obstacles);
    lemma_score_range(search.at(x - width, y), search.obstacles);
    lemma_score_range(search.at(x - width, y - height), search.obstacles);
}

proof fn lemma_score_range(candidate: Geometry, obstacles: Seq<Geometry>)
    ensures
        0 <= overlap_score(candidate, obstacles) <= u128::MAX,
    decreases obstacles.len(),
{
    if obstacles.len() > 0 {
        lemma_score_range(candidate, obstacles.drop_last());
    }
}

/// Considering the first lines only gives the same free choice as all lines.
proof fn lemma_free_prefix_along(
    search: Search,
    choice: Choice,
    x: int,
    ys: Seq<i64>,
    count: int,
)
    requires
        0 <= count <= ys.len(),
        search.along(choice, x, ys.take(count)).score == 0,
    ensures
        search.along(choice, x, ys) == search.along(choice, x, ys.take(count)),
    decreases ys.len() - count,
{
    if count == ys.len() {
        assert(ys.take(count) =~= ys);
    } else {
        let next = ys.take(count + 1);
        assert(next.drop_last() =~= ys.take(count));
        lemma_free_crossing(search, search.along(choice, x, ys.take(count)), x, next.last() as int);
        lemma_free_prefix_along(search, choice, x, ys, count + 1);
    }
}

proof fn lemma_free_prefix_across(
    search: Search,
    choice: Choice,
    xs: Seq<i64>,
    ys: Seq<i64>,
    count: int,
)
    requires
        0 <= count <= xs.len(),
        search.across(choice, xs.take(count), ys).score == 0,
    ensures
        search.across(choice, xs, ys) == search.across(choice, xs.take(count), ys),
    decreases xs.len() - count,
{
    if count == xs.len() {
        assert(xs.take(count) =~= xs);
    } else {
        let next = xs.take(count + 1);
        assert(next.drop_last() =~= xs.take(count));
        lemma_free_choice_stays(
            search,
            search.across(choice, xs.take(count), ys),
            next.last() as int,
            ys,
        );
        lemma_free_prefix_across(search, choice, xs, ys, count + 1);
    }
}

fn search_grid(
    size: Size,
    bounds: Geometry,
    obstacles: &Vec<Geometry>,
    x_edges: &Vec<i64>,
    y_edges: &Vec<i64>,
) -> (best: Choice)
    requires
        are_positions(x_edges@),
        are_positions(y_edges@),
    ensures
        ({
            let search = Search { size, bounds, obstacles: obstacles@ };
            best == search.across(search.initial(), x_edges@, y_edges@)
        }),
{
    let ghost search = Search { size, bounds, obstacles: obstacles@ };
    let mut best: Choice = Choice {
        placement: Geometry::new(bounds.x, bounds.y, size.width, size.height),
        score: u128::MAX,
    };
    let wide: u32 = num::max_u32(size.width, 1);
    let mut column: usize = 0;
    while column < x_edges.len() && best.score != 0
        invariant
            column <= x_edges.len(),
            wide == num::non_empty(size.width as int),
            are_positions(x_edges@),
            are_positions(y_edges@),
            search == (Search { size, bounds, obstacles: obstacles@ }),
            best == search.across(search.initial(), x_edges@.take(column as int), y_edges@),
        decreases x_edges.len() - column,
    {
        let x: i64 = x_edges[column];
        assert(x_edges@.take(column + 1).drop_last() =~= x_edges@.take(column as int));
        let ghost before = best;
        let left: i64 = x - size.width as i64;
        let here: Vec<(Geometry, u64)> = column_overlaps(x, wide, obstacles);
        let back: Vec<(Geometry, u64)> = column_overlaps(left, wide, obstacles);
        let mut row: usize = 0;
        while row < y_edges.len() && best.score != 0
            invariant
                row <= y_edges.len(),
                are_positions(y_edges@),
                i32::MIN <= x < 0x2_0000_0000,
                left == x - size.width,
                wide == num::non_empty(size.width as int),
                search == (Search { size, bounds, obstacles: obstacles@ }),
                is_column(x as int, wide, obstacles@, here@),
                is_column(left as int, wide, obstacles@, back@),
                best == search.along(before, x as int, y_edges@.take(row as int)),
            decreases y_edges.len() - row,
        {
            let y: i64 = y_edges[row];
            assert(y_edges@.take(row + 1).drop_last() =~= y_edges@.take(row as int));
            let above: i64 = y - size.height as i64;
            best = consider(size, bounds, obstacles, &here, best, x, y);
            best = consider(size, bounds, obstacles, &here, best, x, above);
            best = consider(size, bounds, obstacles, &back, best, left, y);
            best = consider(size, bounds, obstacles, &back, best, left, above);
            row += 1;
        }
        proof {
            if best.score == 0 {
                lemma_free_prefix_along(search, before, x as int, y_edges@, row as int);
            } else {
                assert(y_edges@.take(row as int) =~= y_edges@);
            }
        }
        column += 1;
    }
    proof {
        if best.score == 0 {
            lemma_free_prefix_across(
                search,
                search.initial(),
                x_edges@,
                y_edges@,
                column as int,
            );
        } else {
            assert(x_edges@.take(column as int) =~= x_edges@);
        }
    }
    best
}

/// Whether a cached column belongs to a position, when that is representable.
pub open spec fn is_column(
    x: int,
    width: u32,
    obstacles: Seq<Geometry>,
    column: Seq<(Geometry, u64)>,
) -> bool {
    i32::MIN <= x <= i32::MAX ==> column == horizontal_overlaps(x, width as int, obstacles)
}

fn column_overlaps(x: i64, width: u32, obstacles: &Vec<Geometry>) -> (column: Vec<(Geometry, u64)>)
    ensures
        is_column(x as int, width, obstacles@, column@),
{
    if i32::MIN as i64 <= x && x <= i32::MAX as i64 {
        horizontal_placement_overlaps(x as i32, width, obstacles.as_slice())
    } else {
        Vec::new()
    }
}

fn consider(
    size: Size,
    bounds: Geometry,
    obstacles: &Vec<Geometry>,
    column: &Vec<(Geometry, u64)>,
    best: Choice,
    x: i64,
    y: i64,
) -> (r: Choice)
    requires
        is_column(x as int, num::non_empty(size.width as int) as u32, obstacles@, column@),
    ensures
        r == (Search { size, bounds, obstacles: obstacles@ }).considered(best, x as int, y as int),
{
    if x < i32::MIN as i64 || x > i32::MAX as i64 || y < i32::MIN as i64 || y > i32::MAX as i64 {
        return best;
    }
    let candidate: Geometry = Geometry::new(x as i32, y as i32, size.width, size.height);
    if !geometry_contains(bounds, candidate) {
        return best;
    }
    proof {
        lemma_column_score(candidate, obstacles@);
        lemma_column_widths(candidate.x as int, candidate.width as int, obstacles@);
        lemma_score_range(candidate, obstacles@);
        lemma_bounded_score(
            candidate.y as int,
            candidate.height as int,
            column@,
            best.score as int,
        );
    }
    let score: u128 = placement_overlap_score_in_column(
        candidate.y,
        candidate.height,
        column.as_slice(),
        best.score,
    );
    if score < best.score {
        Choice { placement: candidate, score }
    } else {
        best
    }
}

/// The obstacles that share a column with a window, each with the shared width.
pub open spec fn horizontal_overlaps(x: int, width: int, obstacles: Seq<Geometry>) -> Seq<
    (Geometry, u64),
>
    decreases obstacles.len(),
{
    if obstacles.len() == 0 {
        Seq::empty()
    } else {
        let before = horizontal_overlaps(x, width, obstacles.drop_last());
        let last = obstacles.last();
        let shared = geometry::shared_length(x, x + width, last.x as int, last.right());
        if shared > 0 {
            before.push((last, shared as u64))
        } else {
            before
        }
    }
}

/// The area that a column entry shares with a vertical span.
pub open spec fn entry_area(y: int, height: int, entry: (Geometry, u64)) -> int {
    entry.1 * geometry::shared_length(y, y + height, entry.0.y as int, entry.0.bottom())
}

/// Whether a column entry meets a vertical span.
pub open spec fn entry_meets(y: int, height: int, entry: (Geometry, u64)) -> bool {
    geometry::shared_length(y, y + height, entry.0.y as int, entry.0.bottom()) > 0
}

/// The score of a vertical span among the entries of a column.
pub open spec fn column_score(y: int, height: int, column: Seq<(Geometry, u64)>) -> int
    decreases column.len(),
{
    if column.len() == 0 {
        0
    } else {
        let before = column_score(y, height, column.drop_last());
        if entry_meets(y, height, column.last()) {
            raised_score(before, entry_area(y, height, column.last()))
        } else {
            before
        }
    }
}

/// The score reached, and whether the upper bound ended the count before the
/// remaining entries.
pub open spec fn bounded_column_score(
    y: int,
    height: int,
    column: Seq<(Geometry, u64)>,
    upper_bound: int,
) -> (int, bool)
    decreases column.len(),
{
    if column.len() == 0 {
        (0, false)
    } else {
        let before = bounded_column_score(y, height, column.drop_last(), upper_bound);
        if before.1 || !entry_meets(y, height, column.last()) {
            before
        } else {
            let score = raised_score(before.0, entry_area(y, height, column.last()));
            (score, score >= upper_bound)
        }
    }
}

/// Whether the widths of a column are widths of rectangles.
pub open spec fn has_widths(column: Seq<(Geometry, u64)>) -> bool {
    forall|i: int| 0 <= i < column.len() ==> (#[trigger] column[i]).1 <= u32::MAX
}

proof fn lemma_column_widths(x: int, width: int, obstacles: Seq<Geometry>)
    requires
        width <= u32::MAX,
    ensures
        has_widths(horizontal_overlaps(x, width, obstacles)),
    decreases obstacles.len(),
{
    if obstacles.len() > 0 {
        lemma_column_widths(x, width, obstacles.drop_last());
    }
}

/// Scoring a column is scoring the whole window.
proof fn lemma_column_score(candidate: Geometry, obstacles: Seq<Geometry>)
    ensures
        column_score(
            candidate.y as int,
            candidate.height as int,
            horizontal_overlaps(candidate.x as int, candidate.width as int, obstacles),
        ) == overlap_score(candidate, obstacles),
    decreases obstacles.len(),
{
    if obstacles.len() > 0 {
        lemma_column_score(candidate, obstacles.drop_last());
        let last = obstacles.last();
        let before = horizontal_overlaps(
            candidate.x as int,
            candidate.width as int,
            obstacles.drop_last(),
        );
        let shared_width = geometry::shared_length(
            candidate.x as int,
            candidate.right(),
            last.x as int,
            last.right(),
        );
        let shared_height = geometry::shared_length(
            candidate.y as int,
            candidate.bottom(),
            last.y as int,
            last.bottom(),
        );
        assert(shared_width > 0 && shared_height > 0 ==> shared_width * shared_height > 0)
            by (nonlinear_arith);
        assert(shared_width == 0 || shared_height == 0 ==> shared_width * shared_height == 0)
            by (nonlinear_arith);
        if shared_width > 0 {
            let entry = (last, shared_width as u64);
            assert(before.push(entry).drop_last() =~= before);
            assert(entry.1 == shared_width);
        }
    }
}

/// A bounded count is the score when that stays below the bound, and reaches
/// the bound when it does not.
proof fn lemma_bounded_score(
    y: int,
    height: int,
    column: Seq<(Geometry, u64)>,
    upper_bound: int,
)
    ensures
        ({
            let bounded = bounded_column_score(y, height, column, upper_bound);
            let score = column_score(y, height, column);
            &&& bounded.0 <= score
            &&& bounded.1 ==> bounded.0 >= upper_bound
            &&& !bounded.1 ==> bounded.0 == score
            &&& 0 <= bounded.0 <= u128::MAX
            &&& 0 <= score <= u128::MAX
        }),
    decreases column.len(),
{
    if column.len() > 0 {
        lemma_bounded_score(y, height, column.drop_last(), upper_bound);
        let entry = column.last();
        let shared = geometry::shared_length(y, y + height, entry.0.y as int, entry.0.bottom());
        assert(entry.1 * shared >= 0) by (nonlinear_arith)
            requires
                shared >= 0,
        ;
    }
}

/// Returns the obstacles that share a column with a window at `x`, each with
/// the width they share.
#[must_use]
pub fn horizontal_placement_overlaps(x: i32, width: u32, obstacles: &[Geometry]) -> (overlaps: Vec<
    (Geometry, u64),
>)
    ensures
        overlaps@ == horizontal_overlaps(x as int, width as int, obstacles@),
{
    let mut overlaps: Vec<(Geometry, u64)> = Vec::new();
    let mut index: usize = 0;
    while index < obstacles.len()
        invariant
            index <= obstacles.len(),
            overlaps@ == horizontal_overlaps(x as int, width as int, obstacles@.take(index as int)),
        decreases obstacles.len() - index,
    {
        assert(obstacles@.take(index + 1).drop_last() =~= obstacles@.take(index as int));
        let obstacle: Geometry = obstacles[index];
        let shared: u64 = shared_span(x, width, obstacle.x, obstacle.width);
        if shared > 0 {
            overlaps.push((obstacle, shared));
        }
        index += 1;
    }
    assert(obstacles@.take(index as int) =~= obstacles@);
    overlaps
}

/// Once the bound ended a count, further entries change nothing.
proof fn lemma_ended_count_stays(
    y: int,
    height: int,
    column: Seq<(Geometry, u64)>,
    upper_bound: int,
    count: int,
)
    requires
        0 <= count <= column.len(),
        bounded_column_score(y, height, column.take(count), upper_bound).1,
    ensures
        bounded_column_score(y, height, column, upper_bound) == bounded_column_score(
            y,
            height,
            column.take(count),
            upper_bound,
        ),
    decreases column.len() - count,
{
    if count == column.len() {
        assert(column.take(count) =~= column);
    } else {
        assert(column.take(count + 1).drop_last() =~= column.take(count));
        lemma_ended_count_stays(y, height, column, upper_bound, count + 1);
    }
}

/// Scores a vertical span among the obstacles of a column. Counting ends once
/// the score reaches the upper bound.
#[must_use]
pub fn placement_overlap_score_in_column(
    y: i32,
    height: u32,
    overlaps: &[(Geometry, u64)],
    upper_bound: u128,
) -> (score: u128)
    requires
        has_widths(overlaps@),
    ensures
        score == bounded_column_score(y as int, height as int, overlaps@, upper_bound as int).0,
{
    let mut score: u128 = 0;
    let mut index: usize = 0;
    while index < overlaps.len()
        invariant
            index <= overlaps.len(),
            has_widths(overlaps@),
            (score as int, false) == bounded_column_score(
                y as int,
                height as int,
                overlaps@.take(index as int),
                upper_bound as int,
            ),
        decreases overlaps.len() - index,
    {
        assert(overlaps@.take(index + 1).drop_last() =~= overlaps@.take(index as int));
        let (obstacle, width): (Geometry, u64) = overlaps[index];
        let shared: u64 = shared_span(y, height, obstacle.y, obstacle.height);
        if shared > 0 {
            assert(has_widths(overlaps@) && overlaps@[index as int].1 == width);
            assert(0 <= width * shared <= 0xffff_ffff * 0xffff_ffff) by (nonlinear_arith)
                requires
                    width <= 0xffff_ffff,
                    shared <= 0xffff_ffff,
            ;
            let area: u128 = (width * shared) as u128;
            score = score.saturating_add(area).saturating_add(OVERLAP_PENALTY);
            if score >= upper_bound {
                proof {
                    lemma_ended_count_stays(
                        y as int,
                        height as int,
                        overlaps@,
                        upper_bound as int,
                        index + 1,
                    );
                }
                return score;
            }
        }
        index += 1;
    }
    assert(overlaps@.take(index as int) =~= overlaps@);
    score
}

/// Returns the cost of covering obstacles with a candidate placement.
#[must_use]
pub fn placement_overlap_score(candidate: Geometry, obstacles: &[Geometry]) -> (score: u128)
    ensures
        score == overlap_score(candidate, obstacles@),
{
    let mut score: u128 = 0;
    let mut index: usize = 0;
    while index < obstacles.len()
        invariant
            index <= obstacles.len(),
            score == overlap_score(candidate, obstacles@.take(index as int)),
        decreases obstacles.len() - index,
    {
        assert(obstacles@.take(index + 1).drop_last() =~= obstacles@.take(index as int));
        let area: u64 = geometry::intersection_area(candidate, obstacles[index]);
        if area > 0 {
            score = score.saturating_add(area as u128).saturating_add(OVERLAP_PENALTY);
        }
        index += 1;
    }
    assert(obstacles@.take(index as int) =~= obstacles@);
    score
}

fn field_is_free(
    placement: Geometry,
    bounds: Geometry,
    obstacles: &Vec<Geometry>,
    width: i64,
    height: i64,
) -> (r: bool)
    ensures
        r == is_free_field(placement, bounds, obstacles@, width as int, height as int),
{
    if width < 0 || width > u32::MAX as i64 || height < 0 || height > u32::MAX as i64 {
        return false;
    }
    let field: Geometry = Geometry::new(placement.x, placement.y, width as u32, height as u32);
    geometry_contains(bounds, field) && placement_overlap_score(field, obstacles.as_slice()) == 0
}

fn center_in_free_field(
    placement: Geometry,
    bounds: Geometry,
    obstacles: &Vec<Geometry>,
    x_edges: &Vec<i64>,
    y_edges: &Vec<i64>,
) -> (r: Geometry)
    requires
        are_positions(x_edges@),
        are_positions(y_edges@),
    ensures
        r == centered_in_field(placement, bounds, obstacles@, x_edges@, y_edges@),
{
    let right_index: usize = lower_index(x_edges, geometry_right(placement));
    let bottom_index: usize = lower_index(y_edges, geometry_bottom(placement));
    if right_index >= x_edges.len() || bottom_index >= y_edges.len() {
        return placement;
    }
    let initial_width: i64 = x_edges[right_index] - placement.x as i64;
    let initial_height: i64 = y_edges[bottom_index] - placement.y as i64;
    if initial_width < 0 || initial_width > u32::MAX as i64 || initial_height < 0 || initial_height
        > u32::MAX as i64 {
        return placement;
    }
    let mut expanded_right: usize = right_index;
    while expanded_right + 1 < x_edges.len() && field_is_free(
        placement,
        bounds,
        obstacles,
        x_edges[expanded_right + 1] - placement.x as i64,
        initial_height,
    )
        invariant
            expanded_right < x_edges.len(),
            are_positions(x_edges@),
            reach_right(
                placement,
                bounds,
                obstacles@,
                x_edges@,
                initial_height as int,
                right_index as nat,
            ) == reach_right(
                placement,
                bounds,
                obstacles@,
                x_edges@,
                initial_height as int,
                expanded_right as nat,
            ),
        decreases x_edges.len() - expanded_right,
    {
        expanded_right += 1;
    }
    let mut expanded_bottom: usize = bottom_index;
    while expanded_bottom + 1 < y_edges.len() && field_is_free(
        placement,
        bounds,
        obstacles,
        initial_width,
        y_edges[expanded_bottom + 1] - placement.y as i64,
    )
        invariant
            expanded_bottom < y_edges.len(),
            are_positions(y_edges@),
            reach_down(
                placement,
                bounds,
                obstacles@,
                y_edges@,
                initial_width as int,
                bottom_index as nat,
            ) == reach_down(
                placement,
                bounds,
                obstacles@,
                y_edges@,
                initial_width as int,
                expanded_bottom as nat,
            ),
        decreases y_edges.len() - expanded_bottom,
    {
        expanded_bottom += 1;
    }
    let mut field_width: i64 = initial_width;
    let mut field_height: i64 = initial_height;
    if expanded_right == right_index && expanded_bottom != bottom_index {
        field_height = y_edges[expanded_bottom] - placement.y as i64;
    } else if expanded_right != right_index && expanded_bottom == bottom_index {
        field_width = x_edges[expanded_right] - placement.x as i64;
    }
    let x: i64 = placement.x as i64 + num::half_i64(field_width - placement.width as i64);
    let y: i64 = placement.y as i64 + num::half_i64(field_height - placement.height as i64);
    Geometry::new(
        coordinate_or(x, placement.x),
        coordinate_or(y, placement.y),
        placement.width,
        placement.height,
    )
}

fn coordinate_or(value: i64, fallback: i32) -> (r: i32)
    ensures
        r == representable_or(value as int, fallback as int),
{
    if i32::MIN as i64 <= value && value <= i32::MAX as i64 {
        value as i32
    } else {
        fallback
    }
}

/// The search never costs more than any admitted crossing corner it considers.
proof fn lemma_considered_is_cheapest(search: Search, choice: Choice, x: int, y: int)
    ensures
        search.considered(choice, x, y).score <= choice.score,
        search.admits(x, y) ==> search.considered(choice, x, y).score <= overlap_score(
            search.at(x, y),
            search.obstacles,
        ),
{
    lemma_score_range(search.at(x, y), search.obstacles);
}

/// A choice whose placement lies in bounds and whose score is its cost.
pub open spec fn is_settled(search: Search, choice: Choice) -> bool {
    &&& search.bounds.encloses(choice.placement)
    &&& choice.score == u128::MAX || choice.score == overlap_score(
        choice.placement,
        search.obstacles,
    )
}

proof fn lemma_crossing_settled(search: Search, choice: Choice, x: int, y: int)
    requires
        is_settled(search, choice),
    ensures
        is_settled(search, search.crossing(choice, x, y)),
        search.crossing(choice, x, y).score <= choice.score,
        forall|cx: int, cy: int|
            #![trigger search.admits(cx, cy)]
            (cx == x || cx == x - search.size.width) && (cy == y || cy == y - search.size.height)
                && search.admits(cx, cy) ==> search.crossing(choice, x, y).score <= overlap_score(
                search.at(cx, cy),
                search.obstacles,
            ),
{
    let width = search.size.width as int;
    let height = search.size.height as int;
    let first = search.considered(choice, x, y);
    let second = search.considered(first, x, y - height);
    let third = search.considered(second, x - width, y);
    lemma_considered_is_cheapest(search, choice, x, y);
    lemma_considered_is_cheapest(search, first, x, y - height);
    lemma_considered_is_cheapest(search, second, x - width, y);
    lemma_considered_is_cheapest(search, third, x - width, y - height);
}

proof fn lemma_along_settled(search: Search, choice: Choice, x: int, ys: Seq<i64>)
    requires
        is_settled(search, choice),
    ensures
        is_settled(search, search.along(choice, x, ys)),
        search.along(choice, x, ys).score <= choice.score,
        forall|j: int, cx: int, cy: int|
            #![trigger search.admits(cx, cy), ys[j]]
            0 <= j < ys.len() && (cx == x || cx == x - search.size.width) && (cy == ys[j] || cy
                == ys[j] - search.size.height) && search.admits(cx, cy) ==> search.along(
                choice,
                x,
                ys,
            ).score <= overlap_score(search.at(cx, cy), search.obstacles),
    decreases ys.len(),
{
    if ys.len() > 0 {
        let before = search.along(choice, x, ys.drop_last());
        lemma_along_settled(search, choice, x, ys.drop_last());
        lemma_crossing_settled(search, before, x, ys.last() as int);
        assert forall|j: int, cx: int, cy: int|
            #![trigger search.admits(cx, cy), ys[j]]
            0 <= j < ys.len() && (cx == x || cx == x - search.size.width) && (cy == ys[j] || cy
                == ys[j] - search.size.height) && search.admits(cx, cy) implies search.along(
            choice,
            x,
            ys,
        ).score <= overlap_score(search.at(cx, cy), search.obstacles) by {
            if j < ys.len() - 1 {
                assert(ys.drop_last()[j] == ys[j]);
            }
        }
    }
}

proof fn lemma_across_settled(search: Search, choice: Choice, xs: Seq<i64>, ys: Seq<i64>)
    requires
        is_settled(search, choice),
    ensures
        is_settled(search, search.across(choice, xs, ys)),
        search.across(choice, xs, ys).score <= choice.score,
        forall|i: int, j: int, cx: int, cy: int|
            #![trigger search.admits(cx, cy), xs[i], ys[j]]
            0 <= i < xs.len() && 0 <= j < ys.len() && (cx == xs[i] || cx == xs[i]
                - search.size.width) && (cy == ys[j] || cy == ys[j] - search.size.height)
                && search.admits(cx, cy) ==> search.across(choice, xs, ys).score <= overlap_score(
                search.at(cx, cy),
                search.obstacles,
            ),
    decreases xs.len(),
{
    if xs.len() > 0 {
        let before = search.across(choice, xs.drop_last(), ys);
        lemma_across_settled(search, choice, xs.drop_last(), ys);
        lemma_along_settled(search, before, xs.last() as int, ys);
        assert forall|i: int, j: int, cx: int, cy: int|
            #![trigger search.admits(cx, cy), xs[i], ys[j]]
            0 <= i < xs.len() && 0 <= j < ys.len() && (cx == xs[i] || cx == xs[i]
                - search.size.width) && (cy == ys[j] || cy == ys[j] - search.size.height)
                && search.admits(cx, cy) implies search.across(choice, xs, ys).score
            <= overlap_score(search.at(cx, cy), search.obstacles) by {
            if i < xs.len() - 1 {
                assert(xs.drop_last()[i] == xs[i]);
            }
        }
    }
}

/// The chosen placement lies inside bounds that can hold it, and no corner of
/// a grid crossing inside bounds costs less.
pub proof fn law_choice_is_cheapest(search: Search)
    requires
        1 <= search.size.width <= search.bounds.width,
        1 <= search.size.height <= search.bounds.height,
    ensures
        search.bounds.encloses(search.best().placement),
        search.best().score == u128::MAX || search.best().score == overlap_score(
            search.best().placement,
            search.obstacles,
        ),
        forall|i: int, j: int, x: int, y: int|
            #![trigger search.admits(x, y), vertical_lines(search.bounds, search.obstacles)[i], horizontal_lines(search.bounds, search.obstacles)[j]]
            ({
                let xs = vertical_lines(search.bounds, search.obstacles);
                let ys = horizontal_lines(search.bounds, search.obstacles);
                0 <= i < xs.len() && 0 <= j < ys.len() && (x == xs[i] || x == xs[i]
                    - search.size.width) && (y == ys[j] || y == ys[j] - search.size.height)
                    && search.admits(x, y)
            }) ==> search.best().score <= overlap_score(search.at(x, y), search.obstacles),
{
    lemma_across_settled(
        search,
        search.initial(),
        vertical_lines(search.bounds, search.obstacles),
        horizontal_lines(search.bounds, search.obstacles),
    );
}

/// A placement costs nothing exactly when it covers no obstacle, all of them
/// being non-empty.
pub proof fn law_free_means_uncovered(candidate: Geometry, obstacles: Seq<Geometry>)
    requires
        candidate.width > 0,
        candidate.height > 0,
        forall|i: int|
            0 <= i < obstacles.len() ==> (#[trigger] obstacles[i]).width > 0 && obstacles[i].height
                > 0,
    ensures
        overlap_score(candidate, obstacles) == 0 <==> forall|i: int|
            0 <= i < obstacles.len() ==> !candidate.meets(#[trigger] obstacles[i]),
    decreases obstacles.len(),
{
    if obstacles.len() > 0 {
        let before = obstacles.drop_last();
        let last = obstacles.last();
        law_free_means_uncovered(candidate, before);
        lemma_score_range(candidate, before);
        lemma_area_means_meeting(candidate, last);
        assert(obstacles[obstacles.len() - 1] == last);
        assert forall|i: int| 0 <= i < before.len() implies before[i]
            == #[trigger] obstacles[i] by {}
        if overlap_score(candidate, obstacles) == 0 {
            assert forall|i: int| 0 <= i < obstacles.len() implies !candidate.meets(
                #[trigger] obstacles[i],
            ) by {
                if i < before.len() {
                    assert(before[i] == obstacles[i]);
                }
            }
        }
        if forall|i: int| 0 <= i < obstacles.len() ==> !candidate.meets(#[trigger] obstacles[i]) {
            assert forall|i: int| 0 <= i < before.len() implies !candidate.meets(
                #[trigger] before[i],
            ) by {
                assert(before[i] == obstacles[i]);
            }
        }
    }
}

/// Non-empty rectangles share area exactly when their interiors meet.
proof fn lemma_area_means_meeting(a: Geometry, b: Geometry)
    ensures
        geometry::shared_area(a, b) > 0 ==> a.meets(b),
        a.meets(b) && a.width > 0 && a.height > 0 && b.width > 0 && b.height > 0
            ==> geometry::shared_area(a, b) > 0,
{
    let width = geometry::shared_length(a.x as int, a.right(), b.x as int, b.right());
    let height = geometry::shared_length(a.y as int, a.bottom(), b.y as int, b.bottom());
    assert(width > 0 && height > 0 <==> width * height > 0) by (nonlinear_arith)
        requires
            width >= 0,
            height >= 0,
    ;
}

/// Whether values increase along a sequence.
spec fn increases(edges: Seq<i64>) -> bool {
    forall|i: int, j: int| 0 <= i < j < edges.len() ==> #[trigger] edges[i] < #[trigger] edges[j]
}

/// The first edge that is at least a value parts the smaller edges from the others.
proof fn lemma_first_at_least(edges: Seq<i64>, value: int, start: nat)
    requires
        increases(edges),
        start <= edges.len(),
        forall|i: int| 0 <= i < start ==> #[trigger] edges[i] < value,
    ensures
        ({
            let index = first_at_least(edges, value, start);
            &&& start <= index <= edges.len()
            &&& forall|i: int| 0 <= i < index ==> #[trigger] edges[i] < value
            &&& forall|i: int| index <= i < edges.len() ==> #[trigger] edges[i] >= value
        }),
    decreases edges.len() - start,
{
    if start < edges.len() && edges[start as int] < value {
        lemma_first_at_least(edges, value, start + 1);
    } else if start < edges.len() {
        assert forall|i: int| start <= i < edges.len() implies #[trigger] edges[i] >= value by {
            if i > start {
                assert(edges[start as int] < edges[i]);
            }
        }
    }
}

/// An added edge is there, no other one goes, and the edges still increase.
proof fn lemma_with_edge(edges: Seq<i64>, value: i64)
    requires
        increases(edges),
    ensures
        increases(with_edge(edges, value)),
        with_edge(edges, value).contains(value),
        forall|edge: i64| edges.contains(edge)
            ==> #[trigger] with_edge(edges, value).contains(edge),
{
    let index = first_at_least(edges, value as int, 0) as int;
    lemma_first_at_least(edges, value as int, 0);
    if index < edges.len() && edges[index] == value {
        assert(with_edge(edges, value)[index] == value);
    } else {
        let after = edges.insert(index, value);
        assert(after[index] == value);
        assert forall|i: int, j: int| 0 <= i < j < after.len() implies #[trigger] after[i]
            < #[trigger] after[j] by {
            if i < index {
                assert(after[i] == edges[i]);
            } else if i > index {
                assert(after[i] == edges[i - 1]);
            }
            if j < index {
                assert(after[j] == edges[j]);
            } else if j > index {
                assert(after[j] == edges[j - 1]);
            }
        }
        assert forall|edge: i64| edges.contains(edge) implies #[trigger] after.contains(edge) by {
            let i = choose|i: int| 0 <= i < edges.len() && edges[i] == edge;
            if i < index {
                assert(after[i] == edge);
            } else {
                assert(after[i + 1] == edge);
            }
        }
    }
}

/// Whether both ends of a span are edges.
spec fn has_ends(edges: Seq<i64>, start: int, end: int) -> bool {
    edges.contains(start as i64) && edges.contains(end as i64)
}

/// The vertical lines increase, and hold both sides of the bounds and of each obstacle.
proof fn lemma_vertical_lines(bounds: Geometry, obstacles: Seq<Geometry>)
    ensures
        ({
            let xs = vertical_lines(bounds, obstacles);
            &&& increases(xs)
            &&& has_ends(xs, bounds.x as int, bounds.right())
            &&& forall|i: int|
                0 <= i < obstacles.len() ==> has_ends(
                    xs,
                    (#[trigger] obstacles[i]).x as int,
                    obstacles[i].right(),
                )
        }),
    decreases obstacles.len(),
{
    if obstacles.len() == 0 {
        let none = Seq::<i64>::empty();
        lemma_with_edge(none, bounds.x as i64);
        lemma_with_edge(with_edge(none, bounds.x as i64), bounds.right() as i64);
    } else {
        let before = vertical_lines(bounds, obstacles.drop_last());
        let last = obstacles.last();
        lemma_vertical_lines(bounds, obstacles.drop_last());
        lemma_with_edge(before, last.x as i64);
        lemma_with_edge(with_edge(before, last.x as i64), last.right() as i64);
        let xs = vertical_lines(bounds, obstacles);
        assert forall|i: int| 0 <= i < obstacles.len() implies has_ends(
            xs,
            (#[trigger] obstacles[i]).x as int,
            obstacles[i].right(),
        ) by {
            if i < obstacles.len() - 1 {
                assert(obstacles.drop_last()[i] == obstacles[i]);
            }
        }
    }
}

/// The horizontal lines increase, and hold both sides of the bounds and of each obstacle.
proof fn lemma_horizontal_lines(bounds: Geometry, obstacles: Seq<Geometry>)
    ensures
        ({
            let ys = horizontal_lines(bounds, obstacles);
            &&& increases(ys)
            &&& has_ends(ys, bounds.y as int, bounds.bottom())
            &&& forall|i: int|
                0 <= i < obstacles.len() ==> has_ends(
                    ys,
                    (#[trigger] obstacles[i]).y as int,
                    obstacles[i].bottom(),
                )
        }),
    decreases obstacles.len(),
{
    if obstacles.len() == 0 {
        let none = Seq::<i64>::empty();
        lemma_with_edge(none, bounds.y as i64);
        lemma_with_edge(with_edge(none, bounds.y as i64), bounds.bottom() as i64);
    } else {
        let before = horizontal_lines(bounds, obstacles.drop_last());
        let last = obstacles.last();
        lemma_horizontal_lines(bounds, obstacles.drop_last());
        lemma_with_edge(before, last.y as i64);
        lemma_with_edge(with_edge(before, last.y as i64), last.bottom() as i64);
        let ys = horizontal_lines(bounds, obstacles);
        assert forall|i: int| 0 <= i < obstacles.len() implies has_ends(
            ys,
            (#[trigger] obstacles[i]).y as int,
            obstacles[i].bottom(),
        ) by {
            if i < obstacles.len() - 1 {
                assert(obstacles.drop_last()[i] == obstacles[i]);
            }
        }
    }
}

/// The greatest edge up to a value, where there is one: no edge lies between them.
proof fn lemma_edge_before(edges: Seq<i64>, lowest: int, value: int) -> (index: int)
    requires
        increases(edges),
        i64::MIN <= lowest <= i64::MAX,
        edges.contains(lowest as i64),
        lowest <= value,
    ensures
        0 <= index < edges.len(),
        lowest <= edges[index] <= value,
        forall|edge: i64| #[trigger] edges.contains(edge) && edge > edges[index] ==> edge > value,
{
    let next = first_at_least(edges, value + 1, 0) as int;
    lemma_first_at_least(edges, value + 1, 0);
    let at = choose|i: int| 0 <= i < edges.len() && edges[i] == lowest;
    assert(at < next);
    assert(edges[next - 1] >= lowest) by {
        if at < next - 1 {
            assert(edges[at] < edges[next - 1]);
        }
    }
    assert forall|edge: i64| #[trigger] edges.contains(edge) && edge > edges[next - 1] implies edge
        > value by {
        let i = choose|i: int| 0 <= i < edges.len() && edges[i] == edge;
        if i < next - 1 {
            assert(edges[i] < edges[next - 1]);
        }
    }
    next - 1
}

/// The relevant obstacles are those of the obstacles that meet the bounds.
proof fn lemma_obstacles_within(obstacles: Seq<Geometry>, bounds: Geometry)
    ensures
        forall|i: int|
            0 <= i < obstacles_within(obstacles, bounds).len() ==> obstacles.contains(
                #[trigger] obstacles_within(obstacles, bounds)[i],
            ),
        forall|i: int|
            0 <= i < obstacles.len() && (#[trigger] obstacles[i]).meets(bounds)
                ==> obstacles_within(obstacles, bounds).contains(obstacles[i]),
    decreases obstacles.len(),
{
    if obstacles.len() > 0 {
        let shorter = obstacles.drop_last();
        let before = obstacles_within(shorter, bounds);
        let after = obstacles_within(obstacles, bounds);
        lemma_obstacles_within(shorter, bounds);
        assert forall|i: int| 0 <= i < after.len() implies obstacles.contains(
            #[trigger] after[i],
        ) by {
            if i < before.len() {
                assert(after[i] == before[i]);
                let k = choose|k: int| 0 <= k < shorter.len() && shorter[k] == before[i];
                assert(obstacles[k] == after[i]);
            } else {
                assert(obstacles[obstacles.len() - 1] == after[i]);
            }
        }
        assert forall|i: int|
            0 <= i < obstacles.len() && (#[trigger] obstacles[i]).meets(
                bounds,
            ) implies after.contains(obstacles[i]) by {
            if i < shorter.len() {
                assert(shorter[i] == obstacles[i]);
                let k = choose|k: int| 0 <= k < before.len() && before[k] == shorter[i];
                assert(after[k] == obstacles[i]);
            } else {
                assert(after[before.len() as int] == obstacles[i]);
            }
        }
    }
}

/// What meets no relevant obstacle and lies in bounds meets no obstacle.
proof fn lemma_relevant_obstacles_decide(
    placement: Geometry,
    bounds: Geometry,
    obstacles: Seq<Geometry>,
)
    requires
        bounds.encloses(placement),
        is_clear(placement, obstacles_within(obstacles, bounds)),
    ensures
        is_clear(placement, obstacles),
{
    let relevant = obstacles_within(obstacles, bounds);
    lemma_obstacles_within(obstacles, bounds);
    assert forall|i: int| 0 <= i < obstacles.len() implies !placement.meets(
        #[trigger] obstacles[i],
    ) by {
        if placement.meets(obstacles[i]) {
            assert(obstacles[i].meets(bounds));
            let k = choose|k: int| 0 <= k < relevant.len() && relevant[k] == obstacles[i];
            assert(!placement.meets(relevant[k]));
        }
    }
}

/// A free place slid to the nearest lines stays free, so the search finds one.
proof fn lemma_search_finds_a_free_place(search: Search, x: i32, y: i32)
    requires
        1 <= search.size.width <= search.bounds.width,
        1 <= search.size.height <= search.bounds.height,
        are_solid(search.obstacles),
        is_free_place(search.size, search.bounds, search.obstacles, x, y),
    ensures
        search.best().score == 0,
        search.bounds.encloses(search.best().placement),
        search.best().placement.width == search.size.width,
        search.best().placement.height == search.size.height,
        is_clear(search.best().placement, search.obstacles),
{
    let xs = vertical_lines(search.bounds, search.obstacles);
    let ys = horizontal_lines(search.bounds, search.obstacles);
    lemma_vertical_lines(search.bounds, search.obstacles);
    lemma_horizontal_lines(search.bounds, search.obstacles);
    let window = search.at(x as int, y as int);
    let i = lemma_edge_before(xs, search.bounds.x as int, x as int);
    let j = lemma_edge_before(ys, search.bounds.y as int, y as int);
    let slid = search.at(xs[i] as int, ys[j] as int);
    assert forall|k: int| 0 <= k < search.obstacles.len() implies !slid.meets(
        #[trigger] search.obstacles[k],
    ) by {
        let obstacle = search.obstacles[k];
        assert(has_ends(xs, obstacle.x as int, obstacle.right()));
        assert(has_ends(ys, obstacle.y as int, obstacle.bottom()));
        if slid.meets(obstacle) {
            assert(xs.contains(obstacle.right() as i64));
            assert(ys.contains(obstacle.bottom() as i64));
            assert(window.meets(obstacle));
        }
    }
    assert(search.admits(xs[i] as int, ys[j] as int));
    law_free_means_uncovered(slid, search.obstacles);
    law_choice_is_cheapest(search);
    lemma_best_keeps_size(search);
    law_free_means_uncovered(search.best().placement, search.obstacles);
}

/// Every choice of the search has the size of the window.
proof fn lemma_best_keeps_size(search: Search)
    requires
        1 <= search.size.width,
        1 <= search.size.height,
    ensures
        search.best().placement.width == search.size.width,
        search.best().placement.height == search.size.height,
{
    lemma_across_keeps_size(
        search,
        search.initial(),
        vertical_lines(search.bounds, search.obstacles),
        horizontal_lines(search.bounds, search.obstacles),
    );
}

proof fn lemma_across_keeps_size(search: Search, choice: Choice, xs: Seq<i64>, ys: Seq<i64>)
    requires
        1 <= search.size.width,
        1 <= search.size.height,
        choice.placement.width == search.size.width,
        choice.placement.height == search.size.height,
    ensures
        search.across(choice, xs, ys).placement.width == search.size.width,
        search.across(choice, xs, ys).placement.height == search.size.height,
    decreases xs.len(),
{
    if xs.len() > 0 {
        lemma_across_keeps_size(search, choice, xs.drop_last(), ys);
        lemma_along_keeps_size(
            search,
            search.across(choice, xs.drop_last(), ys),
            xs.last() as int,
            ys,
        );
    }
}

proof fn lemma_along_keeps_size(search: Search, choice: Choice, x: int, ys: Seq<i64>)
    requires
        1 <= search.size.width,
        1 <= search.size.height,
        choice.placement.width == search.size.width,
        choice.placement.height == search.size.height,
    ensures
        search.along(choice, x, ys).placement.width == search.size.width,
        search.along(choice, x, ys).placement.height == search.size.height,
    decreases ys.len(),
{
    if ys.len() > 0 {
        lemma_along_keeps_size(search, choice, x, ys.drop_last());
    }
}

/// A field that reaches right beyond its first edge is free.
proof fn lemma_reach_right(
    placement: Geometry,
    bounds: Geometry,
    obstacles: Seq<Geometry>,
    edges: Seq<i64>,
    height: int,
    index: nat,
)
    requires
        index < edges.len(),
    ensures
        ({
            let reached = reach_right(placement, bounds, obstacles, edges, height, index);
            &&& index <= reached < edges.len()
            &&& reached > index ==> is_free_field(
                placement,
                bounds,
                obstacles,
                edges[reached as int] - placement.x,
                height,
            )
        }),
    decreases edges.len() - index,
{
    if index + 1 < edges.len() && is_free_field(
        placement,
        bounds,
        obstacles,
        edges[index as int + 1] - placement.x,
        height,
    ) {
        lemma_reach_right(placement, bounds, obstacles, edges, height, index + 1);
    }
}

/// A field that reaches down beyond its first edge is free.
proof fn lemma_reach_down(
    placement: Geometry,
    bounds: Geometry,
    obstacles: Seq<Geometry>,
    edges: Seq<i64>,
    width: int,
    index: nat,
)
    requires
        index < edges.len(),
    ensures
        ({
            let reached = reach_down(placement, bounds, obstacles, edges, width, index);
            &&& index <= reached < edges.len()
            &&& reached > index ==> is_free_field(
                placement,
                bounds,
                obstacles,
                width,
                edges[reached as int] - placement.y,
            )
        }),
    decreases edges.len() - index,
{
    if index + 1 < edges.len() && is_free_field(
        placement,
        bounds,
        obstacles,
        width,
        edges[index as int + 1] - placement.y,
    ) {
        lemma_reach_down(placement, bounds, obstacles, edges, width, index + 1);
    }
}

/// What lies inside something clear is clear.
proof fn lemma_clear_inside(outer: Geometry, inner: Geometry, obstacles: Seq<Geometry>)
    requires
        outer.encloses(inner),
        is_clear(outer, obstacles),
    ensures
        is_clear(inner, obstacles),
{
    assert forall|i: int| 0 <= i < obstacles.len() implies !inner.meets(
        #[trigger] obstacles[i],
    ) by {
        assert(!outer.meets(obstacles[i]));
    }
}

/// The field between a clear placement and the next lines is clear and lies in bounds.
proof fn lemma_next_lines_bound_a_clear_field(
    placement: Geometry,
    bounds: Geometry,
    obstacles: Seq<Geometry>,
) -> (ends: (nat, nat))
    requires
        placement.width > 0,
        placement.height > 0,
        bounds.encloses(placement),
        is_clear(placement, obstacles),
    ensures
        ({
            let xs = vertical_lines(bounds, obstacles);
            let ys = horizontal_lines(bounds, obstacles);
            &&& ends.0 == first_at_least(xs, placement.right(), 0)
            &&& ends.1 == first_at_least(ys, placement.bottom(), 0)
            &&& ends.0 < xs.len()
            &&& ends.1 < ys.len()
            &&& placement.right() <= xs[ends.0 as int] <= bounds.right()
            &&& placement.bottom() <= ys[ends.1 as int] <= bounds.bottom()
            &&& is_clear(
                geometry::rect(
                    placement.x as int,
                    placement.y as int,
                    xs[ends.0 as int] - placement.x,
                    ys[ends.1 as int] - placement.y,
                ),
                obstacles,
            )
        }),
{
    let xs = vertical_lines(bounds, obstacles);
    let ys = horizontal_lines(bounds, obstacles);
    lemma_vertical_lines(bounds, obstacles);
    lemma_horizontal_lines(bounds, obstacles);
    let right = first_at_least(xs, placement.right(), 0);
    let bottom = first_at_least(ys, placement.bottom(), 0);
    lemma_first_at_least(xs, placement.right(), 0);
    lemma_first_at_least(ys, placement.bottom(), 0);
    let last_x = choose|i: int| 0 <= i < xs.len() && xs[i] == bounds.right() as i64;
    let last_y = choose|i: int| 0 <= i < ys.len() && ys[i] == bounds.bottom() as i64;
    assert(xs[last_x] == bounds.right());
    assert(ys[last_y] == bounds.bottom());
    assert(right <= last_x && bottom <= last_y);
    if right < last_x {
        assert(xs[right as int] < xs[last_x]);
    }
    if bottom < last_y {
        assert(ys[bottom as int] < ys[last_y]);
    }
    let field = geometry::rect(
        placement.x as int,
        placement.y as int,
        xs[right as int] - placement.x,
        ys[bottom as int] - placement.y,
    );
    assert forall|k: int| 0 <= k < obstacles.len() implies !field.meets(
        #[trigger] obstacles[k],
    ) by {
        let obstacle = obstacles[k];
        assert(has_ends(xs, obstacle.x as int, obstacle.right()));
        assert(has_ends(ys, obstacle.y as int, obstacle.bottom()));
        if field.meets(obstacle) {
            let i = choose|i: int| 0 <= i < xs.len() && xs[i] == obstacle.x as i64;
            let j = choose|j: int| 0 <= j < ys.len() && ys[j] == obstacle.y as i64;
            assert(xs[i] == obstacle.x && ys[j] == obstacle.y);
            assert(i < right) by {
                if i > right {
                    assert(xs[right as int] < xs[i]);
                }
            }
            assert(j < bottom) by {
                if j > bottom {
                    assert(ys[bottom as int] < ys[j]);
                }
            }
            assert(placement.meets(obstacle));
        }
    }
    (right, bottom)
}

/// The clear field in bounds in whose middle a clear placement is centered.
proof fn lemma_centered_field(
    placement: Geometry,
    bounds: Geometry,
    obstacles: Seq<Geometry>,
) -> (field: Geometry)
    requires
        placement.width > 0,
        placement.height > 0,
        are_solid(obstacles),
        bounds.encloses(placement),
        is_clear(placement, obstacles),
    ensures
        ({
            let centered = centered_in_field(
                placement,
                bounds,
                obstacles,
                vertical_lines(bounds, obstacles),
                horizontal_lines(bounds, obstacles),
            );
            &&& bounds.encloses(field) && is_clear(field, obstacles)
            &&& field.x == placement.x && field.y == placement.y
            &&& centered.width == placement.width && centered.height == placement.height
            &&& placement.x <= centered.x && placement.y <= centered.y
            &&& 2 * (centered.x - placement.x) + placement.width <= field.width
            &&& 2 * (centered.y - placement.y) + placement.height <= field.height
        }),
{
    let xs = vertical_lines(bounds, obstacles);
    let ys = horizontal_lines(bounds, obstacles);
    let (right, bottom) = lemma_next_lines_bound_a_clear_field(placement, bounds, obstacles);
    let width = xs[right as int] - placement.x;
    let height = ys[bottom as int] - placement.y;
    let wide = reach_right(placement, bounds, obstacles, xs, height, right);
    let deep = reach_down(placement, bounds, obstacles, ys, width, bottom);
    lemma_reach_right(placement, bounds, obstacles, xs, height, right);
    lemma_reach_down(placement, bounds, obstacles, ys, width, bottom);
    let field_width = if wide != right && deep == bottom {
        xs[wide as int] - placement.x
    } else {
        width
    };
    let field_height = if wide == right && deep != bottom {
        ys[deep as int] - placement.y
    } else {
        height
    };
    lemma_vertical_lines(bounds, obstacles);
    lemma_horizontal_lines(bounds, obstacles);
    assert(field_width >= width) by {
        if wide > right {
            assert(xs[right as int] < xs[wide as int]);
        }
    }
    assert(field_height >= height) by {
        if deep > bottom {
            assert(ys[bottom as int] < ys[deep as int]);
        }
    }
    let field = geometry::rect(
        placement.x as int,
        placement.y as int,
        field_width,
        field_height,
    );
    assert(field_width <= u32::MAX && field_height <= u32::MAX);
    assert(bounds.encloses(field));
    assert(is_clear(field, obstacles)) by {
        if field_width != width || field_height != height {
            law_free_means_uncovered(field, obstacles);
        }
    }
    field
}

/// Centering in its free field leaves a clear placement clear and in bounds.
proof fn lemma_centering_stays_clear(
    placement: Geometry,
    bounds: Geometry,
    obstacles: Seq<Geometry>,
)
    requires
        placement.width > 0,
        placement.height > 0,
        are_solid(obstacles),
        bounds.encloses(placement),
        is_clear(placement, obstacles),
    ensures
        ({
            let centered = centered_in_field(
                placement,
                bounds,
                obstacles,
                vertical_lines(bounds, obstacles),
                horizontal_lines(bounds, obstacles),
            );
            bounds.encloses(centered) && is_clear(centered, obstacles)
        }),
{
    let field = lemma_centered_field(placement, bounds, obstacles);
    let centered = centered_in_field(
        placement,
        bounds,
        obstacles,
        vertical_lines(bounds, obstacles),
        horizontal_lines(bounds, obstacles),
    );
    assert(field.encloses(centered));
    lemma_clear_inside(field, centered, obstacles);
}

/// Where a window can stand in bounds without meeting an obstacle, it is placed so, whether or not
/// free space is centered in.
pub proof fn law_a_free_place_is_found(
    size: Size,
    bounds: Geometry,
    obstacles: Seq<Geometry>,
    center_free_space: bool,
    x: i32,
    y: i32,
)
    requires
        size.width > 0,
        size.height > 0,
        are_solid(obstacles),
        is_free_place(size, bounds, obstacles, x, y),
    ensures
        bounds.encloses(placed(size, bounds, obstacles, center_free_space)),
        is_clear(placed(size, bounds, obstacles, center_free_space), obstacles),
{
    let relevant = obstacles_within(obstacles, bounds);
    let search = Search { size, bounds, obstacles: relevant };
    let result = placed(size, bounds, obstacles, center_free_space);
    let window = search.at(x as int, y as int);
    lemma_obstacles_within(obstacles, bounds);
    assert forall|i: int| 0 <= i < relevant.len() implies !window.meets(#[trigger] relevant[i])
        && relevant[i].width > 0 && relevant[i].height > 0 by {
        let k = choose|k: int| 0 <= k < obstacles.len() && obstacles[k] == relevant[i];
        assert(!window.meets(obstacles[k]));
    }
    assert(size.width <= bounds.width && size.height <= bounds.height);
    if relevant.len() > 0 {
        lemma_search_finds_a_free_place(search, x, y);
        if center_free_space {
            lemma_centering_stays_clear(search.best().placement, bounds, relevant);
        }
    }
    lemma_relevant_obstacles_decide(result, bounds, obstacles);
}

/// What does not meet the bounds costs nothing to a window inside them.
proof fn lemma_relevant_obstacles_cost(
    window: Geometry,
    bounds: Geometry,
    obstacles: Seq<Geometry>,
)
    requires
        bounds.encloses(window),
    ensures
        overlap_score(window, obstacles_within(obstacles, bounds)) == overlap_score(
            window,
            obstacles,
        ),
    decreases obstacles.len(),
{
    if obstacles.len() > 0 {
        let before = obstacles_within(obstacles.drop_last(), bounds);
        let last = obstacles.last();
        lemma_relevant_obstacles_cost(window, bounds, obstacles.drop_last());
        lemma_area_means_meeting(window, last);
        if last.meets(bounds) {
            let after = before.push(last);
            assert(after.drop_last() =~= before);
            assert(after.last() == last);
        }
    }
}

/// Where a window on edges lies on the lines of the search.
proof fn lemma_edges_are_lines(
    size: Size,
    bounds: Geometry,
    obstacles: Seq<Geometry>,
    x: i32,
    y: i32,
) -> (found: (int, int))
    requires
        is_on_edges(size, bounds, obstacles, x, y),
    ensures
        ({
            let relevant = obstacles_within(obstacles, bounds);
            let xs = vertical_lines(bounds, relevant);
            let ys = horizontal_lines(bounds, relevant);
            let (i, j) = found;
            &&& 0 <= i < xs.len() && (x == xs[i] || x == xs[i] - size.width)
            &&& 0 <= j < ys.len() && (y == ys[j] || y == ys[j] - size.height)
        }),
{
    let relevant = obstacles_within(obstacles, bounds);
    let xs = vertical_lines(bounds, relevant);
    let ys = horizontal_lines(bounds, relevant);
    lemma_obstacles_within(obstacles, bounds);
    lemma_vertical_lines(bounds, relevant);
    lemma_horizontal_lines(bounds, relevant);
    let (left, right) = if shares_an_end(
        x as int,
        size.width as int,
        bounds.x as int,
        bounds.right(),
    ) {
        (bounds.x as int, bounds.right())
    } else {
        let i = choose|i: int|
            #![trigger obstacles[i]]
            0 <= i < obstacles.len() && obstacles[i].meets(bounds) && shares_an_end(
                x as int,
                size.width as int,
                obstacles[i].x as int,
                obstacles[i].x + obstacles[i].width,
            );
        let k = choose|k: int| 0 <= k < relevant.len() && relevant[k] == obstacles[i];
        assert(has_ends(xs, relevant[k].x as int, relevant[k].right()));
        (obstacles[i].x as int, obstacles[i].right())
    };
    let (top, bottom) = if shares_an_end(
        y as int,
        size.height as int,
        bounds.y as int,
        bounds.bottom(),
    ) {
        (bounds.y as int, bounds.bottom())
    } else {
        let i = choose|i: int|
            #![trigger obstacles[i]]
            0 <= i < obstacles.len() && obstacles[i].meets(bounds) && shares_an_end(
                y as int,
                size.height as int,
                obstacles[i].y as int,
                obstacles[i].y + obstacles[i].height,
            );
        let k = choose|k: int| 0 <= k < relevant.len() && relevant[k] == obstacles[i];
        assert(has_ends(ys, relevant[k].y as int, relevant[k].bottom()));
        (obstacles[i].y as int, obstacles[i].bottom())
    };
    let vertical = if x == left || x + size.width == left {
        left
    } else {
        right
    };
    let horizontal = if y == top || y + size.height == top {
        top
    } else {
        bottom
    };
    assert(xs.contains(vertical as i64));
    assert(ys.contains(horizontal as i64));
    (
        choose|i: int| 0 <= i < xs.len() && xs[i] == vertical as i64,
        choose|j: int| 0 <= j < ys.len() && ys[j] == horizontal as i64,
    )
}

/// The placement lies in bounds, has the size of the window, and costs no more than the search
/// found.
proof fn lemma_placement_cost(
    size: Size,
    bounds: Geometry,
    obstacles: Seq<Geometry>,
    center_free_space: bool,
)
    requires
        1 <= size.width <= bounds.width,
        1 <= size.height <= bounds.height,
        are_solid(obstacles) || !center_free_space,
    ensures
        ({
            let relevant = obstacles_within(obstacles, bounds);
            let placement = placed(size, bounds, obstacles, center_free_space);
            &&& bounds.encloses(placement)
            &&& placement.width == size.width && placement.height == size.height
            &&& relevant.len() == 0 ==> overlap_score(placement, obstacles) == 0
            &&& relevant.len() > 0 ==> overlap_score(placement, obstacles) <= (Search {
                size,
                bounds,
                obstacles: relevant,
            }).best().score
        }),
{
    let relevant = obstacles_within(obstacles, bounds);
    let search = Search { size, bounds, obstacles: relevant };
    let placement = placed(size, bounds, obstacles, center_free_space);
    if relevant.len() == 0 {
        lemma_relevant_obstacles_cost(placement, bounds, obstacles);
    } else {
        law_choice_is_cheapest(search);
        lemma_best_keeps_size(search);
        lemma_score_range(search.best().placement, relevant);
        if center_free_space && search.best().score == 0 {
            lemma_obstacles_within(obstacles, bounds);
            assert forall|i: int| 0 <= i < relevant.len() implies (#[trigger] relevant[i]).width > 0
                && relevant[i].height > 0 by {
                let k = choose|k: int| 0 <= k < obstacles.len() && obstacles[k] == relevant[i];
            }
            law_free_means_uncovered(search.best().placement, relevant);
            lemma_centering_stays_clear(search.best().placement, bounds, relevant);
            law_free_means_uncovered(placement, relevant);
        }
        lemma_relevant_obstacles_cost(placement, bounds, obstacles);
    }
}

/// No window in bounds that stands on edges costs less than the placement does.
proof fn lemma_placement_is_cheapest(
    size: Size,
    bounds: Geometry,
    obstacles: Seq<Geometry>,
    center_free_space: bool,
)
    requires
        1 <= size.width <= bounds.width,
        1 <= size.height <= bounds.height,
        are_solid(obstacles) || !center_free_space,
    ensures
        ({
            let placement = placed(size, bounds, obstacles, center_free_space);
            &&& bounds.encloses(placement)
            &&& placement.width == size.width && placement.height == size.height
            &&& forall|x: i32, y: i32|
                #![trigger is_on_edges(size, bounds, obstacles, x, y)]
                is_on_edges(size, bounds, obstacles, x, y) && bounds.encloses(
                    geometry::rect(x as int, y as int, size.width as int, size.height as int),
                ) ==> overlap_score(placement, obstacles) <= overlap_score(
                    geometry::rect(x as int, y as int, size.width as int, size.height as int),
                    obstacles,
                )
        }),
{
    let relevant = obstacles_within(obstacles, bounds);
    let search = Search { size, bounds, obstacles: relevant };
    let placement = placed(size, bounds, obstacles, center_free_space);
    lemma_placement_cost(size, bounds, obstacles, center_free_space);
    assert forall|x: i32, y: i32|
        #![trigger is_on_edges(size, bounds, obstacles, x, y)]
        is_on_edges(size, bounds, obstacles, x, y) && bounds.encloses(
            geometry::rect(x as int, y as int, size.width as int, size.height as int),
        ) implies overlap_score(placement, obstacles) <= overlap_score(
        geometry::rect(x as int, y as int, size.width as int, size.height as int),
        obstacles,
    ) by {
        let window = search.at(x as int, y as int);
        lemma_score_range(window, obstacles);
        lemma_relevant_obstacles_cost(window, bounds, obstacles);
        if relevant.len() > 0 {
            let (i, j) = lemma_edges_are_lines(size, bounds, obstacles, x, y);
            law_choice_is_cheapest(search);
            assert(search.admits(x as int, y as int));
            assert(vertical_lines(bounds, relevant)[i] == vertical_lines(bounds, relevant)[i]);
            assert(horizontal_lines(bounds, relevant)[j] == horizontal_lines(bounds, relevant)[j]);
        }
    }
}

/// Of all the windows in bounds with a side on a side of the bounds or of an obstacle that meets
/// them, on each axis, none covers less than the placement does: the cost is the covered area and
/// a penalty for each obstacle covered.
pub proof fn law_placements_cover_least(
    size: Size,
    bounds: Geometry,
    obstacles: Seq<Geometry>,
    center_free_space: bool,
    x: i32,
    y: i32,
)
    requires
        1 <= size.width <= bounds.width,
        1 <= size.height <= bounds.height,
        are_solid(obstacles) || !center_free_space,
        is_on_edges(size, bounds, obstacles, x, y),
        bounds.x <= x && x + size.width <= bounds.x + bounds.width,
        bounds.y <= y && y + size.height <= bounds.y + bounds.height,
    ensures
        overlap_score(placed(size, bounds, obstacles, center_free_space), obstacles)
            <= overlap_score(
            Geometry { x, y, width: size.width, height: size.height },
            obstacles,
        ),
{
    lemma_placement_is_cheapest(size, bounds, obstacles, center_free_space);
    assert(geometry::rect(x as int, y as int, size.width as int, size.height as int) == (Geometry {
        x,
        y,
        width: size.width,
        height: size.height,
    }));
}

/// Nothing covered costs nothing, and one more obstacle adds the area that it shares with the
/// window and six thousand, up to the largest score, if it shares any, and nothing if it does not.
pub proof fn law_covering_costs_area_and_a_penalty(
    window: Geometry,
    obstacles: Seq<Geometry>,
    another: Geometry,
)
    ensures
        overlap_score(window, Seq::empty()) == 0,
        ({
            let left = num::greater(window.x as int, another.x as int);
            let right = num::lesser(window.x + window.width, another.x + another.width);
            let top = num::greater(window.y as int, another.y as int);
            let bottom = num::lesser(window.y + window.height, another.y + another.height);
            let before = overlap_score(window, obstacles);
            let after = overlap_score(window, obstacles.push(another));
            &&& left < right && top < bottom && before + (right - left) * (bottom - top) + 6000
                <= u128::MAX ==> after == before + (right - left) * (bottom - top) + 6000
            &&& left < right && top < bottom && before + (right - left) * (bottom - top) + 6000
                > u128::MAX ==> after == u128::MAX
            &&& left >= right || top >= bottom ==> after == before
        }),
{
    assert(obstacles.push(another).drop_last() =~= obstacles);
    let width = geometry::shared_length(
        window.x as int,
        window.right(),
        another.x as int,
        another.right(),
    );
    let height = geometry::shared_length(
        window.y as int,
        window.bottom(),
        another.y as int,
        another.bottom(),
    );
    assert(width > 0 && height > 0 <==> width * height > 0) by (nonlinear_arith)
        requires
            width >= 0,
            height >= 0,
    ;
}

/// Lines before the bounds are considered without effect.
proof fn lemma_lines_before_bounds_along(search: Search, choice: Choice, x: int, ys: Seq<i64>)
    requires
        1 <= search.size.width,
        1 <= search.size.height,
        x < search.bounds.x || forall|j: int|
            0 <= j < ys.len() ==> #[trigger] ys[j] < search.bounds.y,
    ensures
        search.along(choice, x, ys) == choice,
    decreases ys.len(),
{
    if ys.len() > 0 {
        assert(ys[ys.len() - 1] == ys.last());
        assert forall|j: int| 0 <= j < ys.drop_last().len() implies #[trigger] ys.drop_last()[j]
            == ys[j] by {}
        lemma_lines_before_bounds_along(search, choice, x, ys.drop_last());
        let y = ys.last() as int;
        assert(!search.admits(x, y));
        assert(!search.admits(x, y - search.size.height));
        assert(!search.admits(x - search.size.width, y));
        assert(!search.admits(x - search.size.width, y - search.size.height));
    }
}

proof fn lemma_lines_before_bounds_across(
    search: Search,
    choice: Choice,
    xs: Seq<i64>,
    ys: Seq<i64>,
)
    requires
        1 <= search.size.width,
        1 <= search.size.height,
        forall|i: int| 0 <= i < xs.len() ==> #[trigger] xs[i] < search.bounds.x,
    ensures
        search.across(choice, xs, ys) == choice,
    decreases xs.len(),
{
    if xs.len() > 0 {
        assert(xs[xs.len() - 1] == xs.last());
        assert forall|i: int| 0 <= i < xs.drop_last().len() implies #[trigger] xs.drop_last()[i]
            == xs[i] by {}
        lemma_lines_before_bounds_across(search, choice, xs.drop_last(), ys);
        lemma_lines_before_bounds_along(search, choice, xs.last() as int, ys);
    }
}

/// A window that fits is put in the top left corner of the bounds where that is free, unless free
/// space is centered in: of places that cost nothing the first one is taken.
pub proof fn law_a_free_corner_is_taken(size: Size, bounds: Geometry, obstacles: Seq<Geometry>)
    requires
        1 <= size.width <= bounds.width,
        1 <= size.height <= bounds.height,
        overlap_score(
            Geometry { x: bounds.x, y: bounds.y, width: size.width, height: size.height },
            obstacles,
        ) == 0,
    ensures
        placed(size, bounds, obstacles, false) == (Geometry {
            x: bounds.x,
            y: bounds.y,
            width: size.width,
            height: size.height,
        }),
{
    let relevant = obstacles_within(obstacles, bounds);
    let search = Search { size, bounds, obstacles: relevant };
    let corner = search.at(bounds.x as int, bounds.y as int);
    lemma_relevant_obstacles_cost(corner, bounds, obstacles);
    if relevant.len() > 0 {
        let xs = vertical_lines(bounds, relevant);
        let ys = horizontal_lines(bounds, relevant);
        lemma_vertical_lines(bounds, relevant);
        lemma_horizontal_lines(bounds, relevant);
        let i = choose|i: int| 0 <= i < xs.len() && xs[i] == bounds.x as i64;
        let j = choose|j: int| 0 <= j < ys.len() && ys[j] == bounds.y as i64;
        let initial = search.initial();
        let x = bounds.x as int;
        lemma_lines_before_bounds_across(search, initial, xs.take(i), ys);
        lemma_lines_before_bounds_along(search, initial, x, ys.take(j));
        assert(ys.take(j + 1).drop_last() =~= ys.take(j));
        assert(ys.take(j + 1).last() == ys[j]);
        assert(search.admits(x, bounds.y as int));
        let taken = Choice { placement: corner, score: 0 };
        assert(search.considered(initial, x, bounds.y as int) == taken);
        lemma_score_range(search.at(x, bounds.y - size.height), relevant);
        lemma_score_range(search.at(x - size.width, bounds.y as int), relevant);
        lemma_score_range(search.at(x - size.width, bounds.y - size.height), relevant);
        assert(search.crossing(initial, x, bounds.y as int) == taken);
        assert(search.along(initial, x, ys.take(j + 1)) == taken);
        lemma_free_prefix_along(search, initial, x, ys, j + 1);
        assert(xs.take(i + 1).drop_last() =~= xs.take(i));
        assert(xs.take(i + 1).last() == xs[i]);
        assert(search.across(initial, xs.take(i + 1), ys) == taken);
        lemma_free_prefix_across(search, initial, xs, ys, i + 1);
    }
}

/// Centering in free space moves a window right and down from where it stands without centering,
/// into the middle of a clear part of the bounds that begins there: the clear part reaches as far
/// past the far sides as the window was moved.
pub proof fn law_centering_leaves_even_margins(
    size: Size,
    bounds: Geometry,
    obstacles: Seq<Geometry>,
    x: i32,
    y: i32,
)
    requires
        size.width > 0,
        size.height > 0,
        are_solid(obstacles),
        is_free_place(size, bounds, obstacles, x, y),
        exists|i: int| 0 <= i < obstacles.len() && (#[trigger] obstacles[i]).meets(bounds),
    ensures
        ({
            let corner = placed(size, bounds, obstacles, false);
            let centered = placed(size, bounds, obstacles, true);
            let right = centered.x - corner.x;
            let down = centered.y - corner.y;
            let field = geometry::rect(
                corner.x as int,
                corner.y as int,
                size.width + 2 * right,
                size.height + 2 * down,
            );
            &&& right >= 0 && down >= 0
            &&& centered.width == size.width && centered.height == size.height
            &&& size.width + 2 * right <= bounds.width && size.height + 2 * down <= bounds.height
            &&& bounds.encloses(field)
            &&& is_clear(field, obstacles)
        }),
{
    let relevant = obstacles_within(obstacles, bounds);
    let search = Search { size, bounds, obstacles: relevant };
    let window = search.at(x as int, y as int);
    lemma_obstacles_within(obstacles, bounds);
    assert forall|i: int| 0 <= i < relevant.len() implies !window.meets(#[trigger] relevant[i])
        && relevant[i].width > 0 && relevant[i].height > 0 by {
        let k = choose|k: int| 0 <= k < obstacles.len() && obstacles[k] == relevant[i];
        assert(!window.meets(obstacles[k]));
    }
    let met = choose|i: int| 0 <= i < obstacles.len() && (#[trigger] obstacles[i]).meets(bounds);
    assert(relevant.contains(obstacles[met]));
    lemma_search_finds_a_free_place(search, x, y);
    let field = lemma_centered_field(search.best().placement, bounds, relevant);
    let corner = placed(size, bounds, obstacles, false);
    let centered = placed(size, bounds, obstacles, true);
    let even = geometry::rect(
        corner.x as int,
        corner.y as int,
        size.width + 2 * (centered.x - corner.x),
        size.height + 2 * (centered.y - corner.y),
    );
    lemma_clear_inside(field, even, relevant);
    lemma_relevant_obstacles_decide(even, bounds, obstacles);
}

} // verus!
