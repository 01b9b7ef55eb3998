//! Workspace identity, arrangement, and assignment.

use vstd::prelude::*;

use crate::ids::WorkspaceId;
use crate::num;
use crate::num::{bounded_u32, max_u32};

verus! {

/// Relative direction through the configured workspace ring.
#[derive(Clone, Copy, Debug, PartialEq, Eq, Structural)]
pub enum WorkspaceDirection {
    /// Move toward lower indexes, wrapping from the first to the last.
    Previous,
    /// Move toward higher indexes, wrapping from the last to the first.
    Next,
    /// Move to the neighboring grid cell on the left.
    Left,
    /// Move to the neighboring grid cell on the right.
    Right,
    /// Move to the neighboring grid cell above.
    Up,
    /// Move to the neighboring grid cell below.
    Down,
}

/// Primary ordering used to place workspace indexes into a rectangular grid.
#[derive(Clone, Copy, Debug, Default, PartialEq, Eq, Structural)]
pub enum WorkspaceOrientation {
    /// Fill each row before advancing to the next row.
    #[default]
    Horizontal,
    /// Fill each column before advancing to the next column.
    Vertical,
}

/// Grid corner containing workspace zero.
#[derive(Clone, Copy, Debug, Default, PartialEq, Eq, Structural)]
pub enum WorkspaceCorner {
    /// Top-left corner.
    #[default]
    TopLeft,
    /// Top-right corner.
    TopRight,
    /// Bottom-right corner.
    BottomRight,
    /// Bottom-left corner.
    BottomLeft,
}

impl WorkspaceCorner {
    /// Whether columns count from the right.
    pub open spec fn is_right(self) -> bool {
        self == WorkspaceCorner::TopRight || self == WorkspaceCorner::BottomRight
    }

    /// Whether rows count from the bottom.
    pub open spec fn is_bottom(self) -> bool {
        self == WorkspaceCorner::BottomRight || self == WorkspaceCorner::BottomLeft
    }
}

/// Validated rectangular arrangement of policy workspaces.
#[derive(Clone, Copy, Debug, PartialEq, Eq, Structural)]
pub struct WorkspaceLayout {
    pub(crate) count: u32,
    pub(crate) columns: u32,
    pub(crate) rows: u32,
    pub(crate) orientation: WorkspaceOrientation,
    pub(crate) corner: WorkspaceCorner,
}

/// How many groups of `size` hold `count` items.
pub open spec fn groups_needed(count: int, size: int) -> int {
    (count + size - 1) / size
}

/// An index counted from the other end when `mirrored`.
pub open spec fn from_end(index: int, length: int, mirrored: bool) -> int {
    if mirrored {
        length - 1 - index
    } else {
        index
    }
}

impl WorkspaceLayout {
    #[verifier::type_invariant]
    spec fn is_bounded(self) -> bool {
        self.is_grid()
    }

    /// The number of arranged workspaces.
    pub closed spec fn workspaces(self) -> int {
        self.count as int
    }

    /// The number of grid columns.
    pub closed spec fn width(self) -> int {
        self.columns as int
    }

    /// The number of grid rows.
    pub closed spec fn height(self) -> int {
        self.rows as int
    }

    /// The order in which cells are filled.
    pub closed spec fn filling(self) -> WorkspaceOrientation {
        self.orientation
    }

    /// The corner that holds workspace zero.
    pub closed spec fn origin(self) -> WorkspaceCorner {
        self.corner
    }

    /// Both dimensions are at least one and at most the workspace count.
    pub open spec fn is_grid(self) -> bool {
        1 <= self.width() <= self.workspaces() && 1 <= self.height() <= self.workspaces()
    }

    /// Builds a safe layout, deriving one zero-valued dimension from `count`.
    ///
    /// Returns `None` when both dimensions are zero. Oversized dimensions are
    /// bounded by the workspace count so hostile external hints cannot make
    /// navigation perform unbounded work.
    #[must_use]
    pub fn new(
        count: u32,
        columns: u32,
        rows: u32,
        orientation: WorkspaceOrientation,
        corner: WorkspaceCorner,
    ) -> (layout: Option<Self>)
        ensures
            layout is None <==> columns == 0 && rows == 0,
            layout matches Some(l) ==> {
                let wanted = num::greater(count as int, 1);
                &&& l.is_grid()
                &&& l.workspaces() == wanted
                &&& l.width() == num::bounded(
                    if columns == 0 {
                        groups_needed(wanted, rows as int)
                    } else {
                        columns as int
                    },
                    1,
                    wanted,
                )
                &&& l.height() == num::bounded(
                    if rows == 0 {
                        groups_needed(wanted, columns as int)
                    } else {
                        rows as int
                    },
                    1,
                    wanted,
                )
                &&& l.filling() == orientation
                &&& l.origin() == corner
            },
    {
        let count: u32 = max_u32(count, 1);
        if columns == 0 && rows == 0 {
            return None;
        }
        let wide: u32 = if columns == 0 {
            divide_up(count, rows)
        } else {
            columns
        };
        let high: u32 = if rows == 0 {
            divide_up(count, columns)
        } else {
            rows
        };
        Some(
            Self {
                count,
                columns: bounded_u32(wide, 1, count),
                rows: bounded_u32(high, 1, count),
                orientation,
                corner,
            },
        )
    }

    /// The plain row of `count` workspaces.
    pub closed spec fn row(count: u32) -> WorkspaceLayout {
        WorkspaceLayout {
            count,
            columns: count,
            rows: 1,
            orientation: WorkspaceOrientation::Horizontal,
            corner: WorkspaceCorner::TopLeft,
        }
    }

    /// A row holds its workspaces from left to right.
    pub proof fn lemma_row(count: u32)
        requires
            count >= 1,
        ensures
            WorkspaceLayout::row(count).is_row(count as int),
            WorkspaceLayout::row(count).is_grid(),
    {
    }

    /// Creates the default one-row layout.
    #[must_use]
    pub fn one_row(count: u32) -> (layout: Self)
        ensures
            layout.is_row(num::greater(count as int, 1)),
            layout == WorkspaceLayout::row(num::greater(count as int, 1) as u32),
            layout.is_grid(),
    {
        let count: u32 = max_u32(count, 1);
        Self {
            count,
            columns: count,
            rows: 1,
            orientation: WorkspaceOrientation::Horizontal,
            corner: WorkspaceCorner::TopLeft,
        }
    }

    /// Whether this is the plain left-to-right row of `count` workspaces.
    pub open spec fn is_row(self, count: int) -> bool {
        &&& self.workspaces() == count
        &&& self.width() == count
        &&& self.height() == 1
        &&& self.filling() == WorkspaceOrientation::Horizontal
        &&& self.origin() == WorkspaceCorner::TopLeft
    }

    /// Learns that a layout is a bounded grid.
    pub(crate) fn reveal_grid(self)
        ensures
            self.is_grid(),
    {
        proof {
            use_type_invariant(&self);
        }
    }

    /// Returns the number of arranged workspaces.
    pub(crate) fn count(self) -> (count: u32)
        ensures
            count == self.workspaces(),
    {
        self.count
    }

    /// Returns the number of grid columns.
    #[must_use]
    pub fn columns(self) -> (columns: u32)
        ensures
            columns == self.width(),
    {
        self.columns
    }

    /// Returns the number of grid rows.
    #[must_use]
    pub fn rows(self) -> (rows: u32)
        ensures
            rows == self.height(),
    {
        self.rows
    }

    /// The column and row of a workspace; `None` when it has no cell.
    pub open spec fn cell_of(self, index: int) -> Option<(int, int)> {
        let column = if self.filling() == WorkspaceOrientation::Horizontal {
            index % self.width()
        } else {
            index / self.height()
        };
        let row = if self.filling() == WorkspaceOrientation::Horizontal {
            index / self.width()
        } else {
            index % self.height()
        };
        if 0 <= index < self.workspaces() && row < self.height() && column < self.width() {
            Some(
                (
                    from_end(column, self.width(), self.origin().is_right()),
                    from_end(row, self.height(), self.origin().is_bottom()),
                ),
            )
        } else {
            None
        }
    }

    /// The workspace in a cell; `None` outside the grid and in unused cells.
    pub open spec fn workspace_in(self, column: int, row: int) -> Option<WorkspaceId> {
        let from_origin_column = from_end(column, self.width(), self.origin().is_right());
        let from_origin_row = from_end(row, self.height(), self.origin().is_bottom());
        let index = if self.filling() == WorkspaceOrientation::Horizontal {
            from_origin_row * self.width() + from_origin_column
        } else {
            from_origin_column * self.height() + from_origin_row
        };
        if 0 <= column < self.width() && 0 <= row < self.height() && index < self.workspaces() {
            Some(WorkspaceId(index as u32))
        } else {
            None
        }
    }

    /// The next cell in a direction, or `None` at an edge that does not wrap.
    pub open spec fn next_cell(
        self,
        column: int,
        row: int,
        direction: WorkspaceDirection,
        wrap: bool,
    ) -> Option<(int, int)> {
        match direction {
            WorkspaceDirection::Left => if column > 0 {
                Some((column - 1, row))
            } else if wrap {
                Some((self.width() - 1, row))
            } else {
                None
            },
            WorkspaceDirection::Right => if column + 1 < self.width() {
                Some((column + 1, row))
            } else if wrap {
                Some((0, row))
            } else {
                None
            },
            WorkspaceDirection::Up => if row > 0 {
                Some((column, row - 1))
            } else if wrap {
                Some((column, self.height() - 1))
            } else {
                None
            },
            WorkspaceDirection::Down => if row + 1 < self.height() {
                Some((column, row + 1))
            } else if wrap {
                Some((column, 0))
            } else {
                None
            },
            WorkspaceDirection::Previous | WorkspaceDirection::Next => None,
        }
    }

    /// The first workspace met within `steps` cells of a direction; unused
    /// cells are passed over only while wrapping.
    pub open spec fn first_met(
        self,
        column: int,
        row: int,
        direction: WorkspaceDirection,
        wrap: bool,
        steps: nat,
    ) -> Option<WorkspaceId>
        decreases steps,
    {
        if steps == 0 {
            None
        } else {
            match self.next_cell(column, row, direction, wrap) {
                None => None,
                Some((next_column, next_row)) => match self.workspace_in(next_column, next_row) {
                    Some(workspace) => Some(workspace),
                    None => if wrap {
                        self.first_met(next_column, next_row, direction, wrap, (steps - 1) as nat)
                    } else {
                        None
                    },
                },
            }
        }
    }

    /// The workspace reached from another one, which is itself when there is
    /// nothing to reach.
    pub open spec fn neighbor_of(
        self,
        workspace: WorkspaceId,
        direction: WorkspaceDirection,
        wrap: bool,
    ) -> WorkspaceId {
        let steps = match direction {
            WorkspaceDirection::Left | WorkspaceDirection::Right => self.width(),
            WorkspaceDirection::Up | WorkspaceDirection::Down => self.height(),
            WorkspaceDirection::Previous | WorkspaceDirection::Next => 0,
        };
        match self.cell_of(workspace.0 as int) {
            None => workspace,
            Some((column, row)) => match self.first_met(
                column,
                row,
                direction,
                wrap,
                steps as nat,
            ) {
                Some(met) => met,
                None => workspace,
            },
        }
    }

    /// Finds a directional neighbor, optionally wrapping within its row or column.
    #[must_use]
    pub fn neighbor(
        self,
        workspace: WorkspaceId,
        direction: WorkspaceDirection,
        wrap: bool,
    ) -> (neighbor: WorkspaceId)
        ensures
            neighbor == self.neighbor_of(workspace, direction, wrap),
            workspace.0 < self.workspaces() ==> neighbor.0 < self.workspaces(),
            wrap ==> self.neighbor_of(neighbor, opposite(direction), true) == workspace,
    {
        proof {
            use_type_invariant(&self);
            law_opposite_steps_cancel(self, workspace, direction);
            if workspace.0 < self.workspaces() {
                law_neighbor_is_arranged(self, workspace, direction, wrap);
            }
        }
        let (column, row): (u32, u32) = match self.coordinate(workspace) {
            Some(cell) => cell,
            None => {
                return workspace;
            },
        };
        let limit: u32 = match direction {
            WorkspaceDirection::Left | WorkspaceDirection::Right => self.columns,
            WorkspaceDirection::Up | WorkspaceDirection::Down => self.rows,
            WorkspaceDirection::Previous | WorkspaceDirection::Next => 0,
        };
        let mut candidate_column: u32 = column;
        let mut candidate_row: u32 = row;
        let mut remaining: u32 = limit;
        while remaining > 0
            invariant
                self.is_grid(),
                remaining <= limit,
                candidate_column < self.columns,
                candidate_row < self.rows,
                remaining < limit ==> wrap,
                self.first_met(column as int, row as int, direction, wrap, limit as nat)
                    == self.first_met(
                    candidate_column as int,
                    candidate_row as int,
                    direction,
                    wrap,
                    remaining as nat,
                ),
                self.cell_of(workspace.0 as int) == Some((column as int, row as int)),
                wrap ==> self.neighbor_of(
                    self.neighbor_of(workspace, direction, wrap),
                    opposite(direction),
                    true,
                ) == workspace,
                limit == (match direction {
                    WorkspaceDirection::Left | WorkspaceDirection::Right => self.width(),
                    WorkspaceDirection::Up | WorkspaceDirection::Down => self.height(),
                    WorkspaceDirection::Previous | WorkspaceDirection::Next => 0,
                }),
            decreases remaining,
        {
            match direction {
                WorkspaceDirection::Left => {
                    if candidate_column > 0 {
                        candidate_column = candidate_column - 1;
                    } else if wrap {
                        candidate_column = self.columns - 1;
                    } else {
                        return workspace;
                    }
                },
                WorkspaceDirection::Right => {
                    if candidate_column + 1 < self.columns {
                        candidate_column = candidate_column + 1;
                    } else if wrap {
                        candidate_column = 0;
                    } else {
                        return workspace;
                    }
                },
                WorkspaceDirection::Up => {
                    if candidate_row > 0 {
                        candidate_row = candidate_row - 1;
                    } else if wrap {
                        candidate_row = self.rows - 1;
                    } else {
                        return workspace;
                    }
                },
                WorkspaceDirection::Down => {
                    if candidate_row + 1 < self.rows {
                        candidate_row = candidate_row + 1;
                    } else if wrap {
                        candidate_row = 0;
                    } else {
                        return workspace;
                    }
                },
                WorkspaceDirection::Previous | WorkspaceDirection::Next => {
                    return workspace;
                },
            }
            if let Some(candidate) = self.workspace_at(candidate_column, candidate_row) {
                return candidate;
            }
            if !wrap {
                return workspace;
            }
            remaining = remaining - 1;
        }
        workspace
    }

    fn coordinate(self, workspace: WorkspaceId) -> (cell: Option<(u32, u32)>)
        ensures
            cell == (match self.cell_of(workspace.0 as int) {
                Some((column, row)) => Some((column as u32, row as u32)),
                None => None,
            }),
            cell matches Some((column, row)) ==> column < self.columns && row < self.rows,
    {
        proof {
            use_type_invariant(&self);
        }
        let index: u32 = workspace.0;
        if index >= self.count {
            return None;
        }
        let (mut column, mut row): (u32, u32) = match self.orientation {
            WorkspaceOrientation::Horizontal => (index % self.columns, index / self.columns),
            WorkspaceOrientation::Vertical => (index / self.rows, index % self.rows),
        };
        if row >= self.rows || column >= self.columns {
            return None;
        }
        match self.corner {
            WorkspaceCorner::TopRight | WorkspaceCorner::BottomRight => {
                column = self.columns - 1 - column;
            },
            WorkspaceCorner::TopLeft | WorkspaceCorner::BottomLeft => {},
        }
        match self.corner {
            WorkspaceCorner::BottomRight | WorkspaceCorner::BottomLeft => {
                row = self.rows - 1 - row;
            },
            WorkspaceCorner::TopLeft | WorkspaceCorner::TopRight => {},
        }
        Some((column, row))
    }

    fn workspace_at(self, column: u32, row: u32) -> (workspace: Option<WorkspaceId>)
        ensures
            workspace == self.workspace_in(column as int, row as int),
    {
        proof {
            use_type_invariant(&self);
        }
        if column >= self.columns || row >= self.rows {
            return None;
        }
        let from_origin_column: u32 = match self.corner {
            WorkspaceCorner::TopRight | WorkspaceCorner::BottomRight => self.columns - 1 - column,
            WorkspaceCorner::TopLeft | WorkspaceCorner::BottomLeft => column,
        };
        let from_origin_row: u32 = match self.corner {
            WorkspaceCorner::BottomRight | WorkspaceCorner::BottomLeft => self.rows - 1 - row,
            WorkspaceCorner::TopLeft | WorkspaceCorner::TopRight => row,
        };
        let (major, minor, stride): (u32, u32, u32) = match self.orientation {
            WorkspaceOrientation::Horizontal => (from_origin_row, from_origin_column, self.columns),
            WorkspaceOrientation::Vertical => (from_origin_column, from_origin_row, self.rows),
        };
        assert(0 <= major * stride <= 0xffff_ffff * 0xffff_ffff) by (nonlinear_arith);
        let index: u64 = major as u64 * stride as u64 + minor as u64;
        if index < self.count as u64 {
            Some(WorkspaceId(index as u32))
        } else {
            None
        }
    }
}

fn divide_up(count: u32, size: u32) -> (r: u32)
    requires
        size > 0,
        count > 0,
    ensures
        r == groups_needed(count as int, size as int),
{
    let sum: u64 = count as u64 + size as u64 - 1;
    assert(sum / size as u64 <= count) by (nonlinear_arith)
        requires
            sum == count + size - 1,
            size > 0,
            count > 0,
    ;
    (sum / size as u64) as u32
}

/// Workspaces on which a client is visible.
#[derive(Clone, Copy, Debug, PartialEq, Eq, Structural)]
pub enum WorkspaceAssignment {
    /// The client belongs to one workspace.
    Workspace(WorkspaceId),
    /// The client is sticky and visible on every workspace.
    All,
}

impl Default for WorkspaceAssignment {
    /// The first workspace.
    fn default() -> (assignment: Self)
        ensures
            assignment == WorkspaceAssignment::Workspace(WorkspaceId(0)),
    {
        Self::Workspace(WorkspaceId(0))
    }
}

impl WorkspaceAssignment {
    /// Whether a client so assigned shows on `workspace`.
    pub open spec fn shows_on(self, workspace: WorkspaceId) -> bool {
        self == WorkspaceAssignment::All || self == WorkspaceAssignment::Workspace(workspace)
    }

    /// Returns whether the assignment is visible on `workspace`.
    #[must_use]
    pub fn is_visible_on(self, workspace: WorkspaceId) -> (visible: bool)
        ensures
            visible == self.shows_on(workspace),
    {
        match self {
            WorkspaceAssignment::Workspace(assigned) => assigned.0 == workspace.0,
            WorkspaceAssignment::All => true,
        }
    }
}

/// A workspace is found again in the cell it occupies.
pub proof fn law_cell_holds_its_workspace(layout: WorkspaceLayout, index: int)
    requires
        layout.is_grid(),
        layout.cell_of(index) is Some,
    ensures
        ({
            let cell = layout.cell_of(index)->0;
            layout.workspace_in(cell.0, cell.1) == Some(WorkspaceId(index as u32))
        }),
{
    if layout.filling() == WorkspaceOrientation::Horizontal {
        vstd::arithmetic::div_mod::lemma_fundamental_div_mod(index, layout.width());
        vstd::arithmetic::mul::lemma_mul_is_commutative(layout.width(), index / layout.width());
    } else {
        vstd::arithmetic::div_mod::lemma_fundamental_div_mod(index, layout.height());
        vstd::arithmetic::mul::lemma_mul_is_commutative(layout.height(), index / layout.height());
    }
}

/// The cell in which a workspace is found is the cell it occupies.
pub proof fn law_workspace_occupies_its_cell(layout: WorkspaceLayout, column: int, row: int)
    requires
        layout.is_grid(),
        layout.workspace_in(column, row) is Some,
    ensures
        layout.workspace_in(column, row) matches Some(workspace) && layout.cell_of(
            workspace.0 as int,
        ) == Some((column, row)),
{
    let minor_size = if layout.filling() == WorkspaceOrientation::Horizontal {
        layout.width()
    } else {
        layout.height()
    };
    let from_origin_column = from_end(column, layout.width(), layout.origin().is_right());
    let from_origin_row = from_end(row, layout.height(), layout.origin().is_bottom());
    let (major, minor) = if layout.filling() == WorkspaceOrientation::Horizontal {
        (from_origin_row, from_origin_column)
    } else {
        (from_origin_column, from_origin_row)
    };
    let index = major * minor_size + minor;
    assert(index >= 0) by (nonlinear_arith)
        requires
            index == major * minor_size + minor,
            major >= 0,
            minor >= 0,
            minor_size >= 0,
    ;
    vstd::arithmetic::div_mod::lemma_fundamental_div_mod_converse(index, minor_size, major, minor);
}

/// Navigation from an arranged workspace ends at an arranged workspace.
pub proof fn law_neighbor_is_arranged(
    layout: WorkspaceLayout,
    workspace: WorkspaceId,
    direction: WorkspaceDirection,
    wrap: bool,
)
    requires
        layout.is_grid(),
        workspace.0 < layout.workspaces(),
    ensures
        layout.neighbor_of(workspace, direction, wrap).0 < layout.workspaces(),
{
    if let Some((column, row)) = layout.cell_of(workspace.0 as int) {
        let steps = match direction {
            WorkspaceDirection::Left | WorkspaceDirection::Right => layout.width(),
            WorkspaceDirection::Up | WorkspaceDirection::Down => layout.height(),
            WorkspaceDirection::Previous | WorkspaceDirection::Next => 0,
        };
        lemma_first_met_is_arranged(layout, column, row, direction, wrap, steps as nat);
    }
}

proof fn lemma_first_met_is_arranged(
    layout: WorkspaceLayout,
    column: int,
    row: int,
    direction: WorkspaceDirection,
    wrap: bool,
    steps: nat,
)
    requires
        layout.is_grid(),
        0 <= column < layout.width(),
        0 <= row < layout.height(),
    ensures
        layout.first_met(column, row, direction, wrap, steps) matches Some(met) ==> met.0
            < layout.workspaces(),
    decreases steps,
{
    if steps > 0 {
        if let Some((next_column, next_row)) = layout.next_cell(column, row, direction, wrap) {
            let from_origin_column = from_end(
                next_column,
                layout.width(),
                layout.origin().is_right(),
            );
            let from_origin_row = from_end(
                next_row,
                layout.height(),
                layout.origin().is_bottom(),
            );
            assert(from_origin_row * layout.width() >= 0) by (nonlinear_arith)
                requires
                    from_origin_row >= 0,
                    layout.width() >= 0,
            ;
            assert(from_origin_column * layout.height() >= 0) by (nonlinear_arith)
                requires
                    from_origin_column >= 0,
                    layout.height() >= 0,
            ;
            if layout.workspace_in(next_column, next_row) is None && wrap {
                lemma_first_met_is_arranged(
                    layout,
                    next_column,
                    next_row,
                    direction,
                    wrap,
                    (steps - 1) as nat,
                );
            }
        }
    }
}

/// The direction that leads back.
pub open spec fn opposite(direction: WorkspaceDirection) -> WorkspaceDirection {
    match direction {
        WorkspaceDirection::Left => WorkspaceDirection::Right,
        WorkspaceDirection::Right => WorkspaceDirection::Left,
        WorkspaceDirection::Up => WorkspaceDirection::Down,
        WorkspaceDirection::Down => WorkspaceDirection::Up,
        WorkspaceDirection::Previous => WorkspaceDirection::Next,
        WorkspaceDirection::Next => WorkspaceDirection::Previous,
    }
}

/// How far a cell lies ahead of another one, around the edge where need be.
spec fn lies_ahead(
    layout: WorkspaceLayout,
    from: (int, int),
    to: (int, int),
    direction: WorkspaceDirection,
    distance: int,
) -> bool {
    match direction {
        WorkspaceDirection::Left => from.1 == to.1 && (from.0 - distance == to.0 || from.0
            - distance == to.0 - layout.width()),
        WorkspaceDirection::Right => from.1 == to.1 && (from.0 + distance == to.0 || from.0
            + distance == to.0 + layout.width()),
        WorkspaceDirection::Up => from.0 == to.0 && (from.1 - distance == to.1 || from.1 - distance
            == to.1 - layout.height()),
        WorkspaceDirection::Down => from.0 == to.0 && (from.1 + distance == to.1 || from.1
            + distance == to.1 + layout.height()),
        WorkspaceDirection::Previous | WorkspaceDirection::Next => false,
    }
}

/// A wrapping walk meets a workspace at the latest in a used cell that lies ahead.
proof fn lemma_meets(
    layout: WorkspaceLayout,
    from: (int, int),
    to: (int, int),
    direction: WorkspaceDirection,
    distance: nat,
)
    requires
        layout.is_grid(),
        0 <= from.0 < layout.width(),
        0 <= from.1 < layout.height(),
        0 <= to.0 < layout.width(),
        0 <= to.1 < layout.height(),
        layout.workspace_in(to.0, to.1) is Some,
        distance >= 1,
        lies_ahead(layout, from, to, direction, distance as int),
    ensures
        layout.first_met(from.0, from.1, direction, true, distance) is Some,
    decreases distance,
{
    let next = layout.next_cell(from.0, from.1, direction, true)->0;
    if distance > 1 && layout.workspace_in(next.0, next.1) is None {
        lemma_meets(layout, next, to, direction, (distance - 1) as nat);
    }
}

/// What a walk meets within some steps it meets within more.
proof fn lemma_meets_with_more_steps(
    layout: WorkspaceLayout,
    column: int,
    row: int,
    direction: WorkspaceDirection,
    steps: nat,
    more: nat,
)
    requires
        steps <= more,
        layout.first_met(column, row, direction, true, steps) is Some,
    ensures
        layout.first_met(column, row, direction, true, more) == layout.first_met(
            column,
            row,
            direction,
            true,
            steps,
        ),
    decreases steps,
{
    if let Some((next_column, next_row)) = layout.next_cell(column, row, direction, true) {
        if layout.workspace_in(next_column, next_row) is None {
            lemma_meets_with_more_steps(
                layout,
                next_column,
                next_row,
                direction,
                (steps - 1) as nat,
                (more - 1) as nat,
            );
        }
    }
}

/// A walk that has passed unused cells only leads back to where it began, from wherever it ends.
proof fn lemma_leads_back(
    layout: WorkspaceLayout,
    begun: WorkspaceId,
    at: (int, int),
    direction: WorkspaceDirection,
    walked: nat,
    steps: nat,
)
    requires
        layout.is_grid(),
        0 <= at.0 < layout.width(),
        0 <= at.1 < layout.height(),
        direction != WorkspaceDirection::Previous && direction != WorkspaceDirection::Next,
        ({
            let next = layout.next_cell(at.0, at.1, direction, true)->0;
            layout.first_met(next.0, next.1, opposite(direction), true, walked + 1) == Some(begun)
        }),
        layout.first_met(at.0, at.1, direction, true, steps) is Some,
    ensures
        ({
            let met = layout.first_met(at.0, at.1, direction, true, steps)->0;
            layout.cell_of(met.0 as int) matches Some(cell) && layout.first_met(
                cell.0,
                cell.1,
                opposite(direction),
                true,
                walked + steps,
            ) == Some(begun)
        }),
    decreases steps,
{
    let next = layout.next_cell(at.0, at.1, direction, true)->0;
    if layout.workspace_in(next.0, next.1) is Some {
        law_workspace_occupies_its_cell(layout, next.0, next.1);
        lemma_meets_with_more_steps(
            layout,
            next.0,
            next.1,
            opposite(direction),
            walked + 1,
            walked + steps,
        );
    } else {
        let further = layout.next_cell(next.0, next.1, direction, true)->0;
        assert(layout.next_cell(further.0, further.1, opposite(direction), true) == Some(next));
        lemma_leads_back(layout, begun, next, direction, walked + 1, (steps - 1) as nat);
    }
}

/// Wrapping steps in opposite directions cancel, in ragged rows and columns too; the previous and
/// the next workspace are no neighbors in the grid.
pub proof fn law_opposite_steps_cancel(
    layout: WorkspaceLayout,
    workspace: WorkspaceId,
    direction: WorkspaceDirection,
)
    requires
        layout.is_grid(),
    ensures
        layout.neighbor_of(
            layout.neighbor_of(workspace, direction, true),
            opposite(direction),
            true,
        ) == workspace,
        direction == WorkspaceDirection::Previous || direction == WorkspaceDirection::Next
            ==> layout.neighbor_of(workspace, direction, true) == workspace
            && layout.neighbor_of(workspace, direction, false) == workspace,
{
    if let Some(cell) = layout.cell_of(workspace.0 as int) {
        if direction != WorkspaceDirection::Previous && direction != WorkspaceDirection::Next {
            let steps = match direction {
                WorkspaceDirection::Left | WorkspaceDirection::Right => layout.width(),
                WorkspaceDirection::Up | WorkspaceDirection::Down => layout.height(),
                WorkspaceDirection::Previous | WorkspaceDirection::Next => 0,
            } as nat;
            law_cell_holds_its_workspace(layout, workspace.0 as int);
            lemma_meets(layout, cell, cell, direction, steps);
            let next = layout.next_cell(cell.0, cell.1, direction, true)->0;
            assert(layout.next_cell(next.0, next.1, opposite(direction), true) == Some(cell));
            assert(layout.first_met(next.0, next.1, opposite(direction), true, 1) == Some(
                workspace,
            ));
            lemma_leads_back(layout, workspace, cell, direction, 0, steps);
        }
    }
}

} // verus!
