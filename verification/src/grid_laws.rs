//! Laws of workspaces in a grid and of outputs.

use vstd::prelude::*;

use crate::geometry;
use crate::geometry::Geometry;
use crate::ids::WorkspaceId;
use crate::outputs;
use crate::outputs::Output;
use crate::workspace;
use crate::workspace::{
    WorkspaceAssignment, WorkspaceCorner, WorkspaceDirection, WorkspaceLayout, WorkspaceOrientation,
};

verus! {

/// The first workspace lies in the corner that the arrangement begins in.
pub proof fn law_first_workspace_lies_in_the_corner(layout: WorkspaceLayout)
    requires
        layout.is_grid(),
    ensures
        ({
            let last_column = layout.width() - 1;
            let last_row = layout.height() - 1;
            layout.cell_of(0) == match layout.origin() {
                WorkspaceCorner::TopLeft => Some((0int, 0int)),
                WorkspaceCorner::TopRight => Some((last_column, 0int)),
                WorkspaceCorner::BottomLeft => Some((0int, last_row)),
                WorkspaceCorner::BottomRight => Some((last_column, last_row)),
            }
        }),
{
    assert(0int % layout.width() == 0 && 0int / layout.width() == 0) by (nonlinear_arith)
        requires
            layout.width() >= 1,
    ;
    assert(0int % layout.height() == 0 && 0int / layout.height() == 0) by (nonlinear_arith)
        requires
            layout.height() >= 1,
    ;
}

/// The quotient and the remainder of the next number.
proof fn lemma_next_quotient(index: int, size: int)
    requires
        index >= 0,
        size >= 1,
    ensures
        index % size + 1 < size ==> (index + 1) % size == index % size + 1 && (index + 1) / size
            == index / size,
        index % size + 1 == size ==> (index + 1) % size == 0 && (index + 1) / size == index / size
            + 1,
        0 <= index % size < size,
{
    vstd::arithmetic::div_mod::lemma_fundamental_div_mod(index, size);
    vstd::arithmetic::div_mod::lemma_mod_bound(index, size);
    let q = index / size;
    let r = index % size;
    vstd::arithmetic::mul::lemma_mul_is_commutative(size, q);
    if r + 1 < size {
        vstd::arithmetic::div_mod::lemma_fundamental_div_mod_converse(index + 1, size, q, r + 1);
    } else {
        assert((q + 1) * size == q * size + size) by (nonlinear_arith);
        vstd::arithmetic::div_mod::lemma_fundamental_div_mod_converse(index + 1, size, q + 1, 0);
    }
}

/// Workspaces follow each other along a row where rows are filled first, and along a column where
/// columns are, away from the corner they begin in; behind the end of one the next one away from
/// that corner begins.
pub proof fn law_workspaces_follow_each_other(layout: WorkspaceLayout, index: int)
    requires
        layout.is_grid(),
        layout.cell_of(index) is Some,
        layout.cell_of(index + 1) is Some,
    ensures
        ({
            let (column, row) = layout.cell_of(index)->Some_0;
            let (next_column, next_row) = layout.cell_of(index + 1)->Some_0;
            let rightward = layout.origin() == WorkspaceCorner::TopLeft || layout.origin()
                == WorkspaceCorner::BottomLeft;
            let downward = layout.origin() == WorkspaceCorner::TopLeft || layout.origin()
                == WorkspaceCorner::TopRight;
            let ends_row = if rightward {
                column == layout.width() - 1
            } else {
                column == 0
            };
            let ends_column = if downward {
                row == layout.height() - 1
            } else {
                row == 0
            };
            let across = if rightward {
                1int
            } else {
                -1
            };
            let down = if downward {
                1int
            } else {
                -1
            };
            let first_column = if rightward {
                0
            } else {
                layout.width() - 1
            };
            let first_row = if downward {
                0
            } else {
                layout.height() - 1
            };
            match layout.filling() {
                WorkspaceOrientation::Horizontal => if ends_row {
                    next_column == first_column && next_row == row + down
                } else {
                    next_column == column + across && next_row == row
                },
                WorkspaceOrientation::Vertical => if ends_column {
                    next_row == first_row && next_column == column + across
                } else {
                    next_row == row + down && next_column == column
                },
            }
        }),
{
    lemma_next_quotient(index, layout.width());
    lemma_next_quotient(index, layout.height());
}

/// A step into a direction leads to the workspace in the next cell that way, if there is one, and
/// at the edge of the grid to the one in the cell at the other end where steps wrap; without
/// wrapping a step at the edge, or to a cell without a workspace, leads nowhere.
pub proof fn law_steps_lead_to_the_next_cell(
    layout: WorkspaceLayout,
    id: WorkspaceId,
    direction: WorkspaceDirection,
    wrap: bool,
)
    requires
        layout.is_grid(),
        layout.cell_of(id.0 as int) is Some,
    ensures
        ({
            let (column, row) = layout.cell_of(id.0 as int)->Some_0;
            let right = layout.width() - 1;
            let bottom = layout.height() - 1;
            let next = match direction {
                WorkspaceDirection::Left => if column > 0 {
                    Some((column - 1, row))
                } else if wrap {
                    Some((right, row))
                } else {
                    None
                },
                WorkspaceDirection::Right => if column < right {
                    Some((column + 1, row))
                } else if wrap {
                    Some((0int, row))
                } else {
                    None
                },
                WorkspaceDirection::Up => if row > 0 {
                    Some((column, row - 1))
                } else if wrap {
                    Some((column, bottom))
                } else {
                    None
                },
                WorkspaceDirection::Down => if row < bottom {
                    Some((column, row + 1))
                } else if wrap {
                    Some((column, 0int))
                } else {
                    None
                },
                _ => None,
            };
            let neighbor = layout.neighbor_of(id, direction, wrap);
            match next {
                Some(cell) => match layout.workspace_in(cell.0, cell.1) {
                    Some(found) => neighbor == found,
                    None => !wrap ==> neighbor == id,
                },
                None => neighbor == id,
            }
        }),
{
    workspace::law_cell_holds_its_workspace(layout, id.0 as int);
}

/// A step to the left or right stays in the row, and one up or down in the column.
pub proof fn law_steps_stay_in_line(
    layout: WorkspaceLayout,
    id: WorkspaceId,
    direction: WorkspaceDirection,
    wrap: bool,
)
    requires
        layout.is_grid(),
        layout.cell_of(id.0 as int) is Some,
    ensures
        ({
            let (column, row) = layout.cell_of(id.0 as int)->Some_0;
            let neighbor = layout.neighbor_of(id, direction, wrap);
            layout.cell_of(neighbor.0 as int) matches Some(cell) && match direction {
                WorkspaceDirection::Left | WorkspaceDirection::Right => cell.1 == row,
                WorkspaceDirection::Up | WorkspaceDirection::Down => cell.0 == column,
                _ => cell == (column, row),
            }
        }),
{
    let (column, row) = layout.cell_of(id.0 as int)->Some_0;
    let steps = match direction {
        WorkspaceDirection::Left | WorkspaceDirection::Right => layout.width(),
        WorkspaceDirection::Up | WorkspaceDirection::Down => layout.height(),
        WorkspaceDirection::Previous | WorkspaceDirection::Next => 0,
    };
    lemma_met_in_line(layout, column, row, direction, wrap, steps as nat);
}

proof fn lemma_met_in_line(
    layout: WorkspaceLayout,
    column: int,
    row: int,
    direction: WorkspaceDirection,
    wrap: bool,
    steps: nat,
)
    requires
        layout.is_grid(),
        0 <= column < layout.width(),
        0 <= row < layout.height(),
    ensures
        layout.first_met(column, row, direction, wrap, steps) matches Some(met) ==> (
        layout.cell_of(met.0 as int) matches Some(cell) && match direction {
            WorkspaceDirection::Left | WorkspaceDirection::Right => cell.1 == row,
            WorkspaceDirection::Up | WorkspaceDirection::Down => cell.0 == column,
            _ => false,
        }),
    decreases steps,
{
    if steps > 0 {
        if let Some((next_column, next_row)) = layout.next_cell(column, row, direction, wrap) {
            if layout.workspace_in(next_column, next_row) is Some {
                workspace::law_workspace_occupies_its_cell(layout, next_column, next_row);
            } else {
                lemma_met_in_line(
                    layout,
                    next_column,
                    next_row,
                    direction,
                    wrap,
                    (steps - 1) as nat,
                );
            }
        }
    }
}

/// As many rows or columns are made as hold all workspaces, and no more.
pub proof fn law_groups_hold_everything(count: int, size: int)
    requires
        count >= 1,
        size >= 1,
    ensures
        workspace::groups_needed(count, size) * size >= count,
        (workspace::groups_needed(count, size) - 1) * size < count,
{
    let groups = workspace::groups_needed(count, size);
    vstd::arithmetic::div_mod::lemma_fundamental_div_mod(count + size - 1, size);
    vstd::arithmetic::div_mod::lemma_mod_bound(count + size - 1, size);
    vstd::arithmetic::mul::lemma_mul_is_commutative(size, groups);
    assert((groups - 1) * size == groups * size - size) by (nonlinear_arith);
}

/// A client on all workspaces shows on each of them, and one on a workspace shows on that one and
/// no other.
pub proof fn law_assignments_show_where_they_say(assigned: WorkspaceId, shown: WorkspaceId)
    ensures
        WorkspaceAssignment::All.shows_on(shown),
        WorkspaceAssignment::Workspace(assigned).shows_on(shown) <==> assigned.0 == shown.0,
{
}

/// The position of the best output.
proof fn lemma_best_exists(list: Seq<Output>, wanted: Geometry) -> (index: int)
    requires
        list.len() > 0,
    ensures
        outputs::is_best_index(list, wanted, index),
    decreases list.len(),
{
    if list.len() == 1 {
        0
    } else {
        let shorter = list.drop_last();
        let before = lemma_best_exists(shorter, wanted);
        let last = list.len() - 1;
        assert forall|j: int| 0 <= j < shorter.len() implies #[trigger] shorter[j] == list[j] by {}
        if outputs::serves_better(list[last], list[before], wanted) {
            assert forall|j: int| 0 <= j < last implies outputs::serves_better(
                list[last],
                #[trigger] list[j],
                wanted,
            ) by {
                assert(shorter[j] == list[j]);
                if j < before {
                    assert(outputs::serves_better(shorter[before], shorter[j], wanted));
                } else if j > before {
                    assert(!outputs::serves_better(shorter[j], shorter[before], wanted));
                }
            }
            last
        } else {
            assert forall|j: int| 0 <= j < before implies outputs::serves_better(
                list[before],
                #[trigger] list[j],
                wanted,
            ) by {
                assert(outputs::serves_better(shorter[before], shorter[j], wanted));
            }
            assert forall|j: int| before < j < list.len() implies !outputs::serves_better(
                #[trigger] list[j],
                list[before],
                wanted,
            ) by {
                if j < last {
                    assert(!outputs::serves_better(shorter[j], shorter[before], wanted));
                }
            }
            before
        }
    }
}

/// The output chosen for a rectangle is one of the outputs. None shares more area with the
/// rectangle, none that shares as much is nearer, of those that are as near a primary one is
/// chosen if there is one, and of those the first.
pub proof fn law_the_best_output_is_chosen(list: Seq<Output>, wanted: Geometry, other: int)
    requires
        0 <= other < list.len(),
    ensures
        ({
            let best = outputs::best_output(list, wanted);
            let area = geometry::shared_area(best.geometry, wanted);
            let distance = geometry::squared_distance(best.geometry, wanted);
            let their_area = geometry::shared_area(list[other].geometry, wanted);
            let their_distance = geometry::squared_distance(list[other].geometry, wanted);
            &&& list.contains(best)
            &&& area >= their_area
            &&& area == their_area ==> distance <= their_distance
            &&& area == their_area && distance == their_distance && list[other].primary
                ==> best.primary
            &&& area == their_area && distance == their_distance && list[other].primary
                == best.primary ==> exists|i: int| 0 <= i <= other && #[trigger] list[i] == best
        }),
{
    let found = lemma_best_exists(list, wanted);
    let index = choose|i: int| #[trigger] outputs::is_best_index(list, wanted, i);
    assert(outputs::is_best_index(list, wanted, index));
    assert(outputs::best_output(list, wanted) == list[index]);
    if other < index {
        assert(outputs::serves_better(list[index], list[other], wanted));
    } else if index < other {
        assert(!outputs::serves_better(list[other], list[index], wanted));
    }
}

/// Of outputs with the same identifier the first is kept, no two that are kept have the same
/// identifier, and nothing is lost but repetitions; without any output there is one of a single
/// pixel at the origin.
pub proof fn law_outputs_are_kept_once(list: Seq<Output>)
    ensures
        outputs::distinct_ids(outputs::usable_outputs(list)),
        list.len() > 0 ==> forall|i: int|
            #![trigger outputs::usable_outputs(list)[i]]
            0 <= i < outputs::usable_outputs(list).len() ==> list.contains(
                outputs::usable_outputs(list)[i],
            ),
        forall|i: int|
            0 <= i < list.len() && !outputs::has_output(list.take(i), (#[trigger] list[i]).id)
                ==> outputs::usable_outputs(list).contains(list[i]),
        list.len() == 0 ==> outputs::usable_outputs(list).len() == 1
            && outputs::usable_outputs(list)[0].geometry == (Geometry {
            x: 0,
            y: 0,
            width: 1,
            height: 1,
        }),
{
    lemma_distinct(list);
    assert forall|i: int|
        0 <= i < list.len() && !outputs::has_output(
            list.take(i),
            (#[trigger] list[i]).id,
        ) implies outputs::without_duplicates(list).contains(list[i]) by {
        lemma_first_is_kept(list, i);
    }
    if list.len() > 0 {
        assert(!outputs::has_output(list.take(0), list[0].id));
        assert(outputs::without_duplicates(list).contains(list[0]));
    }
}

/// What was kept was listed, and no identifier is kept twice.
proof fn lemma_distinct(list: Seq<Output>)
    ensures
        outputs::distinct_ids(outputs::without_duplicates(list)),
        forall|i: int|
            #![trigger outputs::without_duplicates(list)[i]]
            0 <= i < outputs::without_duplicates(list).len() ==> list.contains(
                outputs::without_duplicates(list)[i],
            ),
    decreases list.len(),
{
    if list.len() > 0 {
        let shorter = list.drop_last();
        lemma_distinct(shorter);
        let before = outputs::without_duplicates(shorter);
        let after = outputs::without_duplicates(list);
        assert(list[list.len() - 1] == list.last());
        assert forall|i: int| #![trigger after[i]] 0 <= i < after.len() implies list.contains(
            after[i],
        ) by {
            if i < before.len() {
                assert(shorter.contains(before[i]));
                let k = choose|k: int| 0 <= k < shorter.len() && shorter[k] == before[i];
                assert(list[k] == after[i]);
            }
        }
    }
}

/// Everything that was kept of the first outputs is kept of all.
proof fn lemma_kept(list: Seq<Output>, output: Output)
    requires
        list.len() > 0,
        outputs::without_duplicates(list.drop_last()).contains(output),
    ensures
        outputs::without_duplicates(list).contains(output),
{
    let before = outputs::without_duplicates(list.drop_last());
    let k = choose|k: int| 0 <= k < before.len() && before[k] == output;
    assert(outputs::without_duplicates(list)[k] == output);
}

/// The first output with an identifier is kept.
proof fn lemma_first_is_kept(list: Seq<Output>, i: int)
    requires
        0 <= i < list.len(),
        !outputs::has_output(list.take(i), list[i].id),
    ensures
        outputs::without_duplicates(list).contains(list[i]),
    decreases list.len(),
{
    let shorter = list.drop_last();
    if i < shorter.len() {
        assert(shorter[i] == list[i]);
        assert(shorter.take(i) =~= list.take(i));
        lemma_first_is_kept(shorter, i);
        lemma_kept(list, list[i]);
    } else {
        let before = outputs::without_duplicates(shorter);
        let after = outputs::without_duplicates(list);
        assert(list.take(i) =~= shorter);
        lemma_distinct(shorter);
        if outputs::has_output(before, list[i].id) {
            let k = choose|k: int| 0 <= k < before.len() && #[trigger] before[k].id == list[i].id;
            assert(shorter.contains(before[k]));
            let l = choose|l: int| 0 <= l < shorter.len() && shorter[l] == before[k];
            assert(shorter[l].id == list[i].id);
        }
        assert(after[before.len() as int] == list[i]);
    }
}

} // verus!
