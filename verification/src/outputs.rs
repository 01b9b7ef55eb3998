//! Connected outputs and the choice of an output for a rectangle.

use vstd::prelude::*;

use crate::geometry;
use crate::geometry::{intersection_area, rectangle_distance_squared, Geometry};
use crate::ids::OutputId;

verus! {

/// One connected display output and its root-coordinate geometry.
#[derive(Clone, Copy, Debug, PartialEq, Eq, Structural)]
pub struct Output {
    /// Backend-owned stable identifier.
    pub id: OutputId,
    /// Complete output rectangle before panels reserve space.
    pub geometry: Geometry,
    /// Whether the backend considers this the primary output.
    pub primary: bool,
}

/// Output associated with exact display-area coverage outside managed fullscreen.
#[derive(Clone, Copy, Debug, PartialEq, Eq, Structural)]
pub struct OutputCoverage(pub OutputId);

impl OutputCoverage {
    /// Records the output selected for an exactly covering client.
    #[must_use]
    pub fn new(output: OutputId) -> (coverage: Self)
        ensures
            coverage == OutputCoverage(output),
    {
        Self(output)
    }

    /// Returns the associated output.
    #[must_use]
    pub fn output(self) -> (output: OutputId)
        ensures
            output == self.0,
    {
        self.0
    }
}

/// Whether some output of the sequence has this identifier.
pub open spec fn has_output(outputs: Seq<Output>, id: OutputId) -> bool {
    exists|i: int| 0 <= i < outputs.len() && #[trigger] outputs[i].id == id
}

/// The outputs whose identifier did not occur before them.
pub open spec fn without_duplicates(outputs: Seq<Output>) -> Seq<Output>
    decreases outputs.len(),
{
    if outputs.len() == 0 {
        Seq::empty()
    } else {
        let before = without_duplicates(outputs.drop_last());
        if has_output(before, outputs.last().id) {
            before
        } else {
            before.push(outputs.last())
        }
    }
}

/// The distinct outputs, or a one-pixel fallback when there are none.
pub open spec fn usable_outputs(outputs: Seq<Output>) -> Seq<Output> {
    let distinct = without_duplicates(outputs);
    if distinct.len() == 0 {
        seq![
            Output {
                id: OutputId(0),
                geometry: Geometry { x: 0, y: 0, width: 1, height: 1 },
                primary: true,
            },
        ]
    } else {
        distinct
    }
}

/// Whether `index` is the first output marked primary, or the first output at
/// all when none is marked.
pub open spec fn is_primary_index(outputs: Seq<Output>, index: int) -> bool {
    &&& 0 <= index < outputs.len()
    &&& forall|j: int| 0 <= j < index ==> !(#[trigger] outputs[j]).primary
    &&& outputs[index].primary || (index == 0 && forall|j: int|
        0 <= j < outputs.len() ==> !(#[trigger] outputs[j]).primary)
}

/// The same output with its primary mark replaced.
pub open spec fn marked(output: Output, primary: bool) -> Output {
    Output { id: output.id, geometry: output.geometry, primary }
}

/// Whether `a` is the strictly better output for a rectangle: by shared area,
/// then by distance, then by being primary.
pub open spec fn serves_better(a: Output, b: Output, wanted: Geometry) -> bool {
    let a_area = geometry::shared_area(a.geometry, wanted);
    let b_area = geometry::shared_area(b.geometry, wanted);
    let a_distance = geometry::squared_distance(a.geometry, wanted);
    let b_distance = geometry::squared_distance(b.geometry, wanted);
    ||| a_area > b_area
    ||| a_area == b_area && a_distance < b_distance
    ||| a_area == b_area && a_distance == b_distance && a.primary && !b.primary
}

/// Whether `index` is the best output for a rectangle, the earliest of equals.
pub open spec fn is_best_index(outputs: Seq<Output>, wanted: Geometry, index: int) -> bool {
    &&& 0 <= index < outputs.len()
    &&& forall|j: int|
        0 <= j < index ==> serves_better(outputs[index], #[trigger] outputs[j], wanted)
    &&& forall|j: int|
        index < j < outputs.len() ==> !serves_better(#[trigger] outputs[j], outputs[index], wanted)
}

/// Current output topology with deterministic client-to-output selection.
#[derive(Debug, PartialEq, Eq)]
pub struct OutputSet {
    outputs: Vec<Output>,
}

impl View for OutputSet {
    type V = Seq<Output>;

    closed spec fn view(&self) -> Seq<Output> {
        self.outputs@
    }
}

impl OutputSet {
    /// At least one output, distinct identifiers, and exactly one primary output.
    #[verifier::type_invariant]
    spec fn is_normalized(self) -> bool {
        is_topology(self.outputs@)
    }

    /// Builds a topology, discarding duplicate identifiers and normalizing its
    /// primary output. An empty topology becomes a safe one-pixel fallback.
    #[must_use]
    pub fn new(outputs: &[Output]) -> (set: Self)
        ensures
            set@.len() == usable_outputs(outputs@).len(),
            is_topology(set@),
            exists|primary: int|
                #![trigger is_primary_index(usable_outputs(outputs@), primary)]
                is_primary_index(usable_outputs(outputs@), primary) && forall|i: int|
                    0 <= i < set@.len() ==> #[trigger] set@[i] == marked(
                        usable_outputs(outputs@)[i],
                        i == primary,
                    ),
    {
        let mut distinct: Vec<Output> = Vec::new();
        let mut index: usize = 0;
        while index < outputs.len()
            invariant
                index <= outputs.len(),
                distinct@ == without_duplicates(outputs@.take(index as int)),
                distinct_ids(distinct@),
            decreases outputs.len() - index,
        {
            assert(outputs@.take(index + 1).drop_last() =~= outputs@.take(index as int));
            let output: Output = outputs[index];
            if !contains_id(&distinct, output.id) {
                distinct.push(output);
            }
            index += 1;
        }
        assert(outputs@.take(index as int) =~= outputs@);
        if distinct.len() == 0 {
            distinct.push(
                Output { id: OutputId(0), geometry: Geometry::new(0, 0, 1, 1), primary: true },
            );
        }
        assert(distinct@ =~= usable_outputs(outputs@));
        let primary: usize = primary_index(&distinct);
        let mut normalized: Vec<Output> = Vec::new();
        let mut position: usize = 0;
        while position < distinct.len()
            invariant
                position <= distinct.len(),
                normalized.len() == position,
                forall|i: int|
                    0 <= i < position ==> #[trigger] normalized@[i] == marked(
                        distinct@[i],
                        i == primary as int,
                    ),
            decreases distinct.len() - position,
        {
            let output: Output = distinct[position];
            normalized.push(
                Output {
                    id: output.id,
                    geometry: output.geometry,
                    primary: position == primary,
                },
            );
            position += 1;
        }
        assert forall|i: int, j: int| 0 <= i < j < normalized@.len() implies normalized@[i].id
            != normalized@[j].id by {
            assert(distinct@[i].id != distinct@[j].id);
        }
        assert(normalized@[primary as int].primary);
        Self { outputs: normalized }
    }

    /// Returns every output in backend discovery order.
    #[must_use]
    pub fn outputs(&self) -> (outputs: &[Output])
        ensures
            outputs@ == self@,
    {
        self.outputs.as_slice()
    }

    /// Returns the normalized primary output.
    #[must_use]
    pub fn primary(&self) -> (output: Output)
        ensures
            output.primary,
            self@.contains(output),
            is_topology(self@),
    {
        proof {
            use_type_invariant(self);
        }
        let index: usize = primary_index(&self.outputs);
        assert(self@[index as int].primary);
        self.outputs[index]
    }

    /// Selects the output containing the largest part of a rectangle.
    ///
    /// Rectangles outside every output use the nearest output. Equal choices
    /// prefer the primary output and then backend discovery order.
    #[must_use]
    pub fn output_for(&self, geometry: Geometry) -> (output: Output)
        ensures
            output == best_output(self@, geometry),
            exists|i: int|
                #![trigger is_best_index(self@, geometry, i)]
                is_best_index(self@, geometry, i) && output == self@[i],
    {
        proof {
            use_type_invariant(self);
        }
        let mut selected: usize = 0;
        let mut index: usize = 1;
        while index < self.outputs.len()
            invariant
                selected < index <= self.outputs.len(),
                is_best_index(self.outputs@.take(index as int), geometry, selected as int),
            decreases self.outputs.len() - index,
        {
            let output: Output = self.outputs[index];
            let current: Output = self.outputs[selected];
            let area: u64 = intersection_area(output.geometry, geometry);
            let current_area: u64 = intersection_area(current.geometry, geometry);
            let distance: u128 = rectangle_distance_squared(output.geometry, geometry);
            let current_distance: u128 = rectangle_distance_squared(current.geometry, geometry);
            let better: bool = area > current_area || (area == current_area && ((area == 0
                && distance < current_distance) || (distance == current_distance && output.primary
                && !current.primary)));
            proof {
                lemma_sharing_is_touching(output.geometry, geometry);
                lemma_sharing_is_touching(current.geometry, geometry);
                let before = self.outputs@.take(index as int);
                let after = self.outputs@.take(index + 1);
                assert(forall|j: int| 0 <= j < index ==> before[j] == after[j]);
                assert(after[index as int] == output);
                assert(better == serves_better(output, current, geometry));
            }
            if better {
                selected = index;
            }
            index += 1;
        }
        proof {
            assert(self.outputs@.take(index as int) =~= self.outputs@);
            lemma_best_index_is_unique(self@, geometry, selected as int);
        }
        self.outputs[selected]
    }

    /// Returns the best output only when some part of the rectangle is on it.
    #[must_use]
    pub fn overlapping_output(&self, geometry: Geometry) -> (output: Option<Output>)
        ensures
            output == ({
                let best = best_output(self@, geometry);
                if geometry::shared_area(best.geometry, geometry) > 0 {
                    Some(best)
                } else {
                    None
                }
            }),
    {
        let output: Output = self.output_for(geometry);
        if intersection_area(output.geometry, geometry) > 0 {
            Some(output)
        } else {
            None
        }
    }
}

impl Clone for OutputSet {
    fn clone(&self) -> (copy: Self)
        ensures
            copy@ == self@,
    {
        proof {
            use_type_invariant(self);
        }
        let outputs: Vec<Output> = self.outputs.clone();
        assert(outputs@ =~= self.outputs@);
        Self { outputs }
    }
}

impl Default for OutputSet {
    /// The one-pixel fallback topology.
    fn default() -> (set: Self)
        ensures
            set@ == usable_outputs(Seq::empty()),
    {
        let none: Vec<Output> = Vec::new();
        let set = Self::new(none.as_slice());
        proof {
            let fallback = usable_outputs(Seq::<Output>::empty());
            assert(none@ =~= Seq::<Output>::empty());
            let primary = choose|primary: int|
                #![trigger is_primary_index(fallback, primary)]
                is_primary_index(fallback, primary) && forall|i: int|
                    0 <= i < set@.len() ==> #[trigger] set@[i] == marked(fallback[i], i == primary);
            assert(primary == 0);
            assert(set@[0] == fallback[0]);
            assert(set@ =~= fallback);
        }
        set
    }
}

/// Whether identifiers are pairwise distinct.
pub open spec fn distinct_ids(outputs: Seq<Output>) -> bool {
    forall|i: int, j: int|
        0 <= i < j < outputs.len() ==> (#[trigger] outputs[i]).id != (#[trigger] outputs[j]).id
}

/// Whether the outputs form a normalized topology.
pub open spec fn is_topology(outputs: Seq<Output>) -> bool {
    &&& outputs.len() > 0
    &&& distinct_ids(outputs)
    &&& exists|primary: int|
        0 <= primary < outputs.len() && (#[trigger] outputs[primary]).primary
    &&& forall|i: int, j: int|
        0 <= i < outputs.len() && 0 <= j < outputs.len() && (#[trigger] outputs[i]).primary && (
        #[trigger] outputs[j]).primary ==> i == j
}

/// The output that serves a rectangle best.
pub open spec fn best_output(outputs: Seq<Output>, wanted: Geometry) -> Output {
    outputs[choose|i: int| #[trigger] is_best_index(outputs, wanted, i)]
}

fn contains_id(outputs: &Vec<Output>, id: OutputId) -> (found: bool)
    ensures
        found == has_output(outputs@, id),
{
    let mut index: usize = 0;
    while index < outputs.len()
        invariant
            index <= outputs.len(),
            forall|i: int| 0 <= i < index ==> (#[trigger] outputs@[i]).id != id,
        decreases outputs.len() - index,
    {
        if outputs[index].id == id {
            return true;
        }
        index += 1;
    }
    false
}

fn primary_index(outputs: &Vec<Output>) -> (index: usize)
    requires
        outputs@.len() > 0,
    ensures
        is_primary_index(outputs@, index as int),
{
    let mut index: usize = 0;
    while index < outputs.len()
        invariant
            index <= outputs.len(),
            outputs@.len() > 0,
            forall|i: int| 0 <= i < index ==> !(#[trigger] outputs@[i]).primary,
        decreases outputs.len() - index,
    {
        if outputs[index].primary {
            return index;
        }
        index += 1;
    }
    0
}

/// Rectangles that share area are at distance zero, and any two rectangles
/// share a non-negative area.
proof fn lemma_sharing_is_touching(a: Geometry, b: Geometry)
    ensures
        geometry::shared_area(a, b) >= 0,
        geometry::shared_area(a, b) > 0 ==> geometry::squared_distance(a, b) == 0,
        geometry::squared_distance(a, b) >= 0,
{
    let width = geometry::shared_length(a.x as int, a.right(), b.x as int, b.right());
    let height = geometry::shared_length(a.y as int, a.bottom(), b.y as int, b.bottom());
    let horizontal = geometry::span_gap(a.x as int, a.right(), b.x as int, b.right());
    let vertical = geometry::span_gap(a.y as int, a.bottom(), b.y as int, b.bottom());
    assert(width * height >= 0 && (width * height > 0 ==> width > 0 && height > 0))
        by (nonlinear_arith)
        requires
            width >= 0,
            height >= 0,
    ;
    assert(horizontal * horizontal >= 0) by (nonlinear_arith);
    assert(vertical * vertical >= 0) by (nonlinear_arith);
    assert(horizontal == 0 ==> horizontal * horizontal == 0) by (nonlinear_arith);
    assert(vertical == 0 ==> vertical * vertical == 0) by (nonlinear_arith);
}

/// No two positions can both hold the best output.
proof fn lemma_best_index_is_unique(outputs: Seq<Output>, wanted: Geometry, index: int)
    requires
        is_best_index(outputs, wanted, index),
    ensures
        best_output(outputs, wanted) == outputs[index],
{
    let chosen = choose|i: int| #[trigger] is_best_index(outputs, wanted, i);
    assert(is_best_index(outputs, wanted, chosen));
    if chosen < index {
        assert(serves_better(outputs[index], outputs[chosen], wanted));
    } else if index < chosen {
        assert(serves_better(outputs[chosen], outputs[index], wanted));
    }
}

} // verus!
