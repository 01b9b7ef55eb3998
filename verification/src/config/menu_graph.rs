//! Loops among menus.
//!
//! Menus are numbered, and each number has the list of menus that its entries lead to.

use vstd::prelude::*;

verus! {

/// Whether every link leads to a menu.
pub open spec fn closed_graph(graph: Seq<Seq<int>>) -> bool {
    forall|i: int, j: int|
        0 <= i < graph.len() && 0 <= j < graph[i].len() ==> 0 <= #[trigger] graph[i][j]
            < graph.len()
}

/// Whether one menu leads to another.
pub open spec fn leads(graph: Seq<Seq<int>>, from: int, to: int) -> bool {
    0 <= from < graph.len() && graph[from].contains(to)
}

/// Whether menus lead from one to the next.
pub open spec fn path(graph: Seq<Seq<int>>, menus: Seq<int>) -> bool {
    &&& forall|i: int| 0 <= i < menus.len() ==> 0 <= #[trigger] menus[i] < graph.len()
    &&& forall|i: int|
        0 <= i < menus.len() - 1 ==> leads(graph, #[trigger] menus[i], menus[i + 1])
}

/// Whether no menu comes up twice on the way from a menu.
pub open spec fn loop_free(graph: Seq<Seq<int>>, from: int) -> bool {
    forall|menus: Seq<int>|
        #[trigger] path(graph, menus) && menus.len() > 0 && menus[0] == from
            ==> menus.no_duplicates()
}

/// The first menu that comes up twice when a menu and all it leads to are visited in order,
/// after the menus of a trail.
pub open spec fn loop_from(graph: Seq<Seq<int>>, trail: Seq<int>, menu: int) -> Option<int>
    decreases graph.len() - trail.len(), 0int,
{
    if trail.contains(menu) {
        Some(menu)
    } else if trail.len() >= graph.len() || !(0 <= menu < graph.len()) {
        None
    } else {
        loop_among(graph, trail.push(menu), graph[menu])
    }
}

/// The first menu that comes up twice when menus are visited in order after a trail.
pub open spec fn loop_among(
    graph: Seq<Seq<int>>,
    trail: Seq<int>,
    menus: Seq<int>,
) -> Option<int>
    decreases graph.len() - trail.len(), menus.len() + 1,
{
    if menus.len() == 0 {
        None
    } else {
        match loop_among(graph, trail, menus.drop_last()) {
            Some(found) => Some(found),
            None => loop_from(graph, trail, menus.last()),
        }
    }
}

/// A loop found at one menu is a loop found among them all.
proof fn lemma_among_some(graph: Seq<Seq<int>>, trail: Seq<int>, menus: Seq<int>, i: int)
    requires
        0 <= i < menus.len(),
        loop_from(graph, trail, menus[i]) is Some,
    ensures
        loop_among(graph, trail, menus) is Some,
    decreases menus.len(),
{
    if i < menus.len() - 1 {
        lemma_among_some(graph, trail, menus.drop_last(), i);
    }
}

/// A loop found among fewer menus is the first one among more.
proof fn lemma_among_prefix(graph: Seq<Seq<int>>, trail: Seq<int>, menus: Seq<int>, length: int)
    requires
        0 <= length <= menus.len(),
        loop_among(graph, trail, menus.take(length)) is Some,
    ensures
        loop_among(graph, trail, menus) == loop_among(graph, trail, menus.take(length)),
    decreases menus.len(),
{
    if length < menus.len() {
        assert(menus.drop_last().take(length) =~= menus.take(length));
        lemma_among_prefix(graph, trail, menus.drop_last(), length);
    } else {
        assert(menus.take(length) =~= menus);
    }
}

/// Distinct numbers below a bound are no more than the bound.
proof fn lemma_distinct_bound(numbers: Seq<int>, bound: nat)
    requires
        numbers.no_duplicates(),
        forall|i: int| 0 <= i < numbers.len() ==> 0 <= #[trigger] numbers[i] < bound,
    ensures
        numbers.len() <= bound,
{
    let all = vstd::set_lib::set_int_range(0, bound as int);
    vstd::set_lib::lemma_int_range(0, bound as int);
    numbers.unique_seq_to_set();
    assert(numbers.to_set().subset_of(all)) by {
        assert forall|x: int| numbers.to_set().contains(x) implies all.contains(x) by {
            let i = choose|i: int| 0 <= i < numbers.len() && numbers[i] == x;
            assert(0 <= numbers[i] < bound);
        }
    }
    vstd::set_lib::lemma_len_subset(numbers.to_set(), all);
}

/// A way that comes back to itself or to the trail is found.
proof fn lemma_repeat_is_found(
    graph: Seq<Seq<int>>,
    trail: Seq<int>,
    menus: Seq<int>,
)
    requires
        closed_graph(graph),
        path(graph, menus),
        menus.len() > 0,
        trail.no_duplicates(),
        forall|i: int| 0 <= i < trail.len() ==> 0 <= #[trigger] trail[i] < graph.len(),
        !menus.no_duplicates() || exists|i: int|
            0 <= i < menus.len() && trail.contains(#[trigger] menus[i]),
    ensures
        loop_from(graph, trail, menus[0]) is Some,
    decreases menus.len(),
{
    let menu = menus[0];
    if !trail.contains(menu) {
        let longer = trail.push(menu);
        assert(longer.no_duplicates());
        lemma_distinct_bound(longer, graph.len());
        if menus.len() == 1 {
            assert(menus.no_duplicates());
        }
        let rest = menus.skip(1);
        assert(path(graph, rest)) by {
            assert forall|i: int| 0 <= i < rest.len() - 1 implies leads(
                graph,
                #[trigger] rest[i],
                rest[i + 1],
            ) by {
                assert(leads(graph, menus[i + 1], menus[i + 1 + 1]));
            }
        }
        if !menus.no_duplicates() {
            let (i, j) = choose|i: int, j: int|
                0 <= i < j < menus.len() && menus[i] == menus[j];
            if i > 0 {
                assert(rest[i - 1] == rest[j - 1]);
                assert(!rest.no_duplicates());
            } else {
                assert(rest[j - 1] == menu);
                assert(longer[trail.len() as int] == menu);
                assert(longer.contains(rest[j - 1]));
            }
        } else {
            let i = choose|i: int| 0 <= i < menus.len() && trail.contains(#[trigger] menus[i]);
            let at = choose|at: int| 0 <= at < trail.len() && trail[at] == menus[i];
            assert(longer[at] == menus[i]);
            assert(rest[i - 1] == menus[i]);
            assert(longer.contains(rest[i - 1]));
        }
        lemma_repeat_is_found(graph, longer, rest);
        assert(leads(graph, menus[0], menus[0int + 1]));
        let k = choose|k: int| 0 <= k < graph[menu].len() && graph[menu][k] == menus[1];
        assert(rest[0] == menus[1]);
        lemma_among_some(graph, longer, graph[menu], k);
    }
}

/// Where nothing is found, the way from the menu is free of loops.
proof fn lemma_nothing_found(graph: Seq<Seq<int>>, trail: Seq<int>, menu: int)
    requires
        closed_graph(graph),
        0 <= menu < graph.len(),
        trail.no_duplicates(),
        forall|i: int| 0 <= i < trail.len() ==> 0 <= #[trigger] trail[i] < graph.len(),
        loop_from(graph, trail, menu) is None,
    ensures
        loop_free(graph, menu),
{
    assert forall|menus: Seq<int>| #[trigger]
        path(graph, menus) && menus.len() > 0 && menus[0] == menu implies menus.no_duplicates() by {
        if !menus.no_duplicates() {
            lemma_repeat_is_found(graph, trail, menus);
        }
    }
}

/// A found menu ends a way from the menu, and stands earlier on the trail or on that way.
proof fn lemma_found_is_a_repeat(graph: Seq<Seq<int>>, trail: Seq<int>, menu: int) -> (menus: Seq<
    int,
>)
    requires
        closed_graph(graph),
        0 <= menu < graph.len(),
        loop_from(graph, trail, menu) is Some,
    ensures
        path(graph, menus),
        menus.len() > 0,
        menus[0] == menu,
        menus.last() == loop_from(graph, trail, menu)->Some_0,
        !menus.no_duplicates() || trail.contains(menus.last()),
    decreases graph.len() - trail.len(), 0int,
{
    if trail.contains(menu) {
        seq![menu]
    } else {
        let longer = trail.push(menu);
        let rest = lemma_found_among(graph, longer, graph[menu], menu);
        let menus = seq![menu] + rest;
        assert(menus.skip(1) =~= rest);
        assert(path(graph, menus)) by {
            assert forall|i: int| 0 <= i < menus.len() - 1 implies leads(
                graph,
                #[trigger] menus[i],
                menus[i + 1],
            ) by {
                if i > 0 {
                    assert(leads(graph, rest[i - 1], rest[i - 1 + 1]));
                }
            }
        }
        if !rest.no_duplicates() {
            let (i, j) = choose|i: int, j: int| 0 <= i < j < rest.len() && rest[i] == rest[j];
            assert(menus[i + 1] == menus[j + 1]);
        } else if !trail.contains(menus.last()) {
            let at = choose|at: int| 0 <= at < longer.len() && longer[at] == rest.last();
            if at < trail.len() {
                assert(trail[at] == rest.last());
            }
            assert(menus[0] == menus[menus.len() - 1]);
        }
        menus
    }
}

proof fn lemma_found_among(
    graph: Seq<Seq<int>>,
    trail: Seq<int>,
    choices: Seq<int>,
    from: int,
) -> (menus: Seq<int>)
    requires
        closed_graph(graph),
        0 <= from < graph.len(),
        forall|i: int| 0 <= i < choices.len() ==> leads(graph, from, #[trigger] choices[i]),
        loop_among(graph, trail, choices) is Some,
    ensures
        path(graph, menus),
        menus.len() > 0,
        leads(graph, from, menus[0]),
        menus.last() == loop_among(graph, trail, choices)->Some_0,
        !menus.no_duplicates() || trail.contains(menus.last()),
    decreases graph.len() - trail.len(), choices.len() + 1,
{
    if loop_among(graph, trail, choices.drop_last()) is Some {
        lemma_found_among(graph, trail, choices.drop_last(), from)
    } else {
        let last = choices[choices.len() - 1];
        assert(leads(graph, from, last));
        let k = choose|k: int| 0 <= k < graph[from].len() && graph[from][k] == last;
        assert(0 <= graph[from][k] < graph.len());
        lemma_found_is_a_repeat(graph, trail, last)
    }
}

/// Where the way from a menu is free of loops, nothing is found there behind a trail that leads
/// to it.
proof fn lemma_loop_free_finds_nothing(graph: Seq<Seq<int>>, trail: Seq<int>, menu: int)
    requires
        closed_graph(graph),
        path(graph, trail.push(menu)),
        loop_free(graph, menu),
    ensures
        loop_from(graph, trail, menu) is None,
{
    assert(trail.push(menu)[trail.len() as int] == menu);
    if loop_from(graph, trail, menu) is Some {
        let menus = lemma_found_is_a_repeat(graph, trail, menu);
        assert(menus.no_duplicates());
        let at = choose|at: int| 0 <= at < trail.len() && trail[at] == menus.last();
        let back = trail.push(menu).skip(at + 1);
        let round = menus + back;
        assert(round.last() == menu);
        assert(path(graph, round)) by {
            assert forall|i: int| 0 <= i < round.len() implies 0 <= #[trigger] round[i]
                < graph.len() by {
                if i < menus.len() {
                    assert(round[i] == menus[i]);
                } else {
                    assert(round[i] == trail.push(menu)[at + 1 + i - menus.len()]);
                }
            }
            assert forall|i: int| 0 <= i < round.len() - 1 implies leads(
                graph,
                #[trigger] round[i],
                round[i + 1],
            ) by {
                if i < menus.len() - 1 {
                    assert(leads(graph, menus[i], menus[i + 1]));
                } else {
                    let k = at + 1 + i - menus.len();
                    assert(leads(graph, trail.push(menu)[k], trail.push(menu)[k + 1]));
                    if i == menus.len() - 1 {
                        assert(round[i] == trail[at]);
                        assert(k == at);
                    } else {
                        assert(round[i] == trail.push(menu)[k]);
                    }
                    assert(round[i + 1] == trail.push(menu)[k + 1]);
                }
            }
        }
        assert(round[0] == menu);
        assert(round.no_duplicates());
        assert(round[round.len() - 1] == round[0]);
        assert(round.len() > 1);
    }
}

/// A loop is found from a menu exactly if some way from that menu meets a menu twice.
pub proof fn law_loops_are_found(graph: Seq<Seq<int>>, menu: int)
    requires
        closed_graph(graph),
        0 <= menu < graph.len(),
    ensures
        loop_from(graph, Seq::empty(), menu) is None <==> loop_free(graph, menu),
{
    let trail = Seq::<int>::empty();
    if loop_from(graph, trail, menu) is None {
        lemma_nothing_found(graph, trail, menu);
    }
    if loop_free(graph, menu) {
        lemma_loop_free_finds_nothing(graph, trail, menu);
    }
}

/// The numbers of a vector.
pub open spec fn numbers(given: Seq<usize>) -> Seq<int> {
    Seq::new(given.len(), |i: int| given[i] as int)
}

/// The graph that vectors of links stand for.
pub open spec fn graph_of(links: Seq<Vec<usize>>) -> Seq<Seq<int>> {
    Seq::new(links.len(), |i: int| numbers(links[i]@))
}

/// Whether only menus without loops are marked.
pub open spec fn marks_hold(graph: Seq<Seq<int>>, marks: Seq<bool>) -> bool {
    marks.len() == graph.len() && forall|i: int|
        0 <= i < marks.len() && #[trigger] marks[i] ==> loop_free(graph, i)
}

/// Visits a menu and all it leads to, and marks the menus from which no loop can be met.
pub(crate) fn visit(
    links: &Vec<Vec<usize>>,
    menu: usize,
    trail: &mut Vec<usize>,
    complete: &mut Vec<bool>,
) -> (found: Option<usize>)
    requires
        closed_graph(graph_of(links@)),
        menu < links@.len(),
        path(graph_of(links@), numbers(old(trail)@).push(menu as int)),
        numbers(old(trail)@).no_duplicates(),
        marks_hold(graph_of(links@), old(complete)@),
    ensures
        match found {
            Some(found) => loop_from(graph_of(links@), numbers(old(trail)@), menu as int) == Some(
                found as int,
            ) && found < links@.len(),
            None => loop_from(graph_of(links@), numbers(old(trail)@), menu as int) is None
                && final(trail)@ == old(trail)@,
        },
        marks_hold(graph_of(links@), final(complete)@),
    decreases links@.len() - old(trail)@.len(),
{
    let ghost graph = graph_of(links@);
    let ghost before = numbers(trail@);
    assert(before.push(menu as int)[before.len() as int] == menu);
    assert forall|i: int| 0 <= i < before.len() implies 0 <= #[trigger] before[i]
        < graph.len() by {
        assert(before.push(menu as int)[i] == before[i]);
    }
    if complete[menu] {
        proof {
            lemma_loop_free_finds_nothing(graph, before, menu as int);
        }
        return None;
    }
    let mut index: usize = 0;
    while index < trail.len()
        invariant
            index <= trail.len(),
            menu < links@.len(),
            before == numbers(trail@),
            trail@ == old(trail)@,
            marks_hold(graph_of(links@), complete@),
            forall|i: int| 0 <= i < index ==> before[i] != menu,
        decreases trail.len() - index,
    {
        assert(before[index as int] == trail@[index as int]);
        if trail[index] == menu {
            assert(before.contains(menu as int));
            return Some(menu);
        }
        index = index + 1;
    }
    assert(!before.contains(menu as int));
    let ghost longer = before.push(menu as int);
    proof {
        assert(longer.no_duplicates());
        lemma_distinct_bound(longer, graph.len());
    }
    trail.push(menu);
    assert(numbers(trail@) =~= longer);
    let ghost pushed = trail@;
    let next = &links[menu];
    assert(graph[menu as int] == numbers(next@));
    let mut child: usize = 0;
    assert(graph[menu as int].take(0) =~= Seq::empty());
    while child < next.len()
        invariant
            child <= next.len(),
            graph == graph_of(links@),
            closed_graph(graph),
            menu < links@.len(),
            next == links@[menu as int],
            graph[menu as int] == numbers(next@),
            numbers(trail@) == longer,
            trail@ == pushed,
            pushed == old(trail)@.push(menu),
            longer == before.push(menu as int),
            before == numbers(old(trail)@),
            !before.contains(menu as int),
            before.len() < graph.len(),
            longer.no_duplicates(),
            path(graph, longer),
            marks_hold(graph, complete@),
            loop_among(graph, longer, graph[menu as int].take(child as int)) is None,
        decreases next.len() - child,
    {
        let ghost choices = graph[menu as int];
        let to = next[child];
        assert(choices[child as int] == to);
        assert(0 <= graph[menu as int][child as int] < graph.len());
        assert(choices.take(child + 1).drop_last() =~= choices.take(child as int));
        assert(path(graph, longer.push(to as int))) by {
            let further = longer.push(to as int);
            assert(leads(graph, menu as int, to as int));
            assert forall|i: int| 0 <= i < further.len() - 1 implies leads(
                graph,
                #[trigger] further[i],
                further[i + 1],
            ) by {
                if i < longer.len() - 1 {
                    assert(leads(graph, longer[i], longer[i + 1]));
                }
            }
        }
        if let Some(found) = visit(links, to, trail, complete) {
            proof {
                lemma_among_prefix(graph, longer, choices, child + 1);
            }
            return Some(found);
        }
        child = child + 1;
    }
    assert(graph[menu as int].take(child as int) =~= graph[menu as int]);
    trail.pop();
    assert(trail@ =~= old(trail)@);
    proof {
        lemma_nothing_found(graph, before, menu as int);
    }
    complete.set(menu, true);
    None
}

} // verus!
