use vstd::prelude::*;
use crate::action_optimization::graph_entity::{
    acyclic,
    avoids,
    edge_links,
    incoming,
    into,
    out_of,
    outgoing,
    Edge,
    GraphView,
    RelationType,
};
use crate::action_optimization::net::{connected, is_path, on_cycle};
use crate::action_optimization::optimize::{
    bypasses,
    has_other_path,
    inherits,
    last_source,
    of_kind,
    passes_on,
    resource,
    retarget,
    socket_parent,
    spec_candidate_parent,
    spec_delete_loop,
    spec_delete_null_node,
    spec_merge_additions,
    spec_merge_edges,
    spec_merged,
    spec_rewired,
    spec_spliced,
    spec_try_merge,
    survives,
    unblock_parent,
};
use crate::action_optimization::seq_facts::{lemma_filter_member, lemma_filter_places};

verus! {

/// Whether a link leads from `a` to `b`.
#[verifier::opaque]
pub open spec fn has_link(links: Seq<(int, int)>, a: int, b: int) -> bool {
    links.contains((a, b))
}

/// Each node of a path but the last has a link to the next.
pub proof fn lemma_step_of_path(links: Seq<(int, int)>, path: Seq<int>, place: int)
    requires
        is_path(links, path),
        0 <= place < path.len() - 1,
    ensures
        has_link(links, path[place], path[place + 1]),
{
    reveal(has_link);
    reveal(is_path);
    assert(links.contains((path[place], path[place + 1])));
}

/// A path has a node.
pub proof fn lemma_path_has_nodes(links: Seq<(int, int)>, path: Seq<int>)
    requires
        is_path(links, path),
    ensures
        path.len() >= 1,
{
    reveal(is_path);
}

/// Nodes of which each but the last has a link to the next form a path.
pub proof fn lemma_steps_make_path(links: Seq<(int, int)>, path: Seq<int>)
    requires
        path.len() >= 1,
        forall|i: int| 0 <= i < path.len() - 1 ==> has_link(links, #[trigger] path[i], path[i + 1]),
    ensures
        is_path(links, path),
{
    reveal(has_link);
    reveal(is_path);
    assert forall|i: int| 0 <= i < path.len() - 1 implies links.contains(
        (#[trigger] path[i], path[i + 1]),
    ) by {
        assert(has_link(links, path[i], path[i + 1]));
    }
}

/// A link leads from its source to its target.
pub proof fn lemma_link_connects(links: Seq<(int, int)>, a: int, b: int)
    requires
        has_link(links, a, b),
    ensures
        connected(links, a, b),
{
    let path = seq![a, b];
    assert forall|i: int| 0 <= i < path.len() - 1 implies has_link(
        links,
        #[trigger] path[i],
        path[i + 1],
    ) by {
        assert(path[0] == a && path[1] == b);
    }
    lemma_steps_make_path(links, path);
    assert(is_path(links, path) && path[0] == a && path.last() == b);
}

/// Every node is connected to itself.
pub proof fn lemma_connected_to_itself(links: Seq<(int, int)>, a: int)
    ensures
        connected(links, a, a),
{
    let path = seq![a];
    lemma_steps_make_path(links, path);
    assert(is_path(links, path) && path[0] == a && path.last() == a);
}

/// The path that follows `first` and then `second`, which begins where
/// `first` ends.
pub open spec fn joined_path(first: Seq<int>, second: Seq<int>) -> Seq<int> {
    first + second.drop_first()
}

/// Two paths of which the second begins where the first ends make one path.
pub proof fn lemma_paths_join(links: Seq<(int, int)>, first: Seq<int>, second: Seq<int>)
    requires
        is_path(links, first),
        is_path(links, second),
        first.last() == second[0],
    ensures
        is_path(links, joined_path(first, second)),
        joined_path(first, second)[0] == first[0],
        joined_path(first, second).last() == second.last(),
        joined_path(first, second).len() == first.len() + second.len() - 1,
{
    lemma_path_has_nodes(links, first);
    lemma_path_has_nodes(links, second);
    let path = joined_path(first, second);
    assert forall|i: int| 0 <= i < path.len() - 1 implies has_link(
        links,
        #[trigger] path[i],
        path[i + 1],
    ) by {
        if i < first.len() - 1 {
            lemma_step_of_path(links, first, i);
        } else {
            let k = i - (first.len() - 1);
            lemma_step_of_path(links, second, k);
            assert(path[i + 1] == second[k + 1]);
            if i == first.len() - 1 {
                assert(path[i] == first.last());
            } else {
                assert(path[i] == second[k]);
            }
        }
    }
    lemma_steps_make_path(links, path);
}

/// Where links lead from a first node to a second and from the second to
/// a third, they lead from the first to the third.
pub proof fn lemma_connected_on(links: Seq<(int, int)>, a: int, b: int, c: int)
    requires
        connected(links, a, b),
        connected(links, b, c),
    ensures
        connected(links, a, c),
{
    let first = choose|path: Seq<int>|
        #[trigger] is_path(links, path) && path[0] == a && path.last() == b;
    let second = choose|path: Seq<int>|
        #[trigger] is_path(links, path) && path[0] == b && path.last() == c;
    lemma_paths_join(links, first, second);
    let path = joined_path(first, second);
    assert(is_path(links, path) && path[0] == a && path.last() == c);
}

/// A link whose target is connected to its source closes a cycle.
pub proof fn lemma_link_closes_cycle(links: Seq<(int, int)>, a: int, b: int)
    requires
        has_link(links, a, b),
        connected(links, b, a),
    ensures
        on_cycle(links, a),
{
    let back = choose|path: Seq<int>|
        #[trigger] is_path(links, path) && path[0] == b && path.last() == a;
    let step = seq![a, b];
    assert forall|i: int| 0 <= i < step.len() - 1 implies has_link(
        links,
        #[trigger] step[i],
        step[i + 1],
    ) by {
        assert(step[0] == a && step[1] == b);
    }
    lemma_steps_make_path(links, step);
    lemma_paths_join(links, step, back);
    let path = joined_path(step, back);
    assert(is_path(links, path) && path.len() >= 2 && path[0] == a && path.last() == a);
}

/// A part of a path is a path.
pub proof fn lemma_part_of_path(links: Seq<(int, int)>, path: Seq<int>, from: int, to: int)
    requires
        is_path(links, path),
        0 <= from <= to < path.len(),
    ensures
        is_path(links, path.subrange(from, to + 1)),
        path.subrange(from, to + 1)[0] == path[from],
        path.subrange(from, to + 1).last() == path[to],
{
    let part = path.subrange(from, to + 1);
    assert forall|i: int| 0 <= i < part.len() - 1 implies has_link(
        links,
        #[trigger] part[i],
        part[i + 1],
    ) by {
        lemma_step_of_path(links, path, from + i);
    }
    lemma_steps_make_path(links, part);
}

/// Whether a link from `a` to `b` stands for a link of `lower` from `a`
/// that leads on, over further links of `lower`, to `b`.
pub open spec fn link_lifts(lower: Seq<(int, int)>, a: int, b: int) -> bool {
    exists|z: int| #[trigger] has_link(lower, a, z) && connected(lower, z, b)
}

/// Whether each link of `upper` stands for a walk along links of `lower`.
pub open spec fn lifts_to_walks(lower: Seq<(int, int)>, upper: Seq<(int, int)>) -> bool {
    forall|a: int, b: int| #[trigger] has_link(upper, a, b) ==> link_lifts(lower, a, b)
}

proof fn lemma_lifted_link_connects(lower: Seq<(int, int)>, a: int, b: int)
    requires
        link_lifts(lower, a, b),
    ensures
        connected(lower, a, b),
{
    let z = choose|z: int| #[trigger] has_link(lower, a, z) && connected(lower, z, b);
    lemma_link_connects(lower, a, z);
    lemma_connected_on(lower, a, z, b);
}

proof fn lemma_walk_lifts(
    lower: Seq<(int, int)>,
    upper: Seq<(int, int)>,
    path: Seq<int>,
    from: int,
    to: int,
)
    requires
        lifts_to_walks(lower, upper),
        is_path(upper, path),
        0 <= from <= to < path.len(),
    ensures
        connected(lower, path[from], path[to]),
    decreases to - from,
{
    if from == to {
        lemma_connected_to_itself(lower, path[from]);
    } else {
        lemma_walk_lifts(lower, upper, path, from, to - 1);
        lemma_step_of_path(upper, path, to - 1);
        assert(link_lifts(lower, path[to - 1], path[to]));
        lemma_lifted_link_connects(lower, path[to - 1], path[to]);
        lemma_connected_on(lower, path[from], path[to - 1], path[to]);
    }
}

/// Links that stand for walks along links without a cycle form no cycle.
pub proof fn lemma_lifted_links_acyclic(lower: Seq<(int, int)>, upper: Seq<(int, int)>)
    requires
        acyclic(lower),
        lifts_to_walks(lower, upper),
    ensures
        acyclic(upper),
{
    assert forall|node: int| !on_cycle(upper, node) by {
        if on_cycle(upper, node) {
            let path = choose|path: Seq<int>|
                #[trigger] is_path(upper, path) && path.len() >= 2 && path[0] == node
                    && path.last() == node;
            lemma_step_of_path(upper, path, 0);
            assert(link_lifts(lower, path[0], path[1]));
            let z = choose|z: int|
                #[trigger] has_link(lower, path[0], z) && connected(lower, z, path[1]);
            lemma_walk_lifts(lower, upper, path, 1, path.len() - 1);
            lemma_connected_on(lower, z, path[1], node);
            lemma_link_closes_cycle(lower, node, z);
            assert(on_cycle(lower, node));
        }
    }
}

/// What a link from `a` to `b` of a graph in which `parent` has been
/// merged into `child` stands for in the graph before: the same link, a
/// link from `a` into `parent`, a link from `parent` to `b`, or a link
/// from `a` into `parent` and one from `child` to `b`.
pub open spec fn merged_link_lifts(
    lower: Seq<(int, int)>,
    parent: int,
    child: int,
    a: int,
    b: int,
) -> bool {
    &&& a != parent
    &&& b != parent
    &&& {
        ||| has_link(lower, a, b)
        ||| b == child && has_link(lower, a, parent)
        ||| a == child && b != child && has_link(lower, parent, b)
        ||| has_link(lower, a, parent) && has_link(lower, child, b)
    }
}

/// Whether every link of `upper` stands for links of `lower` as the links
/// of a graph do in which `parent` has been merged into `child`.
pub open spec fn lifts_over_merge(
    lower: Seq<(int, int)>,
    upper: Seq<(int, int)>,
    parent: int,
    child: int,
) -> bool {
    forall|a: int, b: int| #[trigger]
        has_link(upper, a, b) ==> merged_link_lifts(lower, parent, child, a, b)
}

/// Whether `bypass` holds every link of `lower` but those from `parent`
/// straight to `child`.
pub open spec fn holds_bypasses(
    lower: Seq<(int, int)>,
    bypass: Seq<(int, int)>,
    parent: int,
    child: int,
) -> bool {
    forall|a: int, b: int| #[trigger]
        has_link(lower, a, b) && !(a == parent && b == child) ==> has_link(bypass, a, b)
}

proof fn lemma_inner_link(
    lower: Seq<(int, int)>,
    parent: int,
    child: int,
    a: int,
    b: int,
)
    requires
        has_link(lower, parent, child),
        merged_link_lifts(lower, parent, child, a, b),
        a != child,
        b != child,
    ensures
        link_lifts(lower, a, b),
{
    if has_link(lower, a, b) {
        lemma_connected_to_itself(lower, b);
    } else {
        lemma_link_connects(lower, parent, child);
        lemma_link_connects(lower, child, b);
        lemma_connected_on(lower, parent, child, b);
        assert(has_link(lower, a, parent) && connected(lower, parent, b));
    }
}

proof fn lemma_inner_walk(
    lower: Seq<(int, int)>,
    upper: Seq<(int, int)>,
    parent: int,
    child: int,
    path: Seq<int>,
    from: int,
    to: int,
)
    requires
        has_link(lower, parent, child),
        lifts_over_merge(lower, upper, parent, child),
        is_path(upper, path),
        0 <= from <= to < path.len(),
        forall|i: int| from <= i <= to ==> path[i] != child,
    ensures
        connected(lower, path[from], path[to]),
    decreases to - from,
{
    if from == to {
        lemma_connected_to_itself(lower, path[from]);
    } else {
        lemma_inner_walk(lower, upper, parent, child, path, from, to - 1);
        lemma_step_of_path(upper, path, to - 1);
        assert(merged_link_lifts(lower, parent, child, path[to - 1], path[to]));
        lemma_inner_link(lower, parent, child, path[to - 1], path[to]);
        lemma_lifted_link_connects(lower, path[to - 1], path[to]);
        lemma_connected_on(lower, path[from], path[to - 1], path[to]);
    }
}

/// A closed path, begun at another of its places.
pub open spec fn rotated(path: Seq<int>, place: int) -> Seq<int> {
    path.subrange(place, path.len() as int) + path.subrange(1, place + 1)
}

proof fn lemma_rotated(links: Seq<(int, int)>, path: Seq<int>, place: int)
    requires
        is_path(links, path),
        path.len() >= 2,
        path[0] == path.last(),
        0 <= place < path.len(),
    ensures
        is_path(links, rotated(path, place)),
        rotated(path, place).len() == path.len(),
        rotated(path, place)[0] == path[place],
        rotated(path, place).last() == path[place],
{
    let turned = rotated(path, place);
    let tail = path.len() - place;
    assert forall|i: int| 0 <= i < turned.len() - 1 implies has_link(
        links,
        #[trigger] turned[i],
        turned[i + 1],
    ) by {
        if i < tail - 1 {
            lemma_step_of_path(links, path, place + i);
        } else if i == tail - 1 {
            assert(turned[i] == path[path.len() - 1]);
            assert(turned[i + 1] == path[1]);
            lemma_step_of_path(links, path, 0);
        } else {
            let k = i - tail + 1;
            assert(turned[i] == path[k]);
            assert(turned[i + 1] == path[k + 1]);
            lemma_step_of_path(links, path, k);
        }
    }
    lemma_steps_make_path(links, turned);
    if place == 0 {
        assert(turned.last() == path[0]);
    }
}

proof fn lemma_first_return(links: Seq<(int, int)>, path: Seq<int>, node: int) -> (part: Seq<
    int,
>)
    requires
        is_path(links, path),
        path.len() >= 2,
        path[0] == node,
        path.last() == node,
    ensures
        is_path(links, part),
        part.len() >= 2,
        part[0] == node,
        part.last() == node,
        forall|i: int| 0 < i < part.len() - 1 ==> part[i] != node,
    decreases path.len(),
{
    if exists|i: int| 0 < i < path.len() - 1 && path[i] == node {
        let i = choose|i: int| 0 < i < path.len() - 1 && path[i] == node;
        lemma_part_of_path(links, path, 0, i);
        lemma_first_return(links, path.subrange(0, i + 1), node)
    } else {
        path
    }
}

proof fn lemma_bypassing_path(
    lower: Seq<(int, int)>,
    bypass: Seq<(int, int)>,
    parent: int,
    child: int,
    first: int,
    last: int,
)
    requires
        acyclic(lower),
        holds_bypasses(lower, bypass, parent, child),
        has_link(lower, parent, first),
        first != child,
        connected(lower, first, last),
        has_link(lower, last, child),
        last != parent,
    ensures
        connected(bypass, parent, child),
{
    let middle = choose|path: Seq<int>|
        #[trigger] is_path(lower, path) && path[0] == first && path.last() == last;
    lemma_path_has_nodes(lower, middle);
    assert forall|i: int| 0 <= i < middle.len() - 1 implies has_link(
        bypass,
        #[trigger] middle[i],
        middle[i + 1],
    ) by {
        lemma_step_of_path(lower, middle, i);
        if middle[i] == parent && middle[i + 1] == child {
            lemma_part_of_path(lower, middle, 0, i);
            let part = middle.subrange(0, i + 1);
            assert(is_path(lower, part) && part[0] == first && part.last() == parent);
            lemma_link_closes_cycle(lower, parent, first);
            assert(on_cycle(lower, parent));
        }
    }
    lemma_steps_make_path(bypass, middle);
    assert(is_path(bypass, middle) && middle[0] == first && middle.last() == last);
    lemma_link_connects(bypass, parent, first);
    lemma_link_connects(bypass, last, child);
    lemma_connected_on(bypass, parent, first, last);
    lemma_connected_on(bypass, parent, last, child);
}

/// A way from the child round to the child, without the child in
/// between, in a graph in which the parent has been merged into the
/// child, shows another way from the parent to the child in the graph
/// before, if that graph has no cycle.
proof fn lemma_round_trip_shows_bypass(
    lower: Seq<(int, int)>,
    upper: Seq<(int, int)>,
    bypass: Seq<(int, int)>,
    parent: int,
    child: int,
    round: Seq<int>,
)
    requires
        acyclic(lower),
        has_link(lower, parent, child),
        lifts_over_merge(lower, upper, parent, child),
        holds_bypasses(lower, bypass, parent, child),
        is_path(upper, round),
        round.len() >= 2,
        round[0] == child,
        round.last() == child,
        forall|i: int| 0 < i < round.len() - 1 ==> round[i] != child,
    ensures
        connected(bypass, parent, child),
{
    lemma_link_connects(lower, parent, child);
    lemma_connected_to_itself(lower, child);
    let count = round.len() as int;
    let first = round[1];
    let last = round[count - 2];
    lemma_step_of_path(upper, round, 0);
    assert(merged_link_lifts(lower, parent, child, child, first));
    lemma_step_of_path(upper, round, count - 2);
    assert(merged_link_lifts(lower, parent, child, last, child));
    if has_link(lower, child, parent) {
        lemma_link_closes_cycle(lower, child, parent);
        assert(on_cycle(lower, child));
    } else if has_link(lower, child, child) {
        lemma_link_closes_cycle(lower, child, child);
        assert(on_cycle(lower, child));
    } else {
        assert(count >= 3);
        lemma_inner_walk(lower, upper, parent, child, round, 1, count - 2);
        if has_link(lower, child, first) {
            if has_link(lower, last, child) {
                lemma_link_connects(lower, last, child);
                lemma_connected_on(lower, first, last, child);
            } else {
                lemma_link_connects(lower, last, parent);
                lemma_connected_on(lower, first, last, parent);
                lemma_connected_on(lower, first, parent, child);
            }
            lemma_link_closes_cycle(lower, child, first);
            assert(on_cycle(lower, child));
        } else {
            assert(has_link(lower, parent, first));
            if has_link(lower, last, child) {
                lemma_bypassing_path(lower, bypass, parent, child, first, last);
            } else {
                lemma_link_connects(lower, last, parent);
                lemma_connected_on(lower, first, last, parent);
                lemma_link_closes_cycle(lower, parent, first);
                assert(on_cycle(lower, parent));
            }
        }
    }
}

proof fn lemma_cycle_past_child(
    lower: Seq<(int, int)>,
    upper: Seq<(int, int)>,
    parent: int,
    child: int,
    path: Seq<int>,
)
    requires
        has_link(lower, parent, child),
        lifts_over_merge(lower, upper, parent, child),
        is_path(upper, path),
        path.len() >= 2,
        path[0] == path.last(),
        forall|i: int| 0 <= i < path.len() ==> path[i] != child,
    ensures
        on_cycle(lower, path[0]),
{
    let a = path[0];
    let b = path[1];
    lemma_step_of_path(upper, path, 0);
    assert(merged_link_lifts(lower, parent, child, a, b));
    lemma_inner_link(lower, parent, child, a, b);
    let z = choose|z: int| #[trigger] has_link(lower, a, z) && connected(lower, z, b);
    lemma_inner_walk(lower, upper, parent, child, path, 1, path.len() - 1);
    lemma_connected_on(lower, z, b, a);
    lemma_link_closes_cycle(lower, a, z);
}

/// Merging a parent into its child leaves a graph without a cycle
/// without one, where the link from the parent to the child is the only
/// way that leads from the one to the other.
pub proof fn lemma_contraction_acyclic(
    lower: Seq<(int, int)>,
    upper: Seq<(int, int)>,
    bypass: Seq<(int, int)>,
    parent: int,
    child: int,
)
    requires
        acyclic(lower),
        has_link(lower, parent, child),
        lifts_over_merge(lower, upper, parent, child),
        holds_bypasses(lower, bypass, parent, child),
        !connected(bypass, parent, child),
    ensures
        acyclic(upper),
{
    assert forall|node: int| !on_cycle(upper, node) by {
        if on_cycle(upper, node) {
            let path = choose|path: Seq<int>|
                #[trigger] is_path(upper, path) && path.len() >= 2 && path[0] == node
                    && path.last() == node;
            if exists|i: int| 0 <= i < path.len() && path[i] == child {
                let place = choose|i: int| 0 <= i < path.len() && path[i] == child;
                lemma_rotated(upper, path, place);
                let round = lemma_first_return(upper, rotated(path, place), child);
                lemma_round_trip_shows_bypass(lower, upper, bypass, parent, child, round);
            } else {
                lemma_cycle_past_child(lower, upper, parent, child, path);
            }
        }
    }
}

/// An edge of a graph is one of its links.
pub proof fn lemma_edge_is_link(edges: Seq<Edge>, edge: Edge)
    requires
        edges.contains(edge),
    ensures
        has_link(edge_links(edges), edge.source, edge.target),
{
    reveal(has_link);
    let k = choose|k: int| 0 <= k < edges.len() && edges[k] == edge;
    assert(edge_links(edges)[k] == (edge.source, edge.target));
}

/// A link of a graph is one of its edges.
pub proof fn lemma_link_is_edge(edges: Seq<Edge>, a: int, b: int) -> (edge: Edge)
    requires
        has_link(edge_links(edges), a, b),
    ensures
        edges.contains(edge),
        edge.source == a,
        edge.target == b,
{
    reveal(has_link);
    let k = choose|k: int| 0 <= k < edge_links(edges).len() && edge_links(edges)[k] == (a, b);
    assert(edges[k].source == a && edges[k].target == b);
    edges[k]
}

proof fn lemma_last_source_is_source(edges: Seq<Edge>, kind: RelationType) -> (edge: Edge)
    requires
        last_source(edges, kind) is Some,
    ensures
        edges.contains(edge),
        edge.source == last_source(edges, kind)->Some_0,
    decreases edges.len(),
{
    if edges.last().kind == kind {
        assert(edges[edges.len() - 1] == edges.last());
        edges.last()
    } else {
        let edge = lemma_last_source_is_source(edges.drop_last(), kind);
        let k = choose|k: int| 0 <= k < edges.drop_last().len() && edges.drop_last()[k] == edge;
        assert(edges[k] == edge);
        edge
    }
}

/// What stands at a place of a sequence of images is the image of what
/// stands at the place.
proof fn lemma_filtered_edge(edges: Seq<Edge>, test: spec_fn(Edge) -> bool, place: int) -> (edge:
    Edge)
    requires
        0 <= place < edges.filter(test).len(),
    ensures
        edge == edges.filter(test)[place],
        edges.contains(edge),
        test(edge),
{
    lemma_filter_places(edges, test);
    edges.filter(test)[place]
}

proof fn lemma_inherited_link(graph: GraphView, parent: int, child: int, place: int)
    requires
        0 <= place < incoming(graph.edges, parent).filter(inherits()).len(),
    ensures
        ({
            let edge = incoming(graph.edges, parent).filter(inherits()).map_values(
                retarget(child),
            )[place];
            edge.target == child && has_link(edge_links(graph.edges), edge.source, parent)
        }),
{
    let before = lemma_filtered_edge(incoming(graph.edges, parent), inherits(), place);
    lemma_filter_member(graph.edges, into(parent), before);
    lemma_edge_is_link(graph.edges, before);
}

proof fn lemma_passed_on_link(graph: GraphView, parent: int, child: int, place: int)
    requires
        0 <= place < outgoing(graph.edges, parent).filter(passes_on(child)).len(),
    ensures
        ({
            let edge = outgoing(graph.edges, parent).filter(passes_on(child)).map_values(
                resource(child),
            )[place];
            edge.source == child && edge.target != child && has_link(
                edge_links(graph.edges),
                parent,
                edge.target,
            )
        }),
{
    let before = lemma_filtered_edge(outgoing(graph.edges, parent), passes_on(child), place);
    lemma_filter_member(graph.edges, out_of(parent), before);
    lemma_edge_is_link(graph.edges, before);
}

proof fn lemma_rewired_link(graph: GraphView, parent: int, child: int, place: int)
    requires
        0 <= place < spec_rewired(graph, parent, child).len(),
    ensures
        ({
            let edge = spec_rewired(graph, parent, child)[place];
            has_link(edge_links(graph.edges), edge.source, parent) && has_link(
                edge_links(graph.edges),
                child,
                edge.target,
            )
        }),
{
    let into_parent = incoming(graph.edges, parent);
    let unblocked = outgoing(graph.edges, child).filter(of_kind(RelationType::Unblock));
    let before = lemma_filtered_edge(
        outgoing(graph.edges, child),
        of_kind(RelationType::Unblock),
        place,
    );
    lemma_filter_member(graph.edges, out_of(child), before);
    lemma_edge_is_link(graph.edges, before);
    let kind = if unblock_parent(graph, parent) is Some {
        RelationType::Unblock
    } else {
        RelationType::Socket
    };
    let giver = lemma_last_source_is_source(into_parent, kind);
    lemma_filter_member(graph.edges, into(parent), giver);
    lemma_edge_is_link(graph.edges, giver);
}

proof fn lemma_added_link(graph: GraphView, parent: int, child: int, place: int)
    requires
        0 <= place < spec_merge_additions(graph, parent, child).len(),
    ensures
        ({
            let edge = spec_merge_additions(graph, parent, child)[place];
            let lower = edge_links(graph.edges);
            ||| edge.target == child && has_link(lower, edge.source, parent)
            ||| edge.source == child && edge.target != child && has_link(
                lower,
                parent,
                edge.target,
            )
            ||| has_link(lower, edge.source, parent) && has_link(lower, child, edge.target)
        }),
{
    let inherited = incoming(graph.edges, parent).filter(inherits()).map_values(
        retarget(child),
    );
    let passed = outgoing(graph.edges, parent).filter(passes_on(child)).map_values(
        resource(child),
    );
    if place < inherited.len() {
        lemma_inherited_link(graph, parent, child, place);
    } else if place < inherited.len() + passed.len() {
        lemma_passed_on_link(graph, parent, child, place - inherited.len());
    } else {
        lemma_rewired_link(graph, parent, child, place - inherited.len() - passed.len());
    }
}

proof fn lemma_merged_link(graph: GraphView, parent: int, child: int, a: int, b: int)
    requires
        has_link(edge_links(spec_merged(graph, parent, child).edges), a, b),
    ensures
        merged_link_lifts(edge_links(graph.edges), parent, child, a, b),
{
    let merged = spec_merged(graph, parent, child);
    let drop_unblock = unblock_parent(graph, parent) is Some || socket_parent(graph, parent) is Some;
    let added = spec_merge_additions(graph, parent, child).reverse();
    let kept = graph.edges.filter(survives(child, drop_unblock));
    let edge = lemma_link_is_edge(merged.edges, a, b);
    lemma_filter_member(added + kept, avoids(parent), edge);
    let k = choose|k: int| 0 <= k < (added + kept).len() && (added + kept)[k] == edge;
    if k < added.len() {
        lemma_added_link(graph, parent, child, added.len() - 1 - k);
    } else {
        assert(kept[k - added.len()] == edge);
        assert(kept.contains(edge));
        lemma_filter_member(graph.edges, survives(child, drop_unblock), edge);
        lemma_edge_is_link(graph.edges, edge);
    }
}

/// Merging a parent into the child to which an edge leads from it leaves
/// a graph without a cycle without one, where no other way leads from the
/// parent to the child.
pub proof fn lemma_merge_keeps_acyclic(graph: GraphView, parent: int, child: int)
    requires
        acyclic(edge_links(graph.edges)),
        has_link(edge_links(graph.edges), parent, child),
        !has_other_path(graph.edges, parent, child),
    ensures
        acyclic(edge_links(spec_merged(graph, parent, child).edges)),
{
    let lower = edge_links(graph.edges);
    let upper = edge_links(spec_merged(graph, parent, child).edges);
    let bypass = edge_links(graph.edges.filter(bypasses(parent, child)));
    assert forall|a: int, b: int| #[trigger] has_link(upper, a, b) implies merged_link_lifts(
        lower,
        parent,
        child,
        a,
        b,
    ) by {
        lemma_merged_link(graph, parent, child, a, b);
    }
    assert forall|a: int, b: int| #[trigger]
        has_link(lower, a, b) && !(a == parent && b == child) implies has_link(bypass, a, b) by {
        let edge = lemma_link_is_edge(graph.edges, a, b);
        lemma_filter_member(graph.edges, bypasses(parent, child), edge);
        lemma_edge_is_link(graph.edges.filter(bypasses(parent, child)), edge);
    }
    lemma_contraction_acyclic(lower, upper, bypass, parent, child);
}

/// Leading edges past a node and taking the node out leaves a graph
/// without a cycle without one.
pub proof fn lemma_bypass_keeps_acyclic(graph: GraphView, node: int)
    requires
        acyclic(edge_links(graph.edges)),
    ensures
        spec_delete_null_node(graph, node) matches Ok(deleted) ==> acyclic(
            edge_links(deleted.edges),
        ),
{
    if let Ok(deleted) = spec_delete_null_node(graph, node) {
        let lower = edge_links(graph.edges);
        let first = spec_spliced(graph, node, RelationType::Move);
        let second = spec_spliced(first, node, RelationType::Unblock);
        assert forall|a: int, b: int| #[trigger]
            has_link(edge_links(first.edges), a, b) implies link_lifts(lower, a, b) by {
            lemma_spliced_link(graph, node, RelationType::Move, a, b);
        }
        lemma_lifted_links_acyclic(lower, edge_links(first.edges));
        assert forall|a: int, b: int| #[trigger]
            has_link(edge_links(second.edges), a, b) implies link_lifts(
            edge_links(first.edges),
            a,
            b,
        ) by {
            lemma_spliced_link(first, node, RelationType::Unblock, a, b);
        }
        lemma_lifted_links_acyclic(edge_links(first.edges), edge_links(second.edges));
        assert forall|a: int, b: int| #[trigger]
            has_link(edge_links(deleted.edges), a, b) implies link_lifts(
            edge_links(second.edges),
            a,
            b,
        ) by {
            let edge = lemma_link_is_edge(deleted.edges, a, b);
            lemma_filter_member(second.edges, avoids(node), edge);
            lemma_edge_is_link(second.edges, edge);
            lemma_connected_to_itself(edge_links(second.edges), b);
        }
        lemma_lifted_links_acyclic(edge_links(second.edges), edge_links(deleted.edges));
    }
}

proof fn lemma_spliced_link(graph: GraphView, node: int, kind: RelationType, a: int, b: int)
    requires
        has_link(edge_links(spec_spliced(graph, node, kind).edges), a, b),
    ensures
        link_lifts(edge_links(graph.edges), a, b),
{
    let lower = edge_links(graph.edges);
    let spliced = spec_spliced(graph, node, kind);
    let edge = lemma_link_is_edge(spliced.edges, a, b);
    let k = choose|k: int| 0 <= k < spliced.edges.len() && spliced.edges[k] == edge;
    let before = incoming(graph.edges, node).filter(of_kind(kind));
    let after = outgoing(graph.edges, node).filter(of_kind(kind));
    if before.len() == 1 && after.len() == 1 && k == 0 {
        let entering = lemma_filtered_edge(incoming(graph.edges, node), of_kind(kind), 0);
        lemma_filter_member(graph.edges, into(node), entering);
        lemma_edge_is_link(graph.edges, entering);
        let leaving = lemma_filtered_edge(outgoing(graph.edges, node), of_kind(kind), 0);
        lemma_filter_member(graph.edges, out_of(node), leaving);
        lemma_edge_is_link(graph.edges, leaving);
        lemma_link_connects(lower, node, b);
        assert(has_link(lower, a, node) && connected(lower, node, b));
    } else {
        if before.len() == 1 && after.len() == 1 {
            assert(graph.edges[k - 1] == edge);
        } else {
            assert(graph.edges[k] == edge);
        }
        assert(graph.edges.contains(edge));
        lemma_edge_is_link(graph.edges, edge);
        lemma_connected_to_itself(lower, b);
        assert(has_link(lower, a, b) && connected(lower, b, b));
    }
}

/// A merge that the edges allow leaves a graph without a cycle without
/// one, where an edge leads from the parent to the child and no other way
/// does.
pub proof fn lemma_merge_edges_keeps_acyclic(graph: GraphView, parent: usize, child: usize)
    requires
        acyclic(edge_links(graph.edges)),
        has_link(edge_links(graph.edges), parent as int, child as int),
        !has_other_path(graph.edges, parent as int, child as int),
    ensures
        spec_merge_edges(graph, parent, child) matches Ok(merged) ==> acyclic(
            edge_links(merged.edges),
        ),
{
    lemma_merge_keeps_acyclic(graph, parent as int, child as int);
}

/// Whether the ends of every edge are numbers that an index can hold.
pub open spec fn indexed(graph: GraphView) -> bool {
    forall|k: int|
        0 <= k < graph.edges.len() ==> 0 <= (#[trigger] graph.edges[k]).source <= u32::MAX && 0
            <= graph.edges[k].target <= u32::MAX
}

/// A child that is a candidate has an edge from its parent, and no other
/// way leads from the parent to it.
pub proof fn lemma_candidate_is_sole_way(graph: GraphView, used: Set<usize>, child: usize)
    requires
        indexed(graph),
    ensures
        spec_candidate_parent(graph, used, child) matches Some(parent) ==> has_link(
            edge_links(graph.edges),
            parent as int,
            child as int,
        ) && !has_other_path(graph.edges, parent as int, child as int),
{
    if let Some(parent) = spec_candidate_parent(graph, used, child) {
        let mover = lemma_filtered_edge(
            incoming(graph.edges, child as int),
            of_kind(RelationType::Move),
            0,
        );
        lemma_filter_member(graph.edges, into(child as int), mover);
        lemma_edge_is_link(graph.edges, mover);
        let k = choose|k: int| 0 <= k < graph.edges.len() && graph.edges[k] == mover;
        assert(0 <= graph.edges[k].source <= u32::MAX);
    }
}

/// Merging a candidate into its child on the graph on which it is a
/// candidate leaves a graph without a cycle without one.
pub proof fn lemma_candidate_merge_keeps_acyclic(
    graph: GraphView,
    used: Set<usize>,
    child: usize,
)
    requires
        indexed(graph),
        acyclic(edge_links(graph.edges)),
    ensures
        spec_candidate_parent(graph, used, child) matches Some(parent) ==> (spec_try_merge(
            graph,
            parent,
            child,
        ) matches Ok((merged, _)) ==> acyclic(edge_links(merged.edges))),
{
    lemma_candidate_is_sole_way(graph, used, child);
    if let Some(parent) = spec_candidate_parent(graph, used, child) {
        if let Ok((merged, done)) = spec_try_merge(graph, parent, child) {
            if done {
                let replaced = crate::action_optimization::optimize::with_action(
                    graph,
                    child as int,
                    crate::action_optimization::optimize::spec_merge_actions(
                        graph.nodes[child as int],
                        graph.nodes[parent as int],
                    )->Ok_0,
                );
                lemma_merge_edges_keeps_acyclic(replaced, parent, child);
            }
        }
    }
}

/// Taking a candidate and its child out of the graph on which they are
/// candidates leaves a graph without a cycle without one.
pub proof fn lemma_candidate_loop_keeps_acyclic(graph: GraphView, used: Set<usize>, child: usize)
    requires
        indexed(graph),
        acyclic(edge_links(graph.edges)),
    ensures
        spec_candidate_parent(graph, used, child) matches Some(parent) ==> (spec_delete_loop(
            graph,
            parent,
            child,
        ) matches Ok(deleted) ==> acyclic(edge_links(deleted.edges))),
{
    lemma_candidate_is_sole_way(graph, used, child);
    if let Some(parent) = spec_candidate_parent(graph, used, child) {
        lemma_merge_edges_keeps_acyclic(graph, parent, child);
        if let Ok(merged) = spec_merge_edges(graph, parent, child) {
            lemma_bypass_keeps_acyclic(merged, child as int);
        }
    }
}

} // verus!
