use vstd::prelude::*;
use crate::action_optimization::graph_entity::{GraphView, OptimizeError};
use crate::actions::base::All;
use crate::action_optimization::optimize::{
    spec_apply_bunker_loops,
    spec_apply_loops,
    spec_apply_merges,
    spec_delete_bunker_loop,
    spec_delete_loop,
    spec_flipped_nodes,
    spec_merge_step,
    spec_reduce,
    spec_select,
    spec_try_merge,
    node_order,
};

verus! {

/// Whether every node of `after` is a node of `before`, so that `after`
/// has no more nodes than `before`.
pub open spec fn no_new_nodes(before: GraphView, after: GraphView) -> bool {
    &&& after.nodes.dom().subset_of(before.nodes.dom())
    &&& after.nodes.dom().finite()
    &&& after.nodes.len() <= before.nodes.len()
}

proof fn lemma_subset_is_smaller(before: GraphView, after: GraphView)
    requires
        before.nodes.dom().finite(),
        after.nodes.dom().subset_of(before.nodes.dom()),
    ensures
        no_new_nodes(before, after),
{
    vstd::set_lib::lemma_len_subset(after.nodes.dom(), before.nodes.dom());
}

/// A merge of two nodes adds no node to a graph.
pub proof fn lemma_try_merge_adds_no_node(graph: GraphView, parent: usize, child: usize)
    requires
        graph.nodes.dom().finite(),
    ensures
        spec_try_merge(graph, parent, child) matches Ok((merged, _)) ==> no_new_nodes(
            graph,
            merged,
        ),
{
    if let Ok((merged, _)) = spec_try_merge(graph, parent, child) {
        lemma_subset_is_smaller(graph, merged);
    }
}

/// Taking a pair of nodes out of a graph adds no node to it.
pub proof fn lemma_delete_loop_adds_no_node(graph: GraphView, parent: usize, child: usize)
    requires
        graph.nodes.dom().finite(),
    ensures
        spec_delete_loop(graph, parent, child) matches Ok(deleted) ==> no_new_nodes(
            graph,
            deleted,
        ),
{
    if let Ok(deleted) = spec_delete_loop(graph, parent, child) {
        lemma_subset_is_smaller(graph, deleted);
    }
}

/// Taking a bunker loop out of a graph adds no node to it.
pub proof fn lemma_delete_bunker_loop_adds_no_node(graph: GraphView, parent: usize, child: usize)
    requires
        graph.nodes.dom().finite(),
    ensures
        spec_delete_bunker_loop(graph, parent, child) matches Ok(deleted) ==> no_new_nodes(
            graph,
            deleted,
        ),
{
    if let Ok(deleted) = spec_delete_bunker_loop(graph, parent, child) {
        if let (All::Bunkerize(p), All::Bunkerize(c)) = (
            graph.nodes[parent as int],
            graph.nodes[child as int],
        ) {
            let flipped = GraphView {
                nodes: spec_flipped_nodes(
                    graph,
                    parent as int,
                    p.bunker_slot_index,
                    c.bunker_slot_index,
                ),
                edges: graph.edges,
            };
            assert(flipped.nodes.dom() =~= graph.nodes.dom());
            lemma_delete_loop_adds_no_node(flipped, parent, child);
        }
        lemma_subset_is_smaller(graph, deleted);
    }
}

proof fn lemma_apply_merges_adds_no_node(graph: GraphView, pairs: Seq<(usize, usize)>)
    requires
        graph.nodes.dom().finite(),
    ensures
        spec_apply_merges(graph, pairs) matches Ok(merged) ==> no_new_nodes(graph, merged),
    decreases pairs.len(),
{
    if pairs.len() > 0 {
        lemma_try_merge_adds_no_node(graph, pairs[0].0, pairs[0].1);
        if let Ok((next, _)) = spec_try_merge(graph, pairs[0].0, pairs[0].1) {
            lemma_apply_merges_adds_no_node(next, pairs.drop_first());
        }
    }
}

proof fn lemma_apply_loops_adds_no_node(graph: GraphView, pairs: Seq<(usize, usize)>)
    requires
        graph.nodes.dom().finite(),
    ensures
        spec_apply_loops(graph, pairs) matches Ok(cleaned) ==> no_new_nodes(graph, cleaned),
    decreases pairs.len(),
{
    if pairs.len() > 0 {
        lemma_delete_loop_adds_no_node(graph, pairs[0].0, pairs[0].1);
        if let Ok(next) = spec_delete_loop(graph, pairs[0].0, pairs[0].1) {
            lemma_apply_loops_adds_no_node(next, pairs.drop_first());
        }
    }
}

proof fn lemma_apply_bunker_loops_adds_no_node(graph: GraphView, pairs: Seq<(usize, usize)>)
    requires
        graph.nodes.dom().finite(),
    ensures
        spec_apply_bunker_loops(graph, pairs) matches Ok(cleaned) ==> no_new_nodes(
            graph,
            cleaned,
        ),
    decreases pairs.len(),
{
    if pairs.len() > 0 {
        lemma_delete_bunker_loop_adds_no_node(graph, pairs[0].0, pairs[0].1);
        if let Ok(next) = spec_delete_bunker_loop(graph, pairs[0].0, pairs[0].1) {
            lemma_apply_bunker_loops_adds_no_node(next, pairs.drop_first());
        }
    }
}

/// A pass adds no node to a graph: the number of nodes never grows from
/// pass to pass.
pub proof fn lemma_pass_adds_no_node(graph: GraphView)
    requires
        graph.nodes.dom().finite(),
    ensures
        spec_merge_step(graph) matches Ok(next) ==> no_new_nodes(graph, next),
{
    reveal(spec_merge_step);
    let selection = spec_select(graph, node_order(graph.nodes.dom()));
    lemma_apply_merges_adds_no_node(graph, selection.mergeable);
    if let Ok(merged) = spec_apply_merges(graph, selection.mergeable) {
        lemma_apply_loops_adds_no_node(merged, selection.loops);
        if let Ok(cleaned) = spec_apply_loops(merged, selection.loops) {
            lemma_apply_bunker_loops_adds_no_node(cleaned, selection.bunker_loops);
        }
    }
}

/// The passes end with the first pass that leaves the number of nodes as
/// it is: what they yield is what a pass made of a graph with as many
/// nodes, and it has no more nodes than the graph that they began with.
/// As many passes as the graph has nodes are never used up.
pub proof fn lemma_passes_end_at_a_stable_pass(graph: GraphView, fuel: nat)
    requires
        graph.nodes.dom().finite(),
        graph.nodes.len() <= fuel,
    ensures
        spec_reduce(graph, fuel) matches Ok(reduced) ==> {
            &&& no_new_nodes(graph, reduced)
            &&& exists|last: GraphView|
                #[trigger] spec_merge_step(last) == Ok::<GraphView, OptimizeError>(reduced)
                    && last.nodes.len() == reduced.nodes.len()
        },
    decreases fuel,
{
    lemma_pass_adds_no_node(graph);
    if let Ok(next) = spec_merge_step(graph) {
        if next.nodes.len() == graph.nodes.len() {
            assert(spec_merge_step(graph) == Ok::<GraphView, OptimizeError>(next));
        } else if fuel == 0 {
        } else {
            lemma_passes_end_at_a_stable_pass(next, (fuel - 1) as nat);
            if let Ok(reduced) = spec_reduce(next, (fuel - 1) as nat) {
                vstd::set_lib::lemma_len_subset(reduced.nodes.dom(), next.nodes.dom());
            }
        }
    }
}

/// A pass on a graph in which no child is a candidate leaves the graph as
/// it is, and so do the passes that follow one another.
pub proof fn lemma_pass_without_candidates(graph: GraphView, fuel: nat)
    requires
        spec_select(graph, node_order(graph.nodes.dom())).mergeable.len() == 0,
        spec_select(graph, node_order(graph.nodes.dom())).loops.len() == 0,
        spec_select(graph, node_order(graph.nodes.dom())).bunker_loops.len() == 0,
    ensures
        spec_merge_step(graph) == Ok::<GraphView, OptimizeError>(graph),
        spec_reduce(graph, fuel) == Ok::<GraphView, OptimizeError>(graph),
{
    reveal(spec_merge_step);
}

} // verus!
