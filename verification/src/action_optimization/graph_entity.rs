use vstd::prelude::*;
use petgraph::Direction;
use crate::action_optimization::net::{
    at_node,
    away_from,
    connected,
    detour_links,
    dot_text,
    edges_at,
    edges_without_id,
    edges_without_node,
    flipped,
    graph_edges,
    graph_nodes,
    graph_slots,
    is_path,
    is_topological_order,
    links_of,
    net_add_edge,
    net_add_node,
    net_dot,
    net_edge_count,
    net_edges_directed,
    net_has_detour,
    net_new,
    net_node_count,
    net_node_indices,
    net_node_weight,
    net_remove_edge,
    net_remove_node,
    net_set_node_weight,
    net_slot_reach,
    net_toposort_reversed,
    on_cycle,
    other_id,
    raw_edges,
    slot_links,
    toposort_outcome,
    ActionNet,
    EdgeRef,
    RawEdge,
};
use crate::action_optimization::seq_facts::{
    distinct_keys,
    lemma_filter_all,
    lemma_filter_distinct,
    lemma_filter_map,
    lemma_filter_none,
    lemma_filter_places,
    lemma_filter_twice,
};
use crate::action_optimization::relation::{
    get_clear_parents,
    get_destination_parent,
    get_goal_parent,
    get_move_parents,
    lemma_parents_before,
    spec_clear_parents,
    spec_destination_parent,
    spec_goal_parent,
    spec_move_parents,
};
use crate::action_optimization::util::as_ints;
use crate::actions::base::All;

pub use crate::action_optimization::net::RelationType;

verus! {

/// One edge of a dependency graph: the action at `source` has to come
/// before the action at `target`, for the reason `kind`.
pub struct Edge {
    pub source: int,
    pub target: int,
    pub kind: RelationType,
}

/// What a dependency graph is: its actions by node index, and its edges,
/// the one added last first.
pub struct GraphView {
    pub nodes: Map<int, All>,
    pub edges: Seq<Edge>,
}

/// The edge without its index.
pub open spec fn strip(edge: RawEdge) -> Edge {
    Edge { source: edge.1, target: edge.2, kind: edge.3 }
}

/// The index of an edge.
pub open spec fn raw_id() -> spec_fn(RawEdge) -> int {
    |e: RawEdge| e.0
}

/// The test for an edge that neither starts from `node` nor ends in it.
pub open spec fn avoids(node: int) -> spec_fn(Edge) -> bool {
    |e: Edge| e.source != node && e.target != node
}

/// The edge without its index, as a function.
pub open spec fn stripper() -> spec_fn(RawEdge) -> Edge {
    |e: RawEdge| strip(e)
}

/// The edges without their indices.
pub open spec fn strip_all(edges: Seq<RawEdge>) -> Seq<Edge> {
    edges.map_values(stripper())
}

/// Source and target of each edge.
pub open spec fn edge_links(edges: Seq<Edge>) -> Seq<(int, int)> {
    edges.map_values(|e: Edge| (e.source, e.target))
}

/// The dependency graph of a sequence of actions.
pub struct ActionGraph {
    net: ActionNet,
}

impl View for ActionGraph {
    type V = GraphView;

    open spec fn view(&self) -> GraphView {
        GraphView { nodes: self.nodes(), edges: strip_all(self.tagged()) }
    }
}

impl ActionGraph {
    /// The actions by node index.
    pub closed spec fn nodes(self) -> Map<int, All> {
        graph_nodes(self.net)
    }

    /// The edges with their indices, the one added last first.
    pub closed spec fn tagged(self) -> Seq<RawEdge> {
        graph_edges(self.net)
    }

    /// The number of node indices in use or given up.
    pub closed spec fn slots(self) -> nat {
        graph_slots(self.net)
    }

    /// What holds of every graph that this library hands out: indices fit
    /// in 32 bits, no two edges share an index, and every edge joins two
    /// nodes of the graph.
    pub open spec fn wf(self) -> bool {
        &&& self.nodes().dom().finite()
        &&& self.nodes().len() <= self.slots() <= u32::MAX
        &&& forall|n: int| self.nodes().contains_key(n) ==> 0 <= n < self.slots()
        &&& self.tagged().len() <= u32::MAX
        &&& forall|i: int|
            0 <= i < self.tagged().len() ==> {
                let e = #[trigger] self.tagged()[i];
                &&& 0 <= e.0 <= u32::MAX
                &&& self.nodes().contains_key(e.1)
                &&& self.nodes().contains_key(e.2)
            }
        &&& distinct_keys(self.tagged(), raw_id())
    }

    /// A graph without nodes.
    pub fn new() -> (result: Self)
        ensures
            result.wf(),
            result.nodes() == Map::<int, All>::empty(),
            result.tagged() == Seq::<RawEdge>::empty(),
            result.slots() == 0,
    {
        let result = ActionGraph { net: net_new() };
        assert(result.nodes() =~= Map::<int, All>::empty());
        assert(result.tagged() =~= Seq::<RawEdge>::empty());
        result
    }

    /// The number of nodes.
    pub fn node_count(&self) -> (result: usize)
        ensures
            result == self.nodes().len(),
    {
        net_node_count(&self.net)
    }

    /// The number of edges.
    pub fn edge_count(&self) -> (result: usize)
        ensures
            result == self.tagged().len(),
    {
        net_edge_count(&self.net)
    }

    /// The action of a node, if the graph has the node.
    pub fn action(&self, node: usize) -> (result: Option<All>)
        requires
            self.wf(),
        ensures
            result == (if self.nodes().contains_key(node as int) {
                Some(self.nodes()[node as int])
            } else {
                None
            }),
    {
        if node > u32::MAX as usize {
            None
        } else {
            net_node_weight(&self.net, node)
        }
    }

    /// Gives a node another action.
    pub fn set_action(&mut self, node: usize, action: All)
        requires
            old(self).wf(),
            old(self).nodes().contains_key(node as int),
        ensures
            final(self).wf(),
            final(self).nodes() == old(self).nodes().insert(node as int, action),
            final(self).tagged() == old(self).tagged(),
            final(self).slots() == old(self).slots(),
    {
        net_set_node_weight(&mut self.net, node, action);
        assert(self.nodes().dom() =~= old(self).nodes().dom());
    }

    /// Adds a node; it gets the index `slots()` as long as no node has left.
    pub fn add_node(&mut self, action: All) -> (index: usize)
        requires
            old(self).wf(),
            old(self).nodes().len() < u32::MAX,
        ensures
            final(self).wf(),
            !old(self).nodes().contains_key(index as int),
            final(self).nodes() == old(self).nodes().insert(index as int, action),
            final(self).tagged() == old(self).tagged(),
            old(self).nodes().len() == old(self).slots() ==> index == old(self).slots()
                && final(self).slots() == old(self).slots() + 1,
            old(self).nodes().len() != old(self).slots() ==> final(self).slots() == old(
                self,
            ).slots(),
    {
        let index = net_add_node(&mut self.net, action);
        index
    }

    /// Adds an edge in front of all others.
    pub fn add_edge(&mut self, source: usize, target: usize, kind: RelationType) -> (id: usize)
        requires
            old(self).wf(),
            old(self).nodes().contains_key(source as int),
            old(self).nodes().contains_key(target as int),
            old(self).tagged().len() < u32::MAX,
        ensures
            final(self).wf(),
            final(self).nodes() == old(self).nodes(),
            final(self).slots() == old(self).slots(),
            final(self).tagged() == seq![(id as int, source as int, target as int, kind)] + old(
                self,
            ).tagged(),
            final(self)@.edges == seq![
                Edge { source: source as int, target: target as int, kind },
            ] + old(self)@.edges,
            forall|k: int|
                0 <= k < old(self).tagged().len() ==> (#[trigger] old(self).tagged()[k]).0 != id,
    {
        let id = net_add_edge(&mut self.net, source, target, kind);
        proof {
            let new_edge: RawEdge = (id as int, source as int, target as int, kind);
            assert(self.tagged() == seq![new_edge] + old(self).tagged());
            assert forall|i: int, j: int| 0 <= i < j < self.tagged().len() implies raw_id()(
                #[trigger] self.tagged()[i],
            ) != raw_id()(#[trigger] self.tagged()[j]) by {
                if i == 0 {
                    assert(self.tagged()[j] == old(self).tagged()[j - 1]);
                } else {
                    assert(self.tagged()[i] == old(self).tagged()[i - 1]);
                    assert(self.tagged()[j] == old(self).tagged()[j - 1]);
                }
            }
            assert forall|i: int| 0 <= i < self.tagged().len() implies {
                let e = #[trigger] self.tagged()[i];
                &&& 0 <= e.0 <= u32::MAX
                &&& self.nodes().contains_key(e.1)
                &&& self.nodes().contains_key(e.2)
            } by {
                if i > 0 {
                    assert(self.tagged()[i] == old(self).tagged()[i - 1]);
                }
            }
            assert(self@.edges =~= seq![
                Edge { source: source as int, target: target as int, kind },
            ] + old(self)@.edges);
        }
        id
    }

    /// Takes out the edge with the index `id`, if there is one.
    pub fn remove_edge(&mut self, id: usize)
        requires
            old(self).wf(),
        ensures
            final(self).wf(),
            final(self).nodes() == old(self).nodes(),
            final(self).slots() == old(self).slots(),
            final(self).tagged() == edges_without_id(old(self).tagged(), id as int),
    {
        proof {
            lemma_filter_places(old(self).tagged(), other_id(id as int));
            lemma_filter_distinct(old(self).tagged(), other_id(id as int), raw_id());
        }
        if id <= u32::MAX as usize {
            net_remove_edge(&mut self.net, id);
        } else {
            proof {
                lemma_filter_all(old(self).tagged(), other_id(id as int));
            }
        }
        proof {
            let kept = edges_without_id(old(self).tagged(), id as int);
            assert forall|i: int| 0 <= i < kept.len() implies {
                let e = #[trigger] kept[i];
                &&& 0 <= e.0 <= u32::MAX
                &&& self.nodes().contains_key(e.1)
                &&& self.nodes().contains_key(e.2)
            } by {
                assert(old(self).tagged().contains(kept[i]));
            }
        }
    }

    /// Takes out a node, if the graph has it, with every edge from it or to it.
    pub fn remove_node(&mut self, node: usize)
        requires
            old(self).wf(),
        ensures
            final(self).wf(),
            final(self).nodes() == old(self).nodes().remove(node as int),
            final(self).slots() == old(self).slots(),
            final(self).tagged() == edges_without_node(old(self).tagged(), node as int),
            final(self)@.edges == old(self)@.edges.filter(avoids(node as int)),
    {
        let ghost keeps = away_from(node as int);
        proof {
            lemma_filter_places(old(self).tagged(), keeps);
            lemma_filter_distinct(old(self).tagged(), keeps, raw_id());
            lemma_filter_map(old(self).tagged(), stripper(), avoids(node as int), keeps);
        }
        if node <= u32::MAX as usize {
            net_remove_node(&mut self.net, node);
        } else {
            proof {
                assert(old(self).nodes().remove(node as int) =~= old(self).nodes());
                lemma_filter_all(old(self).tagged(), keeps);
            }
        }
        proof {
            let kept = edges_without_node(old(self).tagged(), node as int);
            assert forall|i: int| 0 <= i < kept.len() implies {
                let e = #[trigger] kept[i];
                &&& 0 <= e.0 <= u32::MAX
                &&& self.nodes().contains_key(e.1)
                &&& self.nodes().contains_key(e.2)
            } by {
                assert(old(self).tagged().contains(kept[i]));
            }
            if old(self).nodes().contains_key(node as int) {
                old(self).nodes().lemma_remove_key_len(node as int);
            } else {
                assert(old(self).nodes().remove(node as int) =~= old(self).nodes());
            }
        }
    }

    /// The edges that end in `node` (`Incoming`) or start from it
    /// (`Outgoing`), the one added last first.
    pub fn edges_directed(&self, node: usize, direction: Direction) -> (result: Vec<EdgeRef>)
        requires
            self.wf(),
        ensures
            raw_edges(result@) == edges_at(self.tagged(), node as int, direction),
    {
        if node <= u32::MAX as usize {
            net_edges_directed(&self.net, node, direction)
        } else {
            proof {
                lemma_filter_none(self.tagged(), at_node(node as int, direction));
            }
            let result: Vec<EdgeRef> = Vec::new();
            assert(raw_edges(result@) =~= Seq::<RawEdge>::empty());
            result
        }
    }

    /// The edges that end in `node`, the one added last first.
    pub fn incoming(&self, node: usize) -> (result: Vec<EdgeRef>)
        requires
            self.wf(),
        ensures
            raw_edges(result@) == edges_at(self.tagged(), node as int, Direction::Incoming),
            edges_of(result@) == incoming(self@.edges, node as int),
            forall|i: int|
                0 <= i < result@.len() ==> {
                    let e = #[trigger] result@[i];
                    &&& self.tagged().contains(e.raw())
                    &&& e.target == node
                    &&& self.nodes().contains_key(e.source as int)
                    &&& self.nodes().contains_key(e.target as int)
                },
    {
        let result = self.edges_directed(node, Direction::Incoming);
        proof {
            let test = at_node(node as int, Direction::Incoming);
            lemma_filter_map(self.tagged(), stripper(), into(node as int), test);
            lemma_filter_places(self.tagged(), test);
            assert forall|i: int| 0 <= i < result@.len() implies {
                let e = #[trigger] result@[i];
                &&& self.tagged().contains(e.raw())
                &&& e.target == node
                &&& self.nodes().contains_key(e.source as int)
                &&& self.nodes().contains_key(e.target as int)
            } by {
                assert(raw_edges(result@)[i] == result@[i].raw());
                let k = choose|k: int|
                    0 <= k < self.tagged().len() && self.tagged()[k] == result@[i].raw();
                assert(self.nodes().contains_key(self.tagged()[k].1));
            }
        }
        result
    }

    /// The edges that start from `node`, the one added last first.
    pub fn outgoing(&self, node: usize) -> (result: Vec<EdgeRef>)
        requires
            self.wf(),
        ensures
            raw_edges(result@) == edges_at(self.tagged(), node as int, Direction::Outgoing),
            edges_of(result@) == outgoing(self@.edges, node as int),
            forall|i: int|
                0 <= i < result@.len() ==> {
                    let e = #[trigger] result@[i];
                    &&& self.tagged().contains(e.raw())
                    &&& e.source == node
                    &&& self.nodes().contains_key(e.source as int)
                    &&& self.nodes().contains_key(e.target as int)
                },
    {
        let result = self.edges_directed(node, Direction::Outgoing);
        proof {
            let test = at_node(node as int, Direction::Outgoing);
            lemma_filter_map(self.tagged(), stripper(), out_of(node as int), test);
            lemma_filter_places(self.tagged(), test);
            assert forall|i: int| 0 <= i < result@.len() implies {
                let e = #[trigger] result@[i];
                &&& self.tagged().contains(e.raw())
                &&& e.source == node
                &&& self.nodes().contains_key(e.source as int)
                &&& self.nodes().contains_key(e.target as int)
            } by {
                assert(raw_edges(result@)[i] == result@[i].raw());
                let k = choose|k: int|
                    0 <= k < self.tagged().len() && self.tagged()[k] == result@[i].raw();
                assert(self.nodes().contains_key(self.tagged()[k].1));
            }
        }
        result
    }

    /// Adds edges one after the other, each in front of all others. Returns
    /// the new edges with their indices, the one added last first.
    pub(crate) fn add_edges(&mut self, edges: &Vec<NewEdge>) -> (fresh: Ghost<Seq<RawEdge>>)
        requires
            old(self).wf(),
            forall|i: int|
                0 <= i < edges@.len() ==> old(self).nodes().contains_key(
                    (#[trigger] edges@[i]).source as int,
                ) && old(self).nodes().contains_key(edges@[i].target as int),
            old(self).tagged().len() + edges@.len() <= u32::MAX,
        ensures
            final(self).wf(),
            final(self).nodes() == old(self).nodes(),
            final(self).slots() == old(self).slots(),
            final(self).tagged() == fresh@ + old(self).tagged(),
            strip_all(fresh@) == planned(edges@).reverse(),
            final(self)@.edges == planned(edges@).reverse() + old(self)@.edges,
            forall|i: int, k: int|
                0 <= i < fresh@.len() && 0 <= k < old(self).tagged().len() ==> (
                #[trigger] fresh@[i]).0 != (#[trigger] old(self).tagged()[k]).0,
    {
        let ghost mut fresh: Seq<RawEdge> = Seq::empty();
        let mut i: usize = 0;
        assert(self.tagged() =~= fresh + old(self).tagged());
        assert(strip_all(fresh) =~= planned(edges@.subrange(0, 0)).reverse());
        while i < edges.len()
            invariant
                i <= edges@.len(),
                self.wf(),
                self.nodes() == old(self).nodes(),
                self.slots() == old(self).slots(),
                forall|k: int|
                    0 <= k < edges@.len() ==> self.nodes().contains_key(
                        (#[trigger] edges@[k]).source as int,
                    ) && self.nodes().contains_key(edges@[k].target as int),
                old(self).tagged().len() + edges@.len() <= u32::MAX,
                fresh.len() == i,
                self.tagged() == fresh + old(self).tagged(),
                strip_all(fresh) == planned(edges@.subrange(0, i as int)).reverse(),
                forall|j: int, k: int|
                    0 <= j < fresh.len() && 0 <= k < old(self).tagged().len() ==> (
                    #[trigger] fresh[j]).0 != (#[trigger] old(self).tagged()[k]).0,
            decreases edges@.len() - i,
        {
            let edge = edges[i];
            let ghost before = self.tagged();
            let id = self.add_edge(edge.source, edge.target, edge.kind);
            proof {
                let new_edge: RawEdge = (
                    id as int,
                    edge.source as int,
                    edge.target as int,
                    edge.kind,
                );
                let longer = seq![new_edge] + fresh;
                assert(self.tagged() =~= longer + old(self).tagged());
                let done = planned(edges@.subrange(0, i as int));
                let next = planned(edges@.subrange(0, i as int + 1));
                assert(next =~= done.push(edge.edge()));
                assert(next.reverse() =~= seq![edge.edge()] + done.reverse());
                assert(strip_all(longer) =~= seq![strip(new_edge)] + strip_all(fresh));
                assert forall|j: int, k: int|
                    0 <= j < longer.len() && 0 <= k < old(self).tagged().len() implies (
                #[trigger] longer[j]).0 != (#[trigger] old(self).tagged()[k]).0 by {
                    if j == 0 {
                        assert(before[fresh.len() + k] == old(self).tagged()[k]);
                    } else {
                        assert(longer[j] == fresh[j - 1]);
                    }
                }
                fresh = longer;
            }
            i = i + 1;
        }
        proof {
            assert(edges@.subrange(0, edges@.len() as int) =~= edges@);
            assert(self@.edges =~= strip_all(fresh) + old(self)@.edges);
        }
        Ghost(fresh)
    }

    /// Takes out the edges with the indices `ids`.
    pub fn remove_edges(&mut self, ids: &Vec<usize>)
        requires
            old(self).wf(),
        ensures
            final(self).wf(),
            final(self).nodes() == old(self).nodes(),
            final(self).slots() == old(self).slots(),
            final(self).tagged() == old(self).tagged().filter(not_among(as_ints(ids@))),
    {
        let mut i: usize = 0;
        proof {
            assert(as_ints(ids@).subrange(0, 0) =~= Seq::<int>::empty());
            lemma_filter_all(old(self).tagged(), not_among(as_ints(ids@).subrange(0, 0)));
        }
        while i < ids.len()
            invariant
                i <= ids@.len(),
                self.wf(),
                self.nodes() == old(self).nodes(),
                self.slots() == old(self).slots(),
                self.tagged() == old(self).tagged().filter(
                    not_among(as_ints(ids@).subrange(0, i as int)),
                ),
            decreases ids@.len() - i,
        {
            self.remove_edge(ids[i]);
            proof {
                let done = as_ints(ids@).subrange(0, i as int);
                let next = as_ints(ids@).subrange(0, i as int + 1);
                assert(next =~= done.push(ids@[i as int] as int));
                assert forall|e: RawEdge| #[trigger]
                    not_among(next)(e) == (not_among(done)(e) && other_id(ids@[i as int] as int)(
                        e,
                    )) by {
                    if done.contains(e.0) {
                        let k = choose|k: int| 0 <= k < done.len() && done[k] == e.0;
                        assert(next[k] == e.0);
                    }
                    if e.0 == ids@[i as int] as int {
                        assert(next[done.len() as int] == e.0);
                    }
                    if next.contains(e.0) {
                        let k = choose|k: int| 0 <= k < next.len() && next[k] == e.0;
                        if k < done.len() {
                            assert(done[k] == e.0);
                        }
                    }
                }
                lemma_filter_twice(
                    old(self).tagged(),
                    not_among(done),
                    other_id(ids@[i as int] as int),
                    not_among(next),
                );
            }
            i = i + 1;
        }
        assert(as_ints(ids@).subrange(0, ids@.len() as int) =~= as_ints(ids@));
    }

    /// The graph in the language of Graphviz.
    pub fn dot(&self) -> (result: String)
        ensures
            result@ == dot_text(self.nodes(), self.tagged()),
    {
        net_dot(&self.net)
    }

    /// The node indices, ascending.
    pub fn node_indices(&self) -> (result: Vec<usize>)
        ensures
            forall|i: int, j: int| 0 <= i < j < result@.len() ==> result@[i] < result@[j],
            forall|i: int|
                0 <= i < result@.len() ==> self.nodes().contains_key((#[trigger] result@[i]) as int),
            forall|node: int|
                self.nodes().contains_key(node) ==> exists|i: int|
                    0 <= i < result@.len() && #[trigger] result@[i] == node,
    {
        net_node_indices(&self.net)
    }

    /// An order of the nodes in which every edge leads from an earlier node
    /// to a later one, or a node on a cycle. The order is the one that a
    /// topological sort of the graph with its edges turned round yields,
    /// read from its end.
    pub fn toposort(&self) -> (result: Result<Vec<usize>, usize>)
        ensures
            (match result {
                Ok(order) => Ok(as_ints(order@)),
                Err(node) => Err(node as int),
            }) == spec_order(self.nodes().dom(), links_of(self.tagged())),
            result matches Ok(order) ==> is_topological_order(
                self.nodes().dom(),
                links_of(self.tagged()),
                as_ints(order@),
            ),
            result matches Err(node) ==> on_cycle(links_of(self.tagged()), node as int),
    {
        match net_toposort_reversed(&self.net) {
            Ok(backwards) => {
                let mut order: Vec<usize> = Vec::new();
                let mut left: usize = backwards.len();
                while left > 0
                    invariant
                        left <= backwards@.len(),
                        order@.len() == backwards@.len() - left,
                        forall|i: int|
                            0 <= i < order@.len() ==> order@[i] == backwards@[backwards@.len() - 1
                                - i],
                    decreases left,
                {
                    left = left - 1;
                    order.push(backwards[left]);
                }
                proof {
                    assert(as_ints(order@) =~= as_ints(backwards@).reverse());
                    lemma_flipped_order(
                        self.nodes().dom(),
                        links_of(self.tagged()),
                        as_ints(backwards@),
                    );
                }
                Ok(order)
            },
            Err(node) => {
                proof {
                    lemma_flipped_cycle(links_of(self.tagged()), node as int);
                }
                Err(node)
            },
        }
    }

    /// Whether edges other than those from `from` straight to `to` lead
    /// from `from` to `to`.
    pub fn has_detour(&self, from: usize, to: usize) -> (result: bool)
        requires
            self.wf(),
            self.nodes().contains_key(from as int),
            self.nodes().contains_key(to as int),
        ensures
            result == connected(
                detour_links(self.tagged(), from as int, to as int),
                from as int,
                to as int,
            ),
    {
        net_has_detour(&self.net, from, to)
    }

    /// The nodes that `Move` and `Unblock` edges lead to from `start`,
    /// `start` among them, each once.
    pub fn slot_reach(&self, start: usize) -> (result: Vec<usize>)
        requires
            self.wf(),
            self.nodes().contains_key(start as int),
        ensures
            result@.no_duplicates(),
            forall|node: int|
                as_ints(result@).contains(node) <==> connected(
                    slot_links(self.tagged()),
                    start as int,
                    node,
                ),
    {
        net_slot_reach(&self.net, start)
    }
}

/// An edge that is to be added to a graph.
#[derive(Debug, Clone, Copy, PartialEq, Eq)]
pub struct NewEdge {
    pub source: usize,
    pub target: usize,
    pub kind: RelationType,
}

impl NewEdge {
    /// The edge in the model of the graph.
    pub open spec fn edge(self) -> Edge {
        Edge { source: self.source as int, target: self.target as int, kind: self.kind }
    }
}

/// The edges in the model of the graph.
pub open spec fn planned(edges: Seq<NewEdge>) -> Seq<Edge> {
    edges.map_values(|e: NewEdge| e.edge())
}

/// The edges that the graph handed out, in its model.
pub open spec fn edges_of(refs: Seq<EdgeRef>) -> Seq<Edge> {
    strip_all(raw_edges(refs))
}

/// The test for an edge that ends in `node`.
pub open spec fn into(node: int) -> spec_fn(Edge) -> bool {
    |e: Edge| e.target == node
}

/// The test for an edge that starts from `node`.
pub open spec fn out_of(node: int) -> spec_fn(Edge) -> bool {
    |e: Edge| e.source == node
}

/// The edges that end in `node`, the one added last first.
pub open spec fn incoming(edges: Seq<Edge>, node: int) -> Seq<Edge> {
    edges.filter(into(node))
}

/// The edges that start from `node`, the one added last first.
pub open spec fn outgoing(edges: Seq<Edge>, node: int) -> Seq<Edge> {
    edges.filter(out_of(node))
}

/// The test for an edge whose index is none of `ids`.
pub open spec fn not_among(ids: Seq<int>) -> spec_fn(RawEdge) -> bool {
    |e: RawEdge| !ids.contains(e.0)
}

/// Why a sequence of actions could not be optimized.
#[derive(Debug, Clone, Copy, PartialEq, Eq)]
pub enum OptimizeError {
    /// More actions or edges than the graph has indices for.
    TooLarge,
    /// The graph has a cycle through this node, so that its actions cannot
    /// be put in an order.
    Cycle { node: usize },
    /// A rewrite names a node that has left the graph.
    MissingNode { node: usize },
    /// A goal relation at the parent of a merge.
    GoalRelation { parent: usize },
    /// The parent of a merge puts down the card on which another action
    /// puts its own.
    SocketProvider { parent: usize },
    /// A single-card child takes its card from another action than its parent.
    SecondMoveParent { child: usize },
    /// Something was cleared for a single-card child though nothing came
    /// between its parent and itself.
    UnexplainedClear { child: usize },
    /// The parent of a merge has both an unblocking and a socket parent.
    BothParents { parent: usize },
    /// Two actions in a row take the same card out of the bunker.
    DoubleDebunkerize,
    /// A flower kill with a move parent.
    HuaKillChild,
    /// A move of several cards whose parent took them from the bunker.
    StackFromBunker,
    /// A move of the flower whose parent took it from the bunker.
    HuaFromBunker,
    /// A bunker loop whose actions are no bunker actions of the right direction.
    NotBunkerLoop { parent: usize, child: usize },
}

/// The largest number of actions that a graph is built for: with up to 16
/// edges into each action, the edges still have 32-bit indices.
pub const MAX_ACTIONS: usize = 0x0fff_ffff;

/// The edge of kind `kind` from a parent to `target`, as a function of the parent.
pub open spec fn edge_from(target: int, kind: RelationType) -> spec_fn(int) -> Edge {
    |parent: int| Edge { source: parent, target, kind }
}

/// The edge from the parent, if there is one.
pub open spec fn optional_edge(parent: Option<int>, target: int, kind: RelationType) -> Seq<Edge> {
    match parent {
        Some(parent) => seq![Edge { source: parent, target, kind }],
        None => Seq::empty(),
    }
}

/// The edges into the action at `index`, the one added last first: from the
/// destination parent, the goal parent, the clear parents, the move parents.
pub open spec fn spec_edges_into(actions: Seq<All>, index: int) -> Seq<Edge> {
    (match spec_destination_parent(actions, index) {
        Some((parent, kind)) => seq![Edge { source: parent, target: index, kind }],
        None => Seq::empty(),
    }) + optional_edge(spec_goal_parent(actions, index), index, RelationType::Goal)
        + spec_clear_parents(actions, index).map_values(
        edge_from(index, RelationType::Clear),
    ).reverse() + spec_move_parents(actions, index).map_values(
        edge_from(index, RelationType::Move),
    ).reverse()
}

/// The edges into the first `count` actions, the one added last first.
pub open spec fn spec_edges_upto(actions: Seq<All>, count: nat) -> Seq<Edge>
    decreases count,
{
    if count == 0 {
        Seq::empty()
    } else {
        spec_edges_into(actions, count - 1) + spec_edges_upto(actions, (count - 1) as nat)
    }
}

/// The first `count` actions by their index.
pub open spec fn spec_nodes_upto(actions: Seq<All>, count: nat) -> Map<int, All> {
    Map::new(|i: int| 0 <= i < count, |i: int| actions[i])
}

/// The dependency graph of a sequence of actions: node `i` holds action
/// `i`, and the edges into each action come from its parents.
pub open spec fn spec_to_graph(actions: Seq<All>) -> GraphView {
    GraphView {
        nodes: spec_nodes_upto(actions, actions.len()),
        edges: spec_edges_upto(actions, actions.len()),
    }
}

/// The order in which the nodes of a graph are put: what a topological
/// sort of the graph with its links turned round yields, read from its
/// end; or a node on a cycle.
pub open spec fn spec_order(nodes: Set<int>, links: Seq<(int, int)>) -> Result<Seq<int>, int> {
    match toposort_outcome(nodes, flipped(links)) {
        Ok(backwards) => Ok(backwards.reverse()),
        Err(node) => Err(node),
    }
}

/// The actions of a graph in an order that keeps every edge, or the cycle
/// that forbids one.
pub open spec fn spec_from_graph(graph: GraphView) -> Result<Seq<All>, OptimizeError> {
    match spec_order(graph.nodes.dom(), edge_links(graph.edges)) {
        Ok(order) => Ok(order.map_values(|node: int| graph.nodes[node])),
        Err(node) => Err(OptimizeError::Cycle { node: node as usize }),
    }
}

/// Whether the actions are those of the graph, each once, the action at
/// the source of each edge before the action at its target.
pub open spec fn keeps_edges(graph: GraphView, actions: Seq<All>) -> bool {
    exists|order: Seq<int>|
        #[trigger] is_topological_order(graph.nodes.dom(), edge_links(graph.edges), order)
            && actions == order.map_values(|node: int| graph.nodes[node])
}

/// An order against the links turned round, read from its end, is an
/// order along the links.
pub proof fn lemma_flipped_order(nodes: Set<int>, links: Seq<(int, int)>, backwards: Seq<int>)
    requires
        is_topological_order(nodes, flipped(links), backwards),
    ensures
        is_topological_order(nodes, links, backwards.reverse()),
{
    let order = backwards.reverse();
    let count = backwards.len() as int;
    assert forall|i: int, j: int| 0 <= i < order.len() && 0 <= j < order.len() && i != j implies order[i]
        != order[j] by {
        assert(order[i] == backwards[count - 1 - i]);
        assert(order[j] == backwards[count - 1 - j]);
    }
    assert forall|node: int| order.contains(node) <==> nodes.contains(node) by {
        if order.contains(node) {
            let i = choose|i: int| 0 <= i < order.len() && order[i] == node;
            assert(backwards[count - 1 - i] == node);
        }
        if backwards.contains(node) {
            let i = choose|i: int| 0 <= i < backwards.len() && backwards[i] == node;
            assert(order[count - 1 - i] == node);
        }
    }
    assert forall|i: int, j: int|
        0 <= i < order.len() && 0 <= j < order.len() && links.contains(
            (#[trigger] order[i], #[trigger] order[j]),
        ) implies i < j by {
        let k = choose|k: int| 0 <= k < links.len() && links[k] == (order[i], order[j]);
        assert(flipped(links)[k] == (order[j], order[i]));
        assert(flipped(links).contains((backwards[count - 1 - j], backwards[count - 1 - i])));
    }
}

/// A cycle of the links turned round is a cycle of the links.
pub proof fn lemma_flipped_cycle(links: Seq<(int, int)>, node: int)
    requires
        on_cycle(flipped(links), node),
    ensures
        on_cycle(links, node),
{
    reveal(is_path);
    let round = choose|path: Seq<int>|
        #[trigger] is_path(flipped(links), path) && path.len() >= 2 && path[0] == node
            && path.last() == node;
    let back = round.reverse();
    let count = round.len() as int;
    assert forall|i: int| 0 <= i < back.len() - 1 implies links.contains(
        (#[trigger] back[i], back[i + 1]),
    ) by {
        let at = count - 2 - i;
        assert(back[i] == round[at + 1]);
        assert(back[i + 1] == round[at]);
        assert(flipped(links).contains((round[at], round[at + 1])));
        let k = choose|k: int|
            0 <= k < flipped(links).len() && flipped(links)[k] == (round[at], round[at + 1]);
        assert(links[k] == (round[at + 1], round[at]));
    }
    assert(is_path(links, back) && back.len() >= 2 && back[0] == node && back.last() == node);
}

/// Every edge into one of the first `count` actions comes from an earlier action.
pub proof fn lemma_edges_upto_ascend(actions: Seq<All>, count: nat)
    requires
        count <= actions.len(),
    ensures
        forall|k: int|
            0 <= k < spec_edges_upto(actions, count).len() ==> {
                let e = #[trigger] spec_edges_upto(actions, count)[k];
                0 <= e.source < e.target < count
            },
    decreases count,
{
    if count > 0 {
        let index = count - 1;
        lemma_edges_upto_ascend(actions, index as nat);
        lemma_parents_before(actions, index);
        let into = spec_edges_into(actions, index);
        assert forall|k: int| 0 <= k < into.len() implies {
            let e = #[trigger] into[k];
            0 <= e.source < e.target < count
        } by {
        }
    }
}

fn add_parent_edges(
    graph: &mut ActionGraph,
    parents: &Vec<usize>,
    target: usize,
    kind: RelationType,
)
    requires
        old(graph).wf(),
        old(graph).nodes().contains_key(target as int),
        forall|i: int|
            0 <= i < parents@.len() ==> old(graph).nodes().contains_key(
                (#[trigger] parents@[i]) as int,
            ),
        old(graph).tagged().len() + parents@.len() <= u32::MAX,
    ensures
        final(graph).wf(),
        final(graph).nodes() == old(graph).nodes(),
        final(graph).slots() == old(graph).slots(),
        final(graph).tagged().len() == old(graph).tagged().len() + parents@.len(),
        final(graph)@.edges == as_ints(parents@).map_values(
            edge_from(target as int, kind),
        ).reverse() + old(graph)@.edges,
{
    let mut i: usize = 0;
    assert(graph@.edges =~= as_ints(parents@).subrange(0, 0).map_values(
        edge_from(target as int, kind),
    ).reverse() + old(graph)@.edges);
    while i < parents.len()
        invariant
            i <= parents@.len(),
            graph.wf(),
            graph.nodes() == old(graph).nodes(),
            graph.slots() == old(graph).slots(),
            graph.nodes().contains_key(target as int),
            forall|k: int|
                0 <= k < parents@.len() ==> graph.nodes().contains_key(
                    (#[trigger] parents@[k]) as int,
                ),
            old(graph).tagged().len() + parents@.len() <= u32::MAX,
            graph.tagged().len() == old(graph).tagged().len() + i,
            graph@.edges == as_ints(parents@).subrange(0, i as int).map_values(
                edge_from(target as int, kind),
            ).reverse() + old(graph)@.edges,
        decreases parents@.len() - i,
    {
        let ghost before = graph@.edges;
        graph.add_edge(parents[i], target, kind);
        proof {
            let all = as_ints(parents@);
            let done = all.subrange(0, i as int).map_values(edge_from(target as int, kind));
            let next = all.subrange(0, i as int + 1).map_values(edge_from(target as int, kind));
            assert(next =~= done.push(edge_from(target as int, kind)(all[i as int])));
            assert(next.reverse() =~= seq![edge_from(target as int, kind)(all[i as int])]
                + done.reverse());
            assert(graph@.edges =~= next.reverse() + old(graph)@.edges);
        }
        i = i + 1;
    }
    assert(as_ints(parents@).subrange(0, parents@.len() as int) =~= as_ints(parents@));
}

fn add_optional_edge(
    graph: &mut ActionGraph,
    parent: Option<usize>,
    target: usize,
    kind: RelationType,
)
    requires
        old(graph).wf(),
        old(graph).nodes().contains_key(target as int),
        parent matches Some(node) ==> old(graph).nodes().contains_key(node as int),
        old(graph).tagged().len() < u32::MAX,
    ensures
        final(graph).wf(),
        final(graph).nodes() == old(graph).nodes(),
        final(graph).slots() == old(graph).slots(),
        final(graph).tagged().len() <= old(graph).tagged().len() + 1,
        final(graph)@.edges == optional_edge(
            match parent {
                Some(node) => Some(node as int),
                None => None,
            },
            target as int,
            kind,
        ) + old(graph)@.edges,
{
    if let Some(node) = parent {
        graph.add_edge(node, target, kind);
    } else {
        assert(graph@.edges =~= Seq::<Edge>::empty() + old(graph)@.edges);
    }
}

/// Adds the action at `index` to the graph of the actions before it:
/// a node for it, and an edge from each of its parents.
fn add_action(graph: &mut ActionGraph, actions: &[All], index: usize)
    requires
        old(graph).wf(),
        index < actions@.len() <= MAX_ACTIONS,
        old(graph).slots() == index,
        old(graph).nodes() == spec_nodes_upto(actions@, index as nat),
        old(graph).nodes().len() == index,
        old(graph).tagged().len() <= 16 * index,
    ensures
        final(graph).wf(),
        final(graph).slots() == index + 1,
        final(graph).nodes() == spec_nodes_upto(actions@, (index + 1) as nat),
        final(graph).nodes().len() == index + 1,
        final(graph).tagged().len() <= 16 * (index + 1),
        final(graph)@.edges == spec_edges_into(actions@, index as int) + old(graph)@.edges,
{
    let current_node = graph.add_node(actions[index]);
    assert(graph.nodes() =~= spec_nodes_upto(actions@, (index + 1) as nat));
    let move_parents = get_move_parents(actions, index);
    add_parent_edges(graph, &move_parents, current_node, RelationType::Move);
    let ghost after_moves = graph@.edges;
    let clear_parents = get_clear_parents(actions, index);
    add_parent_edges(graph, &clear_parents, current_node, RelationType::Clear);
    let ghost after_clears = graph@.edges;
    let goal_parent = get_goal_parent(actions, index);
    add_optional_edge(graph, goal_parent, current_node, RelationType::Goal);
    let ghost after_goal = graph@.edges;
    match get_destination_parent(actions, index) {
        Some((parent, relation)) => {
            graph.add_edge(parent, current_node, relation);
        },
        None => {},
    }
    proof {
        let moves = spec_move_parents(actions@, index as int).map_values(
            edge_from(index as int, RelationType::Move),
        ).reverse();
        let clears = spec_clear_parents(actions@, index as int).map_values(
            edge_from(index as int, RelationType::Clear),
        ).reverse();
        let goal = optional_edge(
            spec_goal_parent(actions@, index as int),
            index as int,
            RelationType::Goal,
        );
        assert(after_moves == moves + old(graph)@.edges);
        assert(after_clears == clears + after_moves);
        assert(after_goal == goal + after_clears);
        assert(graph@.edges =~= spec_edges_into(actions@, index as int) + old(graph)@.edges);
    }
}

/// Builds the dependency graph of a sequence of actions.
pub fn to_graph(actions: &[All]) -> (result: Result<ActionGraph, OptimizeError>)
    ensures
        match result {
            Ok(graph) => {
                &&& actions@.len() <= MAX_ACTIONS
                &&& graph.wf()
                &&& graph@ == spec_to_graph(actions@)
                &&& graph.slots() == actions@.len()
                &&& acyclic(edge_links(graph@.edges))
            },
            Err(error) => error == OptimizeError::TooLarge && actions@.len() > MAX_ACTIONS,
        },
{
    if actions.len() > MAX_ACTIONS {
        return Err(OptimizeError::TooLarge);
    }
    let mut graph = ActionGraph::new();
    let mut index: usize = 0;
    assert(graph.nodes() =~= spec_nodes_upto(actions@, 0));
    assert(graph@.edges =~= spec_edges_upto(actions@, 0));
    while index < actions.len()
        invariant
            index <= actions@.len() <= MAX_ACTIONS,
            graph.wf(),
            graph.slots() == index,
            graph.nodes() == spec_nodes_upto(actions@, index as nat),
            graph.nodes().len() == index,
            graph@.edges == spec_edges_upto(actions@, index as nat),
            graph.tagged().len() <= 16 * index,
        decreases actions@.len() - index,
    {
        add_action(&mut graph, actions, index);
        index = index + 1;
    }
    proof {
        lemma_built_graph_acyclic(actions@);
    }
    Ok(graph)
}

/// Puts the actions of a graph in an order that keeps every edge.
pub fn from_graph(graph: &ActionGraph) -> (result: Result<Vec<All>, OptimizeError>)
    requires
        graph.wf(),
    ensures
        match result {
            Ok(actions) => Ok(actions@),
            Err(error) => Err(error),
        } == spec_from_graph(graph@),
        result matches Ok(actions) ==> actions@.len() == graph@.nodes.len() && keeps_edges(
            graph@,
            actions@,
        ),
        result matches Err(error) ==> (error matches OptimizeError::Cycle { node } && on_cycle(
            edge_links(graph@.edges),
            node as int,
        )),
        acyclic(edge_links(graph@.edges)) ==> result is Ok,
{
    proof {
        lemma_links(graph.tagged());
    }
    match graph.toposort() {
        Ok(order) => {
            let ghost places = as_ints(order@);
            let ghost wanted = places.map_values(|node: int| graph@.nodes[node]);
            let mut result: Vec<All> = Vec::new();
            let mut i: usize = 0;
            while i < order.len()
                invariant
                    i <= order@.len(),
                    graph.wf(),
                    places == as_ints(order@),
                    wanted == places.map_values(|node: int| graph@.nodes[node]),
                    is_topological_order(graph.nodes().dom(), links_of(graph.tagged()), places),
                    result@ == wanted.subrange(0, i as int),
                decreases order@.len() - i,
            {
                assert(places.contains(places[i as int]));
                if let Some(action) = graph.action(order[i]) {
                    result.push(action);
                }
                assert(result@ =~= wanted.subrange(0, i as int + 1));
                i = i + 1;
            }
            assert(wanted.subrange(0, order@.len() as int) =~= wanted);
            proof {
                places.unique_seq_to_set();
                assert(places.to_set() =~= graph.nodes().dom());
                assert(is_topological_order(
                    graph@.nodes.dom(),
                    edge_links(graph@.edges),
                    places,
                ));
            }
            Ok(result)
        },
        Err(node) => Err(OptimizeError::Cycle { node }),
    }
}

/// The links of edges do not depend on their indices.
pub proof fn lemma_links(edges: Seq<RawEdge>)
    ensures
        links_of(edges) == edge_links(strip_all(edges)),
{
    assert(links_of(edges) =~= edge_links(strip_all(edges)));
}

/// Whether every link leads from a lower index to a higher one.
pub open spec fn ascending(links: Seq<(int, int)>) -> bool {
    forall|k: int| 0 <= k < links.len() ==> (#[trigger] links[k]).0 < links[k].1
}

/// Whether no node lies on a cycle.
pub open spec fn acyclic(links: Seq<(int, int)>) -> bool {
    forall|node: int| !on_cycle(links, node)
}

proof fn lemma_path_ascends(links: Seq<(int, int)>, path: Seq<int>, place: int)
    requires
        ascending(links),
        is_path(links, path),
        1 <= place < path.len(),
    ensures
        path[0] < path[place],
    decreases place,
{
    reveal(is_path);
    assert(links.contains((path[place - 1], path[place - 1 + 1])));
    let k = choose|k: int|
        0 <= k < links.len() && links[k] == (path[place - 1], path[place - 1 + 1]);
    assert(links[k].0 < links[k].1);
    if place > 1 {
        lemma_path_ascends(links, path, place - 1);
    }
}

/// Links that all lead upwards form no cycle.
pub proof fn lemma_ascending_acyclic(links: Seq<(int, int)>)
    requires
        ascending(links),
    ensures
        acyclic(links),
{
    assert forall|node: int| !on_cycle(links, node) by {
        if on_cycle(links, node) {
            let path = choose|path: Seq<int>|
                #[trigger] is_path(links, path) && path.len() >= 2 && path[0] == node
                    && path.last() == node;
            lemma_path_ascends(links, path, path.len() - 1);
        }
    }
}

/// The graph that is built from a sequence of actions has no cycle: each of
/// its edges leads from an earlier action to a later one.
pub proof fn lemma_built_graph_acyclic(actions: Seq<All>)
    ensures
        ascending(edge_links(spec_to_graph(actions).edges)),
        acyclic(edge_links(spec_to_graph(actions).edges)),
{
    lemma_edges_upto_ascend(actions, actions.len());
    let links = edge_links(spec_to_graph(actions).edges);
    assert forall|k: int| 0 <= k < links.len() implies (#[trigger] links[k]).0 < links[k].1 by {
        let e = spec_edges_upto(actions, actions.len())[k];
        assert(0 <= e.source < e.target);
    }
    lemma_ascending_acyclic(links);
}

} // verus!
