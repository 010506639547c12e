use vstd::prelude::*;
use petgraph::algo::{has_path_connecting, toposort};
use petgraph::dot::{Config, Dot};
use petgraph::stable_graph::{EdgeIndex, NodeIndex, StableGraph};
use petgraph::visit::{Dfs, EdgeFiltered, EdgeRef as PetEdgeRef, Reversed};
use petgraph::{Directed, Direction};
use crate::action_optimization::drawing::{edge_attr, node_attr};
use crate::action_optimization::util::as_ints;
use crate::actions::base::All;

verus! {

/// Why one action has to come before another.
#[derive(Debug, Copy, Clone, PartialEq, Eq, Structural)]
pub enum RelationType {
    /// The earlier action put a card where the later one takes it.
    Move,
    /// The earlier action emptied the cell that the later one fills.
    Unblock,
    /// The earlier action took away what lay on the card that the later one takes.
    Clear,
    /// The earlier action put down the card that the later one puts a card on.
    Socket,
    /// The earlier action sent the next lower rank of the suit to the goal.
    Goal,
}

/// An edge as the graph hands it out: its index, its ends and its kind.
#[derive(Debug, Copy, Clone, PartialEq, Eq)]
pub struct EdgeRef {
    pub id: usize,
    pub source: usize,
    pub target: usize,
    pub kind: RelationType,
}

/// `petgraph::stable_graph::StableGraph`: a graph whose node and edge
/// indices stay as they are when other nodes and edges leave.
#[verifier::external_type_specification]
#[verifier::external_body]
#[verifier::reject_recursive_types(N)]
#[verifier::reject_recursive_types(E)]
#[verifier::reject_recursive_types(Ty)]
#[verifier::reject_recursive_types(Ix)]
pub struct ExStableGraph<N, E, Ty, Ix>(StableGraph<N, E, Ty, Ix>);

/// `petgraph::Directed`: the mark of a graph whose edges have a direction.
#[verifier::external_type_specification]
#[verifier::external_body]
pub struct ExDirected(Directed);

/// `petgraph::Direction`: `Outgoing` or `Incoming`.
#[verifier::external_type_specification]
pub struct ExDirection(Direction);

/// The graph that holds the actions and what relates them.
pub type ActionNet = StableGraph<All, RelationType, Directed, u32>;

/// An edge in the model of the graph: edge index, source, target and kind.
pub type RawEdge = (int, int, int, RelationType);

/// The nodes of a graph: the weight of each node by its index.
pub uninterp spec fn graph_nodes(graph: ActionNet) -> Map<int, All>;

/// The edges of a graph with their indices, the one added last first.
/// This is the order in which the graph hands out the edges of a node: a
/// new edge comes to stand in front of the edges of both its ends, and an
/// edge that leaves does not change the order of the others.
pub uninterp spec fn graph_edges(graph: ActionNet) -> Seq<(int, int, int, RelationType)>;

/// The number of node indices that a graph has in use or has had in use:
/// its nodes are numbered from 0 up to this number, with a gap wherever a
/// node has left.
pub uninterp spec fn graph_slots(graph: ActionNet) -> nat;

/// The text in which `petgraph::dot::Dot` describes a graph in the
/// language of Graphviz without labels, each node and each edge with the
/// attributes that `node_attr` and `edge_attr` give it.
pub uninterp spec fn dot_text(nodes: Map<int, All>, edges: Seq<(int, int, int, RelationType)>) -> Seq<
    char,
>;

/// What `petgraph::algo::toposort` yields on a graph with the nodes
/// `nodes` and the links `links` (source and target of each edge, the one
/// added last first): an order of the nodes, or a node that lies on a cycle.
pub uninterp spec fn toposort_outcome(nodes: Set<int>, links: Seq<(int, int)>) -> Result<
    Seq<int>,
    int,
>;

impl EdgeRef {
    /// The edge in the model of the graph.
    pub open spec fn raw(self) -> RawEdge {
        (self.id as int, self.source as int, self.target as int, self.kind)
    }
}

/// The edges in the model of the graph.
pub open spec fn raw_edges(refs: Seq<EdgeRef>) -> Seq<RawEdge> {
    refs.map_values(|r: EdgeRef| r.raw())
}

/// Whether an edge ends in `node` (`Incoming`) or starts from it (`Outgoing`).
pub open spec fn touches(edge: RawEdge, node: int, direction: Direction) -> bool {
    if direction == Direction::Incoming {
        edge.2 == node
    } else {
        edge.1 == node
    }
}

/// The test for an edge that ends in `node` or starts from it.
pub open spec fn at_node(node: int, direction: Direction) -> spec_fn(RawEdge) -> bool {
    |e: RawEdge| touches(e, node, direction)
}

/// The test for an edge with another index than `id`.
pub open spec fn other_id(id: int) -> spec_fn(RawEdge) -> bool {
    |e: RawEdge| e.0 != id
}

/// The test for an edge that neither starts from `node` nor ends in it.
pub open spec fn away_from(node: int) -> spec_fn(RawEdge) -> bool {
    |e: RawEdge| e.1 != node && e.2 != node
}

/// The edges that end in `node` or start from it, in their order.
pub open spec fn edges_at(edges: Seq<RawEdge>, node: int, direction: Direction) -> Seq<RawEdge> {
    edges.filter(at_node(node, direction))
}

/// The edges but the one with index `id`.
pub open spec fn edges_without_id(edges: Seq<RawEdge>, id: int) -> Seq<RawEdge> {
    edges.filter(other_id(id))
}

/// The edges that neither start from `node` nor end in it.
pub open spec fn edges_without_node(edges: Seq<RawEdge>, node: int) -> Seq<RawEdge> {
    edges.filter(away_from(node))
}

/// Source and target of each edge.
pub open spec fn links_of(edges: Seq<RawEdge>) -> Seq<(int, int)> {
    edges.map_values(|e: RawEdge| (e.1, e.2))
}

/// The links turned round: each leads from its target to its source.
pub open spec fn flipped(links: Seq<(int, int)>) -> Seq<(int, int)> {
    links.map_values(|link: (int, int)| (link.1, link.0))
}

/// Whether each node of `path` but the last has a link to the next.
#[verifier::opaque]
pub open spec fn is_path(links: Seq<(int, int)>, path: Seq<int>) -> bool {
    &&& path.len() >= 1
    &&& forall|i: int| 0 <= i < path.len() - 1 ==> links.contains((#[trigger] path[i], path[i + 1]))
}

/// Whether links lead from `from` to `to`; every node is connected to itself.
pub open spec fn connected(links: Seq<(int, int)>, from: int, to: int) -> bool {
    exists|path: Seq<int>| #[trigger] is_path(links, path) && path[0] == from && path.last() == to
}

/// Whether links lead from `node` back to it.
pub open spec fn on_cycle(links: Seq<(int, int)>, node: int) -> bool {
    exists|path: Seq<int>|
        #[trigger] is_path(links, path) && path.len() >= 2 && path[0] == node && path.last()
            == node
}

/// Whether `order` holds each of `nodes` once and nothing else, every link
/// leading from an earlier place to a later one.
pub open spec fn is_topological_order(nodes: Set<int>, links: Seq<(int, int)>, order: Seq<int>)
    -> bool {
    &&& order.no_duplicates()
    &&& forall|node: int| order.contains(node) <==> nodes.contains(node)
    &&& forall|i: int, j: int|
        0 <= i < order.len() && 0 <= j < order.len() && links.contains(
            (#[trigger] order[i], #[trigger] order[j]),
        ) ==> i < j
}

/// Whether an edge leads elsewhere than from `from` straight to `to`.
pub open spec fn spec_is_detour_edge(edge: RawEdge, from: int, to: int) -> bool {
    !(edge.1 == from && edge.2 == to)
}

/// The test for an edge that leads elsewhere than from `from` straight to `to`.
pub open spec fn detours(from: int, to: int) -> spec_fn(RawEdge) -> bool {
    |e: RawEdge| spec_is_detour_edge(e, from, to)
}

/// The test for an edge of a relation that hands a card on.
pub open spec fn slot_carrier() -> spec_fn(RawEdge) -> bool {
    |e: RawEdge| spec_carries_slot(e.3)
}

/// The links that lead elsewhere than from `from` straight to `to`.
pub open spec fn detour_links(edges: Seq<RawEdge>, from: int, to: int) -> Seq<(int, int)> {
    links_of(edges.filter(detours(from, to)))
}

/// Whether a relation hands a card on, so that a change of bunker slot has
/// to follow it: `Move` and `Unblock` do.
pub open spec fn spec_carries_slot(kind: RelationType) -> bool {
    kind == RelationType::Move || kind == RelationType::Unblock
}

/// The links of the relations that hand a card on.
pub open spec fn slot_links(edges: Seq<RawEdge>) -> Seq<(int, int)> {
    links_of(edges.filter(slot_carrier()))
}

/// Whether an edge leads elsewhere than from `from` straight to `to`.
pub fn is_detour_edge(source: usize, target: usize, from: usize, to: usize) -> (result: bool)
    ensures
        result == !(source == from && target == to),
{
    !(source == from && target == to)
}

/// Whether a relation hands a card on: `Move` and `Unblock` do.
pub fn carries_slot(kind: RelationType) -> (result: bool)
    ensures
        result == spec_carries_slot(kind),
{
    match kind {
        RelationType::Move | RelationType::Unblock => true,
        RelationType::Clear | RelationType::Socket | RelationType::Goal => false,
    }
}

/// `StableGraph::new`: a graph without nodes, edges or slots.
#[verifier::external_body]
pub(crate) fn net_new() -> (result: ActionNet)
    ensures
        graph_nodes(result).dom() == Set::<int>::empty(),
        graph_edges(result).len() == 0,
        graph_slots(result) == 0,
{
    StableGraph::new()
}

/// `StableGraph::add_node`: the node takes a vacant slot if there is one,
/// else a new slot behind the others; the edges stay.
#[verifier::external_body]
pub(crate) fn net_add_node(graph: &mut ActionNet, weight: All) -> (index: usize)
    requires
        graph_nodes(*old(graph)).dom().finite(),
        graph_nodes(*old(graph)).len() < u32::MAX,
    ensures
        !graph_nodes(*old(graph)).contains_key(index as int),
        graph_nodes(*final(graph)) == graph_nodes(*old(graph)).insert(index as int, weight),
        graph_edges(*final(graph)) == graph_edges(*old(graph)),
        graph_nodes(*old(graph)).len() == graph_slots(*old(graph)) ==> index == graph_slots(
            *old(graph),
        ) && graph_slots(*final(graph)) == graph_slots(*old(graph)) + 1,
        graph_nodes(*old(graph)).len() != graph_slots(*old(graph)) ==> index < graph_slots(
            *old(graph),
        ) && graph_slots(*final(graph)) == graph_slots(*old(graph)),
{
    graph.add_node(weight).index()
}

/// `StableGraph::add_edge`: the edge gets an index that no live edge has and
/// stands before all others; the nodes stay.
#[verifier::external_body]
pub(crate) fn net_add_edge(graph: &mut ActionNet, source: usize, target: usize, kind: RelationType)
    -> (id: usize)
    requires
        graph_nodes(*old(graph)).contains_key(source as int),
        graph_nodes(*old(graph)).contains_key(target as int),
        source <= u32::MAX,
        target <= u32::MAX,
        graph_edges(*old(graph)).len() < u32::MAX,
    ensures
        id <= u32::MAX,
        forall|k: int|
            0 <= k < graph_edges(*old(graph)).len() ==> (#[trigger] graph_edges(*old(graph))[k]).0
                != id,
        graph_edges(*final(graph)) == seq![(id as int, source as int, target as int, kind)]
            + graph_edges(*old(graph)),
        graph_nodes(*final(graph)) == graph_nodes(*old(graph)),
        graph_slots(*final(graph)) == graph_slots(*old(graph)),
{
    graph.add_edge(NodeIndex::new(source), NodeIndex::new(target), kind).index()
}

/// `StableGraph::remove_node`: the node leaves with every edge that starts
/// from it or ends in it; the other edges keep their order, the slots stay.
#[verifier::external_body]
pub(crate) fn net_remove_node(graph: &mut ActionNet, node: usize)
    requires
        node <= u32::MAX,
    ensures
        graph_nodes(*final(graph)) == graph_nodes(*old(graph)).remove(node as int),
        graph_edges(*final(graph)) == edges_without_node(graph_edges(*old(graph)), node as int),
        graph_slots(*final(graph)) == graph_slots(*old(graph)),
{
    graph.remove_node(NodeIndex::new(node));
}

/// `StableGraph::remove_edge`: the edge with that index leaves; the other
/// edges keep their order, the nodes stay.
#[verifier::external_body]
pub(crate) fn net_remove_edge(graph: &mut ActionNet, id: usize)
    requires
        id <= u32::MAX,
    ensures
        graph_edges(*final(graph)) == edges_without_id(graph_edges(*old(graph)), id as int),
        graph_nodes(*final(graph)) == graph_nodes(*old(graph)),
        graph_slots(*final(graph)) == graph_slots(*old(graph)),
{
    graph.remove_edge(EdgeIndex::new(id));
}

/// `StableGraph::node_weight`: the weight of a live node.
#[verifier::external_body]
pub(crate) fn net_node_weight(graph: &ActionNet, node: usize) -> (result: Option<All>)
    requires
        node <= u32::MAX,
    ensures
        result == (if graph_nodes(*graph).contains_key(node as int) {
            Some(graph_nodes(*graph)[node as int])
        } else {
            None
        }),
{
    graph.node_weight(NodeIndex::new(node)).copied()
}

/// Assignment through the `IndexMut` of `StableGraph`: the node gets a new
/// weight; everything else stays.
#[verifier::external_body]
pub(crate) fn net_set_node_weight(graph: &mut ActionNet, node: usize, weight: All)
    requires
        node <= u32::MAX,
        graph_nodes(*old(graph)).contains_key(node as int),
    ensures
        graph_nodes(*final(graph)) == graph_nodes(*old(graph)).insert(node as int, weight),
        graph_edges(*final(graph)) == graph_edges(*old(graph)),
        graph_slots(*final(graph)) == graph_slots(*old(graph)),
{
    graph[NodeIndex::new(node)] = weight;
}

/// `StableGraph::edges_directed`: the edges that end in `node` (`Incoming`)
/// or start from it (`Outgoing`), the one added last first.
#[verifier::external_body]
pub(crate) fn net_edges_directed(graph: &ActionNet, node: usize, direction: Direction) -> (result:
    Vec<EdgeRef>)
    requires
        node <= u32::MAX,
    ensures
        raw_edges(result@) == edges_at(graph_edges(*graph), node as int, direction),
{
    graph.edges_directed(NodeIndex::new(node), direction).map(
        |e| EdgeRef {
            id: e.id().index(),
            source: e.source().index(),
            target: e.target().index(),
            kind: *e.weight(),
        },
    ).collect()
}

/// `StableGraph::node_count`: the number of live nodes.
#[verifier::external_body]
pub(crate) fn net_node_count(graph: &ActionNet) -> (result: usize)
    ensures
        result == graph_nodes(*graph).len(),
{
    graph.node_count()
}

/// `StableGraph::edge_count`: the number of live edges.
#[verifier::external_body]
pub(crate) fn net_edge_count(graph: &ActionNet) -> (result: usize)
    ensures
        result == graph_edges(*graph).len(),
{
    graph.edge_count()
}

/// `StableGraph::node_indices`: the indices of the live nodes, ascending.
#[verifier::external_body]
pub(crate) fn net_node_indices(graph: &ActionNet) -> (result: Vec<usize>)
    ensures
        forall|i: int, j: int| 0 <= i < j < result@.len() ==> result@[i] < result@[j],
        forall|i: int|
            0 <= i < result@.len() ==> graph_nodes(*graph).contains_key(
                (#[trigger] result@[i]) as int,
            ),
        forall|node: int|
            graph_nodes(*graph).contains_key(node) ==> exists|i: int|
                0 <= i < result@.len() && #[trigger] result@[i] == node,
{
    graph.node_indices().map(|n| n.index()).collect()
}

/// `petgraph::algo::toposort` on the graph with its edges turned round
/// (`petgraph::visit::Reversed`): an order of the nodes in which every
/// edge leads from a later node to an earlier one, or a node that lies on
/// a cycle.
#[verifier::external_body]
pub(crate) fn net_toposort_reversed(graph: &ActionNet) -> (result: Result<Vec<usize>, usize>)
    ensures
        (match result {
            Ok(order) => Ok(as_ints(order@)),
            Err(node) => Err(node as int),
        }) == toposort_outcome(graph_nodes(*graph).dom(), flipped(links_of(graph_edges(*graph)))),
        result matches Ok(order) ==> is_topological_order(
            graph_nodes(*graph).dom(),
            flipped(links_of(graph_edges(*graph))),
            as_ints(order@),
        ),
        result matches Err(node) ==> on_cycle(flipped(links_of(graph_edges(*graph))), node as int),
{
    match toposort(Reversed(graph), None) {
        Ok(order) => Ok(order.into_iter().map(|n| n.index()).collect()),
        Err(cycle) => Err(cycle.node_id().index()),
    }
}

/// `petgraph::algo::has_path_connecting` on the graph without the edges
/// that lead from `from` straight to `to`: whether other edges lead there.
#[verifier::external_body]
pub(crate) fn net_has_detour(graph: &ActionNet, from: usize, to: usize) -> (result: bool)
    requires
        from <= u32::MAX,
        to <= u32::MAX,
        graph_nodes(*graph).contains_key(from as int),
        graph_nodes(*graph).contains_key(to as int),
    ensures
        result == connected(detour_links(graph_edges(*graph), from as int, to as int), from as int, to as int),
{
    let filtered = EdgeFiltered::from_fn(
        graph,
        |e| is_detour_edge(e.source().index(), e.target().index(), from, to),
    );
    has_path_connecting(&filtered, NodeIndex::new(from), NodeIndex::new(to), None)
}

/// `petgraph::visit::Dfs` from `start` along the edges of the relations that
/// hand a card on: each node that they lead to, once.
#[verifier::external_body]
pub(crate) fn net_slot_reach(graph: &ActionNet, start: usize) -> (result: Vec<usize>)
    requires
        start <= u32::MAX,
        graph_nodes(*graph).contains_key(start as int),
    ensures
        result@.no_duplicates(),
        forall|node: int|
            as_ints(result@).contains(node) <==> connected(
                slot_links(graph_edges(*graph)),
                start as int,
                node,
            ),
{
    let filtered = EdgeFiltered::from_fn(graph, |e| carries_slot(*e.weight()));
    let mut dfs = Dfs::new(&filtered, NodeIndex::new(start));
    let mut result = Vec::new();
    while let Some(node) = dfs.next(&filtered) {
        result.push(node.index());
    }
    result
}

/// The `Debug` output of `petgraph::dot::Dot` without labels: the graph
/// in the language of Graphviz, with the attributes of its nodes and edges.
#[verifier::external_body]
pub(crate) fn net_dot(graph: &ActionNet) -> (result: String)
    ensures
        result@ == dot_text(graph_nodes(*graph), graph_edges(*graph)),
{
    format!(
        "{:?}",
        Dot::with_attr_getters(
            graph,
            &[Config::EdgeNoLabel, Config::NodeNoLabel],
            &|_graph, edge| edge_attr(edge.weight()),
            &|_graph, node| node_attr(node.1),
        )
    )
}

} // verus!
